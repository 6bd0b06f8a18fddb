//! Text handling over character sequences: whitespace trimming, comparison,
//! splitting, decimal parsing and decimal formatting.

use vstd::prelude::*;

verus! {

// ---------------------------------------------------------------------------
// Whitespace and trimming
// ---------------------------------------------------------------------------

/// The Unicode `White_Space` property, which `str::trim` strips.
pub open spec fn is_space(c: char) -> bool {
    let u = c as u32;
    ||| (0x09 <= u && u <= 0x0D)
    ||| u == 0x20
    ||| u == 0x85
    ||| u == 0xA0
    ||| u == 0x1680
    ||| (0x2000 <= u && u <= 0x200A)
    ||| u == 0x2028
    ||| u == 0x2029
    ||| u == 0x202F
    ||| u == 0x205F
    ||| u == 0x3000
}

/// `s` without its leading whitespace.
pub open spec fn trim_start(s: Seq<char>) -> Seq<char>
    decreases s.len(),
{
    if s.len() > 0 && is_space(s[0]) {
        trim_start(s.drop_first())
    } else {
        s
    }
}

/// `s` without its trailing whitespace.
pub open spec fn trim_end(s: Seq<char>) -> Seq<char>
    decreases s.len(),
{
    if s.len() > 0 && is_space(s.last()) {
        trim_end(s.drop_last())
    } else {
        s
    }
}

/// `s` without leading and trailing whitespace, as `str::trim` gives it.
pub open spec fn trimmed(s: Seq<char>) -> Seq<char> {
    trim_end(trim_start(s))
}

/// A text is blank when nothing is left of it after trimming.
pub open spec fn is_blank(s: Seq<char>) -> bool {
    trimmed(s).len() == 0
}

pub fn char_is_space(c: char) -> (r: bool)
    ensures
        r == is_space(c),
{
    let u = c as u32;
    (0x09 <= u && u <= 0x0D) || u == 0x20 || u == 0x85 || u == 0xA0 || u == 0x1680 || (0x2000
        <= u && u <= 0x200A) || u == 0x2028 || u == 0x2029 || u == 0x202F || u == 0x205F || u
        == 0x3000
}

fn trim_start_str<'a>(s: &'a str) -> (r: &'a str)
    ensures
        r@ == trim_start(s@),
    decreases s@.len(),
{
    let n = s.unicode_len();
    if n > 0 && char_is_space(s.get_char(0)) {
        let rest = s.substring_char(1, n);
        assert(rest@ =~= s@.drop_first());
        trim_start_str(rest)
    } else {
        s
    }
}

fn trim_end_str<'a>(s: &'a str) -> (r: &'a str)
    ensures
        r@ == trim_end(s@),
    decreases s@.len(),
{
    let n = s.unicode_len();
    if n > 0 && char_is_space(s.get_char(n - 1)) {
        let rest = s.substring_char(0, n - 1);
        assert(rest@ =~= s@.drop_last());
        trim_end_str(rest)
    } else {
        s
    }
}

/// Borrows `s` without its leading and trailing whitespace.
pub fn trim<'a>(s: &'a str) -> (r: &'a str)
    ensures
        r@ == trimmed(s@),
{
    trim_end_str(trim_start_str(s))
}

/// An owned copy of `s` without its leading and trailing whitespace.
pub fn trim_owned(s: &str) -> (r: String)
    ensures
        r@ == trimmed(s@),
{
    trim(s).to_owned()
}

pub fn is_blank_str(s: &str) -> (r: bool)
    ensures
        r == is_blank(s@),
{
    trim(s).unicode_len() == 0
}

// ---------------------------------------------------------------------------
// Building and comparing text
// ---------------------------------------------------------------------------

/// `String::push` from std: appends one character.
#[verifier::external_body]
pub fn push_char(s: &mut String, c: char)
    ensures
        final(s)@ == old(s)@.push(c),
{
    s.push(c);
}

/// An owned copy of `s`.
pub fn owned(s: &str) -> (r: String)
    ensures
        r@ == s@,
{
    s.to_owned()
}

/// The characters of `s`, one per element.
pub fn chars_of(s: &str) -> (v: Vec<char>)
    ensures
        v@ == s@,
{
    let n = s.unicode_len();
    let mut v: Vec<char> = Vec::new();
    let mut i: usize = 0;
    while i < n
        invariant
            n == s@.len(),
            i <= n,
            v@ == s@.subrange(0, i as int),
        decreases n - i,
    {
        v.push(s.get_char(i));
        i = i + 1;
        assert(v@ =~= s@.subrange(0, i as int));
    }
    assert(v@ =~= s@);
    v
}

/// A string made of the characters `chars[from..to]`.
pub fn string_of(chars: &Vec<char>, from: usize, to: usize) -> (r: String)
    requires
        from <= to <= chars@.len(),
    ensures
        r@ == chars@.subrange(from as int, to as int),
{
    let mut r = String::new();
    let mut i = from;
    while i < to
        invariant
            from <= i <= to <= chars@.len(),
            r@ == chars@.subrange(from as int, i as int),
        decreases to - i,
    {
        push_char(&mut r, chars[i]);
        i = i + 1;
        assert(r@ =~= chars@.subrange(from as int, i as int));
    }
    r
}

/// Exact equality of two texts.
pub fn str_eq(a: &str, b: &str) -> (r: bool)
    ensures
        r == (a@ == b@),
{
    let n = a.unicode_len();
    if n != b.unicode_len() {
        return false;
    }
    let mut i: usize = 0;
    while i < n
        invariant
            n == a@.len(),
            n == b@.len(),
            i <= n,
            forall|j: int| 0 <= j < i ==> a@[j] == b@[j],
        decreases n - i,
    {
        if a.get_char(i) != b.get_char(i) {
            return false;
        }
        i = i + 1;
    }
    assert(a@ =~= b@);
    true
}

/// The code point of `c` with ASCII upper case letters mapped to lower case.
pub open spec fn ascii_lower_code(c: char) -> u32 {
    if 'A' <= c && c <= 'Z' {
        (c as u32 + 32) as u32
    } else {
        c as u32
    }
}

/// Equality up to ASCII case, as `str::eq_ignore_ascii_case` decides it.
pub open spec fn eq_ignore_ascii_case(a: Seq<char>, b: Seq<char>) -> bool {
    &&& a.len() == b.len()
    &&& forall|i: int| 0 <= i < a.len() ==> ascii_lower_code(a[i]) == ascii_lower_code(b[i])
}

fn lower_code(c: char) -> (r: u32)
    ensures
        r == ascii_lower_code(c),
{
    if 'A' <= c && c <= 'Z' {
        c as u32 + 32
    } else {
        c as u32
    }
}

pub fn str_eq_ignore_ascii_case(a: &str, b: &str) -> (r: bool)
    ensures
        r == eq_ignore_ascii_case(a@, b@),
{
    let n = a.unicode_len();
    if n != b.unicode_len() {
        return false;
    }
    let mut i: usize = 0;
    while i < n
        invariant
            n == a@.len(),
            n == b@.len(),
            i <= n,
            forall|j: int| 0 <= j < i ==> ascii_lower_code(a@[j]) == ascii_lower_code(b@[j]),
        decreases n - i,
    {
        if lower_code(a.get_char(i)) != lower_code(b.get_char(i)) {
            return false;
        }
        i = i + 1;
    }
    true
}

/// `p` is a prefix of `s`.
pub open spec fn is_prefix(p: Seq<char>, s: Seq<char>) -> bool {
    p.len() <= s.len() && s.subrange(0, p.len() as int) == p
}

pub fn has_prefix(p: &str, s: &str) -> (r: bool)
    ensures
        r == is_prefix(p@, s@),
{
    let n = p.unicode_len();
    if n > s.unicode_len() {
        return false;
    }
    let mut i: usize = 0;
    while i < n
        invariant
            n == p@.len(),
            n <= s@.len(),
            i <= n,
            forall|j: int| 0 <= j < i ==> p@[j] == s@[j],
        decreases n - i,
    {
        if p.get_char(i) != s.get_char(i) {
            return false;
        }
        i = i + 1;
    }
    assert(s@.subrange(0, n as int) =~= p@);
    true
}

/// `s` begins with the character `c`.
pub fn starts_with_char(s: &str, c: char) -> (r: bool)
    ensures
        r == (s@.len() > 0 && s@[0] == c),
{
    s.unicode_len() > 0 && s.get_char(0) == c
}

// ---------------------------------------------------------------------------
// Splitting
// ---------------------------------------------------------------------------

/// The fields of `s` between occurrences of the separators `a` and `b`, in
/// order: `k` separators give `k + 1` fields, the empty text one empty field.
pub open spec fn fields(s: Seq<char>, a: char, b: char) -> Seq<Seq<char>>
    decreases s.len(),
{
    if s.len() == 0 {
        seq![Seq::<char>::empty()]
    } else {
        let prev = fields(s.drop_last(), a, b);
        let c = s.last();
        if c == a || c == b {
            prev.push(Seq::<char>::empty())
        } else {
            prev.update(prev.len() - 1, prev.last().push(c))
        }
    }
}

/// The trimmed, non-blank items of a list of fields, in order.
pub open spec fn kept_items(fs: Seq<Seq<char>>) -> Seq<Seq<char>>
    decreases fs.len(),
{
    if fs.len() == 0 {
        Seq::empty()
    } else {
        let rest = kept_items(fs.drop_last());
        let t = trimmed(fs.last());
        if t.len() > 0 {
            rest.push(t)
        } else {
            rest
        }
    }
}

/// The items of a list such as "a, b\nc": split at either separator, trim
/// each field and drop the blank ones.
pub open spec fn list_items(s: Seq<char>, a: char, b: char) -> Seq<Seq<char>> {
    kept_items(fields(s, a, b))
}

pub proof fn lemma_fields_nonempty(s: Seq<char>, a: char, b: char)
    ensures
        fields(s, a, b).len() >= 1,
    decreases s.len(),
{
    if s.len() > 0 {
        lemma_fields_nonempty(s.drop_last(), a, b);
    }
}

/// Splitting `s + w`, where `w` holds no separator, extends the last field
/// of `s` by `w`.
pub proof fn lemma_fields_append_plain(s: Seq<char>, w: Seq<char>, a: char, b: char)
    requires
        forall|i: int| 0 <= i < w.len() ==> w[i] != a && w[i] != b,
    ensures
        fields(s + w, a, b) == fields(s, a, b).update(
            fields(s, a, b).len() - 1,
            fields(s, a, b).last() + w,
        ),
    decreases w.len(),
{
    lemma_fields_nonempty(s, a, b);
    let f = fields(s, a, b);
    if w.len() == 0 {
        assert(s + w =~= s);
        assert(f.last() + w =~= f.last());
        assert(f.update(f.len() - 1, f.last()) =~= f);
    } else {
        let w1 = w.drop_last();
        lemma_fields_append_plain(s, w1, a, b);
        assert((s + w).drop_last() =~= s + w1);
        assert((s + w).last() == w.last());
        assert(f.last() + w =~= (f.last() + w1).push(w.last()));
        let prev = f.update(f.len() - 1, f.last() + w1);
        assert(prev.update(prev.len() - 1, prev.last().push(w.last())) =~= f.update(
            f.len() - 1,
            f.last() + w,
        ));
    }
}

/// Lines that hold no line break, joined with line breaks, split back into
/// the same lines.
pub proof fn lemma_fields_of_joined_lines(lines: Seq<Seq<char>>)
    requires
        lines.len() > 0,
        forall|i: int| 0 <= i < lines.len() ==> !(#[trigger] lines[i]).contains('\n'),
    ensures
        fields(joined(lines, "\n"@), '\n', '\n') == lines,
    decreases lines.len(),
{
    reveal_strlit("\n");
    let x = lines.last();
    assert forall|i: int| 0 <= i < x.len() implies x[i] != '\n' by {
        assert(!lines[lines.len() - 1].contains('\n'));
        if x[i] == '\n' {
            assert(x.contains('\n'));
        }
    }
    if lines.len() == 1 {
        lemma_fields_append_plain(Seq::empty(), x, '\n', '\n');
        assert(Seq::<char>::empty() + x =~= x);
        assert(fields(Seq::<char>::empty(), '\n', '\n') == seq![Seq::<char>::empty()]);
        assert(seq![Seq::<char>::empty()].update(0, Seq::<char>::empty() + x) =~= lines);
    } else {
        let d = lines.drop_last();
        assert forall|i: int| 0 <= i < d.len() implies !(#[trigger] d[i]).contains('\n') by {
            assert(d[i] == lines[i]);
        }
        lemma_fields_of_joined_lines(d);
        let j = joined(d, "\n"@);
        let s = j + "\n"@;
        assert(s.drop_last() =~= j);
        assert(s.last() == '\n');
        assert(fields(s, '\n', '\n') == d.push(Seq::<char>::empty()));
        lemma_fields_append_plain(s, x, '\n', '\n');
        assert(joined(lines, "\n"@) == s + x);
        assert(Seq::<char>::empty() + x =~= x);
        assert(d.push(Seq::<char>::empty()).update(d.len() as int, Seq::<char>::empty() + x)
            =~= lines);
    }
}

/// Trimming never lengthens a text.
pub proof fn lemma_trim_lengths(s: Seq<char>)
    ensures
        trim_start(s).len() <= s.len(),
        trim_end(s).len() <= s.len(),
    decreases s.len(),
{
    if s.len() > 0 {
        lemma_trim_lengths(s.drop_first());
        lemma_trim_lengths(s.drop_last());
    }
}

/// A non-empty text that trimming leaves alone begins and ends with a
/// character that is not whitespace.
pub proof fn lemma_trimmed_ends(s: Seq<char>)
    requires
        trimmed(s) == s,
        s.len() > 0,
    ensures
        !is_space(s[0]),
        !is_space(s.last()),
{
    lemma_trim_lengths(s);
    if is_space(s[0]) {
        lemma_trim_lengths(s.drop_first());
        lemma_trim_lengths(trim_start(s));
        assert(trim_start(s) == trim_start(s.drop_first()));
        assert(false);
    }
    assert(trim_start(s) == s);
    if is_space(s.last()) {
        lemma_trim_lengths(s.drop_last());
        assert(trim_end(s) == trim_end(s.drop_last()));
        assert(false);
    }
}

/// Splits `s` at the separators `a` and `b`, trims every field and keeps the
/// non-blank ones in order.
pub fn split_items(s: &str, a: char, b: char) -> (r: Vec<String>)
    ensures
        r@.map_values(|x: String| x@) == list_items(s@, a, b),
{
    let chars = chars_of(s);
    let n = chars.len();
    let mut items: Vec<String> = Vec::new();
    let mut start: usize = 0;
    let mut i: usize = 0;
    proof {
        assert(chars@.subrange(0, 0) =~= Seq::<char>::empty());
        lemma_fields_nonempty(Seq::<char>::empty(), a, b);
    }
    while i < n
        invariant
            chars@ == s@,
            n == chars@.len(),
            start <= i <= n,
            fields(chars@.subrange(0, i as int), a, b).len() >= 1,
            fields(chars@.subrange(0, i as int), a, b).last() == chars@.subrange(
                start as int,
                i as int,
            ),
            items@.map_values(|x: String| x@) == kept_items(
                fields(chars@.subrange(0, i as int), a, b).drop_last(),
            ),
        decreases n - i,
    {
        let ghost prefix = chars@.subrange(0, i as int);
        let ghost next = chars@.subrange(0, i + 1);
        assert(next.drop_last() =~= prefix);
        assert(next.last() == chars@[i as int]);
        let c = chars[i];
        if c == a || c == b {
            let field = string_of(&chars, start, i);
            let t = trim_owned(field.as_str());
            let ghost before = items@.map_values(|x: String| x@);
            if t.unicode_len() > 0 {
                items.push(t);
            }
            proof {
                let fs = fields(prefix, a, b);
                assert(fields(next, a, b) == fs.push(Seq::<char>::empty()));
                assert(fields(next, a, b).drop_last() =~= fs);
                assert(fs.drop_last() =~= fs.drop_last());
                assert(items@.map_values(|x: String| x@) =~= kept_items(fs));
            }
            start = i + 1;
        } else {
            proof {
                let fs = fields(prefix, a, b);
                assert(fields(next, a, b) == fs.update(fs.len() - 1, fs.last().push(c)));
                assert(fields(next, a, b).drop_last() =~= fs.drop_last());
                assert(chars@.subrange(start as int, i + 1) =~= chars@.subrange(
                    start as int,
                    i as int,
                ).push(c));
            }
        }
        i = i + 1;
    }
    let field = string_of(&chars, start, n);
    let t = trim_owned(field.as_str());
    if t.unicode_len() > 0 {
        items.push(t);
    }
    proof {
        let fs = fields(chars@.subrange(0, n as int), a, b);
        assert(chars@.subrange(0, n as int) =~= s@);
        assert(fs.drop_last().push(fs.last()) =~= fs);
        assert(items@.map_values(|x: String| x@) =~= kept_items(fs));
    }
    items
}

/// Position of the first occurrence of `c` in `s`, if any.
pub open spec fn first_index_of(s: Seq<char>, c: char) -> Option<int> {
    if exists|i: int| 0 <= i < s.len() && s[i] == c {
        Some(choose|i: int| 0 <= i < s.len() && s[i] == c && forall|j: int| 0 <= j < i ==> s[j] != c)
    } else {
        None
    }
}

/// Finds the first occurrence of `c`, as `str::split_once` does.
pub fn find_char(chars: &Vec<char>, c: char) -> (r: Option<usize>)
    ensures
        match r {
            Some(i) => i < chars@.len() && chars@[i as int] == c && forall|j: int|
                0 <= j < i ==> chars@[j] != c,
            None => forall|j: int| 0 <= j < chars@.len() ==> chars@[j] != c,
        },
{
    let mut i: usize = 0;
    while i < chars.len()
        invariant
            i <= chars@.len(),
            forall|j: int| 0 <= j < i ==> chars@[j] != c,
        decreases chars@.len() - i,
    {
        if chars[i] == c {
            return Some(i);
        }
        i = i + 1;
    }
    None
}

// ---------------------------------------------------------------------------
// Decimal numbers
// ---------------------------------------------------------------------------

pub open spec fn is_digit(c: char) -> bool {
    '0' <= c && c <= '9'
}

pub open spec fn digit_value(c: char) -> int {
    c as u32 - '0' as u32
}

pub open spec fn all_digits(s: Seq<char>) -> bool {
    forall|i: int| 0 <= i < s.len() ==> is_digit(s[i])
}

/// The number that a sequence of decimal digits denotes.
pub open spec fn digits_value(s: Seq<char>) -> int
    decreases s.len(),
{
    if s.len() == 0 {
        0
    } else {
        digits_value(s.drop_last()) * 10 + digit_value(s.last())
    }
}

/// The digits that `FromStr` for an unsigned integer reads: the text after an
/// optional leading `+`.
pub open spec fn unsigned_digits(s: Seq<char>) -> Seq<char> {
    if s.len() > 0 && s[0] == '+' {
        s.drop_first()
    } else {
        s
    }
}

/// The value of an unsigned decimal text at most `limit`, as `FromStr` for an
/// unsigned integer type whose maximum is `limit` reads it.
pub open spec fn parsed_unsigned(s: Seq<char>, limit: int) -> Option<int> {
    let d = unsigned_digits(s);
    if d.len() > 0 && all_digits(d) && digits_value(d) <= limit {
        Some(digits_value(d))
    } else {
        None
    }
}

/// `u64::from_str`.
pub open spec fn parsed_u64(s: Seq<char>) -> Option<u64> {
    match parsed_unsigned(s, u64::MAX as int) {
        Some(v) => Some(v as u64),
        None => None,
    }
}

/// `usize::from_str`.
pub open spec fn parsed_usize(s: Seq<char>) -> Option<usize> {
    match parsed_unsigned(s, usize::MAX as int) {
        Some(v) => Some(v as usize),
        None => None,
    }
}

/// `i32::from_str`: an optional sign, then decimal digits, within range.
pub open spec fn parsed_i32(s: Seq<char>) -> Option<i32> {
    if s.len() > 0 && s[0] == '-' {
        let d = s.drop_first();
        if d.len() > 0 && all_digits(d) && digits_value(d) <= 0x8000_0000 {
            Some((-digits_value(d)) as i32)
        } else {
            None
        }
    } else {
        match parsed_unsigned(s, i32::MAX as int) {
            Some(v) => Some(v as i32),
            None => None,
        }
    }
}

pub proof fn lemma_digits_value_nonneg(s: Seq<char>)
    requires
        all_digits(s),
    ensures
        digits_value(s) >= 0,
    decreases s.len(),
{
    if s.len() > 0 {
        lemma_digits_value_nonneg(s.drop_last());
    }
}

/// Appending digits never makes the value smaller.
pub proof fn lemma_digits_value_prefix(s: Seq<char>, k: int)
    requires
        all_digits(s),
        0 <= k <= s.len(),
    ensures
        digits_value(s.subrange(0, k)) <= digits_value(s),
    decreases s.len(),
{
    if k < s.len() {
        let d = s.drop_last();
        assert(d.subrange(0, k) =~= s.subrange(0, k));
        lemma_digits_value_prefix(d, k);
        lemma_digits_value_nonneg(d);
        assert(is_digit(s.last()));
    } else {
        assert(s.subrange(0, k) =~= s);
    }
}

/// Reads `chars[from..]` as decimal digits: `Some` of the value exactly when
/// that text is non-empty, all digits, and its value is at most `limit`.
fn parse_digits(chars: &Vec<char>, from: usize, limit: u64) -> (r: Option<u64>)
    requires
        from <= chars@.len(),
    ensures
        ({
            let d = chars@.subrange(from as int, chars@.len() as int);
            match r {
                Some(v) => d.len() > 0 && all_digits(d) && digits_value(d) <= limit
                    && v == digits_value(d),
                None => !(d.len() > 0 && all_digits(d) && digits_value(d) <= limit),
            }
        }),
{
    let n = chars.len();
    let ghost d = chars@.subrange(from as int, n as int);
    if from == n {
        return None;
    }
    let mut acc: u64 = 0;
    let mut i = from;
    while i < n
        invariant
            n == chars@.len(),
            from <= i <= n,
            d == chars@.subrange(from as int, n as int),
            all_digits(d.subrange(0, i - from)),
            acc == digits_value(d.subrange(0, i - from)),
            acc <= limit,
        decreases n - i,
    {
        let c = chars[i];
        let ghost before = d.subrange(0, i - from);
        let ghost after = d.subrange(0, i + 1 - from);
        assert(after.drop_last() =~= before);
        if !('0' <= c && c <= '9') {
            assert(!is_digit(d[i - from]));
            return None;
        }
        let digit = (c as u32 - '0' as u32) as u64;
        assert(digits_value(after) == acc * 10 + digit);
        if digit > limit || acc > (limit - digit) / 10 {
            proof {
                if digit <= limit {
                    assert(acc * 10 + digit > limit) by (nonlinear_arith)
                        requires
                            acc > (limit - digit) / 10,
                            digit <= limit,
                    ;
                }
                if all_digits(d) {
                    lemma_digits_value_prefix(d, i + 1 - from);
                }
            }
            return None;
        }
        assert(acc * 10 + digit <= limit) by (nonlinear_arith)
            requires
                acc <= (limit - digit) / 10,
                digit <= limit,
        ;
        acc = acc * 10 + digit;
        i = i + 1;
    }
    assert(d.subrange(0, n - from) =~= d);
    Some(acc)
}

/// `u64::from_str`.
pub fn parse_u64(s: &str) -> (r: Option<u64>)
    ensures
        r == parsed_u64(s@),
{
    let chars = chars_of(s);
    let from: usize = if chars.len() > 0 && chars[0] == '+' { 1 } else { 0 };
    proof {
        assert(chars@.subrange(from as int, chars@.len() as int) =~= unsigned_digits(s@));
    }
    parse_digits(&chars, from, u64::MAX)
}

/// `usize::from_str`.
pub fn parse_usize(s: &str) -> (r: Option<usize>)
    ensures
        r == parsed_usize(s@),
{
    let chars = chars_of(s);
    let from: usize = if chars.len() > 0 && chars[0] == '+' { 1 } else { 0 };
    proof {
        assert(chars@.subrange(from as int, chars@.len() as int) =~= unsigned_digits(s@));
    }
    match parse_digits(&chars, from, usize::MAX as u64) {
        Some(v) => Some(v as usize),
        None => None,
    }
}

/// `i32::from_str`.
pub fn parse_i32(s: &str) -> (r: Option<i32>)
    ensures
        r == parsed_i32(s@),
{
    let chars = chars_of(s);
    if chars.len() > 0 && chars[0] == '-' {
        proof {
            assert(chars@.subrange(1, chars@.len() as int) =~= s@.drop_first());
        }
        match parse_digits(&chars, 1, 0x8000_0000) {
            Some(v) => Some((0 - (v as i64)) as i32),
            None => None,
        }
    } else {
        let from: usize = if chars.len() > 0 && chars[0] == '+' { 1 } else { 0 };
        proof {
            assert(chars@.subrange(from as int, chars@.len() as int) =~= unsigned_digits(s@));
        }
        match parse_digits(&chars, from, 0x7fff_ffff) {
            Some(v) => Some(v as i32),
            None => None,
        }
    }
}

/// The decimal digit character for `d < 10`.
pub open spec fn digit_char(d: int) -> char {
    if d == 0 {
        '0'
    } else if d == 1 {
        '1'
    } else if d == 2 {
        '2'
    } else if d == 3 {
        '3'
    } else if d == 4 {
        '4'
    } else if d == 5 {
        '5'
    } else if d == 6 {
        '6'
    } else if d == 7 {
        '7'
    } else if d == 8 {
        '8'
    } else {
        '9'
    }
}

/// The decimal text of `n`, without sign or leading zeros, as `to_string` writes it.
pub open spec fn decimal(n: nat) -> Seq<char>
    decreases n,
{
    if n < 10 {
        seq![digit_char(n as int)]
    } else {
        decimal(n / 10).push(digit_char((n % 10) as int))
    }
}

/// The decimal text of `n` padded with leading zeros to at least `width`
/// characters, as the format `{:0width}` writes it.
pub open spec fn zero_padded(n: nat, width: nat) -> Seq<char> {
    let d = decimal(n);
    if d.len() < width {
        Seq::new((width - d.len()) as nat, |i: int| '0') + d
    } else {
        d
    }
}

fn digit_to_char(d: u64) -> (c: char)
    requires
        d < 10,
    ensures
        c == digit_char(d as int),
{
    if d == 0 {
        '0'
    } else if d == 1 {
        '1'
    } else if d == 2 {
        '2'
    } else if d == 3 {
        '3'
    } else if d == 4 {
        '4'
    } else if d == 5 {
        '5'
    } else if d == 6 {
        '6'
    } else if d == 7 {
        '7'
    } else if d == 8 {
        '8'
    } else {
        '9'
    }
}

/// The decimal text of `n`.
pub fn decimal_string(n: u64) -> (r: String)
    ensures
        r@ == decimal(n as nat),
    decreases n,
{
    if n < 10 {
        let mut r = String::new();
        push_char(&mut r, digit_to_char(n));
        assert(r@ =~= seq![digit_char(n as int)]);
        r
    } else {
        let mut r = decimal_string(n / 10);
        push_char(&mut r, digit_to_char(n % 10));
        r
    }
}

/// The decimal text of `n`, zero-padded to at least `width` characters.
pub fn zero_padded_string(n: u64, width: usize) -> (r: String)
    ensures
        r@ == zero_padded(n as nat, width as nat),
{
    let d = decimal_string(n);
    let len = d.unicode_len();
    if len < width {
        let mut r = String::new();
        let mut i: usize = 0;
        while i < width - len
            invariant
                len < width,
                i <= width - len,
                r@ == Seq::new(i as nat, |j: int| '0'),
            decreases width - len - i,
        {
            push_char(&mut r, '0');
            i = i + 1;
            assert(r@ =~= Seq::new(i as nat, |j: int| '0'));
        }
        r.append(d.as_str());
        r
    } else {
        d
    }
}

// ---------------------------------------------------------------------------
// Joining
// ---------------------------------------------------------------------------

/// `items` joined with `sep` between consecutive items, as `[String]::join`.
pub open spec fn joined(items: Seq<Seq<char>>, sep: Seq<char>) -> Seq<char>
    decreases items.len(),
{
    if items.len() == 0 {
        Seq::empty()
    } else if items.len() == 1 {
        items[0]
    } else {
        joined(items.drop_last(), sep) + sep + items.last()
    }
}

pub fn join(items: &Vec<String>, sep: &str) -> (r: String)
    ensures
        r@ == joined(items@.map_values(|x: String| x@), sep@),
{
    let mut r = String::new();
    let ghost views = items@.map_values(|x: String| x@);
    let mut i: usize = 0;
    while i < items.len()
        invariant
            i <= items@.len(),
            views == items@.map_values(|x: String| x@),
            r@ == joined(views.subrange(0, i as int), sep@),
        decreases items@.len() - i,
    {
        let ghost next = views.subrange(0, i + 1);
        assert(next.drop_last() =~= views.subrange(0, i as int));
        if i > 0 {
            r.append(sep);
        }
        r.append(items[i].as_str());
        proof {
            if i == 0 {
                assert(r@ =~= next[0]);
            }
        }
        i = i + 1;
    }
    assert(views.subrange(0, items@.len() as int) =~= views);
    r
}

// ---------------------------------------------------------------------------
// More splitting helpers
// ---------------------------------------------------------------------------

/// Splits `s` at every occurrence of `sep`, keeping every field as it is.
pub fn split_fields(s: &str, sep: char) -> (r: Vec<String>)
    ensures
        r@.map_values(|x: String| x@) == fields(s@, sep, sep),
{
    let chars = chars_of(s);
    let n = chars.len();
    let mut out: Vec<String> = Vec::new();
    let mut start: usize = 0;
    let mut i: usize = 0;
    proof {
        assert(chars@.subrange(0, 0) =~= Seq::<char>::empty());
        lemma_fields_nonempty(Seq::<char>::empty(), sep, sep);
        assert(out@.map_values(|x: String| x@) =~= fields(Seq::<char>::empty(), sep, sep).drop_last());
    }
    while i < n
        invariant
            chars@ == s@,
            n == chars@.len(),
            start <= i <= n,
            fields(chars@.subrange(0, i as int), sep, sep).len() >= 1,
            fields(chars@.subrange(0, i as int), sep, sep).last() == chars@.subrange(
                start as int,
                i as int,
            ),
            out@.map_values(|x: String| x@) == fields(chars@.subrange(0, i as int), sep, sep).drop_last(),
        decreases n - i,
    {
        let ghost prefix = chars@.subrange(0, i as int);
        let ghost next = chars@.subrange(0, i + 1);
        assert(next.drop_last() =~= prefix);
        assert(next.last() == chars@[i as int]);
        let c = chars[i];
        if c == sep {
            let field = string_of(&chars, start, i);
            let ghost before = out@.map_values(|x: String| x@);
            out.push(field);
            proof {
                let fs = fields(prefix, sep, sep);
                assert(fields(next, sep, sep) == fs.push(Seq::<char>::empty()));
                assert(fields(next, sep, sep).drop_last() =~= fs);
                assert(fs =~= fs.drop_last().push(fs.last()));
                assert(out@.map_values(|x: String| x@) =~= fs);
            }
            start = i + 1;
        } else {
            proof {
                let fs = fields(prefix, sep, sep);
                assert(fields(next, sep, sep) == fs.update(fs.len() - 1, fs.last().push(c)));
                assert(fields(next, sep, sep).drop_last() =~= fs.drop_last());
                assert(chars@.subrange(start as int, i + 1) =~= chars@.subrange(
                    start as int,
                    i as int,
                ).push(c));
            }
        }
        i = i + 1;
    }
    let field = string_of(&chars, start, n);
    out.push(field);
    proof {
        let fs = fields(chars@.subrange(0, n as int), sep, sep);
        assert(chars@.subrange(0, n as int) =~= s@);
        assert(fs.drop_last().push(fs.last()) =~= fs);
        assert(out@.map_values(|x: String| x@) =~= fs);
    }
    out
}

/// Where `s` ends with `suffix`, the text before it.
pub open spec fn without_suffix(s: Seq<char>, suffix: Seq<char>) -> Option<Seq<char>> {
    if suffix.len() <= s.len() && s.subrange(s.len() - suffix.len(), s.len() as int) == suffix {
        Some(s.subrange(0, s.len() - suffix.len()))
    } else {
        None
    }
}

/// `str::strip_suffix`.
pub fn strip_suffix<'a>(s: &'a str, suffix: &str) -> (r: Option<&'a str>)
    ensures
        match r {
            Some(t) => without_suffix(s@, suffix@) == Some(t@),
            None => without_suffix(s@, suffix@) is None,
        },
{
    let n = s.unicode_len();
    let m = suffix.unicode_len();
    if m > n {
        return None;
    }
    let mut i: usize = 0;
    while i < m
        invariant
            n == s@.len(),
            m == suffix@.len(),
            m <= n,
            i <= m,
            forall|j: int| 0 <= j < i ==> s@[n - m + j] == suffix@[j],
        decreases m - i,
    {
        if s.get_char(n - m + i) != suffix.get_char(i) {
            assert(s@.subrange(n - m, n as int)[i as int] != suffix@[i as int]);
            return None;
        }
        i = i + 1;
    }
    assert(s@.subrange(n - m, n as int) =~= suffix@);
    Some(s.substring_char(0, n - m))
}

/// The first occurrence of `c` in `s` is at `i` exactly when `i` is the
/// position that `first_index_of` names.
pub proof fn lemma_first_index_of(s: Seq<char>, c: char, i: int)
    requires
        0 <= i < s.len(),
        s[i] == c,
        forall|j: int| 0 <= j < i ==> s[j] != c,
    ensures
        first_index_of(s, c) == Some(i),
{
    let k = choose|k: int| 0 <= k < s.len() && s[k] == c && forall|j: int| 0 <= j < k ==> s[j] != c;
    assert(0 <= k < s.len() && s[k] == c && forall|j: int| 0 <= j < k ==> s[j] != c);
    if k < i {
        assert(s[k] != c);
    } else if k > i {
        assert(s[i] != c);
    }
}

} // verus!

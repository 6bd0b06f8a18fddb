//! Ordered maps kept as vectors of entries sorted by key, with the ordering
//! that std's `BTreeMap` uses (strings by code point, pairs field by field).

use vstd::prelude::*;

verus! {

// ---------------------------------------------------------------------------
// Values that can be compared and copied exactly
// ---------------------------------------------------------------------------

/// A value whose exact equality and copies are observable through its view.
pub trait DeepCopy: View + Sized {
    fn deep_eq(&self, other: &Self) -> (r: bool)
        ensures
            r == (self@ == other@),
    ;

    fn deep_copy(&self) -> (r: Self)
        ensures
            r@ == self@,
    ;
}

impl DeepCopy for String {
    fn deep_eq(&self, other: &Self) -> (r: bool) {
        crate::text::str_eq(self.as_str(), other.as_str())
    }

    fn deep_copy(&self) -> (r: Self) {
        self.clone()
    }
}

impl DeepCopy for bool {
    fn deep_eq(&self, other: &Self) -> (r: bool) {
        *self == *other
    }

    fn deep_copy(&self) -> (r: Self) {
        *self
    }
}

/// Exact equality of two vectors of deeply comparable values.
pub fn vec_deep_eq<T: DeepCopy>(a: &Vec<T>, b: &Vec<T>) -> (r: bool)
    ensures
        r == (a@.map_values(|x: T| x@) == b@.map_values(|x: T| x@)),
{
    if a.len() != b.len() {
        proof {
            assert(a@.map_values(|x: T| x@).len() != b@.map_values(|x: T| x@).len());
        }
        return false;
    }
    let mut i: usize = 0;
    while i < a.len()
        invariant
            a@.len() == b@.len(),
            i <= a@.len(),
            forall|j: int| 0 <= j < i ==> a@[j]@ == b@[j]@,
        decreases a@.len() - i,
    {
        if !a[i].deep_eq(&b[i]) {
            proof {
                assert(a@.map_values(|x: T| x@)[i as int] != b@.map_values(|x: T| x@)[i as int]);
            }
            return false;
        }
        i = i + 1;
    }
    assert(a@.map_values(|x: T| x@) =~= b@.map_values(|x: T| x@));
    true
}

/// A deep copy of a vector of deeply copyable values.
pub fn vec_deep_copy<T: DeepCopy>(a: &Vec<T>) -> (r: Vec<T>)
    ensures
        r@.map_values(|x: T| x@) == a@.map_values(|x: T| x@),
{
    let mut r: Vec<T> = Vec::new();
    let mut i: usize = 0;
    while i < a.len()
        invariant
            i <= a@.len(),
            r@.len() == i,
            forall|j: int| 0 <= j < i ==> r@[j]@ == a@[j]@,
        decreases a@.len() - i,
    {
        r.push(a[i].deep_copy());
        i = i + 1;
    }
    assert(r@.map_values(|x: T| x@) =~= a@.map_values(|x: T| x@));
    r
}

// ---------------------------------------------------------------------------
// Key order
// ---------------------------------------------------------------------------

/// Strict lexicographic order of character sequences by code point; on
/// UTF-8 text this is the byte order that `Ord for String` uses.
pub open spec fn lex_lt(a: Seq<char>, b: Seq<char>) -> bool
    decreases a.len(),
{
    if a.len() == 0 {
        b.len() > 0
    } else if b.len() == 0 {
        false
    } else if a[0] != b[0] {
        a[0] < b[0]
    } else {
        lex_lt(a.drop_first(), b.drop_first())
    }
}

pub proof fn lemma_lex_irreflexive(a: Seq<char>)
    ensures
        !lex_lt(a, a),
    decreases a.len(),
{
    if a.len() > 0 {
        lemma_lex_irreflexive(a.drop_first());
    }
}

pub proof fn lemma_lex_transitive(a: Seq<char>, b: Seq<char>, c: Seq<char>)
    requires
        lex_lt(a, b),
        lex_lt(b, c),
    ensures
        lex_lt(a, c),
    decreases a.len(),
{
    if a.len() > 0 && b.len() > 0 && c.len() > 0 {
        if a[0] == b[0] && b[0] == c[0] {
            lemma_lex_transitive(a.drop_first(), b.drop_first(), c.drop_first());
        }
    }
}

pub proof fn lemma_lex_total(a: Seq<char>, b: Seq<char>)
    ensures
        a == b || lex_lt(a, b) || lex_lt(b, a),
    decreases a.len(),
{
    if a.len() > 0 && b.len() > 0 {
        if a[0] == b[0] {
            lemma_lex_total(a.drop_first(), b.drop_first());
            if a.drop_first() == b.drop_first() {
                assert(a =~= seq![a[0]] + a.drop_first());
                assert(b =~= seq![b[0]] + b.drop_first());
                assert(a =~= b);
            }
        }
    } else if a.len() == 0 && b.len() == 0 {
        assert(a =~= b);
    }
}

/// Decides `lex_lt`.
pub fn str_lt(a: &str, b: &str) -> (r: bool)
    ensures
        r == lex_lt(a@, b@),
{
    let n = a.unicode_len();
    let m = b.unicode_len();
    let mut i: usize = 0;
    proof {
        assert(a@.skip(0) =~= a@);
        assert(b@.skip(0) =~= b@);
    }
    while i < n && i < m
        invariant
            n == a@.len(),
            m == b@.len(),
            i <= n,
            i <= m,
            lex_lt(a@, b@) == lex_lt(a@.skip(i as int), b@.skip(i as int)),
        decreases n - i,
    {
        let x = a.get_char(i);
        let y = b.get_char(i);
        if x != y {
            return x < y;
        }
        proof {
            assert(a@.skip(i as int).drop_first() =~= a@.skip(i + 1));
            assert(b@.skip(i as int).drop_first() =~= b@.skip(i + 1));
        }
        i = i + 1;
    }
    i == n && i < m
}

/// Keys of an ordered map: a strict total order on their views.
pub trait MapKey: DeepCopy {
    spec fn precedes(a: Self::V, b: Self::V) -> bool;

    proof fn lemma_precedes_irreflexive(a: Self::V)
        ensures
            !Self::precedes(a, a),
    ;

    proof fn lemma_precedes_transitive(a: Self::V, b: Self::V, c: Self::V)
        requires
            Self::precedes(a, b),
            Self::precedes(b, c),
        ensures
            Self::precedes(a, c),
    ;

    proof fn lemma_precedes_total(a: Self::V, b: Self::V)
        ensures
            a == b || Self::precedes(a, b) || Self::precedes(b, a),
    ;

    fn precedes_exec(&self, other: &Self) -> (r: bool)
        ensures
            r == Self::precedes(self@, other@),
    ;
}

impl MapKey for String {
    open spec fn precedes(a: Seq<char>, b: Seq<char>) -> bool {
        lex_lt(a, b)
    }

    proof fn lemma_precedes_irreflexive(a: Seq<char>) {
        lemma_lex_irreflexive(a);
    }

    proof fn lemma_precedes_transitive(a: Seq<char>, b: Seq<char>, c: Seq<char>) {
        lemma_lex_transitive(a, b, c);
    }

    proof fn lemma_precedes_total(a: Seq<char>, b: Seq<char>) {
        lemma_lex_total(a, b);
    }

    fn precedes_exec(&self, other: &Self) -> (r: bool) {
        str_lt(self.as_str(), other.as_str())
    }
}

/// A key made of two strings, ordered by the first and then by the second,
/// as tuples of strings are ordered.
#[derive(Debug, Clone, PartialEq, Eq)]
pub struct PairKey {
    pub first: String,
    pub second: String,
}

impl View for PairKey {
    type V = (Seq<char>, Seq<char>);

    open spec fn view(&self) -> (Seq<char>, Seq<char>) {
        (self.first@, self.second@)
    }
}

impl DeepCopy for PairKey {
    fn deep_eq(&self, other: &Self) -> (r: bool) {
        self.first == other.first && self.second == other.second
    }

    fn deep_copy(&self) -> (r: Self) {
        PairKey { first: self.first.clone(), second: self.second.clone() }
    }
}

impl MapKey for PairKey {
    open spec fn precedes(a: (Seq<char>, Seq<char>), b: (Seq<char>, Seq<char>)) -> bool {
        lex_lt(a.0, b.0) || (a.0 == b.0 && lex_lt(a.1, b.1))
    }

    proof fn lemma_precedes_irreflexive(a: (Seq<char>, Seq<char>)) {
        lemma_lex_irreflexive(a.0);
        lemma_lex_irreflexive(a.1);
    }

    proof fn lemma_precedes_transitive(
        a: (Seq<char>, Seq<char>),
        b: (Seq<char>, Seq<char>),
        c: (Seq<char>, Seq<char>),
    ) {
        lemma_lex_irreflexive(a.0);
        lemma_lex_irreflexive(b.0);
        if lex_lt(a.0, b.0) && lex_lt(b.0, c.0) {
            lemma_lex_transitive(a.0, b.0, c.0);
        }
        if a.0 == b.0 && b.0 == c.0 {
            lemma_lex_transitive(a.1, b.1, c.1);
        }
    }

    proof fn lemma_precedes_total(a: (Seq<char>, Seq<char>), b: (Seq<char>, Seq<char>)) {
        lemma_lex_total(a.0, b.0);
        lemma_lex_total(a.1, b.1);
    }

    fn precedes_exec(&self, other: &Self) -> (r: bool) {
        let first_lt = str_lt(self.first.as_str(), other.first.as_str());
        if first_lt {
            true
        } else {
            self.first == other.first && str_lt(self.second.as_str(), other.second.as_str())
        }
    }
}

// ---------------------------------------------------------------------------
// Sorted entry sequences
// ---------------------------------------------------------------------------

/// Keys strictly increase along the sequence (so no key occurs twice).
pub open spec fn sorted<K: MapKey, T>(s: Seq<(K::V, T)>) -> bool {
    forall|i: int, j: int| 0 <= i < j < s.len() ==> K::precedes(s[i].0, s[j].0)
}

pub open spec fn has_key<KV, T>(s: Seq<(KV, T)>, k: KV) -> bool {
    exists|i: int| 0 <= i < s.len() && s[i].0 == k
}

/// Position of key `k` in `s`, if present.
pub open spec fn key_position<KV, T>(s: Seq<(KV, T)>, k: KV) -> Option<int> {
    if has_key(s, k) {
        Some(choose|i: int| 0 <= i < s.len() && s[i].0 == k)
    } else {
        None
    }
}

/// The value stored under `k`, if any.
pub open spec fn lookup<KV, T>(s: Seq<(KV, T)>, k: KV) -> Option<T> {
    match key_position(s, k) {
        Some(i) => Some(s[i].1),
        None => None,
    }
}

/// The keys of `s`, in order.
pub open spec fn keys_of<KV, T>(s: Seq<(KV, T)>) -> Seq<KV> {
    s.map_values(|e: (KV, T)| e.0)
}

/// Where `k` goes in `s`: the number of leading keys that precede it.
pub open spec fn insert_position<K: MapKey, T>(s: Seq<(K::V, T)>, k: K::V) -> int
    decreases s.len(),
{
    if s.len() == 0 || !K::precedes(s[0].0, k) {
        0
    } else {
        1 + insert_position::<K, T>(s.drop_first(), k)
    }
}

/// `s` with `k` mapped to `v`: the entry replaced where `k` is present,
/// otherwise inserted at its place in key order.
pub open spec fn inserted<K: MapKey, T>(s: Seq<(K::V, T)>, k: K::V, v: T) -> Seq<(K::V, T)> {
    let p = insert_position::<K, T>(s, k);
    if p < s.len() && s[p].0 == k {
        s.update(p, (k, v))
    } else {
        s.insert(p, (k, v))
    }
}

pub proof fn lemma_insert_position_bounds<K: MapKey, T>(s: Seq<(K::V, T)>, k: K::V)
    ensures
        0 <= insert_position::<K, T>(s, k) <= s.len(),
        forall|i: int| 0 <= i < insert_position::<K, T>(s, k) ==> K::precedes(#[trigger] s[i].0, k),
    decreases s.len(),
{
    if s.len() > 0 && K::precedes(s[0].0, k) {
        lemma_insert_position_bounds::<K, T>(s.drop_first(), k);
        assert forall|i: int| 0 <= i < insert_position::<K, T>(s, k) implies K::precedes(
            #[trigger] s[i].0,
            k,
        ) by {
            if i > 0 {
                assert(s[i] == s.drop_first()[i - 1]);
            }
        }
    }
}

/// In a sorted sequence, every key at or after the insert position does not
/// precede `k`.
pub proof fn lemma_insert_position_sorted<K: MapKey, T>(s: Seq<(K::V, T)>, k: K::V)
    requires
        sorted::<K, T>(s),
    ensures
        forall|i: int|
            insert_position::<K, T>(s, k) <= i < s.len() ==> !K::precedes(#[trigger] s[i].0, k),
    decreases s.len(),
{
    lemma_insert_position_bounds::<K, T>(s, k);
    if s.len() > 0 {
        let p = insert_position::<K, T>(s, k);
        if !K::precedes(s[0].0, k) {
            assert forall|i: int| 0 <= i < s.len() implies !K::precedes(#[trigger] s[i].0, k) by {
                if i > 0 && K::precedes(s[i].0, k) {
                    K::lemma_precedes_transitive(s[0].0, s[i].0, k);
                }
            }
        } else {
            let t = s.drop_first();
            assert(sorted::<K, T>(t)) by {
                assert forall|i: int, j: int| 0 <= i < j < t.len() implies K::precedes(
                    t[i].0,
                    t[j].0,
                ) by {
                    assert(t[i] == s[i + 1] && t[j] == s[j + 1]);
                }
            }
            lemma_insert_position_sorted::<K, T>(t, k);
            assert(p == 1 + insert_position::<K, T>(t, k));
            assert forall|i: int| p <= i < s.len() implies !K::precedes(#[trigger] s[i].0, k) by {
                assert(s[i] == t[i - 1]);
            }
        }
    }
}

/// Inserting keeps a sequence sorted, and the result maps `k` to `v` and every
/// other key as before.
pub proof fn lemma_inserted<K: MapKey, T>(s: Seq<(K::V, T)>, k: K::V, v: T)
    requires
        sorted::<K, T>(s),
    ensures
        sorted::<K, T>(inserted::<K, T>(s, k, v)),
        has_key(inserted::<K, T>(s, k, v), k),
        lookup(inserted::<K, T>(s, k, v), k) == Some(v),
        forall|j: K::V| j != k ==> lookup(inserted::<K, T>(s, k, v), j) == #[trigger] lookup(
            s,
            j,
        ),
        has_key(s, k) ==> inserted::<K, T>(s, k, v).len() == s.len(),
        !has_key(s, k) ==> inserted::<K, T>(s, k, v).len() == s.len() + 1,
{
    lemma_insert_position_bounds::<K, T>(s, k);
    lemma_insert_position_sorted::<K, T>(s, k);
    let p = insert_position::<K, T>(s, k);
    let r = inserted::<K, T>(s, k, v);
    if p < s.len() && s[p].0 == k {
        assert forall|i: int, j: int| 0 <= i < j < r.len() implies K::precedes(r[i].0, r[j].0) by {
            assert(r[i].0 == s[i].0 && r[j].0 == s[j].0);
        }
    } else {
        assert(!has_key(s, k)) by {
            if has_key(s, k) {
                let i = choose|i: int| 0 <= i < s.len() && s[i].0 == k;
                if i < p {
                    K::lemma_precedes_irreflexive(k);
                } else if i > p {
                    K::lemma_precedes_transitive(s[p].0, s[i].0, k);
                    K::lemma_precedes_total(s[p].0, k);
                }
            }
        }
        assert forall|i: int, j: int| 0 <= i < j < r.len() implies K::precedes(r[i].0, r[j].0) by {
            if j == p {
                assert(r[i].0 == s[i].0);
            } else if i == p {
                assert(r[j].0 == s[j - 1].0);
                K::lemma_precedes_total(s[j - 1].0, k);
            } else if j < p {
                assert(r[i].0 == s[i].0 && r[j].0 == s[j].0);
            } else if i < p {
                assert(r[i].0 == s[i].0 && r[j].0 == s[j - 1].0);
                assert(K::precedes(s[i].0, k));
                K::lemma_precedes_total(s[j - 1].0, k);
                if s[j - 1].0 != k {
                    K::lemma_precedes_transitive(s[i].0, k, s[j - 1].0);
                }
            } else {
                assert(r[i].0 == s[i - 1].0 && r[j].0 == s[j - 1].0);
            }
        }
    }
    lemma_sorted_lookup::<K, T>(r, p);
    assert(r[p].0 == k);
    assert forall|j: K::V| j != k implies lookup(r, j) == #[trigger] lookup(s, j) by {
        if has_key(s, j) {
            let i = choose|i: int| 0 <= i < s.len() && s[i].0 == j;
            lemma_sorted_lookup::<K, T>(s, i);
            if p < s.len() && s[p].0 == k {
                assert(r[i] == s[i]);
                lemma_sorted_lookup::<K, T>(r, i);
            } else if i < p {
                assert(r[i] == s[i]);
                lemma_sorted_lookup::<K, T>(r, i);
            } else {
                assert(r[i + 1] == s[i]);
                lemma_sorted_lookup::<K, T>(r, i + 1);
            }
        } else {
            if has_key(r, j) {
                let i = choose|i: int| 0 <= i < r.len() && r[i].0 == j;
                if p < s.len() && s[p].0 == k {
                    assert(s[i].0 == j);
                } else if i < p {
                    assert(s[i].0 == j);
                } else if i > p {
                    assert(s[i - 1].0 == j);
                }
            }
        }
    }
}

/// Where every key precedes `k`, `k` goes after all of them.
pub proof fn lemma_insert_position_end<K: MapKey, T>(s: Seq<(K::V, T)>, k: K::V)
    requires
        forall|i: int| 0 <= i < s.len() ==> K::precedes(#[trigger] s[i].0, k),
    ensures
        insert_position::<K, T>(s, k) == s.len(),
    decreases s.len(),
{
    if s.len() > 0 {
        let t = s.drop_first();
        assert forall|i: int| 0 <= i < t.len() implies K::precedes(#[trigger] t[i].0, k) by {
            assert(t[i] == s[i + 1]);
        }
        lemma_insert_position_end::<K, T>(t, k);
        assert(K::precedes(s[0].0, k));
    }
}

/// Inserting a key that every key of `s` precedes appends it, and the key
/// was not there before.
pub proof fn lemma_inserted_at_end<K: MapKey, T>(s: Seq<(K::V, T)>, k: K::V, v: T)
    requires
        forall|i: int| 0 <= i < s.len() ==> K::precedes(#[trigger] s[i].0, k),
    ensures
        !has_key(s, k),
        inserted::<K, T>(s, k, v) == s.push((k, v)),
{
    lemma_insert_position_end::<K, T>(s, k);
    if has_key(s, k) {
        let i = choose|i: int| 0 <= i < s.len() && s[i].0 == k;
        assert(K::precedes(s[i].0, k));
        K::lemma_precedes_irreflexive(k);
    }
    assert(s.insert(s.len() as int, (k, v)) =~= s.push((k, v)));
}

/// In a sorted sequence no key occurs at two positions.
pub proof fn lemma_sorted_keys_distinct<K: MapKey, T>(s: Seq<(K::V, T)>)
    requires
        sorted::<K, T>(s),
    ensures
        forall|i: int, j: int|
            0 <= i < s.len() && 0 <= j < s.len() && #[trigger] s[i].0 == #[trigger] s[j].0 ==> i
                == j,
{
    assert forall|i: int, j: int|
        0 <= i < s.len() && 0 <= j < s.len() && #[trigger] s[i].0 == #[trigger] s[j].0 implies i
        == j by {
        if i != j {
            K::lemma_precedes_irreflexive(s[i].0);
        }
    }
}

/// In a sorted sequence the entry at `i` is the one that `lookup` finds.
pub proof fn lemma_sorted_lookup<K: MapKey, T>(s: Seq<(K::V, T)>, i: int)
    requires
        sorted::<K, T>(s),
        0 <= i < s.len(),
    ensures
        has_key(s, s[i].0),
        key_position(s, s[i].0) == Some(i),
        lookup(s, s[i].0) == Some(s[i].1),
{
    let k = s[i].0;
    assert(has_key(s, k));
    let j = choose|j: int| 0 <= j < s.len() && s[j].0 == k;
    if j != i {
        if j < i {
            K::lemma_precedes_irreflexive(k);
        } else {
            K::lemma_precedes_irreflexive(k);
        }
    }
}

// ---------------------------------------------------------------------------
// Ordered maps
// ---------------------------------------------------------------------------

/// A map whose entries are kept in increasing key order, as `BTreeMap`
/// iterates them.
#[derive(Debug, PartialEq, Eq)]
pub struct OrderedMap<K: MapKey, V: DeepCopy> {
    entries: Vec<(K, V)>,
}

impl<K: MapKey, V: DeepCopy> View for OrderedMap<K, V> {
    type V = Seq<(K::V, V::V)>;

    closed spec fn view(&self) -> Seq<(K::V, V::V)> {
        self.entries@.map_values(|e: (K, V)| (e.0@, e.1@))
    }
}

impl<K: MapKey, V: DeepCopy> OrderedMap<K, V> {
    /// Keys increase strictly along the entries; every map keeps this.
    #[verifier::type_invariant]
    pub open spec fn keys_increase(self) -> bool {
        sorted::<K, V::V>(self@)
    }

    pub fn new() -> (r: Self)
        ensures
            r@ == Seq::<(K::V, V::V)>::empty(),
    {
        let r = OrderedMap { entries: Vec::new() };
        assert(r@ =~= Seq::<(K::V, V::V)>::empty());
        r
    }

    pub fn len(&self) -> (r: usize)
        ensures
            r == self@.len(),
    {
        self.entries.len()
    }

    pub fn is_empty(&self) -> (r: bool)
        ensures
            r == (self@.len() == 0),
    {
        self.entries.len() == 0
    }

    pub fn key_at(&self, i: usize) -> (r: &K)
        requires
            i < self@.len(),
        ensures
            r@ == self@[i as int].0,
    {
        &self.entries[i].0
    }

    pub fn value_at(&self, i: usize) -> (r: &V)
        requires
            i < self@.len(),
        ensures
            r@ == self@[i as int].1,
    {
        &self.entries[i].1
    }

    /// The position of `key`, if present.
    pub fn find(&self, key: &K) -> (r: Option<usize>)
        ensures
            r == match key_position(self@, key@) {
                Some(i) => Some(i as usize),
                None => None::<usize>,
            },
            r is Some ==> r->0 < self@.len() && self@[r->0 as int].0 == key@,
            r is None <==> !has_key(self@, key@),
    {
        proof {
            use_type_invariant(self);
        }
        let mut i: usize = 0;
        while i < self.entries.len()
            invariant
                i <= self@.len(),
                self@.len() == self.entries@.len(),
                sorted::<K, V::V>(self@),
                forall|j: int| 0 <= j < i ==> self@[j].0 != key@,
            decreases self@.len() - i,
        {
            if self.entries[i].0.deep_eq(key) {
                proof {
                    lemma_sorted_lookup::<K, V::V>(self@, i as int);
                }
                return Some(i);
            }
            i = i + 1;
        }
        None
    }

    pub fn contains_key(&self, key: &K) -> (r: bool)
        ensures
            r == has_key(self@, key@),
    {
        self.find(key).is_some()
    }

    pub fn get(&self, key: &K) -> (r: Option<&V>)
        ensures
            match r {
                Some(v) => lookup(self@, key@) == Some(v@),
                None => lookup(self@, key@) is None,
            },
    {
        match self.find(key) {
            Some(i) => {
                proof {
                    use_type_invariant(self);
                    lemma_sorted_lookup::<K, V::V>(self@, i as int);
                }
                assert(self.entries@[i as int].1@ == self@[i as int].1);
                Some(&self.entries[i].1)
            },
            None => None,
        }
    }

    /// Maps `key` to `value`; returns the value it replaced.
    pub fn insert(&mut self, key: K, value: V) -> (r: Option<V>)
        ensures
            final(self)@ == inserted::<K, V::V>(old(self)@, key@, value@),
            lookup(final(self)@, key@) == Some(value@),
            forall|j: K::V| j != key@ ==> #[trigger] lookup(final(self)@, j) == lookup(old(self)@, j),
            match r {
                Some(v) => lookup(old(self)@, key@) == Some(v@),
                None => !has_key(old(self)@, key@),
            },
    {
        proof {
            use_type_invariant(&*self);
        }
        let ghost s = self@;
        let mut entries: Vec<(K, V)> = Vec::new();
        std::mem::swap(&mut entries, &mut self.entries);
        assert(entries@.map_values(|e: (K, V)| (e.0@, e.1@)) == s);
        let mut i: usize = 0;
        proof {
            assert(s.skip(0) =~= s);
        }
        while i < entries.len() && entries[i].0.precedes_exec(&key)
            invariant
                i <= s.len(),
                s.len() == entries@.len(),
                entries@.map_values(|e: (K, V)| (e.0@, e.1@)) == s,
                insert_position::<K, V::V>(s, key@) == i + insert_position::<K, V::V>(
                    s.skip(i as int),
                    key@,
                ),
            decreases s.len() - i,
        {
            proof {
                assert(s.skip(i as int).drop_first() =~= s.skip(i + 1));
            }
            i = i + 1;
        }
        proof {
            if i < s.len() {
                assert(s.skip(i as int)[0] == s[i as int]);
            }
            assert(insert_position::<K, V::V>(s, key@) == i);
            lemma_inserted::<K, V::V>(s, key@, value@);
        }
        if i < entries.len() && entries[i].0.deep_eq(&key) {
            let ghost before = entries@;
            let mut slot = (key, value);
            entries.set_and_swap(i, &mut slot);
            let (_, previous) = slot;
            proof {
                assert(entries@.map_values(|e: (K, V)| (e.0@, e.1@)) =~= inserted::<K, V::V>(
                    s,
                    key@,
                    value@,
                ));
                lemma_sorted_lookup::<K, V::V>(s, i as int);
                assert(before[i as int].1@ == s[i as int].1);
            }
            self.entries = entries;
            Some(previous)
        } else {
            proof {
                if has_key(s, key@) {
                    let j = choose|j: int| 0 <= j < s.len() && s[j].0 == key@;
                    lemma_sorted_lookup::<K, V::V>(s, j);
                    lemma_insert_position_bounds::<K, V::V>(s, key@);
                    lemma_insert_position_sorted::<K, V::V>(s, key@);
                    if j < i {
                        K::lemma_precedes_irreflexive(key@);
                    } else if j > i {
                        K::lemma_precedes_total(s[i as int].0, key@);
                        K::lemma_precedes_transitive(s[i as int].0, s[j].0, key@);
                    }
                }
            }
            entries.insert(i, (key, value));
            proof {
                assert(entries@.map_values(|e: (K, V)| (e.0@, e.1@)) =~= inserted::<K, V::V>(
                    s,
                    key@,
                    value@,
                ));
            }
            self.entries = entries;
            None
        }
    }

    /// Removes every entry.
    pub fn clear(&mut self)
        ensures
            final(self)@ == Seq::<(K::V, V::V)>::empty(),
    {
        self.entries = Vec::new();
        assert(self@ =~= Seq::<(K::V, V::V)>::empty());
    }

    /// The keys in increasing order.
    pub fn keys(&self) -> (r: Vec<K>)
        ensures
            r@.map_values(|k: K| k@) == keys_of(self@),
    {
        let mut r: Vec<K> = Vec::new();
        let mut i: usize = 0;
        while i < self.entries.len()
            invariant
                i <= self@.len(),
                self@.len() == self.entries@.len(),
                r@.len() == i,
                forall|j: int| 0 <= j < i ==> #[trigger] r@[j]@ == self@[j].0,
            decreases self@.len() - i,
        {
            r.push(self.entries[i].0.deep_copy());
            i = i + 1;
        }
        assert(r@.map_values(|k: K| k@) =~= keys_of(self@));
        r
    }
}

impl<K: MapKey, V: DeepCopy> DeepCopy for OrderedMap<K, V> {
    fn deep_eq(&self, other: &Self) -> (r: bool) {
        if self.entries.len() != other.entries.len() {
            assert(self@.len() != other@.len());
            return false;
        }
        let mut i: usize = 0;
        while i < self.entries.len()
            invariant
                self@.len() == other@.len(),
                self@.len() == self.entries@.len(),
                other@.len() == other.entries@.len(),
                i <= self@.len(),
                forall|j: int| 0 <= j < i ==> self@[j] == other@[j],
            decreases self@.len() - i,
        {
            if !self.entries[i].0.deep_eq(&other.entries[i].0) || !self.entries[i].1.deep_eq(
                &other.entries[i].1,
            ) {
                assert(self@[i as int] != other@[i as int]);
                return false;
            }
            i = i + 1;
        }
        assert(self@ =~= other@);
        true
    }

    fn deep_copy(&self) -> (r: Self) {
        proof {
            use_type_invariant(self);
        }
        let mut entries: Vec<(K, V)> = Vec::new();
        let mut i: usize = 0;
        while i < self.entries.len()
            invariant
                i <= self@.len(),
                self@.len() == self.entries@.len(),
                entries@.len() == i,
                forall|j: int|
                    0 <= j < i ==> (#[trigger] entries@[j]).0@ == self@[j].0 && entries@[j].1@
                        == self@[j].1,
            decreases self@.len() - i,
        {
            entries.push((self.entries[i].0.deep_copy(), self.entries[i].1.deep_copy()));
            i = i + 1;
        }
        assert(entries@.map_values(|e: (K, V)| (e.0@, e.1@)) =~= self@);
        OrderedMap { entries }
    }
}

impl<K: MapKey, V: DeepCopy> Clone for OrderedMap<K, V> {
    fn clone(&self) -> (r: Self)
        ensures
            r@ == self@,
    {
        self.deep_copy()
    }
}

// ---------------------------------------------------------------------------
// Comparing two maps
// ---------------------------------------------------------------------------

/// The keys of `candidate`, in order, that `current` lacks.
pub open spec fn added_keys<KV, T>(current: Seq<(KV, T)>, candidate: Seq<(KV, T)>) -> Seq<KV>
    decreases candidate.len(),
{
    if candidate.len() == 0 {
        Seq::empty()
    } else {
        let rest = added_keys(current, candidate.drop_last());
        if has_key(current, candidate.last().0) {
            rest
        } else {
            rest.push(candidate.last().0)
        }
    }
}

/// The keys of `current`, in order, that `candidate` maps to another value.
pub open spec fn changed_keys<KV, T>(current: Seq<(KV, T)>, candidate: Seq<(KV, T)>) -> Seq<KV>
    decreases current.len(),
{
    if current.len() == 0 {
        Seq::empty()
    } else {
        let rest = changed_keys(current.drop_last(), candidate);
        let e = current.last();
        if has_key(candidate, e.0) && lookup(candidate, e.0) != Some(e.1) {
            rest.push(e.0)
        } else {
            rest
        }
    }
}

/// Copies of the keys of `candidate` that `current` lacks, in key order.
pub fn added_key_list<K: MapKey, V: DeepCopy>(
    current: &OrderedMap<K, V>,
    candidate: &OrderedMap<K, V>,
) -> (r: Vec<K>)
    ensures
        r@.map_values(|k: K| k@) == added_keys(current@, candidate@),
{
    let mut r: Vec<K> = Vec::new();
    let mut i: usize = 0;
    let ghost cand = candidate@;
    proof {
        assert(cand.subrange(0, 0) =~= Seq::<(K::V, V::V)>::empty());
        assert(r@.map_values(|k: K| k@) =~= Seq::<K::V>::empty());
    }
    while i < candidate.len()
        invariant
            i <= cand.len(),
            cand == candidate@,
            r@.map_values(|k: K| k@) == added_keys(current@, cand.subrange(0, i as int)),
        decreases cand.len() - i,
    {
        let key = candidate.key_at(i);
        let ghost next = cand.subrange(0, i + 1);
        assert(next.drop_last() =~= cand.subrange(0, i as int));
        assert(next.last() == cand[i as int]);
        if !current.contains_key(key) {
            let ghost before = r@.map_values(|k: K| k@);
            r.push(key.deep_copy());
            assert(r@.map_values(|k: K| k@) =~= before.push(key@));
        }
        i = i + 1;
    }
    assert(cand.subrange(0, cand.len() as int) =~= cand);
    r
}

/// Copies of the keys of `current` that `candidate` maps to another value,
/// in key order.
pub fn changed_key_list<K: MapKey, V: DeepCopy>(
    current: &OrderedMap<K, V>,
    candidate: &OrderedMap<K, V>,
) -> (r: Vec<K>)
    ensures
        r@.map_values(|k: K| k@) == changed_keys(current@, candidate@),
{
    let mut r: Vec<K> = Vec::new();
    let mut i: usize = 0;
    let ghost cur = current@;
    proof {
        assert(cur.subrange(0, 0) =~= Seq::<(K::V, V::V)>::empty());
        assert(r@.map_values(|k: K| k@) =~= Seq::<K::V>::empty());
    }
    while i < current.len()
        invariant
            i <= cur.len(),
            cur == current@,
            r@.map_values(|k: K| k@) == changed_keys(cur.subrange(0, i as int), candidate@),
        decreases cur.len() - i,
    {
        let key = current.key_at(i);
        let value = current.value_at(i);
        let ghost next = cur.subrange(0, i + 1);
        assert(next.drop_last() =~= cur.subrange(0, i as int));
        assert(next.last() == cur[i as int]);
        match candidate.get(key) {
            Some(other) => {
                proof {
                    assert(has_key(candidate@, key@)) by {
                        if !has_key(candidate@, key@) {
                            assert(key_position(candidate@, key@) is None);
                        }
                    }
                }
                if !other.deep_eq(value) {
                    let ghost before = r@.map_values(|k: K| k@);
                    r.push(key.deep_copy());
                    assert(r@.map_values(|k: K| k@) =~= before.push(key@));
                }
            },
            None => {
                proof {
                    assert(!has_key(candidate@, key@)) by {
                        if has_key(candidate@, key@) {
                            assert(key_position(candidate@, key@) is Some);
                        }
                    }
                }
            },
        }
        i = i + 1;
    }
    assert(cur.subrange(0, cur.len() as int) =~= cur);
    r
}

// ---------------------------------------------------------------------------
// Facts about comparing maps
// ---------------------------------------------------------------------------

/// Dropping the first entry of a sorted sequence drops exactly its key.
pub proof fn lemma_lookup_drop_first<K: MapKey, T>(s: Seq<(K::V, T)>, k: K::V)
    requires
        sorted::<K, T>(s),
        s.len() > 0,
    ensures
        sorted::<K, T>(s.drop_first()),
        lookup(s.drop_first(), k) == (if k == s[0].0 {
            None
        } else {
            lookup(s, k)
        }),
{
    let t = s.drop_first();
    assert forall|i: int, j: int| 0 <= i < j < t.len() implies K::precedes(t[i].0, t[j].0) by {
        assert(t[i] == s[i + 1] && t[j] == s[j + 1]);
    }
    if has_key(t, k) {
        let i = choose|i: int| 0 <= i < t.len() && t[i].0 == k;
        lemma_sorted_lookup::<K, T>(t, i);
        assert(t[i] == s[i + 1]);
        lemma_sorted_lookup::<K, T>(s, i + 1);
        if k == s[0].0 {
            K::lemma_precedes_irreflexive(k);
        }
    } else {
        if k != s[0].0 && has_key(s, k) {
            let i = choose|i: int| 0 <= i < s.len() && s[i].0 == k;
            assert(t[i - 1] == s[i]);
        }
    }
}

/// Two sorted sequences that map every key alike are equal.
pub proof fn lemma_sorted_equal<K: MapKey, T>(s: Seq<(K::V, T)>, t: Seq<(K::V, T)>)
    requires
        sorted::<K, T>(s),
        sorted::<K, T>(t),
        forall|k: K::V| #[trigger] lookup(s, k) == lookup(t, k),
    ensures
        s == t,
    decreases s.len() + t.len(),
{
    if s.len() == 0 || t.len() == 0 {
        if s.len() > 0 {
            lemma_sorted_lookup::<K, T>(s, 0);
            assert(lookup(t, s[0].0) is None);
        } else if t.len() > 0 {
            lemma_sorted_lookup::<K, T>(t, 0);
            assert(lookup(s, t[0].0) is None);
        } else {
            assert(s =~= t);
        }
    } else {
        lemma_sorted_lookup::<K, T>(s, 0);
        lemma_sorted_lookup::<K, T>(t, 0);
        let a = s[0].0;
        let b = t[0].0;
        assert(lookup(t, a) == Some(s[0].1));
        assert(lookup(s, b) == Some(t[0].1));
        if a != b {
            let j = choose|j: int| 0 <= j < t.len() && t[j].0 == a;
            let i = choose|i: int| 0 <= i < s.len() && s[i].0 == b;
            assert(j != 0 && i != 0);
            K::lemma_precedes_transitive(a, b, a);
            K::lemma_precedes_irreflexive(a);
        }
        assert(a == b);
        assert(s[0] == t[0]);
        let s1 = s.drop_first();
        let t1 = t.drop_first();
        assert forall|k: K::V| #[trigger] lookup(s1, k) == lookup(t1, k) by {
            lemma_lookup_drop_first::<K, T>(s, k);
            lemma_lookup_drop_first::<K, T>(t, k);
            assert(lookup(s, k) == lookup(t, k));
        }
        lemma_lookup_drop_first::<K, T>(s, a);
        lemma_lookup_drop_first::<K, T>(t, a);
        lemma_sorted_equal::<K, T>(s1, t1);
        assert(s =~= seq![s[0]] + s1);
        assert(t =~= seq![t[0]] + t1);
    }
}

/// Keys strictly increase along `s`.
pub open spec fn increasing<K: MapKey>(s: Seq<K::V>) -> bool {
    forall|i: int, j: int| 0 <= i < j < s.len() ==> K::precedes(s[i], s[j])
}

/// Two strictly increasing key sequences with the same members are equal.
pub proof fn lemma_increasing_equal<K: MapKey>(s: Seq<K::V>, t: Seq<K::V>)
    requires
        increasing::<K>(s),
        increasing::<K>(t),
        forall|k: K::V| #[trigger] s.contains(k) <==> t.contains(k),
    ensures
        s == t,
    decreases s.len() + t.len(),
{
    if s.len() == 0 || t.len() == 0 {
        if s.len() > 0 {
            assert(s.contains(s[0]));
        } else if t.len() > 0 {
            assert(t.contains(t[0]));
            assert(s.contains(t[0]));
        } else {
            assert(s =~= t);
        }
    } else {
        let a = s[0];
        let b = t[0];
        assert(s.contains(a));
        assert(s.contains(b)) by {
            assert(t.contains(b));
        }
        if a != b {
            let j = choose|j: int| 0 <= j < t.len() && t[j] == a;
            let i = choose|i: int| 0 <= i < s.len() && s[i] == b;
            assert(K::precedes(t[0], t[j]));
            assert(K::precedes(s[0], s[i]));
            K::lemma_precedes_transitive(a, b, a);
            K::lemma_precedes_irreflexive(a);
        }
        let s1 = s.drop_first();
        let t1 = t.drop_first();
        assert forall|k: K::V| #[trigger] s1.contains(k) <==> t1.contains(k) by {
            if s1.contains(k) {
                let m = choose|m: int| 0 <= m < s1.len() && s1[m] == k;
                assert(s[m + 1] == k);
                assert(K::precedes(s[0], s[m + 1]));
                if k == a {
                    K::lemma_precedes_irreflexive(a);
                }
                assert(s.contains(k));
                let n = choose|n: int| 0 <= n < t.len() && t[n] == k;
                assert(n != 0);
                assert(t1[n - 1] == k);
            }
            if t1.contains(k) {
                let m = choose|m: int| 0 <= m < t1.len() && t1[m] == k;
                assert(t[m + 1] == k);
                assert(K::precedes(t[0], t[m + 1]));
                if k == b {
                    K::lemma_precedes_irreflexive(b);
                }
                assert(t.contains(k));
                assert(s.contains(k));
                let n = choose|n: int| 0 <= n < s.len() && s[n] == k;
                assert(n != 0);
                assert(s1[n - 1] == k);
            }
        }
        lemma_increasing_equal::<K>(s1, t1);
        assert(s =~= seq![a] + s1);
        assert(t =~= seq![b] + t1);
    }
}

/// Dropping the last entry of a sorted sequence drops exactly its key.
pub proof fn lemma_lookup_drop_last<K: MapKey, T>(s: Seq<(K::V, T)>, k: K::V)
    requires
        sorted::<K, T>(s),
        s.len() > 0,
    ensures
        sorted::<K, T>(s.drop_last()),
        lookup(s.drop_last(), k) == (if k == s.last().0 {
            None
        } else {
            lookup(s, k)
        }),
{
    let t = s.drop_last();
    let n = s.len() - 1;
    assert forall|i: int, j: int| 0 <= i < j < t.len() implies K::precedes(t[i].0, t[j].0) by {
        assert(t[i] == s[i] && t[j] == s[j]);
    }
    if has_key(t, k) {
        let i = choose|i: int| 0 <= i < t.len() && t[i].0 == k;
        lemma_sorted_lookup::<K, T>(t, i);
        assert(t[i] == s[i]);
        lemma_sorted_lookup::<K, T>(s, i);
        if k == s[n].0 {
            K::lemma_precedes_irreflexive(k);
        }
    } else {
        if k != s[n].0 && has_key(s, k) {
            let i = choose|i: int| 0 <= i < s.len() && s[i].0 == k;
            assert(t[i] == s[i]);
        }
    }
}

/// For a sorted `current`, the changed keys ascend and are exactly the keys
/// that both sides have and map to different values.
pub proof fn lemma_changed_keys_members<K: MapKey, T>(
    current: Seq<(K::V, T)>,
    candidate: Seq<(K::V, T)>,
)
    requires
        sorted::<K, T>(current),
    ensures
        increasing::<K>(changed_keys(current, candidate)),
        forall|k: K::V|
            #[trigger] changed_keys(current, candidate).contains(k) <==> (has_key(current, k)
                && has_key(candidate, k) && lookup(candidate, k) != lookup(current, k)),
    decreases current.len(),
{
    if current.len() > 0 {
        let x = current.drop_last();
        let n = current.len() - 1;
        let e = current[n];
        lemma_lookup_drop_last::<K, T>(current, e.0);
        lemma_changed_keys_members::<K, T>(x, candidate);
        lemma_sorted_lookup::<K, T>(current, n);
        let rest = changed_keys(x, candidate);
        assert forall|m: int| 0 <= m < rest.len() implies K::precedes(#[trigger] rest[m], e.0) by {
            assert(rest.contains(rest[m]));
            let i = choose|i: int| 0 <= i < x.len() && x[i].0 == rest[m];
            assert(x[i] == current[i]);
        }
        assert forall|k: K::V|
            #[trigger] changed_keys(current, candidate).contains(k) <==> (has_key(current, k)
                && has_key(candidate, k) && lookup(candidate, k) != lookup(current, k)) by {
            lemma_lookup_drop_last::<K, T>(current, k);
            let whole = changed_keys(current, candidate);
            let cond = has_key(candidate, e.0) && lookup(candidate, e.0) != Some(e.1);
            assert(current.last() == e);
            assert(whole == if cond {
                rest.push(e.0)
            } else {
                rest
            });
            if cond {
                let p = rest.push(e.0);
                assert(p[rest.len() as int] == e.0);
                assert(p.contains(k) <==> (rest.contains(k) || k == e.0)) by {
                    if rest.contains(k) {
                        let m = choose|m: int| 0 <= m < rest.len() && rest[m] == k;
                        assert(p[m] == k);
                    }
                    if p.contains(k) && k != e.0 {
                        let m = choose|m: int| 0 <= m < p.len() && p[m] == k;
                        assert(rest[m] == k);
                    }
                }
            }
            if k == e.0 {
                assert(!rest.contains(k)) by {
                    if rest.contains(k) {
                        assert(has_key(x, k));
                        assert(key_position(x, k) is Some);
                    }
                }
            } else {
                assert(has_key(x, k) <==> has_key(current, k)) by {
                    if has_key(x, k) {
                        assert(key_position(x, k) is Some);
                    }
                    if has_key(current, k) {
                        assert(key_position(current, k) is Some);
                    }
                }
            }
        }
    }
}

/// Between two sorted sequences, the changed keys are the same whichever side
/// comes first.
pub proof fn lemma_changed_keys_symmetric<K: MapKey, T>(x: Seq<(K::V, T)>, y: Seq<(K::V, T)>)
    requires
        sorted::<K, T>(x),
        sorted::<K, T>(y),
    ensures
        changed_keys(x, y) == changed_keys(y, x),
{
    lemma_changed_keys_members::<K, T>(x, y);
    lemma_changed_keys_members::<K, T>(y, x);
    assert forall|k: K::V| #[trigger] changed_keys(x, y).contains(k) <==> changed_keys(
        y,
        x,
    ).contains(k) by {}
    lemma_increasing_equal::<K>(changed_keys(x, y), changed_keys(y, x));
}

/// No key is added when every key of `candidate` is already in `current`.
pub proof fn lemma_added_keys_empty<KV, T>(current: Seq<(KV, T)>, candidate: Seq<(KV, T)>)
    requires
        forall|i: int| 0 <= i < candidate.len() ==> has_key(current, #[trigger] candidate[i].0),
    ensures
        added_keys(current, candidate).len() == 0,
    decreases candidate.len(),
{
    if candidate.len() > 0 {
        let c = candidate.drop_last();
        assert forall|i: int| 0 <= i < c.len() implies has_key(current, #[trigger] c[i].0) by {
            assert(c[i] == candidate[i]);
        }
        lemma_added_keys_empty(current, c);
        assert(has_key(current, candidate[candidate.len() - 1].0));
    }
}

/// A key of `candidate` missing from `current` is reported as added.
pub proof fn lemma_added_keys_nonempty<KV, T>(
    current: Seq<(KV, T)>,
    candidate: Seq<(KV, T)>,
    i: int,
)
    requires
        0 <= i < candidate.len(),
        !has_key(current, candidate[i].0),
    ensures
        added_keys(current, candidate).len() > 0,
    decreases candidate.len(),
{
    if i < candidate.len() - 1 {
        let c = candidate.drop_last();
        assert(c[i] == candidate[i]);
        lemma_added_keys_nonempty(current, c, i);
        if !has_key(current, candidate.last().0) {
        }
    }
}

/// No key is changed when `candidate` maps every key of `current` it has to
/// the same value.
pub proof fn lemma_changed_keys_empty<KV, T>(current: Seq<(KV, T)>, candidate: Seq<(KV, T)>)
    requires
        forall|i: int|
            0 <= i < current.len() ==> !has_key(candidate, #[trigger] current[i].0) || lookup(
                candidate,
                current[i].0,
            ) == Some(current[i].1),
    ensures
        changed_keys(current, candidate).len() == 0,
    decreases current.len(),
{
    if current.len() > 0 {
        let c = current.drop_last();
        assert forall|i: int| 0 <= i < c.len() implies !has_key(candidate, #[trigger] c[i].0)
            || lookup(candidate, c[i].0) == Some(c[i].1) by {
            assert(c[i] == current[i]);
        }
        lemma_changed_keys_empty(c, candidate);
        let last = current.len() - 1;
        assert(!has_key(candidate, current[last].0) || lookup(candidate, current[last].0) == Some(
            current[last].1,
        ));
    }
}

/// A key of `current` that `candidate` maps to another value is reported.
pub proof fn lemma_changed_keys_nonempty<KV, T>(
    current: Seq<(KV, T)>,
    candidate: Seq<(KV, T)>,
    i: int,
)
    requires
        0 <= i < current.len(),
        has_key(candidate, current[i].0),
        lookup(candidate, current[i].0) != Some(current[i].1),
    ensures
        changed_keys(current, candidate).len() > 0,
    decreases current.len(),
{
    if i < current.len() - 1 {
        let c = current.drop_last();
        assert(c[i] == current[i]);
        lemma_changed_keys_nonempty(c, candidate, i);
    }
}

} // verus!

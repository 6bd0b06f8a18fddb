//! Configuration revisions: their metadata, how they are numbered and
//! named on disk, and the order in which history is listed.

use vstd::prelude::*;
use vstd::seq_lib::to_multiset_insert;

use crate::config::{opt_string_view, Config};
use crate::text::{parse_u64, parsed_u64, zero_padded, zero_padded_string};

verus! {

/// What is recorded beside each stored configuration.
#[derive(Debug, Clone, PartialEq, Eq)]
pub struct RevisionMetadata {
    pub revision: u64,
    pub created_at_unix_seconds: u64,
    pub actor: Option<String>,
    pub reason: Option<String>,
}

pub struct RevisionMetadataModel {
    pub revision: u64,
    pub created_at_unix_seconds: u64,
    pub actor: Option<Seq<char>>,
    pub reason: Option<Seq<char>>,
}

impl View for RevisionMetadata {
    type V = RevisionMetadataModel;

    open spec fn view(&self) -> RevisionMetadataModel {
        RevisionMetadataModel {
            revision: self.revision,
            created_at_unix_seconds: self.created_at_unix_seconds,
            actor: opt_string_view(self.actor),
            reason: opt_string_view(self.reason),
        }
    }
}

/// A stored configuration with its metadata.
#[derive(Debug, Clone, PartialEq, Eq)]
pub struct ConfigRevision {
    pub metadata: RevisionMetadata,
    pub config: Config,
}

/// The directory name of a revision: its number, zero-padded to six digits.
pub open spec fn revision_name(revision: nat) -> Seq<char> {
    zero_padded(revision, 6)
}

/// The directory name of a revision.
pub fn format_revision(revision: u64) -> (r: String)
    ensures
        r@ == revision_name(revision as nat),
{
    zero_padded_string(revision, 6)
}

/// The revision that a directory name stands for, read as `u64::from_str`
/// reads it; other names stand for none.
pub fn parse_revision(name: &str) -> (r: Option<u64>)
    ensures
        r == parsed_u64(name@),
{
    parse_u64(name)
}

/// The highest revision that any of the names stands for, or zero.
pub open spec fn highest_revision(names: Seq<Seq<char>>) -> nat
    decreases names.len(),
{
    if names.len() == 0 {
        0
    } else {
        let rest = highest_revision(names.drop_last());
        match parsed_u64(names.last()) {
            Some(v) => if v > rest {
                v as nat
            } else {
                rest
            },
            None => rest,
        }
    }
}

pub proof fn lemma_highest_revision_bound(names: Seq<Seq<char>>)
    ensures
        highest_revision(names) <= u64::MAX,
    decreases names.len(),
{
    if names.len() > 0 {
        lemma_highest_revision_bound(names.drop_last());
    }
}

/// The number of the next revision beside entries with these names: one
/// past the highest, or none once the numbers are exhausted.
pub open spec fn next_revision_number(names: Seq<Seq<char>>) -> Option<u64> {
    if highest_revision(names) < u64::MAX {
        Some((highest_revision(names) + 1) as u64)
    } else {
        None
    }
}

/// The number of the next revision beside entries named `names`.
pub fn next_revision(names: &Vec<String>) -> (r: Option<u64>)
    ensures
        r == next_revision_number(names@.map_values(|s: String| s@)),
{
    let ghost all = names@.map_values(|s: String| s@);
    let mut highest: u64 = 0;
    let mut i: usize = 0;
    proof {
        assert(all.take(0) =~= Seq::<Seq<char>>::empty());
    }
    while i < names.len()
        invariant
            i <= names@.len(),
            all == names@.map_values(|s: String| s@),
            highest == highest_revision(all.take(i as int)),
        decreases names@.len() - i,
    {
        proof {
            let t = all.take(i + 1);
            assert(t.drop_last() =~= all.take(i as int));
            assert(t.last() == names@[i as int]@);
        }
        match parse_revision(names[i].as_str()) {
            Some(v) => {
                if v > highest {
                    highest = v;
                }
            },
            None => {},
        }
        i = i + 1;
    }
    proof {
        assert(all.take(names@.len() as int) =~= all);
    }
    highest.checked_add(1)
}

// ---------------------------------------------------------------------------
// Listing history
// ---------------------------------------------------------------------------

/// Where `m` goes among revisions listed newest first: after every entry
/// whose revision is not lower.
pub open spec fn newest_position(sorted: Seq<RevisionMetadataModel>, m: RevisionMetadataModel) -> int
    decreases sorted.len(),
{
    if sorted.len() == 0 || sorted[0].revision < m.revision {
        0
    } else {
        1 + newest_position(sorted.drop_first(), m)
    }
}

/// History newest first: a stable sort by decreasing revision.
pub open spec fn newest_first_order(items: Seq<RevisionMetadataModel>) -> Seq<RevisionMetadataModel>
    decreases items.len(),
{
    if items.len() == 0 {
        Seq::empty()
    } else {
        let s = newest_first_order(items.drop_last());
        s.insert(newest_position(s, items.last()), items.last())
    }
}

/// No entry is followed by a higher revision.
pub open spec fn newest_sorted(s: Seq<RevisionMetadataModel>) -> bool {
    forall|i: int, j: int| 0 <= i < j < s.len() ==> #[trigger] s[j].revision <= #[trigger] s[i].revision
}

pub proof fn lemma_newest_position(s: Seq<RevisionMetadataModel>, m: RevisionMetadataModel)
    ensures
        0 <= newest_position(s, m) <= s.len(),
        forall|k: int| 0 <= k < newest_position(s, m) ==> m.revision <= #[trigger] s[k].revision,
        newest_position(s, m) < s.len() ==> s[newest_position(s, m)].revision < m.revision,
    decreases s.len(),
{
    if s.len() > 0 && !(s[0].revision < m.revision) {
        lemma_newest_position(s.drop_first(), m);
        assert forall|k: int| 0 <= k < newest_position(s, m) implies m.revision
            <= #[trigger] s[k].revision by {
            if k > 0 {
                assert(s[k] == s.drop_first()[k - 1]);
            }
        }
    }
}

/// Newest-first order is sorted by decreasing revision and holds the same
/// entries, each as often as the listing does.
pub proof fn lemma_newest_first_order(items: Seq<RevisionMetadataModel>)
    ensures
        newest_sorted(newest_first_order(items)),
        newest_first_order(items).len() == items.len(),
        newest_first_order(items).to_multiset() == items.to_multiset(),
    decreases items.len(),
{
    if items.len() > 0 {
        let prev = items.drop_last();
        let s = newest_first_order(prev);
        let x = items.last();
        lemma_newest_first_order(prev);
        lemma_newest_position(s, x);
        let p = newest_position(s, x);
        let out = s.insert(p, x);
        assert forall|i: int, j: int| 0 <= i < j < out.len() implies #[trigger] out[j].revision
            <= #[trigger] out[i].revision by {
            if j == p {
                assert(out[i] == s[i]);
            } else if i == p {
                assert(out[j] == s[j - 1]);
                if p < s.len() {
                    assert(s[j - 1].revision <= s[p].revision);
                }
            } else if j < p {
                assert(out[i] == s[i] && out[j] == s[j]);
            } else if i < p {
                assert(out[i] == s[i] && out[j] == s[j - 1]);
            } else {
                assert(out[i] == s[i - 1] && out[j] == s[j - 1]);
            }
        }
        assert(items =~= prev.push(x));
        assert(newest_first_order(items) == out);
        to_multiset_insert(s, p, x);
        vstd::seq_lib::to_multiset_build(prev, x);
    } else {
        assert(items =~= Seq::<RevisionMetadataModel>::empty());
    }
}

pub open spec fn metadata_view(v: Seq<RevisionMetadata>) -> Seq<RevisionMetadataModel> {
    v.map_values(|m: RevisionMetadata| m@)
}

fn newest_index(sorted: &Vec<RevisionMetadata>, m: &RevisionMetadata) -> (p: usize)
    ensures
        p == newest_position(metadata_view(sorted@), m@),
        p <= sorted@.len(),
{
    proof {
        lemma_newest_position(metadata_view(sorted@), m@);
    }
    let ghost s = metadata_view(sorted@);
    let mut j: usize = 0;
    proof {
        assert(s.skip(0) =~= s);
    }
    while j < sorted.len() && !(sorted[j].revision < m.revision)
        invariant
            j <= sorted@.len(),
            s == metadata_view(sorted@),
            s.len() == sorted@.len(),
            newest_position(s, m@) == j + newest_position(s.skip(j as int), m@),
        decreases sorted@.len() - j,
    {
        proof {
            assert(s.skip(j as int)[0] == s[j as int]);
            assert(s.skip(j as int).drop_first() =~= s.skip(j + 1));
        }
        j = j + 1;
    }
    proof {
        if j < sorted@.len() {
            assert(s.skip(j as int)[0] == s[j as int]);
        }
    }
    j
}

/// Lists revisions newest first; entries with the same number keep the
/// order in which they came.
pub fn newest_first(items: Vec<RevisionMetadata>) -> (r: Vec<RevisionMetadata>)
    ensures
        metadata_view(r@) == newest_first_order(metadata_view(items@)),
{
    let ghost orig = metadata_view(items@);
    let mut input = items;
    let mut result: Vec<RevisionMetadata> = Vec::new();
    let ghost mut taken: int = 0;
    proof {
        assert(orig.subrange(0, 0) =~= Seq::<RevisionMetadataModel>::empty());
        assert(metadata_view(result@) =~= Seq::<RevisionMetadataModel>::empty());
        assert(metadata_view(input@) =~= orig.subrange(0, orig.len() as int));
    }
    while input.len() > 0
        invariant
            0 <= taken <= orig.len(),
            metadata_view(result@) == newest_first_order(orig.subrange(0, taken)),
            metadata_view(input@) == orig.subrange(taken, orig.len() as int),
        decreases input@.len(),
    {
        let ghost old_input = metadata_view(input@);
        let ghost raw = input@;
        assert(old_input.len() == input@.len());
        let m = input.remove(0);
        proof {
            assert(old_input[0] == m@);
            assert forall|k: int| 0 <= k < input@.len() implies metadata_view(input@)[k]
                == orig.subrange(taken + 1, orig.len() as int)[k] by {
                assert(input@[k] == raw[k + 1]);
                assert(old_input[k + 1] == raw[k + 1]@);
            }
            assert(metadata_view(input@) =~= orig.subrange(taken + 1, orig.len() as int));
        }
        let p = newest_index(&result, &m);
        let ghost before = metadata_view(result@);
        result.insert(p, m);
        proof {
            let next = orig.subrange(0, taken + 1);
            assert(next.drop_last() =~= orig.subrange(0, taken));
            assert(next.last() == orig[taken]);
            assert(metadata_view(result@) =~= before.insert(p as int, orig[taken]));
            taken = taken + 1;
        }
    }
    proof {
        assert(orig.subrange(0, taken) =~= orig);
    }
    result
}

/// The reason recorded with a rollback: the one given, or a note of the
/// revision rolled back to.
pub open spec fn rollback_reason_text(reason: Option<Seq<char>>, revision: nat) -> Option<
    Seq<char>,
> {
    match reason {
        Some(r) => Some(r),
        None => Some("rollback to #"@ + revision_name(revision)),
    }
}

pub fn rollback_reason(reason: Option<String>, revision: u64) -> (r: Option<String>)
    ensures
        opt_string_view(r) == rollback_reason_text(opt_string_view(reason), revision as nat),
{
    match reason {
        Some(r) => Some(r),
        None => {
            let mut text = String::from_str("rollback to #");
            let name = format_revision(revision);
            text.append(name.as_str());
            Some(text)
        },
    }
}

} // verus!

verus! {

pub proof fn lemma_highest_revision_covers(names: Seq<Seq<char>>, i: int)
    requires
        0 <= i < names.len(),
        parsed_u64(names[i]) is Some,
    ensures
        parsed_u64(names[i])->Some_0 <= highest_revision(names),
    decreases names.len(),
{
    if i < names.len() - 1 {
        lemma_highest_revision_covers(names.drop_last(), i);
    }
}

/// A new revision's number is above every number that an existing entry's
/// name stands for, so it never reuses one.
pub proof fn law_next_revision_is_fresh(names: Seq<Seq<char>>)
    ensures
        next_revision_number(names) matches Some(n) ==> forall|i: int|
            0 <= i < names.len() && parsed_u64(#[trigger] names[i]) is Some ==> parsed_u64(
                names[i],
            )->Some_0 < n,
        next_revision_number(names) is None ==> exists|i: int|
            0 <= i < names.len() && parsed_u64(#[trigger] names[i]) == Some(u64::MAX),
{
    lemma_highest_revision_bound(names);
    if next_revision_number(names) is Some {
        assert forall|i: int|
            0 <= i < names.len() && parsed_u64(#[trigger] names[i]) is Some implies parsed_u64(
            names[i],
        )->Some_0 < next_revision_number(names)->Some_0 by {
            lemma_highest_revision_covers(names, i);
        }
    } else {
        lemma_highest_reached(names);
    }
}

/// A nonzero highest number is the number of some entry.
pub proof fn lemma_highest_reached(names: Seq<Seq<char>>)
    ensures
        highest_revision(names) > 0 ==> exists|i: int|
            0 <= i < names.len() && parsed_u64(#[trigger] names[i]) == Some(
                highest_revision(names) as u64,
            ),
    decreases names.len(),
{
    if names.len() > 0 {
        let rest = names.drop_last();
        lemma_highest_reached(rest);
        lemma_highest_revision_bound(rest);
        if highest_revision(names) != highest_revision(rest) {
            assert(parsed_u64(names[names.len() - 1]) == Some(highest_revision(names) as u64));
        } else if highest_revision(names) > 0 {
            let i = choose|i: int|
                0 <= i < rest.len() && parsed_u64(#[trigger] rest[i]) == Some(
                    highest_revision(rest) as u64,
                );
            assert(names[i] == rest[i]);
        }
    }
}

} // verus!

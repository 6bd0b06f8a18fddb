//! Which stored revision is active and which one waits for activation.

use vstd::prelude::*;

verus! {

/// The active and the pending revision, each possibly unset.
#[derive(Clone, Copy, Debug, PartialEq, Eq, Structural)]
pub struct RevisionState {
    pub active_revision: Option<u64>,
    pub pending_revision: Option<u64>,
}

impl Default for RevisionState {
    fn default() -> (r: Self)
        ensures
            r.active_revision is None,
            r.pending_revision is None,
    {
        RevisionState { active_revision: None, pending_revision: None }
    }
}

impl RevisionState {
    /// The state once `revision` was staged: it is pending, and the active
    /// revision stays as it was.
    pub fn staged(self, revision: u64) -> (r: Self)
        ensures
            r.active_revision == self.active_revision,
            r.pending_revision == Some(revision),
    {
        RevisionState { active_revision: self.active_revision, pending_revision: Some(revision) }
    }

    /// The state once `revision` was activated: it is active and nothing is
    /// pending.
    pub fn activated(revision: u64) -> (r: Self)
        ensures
            r.active_revision == Some(revision),
            r.pending_revision is None,
    {
        RevisionState { active_revision: Some(revision), pending_revision: None }
    }

    /// The revisions that the state refers to, active first; each must exist
    /// before the state is saved.
    pub fn references(&self) -> (r: Vec<u64>)
        ensures
            r@ == (match self.active_revision {
                Some(a) => seq![a],
                None => Seq::empty(),
            }) + (match self.pending_revision {
                Some(p) => seq![p],
                None => Seq::empty(),
            }),
    {
        let mut r: Vec<u64> = Vec::new();
        match self.active_revision {
            Some(a) => r.push(a),
            None => {},
        }
        match self.pending_revision {
            Some(p) => r.push(p),
            None => {},
        }
        proof {
            assert(r@ =~= (match self.active_revision {
                Some(a) => seq![a],
                None => Seq::<u64>::empty(),
            }) + (match self.pending_revision {
                Some(p) => seq![p],
                None => Seq::<u64>::empty(),
            }));
        }
        r
    }
}

} // verus!

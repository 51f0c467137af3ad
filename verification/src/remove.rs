//! The remover: deletes a list of files one at a time, in the order given,
//! stopping at the first failure.
//!
//! The deletion itself is a filesystem call and lives with the caller. The
//! `Remover` here is the verified decision core: it says which file to delete
//! next, consumes each outcome, and stops the run at the first failure, so
//! that files already deleted stay deleted and nothing more is attempted.

use vstd::prelude::*;

verus! {

/// Drives the deletion of a list of files. The caller repeatedly asks
/// `pending` for the next file, performs the deletion, and hands the outcome
/// to `record`.
pub struct Remover {
    files: Vec<String>,
    next: usize,
    failed: bool,
}

impl Remover {
    /// The files to delete, in order.
    pub closed spec fn files_view(self) -> Seq<Seq<char>> {
        self.files.deep_view()
    }

    /// How many files have been deleted so far.
    pub closed spec fn removed(self) -> nat {
        self.next as nat
    }

    /// A deletion failed; the run stopped there.
    pub closed spec fn has_failed(self) -> bool {
        self.failed
    }

    /// Well-formed: the position never passes the end of the list.
    pub closed spec fn wf(self) -> bool {
        self.next <= self.files.len()
    }

    /// The run is over: everything was deleted, or a deletion failed.
    pub open spec fn finished(self) -> bool {
        self.has_failed() || self.removed() == self.files_view().len()
    }

    /// The whole list was deleted.
    pub open spec fn succeeded(self) -> bool {
        !self.has_failed() && self.removed() == self.files_view().len()
    }

    /// The file to delete next, when the run is not over.
    pub open spec fn spec_pending(self) -> Option<Seq<char>> {
        if self.finished() {
            None
        } else {
            Some(self.files_view()[self.removed() as int])
        }
    }

    /// A fresh run over `files`: nothing deleted, nothing failed.
    pub fn new(files: Vec<String>) -> (r: Remover)
        ensures
            r.wf(),
            r.files_view() == files.deep_view(),
            r.removed() == 0,
            !r.has_failed(),
    {
        Remover { files, next: 0, failed: false }
    }

    /// The next file to delete: `None` exactly when the run is over.
    pub fn pending(&self) -> (r: Option<String>)
        requires
            self.wf(),
        ensures
            match r {
                Some(p) => self.spec_pending() == Some(p@),
                None => self.spec_pending() is None,
            },
    {
        if self.failed || self.next >= self.files.len() {
            None
        } else {
            Some(self.files[self.next].clone())
        }
    }

    /// Consumes the outcome of deleting the pending file: on success the next
    /// file becomes pending; on failure the run stops, and what was already
    /// deleted stays counted.
    pub fn record(&mut self, ok: bool)
        requires
            old(self).wf(),
            old(self).spec_pending() is Some,
        ensures
            final(self).wf(),
            final(self).files_view() == old(self).files_view(),
            ok ==> final(self).removed() == old(self).removed() + 1 && !final(self).has_failed(),
            !ok ==> final(self).removed() == old(self).removed() && final(self).has_failed(),
    {
        if ok {
            self.next += 1;
        } else {
            self.failed = true;
        }
    }

    /// The run is over.
    pub fn is_finished(&self) -> (r: bool)
        requires
            self.wf(),
        ensures
            r == self.finished(),
    {
        self.failed || self.next >= self.files.len()
    }

    /// The whole list was deleted.
    pub fn is_success(&self) -> (r: bool)
        requires
            self.wf(),
        ensures
            r == self.succeeded(),
    {
        !self.failed && self.next >= self.files.len()
    }
}

/// Law: deleting an empty list succeeds at once, with no deletion ever
/// requested — a run over nothing has no side effects.
pub proof fn lemma_delete_nothing(r: Remover)
    requires
        r.wf(),
        r.files_view().len() == 0,
        r.removed() == 0,
        !r.has_failed(),
    ensures
        r.succeeded(),
        r.spec_pending() is None,
{
}

/// Law: after a failed deletion nothing more is pending — the run stops at
/// the first failure.
pub proof fn lemma_failure_stops(r: Remover)
    requires
        r.has_failed(),
    ensures
        r.spec_pending() is None,
        !r.succeeded(),
{
}

/// The observable step a successful `record` makes.
pub open spec fn records_success(pre: Remover, post: Remover) -> bool {
    &&& pre.spec_pending() is Some
    &&& post.files_view() == pre.files_view()
    &&& post.removed() == pre.removed() + 1
    &&& !post.has_failed()
}

/// Along a fresh run of successful steps, the files deleted up to any point
/// are exactly the first entries of the list.
proof fn lemma_run_position(steps: Seq<Remover>, k: int)
    requires
        steps.len() >= 1,
        steps[0].removed() == 0,
        !steps[0].has_failed(),
        forall|i: int|
            0 <= i < steps.len() - 1 ==> records_success(#[trigger] steps[i], steps[i + 1]),
        0 <= k < steps.len(),
    ensures
        steps[k].removed() == k,
        !steps[k].has_failed(),
        steps[k].files_view() == steps[0].files_view(),
    decreases k,
{
    if k > 0 {
        lemma_run_position(steps, k - 1);
        assert(records_success(steps[k - 1], steps[k]));
    }
}

/// Law: when a run starts fresh over a list and every deletion succeeds, the
/// files requested are exactly the list, in order, and at the end every file
/// on the list has been removed.
pub proof fn lemma_all_deletions_succeed(steps: Seq<Remover>)
    requires
        steps.len() == steps[0].files_view().len() + 1,
        steps[0].removed() == 0,
        !steps[0].has_failed(),
        forall|i: int|
            0 <= i < steps.len() - 1 ==> records_success(#[trigger] steps[i], steps[i + 1]),
    ensures
        steps.last().succeeded(),
        forall|i: int|
            0 <= i < steps.len() - 1 ==> #[trigger] steps[i].spec_pending() == Some(
                steps[0].files_view()[i],
            ),
{
    lemma_run_position(steps, steps.len() - 1);
    assert forall|i: int|
        0 <= i < steps.len() - 1 implies #[trigger] steps[i].spec_pending() == Some(
        steps[0].files_view()[i],
    ) by {
        lemma_run_position(steps, i);
    }
}

} // verus!

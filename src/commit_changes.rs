use vstd::prelude::*;

verus! {

/// Abstract value of a [`CommitChanges`]: three unbounded counters.
pub struct ChangesView {
    pub files_added: nat,
    pub files_deleted: nat,
    pub files_modified: nat,
}

impl ChangesView {
    /// The identity of `merge`.
    pub open spec fn zero() -> ChangesView {
        ChangesView { files_added: 0, files_deleted: 0, files_modified: 0 }
    }

    /// Component-wise sum.
    pub open spec fn merge(self, other: ChangesView) -> ChangesView {
        ChangesView {
            files_added: self.files_added + other.files_added,
            files_deleted: self.files_deleted + other.files_deleted,
            files_modified: self.files_modified + other.files_modified,
        }
    }
}

/// Per-component counts of added, deleted and modified files.
#[derive(Debug, Clone, Copy, PartialEq, Eq)]
pub struct CommitChanges {
    pub files_added: u32,
    pub files_deleted: u32,
    pub files_modified: u32,
}

impl View for CommitChanges {
    type V = ChangesView;

    open spec fn view(&self) -> ChangesView {
        ChangesView {
            files_added: self.files_added as nat,
            files_deleted: self.files_deleted as nat,
            files_modified: self.files_modified as nat,
        }
    }
}

impl CommitChanges {
    pub fn new(fa: u32, fd: u32, fm: u32) -> (r: CommitChanges)
        ensures
            r.files_added == fa,
            r.files_deleted == fd,
            r.files_modified == fm,
    {
        CommitChanges { files_added: fa, files_deleted: fd, files_modified: fm }
    }

    /// Whether the component-wise sum of `self` and `other` fits the counters.
    pub open spec fn can_add(self, other: CommitChanges) -> bool {
        &&& self.files_added + other.files_added <= u32::MAX
        &&& self.files_deleted + other.files_deleted <= u32::MAX
        &&& self.files_modified + other.files_modified <= u32::MAX
    }

    /// The component-wise sum of two sets of counts.
    pub fn add(self, other: CommitChanges) -> (r: CommitChanges)
        requires
            self.can_add(other),
        ensures
            r@ == self@.merge(other@),
    {
        CommitChanges {
            files_added: self.files_added + other.files_added,
            files_deleted: self.files_deleted + other.files_deleted,
            files_modified: self.files_modified + other.files_modified,
        }
    }

    /// Adds `other` into `self`, component-wise.
    pub fn add_assign(&mut self, other: CommitChanges)
        requires
            old(self).can_add(other),
        ensures
            final(self)@ == old(self)@.merge(other@),
    {
        self.files_added = self.files_added + other.files_added;
        self.files_deleted = self.files_deleted + other.files_deleted;
        self.files_modified = self.files_modified + other.files_modified;
    }
}

/// Merging counts is associative.
pub proof fn lemma_merge_associative(a: ChangesView, b: ChangesView, c: ChangesView)
    ensures
        a.merge(b).merge(c) == a.merge(b.merge(c)),
{
}

/// Merging counts is commutative.
pub proof fn lemma_merge_commutative(a: ChangesView, b: ChangesView)
    ensures
        a.merge(b) == b.merge(a),
{
}

/// The all-zero counts are the identity of merging.
pub proof fn lemma_merge_zero(a: ChangesView)
    ensures
        a.merge(ChangesView::zero()) == a,
        ChangesView::zero().merge(a) == a,
{
}

} // verus!

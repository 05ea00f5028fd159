//! What every backend of the board offers, whatever it keeps its records in.

use vstd::prelude::*;
use crate::board::{Board, Entries};
use crate::error::BoardError;
use crate::hash::HashValue;
use crate::hash_history::{HashInfo, HashSource};

verus! {

/// A batch of new nodes that is put on the board as a whole or not at all.
/// The entries are applied in the order in which they stand.
pub struct DatabaseTransaction {
    pub pending: Vec<(HashValue, HashSource)>,
}

/// The entries that a list of pending nodes stands for.
pub open spec fn entries_of(pending: Seq<(HashValue, HashSource)>) -> Entries {
    Seq::new(pending.len(), |i: int| (pending[i].0, pending[i].1@))
}

impl View for DatabaseTransaction {
    type V = Entries;

    open spec fn view(&self) -> Entries {
        entries_of(self.pending@)
    }
}

/// True when `failure` is a fault of the backend itself, which may befall any
/// operation of a backend that keeps its records outside the program.
pub open spec fn is_backend_fault<T>(failure: Result<T, BoardError>) -> bool {
    failure matches Err(e) && e == BoardError::Internal
}

/// A store of the board's records. [`BulletinBoardBackend::board`] is the
/// state that the store stands for; every operation is stated over it.
///
/// A backend may fail with [`BoardError::Internal`] on any operation, and
/// then leaves the board as it was. Apart from that, the outcome of each
/// operation is fixed by the board and the arguments.
pub trait BulletinBoardBackend {
    /// The store is in order.
    spec fn wf(&self) -> bool;

    /// The board that the store holds.
    spec fn board(&self) -> Board;

    /// The published roots, from the oldest to the newest.
    fn get_all_published_roots(&self) -> (roots: Result<Vec<HashValue>, BoardError>)
        requires
            self.wf(),
        ensures
            roots matches Ok(list) ==> list@ == self.board().published,
            roots is Err ==> is_backend_fault(roots),
    ;

    /// The newest published root, or `None` before the first was published.
    fn get_most_recent_published_root(&self) -> (head: Result<Option<HashValue>, BoardError>)
        requires
            self.wf(),
        ensures
            head matches Ok(root) ==> root == self.board().head(),
            head is Err ==> is_backend_fault(head),
    ;

    /// The leaves and branches that have no parent, each of them once.
    fn get_all_leaves_and_branches_without_a_parent(&self) -> (orphans: Result<
        Vec<HashValue>,
        BoardError,
    >)
        requires
            self.wf(),
        ensures
            orphans matches Ok(list) ==> list@.no_duplicates() && list@.to_set()
                == self.board().orphans(),
            orphans is Err ==> is_backend_fault(orphans),
    ;

    /// The record of `query`, or `None` if the board does not know the hash.
    fn get_hash_info(&self, query: HashValue) -> (found: Result<Option<HashInfo>, BoardError>)
        requires
            self.wf(),
        ensures
            found matches Ok(Some(info)) ==> self.board().knows(query) && info@
                == self.board().records[query],
            found matches Ok(None) ==> !self.board().knows(query),
            found is Err ==> is_backend_fault(found),
    ;

    /// Puts a batch on the board. A well-formed batch is applied entry by
    /// entry; any other is refused with
    /// [`BoardError::MalformedTransaction`], and nothing of it is applied.
    /// Whatever the batch holds, a node that has a parent keeps it.
    fn publish(&mut self, transaction: &DatabaseTransaction) -> (done: Result<(), BoardError>)
        requires
            old(self).wf(),
        ensures
            final(self).wf(),
            done == old(self).board().commit_outcome(transaction@) || is_backend_fault(done),
            done is Ok ==> final(self).board() == old(self).board().commit(transaction@),
            done is Err ==> final(self).board() == old(self).board(),
            final(self).board().keeps_parents_of(old(self).board()),
    ;

    /// Erases the data of a leaf. The leaf keeps its hash, its timestamp and
    /// its parent, and no other record changes. An unknown hash is refused
    /// with [`BoardError::NotFound`], a branch or a root with
    /// [`BoardError::InvalidOperation`]. A leaf whose data is gone already
    /// stays as it is.
    fn censor_leaf(&mut self, leaf_to_censor: HashValue) -> (done: Result<(), BoardError>)
        requires
            old(self).wf(),
        ensures
            final(self).wf(),
            done == old(self).board().censor_outcome(leaf_to_censor) || is_backend_fault(done),
            done is Ok ==> final(self).board() == old(self).board().censor(leaf_to_censor),
            done is Err ==> final(self).board() == old(self).board(),
            final(self).board().keeps_parents_of(old(self).board()),
    ;
}

} // verus!

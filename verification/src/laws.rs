//! What holds of every board, every batch and every sequence of operations.

use vstd::prelude::*;
use crate::board::{Board, Entries, Operation};
use crate::hash::HashValue;
use crate::hash_history::{RecordView, SourceView};

verus! {

/// Applying entries adds their hashes to the known ones and takes none
/// away: after the first `n` entries the board knows a hash exactly if it
/// knew the hash before or one of those entries brought it.
pub proof fn lemma_known_after(board: Board, entries: Entries, n: int, hash: HashValue)
    requires
        0 <= n <= entries.len(),
    ensures
        board.apply_first(entries, n as nat).knows(hash) <==> board.reaches(entries, n, hash),
    decreases n,
{
    if n > 0 {
        let k = n - 1;
        lemma_known_after(board, entries, k, hash);
        let before = board.apply_first(entries, k as nat);
        let added = before.with_record(entries[k].0, entries[k].1);
        assert(added.knows(hash) <==> before.knows(hash) || entries[k].0 == hash);
        assert(before.apply(entries[k].0, entries[k].1).knows(hash) <==> added.knows(hash));
        if Board::brought_by(entries, n, hash) && !Board::brought_by(entries, k, hash) {
            let j = choose|j: int| 0 <= j < n && j < entries.len() && entries[j].0 == hash;
            assert(j == k);
        }
        if entries[k].0 == hash {
            assert(0 <= k < n && entries[k].0 == hash);
        }
        if Board::brought_by(entries, k, hash) {
            let j = choose|j: int| 0 <= j < k && j < entries.len() && entries[j].0 == hash;
            assert(0 <= j < n && entries[j].0 == hash);
        }
    }
}

/// An entry of a batch is well formed exactly if the board that the entries
/// before it give accepts it.
pub proof fn lemma_well_formed_step(board: Board, entries: Entries, k: int)
    requires
        0 <= k < entries.len(),
    ensures
        board.well_formed_at(entries, k) <==> board.apply_first(entries, k as nat).accepts(
            entries[k].0,
            entries[k].1,
        ),
{
    lemma_known_after(board, entries, k, entries[k].0);
    match entries[k].1 {
        SourceView::Branch { left, right } => {
            lemma_known_after(board, entries, k, left);
            lemma_known_after(board, entries, k, right);
        },
        _ => {},
    }
}

/// Applying entries publishes the roots among them, in their order, after the
/// roots that were published before: one more root for each root entry.
pub proof fn lemma_published_after(board: Board, entries: Entries, n: nat)
    ensures
        board.apply_first(entries, n).published == board.published + Board::roots_among(
            entries,
            n,
        ),
    decreases n,
{
    if n > 0 {
        lemma_published_after(board, entries, (n - 1) as nat);
    }
}

/// No operation takes a published root away or moves one: the roots
/// published before it are the first of those published after it.
pub proof fn lemma_operation_keeps_published(board: Board, op: Operation)
    ensures
        board.published.is_prefix_of(board.perform(op).published),
{
    match op {
        Operation::Commit(entries) => {
            lemma_published_after(board, entries, entries.len());
        },
        Operation::Censor(hash) => {},
    }
}

/// The published roots only grow: what is published at any moment of a
/// sequence of operations is the beginning of what is published at any later
/// moment.
pub proof fn lemma_published_roots_only_grow(
    board: Board,
    ops: Seq<Operation>,
    earlier: nat,
    later: nat,
)
    requires
        earlier <= later <= ops.len(),
    ensures
        board.perform_first(ops, earlier).published.is_prefix_of(
            board.perform_first(ops, later).published,
        ),
    decreases later,
{
    if earlier < later {
        let k = (later - 1) as nat;
        lemma_published_roots_only_grow(board, ops, earlier, k);
        lemma_operation_keeps_published(board.perform_first(ops, k), ops[k as int]);
    }
}

/// Right after a branch is applied, each node it combines has a parent: the
/// branch, if the node had none, and else the parent it had.
pub proof fn lemma_branch_is_parent(
    board: Board,
    hash: HashValue,
    left: HashValue,
    right: HashValue,
    child: HashValue,
)
    requires
        board.accepts(hash, SourceView::Branch { left, right }),
        child == left || child == right,
    ensures
        ({
            let after = board.apply(hash, SourceView::Branch { left, right });
            &&& after.knows(child)
            &&& board.records[child].parent is None ==> after.records[child].parent == Some(hash)
            &&& board.records[child].parent is Some ==> after.records[child].parent
                == board.records[child].parent
        }),
{
}

/// An entry leaves alone every record but its own and those of the nodes it
/// combines that have no parent, and changes the origin of none.
pub proof fn lemma_entry_keeps_records(
    board: Board,
    hash: HashValue,
    source: SourceView,
    other: HashValue,
)
    requires
        board.knows(other),
        other != hash,
    ensures
        ({
            let after = board.apply(hash, source);
            &&& after.knows(other)
            &&& after.records[other].source == board.records[other].source
            &&& !source.names(other) ==> after.records[other] == board.records[other]
            &&& board.records[other].parent is Some ==> after.records[other]
                == board.records[other]
            &&& source.names(other) && board.records[other].parent is None
                ==> after.records[other].parent == Some(hash)
        }),
{
}

/// Right after an entry of a well-formed batch is applied, the board holds
/// its hash with the origin that the entry gives and without a parent.
pub proof fn lemma_entry_recorded(board: Board, entries: Entries, k: int)
    requires
        board.accepts_all(entries),
        0 <= k < entries.len(),
    ensures
        board.apply_first(entries, (k + 1) as nat).knows(entries[k].0),
        board.apply_first(entries, (k + 1) as nat).records[entries[k].0] == (RecordView {
            source: entries[k].1,
            parent: None,
        }),
{
    assert(board.well_formed_at(entries, k));
    lemma_well_formed_step(board, entries, k);
}

/// A record, once made, stays: the entries of a well-formed batch keep every
/// hash that is at hand, with its origin.
pub proof fn lemma_origin_kept(board: Board, entries: Entries, from: int, to: int, hash: HashValue)
    requires
        board.accepts_all(entries),
        0 <= from <= to <= entries.len(),
        board.reaches(entries, from, hash),
    ensures
        board.apply_first(entries, to as nat).knows(hash),
        board.apply_first(entries, to as nat).records[hash].source == board.apply_first(
            entries,
            from as nat,
        ).records[hash].source,
    decreases to - from,
{
    lemma_known_after(board, entries, from, hash);
    if from < to {
        let k = to - 1;
        lemma_origin_kept(board, entries, from, k, hash);
        assert(board.well_formed_at(entries, k));
        lemma_well_formed_step(board, entries, k);
        lemma_entry_keeps_records(
            board.apply_first(entries, k as nat),
            entries[k].0,
            entries[k].1,
            hash,
        );
    }
}

/// After a batch is committed the board holds each of its entries with the
/// origin that the entry gives, and every record it held before with the
/// origin it had.
pub proof fn lemma_commit_records(board: Board, entries: Entries)
    requires
        board.accepts_all(entries),
    ensures
        forall|k: int|
            0 <= k < entries.len() ==> board.commit(entries).knows((#[trigger] entries[k]).0)
                && board.commit(entries).records[entries[k].0].source == entries[k].1,
        forall|hash: HashValue| #[trigger]
            board.knows(hash) ==> board.commit(entries).knows(hash) && board.commit(
                entries,
            ).records[hash].source == board.records[hash].source,
{
    let n = entries.len() as int;
    assert forall|k: int| 0 <= k < entries.len() implies board.commit(entries).knows(
        (#[trigger] entries[k]).0,
    ) && board.commit(entries).records[entries[k].0].source == entries[k].1 by {
        lemma_entry_recorded(board, entries, k);
        lemma_known_after(board, entries, k + 1, entries[k].0);
        lemma_origin_kept(board, entries, k + 1, n, entries[k].0);
    }
    assert forall|hash: HashValue| #[trigger] board.knows(hash) implies board.commit(
        entries,
    ).knows(hash) && board.commit(entries).records[hash].source
        == board.records[hash].source by {
        lemma_origin_kept(board, entries, 0, n, hash);
    }
}

/// A node keeps its record, with or without a parent, through the entries
/// that do not combine it.
pub proof fn lemma_parent_kept(
    board: Board,
    entries: Entries,
    from: int,
    to: int,
    child: HashValue,
)
    requires
        board.accepts_all(entries),
        0 <= from <= to <= entries.len(),
        board.reaches(entries, from, child),
        forall|j: int| from <= j < to ==> !(#[trigger] entries[j]).1.names(child),
    ensures
        board.apply_first(entries, to as nat).knows(child),
        board.apply_first(entries, to as nat).records[child] == board.apply_first(
            entries,
            from as nat,
        ).records[child],
    decreases to - from,
{
    lemma_known_after(board, entries, from, child);
    if from < to {
        let k = to - 1;
        lemma_parent_kept(board, entries, from, k, child);
        let before = board.apply_first(entries, k as nat);
        assert(board.well_formed_at(entries, k));
        lemma_well_formed_step(board, entries, k);
        assert(!entries[k].1.names(child));
        lemma_entry_keeps_records(before, entries[k].0, entries[k].1, child);
    }
}

/// A node that has a parent keeps it, and its whole record, through the
/// entries of a well-formed batch.
pub proof fn lemma_parent_stays(
    board: Board,
    entries: Entries,
    from: int,
    to: int,
    child: HashValue,
)
    requires
        board.accepts_all(entries),
        0 <= from <= to <= entries.len(),
        board.apply_first(entries, from as nat).knows(child),
        board.apply_first(entries, from as nat).records[child].parent is Some,
    ensures
        board.apply_first(entries, to as nat).knows(child),
        board.apply_first(entries, to as nat).records[child] == board.apply_first(
            entries,
            from as nat,
        ).records[child],
    decreases to - from,
{
    if from < to {
        let k = to - 1;
        lemma_parent_stays(board, entries, from, k, child);
        assert(board.well_formed_at(entries, k));
        lemma_well_formed_step(board, entries, k);
        lemma_entry_keeps_records(
            board.apply_first(entries, k as nat),
            entries[k].0,
            entries[k].1,
            child,
        );
    }
}

/// After a batch is committed, a node that had no parent has as its parent
/// the first branch of the batch that combines it.
pub proof fn lemma_commit_sets_parents(board: Board, entries: Entries, k: int, child: HashValue)
    requires
        board.accepts_all(entries),
        0 <= k < entries.len(),
        entries[k].1.names(child),
        forall|j: int| 0 <= j < k ==> !(#[trigger] entries[j]).1.names(child),
        board.knows(child) ==> board.records[child].parent is None,
    ensures
        board.commit(entries).knows(child),
        board.commit(entries).records[child].parent == Some(entries[k].0),
{
    let before = board.apply_first(entries, k as nat);
    assert(board.well_formed_at(entries, k));
    lemma_well_formed_step(board, entries, k);
    assert(board.reaches(entries, k, child));
    assert(before.knows(child) && before.records[child].parent is None) by {
        if board.knows(child) {
            lemma_parent_kept(board, entries, 0, k, child);
        } else {
            let j = choose|j: int| 0 <= j < k && j < entries.len() && entries[j].0 == child;
            lemma_entry_recorded(board, entries, j);
            lemma_known_after(board, entries, j + 1, child);
            assert forall|i: int| j + 1 <= i < k implies !(#[trigger] entries[i]).1.names(
                child,
            ) by {}
            lemma_parent_kept(board, entries, j + 1, k, child);
        }
    }
    assert(board.apply_first(entries, (k + 1) as nat) == before.apply(entries[k].0, entries[k].1));
    lemma_entry_keeps_records(before, entries[k].0, entries[k].1, child);
    lemma_parent_stays(board, entries, k + 1, entries.len() as int, child);
}

/// A batch takes no parent away and gives no node another: every node that
/// had a parent before the batch has the same parent after it, whether the
/// batch was applied or refused.
pub proof fn lemma_commit_keeps_parents(board: Board, entries: Entries)
    ensures
        board.commit(entries).keeps_parents_of(board),
{
    if board.accepts_all(entries) {
        assert forall|child: HashValue| #[trigger]
            board.knows(child) && board.records[child].parent is Some implies board.commit(
            entries,
        ).knows(child) && board.commit(entries).records[child].parent
            == board.records[child].parent by {
            lemma_parent_stays(board, entries, 0, entries.len() as int, child);
        }
    }
}

/// No operation takes a parent away or gives a node another.
pub proof fn lemma_operation_keeps_parents(board: Board, op: Operation)
    ensures
        board.perform(op).keeps_parents_of(board),
{
    match op {
        Operation::Commit(entries) => lemma_commit_keeps_parents(board, entries),
        Operation::Censor(hash) => {},
    }
}

/// A parent is recorded once and for all: a node that has a parent at any
/// moment of a sequence of operations has the same parent at any later
/// moment.
pub proof fn lemma_parents_stay(board: Board, ops: Seq<Operation>, earlier: nat, later: nat)
    requires
        earlier <= later <= ops.len(),
    ensures
        board.perform_first(ops, later).keeps_parents_of(board.perform_first(ops, earlier)),
    decreases later,
{
    if earlier < later {
        let k = (later - 1) as nat;
        lemma_parents_stay(board, ops, earlier, k);
        lemma_operation_keeps_parents(board.perform_first(ops, k), ops[k as int]);
        let first = board.perform_first(ops, earlier);
        let before = board.perform_first(ops, k);
        let after = board.perform_first(ops, later);
        assert forall|child: HashValue| #[trigger]
            first.knows(child) && first.records[child].parent is Some implies after.knows(child)
            && after.records[child].parent == first.records[child].parent by {
            assert(before.knows(child));
        }
    }
}

/// On a well-linked board every node that a branch combines has its parent
/// already, so recording that branch as its parent changes nothing.
pub proof fn lemma_parent_is_recorded(board: Board, child: HashValue, parent: HashValue)
    requires
        board.well_linked(),
        board.knows(parent),
        board.records[parent].source.names(child),
    ensures
        board.with_parent(child, parent) == board,
{
    assert(board.linked_at(parent));
}

/// A batch leaves alone the record of every node that none of its entries
/// combines.
pub proof fn lemma_commit_leaves_others(board: Board, entries: Entries, hash: HashValue)
    requires
        board.knows(hash),
        forall|j: int| 0 <= j < entries.len() ==> !(#[trigger] entries[j]).1.names(hash),
    ensures
        board.commit(entries).knows(hash),
        board.commit(entries).records[hash] == board.records[hash],
{
    if board.accepts_all(entries) {
        lemma_parent_kept(board, entries, 0, entries.len() as int, hash);
    }
}

/// A batch with a malformed entry leaves the board as it was.
pub proof fn lemma_malformed_commit_changes_nothing(board: Board, entries: Entries, k: int)
    requires
        0 <= k < entries.len(),
        !board.well_formed_at(entries, k),
    ensures
        board.commit(entries) == board,
{
}

/// A batch of well-formed entries is applied whole.
pub proof fn lemma_well_formed_commit_applies_all(board: Board, entries: Entries)
    requires
        forall|k: int| 0 <= k < entries.len() ==> board.well_formed_at(entries, k),
    ensures
        board.commit(entries) == board.apply_first(entries, entries.len()),
{
}

/// The orphans are known leaves and branches without a parent: no root is
/// among them, and no node that has a parent.
pub proof fn lemma_orphans(board: Board, hash: HashValue)
    ensures
        board.orphans().contains(hash) <==> board.knows(hash) && board.records[hash].parent
            is None && (board.records[hash].source is Leaf || board.records[hash].source
            is Branch),
{
}

/// Erasing the data of a leaf keeps the leaf under its hash, with its
/// timestamp and its parent, and without data. Every other record, so every
/// branch that combines the leaf, and the published roots stay as they were.
pub proof fn lemma_censor_keeps_identity(board: Board, hash: HashValue)
    requires
        board.holds_leaf(hash),
    ensures
        ({
            let after = board.censor(hash);
            &&& after.records.dom() == board.records.dom()
            &&& after.records[hash].source == SourceView::Leaf {
                timestamp: board.records[hash].source->Leaf_timestamp,
                data: None,
            }
            &&& after.records[hash].parent == board.records[hash].parent
            &&& forall|other: HashValue|
                other != hash && board.knows(other) ==> after.records[other]
                    == board.records[other]
            &&& after.published == board.published
        }),
{
    assert(board.censor(hash).records.dom() =~= board.records.dom());
}

/// Erasing the data of a leaf twice is the same as erasing it once.
pub proof fn lemma_censor_twice(board: Board, hash: HashValue)
    ensures
        board.censor(hash).censor(hash) == board.censor(hash),
{
    if board.holds_leaf(hash) {
        assert(board.censor(hash).censor(hash).records =~= board.censor(hash).records);
    }
}

/// The board is an audit trail: through any sequence of operations a record
/// stays under its hash, and its origin stays what it was but for data that
/// was erased.
pub proof fn lemma_records_stay(board: Board, ops: Seq<Operation>, n: nat, hash: HashValue)
    requires
        n <= ops.len(),
        board.knows(hash),
    ensures
        board.perform_first(ops, n).knows(hash),
        board.perform_first(ops, n).records[hash].source.censored()
            == board.records[hash].source.censored(),
    decreases n,
{
    if n > 0 {
        let k = (n - 1) as nat;
        lemma_records_stay(board, ops, k, hash);
        let before = board.perform_first(ops, k);
        match ops[k as int] {
            Operation::Commit(entries) => {
                if before.accepts_all(entries) {
                    lemma_commit_records(before, entries);
                }
            },
            Operation::Censor(erased) => {},
        }
    }
}

/// The empty board is well linked.
pub proof fn lemma_empty_is_well_linked()
    ensures
        Board::empty().well_linked(),
{
}

/// An entry that a well-linked board accepts leaves it well linked.
pub proof fn lemma_entry_keeps_links(board: Board, hash: HashValue, source: SourceView)
    requires
        board.well_linked(),
        board.accepts(hash, source),
    ensures
        board.apply(hash, source).well_linked(),
{
    let after = board.apply(hash, source);
    assert(forall|i: int|
        0 <= i < board.published.len() ==> after.published[i] == board.published[i]);
    assert forall|i: int| 0 <= i < board.published.len() implies board.published[i] != hash by {
        assert(board.knows(board.published[i]));
    }
    assert forall|other: HashValue| after.knows(other) implies #[trigger] after.linked_at(
        other,
    ) by {
        if other == hash {
            assert(after.records[hash].parent is None);
            if source is Root {
                assert(after.published[board.published.len() as int] == hash);
            }
        } else {
            assert(board.knows(other));
            assert(board.linked_at(other));
            lemma_entry_keeps_records(board, hash, source, other);
            let record = board.records[other];
            if record.parent is Some {
                lemma_entry_keeps_records(board, hash, source, record.parent->Some_0);
            }
            if record.source is Branch {
                lemma_entry_keeps_records(board, hash, source, record.source->Branch_left);
                lemma_entry_keeps_records(board, hash, source, record.source->Branch_right);
            }
            if record.source is Root {
                let i = choose|i: int|
                    0 <= i < board.published.len() && board.published[i] == other;
                assert(after.published[i] == other);
            }
        }
    }
    assert forall|i: int| 0 <= i < after.published.len() implies after.knows(
        #[trigger] after.published[i],
    ) && after.records[after.published[i]].source is Root by {
        if i < board.published.len() {
            assert(board.knows(board.published[i]));
            lemma_entry_keeps_records(board, hash, source, board.published[i]);
        }
    }
}

/// A batch leaves a well-linked board well linked.
pub proof fn lemma_commit_keeps_links(board: Board, entries: Entries)
    requires
        board.well_linked(),
    ensures
        board.commit(entries).well_linked(),
{
    if board.accepts_all(entries) {
        lemma_entries_keep_links(board, entries, entries.len() as int);
    }
}

/// The first entries of a well-formed batch leave a well-linked board well
/// linked.
pub proof fn lemma_entries_keep_links(board: Board, entries: Entries, n: int)
    requires
        board.well_linked(),
        board.accepts_all(entries),
        0 <= n <= entries.len(),
    ensures
        board.apply_first(entries, n as nat).well_linked(),
    decreases n,
{
    if n > 0 {
        let k = n - 1;
        lemma_entries_keep_links(board, entries, k);
        assert(board.well_formed_at(entries, k));
        lemma_well_formed_step(board, entries, k);
        lemma_entry_keeps_links(board.apply_first(entries, k as nat), entries[k].0, entries[k].1);
    }
}

/// Erasing the data of a leaf leaves a well-linked board well linked.
pub proof fn lemma_censor_keeps_links(board: Board, hash: HashValue)
    requires
        board.well_linked(),
    ensures
        board.censor(hash).well_linked(),
{
    let after = board.censor(hash);
    if board.holds_leaf(hash) {
        assert forall|other: HashValue| after.knows(other) implies #[trigger] after.linked_at(
            other,
        ) by {
            assert(board.knows(other));
            assert(board.linked_at(other));
        }
        assert forall|i: int| 0 <= i < after.published.len() implies after.knows(
            #[trigger] after.published[i],
        ) && after.records[after.published[i]].source is Root by {
            assert(board.knows(board.published[i]));
        }
    }
}

/// Operations leave a well-linked board well linked. So every board that
/// operations make of the empty board is well linked: no record points to a
/// parent or a child that the board does not hold.
pub proof fn lemma_boards_stay_well_linked(board: Board, ops: Seq<Operation>, n: nat)
    requires
        board.well_linked(),
        n <= ops.len(),
    ensures
        board.perform_first(ops, n).well_linked(),
    decreases n,
{
    if n > 0 {
        let k = (n - 1) as nat;
        lemma_boards_stay_well_linked(board, ops, k);
        let before = board.perform_first(ops, k);
        match ops[k as int] {
            Operation::Commit(entries) => lemma_commit_keeps_links(before, entries),
            Operation::Censor(hash) => lemma_censor_keeps_links(before, hash),
        }
    }
}

} // verus!

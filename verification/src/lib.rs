//! Storage, query and redaction layer of an append-only bulletin board.
//!
//! Every node of the board is identified by a 32-byte content hash. Leaves
//! carry data, branches combine two existing nodes, and roots are published
//! checkpoints. A backend records nodes in atomic batches, links each child
//! once and for all to the first branch that combines it, and lets the
//! payload of a leaf be erased without touching anything the hashes commit
//! to.
//!
//! The contracts are stated over [`Board`], the mathematical state of a
//! board, and proved by Verus.

pub mod backend;
pub mod backend_memory;
pub mod board;
pub mod error;
pub mod hash;
pub mod hash_history;
pub mod hex_text;
pub mod laws;
pub mod merkle_hash;

pub use crate::backend::{BulletinBoardBackend, DatabaseTransaction};
pub use crate::backend_memory::BackendMemory;
pub use crate::board::{Board, Entries, Operation};
pub use crate::error::BoardError;
pub use crate::hash::HashValue;
pub use crate::hash_history::{
    BranchHashHistory, HashInfo, HashSource, LeafHashHistory, RecordView, RootHashHistory,
    SourceView, Timestamp,
};
pub use crate::merkle_hash::MerkleHash;

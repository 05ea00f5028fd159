//! The hash algorithm of the board: SHA-256, fed piece by piece.

use vstd::prelude::*;
use sha2::Digest;
use sha2::Sha256;

verus! {

#[verifier::external_type_specification]
#[verifier::external_body]
pub struct ExSha256(sha2::Sha256);

/// The bytes that a SHA-256 engine has been fed since it was made or last
/// reset, in the order in which they came.
pub uninterp spec fn sha256_absorbed(engine: Sha256) -> Seq<u8>;

/// The SHA-256 digest of a message.
pub uninterp spec fn sha256_digest(message: Seq<u8>) -> Seq<u8>;

/// The most bytes one message may have: its length in bits has to fit in the
/// 64-bit counter that SHA-256 appends to the message.
pub const MAX_MESSAGE_BYTES: u64 = 0x1fff_ffff_ffff_ffff;

/// `Sha256::new` of `sha2`. Trusted: a new engine has been fed nothing.
#[verifier::external_body]
fn sha256_new() -> (engine: Sha256)
    ensures
        sha256_absorbed(engine) == Seq::<u8>::empty(),
{
    Sha256::new()
}

/// `Sha256::update` of `sha2`. Trusted: the engine has then been fed `piece`
/// after what it had been fed before. The engine counts the bits it was fed
/// in a `u64`; the bound keeps that count from overflowing.
#[verifier::external_body]
fn sha256_update(engine: &mut Sha256, piece: &[u8])
    requires
        sha256_absorbed(*old(engine)).len() + piece@.len() <= MAX_MESSAGE_BYTES,
    ensures
        sha256_absorbed(*final(engine)) == sha256_absorbed(*old(engine)) + piece@,
{
    engine.update(piece)
}

/// `Sha256::finalize_reset` of `sha2`. Trusted: it returns the SHA-256 digest
/// of what the engine had been fed, and leaves the engine as a new one.
#[verifier::external_body]
fn sha256_finalize_reset(engine: &mut Sha256) -> (digest: [u8; 32])
    ensures
        digest@ == sha256_digest(sha256_absorbed(*old(engine))),
        sha256_absorbed(*final(engine)) == Seq::<u8>::empty(),
{
    <[u8; 32]>::from(engine.finalize_reset())
}

/// `Sha256::reset` of `sha2`. Trusted: it leaves the engine as a new one.
#[verifier::external_body]
fn sha256_reset(engine: &mut Sha256)
    ensures
        sha256_absorbed(*final(engine)) == Seq::<u8>::empty(),
{
    engine.reset()
}

/// The hasher used in the Merkle trees of the board. It gathers a message
/// from the pieces written to it and hashes the whole with SHA-256.
pub struct MerkleHash {
    engine: Sha256,
    written: u64,
}

impl MerkleHash {
    /// The hasher counts the bytes of the message it holds.
    pub closed spec fn wf(&self) -> bool {
        &&& self.written == sha256_absorbed(self.engine).len()
        &&& self.written <= MAX_MESSAGE_BYTES
    }

    /// The message gathered so far.
    pub closed spec fn message(&self) -> Seq<u8> {
        sha256_absorbed(self.engine)
    }

    /// A hasher that holds the empty message.
    pub fn new() -> (hasher: MerkleHash)
        ensures
            hasher.wf(),
            hasher.message() == Seq::<u8>::empty(),
    {
        MerkleHash { engine: sha256_new(), written: 0 }
    }

    /// Appends `piece` to the message.
    pub fn write(&mut self, piece: &[u8])
        requires
            old(self).wf(),
            old(self).message().len() + piece@.len() <= MAX_MESSAGE_BYTES,
        ensures
            final(self).wf(),
            final(self).message() == old(self).message() + piece@,
    {
        let added: u64 = piece.len() as u64;
        sha256_update(&mut self.engine, piece);
        self.written = self.written + added;
    }

    /// Appends `piece` to the message if the whole then stays within
    /// [`MAX_MESSAGE_BYTES`], and says whether it did. A piece that does not
    /// fit leaves the hasher as it was.
    pub fn try_write(&mut self, piece: &[u8]) -> (fits: bool)
        requires
            old(self).wf(),
        ensures
            final(self).wf(),
            fits == (old(self).message().len() + piece@.len() <= MAX_MESSAGE_BYTES),
            fits ==> final(self).message() == old(self).message() + piece@,
            !fits ==> *final(self) == *old(self),
    {
        let added: u64 = piece.len() as u64;
        if added <= MAX_MESSAGE_BYTES - self.written {
            self.write(piece);
            true
        } else {
            false
        }
    }

    /// The SHA-256 digest of the message. The hasher then holds the empty
    /// message again.
    pub fn hash(&mut self) -> (digest: [u8; 32])
        requires
            old(self).wf(),
        ensures
            final(self).wf(),
            digest@ == sha256_digest(old(self).message()),
            final(self).message() == Seq::<u8>::empty(),
    {
        let digest = sha256_finalize_reset(&mut self.engine);
        self.written = 0;
        digest
    }

    /// Drops the message gathered so far.
    pub fn reset(&mut self)
        requires
            old(self).wf(),
        ensures
            final(self).wf(),
            final(self).message() == Seq::<u8>::empty(),
    {
        sha256_reset(&mut self.engine);
        self.written = 0;
    }
}

impl Default for MerkleHash {
    fn default() -> (hasher: MerkleHash)
        ensures
            hasher.wf(),
            hasher.message() == Seq::<u8>::empty(),
    {
        MerkleHash::new()
    }
}

} // verus!

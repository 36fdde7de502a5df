//! The digest adapter: one uniform streaming interface over the three
//! supported checksum algorithms.
//!
//! Each algorithm's context is consumed incrementally; the bytes fed so far
//! are tracked abstractly, and the final checksum is a function of those
//! bytes alone.  This is what makes chunked hashing provably equal to
//! hashing the whole content in one call.

use vstd::prelude::*;

verus! {

/// The checksum algorithm used for every entry of one snapshot.
#[derive(Clone, Copy, Debug, PartialEq, Eq, Structural)]
pub enum HashType {
    MD5,
    SHA3,
    BLAKE3,
}

/// The fingerprint computed for one file: its checksum and the metadata
/// read from the filesystem (zeros where the stat failed).
pub struct HashResult {
    pub check_sum: Vec<u8>,
    pub size: u64,
    pub ino: u64,
    pub ctime: i64,
    pub mtime: i64,
}

/// Checksum width in bytes for each algorithm.
pub open spec fn spec_digest_width(t: HashType) -> nat {
    match t {
        HashType::MD5 => 16,
        HashType::SHA3 => 32,
        HashType::BLAKE3 => 32,
    }
}

/// The MD5 checksum of a byte sequence.
pub uninterp spec fn spec_md5(data: Seq<u8>) -> Seq<u8>;

/// The SHA3-256 checksum of a byte sequence.
pub uninterp spec fn spec_sha3_256(data: Seq<u8>) -> Seq<u8>;

/// The BLAKE3 checksum of a byte sequence.
pub uninterp spec fn spec_blake3(data: Seq<u8>) -> Seq<u8>;

/// The checksum of a byte sequence under the chosen algorithm.
pub open spec fn spec_digest(t: HashType, data: Seq<u8>) -> Seq<u8> {
    match t {
        HashType::MD5 => spec_md5(data),
        HashType::SHA3 => spec_sha3_256(data),
        HashType::BLAKE3 => spec_blake3(data),
    }
}

#[verifier::external_type_specification]
#[verifier::external_body]
pub struct ExMd5Context(md5::Context);

#[verifier::external_type_specification]
#[verifier::external_body]
pub struct ExSha3_256(sha3::Sha3_256);

#[verifier::external_type_specification]
#[verifier::external_body]
pub struct ExBlake3Hasher(blake3::Hasher);

/// The bytes an MD5 context has absorbed so far.
pub uninterp spec fn md5_consumed(c: md5::Context) -> Seq<u8>;

/// The bytes a SHA3-256 state has absorbed so far.
pub uninterp spec fn sha3_consumed(c: sha3::Sha3_256) -> Seq<u8>;

/// The bytes a BLAKE3 hasher has absorbed so far.
pub uninterp spec fn blake3_consumed(c: blake3::Hasher) -> Seq<u8>;

/// Relies on md5::Context::new: a fresh context has absorbed nothing.
#[verifier::external_body]
fn md5_new() -> (c: md5::Context)
    ensures
        md5_consumed(c) == Seq::<u8>::empty(),
{
    md5::Context::new()
}

/// Relies on md5::Context::consume: appends the given bytes to the
/// absorbed stream.
#[verifier::external_body]
fn md5_update(c: &mut md5::Context, data: &[u8])
    ensures
        md5_consumed(*final(c)) == md5_consumed(*old(c)) + data@,
{
    c.consume(data)
}

/// Relies on md5::Context::finalize: returns the 16-byte MD5 checksum of
/// the absorbed stream, a function of those bytes alone.
#[verifier::external_body]
fn md5_finalize(c: md5::Context) -> (r: Vec<u8>)
    ensures
        r@ == spec_md5(md5_consumed(c)),
        r@.len() == 16,
{
    c.finalize().0.to_vec()
}

/// Relies on sha3::Sha3_256 (digest::Digest::new): a fresh state has
/// absorbed nothing.
#[verifier::external_body]
fn sha3_new() -> (c: sha3::Sha3_256)
    ensures
        sha3_consumed(c) == Seq::<u8>::empty(),
{
    <sha3::Sha3_256 as sha3::Digest>::new()
}

/// Relies on digest::Digest::update for sha3::Sha3_256: appends the given
/// bytes to the absorbed stream.
#[verifier::external_body]
fn sha3_update(c: &mut sha3::Sha3_256, data: &[u8])
    ensures
        sha3_consumed(*final(c)) == sha3_consumed(*old(c)) + data@,
{
    <sha3::Sha3_256 as sha3::Digest>::update(c, data)
}

/// Relies on digest::Digest::finalize for sha3::Sha3_256: returns the
/// 32-byte SHA3-256 checksum of the absorbed stream, a function of those
/// bytes alone.
#[verifier::external_body]
fn sha3_finalize(c: sha3::Sha3_256) -> (r: Vec<u8>)
    ensures
        r@ == spec_sha3_256(sha3_consumed(c)),
        r@.len() == 32,
{
    <sha3::Sha3_256 as sha3::Digest>::finalize(c).to_vec()
}

/// Relies on blake3::Hasher::new: a fresh hasher has absorbed nothing.
#[verifier::external_body]
fn blake3_new() -> (c: blake3::Hasher)
    ensures
        blake3_consumed(c) == Seq::<u8>::empty(),
{
    blake3::Hasher::new()
}

/// Relies on blake3::Hasher::update: appends the given bytes to the
/// absorbed stream.
#[verifier::external_body]
fn blake3_update(c: &mut blake3::Hasher, data: &[u8])
    ensures
        blake3_consumed(*final(c)) == blake3_consumed(*old(c)) + data@,
{
    c.update(data);
}

/// Relies on blake3::Hasher::finalize: returns the 32-byte BLAKE3
/// checksum of the absorbed stream, a function of those bytes alone.
#[verifier::external_body]
fn blake3_finalize(c: blake3::Hasher) -> (r: Vec<u8>)
    ensures
        r@ == spec_blake3(blake3_consumed(c)),
        r@.len() == 32,
{
    c.finalize().as_bytes().to_vec()
}

enum DigestContext {
    Md5(md5::Context),
    Sha3(sha3::Sha3_256),
    Blake3(blake3::Hasher),
}

/// An in-flight checksum computation: bytes go in through `update` in
/// chunks of any size, and `finalize` returns the checksum of everything
/// absorbed, exactly as if it had been hashed in one call.
pub struct DigestStream {
    ctx: DigestContext,
}

impl DigestStream {
    /// The algorithm this stream computes.
    pub closed spec fn algorithm(self) -> HashType {
        match self.ctx {
            DigestContext::Md5(_) => HashType::MD5,
            DigestContext::Sha3(_) => HashType::SHA3,
            DigestContext::Blake3(_) => HashType::BLAKE3,
        }
    }

    /// The bytes absorbed so far.
    pub closed spec fn consumed(self) -> Seq<u8> {
        match self.ctx {
            DigestContext::Md5(c) => md5_consumed(c),
            DigestContext::Sha3(c) => sha3_consumed(c),
            DigestContext::Blake3(c) => blake3_consumed(c),
        }
    }

    pub fn new(algorithm: HashType) -> (h: DigestStream)
        ensures
            h.algorithm() == algorithm,
            h.consumed() == Seq::<u8>::empty(),
    {
        match algorithm {
            HashType::MD5 => DigestStream { ctx: DigestContext::Md5(md5_new()) },
            HashType::SHA3 => DigestStream { ctx: DigestContext::Sha3(sha3_new()) },
            HashType::BLAKE3 => DigestStream { ctx: DigestContext::Blake3(blake3_new()) },
        }
    }

    pub fn update(&mut self, data: &[u8])
        ensures
            final(self).algorithm() == old(self).algorithm(),
            final(self).consumed() == old(self).consumed() + data@,
    {
        match &mut self.ctx {
            DigestContext::Md5(c) => md5_update(c, data),
            DigestContext::Sha3(c) => sha3_update(c, data),
            DigestContext::Blake3(c) => blake3_update(c, data),
        }
    }

    pub fn finalize(self) -> (r: Vec<u8>)
        ensures
            r@ == spec_digest(self.algorithm(), self.consumed()),
            r@.len() == spec_digest_width(self.algorithm()),
    {
        match self.ctx {
            DigestContext::Md5(c) => md5_finalize(c),
            DigestContext::Sha3(c) => sha3_finalize(c),
            DigestContext::Blake3(c) => blake3_finalize(c),
        }
    }
}

/// The concatenation of a sequence of byte chunks, first chunk first.
pub open spec fn spec_concat_chunks(chunks: Seq<Seq<u8>>) -> Seq<u8>
    decreases chunks.len(),
{
    if chunks.len() == 0 {
        Seq::<u8>::empty()
    } else {
        spec_concat_chunks(chunks.drop_last()) + chunks.last()
    }
}

/// Checksum of a byte slice in one call.
pub fn hash_bytes(algorithm: HashType, data: &[u8]) -> (r: Vec<u8>)
    ensures
        r@ == spec_digest(algorithm, data@),
        r@.len() == spec_digest_width(algorithm),
{
    let mut h = DigestStream::new(algorithm);
    h.update(data);
    proof {
        assert(h.consumed() == data@);
    }
    h.finalize()
}

/// Checksum of content supplied in chunks: provably the checksum of the
/// chunks' concatenation, whatever the chunk boundaries.
pub fn hash_chunks(algorithm: HashType, chunks: &Vec<Vec<u8>>) -> (r: Vec<u8>)
    ensures
        r@ == spec_digest(algorithm, spec_concat_chunks(chunks@.map(|i: int, c: Vec<u8>| c@))),
        r@.len() == spec_digest_width(algorithm),
{
    let ghost all: Seq<Seq<u8>> = chunks@.map(|i: int, c: Vec<u8>| c@);
    let mut h = DigestStream::new(algorithm);
    let n = chunks.len();
    assert(all.take(0) =~= Seq::<Seq<u8>>::empty());
    for i in 0..n
        invariant
            n == chunks.len(),
            all == chunks@.map(|k: int, c: Vec<u8>| c@),
            h.algorithm() == algorithm,
            h.consumed() == spec_concat_chunks(all.take(i as int)),
    {
        h.update(chunks[i].as_slice());
        proof {
            assert(all.take(i + 1).drop_last() =~= all.take(i as int));
            assert(all.take(i + 1).last() == all[i as int]);
        }
    }
    proof {
        assert(all.take(n as int) =~= all);
    }
    h.finalize()
}

/// Law: the checksum of chunked input depends only on the concatenation
/// of the chunks, never on where the chunk boundaries fall.  Two chunk
/// lists with the same concatenation, and the whole content hashed in one
/// call, all yield the same checksum.
pub proof fn lemma_chunking_irrelevant(
    algorithm: HashType,
    chunks_a: Seq<Seq<u8>>,
    chunks_b: Seq<Seq<u8>>,
    whole: Seq<u8>,
)
    requires
        spec_concat_chunks(chunks_a) == whole,
        spec_concat_chunks(chunks_b) == whole,
    ensures
        spec_digest(algorithm, spec_concat_chunks(chunks_a)) == spec_digest(algorithm, whole),
        spec_digest(algorithm, spec_concat_chunks(chunks_b)) == spec_digest(algorithm, whole),
{
}

} // verus!

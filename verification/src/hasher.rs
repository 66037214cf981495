//! Content digests: SHA-256 over the whole content of a file, taken in
//! chunks so that memory stays bounded whatever the size of the file.

use sha2::Digest;
use sha2::Sha256;
use vstd::prelude::*;
use vstd::slice::slice_subrange;

verus! {

/// The number of bytes read and hashed at a time.
pub const CHUNK_SIZE: usize = 8192;

/// The state of a running SHA-256 computation (`sha2::Sha256`). What it has
/// taken in so far is known to the verifier only through `absorbed_bytes`.
#[verifier::external_body]
pub struct Sha256State {
    inner: Sha256,
}

/// The bytes that a running computation has taken in, in order.
pub uninterp spec fn absorbed_bytes(state: Sha256State) -> Seq<u8>;

/// The SHA-256 digest of `content`, as 64 lower-case hexadecimal digits.
pub uninterp spec fn sha256_hex(content: Seq<u8>) -> Seq<char>;

/// `Digest::new` of `sha2::Sha256`: a computation that has taken in nothing.
#[verifier::external_body]
fn sha256_start() -> (state: Sha256State)
    ensures
        absorbed_bytes(state) =~= Seq::empty(),
{
    Sha256State { inner: Sha256::new() }
}

/// `Digest::update`: the computation takes in `data` after what it already
/// has.
#[verifier::external_body]
fn sha256_update(state: &mut Sha256State, data: &[u8])
    ensures
        absorbed_bytes(*final(state)) == absorbed_bytes(*old(state)) + data@,
{
    state.inner.update(data);
}

/// `Digest::finalize`, formatted in lower-case hexadecimal: the digest of
/// everything that was taken in.
#[verifier::external_body]
fn sha256_finish(state: Sha256State) -> (hex: String)
    ensures
        hex@ == sha256_hex(absorbed_bytes(state)),
{
    format!("{:x}", state.inner.finalize())
}

/// Hashes a file piece by piece. The caller reads; the hasher takes what
/// each read has brought and says whether to read on.
pub struct ContentHasher {
    state: Sha256State,
}

impl ContentHasher {
    /// The content taken in so far.
    pub closed spec fn content(&self) -> Seq<u8> {
        absorbed_bytes(self.state)
    }

    /// A hasher that has taken in nothing.
    pub fn new() -> (hasher: Self)
        ensures
            hasher.content() == Seq::<u8>::empty(),
    {
        ContentHasher { state: sha256_start() }
    }

    /// Takes in the outcome of one read: the first `bytes_read` bytes of
    /// `buffer`. The result says whether there is more to read; a read that
    /// brought nothing is the end of the file.
    pub fn absorb(&mut self, buffer: &[u8], bytes_read: usize) -> (more: bool)
        requires
            bytes_read <= buffer@.len(),
        ensures
            more == (bytes_read > 0),
            final(self).content() == old(self).content() + buffer@.take(bytes_read as int),
    {
        if bytes_read == 0 {
            assert(buffer@.take(0) =~= Seq::<u8>::empty());
            assert(self.content() + Seq::<u8>::empty() =~= self.content());
            return false;
        }
        let chunk = slice_subrange(buffer, 0, bytes_read);
        assert(chunk@ =~= buffer@.take(bytes_read as int));
        sha256_update(&mut self.state, chunk);
        true
    }

    /// The digest of everything taken in, in lower-case hexadecimal.
    pub fn finish(self) -> (hex: String)
        ensures
            hex@ == sha256_hex(self.content()),
    {
        sha256_finish(self.state)
    }
}

/// The digest of `data`, computed a chunk at a time as for a file.
pub fn hash_bytes(data: &[u8]) -> (hex: String)
    ensures
        hex@ == sha256_hex(data@),
{
    let mut hasher = ContentHasher::new();
    let mut done: usize = 0;
    while done < data.len()
        invariant
            done <= data@.len(),
            hasher.content() == data@.take(done as int),
        decreases data@.len() - done,
    {
        let left: usize = data.len() - done;
        let step: usize = if left < CHUNK_SIZE {
            left
        } else {
            CHUNK_SIZE
        };
        let piece = slice_subrange(data, done, done + step);
        let more = hasher.absorb(piece, step);
        assert(data@.take(done as int) + piece@.take(step as int) =~= data@.take(done + step));
        done = done + step;
    }
    assert(data@.take(done as int) =~= data@);
    hasher.finish()
}

} // verus!

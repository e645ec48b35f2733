//! Content digests: streaming SHA-256 over the chunks of a file, rendered as
//! lower-case hexadecimal.

use crate::text::{digit_str, hex_digit};
use sha2::Digest;
use vstd::prelude::*;
use vstd::string::StringExecFns;

verus! {

/// `sha2::Sha256`, the state of a SHA-256 computation. Nothing of its inside
/// is known here.
#[verifier::external_type_specification]
#[verifier::external_body]
pub struct ExSha256(sha2::Sha256);

/// The SHA-256 digest of a byte string.
pub uninterp spec fn sha256(data: Seq<u8>) -> Seq<u8>;

/// The bytes that a SHA-256 state has taken in so far, in order.
pub uninterp spec fn absorbed(state: sha2::Sha256) -> Seq<u8>;

/// `sha2::Sha256::new`: a fresh state has taken in nothing.
#[verifier::external_body]
fn sha256_start() -> (state: sha2::Sha256)
    ensures
        absorbed(state) == Seq::<u8>::empty(),
{
    sha2::Sha256::new()
}

/// `sha2::Sha256::update`: the state takes in `data` after what it already
/// holds. Nothing is trusted here beyond the order of the bytes.
#[verifier::external_body]
fn sha256_absorb(state: &mut sha2::Sha256, data: &[u8])
    ensures
        absorbed(*final(state)) == absorbed(*old(state)) + data@,
{
    state.update(data)
}

/// `sha2::Sha256::finalize`: the 32-byte digest of everything taken in. The
/// digest itself is not modelled; it is the function `sha256` of the bytes.
#[verifier::external_body]
fn sha256_finish(state: sha2::Sha256) -> (out: Vec<u8>)
    ensures
        out@ == sha256(absorbed(state)),
        out@.len() == 32,
{
    state.finalize().to_vec()
}

/// Two lower-case hexadecimal digits per byte, high nibble first.
pub open spec fn hex_lower(bytes: Seq<u8>) -> Seq<char>
    decreases bytes.len(),
{
    if bytes.len() == 0 {
        Seq::empty()
    } else {
        hex_lower(bytes.drop_last()).push(hex_digit(bytes.last() as int / 16)).push(
            hex_digit(bytes.last() as int % 16),
        )
    }
}

/// The digest of `data` as it appears in a file record: 64 hexadecimal digits.
pub open spec fn digest_hex(data: Seq<u8>) -> Seq<char> {
    hex_lower(sha256(data))
}

/// All chunks of a file laid end to end.
pub open spec fn concat_chunks(chunks: Seq<Vec<u8>>) -> Seq<u8>
    decreases chunks.len(),
{
    if chunks.len() == 0 {
        Seq::empty()
    } else {
        concat_chunks(chunks.drop_last()) + chunks.last()@
    }
}

/// Hexadecimal takes two digits for each byte.
pub proof fn lemma_hex_lower_len(bytes: Seq<u8>)
    ensures
        hex_lower(bytes).len() == 2 * bytes.len(),
    decreases bytes.len(),
{
    if bytes.len() > 0 {
        lemma_hex_lower_len(bytes.drop_last());
    }
}

/// Renders bytes as lower-case hexadecimal.
pub fn to_hex(bytes: &[u8]) -> (out: String)
    ensures
        out@ == hex_lower(bytes@),
{
    let mut out = String::new();
    let mut i: usize = 0;
    while i < bytes.len()
        invariant
            i <= bytes.len(),
            out@ == hex_lower(bytes@.take(i as int)),
        decreases bytes.len() - i,
    {
        let b = bytes[i];
        proof {
            let next = bytes@.take(i as int + 1);
            assert(next.drop_last() =~= bytes@.take(i as int));
            assert(next.last() == b);
        }
        out.append(digit_str(b / 16));
        out.append(digit_str(b % 16));
        i += 1;
    }
    assert(bytes@.take(i as int) =~= bytes@);
    out
}

/// A SHA-256 computation in progress over the content of one file.
pub struct ContentHasher {
    state: sha2::Sha256,
}

/// What one attempt to read from a file gave.
pub enum ReadEvent<'a> {
    /// The bytes that were read; none at the end of the file.
    Data(&'a [u8]),
    /// The read failed.
    Failed,
}

/// Where the hashing of a file stands after a read.
pub enum HashProgress {
    /// More is to be read.
    Reading(ContentHasher),
    /// The file is done: its digest, or nothing if a read failed.
    Finished(Option<String>),
}

impl ContentHasher {
    /// The bytes fed to this hasher so far.
    pub closed spec fn consumed(&self) -> Seq<u8> {
        absorbed(self.state)
    }

    /// A hasher that has been fed nothing.
    pub fn new() -> (hasher: Self)
        ensures
            hasher.consumed() == Seq::<u8>::empty(),
    {
        ContentHasher { state: sha256_start() }
    }

    /// Feeds the next chunk of the file.
    pub fn update(&mut self, chunk: &[u8])
        ensures
            final(self).consumed() == old(self).consumed() + chunk@,
    {
        sha256_absorb(&mut self.state, chunk);
    }

    /// The digest, in hexadecimal, of everything that was fed.
    pub fn finalize(self) -> (hex: String)
        ensures
            hex@ == digest_hex(self.consumed()),
            hex@.len() == 64,
    {
        let raw = sha256_finish(self.state);
        proof {
            lemma_hex_lower_len(raw@);
        }
        to_hex(raw.as_slice())
    }

    /// One step of hashing a file while it is read: bytes are fed, an empty
    /// read ends the file and yields its digest, a failed read ends it without
    /// one.
    pub fn advance(self, event: ReadEvent<'_>) -> (next: HashProgress)
        ensures
            match event {
                ReadEvent::Failed => next == HashProgress::Finished(None),
                ReadEvent::Data(bytes) => if bytes@.len() == 0 {
                    &&& next matches HashProgress::Finished(Some(hex))
                    &&& hex@ == digest_hex(self.consumed())
                } else {
                    &&& next matches HashProgress::Reading(hasher)
                    &&& hasher.consumed() == self.consumed() + bytes@
                },
            },
    {
        match event {
            ReadEvent::Failed => HashProgress::Finished(None),
            ReadEvent::Data(bytes) => {
                if bytes.len() == 0 {
                    HashProgress::Finished(Some(self.finalize()))
                } else {
                    let mut hasher = self;
                    hasher.update(bytes);
                    HashProgress::Reading(hasher)
                }
            },
        }
    }
}

/// The digest of a file given as the chunks it was read in.
pub fn hash_chunks(chunks: &Vec<Vec<u8>>) -> (hex: String)
    ensures
        hex@ == digest_hex(concat_chunks(chunks@)),
{
    let mut hasher = ContentHasher::new();
    let mut i: usize = 0;
    while i < chunks.len()
        invariant
            i <= chunks.len(),
            hasher.consumed() == concat_chunks(chunks@.take(i as int)),
        decreases chunks.len() - i,
    {
        proof {
            let next = chunks@.take(i as int + 1);
            assert(next.drop_last() =~= chunks@.take(i as int));
            assert(next.last() == chunks@[i as int]);
        }
        hasher.update(chunks[i].as_slice());
        i += 1;
    }
    assert(chunks@.take(i as int) =~= chunks@);
    hasher.finalize()
}

/// The digest of a byte string held in memory.
pub fn hash_bytes(data: &[u8]) -> (hex: String)
    ensures
        hex@ == digest_hex(data@),
{
    let mut hasher = ContentHasher::new();
    hasher.update(data);
    assert(Seq::<u8>::empty() + data@ =~= data@);
    hasher.finalize()
}

} // verus!

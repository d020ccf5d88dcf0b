//! SHA-256 digests of file contents, fed in chunks and written in lowercase
//! hex.
use vstd::prelude::*;

use sha2::Digest;

verus! {

/// The SHA-256 digest of `data`.
pub uninterp spec fn sha256_of(data: Seq<u8>) -> Seq<u8>;

/// The bytes fed so far to a SHA-256 computation.
pub uninterp spec fn hashed_input(h: Sha256State) -> Seq<u8>;

/// A SHA-256 computation in progress.
#[verifier::external_body]
pub struct Sha256State {
    inner: sha2::Sha256,
}

/// Relies on sha2's `Sha256::new`: a computation that has been fed nothing.
#[verifier::external_body]
fn sha256_start() -> (r: Sha256State)
    ensures
        hashed_input(r) == Seq::<u8>::empty(),
{
    Sha256State { inner: sha2::Sha256::new() }
}

/// Relies on sha2's `Digest::update`: `chunk` is fed after what was fed
/// before.
#[verifier::external_body]
fn sha256_feed(h: &mut Sha256State, chunk: &[u8])
    ensures
        hashed_input(*final(h)) == hashed_input(*old(h)) + chunk@,
{
    h.inner.update(chunk);
}

/// Relies on sha2's `Digest::finalize`: the 32-byte digest of all that was
/// fed.
#[verifier::external_body]
fn sha256_finish(h: Sha256State) -> (r: Vec<u8>)
    ensures
        r@ == sha256_of(hashed_input(h)),
        r@.len() == 32,
{
    h.inner.finalize().to_vec()
}

/// The lowercase hex digit for `d < 16`.
pub open spec fn hex_digit(d: nat) -> char {
    if d < 10 {
        crate::text::digit_char(d)
    } else if d == 10 {
        'a'
    } else if d == 11 {
        'b'
    } else if d == 12 {
        'c'
    } else if d == 13 {
        'd'
    } else if d == 14 {
        'e'
    } else {
        'f'
    }
}

/// `bytes` in lowercase hex: two digits for each byte, the high one first.
pub open spec fn hex_text(bytes: Seq<u8>) -> Seq<char>
    decreases bytes.len(),
{
    if bytes.len() == 0 {
        Seq::empty()
    } else {
        hex_text(bytes.drop_last()) + seq![
            hex_digit((bytes.last() / 16) as nat),
            hex_digit((bytes.last() % 16) as nat),
        ]
    }
}

pub proof fn lemma_hex_text_len(bytes: Seq<u8>)
    ensures
        hex_text(bytes).len() == 2 * bytes.len(),
    decreases bytes.len(),
{
    if bytes.len() > 0 {
        lemma_hex_text_len(bytes.drop_last());
    }
}

/// Relies on hex's `encode`: two lowercase hex digits for each byte, the high
/// one first.
#[verifier::external_body]
fn hex_lower(bytes: &[u8]) -> (r: String)
    ensures
        r@ == hex_text(bytes@),
{
    hex::encode(bytes)
}

/// The SHA-256 digest of a file's contents, fed chunk by chunk as the file is
/// read.
pub struct FileDigest {
    state: Sha256State,
}

impl View for FileDigest {
    type V = Seq<u8>;

    /// The contents fed so far.
    closed spec fn view(&self) -> Seq<u8> {
        hashed_input(self.state)
    }
}

impl FileDigest {
    /// A digest of nothing yet.
    pub fn new() -> (r: FileDigest)
        ensures
            r@ == Seq::<u8>::empty(),
    {
        FileDigest { state: sha256_start() }
    }

    /// Feeds the next chunk of contents.
    pub fn update(&mut self, chunk: &[u8])
        ensures
            final(self)@ == old(self)@ + chunk@,
    {
        sha256_feed(&mut self.state, chunk);
    }

    /// The digest of all contents fed, in lowercase hex: 64 digits.
    pub fn finish_hex(self) -> (r: String)
        ensures
            r@ == hex_text(sha256_of(self@)),
            r@.len() == 64,
    {
        let bytes = sha256_finish(self.state);
        proof {
            lemma_hex_text_len(bytes@);
        }
        hex_lower(bytes.as_slice())
    }
}

/// The SHA-256 digest of `data` in lowercase hex.
pub fn digest_hex(data: &[u8]) -> (r: String)
    ensures
        r@ == hex_text(sha256_of(data@)),
        r@.len() == 64,
{
    let mut d = FileDigest::new();
    d.update(data);
    proof {
        assert(Seq::<u8>::empty() + data@ =~= data@);
    }
    d.finish_hex()
}

} // verus!

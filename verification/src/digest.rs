//! SHA-256 digests in hexadecimal digits.

use crate::text;
use sha2::Digest;
use vstd::prelude::*;
use vstd::string::*;

verus! {

/// The SHA-256 digest of `bytes` in hexadecimal digits, the letters small.
pub uninterp spec fn sha256_hex(bytes: Seq<u8>) -> Seq<char>;

/// Whether `s` is made of 64 hexadecimal digits, the letters small.
pub open spec fn is_hex_digest(s: Seq<char>) -> bool {
    &&& s.len() == 64
    &&& forall|i: int|
        0 <= i < s.len() ==> '0' <= #[trigger] s[i] <= '9' || 'a' <= s[i] <= 'f'
}

/// A `sha2::Sha256` that is fed piece by piece. Its type takes parameters that cannot
/// be declared, so it is held here.
#[verifier::external_body]
#[derive(Debug)]
pub struct Sha256Stream {
    inner: sha2::Sha256,
}

/// The bytes that a stream was fed.
pub uninterp spec fn fed(s: Sha256Stream) -> Seq<u8>;

/// `Sha256::new`: a stream that was fed nothing.
#[verifier::external_body]
fn start_stream() -> (r: Sha256Stream)
    ensures
        fed(r) == Seq::<u8>::empty(),
{
    Sha256Stream { inner: sha2::Sha256::new() }
}

/// `Digest::update`: feeds `bytes` behind what was fed before.
#[verifier::external_body]
fn feed_stream(s: &mut Sha256Stream, bytes: &[u8])
    ensures
        fed(*final(s)) == fed(*old(s)) + bytes@,
{
    s.inner.update(bytes);
}

/// `Digest::finalize`, written in hexadecimal digits. Which digits they are is left
/// to the algorithm; there are two for each of the 32 bytes. They depend on the bytes
/// alone, not on how these were cut into pieces.
#[verifier::external_body]
fn end_stream(s: Sha256Stream) -> (r: String)
    ensures
        r@ == sha256_hex(fed(s)),
        is_hex_digest(r@),
{
    format!("{:x}", s.inner.finalize())
}

/// The content of a file that is read, or comes in, piece by piece: how long it is and
/// what its digest will be.
#[derive(Debug)]
pub struct Content {
    stream: Sha256Stream,
    len: u64,
}

impl View for Content {
    type V = Seq<u8>;

    closed spec fn view(&self) -> Seq<u8> {
        fed(self.stream)
    }
}

impl Content {
    /// The length is that of the bytes.
    pub closed spec fn well_formed(&self) -> bool {
        self.len == fed(self.stream).len()
    }

    /// No content so far.
    pub fn new() -> (r: Self)
        ensures
            r.well_formed(),
            r@ == Seq::<u8>::empty(),
    {
        Content { stream: start_stream(), len: 0 }
    }

    /// Takes the next piece.
    pub fn take_piece(&mut self, bytes: &[u8])
        requires
            old(self).well_formed(),
            old(self)@.len() + bytes@.len() <= u64::MAX,
        ensures
            final(self).well_formed(),
            final(self)@ == old(self)@ + bytes@,
    {
        feed_stream(&mut self.stream, bytes);
        self.len = self.len + bytes.len() as u64;
    }

    /// How many bytes there are.
    pub fn len(&self) -> (r: u64)
        requires
            self.well_formed(),
        ensures
            r == self@.len(),
    {
        self.len
    }

    /// The digest of the whole content.
    pub fn digest(self) -> (r: String)
        ensures
            r@ == sha256_hex(self@),
            is_hex_digest(r@),
    {
        end_stream(self.stream)
    }
}

/// The SHA-256 digest of `bytes`.
fn sha256_of(bytes: &[u8]) -> (r: String)
    ensures
        r@ == sha256_hex(bytes@),
        is_hex_digest(r@),
{
    let mut stream = start_stream();
    feed_stream(&mut stream, bytes);
    assert(Seq::<u8>::empty() + bytes@ =~= bytes@);
    end_stream(stream)
}

/// The SHA-256 digest of the UTF-8 bytes of `s`.
pub fn sha256_of_text(s: &str) -> (r: String)
    ensures
        r@ == sha256_hex(vstd::utf8::encode_utf8(s@)),
        is_hex_digest(r@),
{
    sha256_of(s.as_bytes())
}

pub open spec fn is_hex_digit(c: char) -> bool {
    '0' <= c <= '9' || 'a' <= c <= 'f' || 'A' <= c <= 'F'
}

/// Whether `s` is made of `len` hexadecimal digits.
pub open spec fn is_hash(s: Seq<char>, len: nat) -> bool {
    s.len() == len && forall|i: int| 0 <= i < s.len() ==> is_hex_digit(#[trigger] s[i])
}

/// Whether `value` is made of `len` hexadecimal digits.
pub fn valid_hash(value: &str, len: usize) -> (r: bool)
    ensures
        r == is_hash(value@, len as nat),
{
    let cs = text::chars_of(value);
    if cs.len() != len {
        return false;
    }
    let mut i: usize = 0;
    while i < cs.len()
        invariant
            i <= cs@.len() == len,
            cs@ == value@,
            forall|k: int| 0 <= k < i ==> is_hex_digit(#[trigger] cs@[k]),
        decreases cs@.len() - i,
    {
        let c = cs[i];
        if !(('0' <= c && c <= '9') || ('a' <= c && c <= 'f') || ('A' <= c && c <= 'F')) {
            assert(!is_hex_digit(value@[i as int]));
            return false;
        }
        i += 1;
    }
    true
}

/// A digest that was worked out is one that is accepted.
pub proof fn digests_are_valid(s: Seq<char>)
    requires
        is_hex_digest(s),
    ensures
        is_hash(s, 64),
{
}

} // verus!

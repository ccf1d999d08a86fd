//! SHA-256 digests and the text in which they are written.

use vstd::prelude::*;
use crate::rules::is_digest;
use crate::text::{ascii_lower, lower_char, same_but_ascii_case};

verus! {

/// The SHA-256 hasher of the sha2 crate.
#[verifier::external_type_specification]
#[verifier::external_body]
pub struct ExSha256(sha2::Sha256);

/// The bytes that a hasher has been fed.
pub uninterp spec fn fed(hasher: sha2::Sha256) -> Seq<u8>;

/// What `finalize` of a hasher that was fed some bytes returns: their SHA-256 digest.
pub uninterp spec fn sha256(bytes: Seq<u8>) -> Seq<u8>;

/// Calls `sha2::Sha256::new`: a hasher that has been fed nothing.
#[verifier::external_body]
pub(crate) fn new_hasher() -> (hasher: sha2::Sha256)
    ensures
        fed(hasher) == Seq::<u8>::empty(),
{
    <sha2::Sha256 as sha2::Digest>::new()
}

/// Calls `update` of the sha2 crate's hasher: the bytes come behind those that it has been fed.
#[verifier::external_body]
pub(crate) fn feed(hasher: &mut sha2::Sha256, bytes: &[u8])
    ensures
        fed(*final(hasher)) == fed(*old(hasher)) + bytes@,
{
    sha2::Digest::update(hasher, bytes)
}

/// Calls `finalize` of the sha2 crate's hasher: 32 bytes that depend on what it has been fed alone
/// and are named by [`sha256`].
#[verifier::external_body]
pub(crate) fn finalize(hasher: sha2::Sha256) -> (digest: Vec<u8>)
    ensures
        digest@ == sha256(fed(hasher)),
        digest@.len() == 32,
{
    sha2::Digest::finalize(hasher).to_vec()
}

/// The hexadecimal digit of a number below sixteen, in lower case.
pub open spec fn hex_digit(value: int) -> char {
    if value < 10 {
        (value + 0x30) as u8 as char
    } else {
        (value + 0x57) as u8 as char
    }
}

/// Two hexadecimal digits for each byte, in lower case.
pub open spec fn hex(bytes: Seq<u8>) -> Seq<char> {
    Seq::new(
        2 * bytes.len(),
        |i: int|
            hex_digit(
                if i % 2 == 0 {
                    bytes[i / 2] as int / 16
                } else {
                    bytes[i / 2] as int % 16
                },
            ),
    )
}

fn hex_char(value: u8) -> (digit: char)
    requires
        value < 16,
    ensures
        digit == hex_digit(value as int),
{
    if value < 10 {
        (value + 0x30) as char
    } else {
        (value + 0x57) as char
    }
}

/// The hexadecimal digits of 32 bytes are a digest as recipes write it.
pub proof fn digests_are_lowercase_hexadecimal(bytes: Seq<u8>)
    requires
        bytes.len() == 32,
    ensures
        is_digest(hex(bytes)),
{
}

/// Different bytes have different hexadecimal digits, in whatever case these are compared.
pub proof fn hexadecimal_tells_bytes_apart(one: Seq<u8>, other: Seq<u8>)
    ensures
        hex(one) == hex(other) <==> one == other,
        same_but_ascii_case(hex(one), hex(other)) <==> one == other,
{
    lemma_lower_hex(one);
    lemma_lower_hex(other);
    if hex(one) == hex(other) {
        assert(hex(one).len() == 2 * one.len());
        assert(hex(other).len() == 2 * other.len());
        assert forall|i: int| 0 <= i < one.len() implies one[i] == other[i] by {
            let high = 2 * i;
            let low = 2 * i + 1;
            assert(high / 2 == i && low / 2 == i && high % 2 == 0 && low % 2 == 1);
            assert(hex(one)[high] == hex_digit(one[i] as int / 16));
            assert(hex(other)[high] == hex_digit(other[i] as int / 16));
            assert(hex(one)[low] == hex_digit(one[i] as int % 16));
            assert(hex(other)[low] == hex_digit(other[i] as int % 16));
        }
        assert(one =~= other);
    }
}

proof fn lemma_lower_hex(bytes: Seq<u8>)
    ensures
        ascii_lower(hex(bytes)) == hex(bytes),
{
    assert forall|i: int| 0 <= i < hex(bytes).len() implies #[trigger] lower_char(hex(bytes)[i])
        == hex(bytes)[i] by {}
    assert(ascii_lower(hex(bytes)) =~= hex(bytes));
}

/// Whether SHA-256 tells two runs of bytes apart, where they differ.
pub open spec fn told_apart(one: Seq<u8>, other: Seq<u8>) -> bool {
    one != other ==> sha256(one) != sha256(other)
}

/// Bytes in hexadecimal digits, in lower case.
pub fn hex_text(bytes: &[u8]) -> (text: String)
    ensures
        text@ == hex(bytes@),
{
    let mut text = String::new();
    for i in 0..bytes.len()
        invariant
            text@ == hex(bytes@.take(i as int)),
    {
        let byte = bytes[i];
        text.push(hex_char(byte / 16));
        text.push(hex_char(byte % 16));
        proof {
            let before = hex(bytes@.take(i as int));
            let after = hex(bytes@.take(i + 1));
            assert(after.len() == before.len() + 2);
            assert forall|k: int| 0 <= k < after.len() implies after[k] == before.push(
                hex_digit(byte as int / 16),
            ).push(hex_digit(byte as int % 16))[k] by {
                if k < before.len() {
                    assert(bytes@.take(i + 1)[k / 2] == bytes@.take(i as int)[k / 2]);
                } else {
                    assert(k / 2 == i);
                }
            }
            assert(text@ =~= after);
        }
    }
    assert(bytes@.take(bytes@.len() as int) =~= bytes@);
    text
}

/// The digest of a hasher as text.
pub fn finish(hasher: sha2::Sha256) -> (text: String)
    ensures
        text@ == hex(sha256(fed(hasher))),
        is_digest(text@),
{
    let digest = finalize(hasher);
    proof {
        digests_are_lowercase_hexadecimal(digest@);
    }
    hex_text(digest.as_slice())
}

/// The digest of bytes as text.
pub fn sha256_text(bytes: &[u8]) -> (text: String)
    ensures
        text@ == hex(sha256(bytes@)),
        is_digest(text@),
{
    let mut hasher = new_hasher();
    feed(&mut hasher, bytes);
    assert(Seq::<u8>::empty() + bytes@ =~= bytes@);
    finish(hasher)
}

/// Whether a text is the digest of bytes, in whatever case it is written.
pub open spec fn is_digest_of(text: Seq<char>, bytes: Seq<u8>) -> bool {
    same_but_ascii_case(hex(sha256(bytes)), text)
}

/// A hasher for data that comes in pieces.
pub struct Digest {
    hasher: sha2::Sha256,
}

impl Digest {
    /// The bytes that have come so far.
    pub closed spec fn view(&self) -> Seq<u8> {
        fed(self.hasher)
    }

    /// A hasher that has got nothing.
    pub fn new() -> (digest: Digest)
        ensures
            digest@ == Seq::<u8>::empty(),
    {
        Digest { hasher: new_hasher() }
    }

    /// Takes the next piece.
    pub fn update(&mut self, bytes: &[u8])
        ensures
            final(self)@ == old(self)@ + bytes@,
    {
        feed(&mut self.hasher, bytes);
    }

    /// The digest of everything that came, as text.
    pub fn finish(self) -> (text: String)
        ensures
            text@ == hex(sha256(self@)),
            is_digest(text@),
    {
        finish(self.hasher)
    }
}

/// Each byte is written as two digits, the upper four bits first, with `0` to `9` and then `a` to
/// `f` for the sixteen values of four bits.
pub proof fn bytes_are_written_as_two_digits(bytes: Seq<u8>, i: int)
    requires
        0 <= i < bytes.len(),
    ensures
        hex(bytes).len() == 2 * bytes.len(),
        ({
            let high = bytes[i] as int / 16;
            let low = bytes[i] as int % 16;
            &&& hex(bytes)[2 * i] as int == if high <= 9 {
                48 + high
            } else {
                87 + high
            }
            &&& hex(bytes)[2 * i + 1] as int == if low <= 9 {
                48 + low
            } else {
                87 + low
            }
        }),
{
    assert((2 * i) / 2 == i && (2 * i + 1) / 2 == i && (2 * i) % 2 == 0 && (2 * i + 1) % 2 == 1);
}

/// The digest of bytes is theirs in whatever case it is written, and no other text is.
pub proof fn digests_may_be_written_in_any_case(text: Seq<char>, bytes: Seq<u8>)
    ensures
        is_digest_of(hex(sha256(bytes)), bytes),
        is_digest_of(text, bytes) <==> ascii_lower(text) == hex(sha256(bytes)),
{
    lemma_lower_hex(sha256(bytes));
}

} // verus!

//! SHA-512 digests and their lowercase hexadecimal names.
use crate::bytes::{bytes_equal, copy_bytes};
use vstd::prelude::*;

verus! {

/// Number of bytes in a digest.
pub const DIGEST_LEN: usize = 64;

/// Number of characters in the hexadecimal name of a digest.
pub const DIGEST_NAME_LEN: usize = 128;

/// The SHA-512 digest of `input`, as the `sha2` crate computes it.
pub uninterp spec fn sha512(input: Seq<u8>) -> Seq<u8>;

/// The bytes that a running digest has absorbed so far, in order.
pub uninterp spec fn absorbed(acc: Accumulator) -> Seq<u8>;

/// A running SHA-512 computation: a `sha2::Sha512` hasher, reached only
/// through the three functions below.
#[verifier::external_body]
pub struct Accumulator {
    inner: sha2::Sha512,
}

/// `sha2::Digest::new` for `Sha512`: a fresh hasher has absorbed nothing.
#[verifier::external_body]
pub(crate) fn accumulator_new() -> (acc: Accumulator)
    ensures
        absorbed(acc) == Seq::<u8>::empty(),
{
    Accumulator { inner: <sha2::Sha512 as sha2::Digest>::new() }
}

/// `sha2::Digest::update` for `Sha512`: the hasher processes `chunk` after
/// everything it has processed before.
#[verifier::external_body]
pub(crate) fn accumulator_update(acc: &mut Accumulator, chunk: &[u8])
    ensures
        absorbed(*final(acc)) == absorbed(*old(acc)) + chunk@,
{
    sha2::Digest::update(&mut acc.inner, chunk)
}

/// `sha2::Digest::finalize` for `Sha512`: the 64-byte SHA-512 digest of all
/// the bytes that the hasher has processed.
#[verifier::external_body]
pub(crate) fn accumulator_finalize(acc: Accumulator) -> (bytes: Vec<u8>)
    ensures
        bytes@ == sha512(absorbed(acc)),
        bytes@.len() == DIGEST_LEN,
{
    sha2::Digest::finalize(acc.inner).to_vec()
}

/// The lowercase hexadecimal digit for a value below sixteen.
pub open spec fn hex_digit(nibble: u8) -> char {
    if nibble < 10 {
        (0x30 + nibble) as u8 as char
    } else {
        (0x57 + nibble) as u8 as char
    }
}

/// Lowercase hexadecimal text: two digits for each byte, the high half first.
pub open spec fn hex_text(bytes: Seq<u8>) -> Seq<char> {
    Seq::new(
        2 * bytes.len(),
        |i: int|
            if i % 2 == 0 {
                hex_digit(bytes[i / 2] / 16)
            } else {
                hex_digit(bytes[i / 2] % 16)
            },
    )
}

/// One of `0`-`9` and `a`-`f`.
pub open spec fn is_hex_char(c: char) -> bool {
    ('0' <= c && c <= '9') || ('a' <= c && c <= 'f')
}

/// The shape of the name of a digest: 128 lowercase hexadecimal digits.
pub open spec fn is_digest_name(name: Seq<char>) -> bool {
    &&& name.len() == DIGEST_NAME_LEN
    &&& forall|i: int| 0 <= i < name.len() ==> is_hex_char(#[trigger] name[i])
}

/// Whether `name` has the shape of the name of a digest.
pub fn has_digest_shape(name: &str) -> (ok: bool)
    ensures
        ok == is_digest_name(name@),
{
    let mut count: usize = 0;
    for c in it: name.chars()
        invariant
            it.seq() == name@,
            count <= DIGEST_NAME_LEN,
            count == it.index(),
            forall|i: int| 0 <= i < it.index() ==> is_hex_char(#[trigger] name@[i]),
    {
        if count == DIGEST_NAME_LEN || !(('0' <= c && c <= '9') || ('a' <= c && c <= 'f')) {
            return false;
        }
        count = count + 1;
    }
    count == DIGEST_NAME_LEN
}

/// Lowercase hexadecimal text of whole bytes: an even number of lowercase
/// hexadecimal digits.
pub open spec fn is_hex_text(text: Seq<char>) -> bool {
    &&& text.len() % 2 == 0
    &&& forall|i: int| 0 <= i < text.len() ==> is_hex_char(#[trigger] text[i])
}

/// The bytes that `text` is the lowercase hexadecimal text of: `None` where
/// it is no such text.
pub fn from_hex(text: &str) -> (r: Option<Vec<u8>>)
    ensures
        is_hex_text(text@) ==> r is Some && hex_text(r->Some_0@) == text@,
        !is_hex_text(text@) ==> r is None,
{
    let mut bytes: Vec<u8> = Vec::new();
    let mut high: Option<u8> = None;
    for c in it: text.chars()
        invariant
            it.seq() == text@,
            forall|i: int| 0 <= i < it.index() ==> is_hex_char(#[trigger] text@[i]),
            bytes@.len() == it.index() / 2,
            forall|k: int|
                0 <= k < bytes@.len() ==> text@[2 * k] == hex_digit(#[trigger] bytes@[k] / 16)
                    && text@[2 * k + 1] == hex_digit(bytes@[k] % 16),
            it.index() % 2 == 0 ==> high is None,
            it.index() % 2 == 1 ==> high is Some && high->Some_0 < 16 && text@[it.index() - 1]
                == hex_digit(high->Some_0),
    {
        let value: u8 = if '0' <= c && c <= '9' {
            (c as u8) - 0x30
        } else if 'a' <= c && c <= 'f' {
            (c as u8) - 0x57
        } else {
            return None;
        };
        match high {
            None => {
                high = Some(value);
            },
            Some(first) => {
                assert((first * 16 + value) / 16 == first && (first * 16 + value) % 16 == value);
                bytes.push(first * 16 + value);
                high = None;
            },
        }
    }
    if high.is_some() {
        return None;
    }
    assert(hex_text(bytes@) =~= text@);
    Some(bytes)
}

/// The name under which content is committed.
pub open spec fn digest_name(content: Seq<u8>) -> Seq<char> {
    hex_text(sha512(content))
}

/// `hex::encode`: two lowercase hexadecimal digits for each byte of the
/// input, in order, the high half of a byte first.
#[verifier::external_body]
pub(crate) fn hex_encode(bytes: &[u8]) -> (text: String)
    ensures
        text@ == hex_text(bytes@),
{
    hex::encode(bytes)
}

/// Every hexadecimal digit is a hexadecimal character.
pub proof fn lemma_hex_digit_is_hex_char(nibble: u8)
    requires
        nibble < 16,
    ensures
        is_hex_char(hex_digit(nibble)),
{
}

/// The hexadecimal text of 64 bytes has the shape of a digest name.
pub proof fn lemma_hex_text_of_digest(bytes: Seq<u8>)
    requires
        bytes.len() == DIGEST_LEN,
    ensures
        is_digest_name(hex_text(bytes)),
{
    let name = hex_text(bytes);
    assert forall|i: int| 0 <= i < name.len() implies is_hex_char(#[trigger] name[i]) by {
        let byte = bytes[i / 2];
        lemma_hex_digit_is_hex_char(byte / 16);
        lemma_hex_digit_is_hex_char(byte % 16);
    }
}

/// Byte strings with the same hexadecimal text are equal: a name stands for
/// one digest only.
pub proof fn lemma_hex_text_injective(a: Seq<u8>, b: Seq<u8>)
    requires
        hex_text(a) == hex_text(b),
    ensures
        a == b,
{
    assert(a.len() == b.len()) by {
        assert(hex_text(a).len() == 2 * a.len());
        assert(hex_text(b).len() == 2 * b.len());
    }
    assert forall|i: int| 0 <= i < a.len() implies a[i] == b[i] by {
        assert(hex_text(a)[2 * i] == hex_text(b)[2 * i]);
        assert(hex_text(a)[2 * i + 1] == hex_text(b)[2 * i + 1]);
        assert(hex_text(a)[2 * i] == hex_digit(a[i] / 16));
        assert(hex_text(a)[2 * i + 1] == hex_digit(a[i] % 16));
        assert(hex_text(b)[2 * i] == hex_digit(b[i] / 16));
        assert(hex_text(b)[2 * i + 1] == hex_digit(b[i] % 16));
    }
    assert(a =~= b);
}

/// A SHA-512 digest: identity and integrity check of the content it was
/// computed from.
#[derive(Debug, PartialEq, Eq)]
pub struct Digest {
    bytes: Vec<u8>,
}

impl View for Digest {
    type V = Seq<u8>;

    closed spec fn view(&self) -> Seq<u8> {
        self.bytes@
    }
}

impl Digest {
    #[verifier::type_invariant]
    spec fn has_digest_len(&self) -> bool {
        self.bytes@.len() == DIGEST_LEN
    }

    /// The digest with the given bytes, where they are as many as a digest
    /// has.
    pub fn from_bytes(bytes: Vec<u8>) -> (r: Option<Digest>)
        ensures
            bytes@.len() == DIGEST_LEN ==> r is Some && r->Some_0@ == bytes@,
            bytes@.len() != DIGEST_LEN ==> r is None,
    {
        if bytes.len() == DIGEST_LEN {
            Some(Digest { bytes })
        } else {
            None
        }
    }

    /// The digest that `name` is the text of: `None` where `name` has not
    /// the shape of a digest name.
    pub fn parse(name: &str) -> (r: Option<Digest>)
        ensures
            is_digest_name(name@) ==> r is Some && hex_text(r->Some_0@) == name@,
            !is_digest_name(name@) ==> r is None,
    {
        match from_hex(name) {
            Some(bytes) => {
                assert(hex_text(bytes@).len() == 2 * bytes@.len());
                Digest::from_bytes(bytes)
            },
            None => None,
        }
    }

    /// The digest of `content`.
    pub fn of(content: &[u8]) -> (digest: Digest)
        ensures
            digest@ == sha512(content@),
            digest@.len() == DIGEST_LEN,
    {
        let mut acc = accumulator_new();
        accumulator_update(&mut acc, content);
        assert(Seq::<u8>::empty() + content@ =~= content@);
        Digest { bytes: accumulator_finalize(acc) }
    }

    /// The digest that a running computation has reached.
    pub(crate) fn finish(acc: Accumulator) -> (digest: Digest)
        ensures
            digest@ == sha512(absorbed(acc)),
            digest@.len() == DIGEST_LEN,
    {
        Digest { bytes: accumulator_finalize(acc) }
    }

    /// The digest's bytes.
    pub fn as_bytes(&self) -> (bytes: &Vec<u8>)
        ensures
            bytes@ == self@,
            bytes@.len() == DIGEST_LEN,
    {
        proof {
            use_type_invariant(self);
        }
        &self.bytes
    }

    /// The digest's stable text encoding: lowercase hexadecimal.
    pub fn name(&self) -> (text: String)
        ensures
            text@ == hex_text(self@),
            is_digest_name(text@),
    {
        proof {
            use_type_invariant(self);
            lemma_hex_text_of_digest(self@);
        }
        hex_encode(self.bytes.as_slice())
    }

    /// Whether two digests hold the same bytes.
    pub fn same(&self, other: &Digest) -> (equal: bool)
        ensures
            equal == (self@ == other@),
    {
        bytes_equal(self.bytes.as_slice(), other.bytes.as_slice())
    }
}

impl Clone for Digest {
    fn clone(&self) -> (copy: Digest)
        ensures
            copy@ == self@,
    {
        proof {
            use_type_invariant(self);
        }
        Digest { bytes: copy_bytes(self.bytes.as_slice()) }
    }
}

} // verus!

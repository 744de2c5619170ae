//! The BLAKE3 digest behind content identifiers, and its lowercase hex text.

use vstd::prelude::*;

verus! {

/// The 32-byte BLAKE3 digest of `input`.
pub uninterp spec fn blake3_digest(input: Seq<u8>) -> Seq<u8>;

/// One lowercase hexadecimal digit for a value below 16.
pub open spec fn hex_char(n: u8) -> char {
    if n < 10 {
        (48 + n) as char
    } else {
        (87 + n) as char
    }
}

/// Lowercase hex text of `bytes`: two digits per byte, high nibble first.
pub open spec fn hex_lower(bytes: Seq<u8>) -> Seq<char>
    decreases bytes.len(),
{
    if bytes.len() == 0 {
        Seq::empty()
    } else {
        hex_lower(bytes.drop_last()) + seq![hex_char(bytes.last() / 16), hex_char(bytes.last() % 16)]
    }
}

/// Calls `blake3::hash` and hands back the digest bytes (`Hash::as_bytes`).
/// Trusted: the result is the BLAKE3 digest of the input, named
/// `blake3_digest`; nothing more about the hash function is claimed.
#[verifier::external_body]
pub(crate) fn blake3_hash(input: &[u8]) -> (digest: [u8; 32])
    ensures
        digest@ == blake3_digest(input@),
{
    *blake3::hash(input).as_bytes()
}

/// Calls `blake3::Hash::to_hex` on a digest rebuilt with `Hash::from_bytes`.
/// Trusted: the text is the 64 lowercase hex digits of the 32 bytes, high
/// nibble first, as the loop over `b"0123456789abcdef"` in its source writes it.
#[verifier::external_body]
pub(crate) fn digest_to_hex(digest: [u8; 32]) -> (hex: String)
    ensures
        hex@ == hex_lower(digest@),
{
    blake3::Hash::from_bytes(digest).to_hex().as_str().to_string()
}

proof fn lemma_hex_len(b: Seq<u8>)
    ensures
        hex_lower(b).len() == 2 * b.len(),
    decreases b.len(),
{
    if b.len() > 0 {
        lemma_hex_len(b.drop_last());
    }
}

proof fn lemma_hex_char_injective(x: u8, y: u8)
    requires
        x < 16,
        y < 16,
        hex_char(x) == hex_char(y),
    ensures
        x == y,
{
    assert(hex_char(x) as u32 == if x < 10 { 48 + x } else { 87 + x });
    assert(hex_char(y) as u32 == if y < 10 { 48 + y } else { 87 + y });
}

/// Lowercase hex text determines the bytes it was written from.
pub proof fn lemma_hex_injective(a: Seq<u8>, b: Seq<u8>)
    requires
        hex_lower(a) == hex_lower(b),
    ensures
        a == b,
    decreases a.len(),
{
    lemma_hex_len(a);
    lemma_hex_len(b);
    if a.len() > 0 {
        let ha = hex_lower(a.drop_last());
        let hb = hex_lower(b.drop_last());
        lemma_hex_len(a.drop_last());
        lemma_hex_len(b.drop_last());
        let n = ha.len() as int;
        assert(hex_lower(a)[n] == hex_char(a.last() / 16));
        assert(hex_lower(b)[n] == hex_char(b.last() / 16));
        assert(hex_lower(a)[n + 1] == hex_char(a.last() % 16));
        assert(hex_lower(b)[n + 1] == hex_char(b.last() % 16));
        lemma_hex_char_injective(a.last() / 16, b.last() / 16);
        lemma_hex_char_injective(a.last() % 16, b.last() % 16);
        assert(ha =~= hex_lower(a).take(n));
        assert(hb =~= hex_lower(b).take(n));
        lemma_hex_injective(a.drop_last(), b.drop_last());
        assert(a =~= a.drop_last().push(a.last()));
        assert(b =~= b.drop_last().push(b.last()));
    } else {
        assert(a =~= b);
    }
}

} // verus!

use sha2::Digest;
use vstd::prelude::*;

verus! {

/// The SHA-256 digest of the UTF-8 encoding of `text`, as `sha2` computes it.
pub uninterp spec fn sha256_of(text: Seq<char>) -> Seq<u8>;

/// Calls `sha2::Sha256::digest` on the bytes of `text`. Trusted: the result is
/// the named digest of `text`, and it is 32 bytes long (`Sha256`'s output size is
/// `U32`). Nothing else of SHA-256 is stated.
#[verifier::external_body]
pub(crate) fn sha256_digest(text: &str) -> (d: Vec<u8>)
    ensures
        d@ == sha256_of(text@),
        d@.len() == 32,
{
    sha2::Sha256::digest(text.as_bytes()).to_vec()
}

/// The lowercase hexadecimal digit of value `d` (`0 <= d < 16`).
pub open spec fn hex_digit(d: int) -> char {
    seq!['0', '1', '2', '3', '4', '5', '6', '7', '8', '9', 'a', 'b', 'c', 'd', 'e', 'f'][d]
}

/// Lowercase hexadecimal text of `bytes`: two digits per byte, high half first.
pub open spec fn hex_lower(bytes: Seq<u8>) -> Seq<char>
    decreases bytes.len(),
{
    if bytes.len() == 0 {
        seq![]
    } else {
        seq![hex_digit(bytes[0] as int / 16), hex_digit(bytes[0] as int % 16)] + hex_lower(bytes.drop_first())
    }
}

/// Calls `hex::encode`. Trusted: it writes each byte as two lowercase hex
/// digits, high half first (its `HEX_CHARS_LOWER` table, indexed by `byte >> 4`
/// and `byte & 0x0f`), which is `hex_lower`.
#[verifier::external_body]
pub(crate) fn hex_encode(bytes: &[u8]) -> (s: String)
    ensures
        s@ == hex_lower(bytes@),
{
    hex::encode(bytes)
}

/// The hex text has two characters per byte.
pub proof fn lemma_hex_lower_len(bytes: Seq<u8>)
    ensures
        hex_lower(bytes).len() == 2 * bytes.len(),
    decreases bytes.len(),
{
    if bytes.len() > 0 {
        lemma_hex_lower_len(bytes.drop_first());
    }
}

proof fn lemma_hex_digit_injective(a: int, b: int)
    requires
        0 <= a < 16,
        0 <= b < 16,
        hex_digit(a) == hex_digit(b),
    ensures
        a == b,
{
    let ds = seq!['0', '1', '2', '3', '4', '5', '6', '7', '8', '9', 'a', 'b', 'c', 'd', 'e', 'f'];
    assert(ds[0] == '0' && ds[1] == '1' && ds[2] == '2' && ds[3] == '3' && ds[4] == '4');
    assert(ds[5] == '5' && ds[6] == '6' && ds[7] == '7' && ds[8] == '8' && ds[9] == '9');
    assert(ds[10] == 'a' && ds[11] == 'b' && ds[12] == 'c' && ds[13] == 'd' && ds[14] == 'e');
    assert(ds[15] == 'f');
}

/// Different bytes give different hex text.
pub proof fn lemma_hex_lower_injective(a: Seq<u8>, b: Seq<u8>)
    requires
        hex_lower(a) == hex_lower(b),
    ensures
        a == b,
    decreases a.len(),
{
    lemma_hex_lower_len(a);
    lemma_hex_lower_len(b);
    if a.len() > 0 {
        let (x, y) = (a[0] as int, b[0] as int);
        assert(b.len() > 0);
        assert(hex_lower(a)[0] == hex_digit(x / 16));
        assert(hex_lower(b)[0] == hex_digit(y / 16));
        assert(hex_lower(a)[1] == hex_digit(x % 16));
        assert(hex_lower(b)[1] == hex_digit(y % 16));
        lemma_hex_digit_injective(x / 16, y / 16);
        lemma_hex_digit_injective(x % 16, y % 16);
        assert(x == (x / 16) * 16 + x % 16);
        assert(y == (y / 16) * 16 + y % 16);
        assert(hex_lower(a).skip(2) == hex_lower(a.drop_first()));
        assert(hex_lower(b).skip(2) == hex_lower(b.drop_first()));
        lemma_hex_lower_injective(a.drop_first(), b.drop_first());
        assert(a == seq![a[0]] + a.drop_first());
        assert(b == seq![b[0]] + b.drop_first());
    } else {
        assert(b.len() == 0);
        assert(a == b);
    }
}

} // verus!

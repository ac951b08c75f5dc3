//! Calls into outside crates. Each function here is believed, not proved:
//! its contract says what the called crate's source does.
use vstd::prelude::*;

verus! {

/// Number of spaces that bring `len` up to a multiple of `block`.
pub open spec fn pad_len(len: nat, block: nat) -> nat
    recommends
        block > 0,
{
    if len % block == 0 {
        0
    } else {
        (block - len % block) as nat
    }
}

/// `d` followed by the spaces that bring its length to a multiple of `block`.
pub open spec fn space_padded(d: Seq<u8>, block: nat) -> Seq<u8> {
    d + Seq::new(pad_len(d.len(), block), |i: int| 32u8)
}

/// Relies on secret_toolkit::utils::space_pad: it appends `b' '` until the
/// length is a multiple of `block_size`, and appends nothing when it already
/// is. It divides by `block_size`, so that must not be zero.
#[verifier::external_body]
pub(crate) fn space_pad(data: &mut Vec<u8>, block_size: usize)
    requires
        block_size > 0,
        old(data)@.len() + block_size <= isize::MAX,
    ensures
        final(data)@ == space_padded(old(data)@, block_size as nat),
{
    secret_toolkit::utils::space_pad(data, block_size);
}

/// Standard base64 (with padding) of some bytes.
pub uninterp spec fn base64_of(b: Seq<u8>) -> Seq<char>;

/// Relies on base64::encode: the standard alphabet, with padding, of the
/// bytes given.
#[verifier::external_body]
pub(crate) fn base64_encode(b: &[u8]) -> (r: String)
    ensures
        r@ == base64_of(b@),
{
    base64::encode(b)
}

/// SHA-256 digest of some bytes.
pub uninterp spec fn sha256_of(b: Seq<u8>) -> Seq<u8>;

/// Relies on secret_toolkit_crypto::sha_256: the 32-byte SHA-256 digest of
/// the bytes given.
#[verifier::external_body]
pub(crate) fn sha_256(b: &[u8]) -> (r: [u8; 32])
    ensures
        r@ == sha256_of(b@),
{
    secret_toolkit_crypto::sha_256(b)
}

} // verus!

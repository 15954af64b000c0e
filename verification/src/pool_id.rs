//! Deterministic pool identity: the canonical pair's encodings are
//! concatenated, hashed, and the digest's leading bytes are decoded
//! back into an asset id. That id keys the ledger and doubles as the
//! LP token's own asset id.

use vstd::prelude::*;

verus! {

use crate::asset::AssetId;
use crate::asset::asset_encoding;
use crate::asset::asset_encoding_lt;
use crate::asset::asset_lt;
use crate::asset::encode_asset;
use crate::asset::lemma_asset_order_total;
use crate::error::Error;

/// What the 256-bit hash returns on a byte string: the digest depends
/// on the bytes alone.
pub uninterp spec fn blake2_of(bytes: Seq<u8>) -> Seq<u8>;

/// Relies on sp_crypto_hashing::blake2_256: a 32-byte Blake2b digest
/// of the input, a function of the input bytes alone.
#[verifier::external_body]
fn blake2_256(bytes: &Vec<u8>) -> (r: Vec<u8>)
    ensures
        r@ == blake2_of(bytes@),
        r@.len() == 32,
{
    sp_crypto_hashing::blake2_256(bytes.as_slice()).to_vec()
}

/// A `u64` read from the first eight bytes of `s`, least significant
/// byte first.
pub open spec fn u64_from_le_bytes(s: Seq<u8>) -> u64 {
    ((s[0] as int) + (s[1] as int) * 0x100 + (s[2] as int) * 0x1_0000 + (s[3] as int) * 0x100_0000
        + (s[4] as int) * 0x1_0000_0000 + (s[5] as int) * 0x100_0000_0000 + (s[6] as int)
        * 0x1_0000_0000_0000 + (s[7] as int) * 0x100_0000_0000_0000) as u64
}

/// The identity of the pool of a canonical pair: the hash of the two
/// encodings in canonical order, decoded as an asset id.
pub open spec fn pool_id_of(asset_1: AssetId, asset_2: AssetId) -> u64 {
    u64_from_le_bytes(blake2_of(asset_encoding(asset_1) + asset_encoding(asset_2)))
}

/// What looking up the pool id of an unordered pair yields: the
/// canonical pool's id, or `SameAsset` for a pair of one asset.
pub open spec fn spec_lp_id(asset_a: AssetId, asset_b: AssetId) -> Result<u64, Error> {
    if asset_a == asset_b {
        Err(Error::SameAsset)
    } else if asset_lt(asset_b, asset_a) {
        Ok(pool_id_of(asset_b, asset_a))
    } else {
        Ok(pool_id_of(asset_a, asset_b))
    }
}

/// Derives the pool id of an already canonical pair: encode, hash,
/// decode the digest's first eight bytes.
pub fn derive_id(asset_1: AssetId, asset_2: AssetId) -> (r: u64)
    ensures
        r == pool_id_of(asset_1, asset_2),
{
    let mut bytes = encode_asset(asset_1);
    let mut tail = encode_asset(asset_2);
    bytes.append(&mut tail);
    proof {
        assert(bytes@ =~= asset_encoding(asset_1) + asset_encoding(asset_2));
    }
    let digest = blake2_256(&bytes);
    let r: u64 = (digest[0] as u64) + (digest[1] as u64) * 0x100 + (digest[2] as u64) * 0x1_0000
        + (digest[3] as u64) * 0x100_0000 + (digest[4] as u64) * 0x1_0000_0000 + (digest[5] as u64)
        * 0x100_0000_0000 + (digest[6] as u64) * 0x1_0000_0000_0000 + (digest[7] as u64)
        * 0x100_0000_0000_0000;
    r
}

/// Generates the liquidity pool id for two distinct assets, sorting
/// them first so either argument order addresses the same pool.
pub fn get_lp_id(asset_a: AssetId, asset_b: AssetId) -> (r: Result<u64, Error>)
    ensures
        r == spec_lp_id(asset_a, asset_b),
{
    proof {
        lemma_asset_order_total(asset_a, asset_b);
    }
    if asset_a == asset_b {
        return Err(Error::SameAsset);
    }
    if asset_encoding_lt(asset_b, asset_a) {
        Ok(derive_id(asset_b, asset_a))
    } else {
        Ok(derive_id(asset_a, asset_b))
    }
}

/// Pool identity is order independent: both argument orders of a
/// distinct pair name one pool, and one pair of one asset fails
/// either way.
pub proof fn lemma_lp_id_symmetric(asset_a: AssetId, asset_b: AssetId)
    ensures
        spec_lp_id(asset_a, asset_b) == spec_lp_id(asset_b, asset_a),
{
    lemma_asset_order_total(asset_a, asset_b);
}

} // verus!

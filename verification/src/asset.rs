//! Asset identifiers, their canonical byte encoding, and the total
//! order on that encoding that pair canonicalization sorts by.

use vstd::prelude::*;

verus! {

/// An asset identifier. Trading logic treats it as opaque and orders it
/// by its canonical encoding.
pub type AssetId = u64;

/// An unsigned quantity of an asset.
pub type AssetAmount = u128;

/// Canonical encoding of an asset id: its eight bytes, least
/// significant first.
pub open spec fn asset_encoding(a: AssetId) -> Seq<u8> {
    seq![
        (a & 0xff) as u8,
        ((a >> 8) & 0xff) as u8,
        ((a >> 16) & 0xff) as u8,
        ((a >> 24) & 0xff) as u8,
        ((a >> 32) & 0xff) as u8,
        ((a >> 40) & 0xff) as u8,
        ((a >> 48) & 0xff) as u8,
        ((a >> 56) & 0xff) as u8,
    ]
}

/// Strict lexicographic order on byte strings.
pub open spec fn lex_lt(x: Seq<u8>, y: Seq<u8>) -> bool
    decreases x.len(),
{
    if y.len() == 0 {
        false
    } else if x.len() == 0 {
        true
    } else if x[0] < y[0] {
        true
    } else if x[0] == y[0] {
        lex_lt(x.skip(1), y.skip(1))
    } else {
        false
    }
}

/// The canonical order on assets: `a` sorts before `b` when its
/// encoding is lexicographically smaller.
pub open spec fn asset_lt(a: AssetId, b: AssetId) -> bool {
    lex_lt(asset_encoding(a), asset_encoding(b))
}

/// Nothing sorts before itself.
pub proof fn lemma_lex_lt_irreflexive(x: Seq<u8>)
    ensures
        !lex_lt(x, x),
    decreases x.len(),
{
    if x.len() > 0 {
        lemma_lex_lt_irreflexive(x.skip(1));
    }
}

/// The order runs one way only.
pub proof fn lemma_lex_lt_asymmetric(x: Seq<u8>, y: Seq<u8>)
    requires
        lex_lt(x, y),
    ensures
        !lex_lt(y, x),
    decreases x.len(),
{
    if x.len() > 0 && y.len() > 0 && x[0] == y[0] {
        lemma_lex_lt_asymmetric(x.skip(1), y.skip(1));
    }
}

/// Byte strings of one length are totally ordered: smaller one way,
/// smaller the other way, or equal.
pub proof fn lemma_lex_lt_total(x: Seq<u8>, y: Seq<u8>)
    requires
        x.len() == y.len(),
    ensures
        lex_lt(x, y) || lex_lt(y, x) || x == y,
    decreases x.len(),
{
    if x.len() > 0 && !lex_lt(x, y) && !lex_lt(y, x) {
        lemma_lex_lt_total(x.skip(1), y.skip(1));
        assert(x.skip(1) == y.skip(1));
        assert forall|i: int| 0 <= i < x.len() implies x[i] == y[i] by {
            if i > 0 {
                assert(x.skip(1)[i - 1] == y.skip(1)[i - 1]);
            }
        }
        assert(x =~= y);
    }
}

/// A first difference at index `i`, after equal prefixes, decides the
/// lexicographic comparison.
pub proof fn lemma_lex_lt_from_prefix(x: Seq<u8>, y: Seq<u8>, i: int)
    requires
        x.len() == y.len(),
        0 <= i < x.len(),
        forall|j: int| 0 <= j < i ==> x[j] == y[j],
        x[i] < y[i],
    ensures
        lex_lt(x, y),
    decreases i,
{
    if i > 0 {
        assert forall|j: int| 0 <= j < i - 1 implies x.skip(1)[j] == y.skip(1)[j] by {
            assert(x[j + 1] == y[j + 1]);
        }
        assert(x.skip(1)[i - 1] == x[i]);
        assert(y.skip(1)[i - 1] == y[i]);
        lemma_lex_lt_from_prefix(x.skip(1), y.skip(1), i - 1);
    }
}

/// Two ids with one encoding are one id.
pub proof fn lemma_asset_encoding_injective(a: AssetId, b: AssetId)
    requires
        asset_encoding(a) == asset_encoding(b),
    ensures
        a == b,
{
    assert(asset_encoding(a)[0] == asset_encoding(b)[0]);
    assert(asset_encoding(a)[1] == asset_encoding(b)[1]);
    assert(asset_encoding(a)[2] == asset_encoding(b)[2]);
    assert(asset_encoding(a)[3] == asset_encoding(b)[3]);
    assert(asset_encoding(a)[4] == asset_encoding(b)[4]);
    assert(asset_encoding(a)[5] == asset_encoding(b)[5]);
    assert(asset_encoding(a)[6] == asset_encoding(b)[6]);
    assert(asset_encoding(a)[7] == asset_encoding(b)[7]);
    assert(a == b) by (bit_vector)
        requires
            (a & 0xff) as u8 == (b & 0xff) as u8,
            ((a >> 8) & 0xff) as u8 == ((b >> 8) & 0xff) as u8,
            ((a >> 16) & 0xff) as u8 == ((b >> 16) & 0xff) as u8,
            ((a >> 24) & 0xff) as u8 == ((b >> 24) & 0xff) as u8,
            ((a >> 32) & 0xff) as u8 == ((b >> 32) & 0xff) as u8,
            ((a >> 40) & 0xff) as u8 == ((b >> 40) & 0xff) as u8,
            ((a >> 48) & 0xff) as u8 == ((b >> 48) & 0xff) as u8,
            ((a >> 56) & 0xff) as u8 == ((b >> 56) & 0xff) as u8,
    ;
}

/// Distinct assets compare strictly one way; equal assets neither way.
pub proof fn lemma_asset_order_total(a: AssetId, b: AssetId)
    ensures
        a == b <==> !asset_lt(a, b) && !asset_lt(b, a),
        asset_lt(a, b) ==> !asset_lt(b, a),
{
    lemma_lex_lt_total(asset_encoding(a), asset_encoding(b));
    if asset_encoding(a) == asset_encoding(b) {
        lemma_asset_encoding_injective(a, b);
    }
    lemma_lex_lt_irreflexive(asset_encoding(a));
    if asset_lt(a, b) {
        lemma_lex_lt_asymmetric(asset_encoding(a), asset_encoding(b));
    }
}

/// The canonical encoding as a byte vector.
pub fn encode_asset(a: AssetId) -> (r: Vec<u8>)
    ensures
        r@ == asset_encoding(a),
        r@.len() == 8,
{
    proof {
        assert(a & 0xff < 256 && (a >> 8) & 0xff < 256 && (a >> 16) & 0xff < 256 && (a >> 24)
            & 0xff < 256 && (a >> 32) & 0xff < 256 && (a >> 40) & 0xff < 256 && (a >> 48) & 0xff
            < 256 && (a >> 56) & 0xff < 256) by (bit_vector);
    }
    let mut r: Vec<u8> = Vec::new();
    r.push((a & 0xff) as u8);
    r.push(((a >> 8) & 0xff) as u8);
    r.push(((a >> 16) & 0xff) as u8);
    r.push(((a >> 24) & 0xff) as u8);
    r.push(((a >> 32) & 0xff) as u8);
    r.push(((a >> 40) & 0xff) as u8);
    r.push(((a >> 48) & 0xff) as u8);
    r.push(((a >> 56) & 0xff) as u8);
    proof {
        assert(r@ =~= asset_encoding(a));
    }
    r
}

/// Compares two assets in the canonical order, byte by byte.
pub fn asset_encoding_lt(a: AssetId, b: AssetId) -> (r: bool)
    ensures
        r == asset_lt(a, b),
{
    let va = encode_asset(a);
    let vb = encode_asset(b);
    let mut i: usize = 0;
    while i < 8
        invariant
            i <= 8,
            va@ == asset_encoding(a),
            vb@ == asset_encoding(b),
            va@.len() == 8,
            vb@.len() == 8,
            forall|j: int| 0 <= j < i ==> va@[j] == vb@[j],
        decreases 8 - i,
    {
        let xa = va[i];
        let xb = vb[i];
        if xa < xb {
            proof {
                lemma_lex_lt_from_prefix(va@, vb@, i as int);
            }
            return true;
        }
        if xb < xa {
            proof {
                lemma_lex_lt_from_prefix(vb@, va@, i as int);
                lemma_lex_lt_asymmetric(vb@, va@);
            }
            return false;
        }
        i = i + 1;
    }
    proof {
        assert(va@ =~= vb@);
        lemma_lex_lt_irreflexive(va@);
    }
    false
}

} // verus!

//! Byte images of GPU buffers.
//!
//! Vertex, index and instance data leave this library as exact byte
//! sequences, ready for the host to upload: each 32-bit lane (a float's bit
//! pattern or an index) becomes four little-endian bytes. The specs here let
//! callers state precisely which lane of which record lands at which byte
//! offset.

use vstd::prelude::*;

use vstd::bytes::spec_u32_to_le_bytes;
use vstd::bytes::u32_to_le_bytes;

verus! {

/// Little-endian byte image of a sequence of 32-bit lanes.
pub open spec fn lanes_to_bytes(lanes: Seq<u32>) -> Seq<u8>
    decreases lanes.len(),
{
    if lanes.len() == 0 {
        Seq::empty()
    } else {
        spec_u32_to_le_bytes(lanes[0]) + lanes_to_bytes(lanes.drop_first())
    }
}

/// Every lane contributes exactly four bytes.
pub proof fn lemma_lanes_to_bytes_len(lanes: Seq<u32>)
    ensures
        lanes_to_bytes(lanes).len() == 4 * lanes.len(),
    decreases lanes.len(),
{
    vstd::bytes::lemma_auto_spec_u32_to_from_le_bytes();
    if lanes.len() > 0 {
        lemma_lanes_to_bytes_len(lanes.drop_first());
    }
}

/// The byte image of a concatenation is the concatenation of the images.
pub proof fn lemma_lanes_to_bytes_concat(s1: Seq<u32>, s2: Seq<u32>)
    ensures
        lanes_to_bytes(s1 + s2) == lanes_to_bytes(s1) + lanes_to_bytes(s2),
    decreases s1.len(),
{
    if s1.len() == 0 {
        assert(s1 + s2 =~= s2);
        assert(lanes_to_bytes(s1) + lanes_to_bytes(s2) =~= lanes_to_bytes(s2));
    } else {
        assert((s1 + s2).drop_first() =~= s1.drop_first() + s2);
        lemma_lanes_to_bytes_concat(s1.drop_first(), s2);
        assert(lanes_to_bytes(s1 + s2) =~= lanes_to_bytes(s1) + lanes_to_bytes(s2));
    }
}

/// Appending one lane appends its four bytes.
pub proof fn lemma_lanes_to_bytes_push(lanes: Seq<u32>, x: u32)
    ensures
        lanes_to_bytes(lanes.push(x)) == lanes_to_bytes(lanes) + spec_u32_to_le_bytes(x),
{
    assert(lanes.push(x) =~= lanes + seq![x]);
    lemma_lanes_to_bytes_concat(lanes, seq![x]);
    assert(seq![x].drop_first() =~= Seq::<u32>::empty());
    assert(lanes_to_bytes(Seq::<u32>::empty()) == Seq::<u8>::empty());
    assert(lanes_to_bytes(seq![x]) == spec_u32_to_le_bytes(x) + Seq::<u8>::empty());
    assert(spec_u32_to_le_bytes(x) + Seq::<u8>::empty() =~= spec_u32_to_le_bytes(x));
}

/// Lanes `[a, b)` occupy exactly bytes `[4a, 4b)`.
pub proof fn lemma_lanes_to_bytes_subrange(lanes: Seq<u32>, a: int, b: int)
    requires
        0 <= a <= b <= lanes.len(),
    ensures
        lanes_to_bytes(lanes).subrange(4 * a, 4 * b) == lanes_to_bytes(lanes.subrange(a, b)),
{
    let s1 = lanes.subrange(0, a);
    let s2 = lanes.subrange(a, b);
    let s3 = lanes.subrange(b, lanes.len() as int);
    assert(lanes =~= (s1 + s2) + s3);
    lemma_lanes_to_bytes_concat(s1 + s2, s3);
    lemma_lanes_to_bytes_concat(s1, s2);
    lemma_lanes_to_bytes_len(s1);
    lemma_lanes_to_bytes_len(s2);
    lemma_lanes_to_bytes_len(s3);
    assert(lanes_to_bytes(lanes).subrange(4 * a, 4 * b) =~= lanes_to_bytes(s2));
}

/// Append the byte image of `lanes` to `out`.
pub fn append_lane_bytes(out: &mut Vec<u8>, lanes: &Vec<u32>)
    ensures
        final(out)@ == old(out)@ + lanes_to_bytes(lanes@),
{
    let mut i: usize = 0;
    proof {
        assert(lanes@.subrange(0, 0) =~= Seq::<u32>::empty());
        assert(out@ + lanes_to_bytes(lanes@.subrange(0, 0)) =~= out@);
    }
    while i < lanes.len()
        invariant
            i <= lanes@.len(),
            out@ == old(out)@ + lanes_to_bytes(lanes@.subrange(0, i as int)),
        decreases lanes@.len() - i,
    {
        let mut b = u32_to_le_bytes(lanes[i]);
        out.append(&mut b);
        proof {
            assert(lanes@.subrange(0, i + 1) =~= lanes@.subrange(0, i as int).push(lanes@[i as int]));
            lemma_lanes_to_bytes_push(lanes@.subrange(0, i as int), lanes@[i as int]);
            assert(out@ == old(out)@ + lanes_to_bytes(lanes@.subrange(0, i + 1)));
        }
        i = i + 1;
    }
    proof {
        assert(lanes@.subrange(0, lanes@.len() as int) =~= lanes@);
    }
}

/// The byte image of a whole lane vector.
pub fn lane_bytes(lanes: &Vec<u32>) -> (out: Vec<u8>)
    ensures
        out@ == lanes_to_bytes(lanes@),
{
    let mut out: Vec<u8> = Vec::new();
    append_lane_bytes(&mut out, lanes);
    proof {
        assert(out@ =~= lanes_to_bytes(lanes@));
    }
    out
}

} // verus!

//! The binary persistence format and its proofs.
//!
//! An index is encoded as a self-describing byte stream: a fixed magic tag,
//! the query width, the point count, then every point's coordinates, each
//! value little-endian. Encoding and decoding are specified as functions on
//! byte sequences, and decoding is proved to invert encoding exactly.

use vstd::prelude::*;

use vstd::arithmetic::div_mod::{
    lemma_div_is_ordered, lemma_fundamental_div_mod, lemma_mod_bound, lemma_small_mod,
};

use crate::DIMENSIONS;

verus! {

/// The tag every persisted index starts with; a version change means a new
/// tag.
pub const MAGIC: u32 = 0x3158_4449;

/// A 32-bit value as four little-endian bytes.
pub open spec fn le32(v: u32) -> Seq<u8> {
    seq![
        (v % 256) as u8,
        ((v / 256) % 256) as u8,
        ((v / 256 / 256) % 256) as u8,
        ((v / 256 / 256 / 256) % 256) as u8,
    ]
}

/// The 32-bit value four little-endian bytes denote.
pub open spec fn from_le32(b: Seq<u8>) -> u32 {
    (b[0] as int + 256 * (b[1] as int + 256 * (b[2] as int + 256 * (b[3] as int)))) as u32
}

/// A 64-bit value as eight little-endian bytes.
pub open spec fn le64(v: u64) -> Seq<u8> {
    le32((v % 0x1_0000_0000u64) as u32) + le32((v / 0x1_0000_0000u64) as u32)
}

/// The 64-bit value eight little-endian bytes denote.
pub open spec fn from_le64(b: Seq<u8>) -> u64 {
    (from_le32(b.subrange(0, 4)) as int + 0x1_0000_0000 * (from_le32(b.subrange(4, 8)) as int))
        as u64
}

proof fn lemma_le32_round_trip(v: u32)
    ensures
        from_le32(le32(v)) == v,
{
    let x = v as int;
    lemma_fundamental_div_mod(x, 256);
    lemma_fundamental_div_mod(x / 256, 256);
    lemma_fundamental_div_mod(x / 256 / 256, 256);
    lemma_mod_bound(x, 256);
    lemma_mod_bound(x / 256, 256);
    lemma_mod_bound(x / 256 / 256, 256);
    lemma_div_is_ordered(0, x, 256);
    lemma_div_is_ordered(x, 0xFFFF_FFFF, 256);
    lemma_div_is_ordered(0, x / 256, 256);
    lemma_div_is_ordered(x / 256, 0xFF_FFFF, 256);
    lemma_div_is_ordered(0, x / 256 / 256, 256);
    lemma_div_is_ordered(x / 256 / 256, 0xFFFF, 256);
    lemma_small_mod((x / 256 / 256 / 256) as nat, 256);
}

proof fn lemma_le64_round_trip(v: u64)
    ensures
        from_le64(le64(v)) == v,
{
    let lo = (v % 0x1_0000_0000u64) as u32;
    let hi = (v / 0x1_0000_0000u64) as u32;
    lemma_mod_bound(v as int, 0x1_0000_0000);
    lemma_div_is_ordered(0, v as int, 0x1_0000_0000);
    lemma_div_is_ordered(v as int, 0xFFFF_FFFF_FFFF_FFFF, 0x1_0000_0000);
    assert(le64(v).subrange(0, 4) =~= le32(lo));
    assert(le64(v).subrange(4, 8) =~= le32(hi));
    lemma_le32_round_trip(lo);
    lemma_le32_round_trip(hi);
    lemma_fundamental_div_mod(v as int, 0x1_0000_0000);
}

/// The first `n` coordinates of one point, encoded.
pub open spec fn coords_bytes(p: Seq<u32>, n: int) -> Seq<u8>
    decreases n,
{
    if n <= 0 {
        Seq::<u8>::empty()
    } else {
        coords_bytes(p, n - 1) + le32(p[n - 1])
    }
}

/// One whole point, encoded.
pub open spec fn point_bytes(p: Seq<u32>) -> Seq<u8> {
    coords_bytes(p, DIMENSIONS as int)
}

/// The first `n` points, encoded one after the other.
pub open spec fn points_bytes(pts: Seq<Seq<u32>>, n: int) -> Seq<u8>
    decreases n,
{
    if n <= 0 {
        Seq::<u8>::empty()
    } else {
        points_bytes(pts, n - 1) + point_bytes(pts[n - 1])
    }
}

/// The complete encoding of an index with query width `ef` and points
/// `pts`: magic tag, width, count, then the points.
pub open spec fn encode_spec(ef: u64, pts: Seq<Seq<u32>>) -> Seq<u8> {
    le32(MAGIC) + le64(ef) + le64(pts.len() as u64) + points_bytes(pts, pts.len() as int)
}

/// One point read back from `b` starting at byte `off`.
pub open spec fn decode_point(b: Seq<u8>, off: int) -> Seq<u32> {
    Seq::new(DIMENSIONS as nat, |j: int| from_le32(b.subrange(off + 4 * j, off + 4 * j + 4)))
}

/// What a byte stream denotes: `None` for every stream that is not exactly
/// the encoding of an index, otherwise the encoded width and points.
pub open spec fn decode_spec(b: Seq<u8>) -> Option<(u64, Seq<Seq<u32>>)> {
    if b.len() < 20 {
        None
    } else {
        let ef = from_le64(b.subrange(4, 12));
        let n = from_le64(b.subrange(12, 20));
        if from_le32(b.subrange(0, 4)) != MAGIC {
            None
        } else if n > u32::MAX as u64 {
            None
        } else if ef > usize::MAX as u64 {
            None
        } else if b.len() != 20 + 1200 * (n as int) {
            None
        } else {
            Some((ef, Seq::new(n as nat, |i: int| decode_point(b, 20 + 1200 * i))))
        }
    }
}

proof fn lemma_coords_bytes_len(p: Seq<u32>, n: int)
    requires
        n >= 0,
    ensures
        coords_bytes(p, n).len() == 4 * n,
    decreases n,
{
    if n > 0 {
        lemma_coords_bytes_len(p, n - 1);
    }
}

proof fn lemma_points_bytes_len(pts: Seq<Seq<u32>>, n: int)
    requires
        n >= 0,
    ensures
        points_bytes(pts, n).len() == 1200 * n,
    decreases n,
{
    if n > 0 {
        lemma_points_bytes_len(pts, n - 1);
        lemma_coords_bytes_len(pts[n - 1], DIMENSIONS as int);
    }
}

proof fn lemma_coords_bytes_index(p: Seq<u32>, n: int, j: int)
    requires
        0 <= j < n,
    ensures
        coords_bytes(p, n).subrange(4 * j, 4 * j + 4) == le32(p[j]),
    decreases n,
{
    lemma_coords_bytes_len(p, n);
    lemma_coords_bytes_len(p, n - 1);
    if j == n - 1 {
        assert(coords_bytes(p, n).subrange(4 * j, 4 * j + 4) =~= le32(p[j]));
    } else {
        lemma_coords_bytes_index(p, n - 1, j);
        assert(coords_bytes(p, n).subrange(4 * j, 4 * j + 4) =~= coords_bytes(p, n - 1).subrange(
            4 * j,
            4 * j + 4,
        ));
    }
}

proof fn lemma_points_bytes_index(pts: Seq<Seq<u32>>, n: int, i: int)
    requires
        0 <= i < n,
    ensures
        points_bytes(pts, n).subrange(1200 * i, 1200 * i + 1200) == point_bytes(pts[i]),
    decreases n,
{
    lemma_points_bytes_len(pts, n);
    lemma_points_bytes_len(pts, n - 1);
    lemma_coords_bytes_len(pts[n - 1], DIMENSIONS as int);
    if i == n - 1 {
        assert(points_bytes(pts, n).subrange(1200 * i, 1200 * i + 1200) =~= point_bytes(pts[i]));
    } else {
        lemma_points_bytes_index(pts, n - 1, i);
        assert(points_bytes(pts, n).subrange(1200 * i, 1200 * i + 1200) =~= points_bytes(
            pts,
            n - 1,
        ).subrange(1200 * i, 1200 * i + 1200));
    }
}

/// Law: decoding inverts encoding — restoring exactly what persisting wrote
/// always succeeds and yields the same width and the same points, bit for
/// bit.
pub proof fn lemma_codec_round_trip(ef: u64, pts: Seq<Seq<u32>>)
    requires
        pts.len() <= u32::MAX,
        ef <= usize::MAX as u64,
        forall|i: int| 0 <= i < pts.len() ==> (#[trigger] pts[i]).len() == DIMENSIONS,
    ensures
        decode_spec(encode_spec(ef, pts)) == Some((ef, pts)),
{
    let b = encode_spec(ef, pts);
    let n = pts.len() as int;
    lemma_points_bytes_len(pts, n);
    assert(b.len() == 20 + 1200 * n);
    assert(b.subrange(0, 4) =~= le32(MAGIC));
    assert(b.subrange(4, 12) =~= le64(ef));
    assert(b.subrange(12, 20) =~= le64(pts.len() as u64));
    lemma_le32_round_trip(MAGIC);
    lemma_le64_round_trip(ef);
    lemma_le64_round_trip(pts.len() as u64);
    assert forall|i: int| 0 <= i < n implies decode_point(b, 20 + 1200 * i) == pts[i] by {
        lemma_points_bytes_index(pts, n, i);
        lemma_coords_bytes_len(pts[i], DIMENSIONS as int);
        assert forall|j: int| 0 <= j < DIMENSIONS implies from_le32(
            b.subrange(20 + 1200 * i + 4 * j, 20 + 1200 * i + 4 * j + 4),
        ) == pts[i][j] by {
            lemma_coords_bytes_index(pts[i], DIMENSIONS as int, j);
            assert forall|k: int| 0 <= k < 4 implies b[20 + 1200 * i + 4 * j + k] == le32(
                pts[i][j],
            )[k] by {
                let pb = points_bytes(pts, n);
                assert(b[20 + 1200 * i + 4 * j + k] == pb[1200 * i + 4 * j + k]);
                assert(pb[1200 * i + 4 * j + k] == pb.subrange(1200 * i, 1200 * i + 1200)[4 * j
                    + k]);
                assert(point_bytes(pts[i])[4 * j + k] == coords_bytes(
                    pts[i],
                    DIMENSIONS as int,
                ).subrange(4 * j, 4 * j + 4)[k]);
            }
            assert(b.subrange(20 + 1200 * i + 4 * j, 20 + 1200 * i + 4 * j + 4) =~= le32(
                pts[i][j],
            ));
            lemma_le32_round_trip(pts[i][j]);
        }
        assert(decode_point(b, 20 + 1200 * i) =~= pts[i]);
    }
    assert(Seq::new(pts.len(), |i: int| decode_point(b, 20 + 1200 * i)) =~= pts);
}

/// Appends the four little-endian bytes of `v`.
pub(crate) fn push_le32(buf: &mut Vec<u8>, v: u32) -> (r: ())
    ensures
        final(buf)@ == old(buf)@ + le32(v),
{
    buf.push((v % 256) as u8);
    buf.push(((v / 256) % 256) as u8);
    buf.push(((v / 256 / 256) % 256) as u8);
    buf.push(((v / 256 / 256 / 256) % 256) as u8);
    proof {
        assert(buf@ =~= old(buf)@ + le32(v));
    }
}

/// Appends the eight little-endian bytes of `v`.
pub(crate) fn push_le64(buf: &mut Vec<u8>, v: u64) -> (r: ())
    ensures
        final(buf)@ == old(buf)@ + le64(v),
{
    let lo = (v % 0x1_0000_0000u64) as u32;
    let hi = (v / 0x1_0000_0000u64) as u32;
    push_le32(buf, lo);
    push_le32(buf, hi);
    proof {
        assert(buf@ =~= old(buf)@ + le64(v));
    }
}

/// Reads the 32-bit value at byte offset `off`.
pub(crate) fn read_le32(buf: &Vec<u8>, off: usize) -> (r: u32)
    requires
        off + 4 <= buf@.len(),
    ensures
        r == from_le32(buf@.subrange(off as int, off as int + 4)),
{
    let n = buf.len();
    let b0 = buf[off] as u32;
    let b1 = buf[off + 1] as u32;
    let b2 = buf[off + 2] as u32;
    let b3 = buf[off + 3] as u32;
    let r = b0 + 256 * (b1 + 256 * (b2 + 256 * b3));
    proof {
        let s = buf@.subrange(off as int, off as int + 4);
        assert(s[0] == buf@[off as int] && s[1] == buf@[off as int + 1] && s[2] == buf@[off as int
            + 2] && s[3] == buf@[off as int + 3]);
    }
    r
}

/// Reads the 64-bit value at byte offset `off`.
pub(crate) fn read_le64(buf: &Vec<u8>, off: usize) -> (r: u64)
    requires
        off + 8 <= buf@.len(),
    ensures
        r == from_le64(buf@.subrange(off as int, off as int + 8)),
{
    let n = buf.len();
    let lo = read_le32(buf, off);
    let hi = read_le32(buf, off + 4);
    let r = (lo as u64) + 0x1_0000_0000u64 * (hi as u64);
    proof {
        let s = buf@.subrange(off as int, off as int + 8);
        assert(s.subrange(0, 4) =~= buf@.subrange(off as int, off as int + 4));
        assert(s.subrange(4, 8) =~= buf@.subrange(off as int + 4, off as int + 8));
    }
    r
}

} // verus!

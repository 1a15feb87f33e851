//! Fixed-dimension points and their squared-Euclidean distance metric.
//!
//! Every coordinate is a 32-bit IEEE 754 float carried by its bit pattern
//! (`u32`), so that all of the surrounding logic is over plain values. The
//! three rounding operations the metric needs are delegated to a software
//! implementation of IEEE binary32 arithmetic.

use vstd::prelude::*;

use rustc_apfloat::ieee::Single;
use rustc_apfloat::Float;

use crate::Error;
use crate::DIMENSIONS;

verus! {

/// Bit pattern of the IEEE binary32 sum of the floats with bit patterns
/// `a` and `b`, rounded to nearest, ties to even.
pub uninterp spec fn f32_add_bits(a: u32, b: u32) -> u32;

/// Bit pattern of the IEEE binary32 difference of the floats with bit
/// patterns `a` and `b`, rounded to nearest, ties to even.
pub uninterp spec fn f32_sub_bits(a: u32, b: u32) -> u32;

/// Bit pattern of the IEEE binary32 product of the floats with bit patterns
/// `a` and `b`, rounded to nearest, ties to even.
pub uninterp spec fn f32_mul_bits(a: u32, b: u32) -> u32;

/// True when `x` is the bit pattern of a finite float: the exponent field is
/// not all ones (which would mean an infinity or a NaN).
pub open spec fn is_finite_bits(x: u32) -> bool {
    x & 0x7F80_0000u32 != 0x7F80_0000u32
}

/// True when every entry of `s` is the bit pattern of a finite float.
pub open spec fn all_finite(s: Seq<u32>) -> bool {
    forall|i: int| 0 <= i < s.len() ==> is_finite_bits(#[trigger] s[i])
}

/// Relies on `rustc_apfloat::ieee::Single` and its `core::ops::Add` impl:
/// IEEE 754 binary32 addition, rounded to nearest with ties to even. The
/// result's bits are a function of the operand bits alone, and the sum of two
/// positive zeros is positive zero.
#[verifier::external_body]
pub(crate) fn f32_add(a: u32, b: u32) -> (r: u32)
    ensures
        r == f32_add_bits(a, b),
        a == 0u32 && b == 0u32 ==> r == 0u32,
{
    (Single::from_bits(a as u128) + Single::from_bits(b as u128)).value.to_bits() as u32
}

/// Relies on `rustc_apfloat::ieee::Single` and its `core::ops::Sub` impl:
/// IEEE 754 binary32 subtraction, rounded to nearest with ties to even. The
/// result's bits are a function of the operand bits alone, and subtracting a
/// finite float from itself gives exactly positive zero (round-to-nearest
/// never produces negative zero from an exact zero difference).
#[verifier::external_body]
pub(crate) fn f32_sub(a: u32, b: u32) -> (r: u32)
    ensures
        r == f32_sub_bits(a, b),
        a == b && is_finite_bits(a) ==> r == 0u32,
{
    (Single::from_bits(a as u128) - Single::from_bits(b as u128)).value.to_bits() as u32
}

/// Relies on `rustc_apfloat::ieee::Single` and its `core::ops::Mul` impl:
/// IEEE 754 binary32 multiplication, rounded to nearest with ties to even.
/// The result's bits are a function of the operand bits alone, and the
/// product of two positive zeros is positive zero.
#[verifier::external_body]
pub(crate) fn f32_mul(a: u32, b: u32) -> (r: u32)
    ensures
        r == f32_mul_bits(a, b),
        a == 0u32 && b == 0u32 ==> r == 0u32,
{
    (Single::from_bits(a as u128) * Single::from_bits(b as u128)).value.to_bits() as u32
}

/// The coordinates `v`, padded with zero bits up to `DIMENSIONS` entries.
pub open spec fn zero_padded(v: Seq<u32>) -> Seq<u32> {
    Seq::new(DIMENSIONS as nat, |i: int| if i < v.len() { v[i] } else { 0u32 })
}

/// Squared difference of one coordinate pair, with the sign bit cleared.
///
/// The operands are fed to the subtraction in a fixed order (smaller bit
/// pattern first), which leaves every numeric result unchanged — IEEE
/// rounding is symmetric under negation, and squaring discards the sign —
/// and makes the symmetry of the whole metric a theorem rather than an
/// assumption. Clearing the sign bit is likewise a no-op for every numeric
/// square; it only canonicalizes the sign of a NaN.
pub open spec fn elem_sq(a: u32, b: u32) -> u32 {
    let lo = if a <= b {
        a
    } else {
        b
    };
    let hi = if a <= b {
        b
    } else {
        a
    };
    f32_mul_bits(f32_sub_bits(lo, hi), f32_sub_bits(lo, hi)) & 0x7FFF_FFFFu32
}

/// Running sum of the first `n` squared coordinate differences, accumulated
/// left to right in IEEE binary32 arithmetic, each partial sum with its sign
/// bit cleared.
pub open spec fn dist_acc(a: Seq<u32>, b: Seq<u32>, n: int) -> u32
    decreases n,
{
    if n <= 0 {
        0u32
    } else {
        f32_add_bits(dist_acc(a, b, n - 1), elem_sq(a[n - 1], b[n - 1])) & 0x7FFF_FFFFu32
    }
}

/// Bit pattern of the squared-Euclidean distance between two points given by
/// their coordinate bit patterns.
pub open spec fn distance_spec(a: Seq<u32>, b: Seq<u32>) -> u32 {
    dist_acc(a, b, DIMENSIONS as int)
}

/// A fixed-length vector of exactly `DIMENSIONS` 32-bit floats, each carried
/// by its bit pattern. Immutable once constructed.
#[derive(Debug)]
pub struct Point {
    coords: Vec<u32>,
}

impl View for Point {
    type V = Seq<u32>;

    closed spec fn view(&self) -> Seq<u32> {
        self.coords@
    }
}

impl Point {
    /// A point always holds exactly `DIMENSIONS` coordinates.
    pub open spec fn wf(&self) -> bool {
        self@.len() == DIMENSIONS
    }

    /// Builds a point from raw coordinate bits. More than `DIMENSIONS`
    /// values is a shape error and produces no point; fewer values succeed,
    /// with the trailing coordinates implicitly zero.
    pub fn try_from(values: &Vec<u32>) -> (r: Result<Point, Error>)
        ensures
            match r {
                Ok(p) => values@.len() <= DIMENSIONS && p.wf() && p@ == zero_padded(values@),
                Err(e) => values@.len() > DIMENSIONS && e == Error::PointTooLong,
            },
    {
        if values.len() > DIMENSIONS {
            return Err(Error::PointTooLong);
        }
        let mut coords: Vec<u32> = Vec::new();
        let mut i: usize = 0;
        while i < values.len()
            invariant
                i <= values@.len(),
                values@.len() <= DIMENSIONS,
                coords@ == values@.take(i as int),
            decreases values@.len() - i,
        {
            coords.push(values[i]);
            proof {
                assert(values@.take(i + 1) =~= values@.take(i as int).push(values@[i as int]));
            }
            i += 1;
        }
        proof {
            assert(coords@ =~= values@);
        }
        while coords.len() < DIMENSIONS
            invariant
                values@.len() <= coords@.len() <= DIMENSIONS,
                coords@.take(values@.len() as int) == values@,
                forall|j: int| values@.len() <= j < coords@.len() ==> coords@[j] == 0u32,
            decreases DIMENSIONS - coords@.len(),
        {
            coords.push(0u32);
            proof {
                assert(coords@.take(values@.len() as int) =~= values@);
            }
        }
        let p = Point { coords };
        proof {
            assert(p@ =~= zero_padded(values@));
        }
        Ok(p)
    }

    /// The coordinate bits at position `i`.
    pub fn coord(&self, i: usize) -> (r: u32)
        requires
            i < self@.len(),
        ensures
            r == self@[i as int],
    {
        self.coords[i]
    }

    /// Wraps coordinates that already have the full fixed length.
    pub(crate) fn from_exact(coords: Vec<u32>) -> (r: Point)
        requires
            coords@.len() == DIMENSIONS,
        ensures
            r.wf(),
            r@ == coords@,
    {
        Point { coords }
    }

    /// Squared-Euclidean distance between `self` and `rhs`, as the bit
    /// pattern of a 32-bit float: the coordinatewise squared differences,
    /// summed left to right in IEEE binary32 arithmetic.
    ///
    /// The result's sign bit is always clear, so whenever it is not a NaN it
    /// is a non-negative float. A point at distance zero from itself is
    /// guaranteed for points whose coordinates are all finite.
    pub fn distance(&self, rhs: &Point) -> (r: u32)
        requires
            self.wf(),
            rhs.wf(),
        ensures
            r == distance_spec(self@, rhs@),
            r < 0x8000_0000u32,
            self@ == rhs@ && all_finite(self@) ==> r == 0u32,
    {
        let mut acc: u32 = 0;
        let mut i: usize = 0;
        while i < DIMENSIONS
            invariant
                self.wf(),
                rhs.wf(),
                i <= DIMENSIONS,
                acc == dist_acc(self@, rhs@, i as int),
                acc < 0x8000_0000u32,
                self@ == rhs@ && all_finite(self@) ==> acc == 0u32,
            decreases DIMENSIONS - i,
        {
            let xa = self.coords[i];
            let xb = rhs.coords[i];
            let lo: u32 = if xa <= xb {
                xa
            } else {
                xb
            };
            let hi: u32 = if xa <= xb {
                xb
            } else {
                xa
            };
            let d = f32_sub(lo, hi);
            let m = f32_mul(d, d);
            let sq = m & 0x7FFF_FFFFu32;
            let sum = f32_add(acc, sq);
            let masked = sum & 0x7FFF_FFFFu32;
            proof {
                assert(sq == elem_sq(self@[i as int], rhs@[i as int]));
                assert(masked == dist_acc(self@, rhs@, i + 1));
                assert(masked < 0x8000_0000u32) by (bit_vector)
                    requires
                        masked == sum & 0x7FFF_FFFFu32,
                ;
                if self@ == rhs@ && all_finite(self@) {
                    assert(is_finite_bits(self@[i as int]));
                    assert(0u32 & 0x7FFF_FFFFu32 == 0u32) by (bit_vector);
                    assert(masked == 0u32);
                }
            }
            acc = masked;
            i += 1;
        }
        acc
    }
}

/// Law: the distance metric is symmetric — swapping the two points never
/// changes the resulting bit pattern.
pub proof fn lemma_distance_symmetric(a: Seq<u32>, b: Seq<u32>)
    ensures
        distance_spec(a, b) == distance_spec(b, a),
{
    lemma_dist_acc_symmetric(a, b, DIMENSIONS as int);
}

proof fn lemma_dist_acc_symmetric(a: Seq<u32>, b: Seq<u32>, n: int)
    ensures
        dist_acc(a, b, n) == dist_acc(b, a, n),
    decreases n,
{
    if n > 0 {
        lemma_dist_acc_symmetric(a, b, n - 1);
        assert(elem_sq(a[n - 1], b[n - 1]) == elem_sq(b[n - 1], a[n - 1]));
    }
}

/// Law: the distance metric never reports a negative value — the sign bit of
/// the resulting float is always clear, so any non-NaN result compares
/// greater than or equal to positive zero.
pub proof fn lemma_distance_sign_clear(a: Seq<u32>, b: Seq<u32>)
    ensures
        distance_spec(a, b) < 0x8000_0000u32,
{
    lemma_dist_acc_sign_clear(a, b, DIMENSIONS as int);
}

proof fn lemma_dist_acc_sign_clear(a: Seq<u32>, b: Seq<u32>, n: int)
    ensures
        dist_acc(a, b, n) < 0x8000_0000u32,
    decreases n,
{
    if n > 0 {
        lemma_dist_acc_sign_clear(a, b, n - 1);
        let s = f32_add_bits(dist_acc(a, b, n - 1), elem_sq(a[n - 1], b[n - 1]));
        assert(s & 0x7FFF_FFFFu32 < 0x8000_0000u32) by (bit_vector);
    }
}

} // verus!

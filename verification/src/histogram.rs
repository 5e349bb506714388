//! Histograms: the arithmetic that bins their keys, and the layout of their frame.
use crate::abbreviate;
use crate::bins::{above, below, in_bin, Bound, Bounds};
use crate::config::HistogramConfig;
use crate::frame::{self, Aggregated, Shown};
use crate::path::path_columns;
use crate::render::{Alignment, Column, Columns, Render, Row, Value};
use std::ops::{Add, Sub};
use vstd::prelude::*;
use vstd::std_specs::cmp::PartialOrdSpec;

verus! {

/// `v` limited to `lo..=hi`.
pub open spec fn clamp(v: int, lo: int, hi: int) -> int {
    if v < lo {
        lo
    } else if v > hi {
        hi
    } else {
        v
    }
}

/// `x / d` rounded up (for `d > 0`).
pub open spec fn ceil_div(x: int, d: int) -> int {
    if x % d == 0 {
        x / d
    } else {
        x / d + 1
    }
}

/// The result of dividing by zero: the greatest value for a positive dividend, the least for a
/// negative one, and zero for zero.
pub open spec fn divided_by_zero(x: int, lo: int, hi: int) -> int {
    if x > 0 {
        hi
    } else if x < 0 {
        lo
    } else {
        0
    }
}

/// Rounding up the quotient of a non-negative dividend, and of a negative one.
pub proof fn lemma_ceil_div(x: int, d: int)
    requires
        d > 0,
    ensures
        x >= 0 ==> ceil_div(x, d) == (x + d - 1) / d,
        x < 0 ==> ceil_div(x, d) == -((-x) / d),
{
    let q = x / d;
    let m = x % d;
    assert(x == q * d + m && 0 <= m < d) by (nonlinear_arith)
        requires
            d > 0,
            q == x / d,
            m == x % d,
    ;
    if x >= 0 {
        let q2 = (x + d - 1) / d;
        let m2 = (x + d - 1) % d;
        assert(x + d - 1 == q2 * d + m2 && 0 <= m2 < d) by (nonlinear_arith)
            requires
                d > 0,
                q2 == (x + d - 1) / d,
                m2 == (x + d - 1) % d,
        ;
        assert(ceil_div(x, d) == q2) by (nonlinear_arith)
            requires
                d > 0,
                x == q * d + m,
                0 <= m < d,
                x + d - 1 == q2 * d + m2,
                0 <= m2 < d,
                ceil_div(x, d) == if m == 0 {
                    q
                } else {
                    q + 1
                },
        ;
    } else {
        let q3 = (-x) / d;
        let m3 = (-x) % d;
        assert(-x == q3 * d + m3 && 0 <= m3 < d) by (nonlinear_arith)
            requires
                d > 0,
                q3 == (-x) / d,
                m3 == (-x) % d,
        ;
        assert(ceil_div(x, d) == -q3) by (nonlinear_arith)
            requires
                d > 0,
                x == q * d + m,
                0 <= m < d,
                -x == q3 * d + m3,
                0 <= m3 < d,
                ceil_div(x, d) == if m == 0 {
                    q
                } else {
                    q + 1
                },
        ;
    }
}

/// Allows a type to be used as the *primary* dimension of a histogram.
/// Consumers may implement this to bin non-standard types in a histogram.
pub trait Binnable: PartialEq + PartialOrd + Add + Sub + Sized {
    /// Multiply this value by `rhs`; whole types round the result up (and saturate).
    fn multiply(&self, rhs: usize) -> Self;

    /// Divide this value by `rhs`; whole types round the result up (and saturate).
    fn divide(&self, rhs: usize) -> Self;
}

impl Binnable for isize {
    /// The product, saturated to the range of `isize`.
    fn multiply(&self, rhs: usize) -> (r: isize)
        ensures
            r == clamp(*self * rhs, isize::MIN as int, isize::MAX as int),
    {
        proof {
            assert((*self as i128) * (rhs as i128) <= i64::MAX as i128 * u64::MAX as i128
                && (*self as i128) * (rhs as i128) >= i64::MIN as i128 * u64::MAX as i128) by (nonlinear_arith)
                requires
                    i64::MIN <= *self <= i64::MAX,
                    rhs <= u64::MAX,
            ;
        }
        let product = (*self as i128) * (rhs as i128);
        if product > isize::MAX as i128 {
            isize::MAX
        } else if product < isize::MIN as i128 {
            isize::MIN
        } else {
            product as isize
        }
    }

    /// The quotient rounded up; dividing by zero gives the greatest value for a positive
    /// dividend, the least for a negative one, and zero for zero.
    fn divide(&self, rhs: usize) -> (r: isize)
        ensures
            rhs == 0 ==> r == divided_by_zero(*self as int, isize::MIN as int, isize::MAX as int),
            rhs > 0 ==> r == ceil_div(*self as int, rhs as int),
    {
        if rhs == 0 {
            if *self > 0 {
                isize::MAX
            } else if *self < 0 {
                isize::MIN
            } else {
                0
            }
        } else if *self >= 0 {
            let x = *self as u128;
            let d = rhs as u128;
            proof {
                lemma_ceil_div(*self as int, rhs as int);
                assert(((x + d - 1) as int) / (d as int) <= x as int) by (nonlinear_arith)
                    requires
                        d >= 1,
                ;
            }
            ((x + d - 1) / d) as isize
        } else {
            let x = (-(*self as i128)) as u128;
            let d = rhs as u128;
            proof {
                lemma_ceil_div(*self as int, rhs as int);
                assert((x as int) / (d as int) <= x as int) by (nonlinear_arith)
                    requires
                        d >= 1,
                ;
            }
            (-((x / d) as i128)) as isize
        }
    }
}

impl Binnable for i64 {
    /// The product, saturated to the range of `i64`.
    fn multiply(&self, rhs: usize) -> (r: i64)
        ensures
            r == clamp(*self * rhs, i64::MIN as int, i64::MAX as int),
    {
        proof {
            assert((*self as i128) * (rhs as i128) <= i64::MAX as i128 * u64::MAX as i128
                && (*self as i128) * (rhs as i128) >= i64::MIN as i128 * u64::MAX as i128) by (nonlinear_arith)
                requires
                    i64::MIN <= *self <= i64::MAX,
                    rhs <= u64::MAX,
            ;
        }
        let product = (*self as i128) * (rhs as i128);
        if product > i64::MAX as i128 {
            i64::MAX
        } else if product < i64::MIN as i128 {
            i64::MIN
        } else {
            product as i64
        }
    }

    /// The quotient rounded up; dividing by zero gives the greatest value for a positive
    /// dividend, the least for a negative one, and zero for zero.
    fn divide(&self, rhs: usize) -> (r: i64)
        ensures
            rhs == 0 ==> r == divided_by_zero(*self as int, i64::MIN as int, i64::MAX as int),
            rhs > 0 ==> r == ceil_div(*self as int, rhs as int),
    {
        if rhs == 0 {
            if *self > 0 {
                i64::MAX
            } else if *self < 0 {
                i64::MIN
            } else {
                0
            }
        } else if *self >= 0 {
            let x = *self as u128;
            let d = rhs as u128;
            proof {
                lemma_ceil_div(*self as int, rhs as int);
                assert(((x + d - 1) as int) / (d as int) <= x as int) by (nonlinear_arith)
                    requires
                        d >= 1,
                ;
            }
            ((x + d - 1) / d) as i64
        } else {
            let x = (-(*self as i128)) as u128;
            let d = rhs as u128;
            proof {
                lemma_ceil_div(*self as int, rhs as int);
                assert((x as int) / (d as int) <= x as int) by (nonlinear_arith)
                    requires
                        d >= 1,
                ;
            }
            (-((x / d) as i128)) as i64
        }
    }
}

impl Binnable for i32 {
    /// The product, saturated to the range of `i32`.
    fn multiply(&self, rhs: usize) -> (r: i32)
        ensures
            r == clamp(*self * rhs, i32::MIN as int, i32::MAX as int),
    {
        proof {
            assert((*self as i128) * (rhs as i128) <= i64::MAX as i128 * u64::MAX as i128
                && (*self as i128) * (rhs as i128) >= i64::MIN as i128 * u64::MAX as i128) by (nonlinear_arith)
                requires
                    i64::MIN <= *self <= i64::MAX,
                    rhs <= u64::MAX,
            ;
        }
        let product = (*self as i128) * (rhs as i128);
        if product > i32::MAX as i128 {
            i32::MAX
        } else if product < i32::MIN as i128 {
            i32::MIN
        } else {
            product as i32
        }
    }

    /// The quotient rounded up; dividing by zero gives the greatest value for a positive
    /// dividend, the least for a negative one, and zero for zero.
    fn divide(&self, rhs: usize) -> (r: i32)
        ensures
            rhs == 0 ==> r == divided_by_zero(*self as int, i32::MIN as int, i32::MAX as int),
            rhs > 0 ==> r == ceil_div(*self as int, rhs as int),
    {
        if rhs == 0 {
            if *self > 0 {
                i32::MAX
            } else if *self < 0 {
                i32::MIN
            } else {
                0
            }
        } else if *self >= 0 {
            let x = *self as u128;
            let d = rhs as u128;
            proof {
                lemma_ceil_div(*self as int, rhs as int);
                assert(((x + d - 1) as int) / (d as int) <= x as int) by (nonlinear_arith)
                    requires
                        d >= 1,
                ;
            }
            ((x + d - 1) / d) as i32
        } else {
            let x = (-(*self as i128)) as u128;
            let d = rhs as u128;
            proof {
                lemma_ceil_div(*self as int, rhs as int);
                assert((x as int) / (d as int) <= x as int) by (nonlinear_arith)
                    requires
                        d >= 1,
                ;
            }
            (-((x / d) as i128)) as i32
        }
    }
}

impl Binnable for i16 {
    /// The product, saturated to the range of `i16`.
    fn multiply(&self, rhs: usize) -> (r: i16)
        ensures
            r == clamp(*self * rhs, i16::MIN as int, i16::MAX as int),
    {
        proof {
            assert((*self as i128) * (rhs as i128) <= i64::MAX as i128 * u64::MAX as i128
                && (*self as i128) * (rhs as i128) >= i64::MIN as i128 * u64::MAX as i128) by (nonlinear_arith)
                requires
                    i64::MIN <= *self <= i64::MAX,
                    rhs <= u64::MAX,
            ;
        }
        let product = (*self as i128) * (rhs as i128);
        if product > i16::MAX as i128 {
            i16::MAX
        } else if product < i16::MIN as i128 {
            i16::MIN
        } else {
            product as i16
        }
    }

    /// The quotient rounded up; dividing by zero gives the greatest value for a positive
    /// dividend, the least for a negative one, and zero for zero.
    fn divide(&self, rhs: usize) -> (r: i16)
        ensures
            rhs == 0 ==> r == divided_by_zero(*self as int, i16::MIN as int, i16::MAX as int),
            rhs > 0 ==> r == ceil_div(*self as int, rhs as int),
    {
        if rhs == 0 {
            if *self > 0 {
                i16::MAX
            } else if *self < 0 {
                i16::MIN
            } else {
                0
            }
        } else if *self >= 0 {
            let x = *self as u128;
            let d = rhs as u128;
            proof {
                lemma_ceil_div(*self as int, rhs as int);
                assert(((x + d - 1) as int) / (d as int) <= x as int) by (nonlinear_arith)
                    requires
                        d >= 1,
                ;
            }
            ((x + d - 1) / d) as i16
        } else {
            let x = (-(*self as i128)) as u128;
            let d = rhs as u128;
            proof {
                lemma_ceil_div(*self as int, rhs as int);
                assert((x as int) / (d as int) <= x as int) by (nonlinear_arith)
                    requires
                        d >= 1,
                ;
            }
            (-((x / d) as i128)) as i16
        }
    }
}

impl Binnable for i8 {
    /// The product, saturated to the range of `i8`.
    fn multiply(&self, rhs: usize) -> (r: i8)
        ensures
            r == clamp(*self * rhs, i8::MIN as int, i8::MAX as int),
    {
        proof {
            assert((*self as i128) * (rhs as i128) <= i64::MAX as i128 * u64::MAX as i128
                && (*self as i128) * (rhs as i128) >= i64::MIN as i128 * u64::MAX as i128) by (nonlinear_arith)
                requires
                    i64::MIN <= *self <= i64::MAX,
                    rhs <= u64::MAX,
            ;
        }
        let product = (*self as i128) * (rhs as i128);
        if product > i8::MAX as i128 {
            i8::MAX
        } else if product < i8::MIN as i128 {
            i8::MIN
        } else {
            product as i8
        }
    }

    /// The quotient rounded up; dividing by zero gives the greatest value for a positive
    /// dividend, the least for a negative one, and zero for zero.
    fn divide(&self, rhs: usize) -> (r: i8)
        ensures
            rhs == 0 ==> r == divided_by_zero(*self as int, i8::MIN as int, i8::MAX as int),
            rhs > 0 ==> r == ceil_div(*self as int, rhs as int),
    {
        if rhs == 0 {
            if *self > 0 {
                i8::MAX
            } else if *self < 0 {
                i8::MIN
            } else {
                0
            }
        } else if *self >= 0 {
            let x = *self as u128;
            let d = rhs as u128;
            proof {
                lemma_ceil_div(*self as int, rhs as int);
                assert(((x + d - 1) as int) / (d as int) <= x as int) by (nonlinear_arith)
                    requires
                        d >= 1,
                ;
            }
            ((x + d - 1) / d) as i8
        } else {
            let x = (-(*self as i128)) as u128;
            let d = rhs as u128;
            proof {
                lemma_ceil_div(*self as int, rhs as int);
                assert((x as int) / (d as int) <= x as int) by (nonlinear_arith)
                    requires
                        d >= 1,
                ;
            }
            (-((x / d) as i128)) as i8
        }
    }
}

impl Binnable for usize {
    /// The product, saturated to the range of `usize`.
    fn multiply(&self, rhs: usize) -> (r: usize)
        ensures
            r == clamp(*self * rhs, usize::MIN as int, usize::MAX as int),
    {
        proof {
        assert((*self as u128) * (rhs as u128) <= u64::MAX as u128 * u64::MAX as u128) by (nonlinear_arith)
            requires
                *self <= u64::MAX,
                rhs <= u64::MAX,
        ;
        }
        let product = (*self as u128) * (rhs as u128);
        if product > usize::MAX as u128 {
            usize::MAX
        } else {
            product as usize
        }
    }

    /// The quotient rounded up; dividing by zero gives the greatest value for a positive
    /// dividend, the least for a negative one, and zero for zero.
    fn divide(&self, rhs: usize) -> (r: usize)
        ensures
            rhs == 0 ==> r == divided_by_zero(*self as int, usize::MIN as int, usize::MAX as int),
            rhs > 0 ==> r == ceil_div(*self as int, rhs as int),
    {
        if rhs == 0 {
            if *self > 0 {
                usize::MAX
            } else {
                0
            }
        } else {
            let x = *self as u128;
            let d = rhs as u128;
            proof {
                lemma_ceil_div(*self as int, rhs as int);
                assert(((x + d - 1) as int) / (d as int) <= x as int) by (nonlinear_arith)
                    requires
                        d >= 1,
                ;
            }
            ((x + d - 1) / d) as usize
        }
    }
}

impl Binnable for u64 {
    /// The product, saturated to the range of `u64`.
    fn multiply(&self, rhs: usize) -> (r: u64)
        ensures
            r == clamp(*self * rhs, u64::MIN as int, u64::MAX as int),
    {
        proof {
        assert((*self as u128) * (rhs as u128) <= u64::MAX as u128 * u64::MAX as u128) by (nonlinear_arith)
            requires
                *self <= u64::MAX,
                rhs <= u64::MAX,
        ;
        }
        let product = (*self as u128) * (rhs as u128);
        if product > u64::MAX as u128 {
            u64::MAX
        } else {
            product as u64
        }
    }

    /// The quotient rounded up; dividing by zero gives the greatest value for a positive
    /// dividend, the least for a negative one, and zero for zero.
    fn divide(&self, rhs: usize) -> (r: u64)
        ensures
            rhs == 0 ==> r == divided_by_zero(*self as int, u64::MIN as int, u64::MAX as int),
            rhs > 0 ==> r == ceil_div(*self as int, rhs as int),
    {
        if rhs == 0 {
            if *self > 0 {
                u64::MAX
            } else {
                0
            }
        } else {
            let x = *self as u128;
            let d = rhs as u128;
            proof {
                lemma_ceil_div(*self as int, rhs as int);
                assert(((x + d - 1) as int) / (d as int) <= x as int) by (nonlinear_arith)
                    requires
                        d >= 1,
                ;
            }
            ((x + d - 1) / d) as u64
        }
    }
}

impl Binnable for u32 {
    /// The product, saturated to the range of `u32`.
    fn multiply(&self, rhs: usize) -> (r: u32)
        ensures
            r == clamp(*self * rhs, u32::MIN as int, u32::MAX as int),
    {
        proof {
        assert((*self as u128) * (rhs as u128) <= u64::MAX as u128 * u64::MAX as u128) by (nonlinear_arith)
            requires
                *self <= u64::MAX,
                rhs <= u64::MAX,
        ;
        }
        let product = (*self as u128) * (rhs as u128);
        if product > u32::MAX as u128 {
            u32::MAX
        } else {
            product as u32
        }
    }

    /// The quotient rounded up; dividing by zero gives the greatest value for a positive
    /// dividend, the least for a negative one, and zero for zero.
    fn divide(&self, rhs: usize) -> (r: u32)
        ensures
            rhs == 0 ==> r == divided_by_zero(*self as int, u32::MIN as int, u32::MAX as int),
            rhs > 0 ==> r == ceil_div(*self as int, rhs as int),
    {
        if rhs == 0 {
            if *self > 0 {
                u32::MAX
            } else {
                0
            }
        } else {
            let x = *self as u128;
            let d = rhs as u128;
            proof {
                lemma_ceil_div(*self as int, rhs as int);
                assert(((x + d - 1) as int) / (d as int) <= x as int) by (nonlinear_arith)
                    requires
                        d >= 1,
                ;
            }
            ((x + d - 1) / d) as u32
        }
    }
}

impl Binnable for u16 {
    /// The product, saturated to the range of `u16`.
    fn multiply(&self, rhs: usize) -> (r: u16)
        ensures
            r == clamp(*self * rhs, u16::MIN as int, u16::MAX as int),
    {
        proof {
        assert((*self as u128) * (rhs as u128) <= u64::MAX as u128 * u64::MAX as u128) by (nonlinear_arith)
            requires
                *self <= u64::MAX,
                rhs <= u64::MAX,
        ;
        }
        let product = (*self as u128) * (rhs as u128);
        if product > u16::MAX as u128 {
            u16::MAX
        } else {
            product as u16
        }
    }

    /// The quotient rounded up; dividing by zero gives the greatest value for a positive
    /// dividend, the least for a negative one, and zero for zero.
    fn divide(&self, rhs: usize) -> (r: u16)
        ensures
            rhs == 0 ==> r == divided_by_zero(*self as int, u16::MIN as int, u16::MAX as int),
            rhs > 0 ==> r == ceil_div(*self as int, rhs as int),
    {
        if rhs == 0 {
            if *self > 0 {
                u16::MAX
            } else {
                0
            }
        } else {
            let x = *self as u128;
            let d = rhs as u128;
            proof {
                lemma_ceil_div(*self as int, rhs as int);
                assert(((x + d - 1) as int) / (d as int) <= x as int) by (nonlinear_arith)
                    requires
                        d >= 1,
                ;
            }
            ((x + d - 1) / d) as u16
        }
    }
}

impl Binnable for u8 {
    /// The product, saturated to the range of `u8`.
    fn multiply(&self, rhs: usize) -> (r: u8)
        ensures
            r == clamp(*self * rhs, u8::MIN as int, u8::MAX as int),
    {
        proof {
        assert((*self as u128) * (rhs as u128) <= u64::MAX as u128 * u64::MAX as u128) by (nonlinear_arith)
            requires
                *self <= u64::MAX,
                rhs <= u64::MAX,
        ;
        }
        let product = (*self as u128) * (rhs as u128);
        if product > u8::MAX as u128 {
            u8::MAX
        } else {
            product as u8
        }
    }

    /// The quotient rounded up; dividing by zero gives the greatest value for a positive
    /// dividend, the least for a negative one, and zero for zero.
    fn divide(&self, rhs: usize) -> (r: u8)
        ensures
            rhs == 0 ==> r == divided_by_zero(*self as int, u8::MIN as int, u8::MAX as int),
            rhs > 0 ==> r == ceil_div(*self as int, rhs as int),
    {
        if rhs == 0 {
            if *self > 0 {
                u8::MAX
            } else {
                0
            }
        } else {
            let x = *self as u128;
            let d = rhs as u128;
            proof {
                lemma_ceil_div(*self as int, rhs as int);
                assert(((x + d - 1) as int) / (d as int) <= x as int) by (nonlinear_arith)
                    requires
                        d >= 1,
                ;
            }
            ((x + d - 1) / d) as u8
        }
    }
}

/// A key type of integers: a histogram over it splits its keys into bins of equal width.
pub trait BinKey: Binnable + Copy {
    /// The integer that the value stands for.
    spec fn key(self) -> int;

    /// The least key of the type.
    spec fn least() -> int;

    /// The greatest key of the type.
    spec fn greatest() -> int;

    /// The keys of the type span zero, and fit the arithmetic of the bins.
    proof fn lemma_bounds()
        ensures
            i64::MIN <= Self::least() <= 0 < Self::greatest() <= u64::MAX,
    ;

    /// Every value's key lies between the least and the greatest.
    proof fn lemma_key(x: Self)
        ensures
            Self::least() <= x.key() <= Self::greatest(),
    ;

    /// The type's comparison orders its values as their keys.
    proof fn lemma_order(a: Self, b: Self)
        ensures
            Self::obeys_partial_cmp_spec(),
            below(a, b, true) <==> a.key() <= b.key(),
            below(a, b, false) <==> a.key() < b.key(),
            above(a, b, true) <==> a.key() >= b.key(),
            above(a, b, false) <==> a.key() > b.key(),
    ;

    /// The value whose key is `k`.
    fn from_key(k: i128) -> (r: Self)
        requires
            Self::least() <= k <= Self::greatest(),
        ensures
            r.key() == k,
    ;

    /// The key of this value.
    fn to_key(&self) -> (r: i128)
        ensures
            r == self.key(),
    ;

    /// The greatest key of the type.
    fn greatest_key() -> (r: i128)
        ensures
            r == Self::greatest(),
    ;
}

/// The width of each of `count` equal bins spanning `min..=max`: the span divided by the
/// count, rounded up (as [`Binnable::divide`] rounds it).
pub open spec fn bin_width(min: int, max: int, count: int) -> int {
    ceil_div(max - min, count)
}

/// `width * i`, saturated at `greatest` (as [`Binnable::multiply`] saturates it).
pub open spec fn saturated_product(width: int, i: int, greatest: int) -> int {
    if width * i > greatest {
        greatest
    } else {
        width * i
    }
}

/// The `i`-th edge of `count` bins spanning `min..=max` in a type whose greatest key is
/// `greatest`: `min` plus `i` widths.
pub open spec fn bin_edge(min: int, max: int, count: int, greatest: int, i: int) -> int {
    min + saturated_product(bin_width(min, max, count), i, greatest)
}

/// The bins can be built in a type whose greatest key is `greatest`: neither the span nor the
/// last edge exceeds it.
pub open spec fn bins_fit(min: int, max: int, count: int, greatest: int) -> bool {
    max - min <= greatest && bin_edge(min, max, count, greatest, count) <= greatest
}

/// The key of a bound.
pub open spec fn bound_key<T: BinKey>(b: Bound<T>) -> int {
    match b {
        Bound::Exclusive(v) => v.key(),
        Bound::Inclusive(v) => v.key(),
    }
}

/// `b` runs from `lower` (included) to `upper`, which it includes when it is the `last` bin.
pub open spec fn is_bin<T: BinKey>(b: Bounds<T>, lower: int, upper: int, last: bool) -> bool {
    &&& b.lower is Inclusive
    &&& bound_key(b.lower) == lower
    &&& if last {
        b.upper is Inclusive
    } else {
        b.upper is Exclusive
    }
    &&& bound_key(b.upper) == upper
}

/// The bins of the keys from `min` to `max`: where these are equal, one bin that holds `min`
/// alone; else `count` bins of equal width from `min`.
pub open spec fn equal_bins<T: BinKey>(bins: Seq<Bounds<T>>, min: int, max: int, count: int) -> bool {
    if min == max {
        bins.len() == 1 && is_bin(bins[0], min, min, true)
    } else {
        &&& bins.len() == count
        &&& forall|i: int|
            0 <= i < count ==> is_bin(
                #[trigger] bins[i],
                bin_edge(min, max, count, T::greatest(), i),
                bin_edge(min, max, count, T::greatest(), i + 1),
                i + 1 == count,
            )
    }
}

/// The least key among `keys` (which are not empty).
pub open spec fn least_key<T: BinKey>(keys: Seq<T>) -> int
    decreases keys.len(),
{
    if keys.len() <= 1 {
        keys[0].key()
    } else {
        let m = least_key(keys.drop_last());
        if keys.last().key() < m {
            keys.last().key()
        } else {
            m
        }
    }
}

/// The greatest key among `keys` (which are not empty).
pub open spec fn greatest_key<T: BinKey>(keys: Seq<T>) -> int
    decreases keys.len(),
{
    if keys.len() <= 1 {
        keys[0].key()
    } else {
        let m = greatest_key(keys.drop_last());
        if keys.last().key() > m {
            keys.last().key()
        } else {
            m
        }
    }
}

/// `width * i > greatest` exactly when `width` exceeds `greatest / i`.
proof fn lemma_saturation(width: int, i: int, greatest: int)
    by (nonlinear_arith)
    requires
        width >= 0,
        i > 0,
        greatest >= 0,
    ensures
        width > greatest / i <==> width * i > greatest,
{
}

/// The edges of the bins do not decrease, and do not fall below the first.
proof fn lemma_edges_ordered(width: int, i: int, j: int, greatest: int)
    requires
        width >= 0,
        0 <= i <= j,
        greatest >= 0,
    ensures
        0 <= saturated_product(width, i, greatest) <= saturated_product(width, j, greatest),
{
    assert(0 <= width * i <= width * j) by (nonlinear_arith)
        requires
            width >= 0,
            0 <= i <= j,
    ;
}

/// `min` plus `i` widths, the product saturated at `greatest`.
fn saturated_edge(min: i128, width: i128, greatest: i128, i: usize) -> (e: i128)
    requires
        0 <= width <= greatest <= u64::MAX,
        i64::MIN <= min <= u64::MAX,
    ensures
        e == min + saturated_product(width as int, i as int, greatest as int),
{
    let n: i128 = i as i128;
    if n > 0 && width > greatest / n {
        proof {
            lemma_saturation(width as int, n as int, greatest as int);
        }
        min + greatest
    } else {
        proof {
            if n > 0 {
                lemma_saturation(width as int, n as int, greatest as int);
            }
            assert(0 <= width * n <= greatest) by (nonlinear_arith)
                requires
                    0 <= width <= greatest,
                    n >= 0,
                    n == 0 || width * n <= greatest,
            ;
        }
        min + width * n
    }
}

/// The bins of the keys from `min` to `max`, or `None` where an edge of them would exceed the
/// greatest key of the type.
fn key_bins<T: BinKey>(min: i128, max: i128, count: usize) -> (r: Option<Vec<Bounds<T>>>)
    requires
        count >= 1,
        T::least() <= min <= max <= T::greatest(),
    ensures
        r is Some <==> (min == max || bins_fit(min as int, max as int, count as int, T::greatest())),
        r matches Some(bins) ==> equal_bins(bins@, min as int, max as int, count as int),
{
    proof {
        T::lemma_bounds();
    }
    if min == max {
        let v = T::from_key(min);
        let mut bins: Vec<Bounds<T>> = Vec::new();
        bins.push(Bounds { lower: Bound::Inclusive(v), upper: Bound::Inclusive(v) });
        return Some(bins);
    }
    let greatest: i128 = T::greatest_key();
    let span: i128 = max - min;
    if span > greatest {
        return None;
    }
    let c: i128 = count as i128;
    let width: i128 = (span + c - 1) / c;
    proof {
        lemma_ceil_div(span as int, c as int);
        assert(0 <= width <= span) by (nonlinear_arith)
            requires
                span >= 1,
                c >= 1,
                width == (span as int + c as int - 1) / (c as int),
        ;
    }
    let ghost w: int = bin_width(min as int, max as int, count as int);
    assert(width == w);
    let last: i128 = saturated_edge(min, width, greatest, count);
    if last > greatest {
        return None;
    }
    let mut bins: Vec<Bounds<T>> = Vec::new();
    let mut i: usize = 0;
    while i < count
        invariant
            1 <= count,
            i <= count,
            T::least() <= min < max <= T::greatest(),
            i64::MIN <= T::least() <= 0 < T::greatest() <= u64::MAX,
            greatest == T::greatest(),
            width == bin_width(min as int, max as int, count as int),
            0 <= width <= greatest,
            last == bin_edge(min as int, max as int, count as int, greatest as int, count as int),
            last <= greatest,
            bins@.len() == i,
            forall|m: int|
                0 <= m < i ==> is_bin(
                    #[trigger] bins@[m],
                    bin_edge(min as int, max as int, count as int, T::greatest(), m),
                    bin_edge(min as int, max as int, count as int, T::greatest(), m + 1),
                    m + 1 == count,
                ),
        decreases count - i,
    {
        proof {
            lemma_edges_ordered(width as int, i as int, count as int, greatest as int);
            lemma_edges_ordered(width as int, i + 1, count as int, greatest as int);
        }
        let lower = T::from_key(saturated_edge(min, width, greatest, i));
        let upper_key: i128 = saturated_edge(min, width, greatest, i + 1);
        let upper = T::from_key(upper_key);
        let bin = if i + 1 == count {
            Bounds { lower: Bound::Inclusive(lower), upper: Bound::Inclusive(upper) }
        } else {
            Bounds { lower: Bound::Inclusive(lower), upper: Bound::Exclusive(upper) }
        };
        bins.push(bin);
        i += 1;
    }
    Some(bins)
}

/// Split the keys of a histogram into its bins: none for no keys; one bin that holds the
/// only key where all keys are equal; else `count` bins of equal width from the least key
/// to the greatest, each including its lower edge, the last also its upper edge.
///
/// Gives `None` where the span of the keys, or an edge of the bins, exceeds the greatest key
/// of the type.
pub fn histogram_bins<T: BinKey>(keys: &Vec<T>, count: usize) -> (r: Option<Vec<Bounds<T>>>)
    requires
        count >= 1,
    ensures
        keys@.len() == 0 ==> (r matches Some(bins) && bins@.len() == 0),
        keys@.len() > 0 ==> ({
            let min = least_key(keys@);
            let max = greatest_key(keys@);
            &&& (r is Some <==> (min == max || bins_fit(min, max, count as int, T::greatest())))
            &&& (r matches Some(bins) ==> equal_bins(bins@, min, max, count as int))
        }),
{
    if keys.len() == 0 {
        return Some(Vec::new());
    }
    let mut min: i128 = keys[0].to_key();
    let mut max: i128 = min;
    proof {
        T::lemma_key(keys@[0]);
        assert(keys@.take(1).drop_last() =~= Seq::<T>::empty());
    }
    let mut i: usize = 1;
    while i < keys.len()
        invariant
            1 <= i <= keys@.len(),
            T::least() <= min <= max <= T::greatest(),
            min == least_key(keys@.take(i as int)),
            max == greatest_key(keys@.take(i as int)),
        decreases keys@.len() - i,
    {
        let k: i128 = keys[i].to_key();
        proof {
            T::lemma_key(keys@[i as int]);
            assert(keys@.take(i + 1).drop_last() =~= keys@.take(i as int));
        }
        if k < min {
            min = k;
        }
        if k > max {
            max = k;
        }
        i += 1;
    }
    proof {
        assert(keys@.take(keys@.len() as int) =~= keys@);
    }
    key_bins(min, max, count)
}

/// Every key of a histogram lies between its least and its greatest key, so that (by
/// [`law_bins_cover`]) it lies in exactly one of the bins of the histogram.
pub proof fn law_keys_within<T: BinKey>(keys: Seq<T>, i: int)
    requires
        0 <= i < keys.len(),
    ensures
        least_key(keys) <= keys[i].key() <= greatest_key(keys),
    decreases keys.len(),
{
    if keys.len() > 1 && i < keys.len() - 1 {
        law_keys_within(keys.drop_last(), i);
    }
    if keys.len() > 1 && i == keys.len() - 1 {
        assert(keys[i] == keys.last());
    }
}

/// Every key from the least to the greatest lies in exactly one of the bins built for them.
pub proof fn law_bins_cover<T: BinKey>(bins: Seq<Bounds<T>>, min: int, max: int, count: int, x: T)
    requires
        count >= 1,
        min <= max,
        min == max || bins_fit(min, max, count, T::greatest()),
        equal_bins(bins, min, max, count),
        min <= x.key() <= max,
    ensures
        exists|j: int| 0 <= j < bins.len() && in_bin(#[trigger] bins[j], x),
        forall|j1: int, j2: int|
            0 <= j1 < bins.len() && 0 <= j2 < bins.len() && in_bin(#[trigger] bins[j1], x)
                && in_bin(#[trigger] bins[j2], x) ==> j1 == j2,
{
    assert forall|j: int| 0 <= j < bins.len() implies (in_bin(#[trigger] bins[j], x) <==> bin_holds(
        bins[j],
        x.key(),
    )) by {
        lemma_in_bin(bins[j], x);
    }
    if min == max {
        assert(in_bin(bins[0], x));
    } else {
        let w: int = bin_width(min, max, count);
        lemma_ceil_div(max - min, count);
        assert(w >= 0 && w * count >= max - min) by (nonlinear_arith)
            requires
                count >= 1,
                max - min >= 1,
                w == (max - min + count - 1) / count,
        ;
        let j: int = lemma_bin_found(bins, min, max, count, x.key(), 0);
        assert(in_bin(bins[j], x));
        assert forall|j1: int, j2: int|
            0 <= j1 < bins.len() && 0 <= j2 < bins.len() && in_bin(#[trigger] bins[j1], x)
                && in_bin(#[trigger] bins[j2], x) implies j1 == j2 by {
            if j1 < j2 {
                lemma_edges_ordered(w, j1 + 1, j2, T::greatest());
            } else if j2 < j1 {
                lemma_edges_ordered(w, j2 + 1, j1, T::greatest());
            }
        }
    }
}

/// The key `k` lies in `b`, compared by the keys of its bounds.
pub open spec fn bin_holds<T: BinKey>(b: Bounds<T>, k: int) -> bool {
    &&& if b.lower is Inclusive {
        bound_key(b.lower) <= k
    } else {
        bound_key(b.lower) < k
    }
    &&& if b.upper is Inclusive {
        k <= bound_key(b.upper)
    } else {
        k < bound_key(b.upper)
    }
}

/// A value lies in a bin exactly when its key does.
proof fn lemma_in_bin<T: BinKey>(b: Bounds<T>, x: T)
    ensures
        in_bin(b, x) <==> bin_holds(b, x.key()),
{
    match b.lower {
        Bound::Exclusive(v) => T::lemma_order(v, x),
        Bound::Inclusive(v) => T::lemma_order(v, x),
    }
    match b.upper {
        Bound::Exclusive(v) => T::lemma_order(v, x),
        Bound::Inclusive(v) => T::lemma_order(v, x),
    }
}

/// A key from the `m`-th edge up to `max` lies in one of the bins from the `m`-th on.
proof fn lemma_bin_found<T: BinKey>(
    bins: Seq<Bounds<T>>,
    min: int,
    max: int,
    count: int,
    k: int,
    m: int,
) -> (j: int)
    requires
        count >= 1,
        min < max,
        bins_fit(min, max, count, T::greatest()),
        equal_bins(bins, min, max, count),
        bin_width(min, max, count) >= 0,
        bin_width(min, max, count) * count >= max - min,
        0 <= m < count,
        bin_edge(min, max, count, T::greatest(), m) <= k <= max,
    ensures
        m <= j < count,
        bin_holds(bins[j], k),
    decreases count - m,
{
    let g: int = T::greatest();
    assert(is_bin(bins[m], bin_edge(min, max, count, g, m), bin_edge(min, max, count, g, m + 1), m + 1 == count));
    if m + 1 == count {
        m
    } else if k < bin_edge(min, max, count, g, m + 1) {
        m
    } else {
        lemma_bin_found(bins, min, max, count, k, m + 1)
    }
}

/// Consecutive bins meet: the first begins at the least key, each ends where the next begins,
/// and the last reaches the greatest key; each spans the same width, unless its upper edge was
/// cut back to the greatest key of the type.
pub proof fn law_bins_contiguous<T: BinKey>(bins: Seq<Bounds<T>>, min: int, max: int, count: int)
    requires
        count >= 1,
        min < max,
        bins_fit(min, max, count, T::greatest()),
        equal_bins(bins, min, max, count),
    ensures
        bound_key(bins[0].lower) == min,
        bound_key(bins[count - 1].upper) >= max,
        forall|i: int|
            0 <= i < count - 1 ==> bound_key(#[trigger] bins[i].upper) == bound_key(bins[i + 1].lower),
        forall|i: int|
            0 <= i < count && bin_width(min, max, count) * (i + 1) <= T::greatest() ==> bound_key(
                #[trigger] bins[i].upper,
            ) - bound_key(bins[i].lower) == bin_width(min, max, count),
{
    let w: int = bin_width(min, max, count);
    let g: int = T::greatest();
    lemma_ceil_div(max - min, count);
    assert(w >= 0 && w * count >= max - min) by (nonlinear_arith)
        requires
            count >= 1,
            max - min >= 1,
            w == (max - min + count - 1) / count,
    ;
    assert(is_bin(bins[0], bin_edge(min, max, count, g, 0), bin_edge(min, max, count, g, 1), 1 == count));
    assert(is_bin(bins[count - 1], bin_edge(min, max, count, g, count - 1), bin_edge(min, max, count, g, count), true));
    assert forall|i: int| 0 <= i < count - 1 implies bound_key(#[trigger] bins[i].upper) == bound_key(
        bins[i + 1].lower,
    ) by {
        assert(is_bin(bins[i], bin_edge(min, max, count, g, i), bin_edge(min, max, count, g, i + 1), i + 1 == count));
        assert(is_bin(bins[i + 1], bin_edge(min, max, count, g, i + 1), bin_edge(min, max, count, g, i + 2), i + 2 == count));
    }
    assert forall|i: int|
        0 <= i < count && w * (i + 1) <= g implies bound_key(#[trigger] bins[i].upper) - bound_key(
        bins[i].lower,
    ) == w by {
        assert(is_bin(bins[i], bin_edge(min, max, count, g, i), bin_edge(min, max, count, g, i + 1), i + 1 == count));
        lemma_edges_ordered(w, i, i + 1, g);
        assert(w * (i + 1) == w * i + w) by (nonlinear_arith);
    }
}

impl BinKey for isize {
    open spec fn key(self) -> int {
        self as int
    }

    open spec fn least() -> int {
        isize::MIN as int
    }

    open spec fn greatest() -> int {
        isize::MAX as int
    }

    proof fn lemma_bounds() {
    }

    proof fn lemma_key(x: isize) {
    }

    proof fn lemma_order(a: isize, b: isize) {
    }

    fn from_key(k: i128) -> (r: isize) {
        k as isize
    }

    fn to_key(&self) -> (r: i128) {
        *self as i128
    }

    fn greatest_key() -> (r: i128) {
        isize::MAX as i128
    }
}

impl BinKey for i64 {
    open spec fn key(self) -> int {
        self as int
    }

    open spec fn least() -> int {
        i64::MIN as int
    }

    open spec fn greatest() -> int {
        i64::MAX as int
    }

    proof fn lemma_bounds() {
    }

    proof fn lemma_key(x: i64) {
    }

    proof fn lemma_order(a: i64, b: i64) {
    }

    fn from_key(k: i128) -> (r: i64) {
        k as i64
    }

    fn to_key(&self) -> (r: i128) {
        *self as i128
    }

    fn greatest_key() -> (r: i128) {
        i64::MAX as i128
    }
}

impl BinKey for i32 {
    open spec fn key(self) -> int {
        self as int
    }

    open spec fn least() -> int {
        i32::MIN as int
    }

    open spec fn greatest() -> int {
        i32::MAX as int
    }

    proof fn lemma_bounds() {
    }

    proof fn lemma_key(x: i32) {
    }

    proof fn lemma_order(a: i32, b: i32) {
    }

    fn from_key(k: i128) -> (r: i32) {
        k as i32
    }

    fn to_key(&self) -> (r: i128) {
        *self as i128
    }

    fn greatest_key() -> (r: i128) {
        i32::MAX as i128
    }
}

impl BinKey for i16 {
    open spec fn key(self) -> int {
        self as int
    }

    open spec fn least() -> int {
        i16::MIN as int
    }

    open spec fn greatest() -> int {
        i16::MAX as int
    }

    proof fn lemma_bounds() {
    }

    proof fn lemma_key(x: i16) {
    }

    proof fn lemma_order(a: i16, b: i16) {
    }

    fn from_key(k: i128) -> (r: i16) {
        k as i16
    }

    fn to_key(&self) -> (r: i128) {
        *self as i128
    }

    fn greatest_key() -> (r: i128) {
        i16::MAX as i128
    }
}

impl BinKey for i8 {
    open spec fn key(self) -> int {
        self as int
    }

    open spec fn least() -> int {
        i8::MIN as int
    }

    open spec fn greatest() -> int {
        i8::MAX as int
    }

    proof fn lemma_bounds() {
    }

    proof fn lemma_key(x: i8) {
    }

    proof fn lemma_order(a: i8, b: i8) {
    }

    fn from_key(k: i128) -> (r: i8) {
        k as i8
    }

    fn to_key(&self) -> (r: i128) {
        *self as i128
    }

    fn greatest_key() -> (r: i128) {
        i8::MAX as i128
    }
}

impl BinKey for usize {
    open spec fn key(self) -> int {
        self as int
    }

    open spec fn least() -> int {
        usize::MIN as int
    }

    open spec fn greatest() -> int {
        usize::MAX as int
    }

    proof fn lemma_bounds() {
    }

    proof fn lemma_key(x: usize) {
    }

    proof fn lemma_order(a: usize, b: usize) {
    }

    fn from_key(k: i128) -> (r: usize) {
        k as usize
    }

    fn to_key(&self) -> (r: i128) {
        *self as i128
    }

    fn greatest_key() -> (r: i128) {
        usize::MAX as i128
    }
}

impl BinKey for u64 {
    open spec fn key(self) -> int {
        self as int
    }

    open spec fn least() -> int {
        u64::MIN as int
    }

    open spec fn greatest() -> int {
        u64::MAX as int
    }

    proof fn lemma_bounds() {
    }

    proof fn lemma_key(x: u64) {
    }

    proof fn lemma_order(a: u64, b: u64) {
    }

    fn from_key(k: i128) -> (r: u64) {
        k as u64
    }

    fn to_key(&self) -> (r: i128) {
        *self as i128
    }

    fn greatest_key() -> (r: i128) {
        u64::MAX as i128
    }
}

impl BinKey for u32 {
    open spec fn key(self) -> int {
        self as int
    }

    open spec fn least() -> int {
        u32::MIN as int
    }

    open spec fn greatest() -> int {
        u32::MAX as int
    }

    proof fn lemma_bounds() {
    }

    proof fn lemma_key(x: u32) {
    }

    proof fn lemma_order(a: u32, b: u32) {
    }

    fn from_key(k: i128) -> (r: u32) {
        k as u32
    }

    fn to_key(&self) -> (r: i128) {
        *self as i128
    }

    fn greatest_key() -> (r: i128) {
        u32::MAX as i128
    }
}

impl BinKey for u16 {
    open spec fn key(self) -> int {
        self as int
    }

    open spec fn least() -> int {
        u16::MIN as int
    }

    open spec fn greatest() -> int {
        u16::MAX as int
    }

    proof fn lemma_bounds() {
    }

    proof fn lemma_key(x: u16) {
    }

    proof fn lemma_order(a: u16, b: u16) {
    }

    fn from_key(k: i128) -> (r: u16) {
        k as u16
    }

    fn to_key(&self) -> (r: i128) {
        *self as i128
    }

    fn greatest_key() -> (r: i128) {
        u16::MAX as i128
    }
}

impl BinKey for u8 {
    open spec fn key(self) -> int {
        self as int
    }

    open spec fn least() -> int {
        u8::MIN as int
    }

    open spec fn greatest() -> int {
        u8::MAX as int
    }

    proof fn lemma_bounds() {
    }

    proof fn lemma_key(x: u8) {
    }

    proof fn lemma_order(a: u8, b: u8) {
    }

    fn from_key(k: i128) -> (r: u8) {
        k as u8
    }

    fn to_key(&self) -> (r: i128) {
        *self as i128
    }

    fn greatest_key() -> (r: i128) {
        u8::MAX as i128
    }
}

/// The header row of a histogram frame.
pub open spec fn histogram_header(
    header: Seq<char>,
    a: crate::aggregate::Aggregate,
    show_aggregate: bool,
    breakdowns: Option<Seq<Seq<char>>>,
    value_header: Seq<char>,
) -> Seq<Shown> {
    seq![Shown::Text(header)] + frame::value_header(a, show_aggregate, breakdowns, value_header)
}

/// The row of a histogram frame for the bin labelled `label`.
pub open spec fn histogram_row(
    label: Seq<char>,
    v: Aggregated,
    show_aggregate: bool,
    breakdown: bool,
) -> Seq<Shown> {
    seq![Shown::Text(label)] + frame::value_cells(show_aggregate, v.total@, v.values@, breakdown)
}

/// Lay out the frame of a histogram: its columns, and its rows (with a breakdown, a row
/// labelling the values; the header; one row per bin, labelled by `labels`).
///
/// `header` labels the primary dimension and `value_header` the values; `aggregates` holds
/// the aggregated values of every bin. With a breakdown, each bin shows one value per heading
/// of `breakdowns`.
pub fn histogram_frame(
    render: &Render<HistogramConfig>,
    header: &String,
    breakdown: bool,
    value_header: &String,
    breakdowns: &Vec<String>,
    labels: &Vec<String>,
    aggregates: &Vec<Aggregated>,
) -> (r: (Columns, Vec<Row>))
    requires
        aggregates@.len() == labels@.len(),
        !breakdown ==> forall|i: int|
            0 <= i < aggregates@.len() ==> (#[trigger] aggregates@[i]).values@.len() > 0,
    ensures
        ({
            let pre = if breakdown {
                seq![frame::preheader(1, render.show_aggregate, frame::embedded(render.aggregate, value_header@))]
            } else {
                seq![]
            };
            &&& r.0.types@ == path_columns(
                render.show_aggregate,
                if breakdown {
                    Some(breakdowns@.len())
                } else {
                    None
                },
            )
            &&& r.1@.len() == pre.len() + 1 + labels@.len()
            &&& forall|q: int| 0 <= q < r.1@.len() ==> (#[trigger] r.1@[q]).wf()
            &&& forall|q: int| 0 <= q < pre.len() ==> frame::shown_row(#[trigger] r.1@[q]) == pre[q]
            &&& frame::shown_row(r.1@[pre.len() as int]) == histogram_header(
                header@,
                render.aggregate,
                render.show_aggregate,
                if breakdown {
                    Some(abbreviate::string_views(breakdowns@))
                } else {
                    None
                },
                value_header@,
            )
            &&& forall|i: int|
                0 <= i < labels@.len() ==> frame::shown_row(#[trigger] r.1@[pre.len() + 1 + i])
                    == histogram_row(labels@[i]@, aggregates@[i], render.show_aggregate, breakdown)
        }),
{
    let show_aggregate = render.show_aggregate;
    let mut columns = Columns::default();
    columns.push(Column::string(Alignment::Left));
    frame::push_value_columns(
        &mut columns,
        show_aggregate,
        if breakdown {
            Some(breakdowns.len())
        } else {
            None
        },
    );
    let ghost pre = if breakdown {
        seq![frame::preheader(1, show_aggregate, frame::embedded(render.aggregate, value_header@))]
    } else {
        seq![]
    };
    let mut rows: Vec<Row> = Vec::new();
    if breakdown {
        rows.push(
            frame::preheader_row(1, show_aggregate, frame::embedded_label(render.aggregate, value_header)),
        );
    }
    let mut head = Row::default();
    assert(frame::shown_row(head) =~= Seq::<Shown>::empty());
    frame::push_value(&mut head, Value::String(header.clone()));
    frame::push_value_header(
        &mut head,
        render.aggregate,
        show_aggregate,
        if breakdown {
            Some(breakdowns)
        } else {
            None
        },
        value_header,
    );
    rows.push(head);
    let mut i: usize = 0;
    while i < labels.len()
        invariant
            show_aggregate == render.show_aggregate,
            i <= labels@.len(),
            aggregates@.len() == labels@.len(),
            !breakdown ==> forall|i: int|
                0 <= i < aggregates@.len() ==> (#[trigger] aggregates@[i]).values@.len() > 0,
            rows@.len() == pre.len() + 1 + i,
            forall|q: int| 0 <= q < rows@.len() ==> (#[trigger] rows@[q]).wf(),
            forall|q: int| 0 <= q < pre.len() ==> frame::shown_row(#[trigger] rows@[q]) == pre[q],
            frame::shown_row(rows@[pre.len() as int]) == histogram_header(
                header@,
                render.aggregate,
                render.show_aggregate,
                if breakdown {
                    Some(abbreviate::string_views(breakdowns@))
                } else {
                    None
                },
                value_header@,
            ),
            forall|m: int|
                0 <= m < i ==> frame::shown_row(#[trigger] rows@[pre.len() + 1 + m])
                    == histogram_row(labels@[m]@, aggregates@[m], render.show_aggregate, breakdown),
        decreases labels@.len() - i,
    {
        let a = &aggregates[i];
        let mut row = Row::default();
        assert(frame::shown_row(row) =~= Seq::<Shown>::empty());
        frame::push_value(&mut row, Value::String(labels[i].clone()));
        frame::push_value_cells(&mut row, show_aggregate, &a.total, &a.values, breakdown);
        assert(frame::shown_row(row) =~= histogram_row(labels@[i as int]@, *a, show_aggregate, breakdown));
        rows.push(row);
        i += 1;
    }
    (columns, rows)
}

} // verus!

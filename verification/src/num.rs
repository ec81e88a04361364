//! Exact decimal fixed-point numbers.
//!
//! A language number is a mantissa of `i64` read at a fixed scale of six
//! decimal places: the number denoted is `mantissa / SCALE`. Addition,
//! subtraction, multiplication and division are exact up to truncation toward
//! zero at the sixth decimal place; an operation whose mantissa would leave
//! the `i64` range reports that instead of wrapping.

use vstd::prelude::*;

verus! {

/// Fraction units per whole unit: numbers carry six decimal places.
pub const SCALE: i64 = 1000000;

/// A language number: the exact decimal fixed-point value `mantissa / SCALE`.
#[derive(Clone, Copy, Debug, PartialEq, Eq, Structural)]
pub struct Num {
    pub mantissa: i64,
}

pub open spec fn abs_int(a: int) -> int {
    if a < 0 {
        -a
    } else {
        a
    }
}

/// Division rounding toward zero, the rounding the arithmetic operators use.
pub open spec fn trunc_div(a: int, b: int) -> int
    recommends
        b != 0,
{
    if (a < 0) != (b < 0) {
        -(abs_int(a) / abs_int(b))
    } else {
        abs_int(a) / abs_int(b)
    }
}

/// Mantissa of the product of two fixed-point values.
pub open spec fn mul_mantissa(a: int, b: int) -> int {
    trunc_div(a * b, SCALE as int)
}

/// Mantissa of the quotient of two fixed-point values.
pub open spec fn div_mantissa(a: int, b: int) -> int
    recommends
        b != 0,
{
    trunc_div(a * (SCALE as int), b)
}

pub open spec fn fits_i64(v: int) -> bool {
    i64::MIN <= v <= i64::MAX
}

proof fn lemma_abs_mul(x: int, y: int)
    ensures
        abs_int(x * y) == abs_int(x) * abs_int(y),
        (x * y < 0) <==> (((x < 0) != (y < 0)) && x != 0 && y != 0),
{
    assert((if x * y < 0 {
        -(x * y)
    } else {
        x * y
    }) == (if x < 0 {
        -x
    } else {
        x
    }) * (if y < 0 {
        -y
    } else {
        y
    })) by (nonlinear_arith);
    assert((x * y < 0) <==> (((x < 0) != (y < 0)) && x != 0 && y != 0)) by (nonlinear_arith);
}

/// Magnitude of an `i64`, total also at the lower end of the range.
fn abs_u64(x: i64) -> (r: u64)
    ensures
        r as int == abs_int(x as int),
{
    if x >= 0 {
        x as u64
    } else {
        let y: i128 = -(x as i128);
        y as u64
    }
}

impl Num {
    /// The number with the given whole value and no fraction.
    pub fn from_whole(w: i64) -> (r: Option<Num>)
        ensures
            r matches Some(n) ==> n.mantissa == w * (SCALE as int),
            r is Some <==> fits_i64(w * (SCALE as int)),
    {
        match w.checked_mul(SCALE) {
            Some(m) => Some(Num { mantissa: m }),
            None => None,
        }
    }

    /// Exact sum; `None` when the result leaves the representable range.
    pub fn add(self, o: Num) -> (r: Option<Num>)
        ensures
            r matches Some(n) ==> n.mantissa == self.mantissa + o.mantissa,
            r is Some <==> fits_i64(self.mantissa + o.mantissa),
    {
        match self.mantissa.checked_add(o.mantissa) {
            Some(m) => Some(Num { mantissa: m }),
            None => None,
        }
    }

    /// Exact difference; `None` when the result leaves the representable range.
    pub fn sub(self, o: Num) -> (r: Option<Num>)
        ensures
            r matches Some(n) ==> n.mantissa == self.mantissa - o.mantissa,
            r is Some <==> fits_i64(self.mantissa - o.mantissa),
    {
        match self.mantissa.checked_sub(o.mantissa) {
            Some(m) => Some(Num { mantissa: m }),
            None => None,
        }
    }

    /// Negation; `None` only at the one mantissa whose negation has no `i64`
    /// representation.
    pub fn neg(self) -> (r: Option<Num>)
        ensures
            r matches Some(n) ==> n.mantissa == -(self.mantissa as int),
            r is Some <==> self.mantissa != i64::MIN,
    {
        if self.mantissa == i64::MIN {
            None
        } else {
            Some(Num { mantissa: -self.mantissa })
        }
    }

    /// Product, truncated toward zero at the sixth decimal place; `None` when
    /// the result leaves the representable range.
    pub fn mul(self, o: Num) -> (r: Option<Num>)
        ensures
            r matches Some(n) ==> n.mantissa == mul_mantissa(
                self.mantissa as int,
                o.mantissa as int,
            ),
            r is Some <==> fits_i64(mul_mantissa(self.mantissa as int, o.mantissa as int)),
    {
        let am: u128 = abs_u64(self.mantissa) as u128;
        let bm: u128 = abs_u64(o.mantissa) as u128;
        proof {
            lemma_abs_mul(self.mantissa as int, o.mantissa as int);
            assert(am * bm <= 0x8000000000000000u128 * 0x8000000000000000u128) by (nonlinear_arith)
                requires
                    am <= 0x8000000000000000u128,
                    bm <= 0x8000000000000000u128,
            ;
        }
        let prod: u128 = am * bm;
        let q: u128 = prod / 1000000u128;
        let neg: bool = (self.mantissa < 0) != (o.mantissa < 0);
        if neg {
            if q <= 9223372036854775808u128 {
                let qi: i128 = -(q as i128);
                Some(Num { mantissa: qi as i64 })
            } else {
                None
            }
        } else {
            if q <= 9223372036854775807u128 {
                Some(Num { mantissa: q as i64 })
            } else {
                None
            }
        }
    }

    /// Quotient, truncated toward zero at the sixth decimal place; `None`
    /// when the result leaves the representable range. The divisor must not
    /// be zero: the evaluator reports division by zero before coming here.
    pub fn div(self, o: Num) -> (r: Option<Num>)
        requires
            o.mantissa != 0,
        ensures
            r matches Some(n) ==> n.mantissa == div_mantissa(
                self.mantissa as int,
                o.mantissa as int,
            ),
            r is Some <==> fits_i64(div_mantissa(self.mantissa as int, o.mantissa as int)),
    {
        let am: u128 = abs_u64(self.mantissa) as u128;
        let bm: u128 = abs_u64(o.mantissa) as u128;
        proof {
            lemma_abs_mul(self.mantissa as int, SCALE as int);
            assert(am * 1000000u128 <= 0x8000000000000000u128 * 1000000u128) by (nonlinear_arith)
                requires
                    am <= 0x8000000000000000u128,
            ;
        }
        let prod: u128 = am * 1000000u128;
        let q: u128 = prod / bm;
        let neg: bool = (self.mantissa < 0) != (o.mantissa < 0);
        if neg {
            if q <= 9223372036854775808u128 {
                let qi: i128 = -(q as i128);
                Some(Num { mantissa: qi as i64 })
            } else {
                None
            }
        } else {
            if q <= 9223372036854775807u128 {
                Some(Num { mantissa: q as i64 })
            } else {
                None
            }
        }
    }
}

/// Decimal digits of `n`, most significant first, no leading zeros (a single
/// `0` for zero).
pub open spec fn dec_digits(n: nat) -> Seq<u8>
    decreases n,
{
    if n < 10 {
        seq![(48 + n) as u8]
    } else {
        dec_digits(n / 10).push((48 + n % 10) as u8)
    }
}

/// The low `k` decimal digits of `n`, zero padded to exactly `k` digits.
pub open spec fn digits_fixed(n: nat, k: nat) -> Seq<u8>
    decreases k,
{
    if k == 0 {
        Seq::empty()
    } else {
        digits_fixed(n / 10, (k - 1) as nat).push((48 + n % 10) as u8)
    }
}

/// `s` without its trailing `'0'` bytes.
pub open spec fn trim_zeros(s: Seq<u8>) -> Seq<u8>
    decreases s.len(),
{
    if s.len() > 0 && s.last() == 48u8 {
        trim_zeros(s.drop_last())
    } else {
        s
    }
}

/// The canonical rendering of a mantissa: optional minus sign, whole part,
/// and the fraction digits with trailing zeros dropped, omitted entirely
/// when the fraction is zero.
pub open spec fn render_mantissa(m: int) -> Seq<u8> {
    let mag = abs_int(m);
    let whole = (mag / (SCALE as int)) as nat;
    let frac = (mag % (SCALE as int)) as nat;
    let sign: Seq<u8> = if m < 0 {
        seq![45u8]
    } else {
        Seq::empty()
    };
    if frac == 0 {
        sign + dec_digits(whole)
    } else {
        sign + dec_digits(whole) + seq![46u8] + trim_zeros(digits_fixed(frac, 6))
    }
}

/// Appends the decimal digits of `n` to `out`.
pub fn push_decimal(out: &mut Vec<u8>, n: u64)
    ensures
        final(out)@ == old(out)@ + dec_digits(n as nat),
    decreases n,
{
    if n < 10 {
        out.push(48 + n as u8);
    } else {
        push_decimal(out, n / 10);
        out.push(48 + (n % 10) as u8);
    }
}

fn push_fixed(out: &mut Vec<u8>, n: u64, k: u64)
    ensures
        final(out)@ == old(out)@ + digits_fixed(n as nat, k as nat),
    decreases k,
{
    if k > 0 {
        push_fixed(out, n / 10, k - 1);
        out.push(48 + (n % 10) as u8);
    }
}

impl Num {
    /// The canonical rendering of this number.
    pub fn render(self) -> (r: Vec<u8>)
        ensures
            r@ == render_mantissa(self.mantissa as int),
    {
        let mut out: Vec<u8> = Vec::new();
        if self.mantissa < 0 {
            out.push(45u8);
        }
        let mag: u64 = abs_u64(self.mantissa);
        let whole: u64 = mag / 1000000u64;
        let frac: u64 = mag % 1000000u64;
        push_decimal(&mut out, whole);
        if frac != 0 {
            out.push(46u8);
            let mut fd: Vec<u8> = Vec::new();
            push_fixed(&mut fd, frac, 6);
            while fd.len() > 0 && fd[fd.len() - 1] == 48u8
                invariant
                    trim_zeros(fd@) == trim_zeros(digits_fixed(frac as nat, 6)),
                decreases fd.len(),
            {
                let ghost prev = fd@;
                fd.pop();
                proof {
                    assert(fd@ == prev.drop_last());
                }
            }
            assert(fd@ == trim_zeros(digits_fixed(frac as nat, 6)));
            out.append(&mut fd);
        }
        out
    }
}

} // verus!

use vstd::prelude::*;
use vstd::arithmetic::div_mod::{lemma_div_denominator, lemma_mod_breakdown};

verus! {

/// Number of minor units in one whole unit of a `Decimal` (six fractional digits).
pub const UNITS_PER_ONE: i64 = 1_000_000;

/// A fixed-point decimal number: `units` millionths.
///
/// Prices, balances and average prices are all held in this form, so that
/// every sum, difference and product the library forms is exact.
#[derive(Clone, Copy, Debug, PartialEq, Eq, Structural, Hash)]
pub struct Decimal {
    pub units: i64,
}

pub open spec fn abs_int(a: int) -> int {
    if a < 0 {
        -a
    } else {
        a
    }
}

/// Integer division rounded toward zero.
pub open spec fn div_toward_zero(a: int, b: int) -> int {
    let q = abs_int(a) / abs_int(b);
    if (a >= 0) == (b > 0) {
        q
    } else {
        -q
    }
}

pub open spec fn pow10(n: nat) -> int
    decreases n,
{
    if n == 0 {
        1
    } else {
        10 * pow10((n - 1) as nat)
    }
}

pub open spec fn fits_i64(v: int) -> bool {
    i64::MIN <= v <= i64::MAX
}

/// The number of millionths in `mantissa * 10^-scale`, when that is a whole number.
pub open spec fn units_from_parts(mantissa: int, scale: int) -> Option<int> {
    if scale <= 6 {
        Some(mantissa * pow10((6 - scale) as nat))
    } else if abs_int(mantissa) % pow10((scale - 6) as nat) == 0 {
        let q = abs_int(mantissa) / pow10((scale - 6) as nat);
        Some(
            if mantissa < 0 {
                -q
            } else {
                q
            },
        )
    } else {
        None
    }
}

/// The `Decimal` equal to `mantissa * 10^-scale`, if there is one.
pub open spec fn decimal_from_parts(mantissa: int, scale: int) -> Option<Decimal> {
    match units_from_parts(mantissa, scale) {
        Some(u) => if fits_i64(u) {
            Some(Decimal { units: u as i64 })
        } else {
            None
        },
        None => None,
    }
}

/// What rust_decimal reads from a text: its mantissa and scale, or nothing
/// when the text is not a decimal number.
pub uninterp spec fn decimal_text_parts(s: Seq<char>) -> Option<(int, int)>;

/// The `Decimal` that a text stands for, if any.
pub open spec fn parsed_decimal(s: Seq<char>) -> Option<Decimal> {
    match decimal_text_parts(s) {
        Some((m, sc)) => decimal_from_parts(m, sc),
        None => None,
    }
}

/// Every character is an ASCII digit.
pub open spec fn all_digits(t: Seq<char>) -> bool {
    forall|i: int| 0 <= i < t.len() ==> '0' <= #[trigger] t[i] <= '9'
}

/// The number that a string of ASCII digits writes.
pub open spec fn digits_value(t: Seq<char>) -> int
    decreases t.len(),
{
    if t.len() == 0 {
        0
    } else {
        digits_value(t.drop_last()) * 10 + (t.last() as int - '0' as int)
    }
}

/// A plain decimal text: an optional sign, then ASCII digits with at most one
/// point among them, and at least one digit. Its mantissa is the digits read
/// as one number, its scale the count of digits after the point.
pub open spec fn plain_decimal(s: Seq<char>) -> Option<(int, int)> {
    let neg = s.len() > 0 && s[0] == '-';
    let body = if s.len() > 0 && (s[0] == '-' || s[0] == '+') {
        s.drop_first()
    } else {
        s
    };
    let whole = if exists|p: int| 0 <= p < body.len() && body[p] == '.' {
        let p = choose|p: int| 0 <= p < body.len() && body[p] == '.';
        (body.take(p), body.skip(p + 1))
    } else {
        (body, Seq::<char>::empty())
    };
    let digits = whole.0 + whole.1;
    if all_digits(whole.0) && all_digits(whole.1) && digits.len() > 0 {
        Some((if neg { -digits_value(digits) } else { digits_value(digits) }, whole.1.len() as int))
    } else {
        None
    }
}

/// Relies on rust_decimal's `FromStr` for `Decimal`, which reads decimal text
/// into a 96-bit mantissa and a scale, and on `Decimal::mantissa` and
/// `Decimal::scale`, which hand those back. A text shorter than 18 bytes takes
/// the parser's 64-bit path, where a sign, digits and one point are read
/// exactly as `plain_decimal` says.
#[verifier::external_body]
fn parse_decimal_parts(s: &str) -> (r: Option<(i128, u32)>)
    ensures
        match r {
            Some((m, sc)) => decimal_text_parts(s@) == Some((m as int, sc as int)),
            None => decimal_text_parts(s@).is_none(),
        },
        s@.len() < 18 && plain_decimal(s@).is_some() ==> r == Some(
            (plain_decimal(s@).unwrap().0 as i128, plain_decimal(s@).unwrap().1 as u32),
        ),
{
    match <rust_decimal::Decimal as std::str::FromStr>::from_str(s) {
        Ok(d) => Some((d.mantissa(), d.scale())),
        Err(_) => None,
    }
}

proof fn lemma_pow10_positive(n: nat)
    ensures
        pow10(n) >= 1,
    decreases n,
{
    if n > 0 {
        lemma_pow10_positive((n - 1) as nat);
    }
}

fn signed_units(neg: bool, v: u128) -> (r: Option<Decimal>)
    ensures
        ({
            let s: int = if neg {
                -(v as int)
            } else {
                v as int
            };
            r == if fits_i64(s) {
                Some(Decimal { units: s as i64 })
            } else {
                None
            }
        }),
{
    if !neg {
        if v <= 9_223_372_036_854_775_807u128 {
            Some(Decimal { units: v as i64 })
        } else {
            None
        }
    } else {
        if v <= 9_223_372_036_854_775_808u128 {
            let w: i128 = -(v as i128);
            Some(Decimal { units: w as i64 })
        } else {
            None
        }
    }
}

fn pow10_small(n: u32) -> (r: u128)
    requires
        n <= 6,
    ensures
        r == pow10(n as nat),
{
    let mut r: u128 = 1;
    let mut i: u32 = 0;
    while i < n
        invariant
            i <= n <= 6,
            r == pow10(i as nat),
        decreases n - i,
    {
        proof {
            lemma_pow10_small_bound(i as nat);
        }
        r = r * 10;
        i = i + 1;
    }
    r
}

impl Decimal {
    /// The number of millionths this value stands for.
    pub open spec fn value(self) -> int {
        self.units as int
    }

    pub fn zero() -> (r: Decimal)
        ensures
            r.value() == 0,
    {
        Decimal { units: 0 }
    }

    pub fn from_units(units: i64) -> (r: Decimal)
        ensures
            r.units == units,
    {
        Decimal { units }
    }

    /// The whole number `n`.
    pub fn from_int(n: i32) -> (r: Decimal)
        ensures
            r.value() == n * UNITS_PER_ONE,
    {
        let u: i64 = (n as i64) * UNITS_PER_ONE;
        Decimal { units: u }
    }

    /// The value `mantissa * 10^-scale`, or `None` when it is not a whole
    /// number of millionths or lies outside the 64-bit range.
    pub fn from_parts(mantissa: i128, scale: u32) -> (r: Option<Decimal>)
        ensures
            r == decimal_from_parts(mantissa as int, scale as int),
    {
        let neg = mantissa < 0;
        let mag: u128 = if neg {
            ((-(mantissa + 1)) as u128) + 1
        } else {
            mantissa as u128
        };
        assert(mag == abs_int(mantissa as int));
        if scale <= 6 {
            if mag > 9_223_372_036_854_775_808u128 {
                proof {
                    let p = pow10((6 - scale) as nat);
                    lemma_pow10_positive((6 - scale) as nat);
                    if neg {
                        assert((mantissa as int) * p <= mantissa) by (nonlinear_arith)
                            requires
                                p >= 1,
                                mantissa < 0,
                        {}
                    } else {
                        assert((mantissa as int) * p >= mantissa) by (nonlinear_arith)
                            requires
                                p >= 1,
                                mantissa >= 0,
                        {}
                    }
                }
                return None;
            }
            let f = pow10_small(6 - scale);
            proof {
                lemma_pow10_small_bound((6 - scale) as nat);
            }
            assert(mag * f <= 9_223_372_036_854_775_808u128 * 1_000_000) by (nonlinear_arith)
                requires
                    mag <= 9_223_372_036_854_775_808u128,
                    f <= 1_000_000,
            {}
            let v: u128 = mag * f;
            proof {
                if neg {
                    assert(-(v as int) == (mantissa as int) * pow10((6 - scale) as nat)) by (nonlinear_arith)
                        requires
                            v == mag * f,
                            mag == -mantissa,
                            f == pow10((6 - scale) as nat),
                    {}
                } else {
                    assert(v as int == (mantissa as int) * pow10((6 - scale) as nat));
                }
            }
            signed_units(neg, v)
        } else {
            let k0: u32 = scale - 6;
            let ghost scale_pow = pow10(k0 as nat);
            let mut k: u32 = k0;
            let mut q: u128 = mag;
            proof {
                lemma_pow10_positive(k0 as nat);
            }
            while k > 0 && q != 0
                invariant
                    k <= k0,
                    k0 == scale - 6,
                    mag == abs_int(mantissa as int),
                    neg == (mantissa < 0),
                    scale_pow == pow10(k0 as nat),
                    scale_pow >= 1,
                    ((mag as int) % scale_pow == 0) == ((q as int) % pow10(k as nat) == 0),
                    (mag as int) % scale_pow == 0 ==> (mag as int) / scale_pow == (q as int) / pow10(k as nat),
                decreases k,
            {
                let ghost pk = pow10(k as nat);
                let ghost pk1 = pow10((k - 1) as nat);
                proof {
                    lemma_pow10_positive((k - 1) as nat);
                    assert(pk == 10 * pk1);
                    lemma_mod_breakdown(q as int, 10, pk1);
                    lemma_div_denominator(q as int, 10, pk1);
                }
                if q % 10 != 0 {
                    proof {
                        assert((q as int) % pk != 0) by (nonlinear_arith)
                            requires
                                (q as int) % pk == 10 * (((q as int) / 10) % pk1) + (q as int) % 10,
                                (q as int) % 10 != 0,
                                (q as int) % 10 >= 0,
                                ((q as int) / 10) % pk1 >= 0,
                        {}
                    }
                    return None;
                }
                q = q / 10;
                k = k - 1;
            }
            proof {
                if q == 0 {
                    lemma_pow10_positive(k as nat);
                    assert(0int % pow10(k as nat) == 0) by (nonlinear_arith)
                        requires
                            pow10(k as nat) >= 1,
                    {}
                    assert(0int / pow10(k as nat) == 0) by (nonlinear_arith)
                        requires
                            pow10(k as nat) >= 1,
                    {}
                } else {
                    assert(k == 0);
                    assert(pow10(0) == 1);
                    assert((q as int) % 1 == 0);
                    assert((q as int) / 1 == q);
                }
            }
            signed_units(neg, q)
        }
    }
}

/// Reads decimal text such as `"101.25"` or `"-3"`: `None` when the text is
/// not a decimal number, or its value is not a whole number of millionths
/// within the 64-bit range.
pub fn parse_decimal(s: &str) -> (r: Option<Decimal>)
    ensures
        r == parsed_decimal(s@),
{
    match parse_decimal_parts(s) {
        Some((m, sc)) => Decimal::from_parts(m, sc),
        None => None,
    }
}

proof fn lemma_pow10_small_bound(n: nat)
    requires
        n <= 6,
    ensures
        pow10(n) <= 1_000_000,
    decreases n,
{
    reveal_with_fuel(pow10, 7);
}

/// The exact product of two 64-bit integers.
pub fn wide_mul(a: i64, b: i64) -> (r: i128)
    ensures
        r == a as int * b as int,
        -0x4000_0000_0000_0000_0000_0000_0000_0000 < r <= 0x4000_0000_0000_0000_0000_0000_0000_0000,
        a > i64::MIN ==> r < 0x4000_0000_0000_0000_0000_0000_0000_0000,
{
    proof {
        let x = abs_int(a as int);
        let y = abs_int(b as int);
        assert(x * y <= 0x4000_0000_0000_0000_0000_0000_0000_0000) by (nonlinear_arith)
            requires
                0 <= x <= 0x8000_0000_0000_0000,
                0 <= y <= 0x8000_0000_0000_0000,
        {}
        assert(x < 0x8000_0000_0000_0000 ==> x * y < 0x4000_0000_0000_0000_0000_0000_0000_0000) by (nonlinear_arith)
            requires
                0 <= x <= 0x8000_0000_0000_0000,
                0 <= y <= 0x8000_0000_0000_0000,
        {}
        assert(abs_int(a as int * b as int) == x * y) by (nonlinear_arith)
            requires
                x == abs_int(a as int),
                y == abs_int(b as int),
        {}
        assert(a as int * b as int == -0x4000_0000_0000_0000_0000_0000_0000_0000 ==> false) by (nonlinear_arith)
            requires
                i64::MIN <= a <= i64::MAX,
                i64::MIN <= b <= i64::MAX,
        {}
    }
    (a as i128) * (b as i128)
}

/// Division of 128-bit integers rounded toward zero.
pub fn i128_div_toward_zero(a: i128, b: i128) -> (r: i128)
    requires
        b != 0,
        a > i128::MIN,
        b > i128::MIN,
    ensures
        r == div_toward_zero(a as int, b as int),
{
    let ma: u128 = if a < 0 {
        (-a) as u128
    } else {
        a as u128
    };
    let mb: u128 = if b < 0 {
        (-b) as u128
    } else {
        b as u128
    };
    let q: u128 = ma / mb;
    assert(q <= ma) by (nonlinear_arith)
        requires
            mb >= 1,
            q == ma / mb,
    {}
    assert(ma == abs_int(a as int) && mb == abs_int(b as int));
    if (a >= 0) == (b > 0) {
        q as i128
    } else {
        -(q as i128)
    }
}

} // verus!

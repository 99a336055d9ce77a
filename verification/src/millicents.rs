//! Money amounts in millicents (thousandths of a euro cent).
//!
//! Entry prices travel through the system as integer millicents so that no
//! floating point ever touches an amount. A [`Millicents`] value is always
//! nonnegative; the conversions state exactly how euros and cents are read
//! back out of the raw count.

use vstd::prelude::*;

verus! {

use vstd::math::abs;
use vstd::arithmetic::div_mod::lemma_fundamental_div_mod;
use vstd::arithmetic::mul::lemma_mul_inequality;

/// A nonnegative amount of money, counted in thousandths of a euro cent.
pub struct Millicents(i64);

/// Why a string or raw count was not accepted as an amount.
#[derive(Clone, Copy, Debug, PartialEq, Eq, Structural)]
pub enum MillicentsError {
    Negative,
    ParseError,
}

/// Rounding used when a remainder of millicents is turned into whole cents:
/// a positive amount is rounded up (a single leftover millicent is still one
/// cent on the bill), anything else is rounded half away from zero.
pub open spec fn spec_divide_and_round(a: int, b: int) -> int {
    if a > 0 && b > 0 {
        (a - 1) / b + 1
    } else {
        spec_round_half_from_zero(a, b)
    }
}

/// Rounding half away from zero, written over magnitudes.
pub open spec fn spec_round_half_from_zero(a: int, b: int) -> int {
    let m = ((2 * abs(a) + abs(b)) / (2 * abs(b))) as int;
    if (a < 0) == (b < 0) {
        m
    } else {
        -m
    }
}

/// The quotient `x / d` is at most `q` as soon as `x` stays below `d * (q + 1)`.
proof fn lemma_div_le(x: int, d: int, q: int)
    requires
        d >= 1,
        x >= 0,
        q >= 0,
        x < d * (q + 1),
    ensures
        x / d <= q,
{
    if x / d > q {
        lemma_fundamental_div_mod(x, d);
        lemma_mul_inequality(q + 1, x / d, d);
        assert((q + 1) * d <= (x / d) * d);
        assert(d * (q + 1) == (q + 1) * d) by (nonlinear_arith);
        assert(d * (x / d) == (x / d) * d) by (nonlinear_arith);
    }
}

/// The magnitude of the rounded quotient never exceeds the magnitude of the
/// dividend.
proof fn lemma_round_magnitude(am: int, bm: int)
    requires
        am >= 0,
        bm >= 1,
    ensures
        (2 * am + bm) / (2 * bm) <= am,
{
    assert(2 * am + bm < (2 * bm) * (am + 1)) by (nonlinear_arith)
        requires
            am >= 0,
            bm >= 1,
    ;
    lemma_div_le(2 * am + bm, 2 * bm, am);
}

/// With a divisor of magnitude at least two, the rounded quotient is at most
/// half the dividend's magnitude plus one.
proof fn lemma_round_magnitude_half(am: int, bm: int)
    requires
        am >= 0,
        bm >= 2,
    ensures
        (2 * am + bm) / (2 * bm) <= am / 2 + 1,
{
    assert(2 * am + bm < (2 * bm) * (am / 2 + 2)) by (nonlinear_arith)
        requires
            am >= 0,
            bm >= 2,
    ;
    lemma_div_le(2 * am + bm, 2 * bm, am / 2 + 1);
}

/// Integer division with rounding: exact ceiling for positive operands,
/// otherwise rounding half away from zero.
pub fn divide_and_round(dividend: i64, divisor: i64) -> (q: i64)
    requires
        divisor != 0,
        !(dividend == i64::MIN && divisor == -1),
    ensures
        q == spec_divide_and_round(dividend as int, divisor as int),
{
    if dividend > 0 && divisor > 0 {
        let d: u64 = dividend as u64;
        let v: u64 = divisor as u64;
        proof {
            assert(((d - 1) as int) < (v as int) * (d as int)) by (nonlinear_arith)
                requires
                    v as int >= 1 && d as int >= 1,
            ;
            lemma_div_le((d - 1) as int, v as int, (d - 1) as int);
        }
        let r: u64 = (d - 1) / v + 1;
        r as i64
    } else {
        let am: u128 = if dividend >= 0 {
            dividend as u128
        } else {
            (-(dividend as i128)) as u128
        };
        let bm: u128 = if divisor >= 0 {
            divisor as u128
        } else {
            (-(divisor as i128)) as u128
        };
        proof {
            lemma_round_magnitude(am as int, bm as int);
            if bm >= 2 {
                lemma_round_magnitude_half(am as int, bm as int);
            }
        }
        let m: u128 = (2 * am + bm) / (2 * bm);
        if (dividend < 0) == (divisor < 0) {
            m as i64
        } else if m == 0 {
            0
        } else {
            -((m - 1) as i64) - 1
        }
    }
}

/// A decimal digit.
pub open spec fn is_digit_char(c: char) -> bool {
    48 <= c as u32 <= 57
}

/// The value of one decimal digit.
pub open spec fn digit_val(c: char) -> int {
    c as u32 - 48
}

/// All characters are decimal digits.
pub open spec fn all_digits(s: Seq<char>) -> bool {
    forall|i: int| 0 <= i < s.len() ==> is_digit_char(#[trigger] s[i])
}

/// The number a digit string names, read left to right.
pub open spec fn digits_val(s: Seq<char>) -> int
    decreases s.len(),
{
    if s.len() == 0 {
        0
    } else {
        digits_val(s.drop_last()) * 10 + digit_val(s.last())
    }
}

/// The index of the first decimal point, or the length if there is none.
pub open spec fn dot_pos(s: Seq<char>) -> int
    decreases s.len(),
{
    if s.len() == 0 {
        0
    } else if s[0] == '.' {
        0
    } else {
        1 + dot_pos(s.drop_first())
    }
}

/// What one fractional digit in position `n` is worth in millicents — five
/// fractional digits resolve one millicent; anything further is cut off.
pub open spec fn frac_scale(n: int) -> int {
    if n == 0 {
        100000
    } else if n == 1 {
        10000
    } else if n == 2 {
        1000
    } else if n == 3 {
        100
    } else if n == 4 {
        10
    } else {
        1
    }
}

/// The millicents named by a fractional digit string: its first five digits,
/// scaled; digits beyond the fifth are cut off.
pub open spec fn frac_millicents(s: Seq<char>) -> int {
    let k = if s.len() <= 5 {
        s.len() as int
    } else {
        5
    };
    digits_val(s.take(k)) * frac_scale(k)
}

/// An unsigned euro amount in plain decimal notation: digits, optionally
/// followed by a decimal point and digits, with at least one digit in all.
/// The value is in millicents.
pub open spec fn spec_parse_euro_body(s: Seq<char>) -> Option<int> {
    let k = dot_pos(s);
    let ip = s.take(k);
    let fp = if k < s.len() {
        s.skip(k + 1)
    } else {
        Seq::<char>::empty()
    };
    if all_digits(ip) && all_digits(fp) && ip.len() + fp.len() > 0 {
        Some(digits_val(ip) * 100000 + frac_millicents(fp))
    } else {
        None
    }
}

/// A euro amount in plain decimal notation with an optional sign.
pub open spec fn spec_parse_euro(s: Seq<char>) -> Option<int> {
    if s.len() > 0 && (s[0] == '-' || s[0] == '+') {
        match spec_parse_euro_body(s.drop_first()) {
            None => None,
            Some(v) => Some(
                if s[0] == '-' {
                    -v
                } else {
                    v
                },
            ),
        }
    } else {
        spec_parse_euro_body(s)
    }
}

/// Where the first decimal point of a string stands: not earlier, and at a
/// decimal point if anywhere before the end.
proof fn lemma_dot_pos(s: Seq<char>)
    ensures
        0 <= dot_pos(s) <= s.len(),
        forall|k: int| 0 <= k < dot_pos(s) ==> s[k] != '.',
        dot_pos(s) < s.len() ==> s[dot_pos(s)] == '.',
    decreases s.len(),
{
    if s.len() > 0 && s[0] != '.' {
        lemma_dot_pos(s.drop_first());
        assert forall|k: int| 0 <= k < dot_pos(s) implies s[k] != '.' by {
            if k > 0 {
                assert(s.drop_first()[k - 1] == s[k]);
            }
        }
        if dot_pos(s) < s.len() {
            assert(s.drop_first()[dot_pos(s) - 1] == s[dot_pos(s)]);
        }
    }
}

/// A counter that sticks once the count passes the largest signed machine
/// word: all amounts beyond it round down to the same capped result.
spec fn sat_of(v: int) -> int {
    if v > 0x8000000000000000 {
        0x8000000000000000
    } else {
        v
    }
}

/// A digit string names a nonnegative number.
proof fn lemma_digits_val_nonneg(s: Seq<char>)
    requires
        all_digits(s),
    ensures
        digits_val(s) >= 0,
    decreases s.len(),
{
    if s.len() > 0 {
        assert(all_digits(s.drop_last()));
        lemma_digits_val_nonneg(s.drop_last());
    }
}

impl Millicents {
    /// The raw millicent count this amount stands for.
    pub closed spec fn spec_raw(&self) -> int {
        self.0 as int
    }

    /// Amounts are never negative.
    pub open spec fn wf(&self) -> bool {
        0 <= self.spec_raw()
    }

    /// Euros and cents read from a raw millicent count: whole euros by
    /// truncation, the cent remainder rounded as [`spec_divide_and_round`]
    /// says.
    pub open spec fn spec_millicents_to_euro(mc: int) -> (int, int) {
        let euros = if mc >= 0 {
            mc / 100000
        } else {
            -((-mc) / 100000)
        };
        let cents = spec_divide_and_round(mc - euros * 100000, 1000);
        (euros, cents)
    }

    /// Accept a raw millicent count, rejecting negative amounts.
    pub fn from_raw(i: i64) -> (r: Result<Self, MillicentsError>)
        ensures
            i >= 0 ==> (r matches Ok(m) && m.spec_raw() == i && m.wf()),
            i < 0 ==> (r matches Err(e) && e == MillicentsError::Negative),
    {
        if i < 0 {
            return Err(MillicentsError::Negative);
        }
        Ok(Millicents(i))
    }

    /// Read a euro amount a person typed — plain decimal notation with an
    /// optional sign, such as `"13.37"` — into millicents. Anything else is
    /// a parse error, a negative amount is refused, and an amount beyond the
    /// largest representable count comes back as that largest count.
    pub fn from_euro_human(s: &str) -> (r: Result<Self, MillicentsError>)
        ensures
            match spec_parse_euro(s@) {
                None => r == Err::<Millicents, MillicentsError>(MillicentsError::ParseError),
                Some(v) => if v < 0 {
                    r == Err::<Millicents, MillicentsError>(MillicentsError::Negative)
                } else {
                    (r matches Ok(m) && m.wf() && m.spec_raw() == if v > i64::MAX {
                        i64::MAX as int
                    } else {
                        v
                    })
                },
            },
    {
        let n = s.unicode_len();
        let mut i: usize = 0;
        let mut neg: bool = false;
        if n > 0 {
            let c0 = s.get_char(0);
            if c0 == '-' {
                neg = true;
                i = 1;
            } else if c0 == '+' {
                i = 1;
            }
        }
        let istart: usize = i;
        let ghost start: int = istart as int;
        let ghost body: Seq<char> = s@.skip(start);
        proof {
            if start == 1 {
                assert(s@.drop_first() =~= body);
            } else {
                assert(body =~= s@);
            }
        }
        // the leading digits, counted with saturation beyond the last
        // representable count
        let mut acc: u128 = 0;
        while i < n
            invariant
                n == s@.len(),
                istart <= i <= n,
                start == istart as int,
                body == s@.skip(start),
                body.len() == n - start,
                all_digits(body.take(i - start)),
                acc <= 0x8000000000000000u128,
                acc as int == sat_of(digits_val(body.take(i - start))),
            ensures
                n == s@.len(),
                istart <= i <= n,
                all_digits(body.take(i - start)),
                acc <= 0x8000000000000000u128,
                acc as int == sat_of(digits_val(body.take(i - start))),
                i == n || !is_digit_char(s@[i as int]),
            decreases n - i,
        {
            let c = s.get_char(i);
            let u = c as u32;
            if !(48 <= u && u <= 57) {
                break ;
            }
            proof {
                lemma_digits_val_nonneg(body.take(i - start));
                assert(body.take(i + 1 - start).drop_last() =~= body.take(i - start));
                assert(body.take(i + 1 - start).last() == s@[i as int]);
            }
            let d = (u - 48) as u128;
            let next = acc * 10 + d;
            acc = if next > 0x8000000000000000u128 {
                0x8000000000000000u128
            } else {
                next
            };
            i = i + 1;
        }
        let ghost ip = body.take(dot_pos(body));
        if i == n {
            // no decimal point anywhere
            proof {
                lemma_dot_pos(body);
                assert(body.take(i - start) =~= body);
                if dot_pos(body) < body.len() {
                    assert(body.take(i - start)[dot_pos(body)] == body[dot_pos(body)]);
                    assert(is_digit_char(body[dot_pos(body)]));
                    assert(false);
                }
                assert(ip =~= body);
            }
            if i == istart {
                return Err(MillicentsError::ParseError);
            }
            proof {
                lemma_digits_val_nonneg(body);
            }
            let tot: u128 = acc * 100000;
            return Self::clamp_amount(neg, tot, Ghost(digits_val(ip) * 100000));
        }
        // the loop stopped on a character; anything but a decimal point is
        // refused
        let c = s.get_char(i);
        proof {
            lemma_dot_pos(body);
        }
        if c != '.' {
            proof {
                if dot_pos(body) < i - start {
                    assert(body.take(i - start)[dot_pos(body)] == body[dot_pos(body)]);
                    assert(is_digit_char(body[dot_pos(body)]));
                    assert(false);
                }
                if dot_pos(body) == i - start {
                    assert(body[dot_pos(body)] == '.');
                    assert(false);
                }
                assert(!is_digit_char(ip[i - start]));
            }
            return Err(MillicentsError::ParseError);
        }
        proof {
            if dot_pos(body) < i - start {
                assert(body.take(i - start)[dot_pos(body)] == body[dot_pos(body)]);
                assert(is_digit_char(body[dot_pos(body)]));
                assert(false);
            }
            if dot_pos(body) > i - start {
                assert(body[i - start] != '.');
                assert(false);
            }
            assert(ip =~= body.take(i - start));
        }
        i = i + 1;
        let fstart: usize = i;
        let ghost fp: Seq<char> = s@.skip(fstart as int);
        proof {
            assert(fp =~= body.skip(dot_pos(body) + 1));
        }
        // the fractional digits: the first five carry value, the rest only
        // have to be digits
        let mut fr: u64 = 0;
        let mut fcount: usize = 0;
        while i < n
            invariant
                n == s@.len(),
                fstart <= i <= n,
                fp == s@.skip(fstart as int),
                all_digits(fp.take(i - fstart)),
                fcount as int == (if i - fstart <= 5 {
                    i - fstart
                } else {
                    5int
                }),
                fr as int == digits_val(fp.take(fcount as int)),
                fcount == 0 ==> fr == 0,
                fcount == 1 ==> fr <= 9,
                fcount == 2 ==> fr <= 99,
                fcount == 3 ==> fr <= 999,
                fcount == 4 ==> fr <= 9999,
                fcount == 5 ==> fr <= 99999,
                fcount <= 5,
            ensures
                n == s@.len(),
                fstart <= i <= n,
                all_digits(fp.take(i - fstart)),
                fcount as int == (if i - fstart <= 5 {
                    i - fstart
                } else {
                    5int
                }),
                fr as int == digits_val(fp.take(fcount as int)),
                fr <= 99999,
                fcount <= 5,
                i == n || !is_digit_char(s@[i as int]),
            decreases n - i,
        {
            let c2 = s.get_char(i);
            let u = c2 as u32;
            if !(48 <= u && u <= 57) {
                break ;
            }
            proof {
                assert(fp.take(i + 1 - fstart).drop_last() =~= fp.take(i - fstart));
                assert(fp.take(i + 1 - fstart).last() == s@[i as int]);
            }
            if fcount < 5 {
                proof {
                    lemma_digits_val_nonneg(fp.take(fcount as int));
                }
                fr = fr * 10 + (u - 48) as u64;
                fcount = fcount + 1;
            }
            i = i + 1;
        }
        if i < n {
            // a stray character among the fractional digits
            proof {
                assert(!is_digit_char(fp[i - fstart]));
            }
            return Err(MillicentsError::ParseError);
        }
        if n == istart + 1 {
            // just a sign and a decimal point: not a single digit
            return Err(MillicentsError::ParseError);
        }
        proof {
            assert(fp.take(i - fstart) =~= fp);
            assert(fp.take(fcount as int) =~= fp.take(
                if fp.len() <= 5 {
                    fp.len() as int
                } else {
                    5int
                },
            ));
            lemma_digits_val_nonneg(ip);
            lemma_digits_val_nonneg(fp.take(fcount as int));
        }
        let scale: u64 = if fcount == 0 {
            100000
        } else if fcount == 1 {
            10000
        } else if fcount == 2 {
            1000
        } else if fcount == 3 {
            100
        } else if fcount == 4 {
            10
        } else {
            1
        };
        let fmc: u64 = fr * scale;
        let tot: u128 = acc * 100000 + fmc as u128;
        Self::clamp_amount(neg, tot, Ghost(digits_val(ip) * 100000 + frac_millicents(fp)))
    }

    /// Turn the counted magnitude into the result: a negative amount is
    /// refused, an overflowing one is capped at the largest representable
    /// count. `tot` is the magnitude with its integer part counted
    /// saturating; `v` the exact magnitude it stands for.
    fn clamp_amount(neg: bool, tot: u128, Ghost(v): Ghost<int>) -> (r: Result<
        Millicents,
        MillicentsError,
    >)
        requires
            v >= 0,
            v <= i64::MAX ==> tot == v,
            (v > i64::MAX) <==> (tot > i64::MAX),
        ensures
            neg && v > 0 ==> r == Err::<Millicents, MillicentsError>(MillicentsError::Negative),
            (!neg || v == 0) ==> (r matches Ok(m) && m.wf() && m.spec_raw() == if v > i64::MAX {
                i64::MAX as int
            } else {
                v
            }),
    {
        if neg {
            if tot > 0 {
                return Err(MillicentsError::Negative);
            }
            return Ok(Millicents(0));
        }
        if tot > 0x7fffffffffffffffu128 {
            return Ok(Millicents(i64::MAX));
        }
        Ok(Millicents(tot as i64))
    }

    /// The raw millicent count.
    pub fn raw(&self) -> (r: i64)
        ensures
            r == self.spec_raw(),
    {
        self.0
    }

    /// The zero amount.
    pub fn zero() -> (r: Self)
        ensures
            r.spec_raw() == 0,
            r.wf(),
    {
        Millicents(0)
    }

    /// Whether this is the zero amount.
    pub fn is_zero(&self) -> (r: bool)
        ensures
            r <==> self.spec_raw() == 0,
    {
        self.0 == 0
    }

    /// This amount as whole euros and rounded cents.
    pub fn to_euro_tuple(&self) -> (r: (i64, i64))
        ensures
            r.0 == Self::spec_millicents_to_euro(self.spec_raw()).0,
            r.1 == Self::spec_millicents_to_euro(self.spec_raw()).1,
    {
        Millicents::millicents_to_euro(self.0)
    }

    /// Split a raw millicent count into whole euros and rounded cents.
    pub fn millicents_to_euro(mc: i64) -> (r: (i64, i64))
        ensures
            r.0 == Self::spec_millicents_to_euro(mc as int).0,
            r.1 == Self::spec_millicents_to_euro(mc as int).1,
    {
        if mc >= 0 {
            let mag: u64 = mc as u64;
            let em: u64 = mag / 100000;
            proof {
                lemma_fundamental_div_mod(mag as int, 100000);
            }
            let rm: u64 = mag - em * 100000;
            let cents = divide_and_round(rm as i64, 1000);
            (em as i64, cents)
        } else {
            let mag: u64 = if mc == i64::MIN {
                9223372036854775808u64
            } else {
                (-mc) as u64
            };
            let em: u64 = mag / 100000;
            proof {
                lemma_fundamental_div_mod(mag as int, 100000);
            }
            let rm: u64 = mag - em * 100000;
            let cents = divide_and_round(-(rm as i64), 1000);
            (-(em as i64), cents)
        }
    }
}

} // verus!

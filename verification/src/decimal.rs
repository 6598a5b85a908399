//! An exact scaled-decimal number model.
//!
//! A [`Dec`] stands for the number `mantissa / 10^scale`, negated when `neg`
//! holds. Values are kept normalized (no trailing zero in the fraction, and a
//! unique representation of zero), so that two equal numbers are equal as
//! structures. Parsing a field into a `Dec` is done by the `rust_decimal`
//! crate behind a trusted wrapper; everything after that call is verified.

use vstd::prelude::*;

verus! {

use vstd::arithmetic::power::pow;

broadcast use {
    vstd::arithmetic::power::lemma_pow_positive,
    vstd::arithmetic::power::lemma_pow_adds,
};

/// One unfolding of the (opaque) power function at base 10.
pub proof fn lemma_pow10_unfold(e: nat)
    requires
        e > 0,
    ensures
        pow(10, e) == 10 * pow(10, (e - 1) as nat),
{
    reveal(pow);
}

/// The power function at exponent zero.
pub proof fn lemma_pow10_zero()
    ensures
        pow(10, 0) == 1,
{
    reveal(pow);
}

/// Upper bound (exclusive) on a mantissa: 2^96, the size of the underlying
/// 96-bit integer representation.
pub const MANTISSA_LIMIT: u128 = 0x1_0000_0000_0000_0000_0000_0000;

/// Largest scale a parsed decimal can carry.
pub const MAX_SCALE: u32 = 28;

/// A scaled base-10 number: its value is `mantissa / 10^scale`, negated when
/// `neg` holds.
#[derive(Debug, Clone, Copy, PartialEq, Eq, Structural)]
pub struct Dec {
    pub neg: bool,
    pub mantissa: u128,
    pub scale: u32,
}

/// The signed integer denoted by a sign flag and a magnitude.
pub open spec fn signed(neg: bool, m: nat) -> int {
    if neg {
        -(m as int)
    } else {
        m as int
    }
}

impl Dec {
    /// Well-formed: bounded and normalized, so equal numbers are equal values.
    pub open spec fn wf(self) -> bool {
        &&& self.mantissa < MANTISSA_LIMIT
        &&& self.scale <= MAX_SCALE
        &&& (self.mantissa == 0 ==> !self.neg && self.scale == 0)
        &&& (self.scale > 0 ==> self.mantissa % 10 != 0)
    }

    /// The signed mantissa of this value.
    pub open spec fn num(self) -> int {
        signed(self.neg, self.mantissa as nat)
    }
}

/// `d` denotes the same number as the raw triple `(neg, m, sc)`:
/// cross-multiplied mantissas agree.
pub open spec fn dec_denotes(d: Dec, neg: bool, m: nat, sc: nat) -> bool {
    d.num() * pow(10, sc) == signed(neg, m) * pow(10, d.scale as nat)
}

/// Strict numeric order on scaled decimals, by cross-multiplication.
pub open spec fn dec_lt(a: Dec, b: Dec) -> bool {
    a.num() * pow(10, b.scale as nat) < b.num() * pow(10, a.scale as nat)
}

/// Two well-formed decimals whose cross products agree are the same value.
pub proof fn lemma_dec_cross_eq(a: Dec, b: Dec)
    requires
        a.wf(),
        b.wf(),
        a.num() * pow(10, b.scale as nat) == b.num() * pow(10, a.scale as nat),
    ensures
        a == b,
{
    let am = a.mantissa as int;
    let bm = b.mantissa as int;
    let pa = pow(10, a.scale as nat);
    let pb = pow(10, b.scale as nat);
    assert(pa > 0 && pb > 0);
    if a.mantissa == 0 {
        assert(b.num() * pa == 0) by (nonlinear_arith)
            requires
                a.num() == 0,
                a.num() * pb == b.num() * pa,
        ;
        assert(b.num() == 0) by (nonlinear_arith)
            requires
                b.num() * pa == 0,
                pa > 0,
        ;
        assert(a == b);
    } else if b.mantissa == 0 {
        assert(a.num() * pb == 0) by (nonlinear_arith)
            requires
                b.num() == 0,
                a.num() * pb == b.num() * pa,
        ;
        assert(a.num() == 0) by (nonlinear_arith)
            requires
                a.num() * pb == 0,
                pb > 0,
        ;
        assert(a == b);
    } else {
        // Signs must agree: the cross products have the signs of the values.
        assert(a.neg == b.neg) by (nonlinear_arith)
            requires
                signed(a.neg, a.mantissa as nat) * pow(10, b.scale as nat) == signed(
                    b.neg,
                    b.mantissa as nat,
                ) * pow(10, a.scale as nat),
                pow(10, a.scale as nat) > 0,
                pow(10, b.scale as nat) > 0,
                a.mantissa > 0,
                b.mantissa > 0,
        ;
        assert(am * pb == bm * pa) by (nonlinear_arith)
            requires
                signed(a.neg, a.mantissa as nat) * pow(10, b.scale as nat) == signed(
                    b.neg,
                    b.mantissa as nat,
                ) * pow(10, a.scale as nat),
                a.neg == b.neg,
                am == a.mantissa as int,
                bm == b.mantissa as int,
                pa == pow(10, a.scale as nat),
                pb == pow(10, b.scale as nat),
        ;
        if a.scale <= b.scale {
            lemma_mag_eq(a.mantissa, a.scale, b.mantissa, b.scale);
        } else {
            lemma_mag_eq(b.mantissa, b.scale, a.mantissa, a.scale);
        }
        assert(a == b);
    }
}

/// Equal cross products of positive normalized magnitudes force equal
/// mantissas and scales.
proof fn lemma_mag_eq(am: u128, asc: u32, bm: u128, bsc: u32)
    requires
        am > 0,
        bm > 0,
        asc > 0 ==> am % 10 != 0,
        bsc > 0 ==> bm % 10 != 0,
        (am as int) * pow(10, bsc as nat) == (bm as int) * pow(10, asc as nat),
    ensures
        am == bm,
        asc == bsc,
    decreases (if asc > bsc { 1int } else { 0int }),
{
    let pa = pow(10, asc as nat);
    let pb = pow(10, bsc as nat);
    assert(pa > 0 && pb > 0);
    if asc <= bsc {
        let d = (bsc - asc) as nat;
        let pd = pow(10, d);
        assert(pd > 0);
        assert(pb == pa * pd) by {
            vstd::arithmetic::power::lemma_pow_adds(10, asc as nat, d);
        }
        assert((am as int) * pd == bm as int) by (nonlinear_arith)
            requires
                (am as int) * (pa * pd) == (bm as int) * pa,
                pa > 0,
        ;
        if d > 0 {
            let pd1 = pow(10, (d - 1) as nat);
            assert(pd == 10 * pd1) by {
                lemma_pow10_unfold(d);
            }
            assert(bm as int == ((am as int) * pd1) * 10) by (nonlinear_arith)
                requires
                    (am as int) * (10 * pd1) == bm as int,
            ;
            assert((bm as int) % 10 == 0) by {
                vstd::arithmetic::div_mod::lemma_mod_multiples_basic((am as int) * pd1, 10);
            }
            assert(false);
        }
        assert(pd == 1) by {
            lemma_pow10_zero();
        }
        assert(am == bm) by (nonlinear_arith)
            requires
                (am as int) * pd == bm as int,
                pd == 1,
        ;
        assert(asc == bsc);
    } else {
        assert((bm as int) * pow(10, asc as nat) == (am as int) * pow(10, bsc as nat));
        lemma_mag_eq(bm, bsc, am, asc);
    }
}

/// The strict decimal order is transitive.
pub proof fn lemma_dec_lt_trans(a: Dec, b: Dec, c: Dec)
    requires
        dec_lt(a, b),
        dec_lt(b, c),
    ensures
        dec_lt(a, c),
{
    let sa = a.num();
    let sb = b.num();
    let sc = c.num();
    let pa = pow(10, a.scale as nat);
    let pb = pow(10, b.scale as nat);
    let pc = pow(10, c.scale as nat);
    assert(pa > 0 && pb > 0 && pc > 0);
    assert(sa * pc < sc * pa) by (nonlinear_arith)
        requires
            sa * pb < sb * pa,
            sb * pc < sc * pb,
            pa > 0,
            pb > 0,
            pc > 0,
    ;
}

/// `10^e` as a machine integer.
pub fn pow10_u128(e: u32) -> (r: u128)
    requires
        e <= MAX_SCALE,
    ensures
        r as int == pow(10, e as nat),
        r > 0,
{
    proof {
        lemma_pow10_zero();
    }
    let mut i: u32 = 0;
    let mut r: u128 = 1;
    while i < e
        invariant
            i <= e <= MAX_SCALE,
            r as int == pow(10, i as nat),
        decreases e - i,
    {
        proof {
            lemma_pow10_unfold((i + 1) as nat);
            lemma_pow10_bound((i + 1) as nat);
        }
        r = r * 10;
        i = i + 1;
    }
    r
}

/// `10^e` stays below `2^96` for every scale this crate uses.
pub proof fn lemma_pow10_bound(e: nat)
    requires
        e <= 28,
    ensures
        0 < pow(10, e) <= 0x204F_CE5E_3E25_0261_1000_0000,
        pow(10, e) < MANTISSA_LIMIT as int,
{
    vstd::arithmetic::power::lemma_pow_increases(10, e, 28);
    assert(pow(10, 28) == 0x204F_CE5E_3E25_0261_1000_0000) by {
        vstd::arithmetic::power::lemma_pow0(10);
        reveal_with_fuel(pow, 29);
    }
}

/// Three-way comparison of two magnitudes `m1 / 10^s1` and `m2 / 10^s2`.
fn cmp_mag(m1: u128, s1: u32, m2: u128, s2: u32) -> (r: i8)
    requires
        s1 <= MAX_SCALE,
        s2 <= MAX_SCALE,
    ensures
        (r as int == -1) <==> (m1 as int) * pow(10, s2 as nat) < (m2 as int) * pow(
            10,
            s1 as nat,
        ),
        (r as int == 0) <==> (m1 as int) * pow(10, s2 as nat) == (m2 as int) * pow(
            10,
            s1 as nat,
        ),
        (r as int == 1) <==> (m1 as int) * pow(10, s2 as nat) > (m2 as int) * pow(
            10,
            s1 as nat,
        ),
    decreases (if s1 > s2 { 1int } else { 0int }),
{
    let ghost pa = pow(10, s1 as nat);
    let ghost pb = pow(10, s2 as nat);
    proof {
        assert(pa > 0 && pb > 0);
    }
    if s1 == s2 {
        let r: i8 = if m1 < m2 {
            -1
        } else if m1 == m2 {
            0
        } else {
            1
        };
        proof {
            assert(((m1 as int) < m2 as int <==> (m1 as int) * pb < (m2 as int) * pa) && ((
            m1 as int) == m2 as int <==> (m1 as int) * pb == (m2 as int) * pa))
                by (nonlinear_arith)
                requires
                    pa == pb,
                    pa > 0,
            ;
        }
        r
    } else if s1 < s2 {
        let d = s2 - s1;
        let p = pow10_u128(d);
        let ghost pd = pow(10, d as nat);
        proof {
            assert(pb == pa * pd) by {
                vstd::arithmetic::power::lemma_pow_adds(10, s1 as nat, d as nat);
            }
        }
        let q = u128::MAX / p;
        proof {
            vstd::arithmetic::div_mod::lemma_fundamental_div_mod(u128::MAX as int, p as int);
            vstd::arithmetic::div_mod::lemma_mod_bound(u128::MAX as int, p as int);
        }
        if m1 <= q {
            proof {
                assert((m1 as int) * (p as int) <= (q as int) * (p as int)) by (nonlinear_arith)
                    requires
                        m1 <= q,
                        p > 0,
                ;
                assert((q as int) * (p as int) <= u128::MAX as int) by (nonlinear_arith)
                    requires
                        u128::MAX as int == (p as int) * (q as int) + u128::MAX as int % (
                        p as int),
                        u128::MAX as int % (p as int) >= 0,
                ;
            }
            let v = m1 * p;
            let r: i8 = if v < m2 {
                -1
            } else if v == m2 {
                0
            } else {
                1
            };
            proof {
                assert(((v as int) < m2 as int <==> (m1 as int) * pb < (m2 as int) * pa) && ((
                v as int) == m2 as int <==> (m1 as int) * pb == (m2 as int) * pa) && ((v as int)
                    > m2 as int <==> (m1 as int) * pb > (m2 as int) * pa)) by (nonlinear_arith)
                    requires
                        v as int == (m1 as int) * (pd as int),
                        pd == p as int,
                        pb == pa * pd,
                        pa > 0,
                ;
            }
            r
        } else {
            proof {
                assert((m1 as int) * (p as int) > u128::MAX as int) by (nonlinear_arith)
                    requires
                        m1 as int > q as int,
                        u128::MAX as int == (p as int) * (q as int) + u128::MAX as int % (
                        p as int),
                        0 <= u128::MAX as int % (p as int) < p as int,
                        p > 0,
                ;
                assert((m1 as int) * pb > (m2 as int) * pa) by (nonlinear_arith)
                    requires
                        (m1 as int) * (p as int) > u128::MAX as int,
                        m2 as int <= u128::MAX as int,
                        pd == p as int,
                        pb == pa * pd,
                        pa > 0,
                ;
            }
            1
        }
    } else {
        let r2 = cmp_mag(m2, s2, m1, s1);
        if r2 == 1 {
            -1
        } else if r2 == -1 {
            1
        } else {
            0
        }
    }
}

/// Three-way comparison in the numeric order: `-1`, `0` or `1` as `a` is
/// below, equal to or above `b`.
pub fn dec_cmp(a: &Dec, b: &Dec) -> (r: i8)
    requires
        a.wf(),
        b.wf(),
    ensures
        (r as int == -1) <==> dec_lt(*a, *b),
        (r as int == 0) <==> *a == *b,
        (r as int == 1) <==> dec_lt(*b, *a),
{
    let ghost pa = pow(10, a.scale as nat);
    let ghost pb = pow(10, b.scale as nat);
    proof {
        assert(pa > 0 && pb > 0);
    }
    if a.neg != b.neg {
        proof {
            let pos = if a.neg {
                *b
            } else {
                *a
            };
            let negv = if a.neg {
                *a
            } else {
                *b
            };
            assert(negv.mantissa > 0);
            assert(negv.num() * pow(10, pos.scale as nat) < pos.num() * pow(
                10,
                negv.scale as nat,
            )) by (nonlinear_arith)
                requires
                    negv.num() < 0,
                    pos.num() >= 0,
                    pow(10, pos.scale as nat) > 0,
                    pow(10, negv.scale as nat) > 0,
            ;
        }
        if a.neg {
            -1
        } else {
            1
        }
    } else {
        let m = cmp_mag(a.mantissa, a.scale, b.mantissa, b.scale);
        proof {
            if (m as int) == 0 {
                assert(a.num() * pb == b.num() * pa) by (nonlinear_arith)
                    requires
                        a.neg == b.neg,
                        (a.mantissa as int) * pb == (b.mantissa as int) * pa,
                ;
                lemma_dec_cross_eq(*a, *b);
            } else {
                assert(*a != *b ==> a.num() * pb != b.num() * pa) by {
                    if a.num() * pb == b.num() * pa {
                        lemma_dec_cross_eq(*a, *b);
                    }
                }
            }
            assert((a.num() * pb < b.num() * pa) <==> (if a.neg {
                (a.mantissa as int) * pb > (b.mantissa as int) * pa
            } else {
                (a.mantissa as int) * pb < (b.mantissa as int) * pa
            })) by (nonlinear_arith)
                requires
                    a.neg == b.neg,
            ;
        }
        if a.neg {
            if m == 1 {
                -1
            } else if m == -1 {
                1
            } else {
                0
            }
        } else {
            m
        }
    }
}

/// Normalization at the specification level: strip trailing zero digits of
/// the fraction, and give zero its unique representation.
pub open spec fn spec_dec_norm(neg: bool, m: nat, sc: nat) -> Dec
    decreases sc,
{
    if sc > 0 && m % 10 == 0 {
        spec_dec_norm(neg, m / 10, (sc - 1) as nat)
    } else if m == 0 {
        Dec { neg: false, mantissa: 0, scale: 0 }
    } else {
        Dec { neg, mantissa: m as u128, scale: sc as u32 }
    }
}

/// Normalize a raw sign/mantissa/scale triple into the unique well-formed
/// representation of the same number.
pub fn dec_normalize(neg: bool, mantissa: u128, scale: u32) -> (d: Dec)
    requires
        mantissa < MANTISSA_LIMIT,
        scale <= MAX_SCALE,
    ensures
        d == spec_dec_norm(neg, mantissa as nat, scale as nat),
        d.wf(),
        dec_denotes(d, neg, mantissa as nat, scale as nat),
{
    let mut m = mantissa;
    let mut s = scale;
    while s > 0 && m % 10 == 0
        invariant
            s <= scale <= MAX_SCALE,
            m <= mantissa < MANTISSA_LIMIT,
            (m as int) * pow(10, scale as nat) == (mantissa as int) * pow(10, s as nat),
            spec_dec_norm(neg, m as nat, s as nat) == spec_dec_norm(
                neg,
                mantissa as nat,
                scale as nat,
            ),
        decreases s,
    {
        proof {
            let m1 = (m / 10) as int;
            assert(m == 10 * m1);
            assert(pow(10, s as nat) == 10 * pow(10, (s - 1) as nat)) by {
                lemma_pow10_unfold(s as nat);
            }
            assert(m1 * pow(10, scale as nat) == (mantissa as int) * pow(10, (s - 1) as nat))
                by (nonlinear_arith)
                requires
                    (10 * m1) * pow(10, scale as nat) == (mantissa as int) * (10 * pow(
                        10,
                        (s - 1) as nat,
                    )),
            ;
        }
        m = m / 10;
        s = s - 1;
    }
    let ghost ps = pow(10, s as nat);
    let ghost pscale = pow(10, scale as nat);
    proof {
        assert(ps > 0 && pscale > 0);
    }
    if m == 0 {
        proof {
            assert((mantissa as int) * ps == 0);
            assert(mantissa as int == 0) by (nonlinear_arith)
                requires
                    (mantissa as int) * ps == 0,
                    ps > 0,
            ;
        }
        Dec { neg: false, mantissa: 0, scale: 0 }
    } else {
        let d = Dec { neg, mantissa: m, scale: s };
        proof {
            assert(d.num() * pscale == signed(neg, mantissa as nat) * ps) by (nonlinear_arith)
                requires
                    (m as int) * pscale == (mantissa as int) * ps,
                    d.num() == signed(neg, m as nat),
                    signed(neg, m as nat) == if neg {
                        -(m as int)
                    } else {
                        m as int
                    },
                    signed(neg, mantissa as nat) == if neg {
                        -(mantissa as int)
                    } else {
                        mantissa as int
                    },
            ;
        }
        d
    }
}

/// The numeric negation at the specification level; zero stays zero.
pub open spec fn spec_dec_neg(d: Dec) -> Dec {
    if d.mantissa == 0 {
        Dec { neg: false, mantissa: 0, scale: 0 }
    } else {
        Dec { neg: !d.neg, mantissa: d.mantissa, scale: d.scale }
    }
}

/// The numeric negation of a well-formed decimal; zero stays zero.
pub fn dec_neg(d: &Dec) -> (r: Dec)
    requires
        d.wf(),
    ensures
        r == spec_dec_neg(*d),
        r.wf(),
        r.scale == d.scale,
        r.mantissa == d.mantissa,
        r.num() == -d.num(),
{
    if d.mantissa == 0 {
        Dec { neg: false, mantissa: 0, scale: 0 }
    } else {
        Dec { neg: !d.neg, mantissa: d.mantissa, scale: d.scale }
    }
}

/// What `rust_decimal` parses a field into: the sign, 96-bit magnitude and
/// scale of the exact base-10 reading of the text, or nothing when the text is
/// not a decimal number it accepts.
pub uninterp spec fn decimal_from_str(s: Seq<char>) -> Option<(bool, u128, u32)>;

/// Relies on rust_decimal's `Decimal::from_str` together with the accessors
/// `is_sign_negative`, `mantissa` and `scale`: the parsed number is
/// `mantissa / 10^scale` with the given sign, the magnitude fits in 96 bits
/// and the scale is at most 28.
#[verifier::external_body]
fn parse_decimal_raw(s: &str) -> (r: Option<(bool, u128, u32)>)
    ensures
        r == decimal_from_str(s@),
        r matches Some(t) ==> t.1 < MANTISSA_LIMIT && t.2 <= MAX_SCALE,
{
    match s.parse::<rust_decimal::Decimal>() {
        Ok(d) => Some((d.is_sign_negative(), d.mantissa().unsigned_abs(), d.scale())),
        Err(_) => None,
    }
}

/// Parse a text field into a normalized decimal value.
pub fn dec_from_str(s: &str) -> (r: Option<Dec>)
    ensures
        (r is Some) == (decimal_from_str(s@) is Some),
        r matches Some(d) ==> d.wf() && (decimal_from_str(s@) matches Some(t) && d
            == spec_dec_norm(t.0, t.1 as nat, t.2 as nat) && dec_denotes(
            d,
            t.0,
            t.1 as nat,
            t.2 as nat,
        )),
{
    match parse_decimal_raw(s) {
        Some((neg, m, sc)) => Some(dec_normalize(neg, m, sc)),
        None => None,
    }
}

} // verus!

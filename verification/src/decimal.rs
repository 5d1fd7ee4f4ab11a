//! Exact decimal numbers.
//!
//! A [`Dec`] holds `mantissa / 10^scale`. Values are kept normalized (no
//! trailing zero in the fraction, zero has scale 0) and the scale is capped
//! at [`MAX_SCALE`] fractional digits, so equal values have equal fields and
//! every intermediate product of a mantissa and a power of ten fits in
//! 128 bits. Quotients are computed to [`DIV_SCALE`] fractional digits,
//! truncated toward zero.

use crate::text::{append_frac, append_u64, dec_digits, frac_digits, push_char};
use vstd::arithmetic::div_mod::{lemma_fundamental_div_mod, lemma_fundamental_div_mod_converse};
use vstd::prelude::*;

verus! {

/// Most fractional digits a stored decimal may carry.
pub const MAX_SCALE: u32 = 18;

/// Fractional digits computed for a quotient of decimals.
pub const DIV_SCALE: u32 = 9;

/// The mathematical content of a decimal: the value `m / 10^s`.
pub struct DecM {
    pub m: int,
    pub s: nat,
}

pub open spec fn pow10(e: nat) -> nat
    decreases e,
{
    if e == 0 {
        1
    } else {
        10 * pow10((e - 1) as nat)
    }
}

/// Normal form: strip trailing zeros from the fraction; zero gets scale 0.
pub open spec fn dec_norm(m: int, s: nat) -> DecM
    decreases s,
{
    if m == 0 {
        DecM { m: 0, s: 0 }
    } else if s == 0 {
        DecM { m: m, s: 0 }
    } else if m % 10 == 0 {
        dec_norm(m / 10, (s - 1) as nat)
    } else {
        DecM { m: m, s: s }
    }
}

pub open spec fn dec_is_norm(d: DecM) -> bool {
    &&& (d.m == 0 ==> d.s == 0)
    &&& (d.s > 0 ==> d.m % 10 != 0)
}

/// Whether a normalized value is representable in a [`Dec`].
pub open spec fn dec_fits(d: DecM) -> bool {
    &&& i64::MIN <= d.m <= i64::MAX
    &&& d.s <= MAX_SCALE
}

/// `a`'s mantissa aligned to the larger scale `s`.
pub open spec fn aligned(a: DecM, s: nat) -> int {
    a.m * pow10((s - a.s) as nat)
}

pub open spec fn max_scale_of(a: DecM, b: DecM) -> nat {
    if a.s >= b.s {
        a.s
    } else {
        b.s
    }
}

pub open spec fn dec_add_m(a: DecM, b: DecM) -> DecM {
    let s = max_scale_of(a, b);
    dec_norm(aligned(a, s) + aligned(b, s), s)
}

pub open spec fn dec_sub_m(a: DecM, b: DecM) -> DecM {
    let s = max_scale_of(a, b);
    dec_norm(aligned(a, s) - aligned(b, s), s)
}

pub open spec fn dec_neg_m(a: DecM) -> DecM {
    DecM { m: -a.m, s: a.s }
}

pub open spec fn dec_mul_m(a: DecM, b: DecM) -> DecM {
    dec_norm(a.m * b.m, (a.s + b.s) as nat)
}

/// Value comparison by cross-aligned mantissas: `a <= b`.
pub open spec fn dec_le_m(a: DecM, b: DecM) -> bool {
    let s = max_scale_of(a, b);
    aligned(a, s) <= aligned(b, s)
}

pub open spec fn dec_eq_m(a: DecM, b: DecM) -> bool {
    let s = max_scale_of(a, b);
    aligned(a, s) == aligned(b, s)
}

pub open spec fn dec_lt_m(a: DecM, b: DecM) -> bool {
    let s = max_scale_of(a, b);
    aligned(a, s) < aligned(b, s)
}

/// Quotient of decimals: the exact quotient's first [`DIV_SCALE`]
/// fractional digits, truncated toward zero.
pub open spec fn dec_div_m(a: DecM, b: DecM) -> DecM {
    let s = max_scale_of(a, b);
    let na = abs_int(aligned(a, s));
    let nb = abs_int(aligned(b, s));
    let q = (na * pow10(DIV_SCALE as nat)) / nb;
    let m = if (a.m < 0) != (b.m < 0) {
        -q
    } else {
        q
    };
    dec_norm(m, DIV_SCALE as nat)
}

/// Remainder of decimals, with the dividend's sign (truncated semantics):
/// `a - trunc(a / b) * b` computed exactly on the aligned mantissas.
pub open spec fn dec_rem_m(a: DecM, b: DecM) -> DecM {
    let s = max_scale_of(a, b);
    let na = abs_int(aligned(a, s));
    let nb = abs_int(aligned(b, s));
    let r = na % nb;
    let m = if a.m < 0 {
        -r
    } else {
        r
    };
    dec_norm(m, s)
}

/// The textual form of a decimal: the sign, the integer part's digits,
/// and, when there is a fraction, a point and exactly `s` fraction digits.
/// Normalized values never show trailing fraction zeros, and a whole
/// number shows no point at all.
pub open spec fn dec_render(d: DecM) -> Seq<char> {
    let sign: Seq<char> = if d.m < 0 {
        seq!['-']
    } else {
        Seq::empty()
    };
    let mag = abs_int(d.m) as nat;
    if d.s == 0 {
        sign + dec_digits(mag)
    } else {
        sign + dec_digits(mag / pow10(d.s)) + seq!['.'] + frac_digits(mag % pow10(d.s), d.s)
    }
}

/// An exact decimal number, `mantissa / 10^scale`, kept normalized.
#[derive(Debug, Clone, Copy)]
pub struct Dec {
    mantissa: i64,
    scale: u32,
}

impl View for Dec {
    type V = DecM;

    closed spec fn view(&self) -> DecM {
        DecM { m: self.mantissa as int, s: self.scale as nat }
    }
}

impl Dec {
    /// Every stored decimal is normalized with a bounded scale.
    #[verifier::type_invariant]
    pub open spec fn inv(self) -> bool {
        dec_is_norm(self@) && self@.s <= MAX_SCALE
    }
}

pub(crate) proof fn lemma_pow10_pos(e: nat)
    ensures
        pow10(e) >= 1,
    decreases e,
{
    if e > 0 {
        lemma_pow10_pos((e - 1) as nat);
    }
}

pub(crate) proof fn lemma_pow10_le(e1: nat, e2: nat)
    requires
        e1 <= e2,
    ensures
        pow10(e1) <= pow10(e2),
    decreases e2,
{
    if e1 < e2 {
        lemma_pow10_le(e1, (e2 - 1) as nat);
        lemma_pow10_pos((e2 - 1) as nat);
    }
}

pub(crate) proof fn lemma_pow10_18()
    ensures
        pow10(18) == 1_000_000_000_000_000_000,
{
    reveal_with_fuel(pow10, 19);
}

/// dec_norm only strips factors of ten, so it keeps the mantissa's sign,
/// never grows its magnitude, never grows the scale, and lands in normal
/// form.
proof fn lemma_norm_props(m: int, s: nat)
    ensures
        dec_is_norm(dec_norm(m, s)),
        dec_norm(m, s).s <= s,
        m >= 0 ==> 0 <= dec_norm(m, s).m <= m,
        m < 0 ==> m <= dec_norm(m, s).m < 0,
    decreases s,
{
    if m != 0 && s > 0 && m % 10 == 0 {
        assert(m >= 0 ==> 0 <= m / 10 <= m) by (nonlinear_arith)
            requires
                m != 0,
                m % 10 == 0,
        ;
        assert(m < 0 ==> m <= m / 10 < 0) by (nonlinear_arith)
            requires
                m != 0,
                m % 10 == 0,
        ;
        lemma_norm_props(m / 10, (s - 1) as nat);
    }
}

pub open spec fn abs_int(m: int) -> int {
    if m >= 0 {
        m
    } else {
        -m
    }
}

proof fn lemma_mul_abs_bound(a: int, ab: int, p: int, pb: int)
    by (nonlinear_arith)
    requires
        -ab <= a <= ab,
        -pb <= p <= pb,
        0 <= pb,
    ensures
        -(ab * pb) <= a * p <= ab * pb,
{
}

/// Stripping the trailing zeros can be undone: scaling the normal form
/// back up recovers the original mantissa.
proof fn lemma_norm_reconstruct(m: int, s: nat)
    ensures
        dec_norm(m, s).m * pow10((s - dec_norm(m, s).s) as nat) == m,
    decreases s,
{
    if m == 0 {
        assert(dec_norm(m, s).m == 0 && dec_norm(m, s).s == 0);
        assert(0 * pow10((s - dec_norm(m, s).s) as nat) == 0);
    } else if s > 0 && m % 10 == 0 {
        lemma_norm_reconstruct(m / 10, (s - 1) as nat);
        lemma_norm_props(m / 10, (s - 1) as nat);
        assert(dec_norm(m, s) == dec_norm(m / 10, (s - 1) as nat));
        let d = dec_norm(m, s);
        let e = ((s - 1) - d.s) as nat;
        assert(pow10((e + 1) as nat) == 10 * pow10(e));
        assert(d.m * pow10(e) == m / 10);
        assert(m / 10 * 10 == m) by (nonlinear_arith)
            requires
                m % 10 == 0,
        ;
        assert(d.m * pow10((e + 1) as nat) == m) by (nonlinear_arith)
            requires
                pow10((e + 1) as nat) == 10 * pow10(e),
                d.m * pow10(e) == m / 10,
                m / 10 * 10 == m,
        ;
        assert((s - d.s) as nat == (e + 1) as nat);
    } else {
        assert(dec_norm(m, s) == (DecM { m: m, s: s }));
        assert(pow10((s - dec_norm(m, s).s) as nat) == 1);
        assert(m * 1 == m) by (nonlinear_arith);
    }
}

/// Executable power of ten, up to the largest exponent alignment can need.
fn pow10_i128(e: u32) -> (r: i128)
    requires
        e <= 36,
    ensures
        r == pow10(e as nat),
{
    proof {
        lemma_pow10_36();
    }
    let mut r: i128 = 1;
    let mut i: u32 = 0;
    while i < e
        invariant
            i <= e <= 36,
            r == pow10(i as nat),
            pow10(36) == 1_000_000_000_000_000_000_000_000_000_000_000_000,
        decreases e - i,
    {
        proof {
            lemma_pow10_le((i + 1) as nat, 36);
        }
        r = r * 10;
        i = i + 1;
    }
    r
}

/// Executable power of ten within a stored decimal's scale.
pub(crate) fn pow10_u64(e: u32) -> (r: u64)
    requires
        e <= MAX_SCALE,
    ensures
        r == pow10(e as nat),
{
    proof {
        lemma_pow10_18();
    }
    let mut r: u64 = 1;
    let mut i: u32 = 0;
    while i < e
        invariant
            i <= e <= 18,
            r == pow10(i as nat),
            pow10(18) == 1_000_000_000_000_000_000,
        decreases e - i,
    {
        proof {
            lemma_pow10_le((i + 1) as nat, 18);
        }
        r = r * 10;
        i = i + 1;
    }
    r
}

proof fn lemma_pow10_9()
    ensures
        pow10(9) == 1_000_000_000,
{
    reveal_with_fuel(pow10, 10);
}

proof fn lemma_pow10_36()
    ensures
        pow10(36) == 1_000_000_000_000_000_000_000_000_000_000_000_000,
{
    reveal_with_fuel(pow10, 37);
}

/// Normalizes a 128-bit mantissa/scale pair.
fn norm128(m: i128, s: u32) -> (r: (i128, u32))
    ensures
        (DecM { m: r.0 as int, s: r.1 as nat }) == dec_norm(m as int, s as nat),
        r.1 <= s,
    decreases s,
{
    if m == 0 {
        (0, 0)
    } else if s == 0 {
        (m, 0)
    } else if m % 10 == 0 {
        let r = norm128(m / 10, s - 1);
        proof {
            lemma_norm_props(m as int / 10, (s - 1) as nat);
        }
        (r.0, r.1)
    } else {
        (m, s)
    }
}

impl Dec {
    /// Builds the decimal `mantissa / 10^scale`, normalizing it.
    pub fn new(mantissa: i64, scale: u32) -> (r: Dec)
        requires
            scale <= MAX_SCALE,
        ensures
            r@ == dec_norm(mantissa as int, scale as nat),
    {
        let (m, s) = norm128(mantissa as i128, scale);
        proof {
            lemma_norm_props(mantissa as int, scale as nat);
        }
        Dec { mantissa: m as i64, scale: s }
    }

    /// The integer `i` as a decimal (scale 0).
    pub fn from_int(i: i64) -> (r: Dec)
        ensures
            r@ == (DecM { m: i as int, s: 0 }),
    {
        Dec { mantissa: i, scale: 0 }
    }

    pub fn mantissa(&self) -> (m: i64)
        ensures
            m == self@.m,
    {
        self.mantissa
    }

    pub fn scale(&self) -> (s: u32)
        ensures
            s == self@.s,
    {
        self.scale
    }

    /// Exact sum, or `None` when it leaves the representable range.
    pub fn checked_add(&self, other: &Dec) -> (r: Option<Dec>)
        ensures
            r is Some <==> dec_fits(dec_add_m(self@, other@)),
            r is Some ==> (r->0)@ == dec_add_m(self@, other@),
    {
        proof {
            use_type_invariant(self);
            use_type_invariant(other);
        }
        let s = if self.scale >= other.scale {
            self.scale
        } else {
            other.scale
        };
        let am = align128(self.mantissa, self.scale, s);
        let bm = align128(other.mantissa, other.scale, s);
        let (m2, s2) = norm128(am + bm, s);
        proof {
            lemma_norm_props((am + bm) as int, s as nat);
        }
        if i64::MIN as i128 <= m2 && m2 <= i64::MAX as i128 {
            Some(Dec { mantissa: m2 as i64, scale: s2 })
        } else {
            None
        }
    }

    /// Exact difference, or `None` when it leaves the representable range.
    pub fn checked_sub(&self, other: &Dec) -> (r: Option<Dec>)
        ensures
            r is Some <==> dec_fits(dec_sub_m(self@, other@)),
            r is Some ==> (r->0)@ == dec_sub_m(self@, other@),
    {
        proof {
            use_type_invariant(self);
            use_type_invariant(other);
        }
        let s = if self.scale >= other.scale {
            self.scale
        } else {
            other.scale
        };
        let am = align128(self.mantissa, self.scale, s);
        let bm = align128(other.mantissa, other.scale, s);
        let (m2, s2) = norm128(am - bm, s);
        proof {
            lemma_norm_props((am - bm) as int, s as nat);
        }
        if i64::MIN as i128 <= m2 && m2 <= i64::MAX as i128 {
            Some(Dec { mantissa: m2 as i64, scale: s2 })
        } else {
            None
        }
    }

    /// Exact negation, or `None` when it leaves the representable range.
    pub fn checked_neg(&self) -> (r: Option<Dec>)
        ensures
            r is Some <==> dec_fits(dec_neg_m(self@)),
            r is Some ==> (r->0)@ == dec_neg_m(self@),
    {
        proof {
            use_type_invariant(self);
        }
        if self.mantissa == i64::MIN {
            None
        } else {
            proof {
                assert(self@.m % 10 != 0 ==> (-self@.m) % 10 != 0) by (nonlinear_arith);
            }
            Some(Dec { mantissa: -self.mantissa, scale: self.scale })
        }
    }

    /// Exact product, or `None` when it leaves the representable range.
    pub fn checked_mul(&self, other: &Dec) -> (r: Option<Dec>)
        ensures
            r is Some <==> dec_fits(dec_mul_m(self@, other@)),
            r is Some ==> (r->0)@ == dec_mul_m(self@, other@),
    {
        proof {
            use_type_invariant(self);
            use_type_invariant(other);
            lemma_mul_abs_bound(
                self@.m,
                0x8000_0000_0000_0000,
                other@.m,
                0x8000_0000_0000_0000,
            );
        }
        let prod = self.mantissa as i128 * other.mantissa as i128;
        let (m2, s2) = norm128(prod, self.scale + other.scale);
        proof {
            lemma_norm_props(prod as int, (self.scale + other.scale) as nat);
        }
        if i64::MIN as i128 <= m2 && m2 <= i64::MAX as i128 && s2 <= MAX_SCALE {
            Some(Dec { mantissa: m2 as i64, scale: s2 })
        } else {
            None
        }
    }

    /// Value equality (the same number, whatever the representations).
    pub fn eq_val(&self, other: &Dec) -> (r: bool)
        ensures
            r == dec_eq_m(self@, other@),
    {
        proof {
            use_type_invariant(self);
            use_type_invariant(other);
        }
        let s = if self.scale >= other.scale {
            self.scale
        } else {
            other.scale
        };
        align128(self.mantissa, self.scale, s) == align128(other.mantissa, other.scale, s)
    }

    /// Value order: `self < other`.
    pub fn lt_val(&self, other: &Dec) -> (r: bool)
        ensures
            r == dec_lt_m(self@, other@),
    {
        proof {
            use_type_invariant(self);
            use_type_invariant(other);
        }
        let s = if self.scale >= other.scale {
            self.scale
        } else {
            other.scale
        };
        align128(self.mantissa, self.scale, s) < align128(other.mantissa, other.scale, s)
    }

    /// Quotient truncated to [`DIV_SCALE`] fractional digits, or `None`
    /// when it leaves the representable range.
    #[verifier::loop_isolation(false)]
    pub fn checked_div(&self, other: &Dec) -> (r: Option<Dec>)
        requires
            other@.m != 0,
        ensures
            r is Some <==> dec_fits(dec_div_m(self@, other@)),
            r is Some ==> (r->0)@ == dec_div_m(self@, other@),
    {
        proof {
            use_type_invariant(self);
            use_type_invariant(other);
        }
        let s = if self.scale >= other.scale {
            self.scale
        } else {
            other.scale
        };
        let am = align128(self.mantissa, self.scale, s);
        let bm = align128(other.mantissa, other.scale, s);
        proof {
            lemma_pow10_pos((s - self.scale) as nat);
            lemma_pow10_pos((s - other.scale) as nat);
            assert((self@.m < 0) == (am < 0) && (self@.m == 0) == (am == 0)) by (nonlinear_arith)
                requires
                    am as int == self@.m * pow10((s - self@.s) as nat),
                    pow10((s - self@.s) as nat) >= 1,
            ;
            assert((other@.m < 0) == (bm < 0) && bm != 0) by (nonlinear_arith)
                requires
                    bm as int == other@.m * pow10((s - other@.s) as nat),
                    pow10((s - other@.s) as nat) >= 1,
                    other@.m != 0,
            ;
        }
        let neg = (am < 0) != (bm < 0);
        let ua: u128 = if am < 0 {
            (-am) as u128
        } else {
            am as u128
        };
        let ub: u128 = if bm < 0 {
            (-bm) as u128
        } else {
            bm as u128
        };
        let ghost na = abs_int(aligned(self@, s as nat));
        let ghost nb = abs_int(aligned(other@, s as nat));
        proof {
            assert(ua as int == na && ub as int == nb && nb >= 1);
            assert(na * pow10(0) == na) by (nonlinear_arith)
                requires
                    pow10(0) == 1,
            ;
        }
        let mut acc: u128 = ua / ub;
        let mut rem: u128 = ua % ub;
        let mut k: u32 = 0;
        while k < DIV_SCALE
            invariant
                k <= DIV_SCALE,
                1 <= ub as int <= 0x8000_0000_0000_0000 * 1_000_000_000_000_000_000,
                ua as int <= 0x8000_0000_0000_0000 * 1_000_000_000_000_000_000,
                ua as int == na,
                ub as int == nb,
                acc as int == (na * pow10(k as nat)) / nb,
                rem as int == (na * pow10(k as nat)) % nb,
                rem < ub,
            decreases DIV_SCALE - k,
        {
            let ghost x = na * pow10(k as nat);
            proof {
                lemma_pow10_pos(k as nat);
                assert(x >= 0) by (nonlinear_arith)
                    requires
                        na >= 0,
                        pow10(k as nat) >= 1,
                        x == na * pow10(k as nat),
                ;
            }
            if acc > (u128::MAX - 9) / 10 {
                proof {
                    let e = (DIV_SCALE - k) as nat;
                    lemma_div_pow10_ge(x, nb, e);
                    lemma_pow10_adds(k as nat, e);
                    lemma_pow10_pos(e);
                    assert(x * pow10(e) == na * pow10(DIV_SCALE as nat)) by (nonlinear_arith)
                        requires
                            x == na * pow10(k as nat),
                            pow10(k as nat + e) == pow10(k as nat) * pow10(e),
                            k as nat + e == DIV_SCALE as nat,
                    ;
                    let q = (na * pow10(DIV_SCALE as nat)) / nb;
                    assert(q >= acc as int * 1) by (nonlinear_arith)
                        requires
                            q >= (acc as int) * pow10(e),
                            pow10(e) >= 1,
                            acc as int >= 0,
                    ;
                    lemma_pow10_9();
                    let mq = if (self@.m < 0) != (other@.m < 0) {
                        -q
                    } else {
                        q
                    };
                    lemma_norm_too_big(mq, DIV_SCALE as nat);
                }
                return None;
            }
            let t = rem * 10;
            let d = t / ub;
            proof {
                lemma_div_digit_step(x, nb);
                assert(na * pow10((k + 1) as nat) == x * 10) by (nonlinear_arith)
                    requires
                        pow10((k + 1) as nat) == 10 * pow10(k as nat),
                        x == na * pow10(k as nat),
                ;
            }
            acc = acc * 10 + d;
            rem = t % ub;
            k = k + 1;
        }
        let ghost q = (na * pow10(DIV_SCALE as nat)) / nb;
        let ghost mq = if (self@.m < 0) != (other@.m < 0) {
            -q
        } else {
            q
        };
        if acc > i128::MAX as u128 {
            proof {
                lemma_pow10_9();
                lemma_norm_too_big(mq, DIV_SCALE as nat);
            }
            return None;
        }
        let m = if neg {
            -(acc as i128)
        } else {
            acc as i128
        };
        let (m2, s2) = norm128(m, DIV_SCALE);
        proof {
            lemma_norm_props(m as int, DIV_SCALE as nat);
        }
        if i64::MIN as i128 <= m2 && m2 <= i64::MAX as i128 {
            Some(Dec { mantissa: m2 as i64, scale: s2 })
        } else {
            None
        }
    }

    /// Remainder with the dividend's sign, or `None` when it leaves the
    /// representable range.
    pub fn checked_rem(&self, other: &Dec) -> (r: Option<Dec>)
        requires
            other@.m != 0,
        ensures
            r is Some <==> dec_fits(dec_rem_m(self@, other@)),
            r is Some ==> (r->0)@ == dec_rem_m(self@, other@),
    {
        proof {
            use_type_invariant(self);
            use_type_invariant(other);
        }
        let s = if self.scale >= other.scale {
            self.scale
        } else {
            other.scale
        };
        let am = align128(self.mantissa, self.scale, s);
        let bm = align128(other.mantissa, other.scale, s);
        proof {
            lemma_pow10_pos((s - self.scale) as nat);
            lemma_pow10_pos((s - other.scale) as nat);
            assert(bm != 0) by (nonlinear_arith)
                requires
                    bm as int == other@.m * pow10((s - other@.s) as nat),
                    pow10((s - other@.s) as nat) >= 1,
                    other@.m != 0,
            ;
        }
        let ua: u128 = if am < 0 {
            (-am) as u128
        } else {
            am as u128
        };
        let ub: u128 = if bm < 0 {
            (-bm) as u128
        } else {
            bm as u128
        };
        let r0 = ua % ub;
        let m = if self.mantissa < 0 {
            -(r0 as i128)
        } else {
            r0 as i128
        };
        let (m2, s2) = norm128(m, s);
        proof {
            lemma_norm_props(m as int, s as nat);
        }
        if i64::MIN as i128 <= m2 && m2 <= i64::MAX as i128 {
            Some(Dec { mantissa: m2 as i64, scale: s2 })
        } else {
            None
        }
    }

    /// The number's textual form.
    pub fn to_text(&self) -> (t: String)
        ensures
            t@ == dec_render(self@),
    {
        proof {
            use_type_invariant(self);
        }
        let mut t = String::new();
        let mag: u64 = if self.mantissa < 0 {
            push_char(&mut t, '-');
            (-(self.mantissa as i128)) as u64
        } else {
            self.mantissa as u64
        };
        if self.scale == 0 {
            append_u64(&mut t, mag);
        } else {
            let p = pow10_u64(self.scale);
            proof {
                lemma_pow10_pos(self.scale as nat);
            }
            append_u64(&mut t, mag / p);
            push_char(&mut t, '.');
            append_frac(&mut t, mag % p, self.scale);
        }
        proof {
            assert(t@ =~= dec_render(self@));
        }
        t
    }

    /// Value order: `self <= other`.
    pub fn le_val(&self, other: &Dec) -> (r: bool)
        ensures
            r == dec_le_m(self@, other@),
    {
        proof {
            use_type_invariant(self);
            use_type_invariant(other);
        }
        let s = if self.scale >= other.scale {
            self.scale
        } else {
            other.scale
        };
        align128(self.mantissa, self.scale, s) <= align128(other.mantissa, other.scale, s)
    }
}

/// One digit of long division: dividing a ten-fold dividend folds the next
/// quotient digit out of the previous remainder.
proof fn lemma_div_digit_step(x: int, b: int)
    requires
        x >= 0,
        b > 0,
    ensures
        (x * 10) / b == 10 * (x / b) + ((x % b) * 10) / b,
        (x * 10) % b == ((x % b) * 10) % b,
        0 <= ((x % b) * 10) / b < 10,
{
    let q = x / b;
    let r = x % b;
    lemma_fundamental_div_mod(x, b);
    let d = (r * 10) / b;
    let r2 = (r * 10) % b;
    lemma_fundamental_div_mod(r * 10, b);
    assert(x * 10 == (10 * q + d) * b + r2) by (nonlinear_arith)
        requires
            x == b * q + r,
            r * 10 == b * d + r2,
    ;
    lemma_fundamental_div_mod_converse(x * 10, b, 10 * q + d, r2);
    assert(d < 10) by (nonlinear_arith)
        requires
            r < b,
            b > 0,
            r * 10 == b * d + r2,
            r2 >= 0,
            d >= 0,
    ;
}

proof fn lemma_pow10_adds(a: nat, b: nat)
    ensures
        pow10(a + b) == pow10(a) * pow10(b),
    decreases a,
{
    if a == 0 {
        assert(1 * pow10(b) == pow10(b)) by (nonlinear_arith);
    } else {
        lemma_pow10_adds((a - 1) as nat, b);
        assert(10 * pow10(((a - 1) + b) as nat) == (10 * pow10((a - 1) as nat)) * pow10(b))
            by (nonlinear_arith)
            requires
                pow10(((a - 1) + b) as nat) == pow10((a - 1) as nat) * pow10(b),
        ;
    }
}

/// Scaling the dividend up by a power of ten scales the quotient up at
/// least as much.
proof fn lemma_div_pow10_ge(x: int, b: int, e: nat)
    requires
        x >= 0,
        b > 0,
    ensures
        (x * pow10(e)) / b >= (x / b) * pow10(e),
        (x * pow10(e)) / b >= 0,
    decreases e,
{
    lemma_pow10_pos(e);
    if e == 0 {
        assert(x * 1 == x && (x / b) * 1 == x / b) by (nonlinear_arith);
        assert(x / b >= 0) by {
            lemma_fundamental_div_mod(x, b);
            assert(x / b >= 0) by (nonlinear_arith)
                requires
                    x == b * (x / b) + x % b,
                    0 <= x % b < b,
                    x >= 0,
                    b > 0,
            ;
        }
    } else {
        lemma_div_pow10_ge(x, b, (e - 1) as nat);
        let y = x * pow10((e - 1) as nat);
        assert(y >= 0) by (nonlinear_arith)
            requires
                x >= 0,
                pow10((e - 1) as nat) >= 1,
                y == x * pow10((e - 1) as nat),
        ;
        lemma_div_digit_step(y, b);
        assert(x * pow10(e) == y * 10) by (nonlinear_arith)
            requires
                pow10(e) == 10 * pow10((e - 1) as nat),
                y == x * pow10((e - 1) as nat),
        ;
        assert(10 * (y / b) >= 10 * ((x / b) * pow10((e - 1) as nat))) by (nonlinear_arith)
            requires
                y / b >= (x / b) * pow10((e - 1) as nat),
        ;
        assert(10 * ((x / b) * pow10((e - 1) as nat)) == (x / b) * pow10(e)) by (nonlinear_arith)
            requires
                pow10(e) == 10 * pow10((e - 1) as nat),
        ;
    }
}

/// A mantissa too big to be undone by stripping `s` zeros cannot land in
/// the representable range.
proof fn lemma_norm_too_big(m: int, s: nat)
    requires
        abs_int(m) > 0x8000_0000_0000_0000 * pow10(s),
    ensures
        !dec_fits(dec_norm(m, s)),
{
    lemma_norm_reconstruct(m, s);
    lemma_norm_props(m, s);
    let d = dec_norm(m, s);
    let e = (s - d.s) as nat;
    lemma_pow10_le(e, s);
    lemma_pow10_pos(e);
    if -0x8000_0000_0000_0000 <= d.m <= 0x8000_0000_0000_0000 {
        assert(abs_int(d.m * pow10(e)) <= 0x8000_0000_0000_0000 * pow10(s)) by (nonlinear_arith)
            requires
                -0x8000_0000_0000_0000 <= d.m <= 0x8000_0000_0000_0000,
                0 < pow10(e) <= pow10(s),
        ;
        assert(false);
    }
}

/// The aligned mantissas both ops below work on stay within
/// `2^63 * 10^18`, comfortably inside 128 bits.
fn align128(m: i64, from: u32, to: u32) -> (r: i128)
    requires
        from <= to,
        to <= MAX_SCALE,
    ensures
        r as int == m * pow10((to - from) as nat),
        -(0x8000_0000_0000_0000 * 1_000_000_000_000_000_000) <= r as int
            <= 0x8000_0000_0000_0000 * 1_000_000_000_000_000_000,
{
    let p = pow10_i128(to - from);
    proof {
        lemma_pow10_le((to - from) as nat, 18);
        lemma_pow10_18();
        lemma_pow10_pos((to - from) as nat);
        lemma_mul_abs_bound(m as int, 0x8000_0000_0000_0000, p as int, 1_000_000_000_000_000_000);
    }
    m as i128 * p
}

} // verus!

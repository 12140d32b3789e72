//! COMPUTE statement code generation.
//!
//! COBOL COMPUTE truncates to the target PIC precision by default and rounds half-up
//! (away from zero at the midpoint) with ROUNDED.
use rust_decimal::{Decimal, RoundingStrategy};
use vstd::prelude::*;
use vstd::string::StringExecFns;

use crate::text::{decimal, lemma_occurs_between, occurs_in, push_decimal};

verus! {

/// The assignment a COMPUTE statement becomes.
pub open spec fn compute_code(target: Seq<char>, expr: Seq<char>, dp: nat, rounded: bool) -> Seq<char> {
    if dp == 0 {
        target + " = ("@ + expr + ") as i64;"@
    } else if rounded {
        target + " = ("@ + expr + ").round_dp_with_strategy("@ + decimal(dp)
            + ", rust_decimal::RoundingStrategy::MidpointAwayFromZero);"@
    } else {
        target + " = ("@ + expr + ").trunc_with_scale("@ + decimal(dp) + ");"@
    }
}

/// The assignment stores into the target the expression's value at the target's
/// precision: cut to an integer when the target has no decimal places, otherwise rounded
/// half away from zero (ROUNDED) or truncated, in either case to exactly `dp` places.
pub proof fn lemma_compute_precision(target: Seq<char>, expr: Seq<char>, dp: nat, rounded: bool)
    ensures
        dp == 0 ==> compute_code(target, expr, dp, rounded) == target + " = ("@ + expr
            + ") as i64;"@,
        dp > 0 && rounded ==> occurs_in(
            ").round_dp_with_strategy("@ + decimal(dp)
                + ", rust_decimal::RoundingStrategy::MidpointAwayFromZero);"@,
            compute_code(target, expr, dp, rounded),
        ),
        dp > 0 && !rounded ==> occurs_in(
            ").trunc_with_scale("@ + decimal(dp) + ");"@,
            compute_code(target, expr, dp, rounded),
        ),
        occurs_in(target + " = ("@ + expr, compute_code(target, expr, dp, rounded)),
{
    let c = compute_code(target, expr, dp, rounded);
    let head = target + " = ("@ + expr;
    if dp == 0 {
        assert(c =~= Seq::<char>::empty() + head + ") as i64;"@);
        lemma_occurs_between(Seq::empty(), head, ") as i64;"@);
    } else if rounded {
        let tail = ").round_dp_with_strategy("@ + decimal(dp)
            + ", rust_decimal::RoundingStrategy::MidpointAwayFromZero);"@;
        assert(c =~= Seq::<char>::empty() + head + tail);
        lemma_occurs_between(Seq::empty(), head, tail);
        assert(c =~= head + tail + Seq::<char>::empty());
        lemma_occurs_between(head, tail, Seq::empty());
    } else {
        let tail = ").trunc_with_scale("@ + decimal(dp) + ");"@;
        assert(c =~= Seq::<char>::empty() + head + tail);
        lemma_occurs_between(Seq::empty(), head, tail);
        assert(c =~= head + tail + Seq::<char>::empty());
        lemma_occurs_between(head, tail, Seq::empty());
    }
}

/// Generate the Rust assignment for a COMPUTE statement: `target` and `expression` are
/// already Rust, `decimal_places` comes from the target's PIC clause.
pub fn generate_compute_assignment(
    target: &str,
    expression: &str,
    decimal_places: u32,
    rounded: bool,
) -> (r: String)
    ensures
        r@ == compute_code(target@, expression@, decimal_places as nat, rounded),
{
    let mut r = String::from_str(target);
    r.append(" = (");
    r.append(expression);
    if decimal_places == 0 {
        r.append(") as i64;");
    } else if rounded {
        r.append(").round_dp_with_strategy(");
        push_decimal(&mut r, decimal_places as usize);
        r.append(", rust_decimal::RoundingStrategy::MidpointAwayFromZero);");
    } else {
        r.append(").trunc_with_scale(");
        push_decimal(&mut r, decimal_places as usize);
        r.append(");");
    }
    r
}

// ---------------------------------------------------------------------------
// COBOL truncation and rounding of decimal values
// ---------------------------------------------------------------------------

/// The largest mantissa magnitude a decimal holds: 2^96 - 1.
pub const MAX_MANTISSA: i128 = 79228162514264337593543950335;

/// The largest scale a decimal holds.
pub const MAX_SCALE: u32 = 28;

/// A decimal number, `mantissa / 10^scale`, in the parts `rust_decimal::Decimal` keeps.
#[derive(Debug, Clone, Copy, PartialEq, Eq, Structural)]
pub struct DecimalParts {
    pub mantissa: i128,
    pub scale: u32,
}

impl DecimalParts {
    /// The parts are those of a decimal: a 96-bit mantissa and a scale of at most 28.
    pub open spec fn wf(self) -> bool {
        &&& self.scale <= MAX_SCALE
        &&& -MAX_MANTISSA <= self.mantissa <= MAX_MANTISSA
    }
}

/// 10 to the power `n`.
pub open spec fn pow10(n: nat) -> int
    decreases n,
{
    if n == 0 {
        1
    } else {
        10 * pow10((n - 1) as nat)
    }
}

/// `m / d` rounded toward zero (`d > 0`).
pub open spec fn quotient_toward_zero(m: int, d: int) -> int {
    if m >= 0 {
        m / d
    } else {
        -((-m) / d)
    }
}

/// `m / d` rounded to the nearest integer, a midpoint away from zero (`d > 0`).
pub open spec fn quotient_half_up(m: int, d: int) -> int {
    let a = if m >= 0 {
        m
    } else {
        -m
    };
    let q = a / d + if 2 * (a % d) >= d {
        1int
    } else {
        0int
    };
    if m >= 0 {
        q
    } else {
        -q
    }
}

/// Cutting toward zero keeps the sign and drops less than one step: `q * d` lies between
/// zero and `m`, less than `d` away from `m`.
pub proof fn lemma_toward_zero_cuts(m: int, d: int)
    requires
        d > 0,
    ensures
        m >= 0 ==> 0 <= quotient_toward_zero(m, d) * d <= m < quotient_toward_zero(m, d) * d + d,
        m < 0 ==> quotient_toward_zero(m, d) * d - d < m <= quotient_toward_zero(m, d) * d <= 0,
{
    let a = if m >= 0 {
        m
    } else {
        -m
    };
    vstd::arithmetic::div_mod::lemma_fundamental_div_mod(a, d);
    let q0 = a / d;
    let r = a % d;
    assert(0 <= r < d);
    assert(q0 >= 0) by (nonlinear_arith)
        requires
            a >= 0,
            d > 0,
            a == d * q0 + r,
            r < d,
    ;
    assert(q0 * d == d * q0) by (nonlinear_arith);
    if m < 0 {
        assert((-q0) * d == -(q0 * d)) by (nonlinear_arith);
    }
}

/// Half-up rounding gives the nearest multiple of the step, and a midpoint goes away from
/// zero: `q * d` is at most half a step from `m`, and exactly half a step only where
/// `q * d` is farther from zero than `m`.
pub proof fn lemma_half_up_nearest(m: int, d: int)
    requires
        d > 0,
    ensures
        2 * (m - quotient_half_up(m, d) * d) <= d,
        2 * (quotient_half_up(m, d) * d - m) <= d,
        2 * (m - quotient_half_up(m, d) * d) == d ==> m < 0,
        2 * (quotient_half_up(m, d) * d - m) == d ==> m > 0,
{
    let a = if m >= 0 {
        m
    } else {
        -m
    };
    vstd::arithmetic::div_mod::lemma_fundamental_div_mod(a, d);
    let q0 = a / d;
    let r = a % d;
    assert(0 <= r < d);
    let e: int = if 2 * r >= d {
        1
    } else {
        0
    };
    let q = q0 + e;
    assert(q * d == d * q0 + e * d) by (nonlinear_arith)
        requires
            q == q0 + e,
    ;
    assert(e * d == (if 2 * r >= d {
        d
    } else {
        0
    })) by (nonlinear_arith)
        requires
            e == (if 2 * r >= d {
                1int
            } else {
                0int
            }),
    ;
    if m < 0 {
        assert((-q) * d == -(q * d)) by (nonlinear_arith);
    }
}

/// What `Decimal::checked_mul` gives for the decimals `a_mantissa / 10^a_scale` and
/// `b_mantissa / 10^b_scale`: the product's mantissa and scale, or `None` on overflow.
pub uninterp spec fn decimal_product(a_mantissa: i128, a_scale: u32, b_mantissa: i128, b_scale: u32) -> Option<(i128, u32)>;

/// What `Decimal::checked_div` gives for the decimals `a_mantissa / 10^a_scale` and
/// `b_mantissa / 10^b_scale`: the quotient's mantissa and scale, or `None` on overflow or
/// division by zero.
pub uninterp spec fn decimal_quotient(a_mantissa: i128, a_scale: u32, b_mantissa: i128, b_scale: u32) -> Option<(i128, u32)>;

/// What `Decimal::checked_add` gives for the decimals `a_mantissa / 10^a_scale` and
/// `b_mantissa / 10^b_scale`: the sum's mantissa and scale, or `None` on overflow.
pub uninterp spec fn decimal_sum(a_mantissa: i128, a_scale: u32, b_mantissa: i128, b_scale: u32) -> Option<(i128, u32)>;

/// `Decimal::checked_add` on the two decimals. The sum's digits (the operands are brought
/// to one scale, and a sum that does not fit is rescaled and rounded) are left to the name
/// `decimal_sum`; what is stated is that a sum that exists is a valid decimal.
#[verifier::external_body]
pub(crate) fn decimal_add(a: DecimalParts, b: DecimalParts) -> (r: Option<DecimalParts>)
    requires
        a.wf(),
        b.wf(),
    ensures
        match r {
            Some(p) => decimal_sum(a.mantissa, a.scale, b.mantissa, b.scale) == Some(
                (p.mantissa, p.scale),
            ) && p.wf(),
            None => decimal_sum(a.mantissa, a.scale, b.mantissa, b.scale) is None,
        },
{
    let x = Decimal::from_i128_with_scale(a.mantissa, a.scale);
    let y = Decimal::from_i128_with_scale(b.mantissa, b.scale);
    match x.checked_add(y) {
        Some(p) => Some(DecimalParts { mantissa: p.mantissa(), scale: p.scale() }),
        None => None,
    }
}

/// `n` zeros.
pub open spec fn zeros(n: nat) -> Seq<char> {
    Seq::new(n, |i: int| '0')
}

/// The digits of `a` (none for zero), with leading zeros up to `s` digits.
pub open spec fn scaled_digits(a: nat, s: nat) -> Seq<char> {
    let d = if a == 0 {
        Seq::empty()
    } else {
        decimal(a)
    };
    if d.len() < s {
        zeros((s - d.len()) as nat) + d
    } else {
        d
    }
}

/// The unsigned part of the text `format!("{:.prec$}", x)` gives for the decimal
/// `x = m / 10^s`: the integral digits ("0" when there are none), then, when `prec > 0`, a
/// point and `prec` places, cut (not rounded) or filled with zeros.
pub open spec fn fixed_body(m: int, s: nat, prec: nat) -> Seq<char> {
    let ds = scaled_digits(
        if m < 0 {
            -m
        } else {
            m
        } as nat,
        s,
    );
    let w = ds.len() - s;
    let whole = if w == 0 {
        "0"@
    } else {
        ds.take(w)
    };
    let places = if prec <= s {
        ds.skip(w).take(prec as int)
    } else {
        ds.skip(w) + zeros((prec - s) as nat)
    };
    if prec == 0 {
        whole
    } else {
        whole + "."@ + places
    }
}

/// The text `format!("{:.prec$}", x)` gives for the decimal `x = m / 10^s`: a minus sign
/// before a negative value, then `fixed_body`.
pub open spec fn fixed_text(m: int, s: nat, prec: nat) -> Seq<char> {
    (if m < 0 {
        "-"@
    } else {
        Seq::empty()
    }) + fixed_body(m, s, prec)
}

/// The formatting buffer of `Decimal`'s `Display` holds 32 characters: the unsigned text
/// must fit in it.
pub open spec fn fixed_fits(a: DecimalParts, prec: nat) -> bool {
    fixed_body(a.mantissa as int, a.scale as nat, prec).len() <= 32
}

/// `Decimal`'s `Display` with a precision of `prec` places, as `format!("{:.prec$}", ..)`
/// writes it. The text is built in a 32-character buffer that panics when it overflows,
/// so the unsigned text must fit in 32 characters.
#[verifier::external_body]
pub(crate) fn decimal_fixed(a: DecimalParts, prec: usize) -> (r: String)
    requires
        a.wf(),
        prec <= 28,
        fixed_fits(a, prec as nat),
    ensures
        r@ == fixed_text(a.mantissa as int, a.scale as nat, prec as nat),
{
    format!("{:.prec$}", Decimal::from_i128_with_scale(a.mantissa, a.scale), prec = prec)
}

/// Digits of `n`: one more than those of `n / 10`.
proof fn lemma_decimal_len_step(n: nat)
    requires
        n > 0,
    ensures
        decimal(n).len() == 1 + (if n / 10 == 0 {
            0
        } else {
            decimal(n / 10).len()
        }),
{
}

/// A number below `10^k` has at most `k` digits.
proof fn lemma_decimal_len_bound(n: nat, k: nat)
    requires
        1 <= k,
        n < pow10(k),
    ensures
        decimal(n).len() <= k,
    decreases n,
{
    if n >= 10 {
        assert(k >= 2) by {
            if k == 1 {
                assert(pow10(1) == 10 * pow10(0));
            }
        }
        assert(pow10(k) == 10 * pow10((k - 1) as nat));
        assert(n / 10 < pow10((k - 1) as nat));
        lemma_decimal_len_bound(n / 10, (k - 1) as nat);
    }
}

proof fn lemma_pow10_29()
    ensures
        pow10(29) == 100000000000000000000000000000,
{
    reveal_with_fuel(pow10, 30);
}

/// The number of digits of `a` (none for zero).
fn digit_count(a: u128) -> (r: usize)
    requires
        a <= MAX_MANTISSA,
    ensures
        r == (if a == 0 {
            0
        } else {
            decimal(a as nat).len()
        }),
        r <= 29,
{
    proof {
        lemma_pow10_29();
        if a > 0 {
            lemma_decimal_len_bound(a as nat, 29);
        }
    }
    let ghost total: int = if a == 0 {
        0
    } else {
        decimal(a as nat).len() as int
    };
    let mut x = a;
    let mut c: usize = 0;
    while x > 0
        invariant
            total <= 29,
            total == c + (if x == 0 {
                0
            } else {
                decimal(x as nat).len() as int
            }),
        decreases x,
    {
        proof {
            lemma_decimal_len_step(x as nat);
        }
        x = x / 10;
        c = c + 1;
    }
    c
}

/// The length of `fixed_body` by its parts.
proof fn lemma_fixed_body_len(m: int, s: nat, prec: nat)
    ensures
        ({
            let a = if m < 0 {
                -m
            } else {
                m
            };
            let nd: int = if a == 0 {
                0
            } else {
                decimal(a as nat).len() as int
            };
            let w: int = if nd > s {
                nd - s
            } else {
                0
            };
            fixed_body(m, s, prec).len() == (if w == 0 {
                1
            } else {
                w
            }) + (if prec == 0 {
                0
            } else {
                1 + prec
            })
        }),
{
    reveal_strlit("0");
    reveal_strlit(".");
}

/// Whether `fixed_fits(a, prec)`.
pub(crate) fn fixed_fits_exec(a: DecimalParts, prec: usize) -> (r: bool)
    requires
        a.wf(),
        prec <= 28,
    ensures
        r == fixed_fits(a, prec as nat),
{
    let mag: u128 = if a.mantissa < 0 {
        (-a.mantissa) as u128
    } else {
        a.mantissa as u128
    };
    let nd = digit_count(mag);
    let s = a.scale as usize;
    let w = if nd > s {
        nd - s
    } else {
        0
    };
    let whole = if w == 0 {
        1
    } else {
        w
    };
    let len = if prec == 0 {
        whole
    } else {
        whole + 1 + prec
    };
    proof {
        lemma_fixed_body_len(a.mantissa as int, a.scale as nat, prec as nat);
    }
    len <= 32
}

/// Two places always fit: a mantissa has at most 29 digits.
pub(crate) proof fn lemma_two_places_fit(a: DecimalParts)
    requires
        a.wf(),
    ensures
        fixed_fits(a, 2),
{
    let m = a.mantissa as int;
    let mag = if m < 0 {
        -m
    } else {
        m
    };
    lemma_pow10_29();
    if mag > 0 {
        lemma_decimal_len_bound(mag as nat, 29);
    }
    lemma_fixed_body_len(m, a.scale as nat, 2);
}

/// `Decimal::checked_mul` on the two decimals. The product's digits (a mantissa that does
/// not fit 96 bits is rescaled and rounded) are left to the name `decimal_product`; what
/// is stated is that a product that exists is a valid decimal.
#[verifier::external_body]
pub(crate) fn decimal_mul(a: DecimalParts, b: DecimalParts) -> (r: Option<DecimalParts>)
    requires
        a.wf(),
        b.wf(),
    ensures
        match r {
            Some(p) => decimal_product(a.mantissa, a.scale, b.mantissa, b.scale) == Some(
                (p.mantissa, p.scale),
            ) && p.wf(),
            None => decimal_product(a.mantissa, a.scale, b.mantissa, b.scale) is None,
        },
{
    let x = Decimal::from_i128_with_scale(a.mantissa, a.scale);
    let y = Decimal::from_i128_with_scale(b.mantissa, b.scale);
    match x.checked_mul(y) {
        Some(p) => Some(DecimalParts { mantissa: p.mantissa(), scale: p.scale() }),
        None => None,
    }
}

/// `Decimal::checked_div` on the two decimals. The quotient's digits are left to the
/// name `decimal_quotient`; what is stated is that a quotient that exists is a valid
/// decimal.
#[verifier::external_body]
pub(crate) fn decimal_div(a: DecimalParts, b: DecimalParts) -> (r: Option<DecimalParts>)
    requires
        a.wf(),
        b.wf(),
    ensures
        match r {
            Some(p) => decimal_quotient(a.mantissa, a.scale, b.mantissa, b.scale) == Some(
                (p.mantissa, p.scale),
            ) && p.wf(),
            None => decimal_quotient(a.mantissa, a.scale, b.mantissa, b.scale) is None,
        },
{
    let x = Decimal::from_i128_with_scale(a.mantissa, a.scale);
    let y = Decimal::from_i128_with_scale(b.mantissa, b.scale);
    match x.checked_div(y) {
        Some(p) => Some(DecimalParts { mantissa: p.mantissa(), scale: p.scale() }),
        None => None,
    }
}

/// `Decimal::trunc`: the integral part, cut toward zero, at scale 0.
#[verifier::external_body]
fn decimal_trunc(a: DecimalParts) -> (r: DecimalParts)
    requires
        a.wf(),
    ensures
        r.scale == 0,
        r.mantissa == quotient_toward_zero(a.mantissa as int, pow10(a.scale as nat)),
{
    let t = Decimal::from_i128_with_scale(a.mantissa, a.scale).trunc();
    DecimalParts { mantissa: t.mantissa(), scale: t.scale() }
}

/// `Decimal::round_dp_with_strategy` with `MidpointAwayFromZero`: a decimal with at most
/// `dp` places is kept; another is rounded to `dp` places, a midpoint away from zero.
#[verifier::external_body]
fn decimal_round_half_up(a: DecimalParts, dp: u32) -> (r: DecimalParts)
    requires
        a.wf(),
    ensures
        a.scale <= dp ==> r == a,
        a.scale > dp ==> r.scale == dp && r.mantissa == quotient_half_up(
            a.mantissa as int,
            pow10((a.scale - dp) as nat),
        ),
{
    let x = Decimal::from_i128_with_scale(a.mantissa, a.scale);
    let t = x.round_dp_with_strategy(dp, RoundingStrategy::MidpointAwayFromZero);
    DecimalParts { mantissa: t.mantissa(), scale: t.scale() }
}

proof fn lemma_pow10_19()
    ensures
        pow10(19) == 10000000000000000000,
{
    reveal_with_fuel(pow10, 20);
}

pub proof fn lemma_pow10_grows(i: nat, j: nat)
    requires
        i <= j,
    ensures
        1 <= pow10(i) <= pow10(j),
    decreases j,
{
    if j > 0 {
        let i2: nat = if i < j {
            i
        } else {
            (j - 1) as nat
        };
        lemma_pow10_grows(i2, (j - 1) as nat);
    }
}

/// `10^n` as a `u64`, for `n` up to 19.
fn pow10_u64(n: u32) -> (r: u64)
    requires
        n <= 19,
    ensures
        r == pow10(n as nat),
{
    let mut r: u64 = 1;
    let mut i: u32 = 0;
    proof {
        lemma_pow10_19();
    }
    while i < n
        invariant
            i <= n <= 19,
            r == pow10(i as nat),
            pow10(19) == 10000000000000000000,
        decreases n - i,
    {
        proof {
            lemma_pow10_grows((i + 1) as nat, 19);
        }
        r = r * 10;
        i = i + 1;
    }
    r
}

/// What COBOL truncation to `dp` places gives: the value is scaled by `10^dp`, cut
/// toward zero and scaled back, each step as the decimal arithmetic computes it; `None`
/// when a step overflows.
pub open spec fn truncated(value: DecimalParts, dp: nat) -> Option<(i128, u32)> {
    match decimal_product(value.mantissa, value.scale, pow10(dp) as i128, 0) {
        Some((m, s)) => decimal_quotient(
            quotient_toward_zero(m as int, pow10(s as nat)) as i128,
            0,
            pow10(dp) as i128,
            0,
        ),
        None => None,
    }
}

/// Simulate COBOL COMPUTE truncation: the value cut (not rounded) to `decimal_places`
/// places.
pub fn cobol_truncate(value: DecimalParts, decimal_places: u32) -> (r: DecimalParts)
    requires
        value.wf(),
        decimal_places <= 19,
        truncated(value, decimal_places as nat) is Some,
    ensures
        truncated(value, decimal_places as nat) == Some((r.mantissa, r.scale)),
        r.wf(),
{
    match truncation_steps(value, decimal_places) {
        Some(r) => r,
        None => value,
    }
}

/// COBOL truncation that reports an overflow of the decimal arithmetic as `None`: the
/// steps are tried, and `cobol_truncate` runs only where they do not overflow.
pub fn checked_cobol_truncate(value: DecimalParts, decimal_places: u32) -> (r: Option<DecimalParts>)
    requires
        value.wf(),
        decimal_places <= 19,
    ensures
        match r {
            Some(p) => truncated(value, decimal_places as nat) == Some((p.mantissa, p.scale))
                && p.wf(),
            None => truncated(value, decimal_places as nat) is None,
        },
{
    match truncation_steps(value, decimal_places) {
        Some(_) => Some(cobol_truncate(value, decimal_places)),
        None => None,
    }
}

/// Scale by `10^dp`, cut toward zero, scale back; `None` when a step overflows.
fn truncation_steps(value: DecimalParts, decimal_places: u32) -> (r: Option<DecimalParts>)
    requires
        value.wf(),
        decimal_places <= 19,
    ensures
        match r {
            Some(p) => truncated(value, decimal_places as nat) == Some((p.mantissa, p.scale))
                && p.wf(),
            None => truncated(value, decimal_places as nat) is None,
        },
{
    let f = pow10_u64(decimal_places);
    proof {
        lemma_pow10_19();
        lemma_pow10_grows(decimal_places as nat, 19);
    }
    let factor = DecimalParts { mantissa: f as i128, scale: 0 };
    let scaled = match decimal_mul(value, factor) {
        Some(p) => p,
        None => return None,
    };
    let whole = decimal_trunc(scaled);
    proof {
        lemma_pow10_grows(0, scaled.scale as nat);
        lemma_quotient_toward_zero_bounded(scaled.mantissa as int, pow10(scaled.scale as nat));
    }
    decimal_div(whole, factor)
}

proof fn lemma_quotient_toward_zero_bounded(m: int, d: int)
    requires
        d >= 1,
    ensures
        -(if m >= 0 {
            m
        } else {
            -m
        }) <= quotient_toward_zero(m, d) <= (if m >= 0 {
            m
        } else {
            -m
        }),
{
    if m >= 0 {
        assert(m / d <= m) by (nonlinear_arith)
            requires
                m >= 0,
                d >= 1,
        ;
        assert(m / d >= 0) by (nonlinear_arith)
            requires
                m >= 0,
                d >= 1,
        ;
    } else {
        assert((-m) / d <= -m) by (nonlinear_arith)
            requires
                -m >= 0,
                d >= 1,
        ;
        assert((-m) / d >= 0) by (nonlinear_arith)
            requires
                -m >= 0,
                d >= 1,
        ;
    }
}

/// Simulate COBOL COMPUTE ROUNDED: the value rounded half-up (a midpoint away from zero)
/// to `decimal_places` places; a value with fewer places is kept as it is.
pub fn cobol_round(value: DecimalParts, decimal_places: u32) -> (r: DecimalParts)
    requires
        value.wf(),
    ensures
        value.scale <= decimal_places ==> r == value,
        value.scale > decimal_places ==> r.scale == decimal_places && r.mantissa
            == quotient_half_up(value.mantissa as int, pow10((value.scale - decimal_places) as nat)),
{
    decimal_round_half_up(value, decimal_places)
}

} // verus!

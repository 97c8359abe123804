//! Exact signed decimal amounts.
//!
//! An [`Amount`] is kept in canonical form: a mantissa of at most 96 bits
//! and at most 28 decimal places, with no trailing zero in the mantissa when
//! there are decimal places. Two amounts with the same value therefore have
//! the same fields. Arithmetic is exact: a result that cannot be written in
//! that range is reported instead of rounded.

use vstd::arithmetic::div_mod::{lemma_fundamental_div_mod, lemma_mod_multiples_vanish};
use rust_decimal::Decimal;
use vstd::prelude::*;

verus! {

/// Largest magnitude of a mantissa: 2^96 - 1.
pub const MAX_MANTISSA: i128 = 79228162514264337593543950335;

/// Largest number of decimal places.
pub const MAX_SCALE: u32 = 28;

/// Bound on the magnitude of an operand once aligned to a common scale.
const ALIGN_LIMIT: i128 = 158456325028528675187087900670;

#[verifier::external_type_specification]
#[verifier::external_body]
pub struct ExDecimal(Decimal);

/// The mantissa that a `Decimal` holds.
pub uninterp spec fn decimal_mantissa(d: Decimal) -> i128;

/// The scale (number of decimal places) that a `Decimal` holds.
pub uninterp spec fn decimal_scale(d: Decimal) -> u32;

/// Whether a `Decimal` carries the negative sign flag.
pub uninterp spec fn decimal_negative(d: Decimal) -> bool;

/// Relies on rust_decimal's `Decimal::mantissa`: the mantissa is assembled
/// from three 32-bit words, so its magnitude is below 2^96, and it is
/// negated exactly when the sign flag is set.
pub assume_specification[ Decimal::mantissa ](d: &Decimal) -> (r: i128)
    ensures
        r == decimal_mantissa(*d),
        -MAX_MANTISSA <= r <= MAX_MANTISSA,
        r < 0 ==> decimal_negative(*d),
        r > 0 ==> !decimal_negative(*d),
;

/// Relies on rust_decimal's `Decimal::scale`: every constructor keeps the
/// scale at most 28.
pub assume_specification[ Decimal::scale ](d: &Decimal) -> (r: u32)
    ensures
        r == decimal_scale(*d),
        r <= MAX_SCALE,
;

/// Relies on rust_decimal's `Decimal::is_sign_negative`: reads the sign
/// flag, which a negative zero also carries.
pub assume_specification[ Decimal::is_sign_negative ](d: &Decimal) -> (r: bool)
    ensures
        r == decimal_negative(*d),
;

/// The value that a `Decimal` holds, counted in units of 10^-28.
pub open spec fn decimal_value(d: Decimal) -> int {
    decimal_mantissa(d) * pow10((MAX_SCALE - decimal_scale(d)) as nat)
}

/// Ten to the power `n`.
pub open spec fn pow10(n: nat) -> int
    decreases n,
{
    if n == 0 {
        1
    } else {
        10 * pow10((n - 1) as nat)
    }
}

pub open spec fn abs(x: int) -> int {
    if x < 0 {
        -x
    } else {
        x
    }
}

/// A value counted in units of 10^-28 has a canonical representation:
/// a mantissa within 96 bits at some scale of at most 28 places.
pub open spec fn fits(v: int) -> bool {
    exists|m: int, s: nat|
        #![trigger m * pow10((MAX_SCALE - s) as nat)]
        s <= MAX_SCALE && abs(m) <= MAX_MANTISSA && v == m * pow10((MAX_SCALE - s) as nat)
}

pub proof fn lemma_pow10_pos(n: nat)
    ensures
        pow10(n) >= 1,
    decreases n,
{
    if n > 0 {
        lemma_pow10_pos((n - 1) as nat);
    }
}

pub proof fn lemma_pow10_add(a: nat, b: nat)
    ensures
        pow10(a + b) == pow10(a) * pow10(b),
    decreases a,
{
    if a > 0 {
        lemma_pow10_add((a - 1) as nat, b);
        assert(pow10(a + b) == 10 * pow10((a - 1 + b) as nat));
        let p = pow10((a - 1) as nat);
        let q = pow10(b);
        assert(10 * (p * q) == (10 * p) * q) by (nonlinear_arith);
    }
}

proof fn lemma_mod10_neg(x: int)
    ensures
        (x % 10 == 0) == ((-x) % 10 == 0),
{
    lemma_fundamental_div_mod(x, 10);
    lemma_fundamental_div_mod(-x, 10);
    if x % 10 == 0 {
        lemma_mod_multiples_vanish(-(x / 10), 0, 10);
        assert(-x == 10 * (-(x / 10)) + 0);
    }
    if (-x) % 10 == 0 {
        lemma_mod_multiples_vanish(-((-x) / 10), 0, 10);
        assert(x == 10 * (-((-x) / 10)) + 0);
    }
}

proof fn lemma_mod10_shift(c: int, b: int)
    ensures
        (10 * c + b) % 10 == b % 10,
{
    lemma_mod_multiples_vanish(c, b, 10);
}

/// A value whose mantissa at `s` places exceeds the range, and which cannot be
/// written with fewer places, has no canonical representation.
proof fn lemma_not_fits(n: int, s: nat)
    requires
        s <= MAX_SCALE,
        abs(n) > MAX_MANTISSA,
        s == 0 || n % 10 != 0,
    ensures
        !fits(n * pow10((MAX_SCALE - s) as nat)),
{
    let v = n * pow10((MAX_SCALE - s) as nat);
    if fits(v) {
        let (m, t) = choose|m: int, t: nat|
            #![trigger m * pow10((MAX_SCALE - t) as nat)]
            t <= MAX_SCALE && abs(m) <= MAX_MANTISSA && v == m * pow10((MAX_SCALE - t) as nat);
        if t >= s {
            let p = pow10((MAX_SCALE - t) as nat);
            let q = pow10((t - s) as nat);
            lemma_pow10_add((MAX_SCALE - t) as nat, (t - s) as nat);
            assert((MAX_SCALE - t) as nat + (t - s) as nat == (MAX_SCALE - s) as nat);
            lemma_pow10_pos((MAX_SCALE - t) as nat);
            lemma_pow10_pos((t - s) as nat);
            assert(m * p == n * (p * q));
            assert(m == n * q) by (nonlinear_arith)
                requires
                    m * p == n * (p * q),
                    p >= 1,
            ;
            assert(abs(m) >= abs(n)) by (nonlinear_arith)
                requires
                    m == n * q,
                    q >= 1,
            ;
        } else {
            let p = pow10((MAX_SCALE - s) as nat);
            let q = pow10((s - t) as nat);
            let r = pow10((s - t - 1) as nat);
            lemma_pow10_add((MAX_SCALE - s) as nat, (s - t) as nat);
            assert((MAX_SCALE - s) as nat + (s - t) as nat == (MAX_SCALE - t) as nat);
            lemma_pow10_pos((MAX_SCALE - s) as nat);
            assert(q == 10 * r);
            assert(m * (p * q) == n * p);
            assert(n == 10 * (m * r)) by (nonlinear_arith)
                requires
                    m * (p * q) == n * p,
                    p >= 1,
                    q == 10 * r,
            ;
            lemma_mod10_shift(m * r, 0);
        }
    }
}

/// `m * 10^k` when its magnitude is within the alignment bound.
fn scale_up(m: i128, k: u32) -> (r: Option<i128>)
    requires
        -MAX_MANTISSA <= m <= MAX_MANTISSA,
        k <= MAX_SCALE,
    ensures
        match r {
            Some(v) => v == m * pow10(k as nat) && abs(v as int) <= ALIGN_LIMIT,
            None => abs(m * pow10(k as nat)) > ALIGN_LIMIT,
        },
{
    let mut acc: i128 = m;
    let mut i: u32 = 0;
    while i < k
        invariant
            i <= k,
            k <= MAX_SCALE,
            acc == m * pow10(i as nat),
            abs(acc as int) <= ALIGN_LIMIT,
        decreases k - i,
    {
        if acc > ALIGN_LIMIT / 10 || acc < -(ALIGN_LIMIT / 10) {
            proof {
                let q = pow10((k - i) as nat);
                lemma_pow10_add(i as nat, (k - i) as nat);
                assert(i as nat + (k - i) as nat == k as nat);
                lemma_pow10_pos((k - i - 1) as nat);
                assert(q == 10 * pow10((k - i - 1) as nat));
                assert(m * pow10(k as nat) == acc * q) by (nonlinear_arith)
                    requires
                        pow10(k as nat) == pow10(i as nat) * q,
                        acc == m * pow10(i as nat),
                ;
                assert(abs(acc * q) > ALIGN_LIMIT) by (nonlinear_arith)
                    requires
                        q >= 10,
                        acc > ALIGN_LIMIT / 10 || acc < -(ALIGN_LIMIT / 10),
                ;
            }
            return None;
        }
        proof {
            assert(pow10((i + 1) as nat) == 10 * pow10(i as nat));
            assert(acc * 10 == m * pow10((i + 1) as nat)) by (nonlinear_arith)
                requires
                    acc == m * pow10(i as nat),
                    pow10((i + 1) as nat) == 10 * pow10(i as nat),
            ;
        }
        acc = acc * 10;
        i = i + 1;
    }
    Some(acc)
}

/// Removes trailing zeros of the mantissa while there are decimal places.
fn strip_zeros(m: i128, s: u32) -> (r: (i128, u32))
    requires
        s <= MAX_SCALE,
        -2 * ALIGN_LIMIT <= m <= 2 * ALIGN_LIMIT,
    ensures
        r.1 <= s,
        abs(r.0 as int) <= abs(m as int),
        r.0 * pow10((MAX_SCALE - r.1) as nat) == m * pow10((MAX_SCALE - s) as nat),
        r.1 > 0 ==> r.0 % 10 != 0,
{
    let negative = m < 0;
    let mut mag: u128 = if negative {
        (-m) as u128
    } else {
        m as u128
    };
    let mut scale: u32 = s;
    while scale > 0 && mag % 10 == 0
        invariant
            mag <= abs(m as int),
            scale <= s,
            s <= MAX_SCALE,
            mag * pow10((MAX_SCALE - scale) as nat) == abs(m as int) * pow10(
                (MAX_SCALE - s) as nat,
            ),
        decreases scale,
    {
        let q = mag / 10;
        proof {
            let p = pow10((MAX_SCALE - scale) as nat);
            assert(pow10((MAX_SCALE - (scale - 1)) as nat) == 10 * p);
            assert(mag == 10 * q);
            assert(q * (10 * p) == mag * p) by (nonlinear_arith)
                requires
                    mag == 10 * q,
            ;
        }
        mag = q;
        scale = scale - 1;
    }
    let mantissa: i128 = if negative {
        -(mag as i128)
    } else {
        mag as i128
    };
    proof {
        let p = pow10((MAX_SCALE - scale) as nat);
        if negative {
            assert(mantissa * p == -(mag * p)) by (nonlinear_arith)
                requires
                    mantissa == -mag,
            ;
            assert(m * pow10((MAX_SCALE - s) as nat) == -(abs(m as int) * pow10(
                (MAX_SCALE - s) as nat,
            ))) by (nonlinear_arith)
                requires
                    m < 0,
            ;
            lemma_mod10_neg(mag as int);
        }
    }
    (mantissa, scale)
}

#[derive(Clone, Copy, Debug, PartialEq, Eq, Hash)]
pub struct Amount {
    mantissa: i128,
    scale: u32,
}

impl Amount {
    #[verifier::type_invariant]
    spec fn canonical(self) -> bool {
        &&& self.scale <= MAX_SCALE
        &&& -MAX_MANTISSA <= self.mantissa <= MAX_MANTISSA
        &&& self.scale > 0 ==> self.mantissa % 10 != 0
    }

    /// The exact value, counted in units of 10^-28.
    pub closed spec fn value(self) -> int {
        self.mantissa * pow10((MAX_SCALE - self.scale) as nat)
    }

    /// The mantissa of the canonical form.
    pub closed spec fn digits(self) -> int {
        self.mantissa as int
    }

    /// The number of decimal places of the canonical form.
    pub closed spec fn places(self) -> nat {
        self.scale as nat
    }

    proof fn lemma_aligned(self, s: nat)
        requires
            self.places() <= s <= MAX_SCALE,
        ensures
            self.value() == (self.digits() * pow10((s - self.places()) as nat)) * pow10(
                (MAX_SCALE - s) as nat,
            ),
    {
        let k = (s - self.places()) as nat;
        let j = (MAX_SCALE - s) as nat;
        lemma_pow10_add(k, j);
        assert(k + j == (MAX_SCALE - self.places()) as nat);
        let m = self.digits();
        assert(m * (pow10(k) * pow10(j)) == (m * pow10(k)) * pow10(j)) by (nonlinear_arith);
    }

    /// Builds the amount `mantissa * 10^-scale`, when it is within range.
    pub fn from_parts(mantissa: i128, scale: u32) -> (r: Option<Amount>)
        ensures
            r is Some <==> (scale <= MAX_SCALE && abs(mantissa as int) <= MAX_MANTISSA),
            r matches Some(a) ==> a.value() == mantissa * pow10((MAX_SCALE - scale) as nat),
            r matches Some(a) ==> fits(a.value()),
    {
        if scale > MAX_SCALE || mantissa > MAX_MANTISSA || mantissa < -MAX_MANTISSA {
            return None;
        }
        let (m, s) = strip_zeros(mantissa, scale);
        let r = Amount { mantissa: m, scale: s };
        proof {
            assert(fits(r.value()));
        }
        Some(r)
    }

    /// The amount that a `Decimal` holds, in canonical form.
    pub fn from_decimal(d: Decimal) -> (r: Amount)
        ensures
            r.value() == decimal_value(d),
            fits(r.value()),
    {
        let mantissa = d.mantissa();
        let scale = d.scale();
        let (m, s) = strip_zeros(mantissa, scale);
        let r = Amount { mantissa: m, scale: s };
        proof {
            assert(fits(r.value()));
        }
        r
    }

    /// The amount with the opposite sign.
    pub fn neg(self) -> (r: Amount)
        ensures
            r.value() == -self.value(),
            r.digits() == -self.digits(),
            r.places() == self.places(),
            fits(r.value()),
    {
        proof {
            use_type_invariant(self);
            lemma_mod10_neg(self.mantissa as int);
            let p = pow10((MAX_SCALE - self.scale) as nat);
            assert((-self.mantissa) * p == -(self.mantissa * p)) by (nonlinear_arith);
        }
        let r = Amount { mantissa: -self.mantissa, scale: self.scale };
        proof {
            assert(fits(r.value()));
        }
        r
    }

    /// The exact sum, when it has a canonical representation.
    pub fn checked_add(self, other: Amount) -> (r: Option<Amount>)
        ensures
            r is Some <==> fits(self.value() + other.value()),
            r matches Some(c) ==> c.value() == self.value() + other.value(),
    {
        proof {
            use_type_invariant(self);
            use_type_invariant(other);
        }
        let s: u32 = if self.scale >= other.scale {
            self.scale
        } else {
            other.scale
        };
        let ghost a = self.mantissa * pow10((s - self.scale) as nat);
        let ghost b = other.mantissa * pow10((s - other.scale) as nat);
        let ghost p = pow10((MAX_SCALE - s) as nat);
        proof {
            self.lemma_aligned(s as nat);
            other.lemma_aligned(s as nat);
            assert(self.value() + other.value() == (a + b) * p) by (nonlinear_arith)
                requires
                    self.value() == a * p,
                    other.value() == b * p,
            ;
        }
        let x = scale_up(self.mantissa, s - self.scale);
        let y = scale_up(other.mantissa, s - other.scale);
        match (x, y) {
            (Some(x), Some(y)) => {
                let (m, t) = strip_zeros(x + y, s);
                if m > MAX_MANTISSA || m < -MAX_MANTISSA {
                    proof {
                        lemma_not_fits(m as int, t as nat);
                    }
                    None
                } else {
                    let c = Amount { mantissa: m, scale: t };
                    proof {
                        assert(fits(c.value()));
                    }
                    Some(c)
                }
            },
            (None, _) => {
                proof {
                    // only the operand with fewer places was scaled up
                    if self.scale == s {
                        assert(pow10((s - self.scale) as nat) == 1);
                    }
                    assert(b == other.mantissa) by {
                        assert(pow10((s - other.scale) as nat) == 1);
                    }
                    assert(other.scale == s);
                    lemma_pow10_pos((s - self.scale - 1) as nat);
                    assert(pow10((s - self.scale) as nat) == 10 * pow10(
                        (s - self.scale - 1) as nat,
                    ));
                    assert(a == 10 * (self.mantissa * pow10((s - self.scale - 1) as nat)))
                        by (nonlinear_arith)
                        requires
                            a == self.mantissa * pow10((s - self.scale) as nat),
                            pow10((s - self.scale) as nat) == 10 * pow10(
                                (s - self.scale - 1) as nat,
                            ),
                    ;
                    lemma_mod10_shift(self.mantissa * pow10((s - self.scale - 1) as nat), b);
                    lemma_not_fits(a + b, s as nat);
                }
                None
            },
            (_, None) => {
                proof {
                    if other.scale == s {
                        assert(pow10((s - other.scale) as nat) == 1);
                    }
                    assert(a == self.mantissa) by {
                        assert(pow10((s - self.scale) as nat) == 1);
                    }
                    assert(self.scale == s);
                    lemma_pow10_pos((s - other.scale - 1) as nat);
                    assert(pow10((s - other.scale) as nat) == 10 * pow10(
                        (s - other.scale - 1) as nat,
                    ));
                    assert(b == 10 * (other.mantissa * pow10((s - other.scale - 1) as nat)))
                        by (nonlinear_arith)
                        requires
                            b == other.mantissa * pow10((s - other.scale) as nat),
                            pow10((s - other.scale) as nat) == 10 * pow10(
                                (s - other.scale - 1) as nat,
                            ),
                    ;
                    lemma_mod10_shift(other.mantissa * pow10((s - other.scale - 1) as nat), a);
                    lemma_not_fits(a + b, s as nat);
                }
                None
            },
        }
    }

    /// The exact difference, when it has a canonical representation.
    pub fn checked_sub(self, other: Amount) -> (r: Option<Amount>)
        ensures
            r is Some <==> fits(self.value() - other.value()),
            r matches Some(c) ==> c.value() == self.value() - other.value(),
    {
        self.checked_add(other.neg())
    }

    /// Whether this amount is strictly greater than `other`.
    pub fn is_greater(&self, other: &Amount) -> (r: bool)
        ensures
            r == (self.value() > other.value()),
    {
        proof {
            use_type_invariant(self);
            use_type_invariant(other);
        }
        let s: u32 = if self.scale >= other.scale {
            self.scale
        } else {
            other.scale
        };
        let ghost a = self.mantissa * pow10((s - self.scale) as nat);
        let ghost b = other.mantissa * pow10((s - other.scale) as nat);
        let ghost p = pow10((MAX_SCALE - s) as nat);
        proof {
            self.lemma_aligned(s as nat);
            other.lemma_aligned(s as nat);
            lemma_pow10_pos((MAX_SCALE - s) as nat);
            lemma_pow10_pos((s - self.scale) as nat);
            lemma_pow10_pos((s - other.scale) as nat);
            assert((self.value() > other.value()) == (a > b)) by (nonlinear_arith)
                requires
                    self.value() == a * p,
                    other.value() == b * p,
                    p >= 1,
            ;
        }
        let x = scale_up(self.mantissa, s - self.scale);
        let y = scale_up(other.mantissa, s - other.scale);
        match (x, y) {
            (Some(x), Some(y)) => x > y,
            (None, _) => {
                proof {
                    assert(other.scale == s);
                    assert((a > 0) == (self.mantissa > 0)) by (nonlinear_arith)
                        requires
                            a == self.mantissa * pow10((s - self.scale) as nat),
                            pow10((s - self.scale) as nat) >= 1,
                    ;
                }
                self.mantissa > 0
            },
            (_, None) => {
                proof {
                    assert(self.scale == s);
                    assert((b < 0) == (other.mantissa < 0)) by (nonlinear_arith)
                        requires
                            b == other.mantissa * pow10((s - other.scale) as nat),
                            pow10((s - other.scale) as nat) >= 1,
                    ;
                }
                other.mantissa < 0
            },
        }
    }

    /// Whether this amount is zero.
    pub fn is_zero(&self) -> (r: bool)
        ensures
            r == (self.value() == 0),
            fits(self.value()),
    {
        proof {
            use_type_invariant(self);
            assert(fits(self.value()));
            lemma_pow10_pos((MAX_SCALE - self.scale) as nat);
            let p = pow10((MAX_SCALE - self.scale) as nat);
            assert((self.mantissa * p == 0) == (self.mantissa == 0)) by (nonlinear_arith)
                requires
                    p >= 1,
            ;
        }
        self.mantissa == 0
    }

    /// Whether this amount is below zero.
    pub fn is_negative(&self) -> (r: bool)
        ensures
            r == (self.value() < 0),
            fits(self.value()),
    {
        proof {
            use_type_invariant(self);
            assert(fits(self.value()));
            lemma_pow10_pos((MAX_SCALE - self.scale) as nat);
            let p = pow10((MAX_SCALE - self.scale) as nat);
            assert((self.mantissa * p < 0) == (self.mantissa < 0)) by (nonlinear_arith)
                requires
                    p >= 1,
            ;
        }
        self.mantissa < 0
    }

    /// Zero.
    pub fn zero() -> (r: Amount)
        ensures
            r.value() == 0,
            fits(r.value()),
    {
        let r = Amount { mantissa: 0, scale: 0 };
        assert(r.value() == 0 * pow10((MAX_SCALE - 0) as nat));
        r
    }

    /// The mantissa of the canonical form.
    pub fn mantissa(&self) -> (r: i128)
        ensures
            r == self.digits(),
            -MAX_MANTISSA <= r <= MAX_MANTISSA,
            fits(self.value()),
    {
        proof {
            use_type_invariant(self);
            assert(fits(self.value()));
        }
        self.mantissa
    }

    /// The number of decimal places of the canonical form.
    pub fn scale(&self) -> (r: u32)
        ensures
            r == self.places(),
            r <= MAX_SCALE,
    {
        proof {
            use_type_invariant(self);
        }
        self.scale
    }
}

} // verus!

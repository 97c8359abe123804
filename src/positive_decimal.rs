//! Amounts that are strictly greater than zero.

use rust_decimal::Decimal;
use vstd::prelude::*;

use crate::amount::{decimal_negative, decimal_value, fits, Amount};

verus! {

/// An exact decimal amount that is neither zero nor negative.
#[derive(Clone, Copy, Debug, PartialEq, Eq, Hash)]
pub struct PositiveDecimal {
    amount: Amount,
}

/// Why a value cannot be a [`PositiveDecimal`].
#[derive(Clone, Copy, Debug, PartialEq, Eq, Structural)]
pub enum PositiveDecimalError {
    NegativeAmount,
    ZeroAmount,
}

impl PositiveDecimal {
    #[verifier::type_invariant]
    spec fn positive(self) -> bool {
        self.amount.value() > 0 && fits(self.amount.value())
    }

    /// The exact value, counted in units of 10^-28.
    pub closed spec fn value(self) -> int {
        self.amount.value()
    }

    /// Accepts `amount` when it is above zero.
    pub fn from_amount(amount: Amount) -> (r: Result<PositiveDecimal, PositiveDecimalError>)
        ensures
            amount.value() < 0 <==> r == Err::<PositiveDecimal, _>(
                PositiveDecimalError::NegativeAmount,
            ),
            amount.value() == 0 <==> r == Err::<PositiveDecimal, _>(
                PositiveDecimalError::ZeroAmount,
            ),
            r matches Ok(p) ==> p.value() == amount.value(),
    {
        if amount.is_negative() {
            return Err(PositiveDecimalError::NegativeAmount);
        }
        if amount.is_zero() {
            return Err(PositiveDecimalError::ZeroAmount);
        }
        Ok(PositiveDecimal { amount })
    }

    /// Accepts the value of `value` when it is above zero. A value with the
    /// sign flag set, a negative zero included, is refused as negative.
    pub fn new(value: Decimal) -> (r: Result<PositiveDecimal, PositiveDecimalError>)
        ensures
            r is Ok <==> (!decimal_negative(value) && decimal_value(value) > 0),
            r matches Ok(p) ==> p.value() == decimal_value(value),
            decimal_negative(value) ==> r == Err::<PositiveDecimal, _>(
                PositiveDecimalError::NegativeAmount,
            ),
            !decimal_negative(value) && decimal_value(value) < 0 ==> r == Err::<
                PositiveDecimal,
                _,
            >(PositiveDecimalError::NegativeAmount),
            !decimal_negative(value) && decimal_value(value) == 0 ==> r == Err::<
                PositiveDecimal,
                _,
            >(PositiveDecimalError::ZeroAmount),
    {
        if value.is_sign_negative() {
            return Err(PositiveDecimalError::NegativeAmount);
        }
        let r = PositiveDecimal::from_amount(Amount::from_decimal(value));
        proof {
            if let Err(e) = r {
                match e {
                    PositiveDecimalError::NegativeAmount => {},
                    PositiveDecimalError::ZeroAmount => {},
                }
            }
        }
        r
    }

    /// The amount as a signed decimal.
    pub fn amount(&self) -> (r: Amount)
        ensures
            r.value() == self.value(),
            r.value() > 0,
            fits(r.value()),
    {
        proof {
            use_type_invariant(self);
        }
        self.amount
    }
}

} // verus!

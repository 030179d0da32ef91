use std::collections::BTreeMap;

use vstd::prelude::*;

use crate::states::state_error::StateError;
use crate::structs::split_by_liquidity::SplitByLiquidity;

verus! {

/// Whether one value can be taken from another without going below zero.
pub trait CanSubtract: Sized {
    spec fn spec_can_subtract(&self, other: &Self) -> bool;

    fn can_subtract(&self, other: &Self) -> (res: bool)
        ensures
            res == self.spec_can_subtract(other),
    ;
}

/// Whether a value is empty, or why it is not a value at all.
pub trait IsZero: Sized {
    spec fn spec_is_zero(&self) -> Result<bool, StateError>;

    fn is_zero(&self) -> (res: Result<bool, StateError>)
        ensures
            res == self.spec_is_zero(),
    ;
}

/// The empty value, and adding and taking back values.
pub trait Additive: CanSubtract + Copy {
    spec fn spec_zero() -> Self;

    spec fn plus_fits(&self, other: &Self) -> bool;

    spec fn spec_plus(&self, other: &Self) -> Self;

    spec fn spec_minus(&self, other: &Self) -> Self;

    fn zero() -> (res: Self)
        ensures
            res == Self::spec_zero(),
    ;

    fn plus(&self, other: &Self) -> (res: Self)
        requires
            self.plus_fits(other),
        ensures
            res == self.spec_plus(other),
    ;

    fn minus(&self, other: &Self) -> (res: Self)
        requires
            self.spec_can_subtract(other),
        ensures
            res == self.spec_minus(other),
    ;
}

impl CanSubtract for u64 {
    open spec fn spec_can_subtract(&self, other: &Self) -> bool {
        *self >= *other
    }

    fn can_subtract(&self, other: &Self) -> (res: bool) {
        *self >= *other
    }
}

impl IsZero for u64 {
    open spec fn spec_is_zero(&self) -> Result<bool, StateError> {
        Ok(*self == 0)
    }

    fn is_zero(&self) -> (res: Result<bool, StateError>) {
        Ok(*self == 0)
    }
}

impl Additive for u64 {
    open spec fn spec_zero() -> Self {
        0
    }

    open spec fn plus_fits(&self, other: &Self) -> bool {
        *self + *other <= u64::MAX
    }

    open spec fn spec_plus(&self, other: &Self) -> Self {
        (*self + *other) as u64
    }

    open spec fn spec_minus(&self, other: &Self) -> Self {
        (*self - *other) as u64
    }

    fn zero() -> (res: Self) {
        0
    }

    fn plus(&self, other: &Self) -> (res: Self) {
        *self + *other
    }

    fn minus(&self, other: &Self) -> (res: Self) {
        *self - *other
    }
}

impl CanSubtract for SplitByLiquidity<u64> {
    open spec fn spec_can_subtract(&self, other: &Self) -> bool {
        &&& self.all >= other.all
        &&& self.illiquid >= other.illiquid
        &&& self.liquid >= other.liquid
        &&& self.highly_liquid >= other.highly_liquid
    }

    fn can_subtract(&self, other: &Self) -> (res: bool) {
        self.all >= other.all && self.illiquid >= other.illiquid && self.liquid >= other.liquid
            && self.highly_liquid >= other.highly_liquid
    }
}

impl IsZero for SplitByLiquidity<u64> {
    /// A split is empty when its whole is; a zero whole with a part left is
    /// refused.
    open spec fn spec_is_zero(&self) -> Result<bool, StateError> {
        if self.all == 0 && (self.illiquid != 0 || self.liquid != 0 || self.highly_liquid != 0) {
            Err(StateError::BadSplit)
        } else {
            Ok(self.all == 0)
        }
    }

    fn is_zero(&self) -> (res: Result<bool, StateError>) {
        if self.all == 0 && (self.illiquid != 0 || self.liquid != 0 || self.highly_liquid != 0) {
            Err(StateError::BadSplit)
        } else {
            Ok(self.all == 0)
        }
    }
}

impl Additive for SplitByLiquidity<u64> {
    open spec fn spec_zero() -> Self {
        SplitByLiquidity { all: 0, illiquid: 0, liquid: 0, highly_liquid: 0 }
    }

    open spec fn plus_fits(&self, other: &Self) -> bool {
        &&& self.all + other.all <= u64::MAX
        &&& self.illiquid + other.illiquid <= u64::MAX
        &&& self.liquid + other.liquid <= u64::MAX
        &&& self.highly_liquid + other.highly_liquid <= u64::MAX
    }

    open spec fn spec_plus(&self, other: &Self) -> Self {
        SplitByLiquidity {
            all: (self.all + other.all) as u64,
            illiquid: (self.illiquid + other.illiquid) as u64,
            liquid: (self.liquid + other.liquid) as u64,
            highly_liquid: (self.highly_liquid + other.highly_liquid) as u64,
        }
    }

    open spec fn spec_minus(&self, other: &Self) -> Self {
        SplitByLiquidity {
            all: (self.all - other.all) as u64,
            illiquid: (self.illiquid - other.illiquid) as u64,
            liquid: (self.liquid - other.liquid) as u64,
            highly_liquid: (self.highly_liquid - other.highly_liquid) as u64,
        }
    }

    fn zero() -> (res: Self) {
        SplitByLiquidity { all: 0, illiquid: 0, liquid: 0, highly_liquid: 0 }
    }

    fn plus(&self, other: &Self) -> (res: Self) {
        SplitByLiquidity {
            all: self.all + other.all,
            illiquid: self.illiquid + other.illiquid,
            liquid: self.liquid + other.liquid,
            highly_liquid: self.highly_liquid + other.highly_liquid,
        }
    }

    fn minus(&self, other: &Self) -> (res: Self) {
        SplitByLiquidity {
            all: self.all - other.all,
            illiquid: self.illiquid - other.illiquid,
            liquid: self.liquid - other.liquid,
            highly_liquid: self.highly_liquid - other.highly_liquid,
        }
    }
}

/// The value held at `cents`, or the empty value.
pub open spec fn value_at<T: Additive>(m: Map<u32, T>, cents: u32) -> T {
    if m.contains_key(cents) {
        m[cents]
    } else {
        T::spec_zero()
    }
}

/// Whether `value` can be added at `cents`.
pub open spec fn value_fits<T: Additive>(m: Map<u32, T>, cents: u32, value: T) -> bool {
    value_at(m, cents).plus_fits(&value)
}

/// `value` more held at `cents`.
pub open spec fn value_added_at<T: Additive>(m: Map<u32, T>, cents: u32, value: T) -> Map<u32, T> {
    m.insert(cents, value_at(m, cents).spec_plus(&value))
}

/// The map after `value` is taken back at `cents`, and whether that was
/// refused. A refusal because the value left is no value at all comes after
/// the value was taken.
pub open spec fn value_taken_at<T: Additive + IsZero>(m: Map<u32, T>, cents: u32, value: T) -> (
    Map<u32, T>,
    Result<(), StateError>,
) {
    if !m.contains_key(cents) {
        (m, Err(StateError::MissingValue))
    } else if !m[cents].spec_can_subtract(&value) {
        (m, Err(StateError::ValueTooSmall))
    } else {
        let left = m[cents].spec_minus(&value);
        match left.spec_is_zero() {
            Err(e) => (m.insert(cents, left), Err(e)),
            Ok(true) => (m.remove(cents), Ok(())),
            Ok(false) => (m.insert(cents, left), Ok(())),
        }
    }
}

/// The value held at each price paid, in cents.
#[derive(Debug)]
pub struct PriceInCentsToValue<T>(pub BTreeMap<u32, T>);

impl<T> Default for PriceInCentsToValue<T> {
    fn default() -> (res: Self)
        ensures
            res.0@ == Map::<u32, T>::empty(),
    {
        PriceInCentsToValue(BTreeMap::new())
    }
}

impl<T: Additive + IsZero> PriceInCentsToValue<T> {
    /// Adds `value` to the value held at `cents`.
    pub fn increment(&mut self, cents: u32, value: T)
        requires
            value_fits(old(self).0@, cents, value),
        ensures
            final(self).0@ == value_added_at(old(self).0@, cents, value),
    {
        let current = match self.0.get(&cents) {
            Some(current) => *current,
            None => T::zero(),
        };
        self.0.insert(cents, current.plus(&value));
    }

    /// Takes `value` back from the value held at `cents`, and forgets the
    /// price once the value left is empty.
    pub fn decrement(&mut self, cents: u32, value: T) -> (res: Result<(), StateError>)
        ensures
            (final(self).0@, res) == value_taken_at(old(self).0@, cents, value),
    {
        let current = match self.0.get(&cents) {
            Some(current) => *current,
            None => {
                return Err(StateError::MissingValue);
            },
        };

        if !current.can_subtract(&value) {
            return Err(StateError::ValueTooSmall);
        }

        let left = current.minus(&value);
        self.0.insert(cents, left);

        let delete = match left.is_zero() {
            Ok(delete) => delete,
            Err(e) => {
                return Err(e);
            },
        };

        if delete {
            self.0.remove(&cents);
        }

        Ok(())
    }
}

} // verus!

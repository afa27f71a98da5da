use vstd::prelude::*;

use crate::bbq::Function;

verus! {

/// A signed machine-word integer. Arithmetic wraps around in two's complement.
#[derive(Clone, Copy, Debug, PartialEq, Eq)]
pub struct IntValue {
    pub value: isize,
}

/// A truth value.
#[derive(Clone, Copy, Debug, PartialEq, Eq)]
pub struct BoolValue {
    pub value: bool,
}

/// A handle on a function of the program; it borrows the function and never owns it.
#[derive(Clone, Copy)]
pub struct FunctionValue<'a> {
    pub function: &'a Function,
}

/// Wraps a boolean.
pub open spec fn bool_value(b: bool) -> BoolValue {
    BoolValue { value: b }
}

impl IntValue {
    pub open spec fn spec_add(self, other: IntValue) -> IntValue {
        IntValue { value: self.value.wrapping_add(other.value) }
    }

    pub open spec fn spec_subtract(self, other: IntValue) -> IntValue {
        IntValue { value: self.value.wrapping_sub(other.value) }
    }

    pub open spec fn spec_multiply(self, other: IntValue) -> IntValue {
        IntValue { value: self.value.wrapping_mul(other.value) }
    }

    /// Sum, wrapping on overflow.
    pub fn add(&self, other: &IntValue) -> (r: IntValue)
        ensures
            r == self.spec_add(*other),
    {
        IntValue { value: self.value.wrapping_add(other.value) }
    }

    /// Difference, wrapping on overflow.
    pub fn subtract(&self, other: &IntValue) -> (r: IntValue)
        ensures
            r == self.spec_subtract(*other),
    {
        IntValue { value: self.value.wrapping_sub(other.value) }
    }

    /// Product, wrapping on overflow.
    pub fn multiply(&self, other: &IntValue) -> (r: IntValue)
        ensures
            r == self.spec_multiply(*other),
    {
        IntValue { value: self.value.wrapping_mul(other.value) }
    }

    pub fn less(&self, other: &IntValue) -> (r: BoolValue)
        ensures
            r.value == (self.value < other.value),
    {
        BoolValue { value: self.value < other.value }
    }

    pub fn less_or_equal(&self, other: &IntValue) -> (r: BoolValue)
        ensures
            r.value == (self.value <= other.value),
    {
        BoolValue { value: self.value <= other.value }
    }

    pub fn equal(&self, other: &IntValue) -> (r: BoolValue)
        ensures
            r.value == (self.value == other.value),
    {
        BoolValue { value: self.value == other.value }
    }

    pub fn greater_or_equal(&self, other: &IntValue) -> (r: BoolValue)
        ensures
            r.value == (self.value >= other.value),
    {
        BoolValue { value: self.value >= other.value }
    }

    pub fn greater(&self, other: &IntValue) -> (r: BoolValue)
        ensures
            r.value == (self.value > other.value),
    {
        BoolValue { value: self.value > other.value }
    }
}

} // verus!

//! The operators `+ - * /` and `!` on values.
//!
//! Each arithmetic operator asks of its operands what [`in_range`] says:
//! that the exact result of two integers fits in 64 bits.
use vstd::prelude::*;
use vstd::std_specs::ops::{AddSpecImpl, DivSpecImpl, MulSpecImpl, NotSpecImpl, SubSpecImpl};
use std::ops::{Add, Div, Mul, Not, Sub};
use crate::datavalue::DataValue;
use crate::error::Error;
use crate::operations::{apply, arithmetic, in_range, negate, negation, Operator, Outcome};

verus! {

impl Add for DataValue {
    type Output = Result<Outcome, Error>;

    /// `self + other`; see [`arithmetic`].
    fn add(self, other: DataValue) -> (r: Result<Outcome, Error>)
        ensures
            match arithmetic(Operator::Add, self@, other@) {
                Ok(outcome) => r matches Ok(o) && o@ == outcome,
                Err(error) => r matches Err(e) && e@ == error,
            },
    {
        apply(Operator::Add, self, other)
    }
}

/// The result of `+` is stated by the `ensures` of `add`, over views.
impl AddSpecImpl for DataValue {
    open spec fn obeys_add_spec() -> bool {
        false
    }

    open spec fn add_req(self, other: DataValue) -> bool {
        in_range(Operator::Add, self@, other@)
    }

    open spec fn add_spec(self, other: DataValue) -> Result<Outcome, Error> {
        arbitrary()
    }
}

impl Sub for DataValue {
    type Output = Result<Outcome, Error>;

    /// `self - other`; see [`arithmetic`].
    fn sub(self, other: DataValue) -> (r: Result<Outcome, Error>)
        ensures
            match arithmetic(Operator::Sub, self@, other@) {
                Ok(outcome) => r matches Ok(o) && o@ == outcome,
                Err(error) => r matches Err(e) && e@ == error,
            },
    {
        apply(Operator::Sub, self, other)
    }
}

/// The result of `-` is stated by the `ensures` of `sub`, over views.
impl SubSpecImpl for DataValue {
    open spec fn obeys_sub_spec() -> bool {
        false
    }

    open spec fn sub_req(self, other: DataValue) -> bool {
        in_range(Operator::Sub, self@, other@)
    }

    open spec fn sub_spec(self, other: DataValue) -> Result<Outcome, Error> {
        arbitrary()
    }
}

impl Mul for DataValue {
    type Output = Result<Outcome, Error>;

    /// `self * other`; see [`arithmetic`].
    fn mul(self, other: DataValue) -> (r: Result<Outcome, Error>)
        ensures
            match arithmetic(Operator::Mul, self@, other@) {
                Ok(outcome) => r matches Ok(o) && o@ == outcome,
                Err(error) => r matches Err(e) && e@ == error,
            },
    {
        apply(Operator::Mul, self, other)
    }
}

/// The result of `*` is stated by the `ensures` of `mul`, over views.
impl MulSpecImpl for DataValue {
    open spec fn obeys_mul_spec() -> bool {
        false
    }

    open spec fn mul_req(self, other: DataValue) -> bool {
        in_range(Operator::Mul, self@, other@)
    }

    open spec fn mul_spec(self, other: DataValue) -> Result<Outcome, Error> {
        arbitrary()
    }
}

impl Div for DataValue {
    type Output = Result<Outcome, Error>;

    /// `self / other`; see [`arithmetic`].
    fn div(self, other: DataValue) -> (r: Result<Outcome, Error>)
        ensures
            match arithmetic(Operator::Div, self@, other@) {
                Ok(outcome) => r matches Ok(o) && o@ == outcome,
                Err(error) => r matches Err(e) && e@ == error,
            },
    {
        apply(Operator::Div, self, other)
    }
}

/// The result of `/` is stated by the `ensures` of `div`, over views.
impl DivSpecImpl for DataValue {
    open spec fn obeys_div_spec() -> bool {
        false
    }

    open spec fn div_req(self, other: DataValue) -> bool {
        in_range(Operator::Div, self@, other@)
    }

    open spec fn div_spec(self, other: DataValue) -> Result<Outcome, Error> {
        arbitrary()
    }
}

impl Not for DataValue {
    type Output = Result<DataValue, Error>;

    /// `!self`; see [`negation`].
    fn not(self) -> (r: Result<DataValue, Error>)
        ensures
            match negation(self@) {
                Ok(v) => r matches Ok(d) && d@ == v,
                Err(error) => r matches Err(e) && e@ == error,
            },
    {
        negate(self)
    }
}

/// The result of `!` is stated by the `ensures` of `not`, over views.
impl NotSpecImpl for DataValue {
    open spec fn obeys_not_spec() -> bool {
        false
    }

    open spec fn not_req(self) -> bool {
        true
    }

    open spec fn not_spec(self) -> Result<DataValue, Error> {
        arbitrary()
    }
}

} // verus!

//! `==` and `<` on values.
use vstd::prelude::*;
use vstd::std_specs::cmp::{PartialEqSpecImpl, PartialOrdSpecImpl};
use std::cmp::Ordering;
use crate::datavalue::DataValue;
use crate::operations::{compare, equals, Order};

verus! {

impl PartialEq for DataValue {
    /// Equality of two values; see [`crate::ValueView::equals`].
    fn eq(&self, other: &DataValue) -> (r: bool) {
        equals(self, other)
    }
}

impl PartialEqSpecImpl for DataValue {
    open spec fn obeys_eq_spec() -> bool {
        true
    }

    open spec fn eq_spec(&self, other: &DataValue) -> bool {
        self@.equals(other@)
    }
}

impl PartialOrd for DataValue {
    /// How this value stands to the other; see [`crate::ValueView::compare`].
    fn partial_cmp(&self, other: &DataValue) -> (r: Option<Ordering>) {
        match compare(self, other) {
            Some(Order::Less) => Some(Ordering::Less),
            Some(Order::Equal) => Some(Ordering::Equal),
            Some(Order::Greater) => Some(Ordering::Greater),
            None => None,
        }
    }
}

impl PartialOrdSpecImpl for DataValue {
    open spec fn obeys_partial_cmp_spec() -> bool {
        true
    }

    open spec fn partial_cmp_spec(&self, other: &DataValue) -> Option<Ordering> {
        match self@.compare(other@) {
            Some(Order::Less) => Some(Ordering::Less),
            Some(Order::Equal) => Some(Ordering::Equal),
            Some(Order::Greater) => Some(Ordering::Greater),
            None => None,
        }
    }
}

} // verus!

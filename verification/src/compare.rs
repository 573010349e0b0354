//! Equality and order of values: values are equal when they mean the same;
//! booleans, integers, strings and null are ordered among themselves.

use crate::data::{meaning, AllayData};
use crate::interpreter::order_x;
use crate::semantics::{order_of, Order};
use core::cmp::Ordering;
use vstd::prelude::*;

verus! {

impl PartialEq for AllayData {
    fn eq(&self, other: &AllayData) -> (r: bool) {
        self.same_value(other)
    }
}

impl vstd::std_specs::cmp::PartialEqSpecImpl for AllayData {
    open spec fn obeys_eq_spec() -> bool {
        true
    }

    open spec fn eq_spec(&self, other: &AllayData) -> bool {
        meaning(self@) == meaning(other@)
    }
}

/// The standard ordering of an order.
pub open spec fn std_order(o: Option<Order>) -> Option<Ordering> {
    match o {
        Some(Order::Less) => Some(Ordering::Less),
        Some(Order::Equal) => Some(Ordering::Equal),
        Some(Order::Greater) => Some(Ordering::Greater),
        None => None,
    }
}

impl PartialOrd for AllayData {
    fn partial_cmp(&self, other: &AllayData) -> (r: Option<Ordering>) {
        match order_x(self, other) {
            Some(Order::Less) => Some(Ordering::Less),
            Some(Order::Equal) => Some(Ordering::Equal),
            Some(Order::Greater) => Some(Ordering::Greater),
            None => None,
        }
    }
}

impl vstd::std_specs::cmp::PartialOrdSpecImpl for AllayData {
    open spec fn obeys_partial_cmp_spec() -> bool {
        true
    }

    open spec fn partial_cmp_spec(&self, other: &AllayData) -> Option<Ordering> {
        std_order(order_of(self@, other@))
    }
}

} // verus!

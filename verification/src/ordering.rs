//! The comparison operators of versions and pre-release markers, by the
//! order that [`crate::version::compare_spec`] defines.

use crate::version::{compare_spec, order_pre, Order, PreRelease, Version};
use std::cmp::Ordering;
use vstd::prelude::*;
use vstd::std_specs::cmp::PartialOrdSpecImpl;

verus! {

/// The standard library's name for an outcome.
pub open spec fn std_order(o: Order) -> Ordering {
    match o {
        Order::Less => Ordering::Less,
        Order::Equal => Ordering::Equal,
        Order::Greater => Ordering::Greater,
    }
}

/// Converts an outcome to the standard library's type.
pub fn to_std(o: Order) -> (r: Ordering)
    ensures
        r == std_order(o),
{
    match o {
        Order::Less => Ordering::Less,
        Order::Equal => Ordering::Equal,
        Order::Greater => Ordering::Greater,
    }
}

impl PartialOrd for PreRelease {
    fn partial_cmp(&self, other: &Self) -> (r: Option<Ordering>) {
        Some(to_std(self.compare(other)))
    }
}

impl PartialOrdSpecImpl for PreRelease {
    open spec fn obeys_partial_cmp_spec() -> bool {
        true
    }

    open spec fn partial_cmp_spec(&self, other: &Self) -> Option<Ordering> {
        Some(std_order(order_pre(*self, *other)))
    }
}

impl PartialOrd for Version {
    /// Always `Some`: the order is total. Two versions that differ only in
    /// their local label compare equal, though `==` tells them apart.
    fn partial_cmp(&self, other: &Self) -> (r: Option<Ordering>) {
        Some(to_std(self.compare(other)))
    }
}

impl PartialOrdSpecImpl for Version {
    open spec fn obeys_partial_cmp_spec() -> bool {
        true
    }

    open spec fn partial_cmp_spec(&self, other: &Self) -> Option<Ordering> {
        Some(std_order(compare_spec(self@, other@)))
    }
}

} // verus!

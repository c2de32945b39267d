//! The order of data points by size.

use crate::data::DataPoint;
use std::cmp::Ordering;
use vstd::prelude::*;
use vstd::std_specs::cmp::PartialOrdSpecImpl;

verus! {

/// Data points are ordered by their size alone, whatever their kind: any
/// two of them compare, and those of equal size compare as equal.
impl PartialOrd for DataPoint {
    fn partial_cmp(&self, other: &DataPoint) -> (r: Option<Ordering>) {
        let left = self.scaled();
        let right = other.scaled();
        if left < right {
            Some(Ordering::Less)
        } else if left > right {
            Some(Ordering::Greater)
        } else {
            Some(Ordering::Equal)
        }
    }
}

impl PartialOrdSpecImpl for DataPoint {
    open spec fn obeys_partial_cmp_spec() -> bool {
        true
    }

    open spec fn partial_cmp_spec(&self, other: &DataPoint) -> Option<Ordering> {
        if self.bits() < other.bits() {
            Some(Ordering::Less)
        } else if self.bits() > other.bits() {
            Some(Ordering::Greater)
        } else {
            Some(Ordering::Equal)
        }
    }
}

} // verus!

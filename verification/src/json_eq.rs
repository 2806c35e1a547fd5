//! `==` on documents and numbers: the library's structural equality.

use crate::json::{same_json, same_num, JsonNumber, JsonValue};
use vstd::prelude::*;

verus! {

impl PartialEq for JsonNumber {
    fn eq(&self, other: &Self) -> (r: bool) {
        self.equals(other)
    }
}

impl vstd::std_specs::cmp::PartialEqSpecImpl for JsonNumber {
    open spec fn obeys_eq_spec() -> bool {
        true
    }

    open spec fn eq_spec(&self, other: &Self) -> bool {
        same_num(self@, other@)
    }
}

impl Eq for JsonNumber {

}

impl PartialEq for JsonValue {
    fn eq(&self, other: &Self) -> (r: bool) {
        self.equals(other)
    }
}

impl vstd::std_specs::cmp::PartialEqSpecImpl for JsonValue {
    open spec fn obeys_eq_spec() -> bool {
        true
    }

    open spec fn eq_spec(&self, other: &Self) -> bool {
        same_json(self@, other@)
    }
}

impl Eq for JsonValue {

}

} // verus!

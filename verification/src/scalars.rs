//! The `_Any` scalar: a value that is passed through as it is.

use crate::value::Value;
use vstd::prelude::*;

verus! {

/// Why a value is no input for a scalar.
#[derive(Debug, PartialEq)]
pub enum InputValueError {
    /// The value has another type than the scalar expects.
    ExpectedType(Value),
}

/// A value of any type. Apollo Federation passes the representations of
/// entities from other services in this scalar.
#[derive(Clone, PartialEq, Debug)]
pub struct Any(pub Value);

impl DeepView for Any {
    type V = crate::value::ValueModel;

    open spec fn deep_view(&self) -> crate::value::ValueModel {
        self.0.deep_view()
    }
}

impl Any {
    /// Every value is an input for this scalar: the value itself.
    pub fn parse(value: Value) -> (r: Result<Self, InputValueError>)
        ensures
            r matches Ok(any) && any.0 == value,
    {
        Ok(Any(value))
    }

    /// Every value is valid for this scalar.
    pub fn is_valid(_value: &Value) -> (r: bool)
        ensures
            r,
    {
        true
    }

    /// A copy of the value.
    pub fn to_value(&self) -> (r: Value)
        ensures
            r.deep_view() == self.deep_view(),
    {
        self.0.clone()
    }
}

impl Default for Any {
    /// The null value.
    fn default() -> (r: Any)
        ensures
            r.0 == Value::Null,
    {
        Any(Value::Null)
    }
}

impl From<Value> for Any {
    fn from(value: Value) -> (r: Any) {
        Any(value)
    }
}

impl vstd::std_specs::convert::FromSpecImpl<Value> for Any {
    open spec fn obeys_from_spec() -> bool {
        true
    }

    open spec fn from_spec(value: Value) -> Any {
        Any(value)
    }
}

} // verus!

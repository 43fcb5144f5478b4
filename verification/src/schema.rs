//! The schema tree as it is read from a document, combinators included.

use crate::multiple::Multiple;
use serde_json::Value;
use vstd::prelude::*;

verus! {

/// The primitive types of a value.
#[derive(Debug, Clone, Copy, PartialEq, Eq, Structural)]
pub enum Type {
    Object,
    Array,
    Boolean,
    Integer,
    Number,
    String,
    Null,
}

impl Type {
    /// Every value of type `self` is a value of type `other`: the types are
    /// the same, or an integer is taken for a number.
    pub open spec fn narrows(self, other: Type) -> bool {
        self == other || (self == Type::Integer && other == Type::Number)
    }

    /// The type of the values that have both types, if any.
    pub open spec fn meet(self, other: Type) -> Option<Type> {
        if self.narrows(other) {
            Some(self)
        } else if other.narrows(self) {
            Some(other)
        } else {
            None
        }
    }

    /// Whether every value of type `self` is a value of type `other`.
    pub fn is_within(self, other: Type) -> (r: bool)
        ensures
            r == self.narrows(other),
    {
        self == other || (self == Type::Integer && other == Type::Number)
    }

    /// The type of the values that have both types, if any.
    pub fn intersect(self, other: Type) -> (r: Option<Type>)
        ensures
            r == self.meet(other),
    {
        if self.is_within(other) {
            Some(self)
        } else if other.is_within(self) {
            Some(other)
        } else {
            None
        }
    }
}

/// A `type` restriction: one type, or any of several.
#[derive(Debug, PartialEq)]
pub enum Types {
    One(Type),
    Any(Vec<Type>),
}

/// An `items` restriction: one schema for every item, or one per position.
#[derive(Debug, PartialEq)]
pub enum Items {
    Array(Schema),
    Tuple(Vec<Schema>),
}

/// A dependency of one property: on other properties, or on a schema.
#[derive(Debug, PartialEq)]
pub enum Dependency {
    Property(Vec<String>),
    Schema(Schema),
}

/// A schema: accept all or nothing, or a set of restrictions.
#[derive(Debug, PartialEq)]
pub enum Schema {
    Simple(bool),
    Complex(Box<Restrictions>),
}

/// The restrictions of one schema node. A field that is `None` restricts
/// nothing.
///
/// Numeric bounds are positions on the number line (see
/// [`Point`](crate::unit::Point)). Maps from names to schemas are held as lists
/// of pairs, read in order.
#[derive(Debug, Default, PartialEq)]
pub struct Restrictions {
    pub id: Option<String>,
    pub ref_: Option<String>,
    pub schema: Option<String>,
    pub title: Option<String>,
    pub description: Option<String>,
    pub default: Option<Value>,
    pub multiple_of: Option<Multiple>,
    pub maximum: Option<i64>,
    pub exclusive_maximum: Option<i64>,
    pub minimum: Option<i64>,
    pub exclusive_minimum: Option<i64>,
    pub max_length: Option<u32>,
    pub min_length: Option<u32>,
    pub pattern: Option<String>,
    pub additional_items: Option<Schema>,
    pub items: Option<Items>,
    pub max_items: Option<u32>,
    pub min_items: Option<u32>,
    pub unique_items: Option<bool>,
    pub max_properties: Option<u32>,
    pub min_properties: Option<u32>,
    pub required: Option<Vec<String>>,
    pub additional_properties: Option<Schema>,
    pub property_names: Option<Schema>,
    pub contains: Option<Schema>,
    pub format: Option<String>,
    pub definitions: Option<Vec<(String, Schema)>>,
    pub properties: Option<Vec<(String, Schema)>>,
    pub pattern_properties: Option<Vec<(String, Schema)>>,
    pub dependencies: Option<Vec<(String, Dependency)>>,
    pub enum_: Option<Vec<Value>>,
    pub const_: Option<Value>,
    pub type_: Option<Types>,
    pub all_of: Option<Vec<Schema>>,
    pub any_of: Option<Vec<Schema>>,
    pub one_of: Option<Vec<Schema>>,
    pub not: Option<Schema>,
}

} // verus!

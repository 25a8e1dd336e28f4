//! A flat, named collection of typed properties.
//!
//! Purely a container: it keeps insertion order, enforces no name
//! uniqueness, and persists nothing of its own — each member property
//! manages its own file independently.
use vstd::prelude::*;

use crate::property::TypedProperty;

verus! {

/// A named group of typed properties sharing a location namespace. The
/// namespace is informational: member locations are not checked against it.
#[derive(Debug)]
pub struct PropertyGroup {
    /// The namespace root the members conceptually live under.
    pub location: String,
    /// The members, in insertion order; names need not be unique.
    pub properties: Vec<TypedProperty>,
}

impl PropertyGroup {
    /// An empty group under the given namespace root.
    pub fn new(location: String) -> (r: PropertyGroup)
        ensures
            r.location == location,
            r.properties@.len() == 0,
    {
        PropertyGroup { location, properties: Vec::new() }
    }

    /// Appends a property to the group, keeping all existing members.
    pub fn add(&mut self, property: TypedProperty)
        ensures
            final(self).location == old(self).location,
            final(self).properties@ == old(self).properties@.push(property),
    {
        self.properties.push(property);
    }

    /// How many properties the group holds.
    pub fn len(&self) -> (r: usize)
        ensures
            r == self.properties@.len(),
    {
        self.properties.len()
    }
}

} // verus!

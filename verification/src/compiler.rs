//! What the compilation of a schema knows.

use crate::paths::{Location, LocationSegment};
use crate::value::{lookup, ObjectMap, OwnedValue};
use vstd::prelude::*;

verus! {

/// Where compilation is in a schema, and what references lead to.
pub struct Context<'a> {
    pub location: Location,
    /// The schema that each reference leads to, where it leads to one.
    pub resources: &'a ObjectMap,
}

impl<'a> Context<'a> {
    /// The context of a part of the schema.
    pub fn new_at_location(&self, segment: LocationSegment) -> (ctx: Context<'a>)
        ensures
            ctx.location@ == self.location@.push(segment@),
            ctx.resources == self.resources,
    {
        Context { location: self.location.join(segment), resources: self.resources }
    }

    /// Where compilation is.
    pub fn location(&self) -> (location: &Location)
        ensures
            *location == self.location,
    {
        &self.location
    }

    /// The schema that a reference leads to.
    pub fn lookup(&self, reference: &str) -> (schema: Option<&'a OwnedValue>)
        ensures
            schema is Some <==> lookup(self.resources@, reference@) is Some,
            schema matches Some(s) ==> lookup(self.resources@, reference@) == Some(s@),
    {
        self.resources.get(reference)
    }
}

} // verus!

//! Locations in a schema or an instance.

use vstd::prelude::*;

verus! {

/// One step of a location: into a property of an object, or an item of an array.
pub enum Step {
    Property(Seq<char>),
    Index(int),
}

/// One step of a location.
#[derive(Debug)]
pub enum LocationSegment {
    Property(String),
    Index(usize),
}

impl View for LocationSegment {
    type V = Step;

    open spec fn view(&self) -> Step {
        match *self {
            LocationSegment::Property(name) => Step::Property(name@),
            LocationSegment::Index(index) => Step::Index(index as int),
        }
    }
}

impl Clone for LocationSegment {
    fn clone(&self) -> (copy: LocationSegment)
        ensures
            copy@ == self@,
    {
        match self {
            LocationSegment::Property(name) => LocationSegment::Property(name.clone()),
            LocationSegment::Index(index) => LocationSegment::Index(*index),
        }
    }
}

/// The way from a root to one of its parts.
#[derive(Debug)]
pub struct Location {
    pub segments: Vec<LocationSegment>,
}

impl View for Location {
    type V = Seq<Step>;

    open spec fn view(&self) -> Seq<Step> {
        Seq::new(self.segments@.len(), |i: int| self.segments@[i]@)
    }
}

impl Clone for Location {
    fn clone(&self) -> (copy: Location)
        ensures
            copy@ == self@,
    {
        let mut segments: Vec<LocationSegment> = Vec::new();
        let mut i: usize = 0;
        while i < self.segments.len()
            invariant
                i <= self.segments.len(),
                segments.len() == i,
                forall|k: int| 0 <= k < i ==> (#[trigger] segments@[k])@ == self.segments@[k]@,
            decreases self.segments.len() - i,
        {
            segments.push(self.segments[i].clone());
            i += 1;
        }
        let copy = Location { segments };
        assert(copy@ =~= self@);
        copy
    }
}

impl Location {
    /// The root.
    pub fn new() -> (location: Location)
        ensures
            location@ == Seq::<Step>::empty(),
    {
        let location = Location { segments: Vec::new() };
        assert(location@ =~= Seq::empty());
        location
    }

    /// The location one step further.
    pub fn join(&self, segment: LocationSegment) -> (location: Location)
        ensures
            location@ == self@.push(segment@),
    {
        let ghost step = segment@;
        let mut location = self.clone();
        location.segments.push(segment);
        assert(location@ =~= self@.push(step));
        location
    }
}

} // verus!

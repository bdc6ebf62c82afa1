//! The rank and the facet count of any name at once, with a look at the
//! limits of the machine: [`Name::measure`] tells both, or tells that some
//! rank or facet count that they are derived from does not fit the
//! machine's words.
use crate::model::{facet_count_of, measurable, NameView, rank_of};
use crate::name::Name;
use crate::regime::NameType;
use vstd::prelude::*;

verus! {

/// What can be read off a name: its rank and its facet count, each where
/// the name tells it.
#[derive(Clone, Copy, Debug, PartialEq, Eq, Structural)]
pub struct Measure {
    /// The rank, where it is known.
    pub rank: Option<isize>,
    /// The facet count, where it is known.
    pub facets: Option<usize>,
}

/// Whether a measure is that of a name.
pub open spec fn measure_of(m: Measure, n: NameView) -> bool {
    &&& match m.rank {
        Some(r) => rank_of(n) == Some(r as int),
        None => rank_of(n) is None,
    }
    &&& match m.facets {
        Some(f) => facet_count_of(n) == Some(f as nat),
        None => facet_count_of(n) is None,
    }
}

impl<T: NameType> Name<T> {
    /// The rank and the facet count of the name, each where the name tells
    /// it, or `None` where one of them cannot be told within the limits of
    /// the machine.
    pub fn measure(&self) -> (r: Option<Measure>)
        ensures
            match r {
                Some(m) => measurable(self@) && measure_of(m, self@),
                None => !measurable(self@),
            },
    {
        match self.checked_rank() {
            Some(rank) => match self.checked_facet_count() {
                Some(facets) => Some(Measure { rank, facets }),
                None => None,
            },
            None => None,
        }
    }

    /// Whether the rank and the facet count of the name can be told within
    /// the limits of the machine.
    pub fn is_measurable(&self) -> (b: bool)
        ensures
            b == measurable(self@),
    {
        self.measure().is_some()
    }
}

} // verus!

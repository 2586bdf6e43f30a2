//! Filter specifications: which series to select from the upstream
//! provider's catalogue.
//!
//! The specification text itself is parsed by an outside collaborator, which
//! hands over plain [`TagSelector`] records.

use vstd::prelude::*;
use crate::countries::Country;
use crate::primitives::DataType;

verus! {

/// The views of a vector of owned strings.
pub open spec fn strings_view(v: Seq<String>) -> Seq<Seq<char>> {
    v.map_values(|s: String| s@)
}

/// One selector: the tags that pick a set of series from the provider, and
/// the title rules that keep or drop each candidate.
#[derive(Debug)]
pub struct TagSelector {
    pub country: Country,
    pub data_type: DataType,
    pub tags: Vec<String>,
    pub enumerate: Vec<String>,
    pub exclude: Vec<String>,
    pub require: Vec<String>,
}

/// A filter specification: selectors in declaration order.
#[derive(Debug)]
pub struct FilterSpec(pub Vec<TagSelector>);

impl FilterSpec {
    /// A walk over the selectors, in declaration order.
    pub fn iter<'a>(&'a self) -> (it: FilterSpecIter<'a>)
        ensures
            it.filter_spec == self,
            it.count == 0,
    {
        FilterSpecIter { filter_spec: self, count: 0 }
    }
}

/// A walk over the selectors of a [`FilterSpec`].
pub struct FilterSpecIter<'a> {
    pub filter_spec: &'a FilterSpec,
    pub count: usize,
}

impl<'a> FilterSpecIter<'a> {
    /// The next selector, in declaration order.
    pub fn next(&mut self) -> (r: Option<&'a TagSelector>)
        ensures
            final(self).filter_spec == old(self).filter_spec,
            match r {
                Some(t) => {
                    &&& old(self).count < old(self).filter_spec.0@.len()
                    &&& *t == old(self).filter_spec.0@[old(self).count as int]
                    &&& final(self).count == old(self).count + 1
                },
                None => {
                    &&& old(self).count >= old(self).filter_spec.0@.len()
                    &&& final(self).count == old(self).count
                },
            },
    {
        if self.count >= self.filter_spec.0.len() {
            None
        } else {
            self.count = self.count + 1;
            Some(&self.filter_spec.0[self.count - 1])
        }
    }
}

} // verus!

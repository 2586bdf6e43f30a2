//! Declared series records, as the external specification parser produces
//! them.
//!
//! The parser itself is an outside collaborator: it reads the specification
//! text and hands over plain [`SeriesSpec`] records, which everything in this
//! crate consumes.

use vstd::prelude::*;
use crate::countries::Country;
use crate::primitives::{DataType, SeriesId};

verus! {

/// The mathematical value of a [`SeriesSpec`]: its fields, with the
/// identifier as a character sequence.
pub struct SeriesRec {
    pub data_type: DataType,
    pub country: Country,
    pub series_id: Seq<char>,
}

/// One declared series: its category, its country, and its identifier.
#[derive(Debug)]
pub struct SeriesSpec {
    pub data_type: DataType,
    pub country: Country,
    pub series_id: SeriesId,
}

impl View for SeriesSpec {
    type V = SeriesRec;

    open spec fn view(&self) -> SeriesRec {
        SeriesRec { data_type: self.data_type, country: self.country, series_id: self.series_id@ }
    }
}

impl Clone for SeriesSpec {
    fn clone(&self) -> (r: Self)
        ensures
            r@ == self@,
    {
        SeriesSpec {
            data_type: self.data_type,
            country: self.country,
            series_id: self.series_id.clone(),
        }
    }
}

impl PartialEq for SeriesSpec {
    fn eq(&self, other: &Self) -> (r: bool) {
        self.data_type == other.data_type && self.country == other.country && self.series_id
            == other.series_id
    }
}

impl vstd::std_specs::cmp::PartialEqSpecImpl for SeriesSpec {
    open spec fn obeys_eq_spec() -> bool {
        true
    }

    open spec fn eq_spec(&self, other: &Self) -> bool {
        self@ == other@
    }
}

impl SeriesSpec {
    /// A record from its parts.
    pub fn new(data_type: DataType, country: Country, series_id: SeriesId) -> (r: Self)
        ensures
            r@ == (SeriesRec { data_type, country, series_id: series_id@ }),
    {
        SeriesSpec { data_type, country, series_id }
    }

    /// The series category.
    pub fn data_type(&self) -> (r: DataType)
        ensures
            r == self@.data_type,
    {
        self.data_type
    }

    /// The country.
    pub fn country(&self) -> (r: Country)
        ensures
            r == self@.country,
    {
        self.country
    }

    /// The identifier.
    pub fn series_id(&self) -> (r: SeriesId)
        ensures
            r@ == self@.series_id,
    {
        self.series_id.clone()
    }
}

/// An ordered set of declared series, as one specification file declares
/// them.
#[derive(Debug)]
pub struct SeriessSpec {
    pub series: Vec<SeriesSpec>,
}

impl View for SeriessSpec {
    type V = Seq<SeriesRec>;

    open spec fn view(&self) -> Seq<SeriesRec> {
        Seq::new(self.series@.len(), |i: int| self.series@[i]@)
    }
}

impl SeriessSpec {
    /// A walk over the declared series, in declaration order.
    pub fn iter(&self) -> (it: SeriessSpecIter)
        ensures
            it.data == self,
            it.count == 0,
    {
        SeriessSpecIter { data: self, count: 0 }
    }
}

/// A by-value walk over the records of a [`SeriessSpec`].
pub struct SeriessSpecIter<'a> {
    pub data: &'a SeriessSpec,
    pub count: usize,
}

impl<'a> SeriessSpecIter<'a> {
    /// The next record, in declaration order.
    pub fn next(&mut self) -> (r: Option<SeriesSpec>)
        ensures
            final(self).data == old(self).data,
            match r {
                Some(s) => {
                    &&& old(self).count < old(self).data@.len()
                    &&& s@ == old(self).data@[old(self).count as int]
                    &&& final(self).count == old(self).count + 1
                },
                None => {
                    &&& old(self).count >= old(self).data@.len()
                    &&& final(self).count == old(self).count
                },
            },
    {
        if self.count >= self.data.series.len() {
            None
        } else {
            self.count = self.count + 1;
            Some(self.data.series[self.count - 1].clone())
        }
    }
}

} // verus!

//! Series records of the time-series page specifications.

use vstd::prelude::*;
use crate::primitives::{DataType, SeriesId};

verus! {

/// One series as a page specification names it: its category and its
/// identifier.
#[derive(Debug)]
pub struct Series {
    pub data_type: DataType,
    pub series_id: SeriesId,
}

impl Clone for Series {
    fn clone(&self) -> (r: Self)
        ensures
            r.data_type == self.data_type,
            r.series_id@ == self.series_id@,
    {
        Series { data_type: self.data_type, series_id: self.series_id.clone() }
    }
}

impl Series {
    /// A record from its parts.
    pub fn new(data_type: DataType, series_id: SeriesId) -> (r: Self)
        ensures
            r.data_type == data_type,
            r.series_id@ == series_id@,
    {
        Series { data_type, series_id }
    }
}

} // verus!

//! Per-series metadata, as the external parser hands it over.

use vstd::prelude::*;
use crate::primitives::SeriesId;

verus! {

/// The metadata record of one series: plain fields, produced by the outside
/// parser of the metadata files.
#[derive(Debug)]
pub struct Series {
    pub realtime: String,
    pub series_id: SeriesId,
    pub title: String,
    pub observation_start: String,
    pub observation_end: String,
    pub frequency: String,
    pub seasonal_adjustment: String,
}

impl Series {
    /// A metadata record from its parts.
    pub fn new(
        realtime: String,
        series_id: SeriesId,
        title: String,
        observation_start: String,
        observation_end: String,
        frequency: String,
        seasonal_adjustment: String,
    ) -> (r: Self)
        ensures
            r.realtime@ == realtime@,
            r.series_id@ == series_id@,
            r.title@ == title@,
            r.observation_start@ == observation_start@,
            r.observation_end@ == observation_end@,
            r.frequency@ == frequency@,
            r.seasonal_adjustment@ == seasonal_adjustment@,
    {
        Series {
            realtime,
            series_id,
            title,
            observation_start,
            observation_end,
            frequency,
            seasonal_adjustment,
        }
    }
}

} // verus!

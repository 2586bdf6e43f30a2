//! Categories and records for the time-series graphics pages.

pub mod js_scripts;
pub mod ts_spec;

use vstd::prelude::*;

verus! {

/// The category of one graphic on a page.
#[derive(Clone, Copy, Debug, Eq, PartialEq, Structural)]
pub enum TSGraphicCategory {
    /// The top graphic, displaying every time series at once.
    Collation,
    /// One untransformed series, straight from its source.
    Source,
    /// Data that has been selected and transformed.
    Cleaned,
}

impl TSGraphicCategory {
    /// The canonical label of the category.
    pub open spec fn label_of(self) -> Seq<char> {
        match self {
            TSGraphicCategory::Collation => "collation"@,
            TSGraphicCategory::Source => "source"@,
            TSGraphicCategory::Cleaned => "cleaned"@,
        }
    }

    /// The canonical label as a string slice.
    pub fn as_label(&self) -> (r: &'static str)
        ensures
            r@ == self.label_of(),
    {
        match self {
            TSGraphicCategory::Collation => "collation",
            TSGraphicCategory::Source => "source",
            TSGraphicCategory::Cleaned => "cleaned",
        }
    }

    /// The category whose label is `s`, if any.
    pub fn from_label(s: &str) -> (r: Option<TSGraphicCategory>)
        ensures
            match r {
                Some(c) => s@ == c.label_of(),
                None => forall|c: TSGraphicCategory| s@ != #[trigger] c.label_of(),
            },
    {
        if crate::text::str_eq(s, "collation") {
            Some(TSGraphicCategory::Collation)
        } else if crate::text::str_eq(s, "source") {
            Some(TSGraphicCategory::Source)
        } else if crate::text::str_eq(s, "cleaned") {
            Some(TSGraphicCategory::Cleaned)
        } else {
            None
        }
    }
}

} // verus!

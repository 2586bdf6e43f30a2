//! The primitive values of the store: series categories and identifiers.

use vstd::prelude::*;
use crate::text::find_char;

verus! {

/// The closed set of series categories: unemployment, consumer price index,
/// inflation.
#[derive(Clone, Copy, Debug, Eq, Hash, PartialEq, Structural)]
pub enum DataType {
    U,
    Cpi,
    Inf,
}

impl DataType {
    /// The canonical label, as it appears in specification files and
    /// directory names.
    pub open spec fn label_of(self) -> Seq<char> {
        match self {
            DataType::U => "u"@,
            DataType::Cpi => "cpi"@,
            DataType::Inf => "inf"@,
        }
    }

    /// Position in the canonical order of categories.
    pub open spec fn rank_of(self) -> int {
        match self {
            DataType::U => 0,
            DataType::Cpi => 1,
            DataType::Inf => 2,
        }
    }

    /// The canonical label as a string slice.
    pub fn as_label(&self) -> (r: &'static str)
        ensures
            r@ == self.label_of(),
    {
        match self {
            DataType::U => "u",
            DataType::Cpi => "cpi",
            DataType::Inf => "inf",
        }
    }

    /// The canonical label as an owned string.
    pub fn label(&self) -> (r: String)
        ensures
            r@ == self.label_of(),
    {
        String::from_str(self.as_label())
    }

    /// The category whose label is `s`, if any.
    pub fn from_label(s: &str) -> (r: Option<DataType>)
        ensures
            match r {
                Some(dt) => s@ == dt.label_of(),
                None => forall|dt: DataType| s@ != #[trigger] dt.label_of(),
            },
    {
        if crate::text::str_eq(s, "u") {
            Some(DataType::U)
        } else if crate::text::str_eq(s, "cpi") {
            Some(DataType::Cpi)
        } else if crate::text::str_eq(s, "inf") {
            Some(DataType::Inf)
        } else {
            None
        }
    }

    /// Executable form of `rank_of`.
    pub fn rank(&self) -> (r: u8)
        ensures
            r as int == self.rank_of(),
    {
        match self {
            DataType::U => 0,
            DataType::Cpi => 1,
            DataType::Inf => 2,
        }
    }
}

/// The base identifier of a series identifier: everything before the first
/// `_`, which separates a transformation suffix from the base.
pub open spec fn stem_of(s: Seq<char>) -> Seq<char> {
    match s.index_of_first('_') {
        Some(i) => s.subrange(0, i),
        None => s,
    }
}

/// An opaque series identifier, such as one assigned by an upstream data
/// provider. A derived series carries a `_suffix` after the base identifier.
#[derive(Debug)]
pub struct SeriesId(pub String);

impl View for SeriesId {
    type V = Seq<char>;

    open spec fn view(&self) -> Seq<char> {
        self.0@
    }
}

impl Clone for SeriesId {
    fn clone(&self) -> (r: Self)
        ensures
            r@ == self@,
    {
        SeriesId(self.0.clone())
    }
}

impl PartialEq for SeriesId {
    fn eq(&self, other: &Self) -> (r: bool) {
        self.0 == other.0
    }
}

impl vstd::std_specs::cmp::PartialEqSpecImpl for SeriesId {
    open spec fn obeys_eq_spec() -> bool {
        true
    }

    open spec fn eq_spec(&self, other: &Self) -> bool {
        self.0@ == other.0@
    }
}

impl SeriesId {
    /// A new identifier holding the given characters.
    pub fn new(s: &str) -> (r: Self)
        ensures
            r@ == s@,
    {
        SeriesId(String::from_str(s))
    }

    /// The identifier without any transformation suffix.
    pub fn stem(&self) -> (r: Self)
        ensures
            r@ == stem_of(self@),
    {
        proof {
            self@.index_of_first_ensures('_');
        }
        match find_char(self.0.as_str(), '_') {
            Some(i) => {
                proof {
                    let k = self@.index_of_first('_')->Some_0;
                    assert(!(k < i)) by {
                        if k < i {
                            assert(self@[k] != '_');
                        }
                    }
                    assert(!(k > i)) by {
                        if k > i {
                            assert(self@[i as int] != '_');
                        }
                    }
                }
                let w = self.0.as_str().substring_char(0, i);
                SeriesId(String::from_str(w))
            },
            None => {
                proof {
                    if self@.contains('_') {
                        let k = choose|k: int| 0 <= k < self@.len() && self@[k] == '_';
                        assert(self@[k] != '_');
                    }
                }
                SeriesId(self.0.clone())
            },
        }
    }

    /// The identifier's characters as a string slice.
    pub fn as_str(&self) -> (r: &str)
        ensures
            r@ == self@,
    {
        self.0.as_str()
    }
}

} // verus!

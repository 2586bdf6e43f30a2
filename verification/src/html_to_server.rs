//! A keyed store of page text, ready for serving.
//!
//! Reading the files from disk and answering HTTP requests are the
//! application shell's work; the store itself is a plain association list
//! with exact lookup semantics.

use vstd::prelude::*;
use crate::text::str_eq;

verus! {

/// Page text by key: the first entry under a key answers for it.
#[derive(Debug)]
pub struct Html(pub Vec<(String, String)>);

impl Html {
    /// A store holding the given entries, in order.
    pub fn from_entries(entries: Vec<(String, String)>) -> (r: Self)
        ensures
            r.0@ == entries@,
    {
        Html(entries)
    }

    /// The text stored under `key`, if any: the first entry whose key
    /// matches.
    pub fn get(&self, key: &str) -> (r: Option<String>)
        ensures
            match r {
                Some(v) => exists|i: int|
                    {
                        &&& 0 <= i < self.0@.len()
                        &&& (#[trigger] self.0@[i].0)@ == key@
                        &&& v@ == self.0@[i].1@
                        &&& forall|j: int| 0 <= j < i ==> (#[trigger] self.0@[j].0)@ != key@
                    },
                None => forall|i: int| 0 <= i < self.0@.len() ==> (#[trigger] self.0@[i].0)@ != key@,
            },
    {
        let mut i: usize = 0;
        while i < self.0.len()
            invariant
                i <= self.0@.len(),
                forall|j: int| 0 <= j < i ==> (#[trigger] self.0@[j].0)@ != key@,
            decreases self.0@.len() - i,
        {
            if str_eq(self.0[i].0.as_str(), key) {
                return Some(self.0[i].1.clone());
            }
            i = i + 1;
        }
        None
    }
}

} // verus!

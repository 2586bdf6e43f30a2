//! The script store of the graphics pages, keyed by file stem.
//!
//! Reading the script files and answering HTTP requests belong to the
//! application shell; the keyed store and the key derivation are verified
//! here.

use vstd::prelude::*;
use crate::error::Error;
use crate::path::file_stem_of;
use crate::text::str_eq;

verus! {

/// A script key: the file name without directory or extension.
#[derive(Debug)]
pub struct Key(pub String);

impl Clone for Key {
    fn clone(&self) -> (r: Self)
        ensures
            r.0@ == self.0@,
    {
        Key(self.0.clone())
    }
}

impl Key {
    /// The key of a script file: its stem. An empty stem — an empty path, or
    /// one that ends in a separator — has no key.
    pub fn from_path(path: &str) -> (r: Result<Key, Error>)
        ensures
            match r {
                Ok(k) => file_stem_of(path@).len() > 0 && k.0@ == file_stem_of(path@),
                Err(Error::Io { .. }) => file_stem_of(path@).len() == 0,
                Err(_) => false,
            },
    {
        let stem = crate::path::file_stem(path);
        if stem.as_str().unicode_len() == 0 {
            Err(Error::Io { message: String::from_str("found a path without a file name") })
        } else {
            Ok(Key(stem))
        }
    }

    /// The key from its characters.
    pub fn from_name(s: &str) -> (r: Key)
        ensures
            r.0@ == s@,
    {
        Key(String::from_str(s))
    }
}

/// The scripts by key: the first entry under a key answers for it.
#[derive(Debug)]
pub struct JsScripts(pub Vec<(Key, String)>);

impl JsScripts {
    /// A store holding the given entries, in order.
    pub fn from_entries(entries: Vec<(Key, String)>) -> (r: Self)
        ensures
            r.0@ == entries@,
    {
        JsScripts(entries)
    }

    /// The script stored under `key`, if any: the first entry whose key
    /// matches.
    pub fn get(&self, key: &Key) -> (r: Option<String>)
        ensures
            match r {
                Some(v) => exists|i: int|
                    {
                        &&& 0 <= i < self.0@.len()
                        &&& (#[trigger] self.0@[i].0).0@ == key.0@
                        &&& v@ == self.0@[i].1@
                        &&& forall|j: int| 0 <= j < i ==> (#[trigger] self.0@[j].0).0@ != key.0@
                    },
                None => forall|i: int|
                    0 <= i < self.0@.len() ==> (#[trigger] self.0@[i].0).0@ != key.0@,
            },
    {
        let mut i: usize = 0;
        while i < self.0.len()
            invariant
                i <= self.0@.len(),
                forall|j: int| 0 <= j < i ==> (#[trigger] self.0@[j].0).0@ != key.0@,
            decreases self.0@.len() - i,
        {
            if str_eq(self.0[i].0.0.as_str(), key.0.as_str()) {
                return Some(self.0[i].1.clone());
            }
            i = i + 1;
        }
        None
    }
}

} // verus!

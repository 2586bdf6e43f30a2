//! Directory listings and their validation.
//!
//! A [`Resources`] value holds the paths listed from one directory. The
//! methods here filter a listing by extension, assert that a directory holds
//! only permitted file kinds, and look files up by their final path
//! component. The listing itself is handed in by the caller: nothing here
//! reads the filesystem.

pub mod impls;

use vstd::prelude::*;
use crate::error::Error;
use crate::path::{extension_of, file_name_of, parent_of, join_of, strs_view};
use crate::text::str_eq;

verus! {

/// Turns a path argument into an owned path string.
pub fn from_path_arg(p: &str) -> (r: String)
    ensures
        r@ == p@,
{
    String::from_str(p)
}

/// Joins path segments onto a root, one `/` before each segment.
///
/// Whether the joined directory actually exists is checked by the caller that
/// owns the filesystem access.
pub fn join_paths(root: &str, paths: Vec<&str>) -> (r: String)
    ensures
        r@ == join_of(root@, strs_view(paths@)),
{
    crate::path::join_segments(root, &paths)
}

/// True when the path's final component carries exactly the given extension.
pub fn extension_is(path: &str, extension: &str) -> (r: bool)
    ensures
        r == (extension_of(path@) == Some(extension@)),
{
    match crate::path::extension(path) {
        Some(e) => str_eq(e.as_str(), extension),
        None => false,
    }
}

/// The path has an extension and it is one of `exts`.
pub open spec fn ext_matches(p: Seq<char>, exts: Seq<Seq<char>>) -> bool {
    match extension_of(p) {
        Some(e) => exts.contains(e),
        None => false,
    }
}

/// The path either has no extension or an extension among `allowed`.
pub open spec fn ext_allowed(p: Seq<char>, allowed: Seq<Seq<char>>) -> bool {
    match extension_of(p) {
        Some(e) => allowed.contains(e),
        None => true,
    }
}

/// The sublisting of paths whose extension is among `exts`, in order.
pub open spec fn filtered_by_ext(listing: Seq<Seq<char>>, exts: Seq<Seq<char>>) -> Seq<Seq<char>>
    decreases listing.len(),
{
    if listing.len() == 0 {
        Seq::empty()
    } else {
        let rest = filtered_by_ext(listing.drop_last(), exts);
        if ext_matches(listing.last(), exts) {
            rest.push(listing.last())
        } else {
            rest
        }
    }
}

/// Some path in the listing has an extension outside `allowed`.
pub open spec fn has_bad_ext(listing: Seq<Seq<char>>, allowed: Seq<Seq<char>>) -> bool {
    exists|i: int| 0 <= i < listing.len() && !ext_allowed(#[trigger] listing[i], allowed)
}

/// Index of the first path whose extension falls outside `allowed`.
pub open spec fn first_bad_ext(listing: Seq<Seq<char>>, allowed: Seq<Seq<char>>) -> int
    decreases listing.len(),
{
    if listing.len() == 0 {
        0
    } else if !ext_allowed(listing[0], allowed) {
        0
    } else {
        1 + first_bad_ext(listing.drop_first(), allowed)
    }
}

/// In a contaminated listing, `first_bad_ext` names the first offender.
pub proof fn lemma_first_bad_ext(listing: Seq<Seq<char>>, allowed: Seq<Seq<char>>)
    requires
        has_bad_ext(listing, allowed),
    ensures
        0 <= first_bad_ext(listing, allowed) < listing.len(),
        !ext_allowed(listing[first_bad_ext(listing, allowed)], allowed),
        forall|j: int|
            0 <= j < first_bad_ext(listing, allowed) ==> ext_allowed(#[trigger] listing[j], allowed),
    decreases listing.len(),
{
    if listing.len() > 0 && ext_allowed(listing[0], allowed) {
        let rest = listing.drop_first();
        assert(has_bad_ext(rest, allowed)) by {
            let i = choose|i: int|
                0 <= i < listing.len() && !ext_allowed(#[trigger] listing[i], allowed);
            assert(rest[i - 1] == listing[i]);
        }
        lemma_first_bad_ext(rest, allowed);
        let fb = first_bad_ext(listing, allowed);
        assert(listing[fb] == rest[fb - 1]);
        assert forall|j: int| 0 <= j < fb implies ext_allowed(#[trigger] listing[j], allowed) by {
            if j > 0 {
                assert(listing[j] == rest[j - 1]);
            }
        }
    }
}

/// Some path in the listing has `name` as its final component.
pub open spec fn listing_has_file(listing: Seq<Seq<char>>, name: Seq<char>) -> bool {
    exists|i: int| 0 <= i < listing.len() && #[trigger] file_name_of(listing[i]) == name
}

/// A collection of files listed from one directory.
#[derive(Debug)]
pub struct Resources(pub Vec<String>);

impl View for Resources {
    type V = Seq<Seq<char>>;

    open spec fn view(&self) -> Seq<Seq<char>> {
        Seq::new(self.0@.len(), |i: int| self.0@[i]@)
    }
}

/// A by-value walk over the paths of a [`Resources`].
pub struct ResourcesIter<'a> {
    pub data: &'a Resources,
    pub count: usize,
}

impl<'a> ResourcesIter<'a> {
    /// The next path, or nothing once every path has been handed out.
    pub fn next(&mut self) -> (r: Option<String>)
        ensures
            final(self).data == old(self).data,
            match r {
                Some(p) => {
                    &&& old(self).count < old(self).data@.len()
                    &&& p@ == old(self).data@[old(self).count as int]
                    &&& final(self).count == old(self).count + 1
                },
                None => {
                    &&& old(self).count >= old(self).data@.len()
                    &&& final(self).count == old(self).count
                },
            },
    {
        if self.count >= self.data.0.len() {
            None
        } else {
            self.count = self.count + 1;
            Some(self.data.0[self.count - 1].clone())
        }
    }
}

/// `strs_view(exts)` holds `e`.
fn ext_list_contains(exts: &Vec<&str>, e: &str) -> (r: bool)
    ensures
        r == strs_view(exts@).contains(e@),
{
    let mut j: usize = 0;
    while j < exts.len()
        invariant
            j <= exts@.len(),
            forall|k: int| 0 <= k < j ==> strs_view(exts@)[k] != e@,
        decreases exts@.len() - j,
    {
        if str_eq(exts[j], e) {
            assert(strs_view(exts@)[j as int] == e@);
            return true;
        }
        j = j + 1;
    }
    proof {
        if strs_view(exts@).contains(e@) {
            let k = choose|k: int|
                0 <= k < strs_view(exts@).len() && strs_view(exts@)[k] == e@;
            assert(strs_view(exts@)[k] != e@);
        }
    }
    false
}

impl Resources {
    /// A listing made of the given paths, in order.
    pub fn new(paths: Vec<String>) -> (r: Self)
        ensures
            r.0@ == paths@,
    {
        Resources(paths)
    }

    /// The number of paths in the listing.
    pub fn len(&self) -> (n: usize)
        ensures
            n == self@.len(),
    {
        self.0.len()
    }

    /// The path at the given position.
    pub fn get(&self, i: usize) -> (r: &String)
        requires
            i < self@.len(),
        ensures
            r@ == self@[i as int],
    {
        &self.0[i]
    }

    /// A walk over the paths.
    pub fn iter(&self) -> (it: ResourcesIter)
        ensures
            it.data == self,
            it.count == 0,
    {
        ResourcesIter { data: self, count: 0 }
    }

    /// The paths whose extension is among `ext`, in order.
    pub fn filter_by_ext(&self, ext: Vec<&str>) -> (r: Resources)
        ensures
            r@ == filtered_by_ext(self@, strs_view(ext@)),
    {
        let ghost exts = strs_view(ext@);
        let mut acc: Vec<String> = Vec::new();
        let mut i: usize = 0;
        proof {
            assert(self@.take(0) =~= Seq::<Seq<char>>::empty());
        }
        while i < self.0.len()
            invariant
                i <= self@.len(),
                exts == strs_view(ext@),
                self@.len() == self.0@.len(),
                Seq::new(acc@.len(), |k: int| acc@[k]@) =~= filtered_by_ext(
                    self@.take(i as int),
                    exts,
                ),
            decreases self@.len() - i,
        {
            let keep = match crate::path::extension(self.0[i].as_str()) {
                Some(e) => ext_list_contains(&ext, e.as_str()),
                None => false,
            };
            proof {
                assert(self@[i as int] == self.0@[i as int]@);
                assert(keep == ext_matches(self@[i as int], exts));
                assert(self@.take(i + 1).drop_last() =~= self@.take(i as int));
                assert(self@.take(i + 1).last() == self@[i as int]);
            }
            if keep {
                acc.push(self.0[i].clone());
            }
            i = i + 1;
        }
        proof {
            assert(self@.take(self@.len() as int) =~= self@);
        }
        let r = Resources(acc);
        proof {
            assert(r@ =~= filtered_by_ext(self@, exts));
        }
        r
    }

    /// Checks that every path's extension is among `ext`; a path without an
    /// extension is tolerated. On the first offender the whole listing is
    /// rejected with the offending extension, the directory and the allowed
    /// set.
    pub fn only_ext(&self, ext: Vec<&str>) -> (r: Result<(), Error>)
        ensures
            match r {
                Ok(()) => !has_bad_ext(self@, strs_view(ext@)),
                Err(Error::ExtensionContamination { dir, offending_extension, allowed }) => {
                    &&& has_bad_ext(self@, strs_view(ext@))
                    &&& dir@ == parent_of(self@[0])
                    &&& Some(offending_extension@) == extension_of(
                        self@[first_bad_ext(self@, strs_view(ext@))],
                    )
                    &&& allowed@.len() == ext@.len()
                    &&& forall|k: int| 0 <= k < ext@.len() ==> allowed@[k]@ == strs_view(ext@)[k]
                },
                Err(_) => false,
            },
    {
        let ghost exts = strs_view(ext@);
        let mut i: usize = 0;
        while i < self.0.len()
            invariant
                i <= self@.len(),
                exts == strs_view(ext@),
                self@.len() == self.0@.len(),
                forall|j: int| 0 <= j < i ==> ext_allowed(#[trigger] self@[j], exts),
            decreases self@.len() - i,
        {
            proof {
                assert(self@[i as int] == self.0@[i as int]@);
            }
            let bad = match crate::path::extension(self.0[i].as_str()) {
                Some(e) => {
                    if !ext_list_contains(&ext, e.as_str()) {
                        Some(e)
                    } else {
                        None
                    }
                },
                None => None,
            };
            if let Some(e) = bad {
                proof {
                    assert(!ext_allowed(self@[i as int], exts));
                    lemma_first_bad_ext(self@, exts);
                    let fb = first_bad_ext(self@, exts);
                    assert(!(fb < i)) by {
                        if fb < i {
                            assert(ext_allowed(self@[fb], exts));
                        }
                    }
                    assert(!(fb > i)) by {
                        if fb > i {
                            assert(ext_allowed(self@[i as int], exts));
                        }
                    }
                }
                let dir = crate::path::parent(self.0[0].as_str());
                let mut allowed: Vec<String> = Vec::new();
                let mut k: usize = 0;
                while k < ext.len()
                    invariant
                        k <= ext@.len(),
                        allowed@.len() == k,
                        forall|m: int| 0 <= m < k ==> allowed@[m]@ == ext@[m]@,
                    decreases ext@.len() - k,
                {
                    allowed.push(String::from_str(ext[k]));
                    k = k + 1;
                }
                return Err(Error::ExtensionContamination { dir, offending_extension: e, allowed });
            }
            i = i + 1;
        }
        proof {
            if has_bad_ext(self@, exts) {
                let j = choose|j: int|
                    0 <= j < self@.len() && !ext_allowed(#[trigger] self@[j], exts);
                assert(ext_allowed(self@[j], exts));
            }
        }
        Ok(())
    }

    /// True when some path in the listing has `name` as its final component.
    pub fn has_file(&self, name: &str) -> (r: bool)
        ensures
            r == listing_has_file(self@, name@),
    {
        let mut i: usize = 0;
        while i < self.0.len()
            invariant
                i <= self@.len(),
                self@.len() == self.0@.len(),
                forall|j: int| 0 <= j < i ==> #[trigger] file_name_of(self@[j]) != name@,
            decreases self@.len() - i,
        {
            let fname = crate::path::file_name(self.0[i].as_str());
            proof {
                assert(self@[i as int] == self.0@[i as int]@);
            }
            if str_eq(fname.as_str(), name) {
                assert(file_name_of(self@[i as int]) == name@);
                return true;
            }
            i = i + 1;
        }
        proof {
            if listing_has_file(self@, name@) {
                let j = choose|j: int|
                    0 <= j < self@.len() && #[trigger] file_name_of(self@[j]) == name@;
                assert(file_name_of(self@[j]) != name@);
            }
        }
        false
    }

    /// The first path whose final component is `name`, if any.
    pub fn find_file(&self, name: &str) -> (r: Option<String>)
        ensures
            match r {
                Some(p) => exists|i: int|
                    {
                        &&& 0 <= i < self@.len()
                        &&& p@ == self@[i]
                        &&& #[trigger] file_name_of(self@[i]) == name@
                        &&& forall|j: int| 0 <= j < i ==> #[trigger] file_name_of(self@[j]) != name@
                    },
                None => !listing_has_file(self@, name@),
            },
    {
        let mut i: usize = 0;
        while i < self.0.len()
            invariant
                i <= self@.len(),
                self@.len() == self.0@.len(),
                forall|j: int| 0 <= j < i ==> #[trigger] file_name_of(self@[j]) != name@,
            decreases self@.len() - i,
        {
            let fname = crate::path::file_name(self.0[i].as_str());
            proof {
                assert(self@[i as int] == self.0@[i as int]@);
            }
            if str_eq(fname.as_str(), name) {
                let p = self.0[i].clone();
                proof {
                    assert(file_name_of(self@[i as int]) == name@ && p@ == self@[i as int]);
                }
                return Some(p);
            }
            i = i + 1;
        }
        proof {
            if listing_has_file(self@, name@) {
                let j = choose|j: int|
                    0 <= j < self@.len() && #[trigger] file_name_of(self@[j]) == name@;
                assert(file_name_of(self@[j]) != name@);
            }
        }
        None
    }
}

/// What a resource kind's canonical file set is, for a given listing: either
/// the files themselves, or the first contamination found.
pub enum ListingCheck {
    /// The canonical file set, in listing order.
    Files(Seq<Seq<char>>),
    /// The directory holds a file kind it must not.
    Contaminated { dir: Seq<char>, offending: Seq<char>, allowed: Seq<Seq<char>> },
}

/// The error `e` reports exactly the given contamination.
pub open spec fn contamination_matches(
    e: Error,
    dir: Seq<char>,
    offending: Seq<char>,
    allowed: Seq<Seq<char>>,
) -> bool {
    match e {
        Error::ExtensionContamination { dir: d, offending_extension: o, allowed: a } => {
            &&& d@ == dir
            &&& o@ == offending
            &&& a@.len() == allowed.len()
            &&& forall|k: int| 0 <= k < allowed.len() ==> a@[k]@ == allowed[k]
        },
        _ => false,
    }
}

/// The result `r` reports exactly the outcome `c`.
pub open spec fn resources_result_matches(r: Result<Resources, Error>, c: ListingCheck) -> bool {
    match c {
        ListingCheck::Files(fs) => match r {
            Ok(res) => res@ == fs,
            Err(_) => false,
        },
        ListingCheck::Contaminated { dir, offending, allowed } => match r {
            Ok(_) => false,
            Err(e) => contamination_matches(e, dir, offending, allowed),
        },
    }
}

/// The outcome of validating a listing against `allowed` extensions and
/// keeping the `kept` ones: the first offender condemns the whole directory,
/// and no subset is returned in that case.
pub open spec fn checked_filtered(
    listing: Seq<Seq<char>>,
    allowed: Seq<Seq<char>>,
    kept: Seq<Seq<char>>,
) -> ListingCheck {
    if has_bad_ext(listing, allowed) {
        ListingCheck::Contaminated {
            dir: parent_of(listing[0]),
            offending: match extension_of(listing[first_bad_ext(listing, allowed)]) {
                Some(e) => e,
                None => Seq::empty(),
            },
            allowed: allowed,
        }
    } else {
        ListingCheck::Files(filtered_by_ext(listing, kept))
    }
}

/// A logical resource kind: a directory under the root, and a rule for which
/// files in it form the kind's canonical file set.
///
/// Adding a resource kind means writing a new implementer; the interface
/// itself never changes.
pub trait IntoResources {
    /// The directory this kind resolves to under `root`.
    spec fn spec_dir(&self, root: Seq<char>) -> Seq<char>;

    /// The kind's canonical file set, given the listing of its directory.
    spec fn spec_resources(&self, root: Seq<char>, listing: Seq<Seq<char>>) -> ListingCheck;

    /// The directory for this kind under `data_root`. Whether it exists on
    /// disk is the caller's concern.
    fn dir(&self, data_root: &str) -> (r: String)
        ensures
            r@ == self.spec_dir(data_root@),
    ;

    /// The kind's canonical file set from a listing of its directory.
    fn into_resources(&self, data_root: &str, listing: &Resources) -> (r: Result<Resources, Error>)
        ensures
            resources_result_matches(r, self.spec_resources(data_root@, listing@)),
    ;
}

/// Validates the listing against `allowed` and keeps the `kept` extensions.
pub fn check_and_filter(listing: &Resources, allowed: Vec<&str>, kept: Vec<&str>) -> (r: Result<
    Resources,
    Error,
>)
    ensures
        resources_result_matches(
            r,
            checked_filtered(listing@, strs_view(allowed@), strs_view(kept@)),
        ),
{
    match listing.only_ext(allowed) {
        Ok(()) => Ok(listing.filter_by_ext(kept)),
        Err(e) => Err(e),
    }
}

/// True when the kind's canonical file set under `data_root` holds a path
/// whose final component is `name`; fails when the listing is contaminated.
pub fn has_file<T: IntoResources>(
    kind: &T,
    data_root: &str,
    listing: &Resources,
    name: &str,
) -> (r: Result<bool, Error>)
    ensures
        match kind.spec_resources(data_root@, listing@) {
            ListingCheck::Files(fs) => match r {
                Ok(b) => b == listing_has_file(fs, name@),
                Err(_) => false,
            },
            ListingCheck::Contaminated { dir, offending, allowed } => match r {
                Ok(_) => false,
                Err(e) => contamination_matches(e, dir, offending, allowed),
            },
        },
{
    match kind.into_resources(data_root, listing) {
        Ok(res) => Ok(res.has_file(name)),
        Err(e) => Err(e),
    }
}

/// The first path in the kind's canonical file set whose final component is
/// `name`; `FileNotFound` when no resource matches, a contamination error
/// when the listing is contaminated.
pub fn find_file<T: IntoResources>(
    kind: &T,
    data_root: &str,
    listing: &Resources,
    name: &str,
) -> (r: Result<String, Error>)
    ensures
        match kind.spec_resources(data_root@, listing@) {
            ListingCheck::Files(fs) => match r {
                Ok(p) => exists|i: int|
                    {
                        &&& 0 <= i < fs.len()
                        &&& p@ == fs[i]
                        &&& #[trigger] file_name_of(fs[i]) == name@
                        &&& forall|j: int| 0 <= j < i ==> #[trigger] file_name_of(fs[j]) != name@
                    },
                Err(Error::FileNotFound { name: n, dir }) => {
                    &&& !listing_has_file(fs, name@)
                    &&& n@ == name@
                    &&& dir@ == kind.spec_dir(data_root@)
                },
                Err(_) => false,
            },
            ListingCheck::Contaminated { dir, offending, allowed } => match r {
                Ok(_) => false,
                Err(e) => contamination_matches(e, dir, offending, allowed),
            },
        },
{
    match kind.into_resources(data_root, listing) {
        Ok(res) => match res.find_file(name) {
            Some(p) => Ok(p),
            None => Err(
                Error::FileNotFound { name: String::from_str(name), dir: kind.dir(data_root) },
            ),
        },
        Err(e) => Err(e),
    }
}

/// The kind's directory under `data_root` with `name` joined on. Callers that
/// need the path to exist check the filesystem themselves.
pub fn full_path<T: IntoResources>(kind: &T, data_root: &str, name: &str) -> (r: String)
    ensures
        r@ == kind.spec_dir(data_root@) + seq!['/'] + name@,
{
    let mut d = kind.dir(data_root);
    d.append("/");
    d.append(name);
    proof {
        reveal_strlit("/");
        assert("/"@ =~= seq!['/']);
    }
    d
}

} // verus!

//! The concrete resource kinds.
//!
//! Each kind names its directory segments under the root and its permitted
//! file extensions; the shared validation and filtering logic lives in the
//! parent module. New kinds are added by writing a new implementer of
//! [`IntoResources`], never by changing the interface.

use vstd::prelude::*;
use crate::countries::Country;
use crate::error::Error;
use crate::file_resources::{
    check_and_filter, checked_filtered, resources_result_matches, IntoResources, ListingCheck,
    Resources,
};
use crate::path::{join_of, strs_view};
use crate::primitives::DataType;

verus! {

/// The single stylesheet of the graphics pages.
#[derive(Debug)]
pub struct PidGraphicCss;

impl IntoResources for PidGraphicCss {
    open spec fn spec_dir(&self, root: Seq<char>) -> Seq<char> {
        join_of(root, seq!["pid_graphics"@, "css"@])
    }

    open spec fn spec_resources(&self, root: Seq<char>, listing: Seq<Seq<char>>) -> ListingCheck {
        ListingCheck::Files(seq![self.spec_dir(root) + seq!['/'] + "style.css"@])
    }

    fn dir(&self, data_root: &str) -> (r: String) {
        let v: Vec<&str> = vec!["pid_graphics", "css"];
        proof {
            assert(strs_view(v@) =~= seq!["pid_graphics"@, "css"@]);
        }
        crate::path::join_segments(data_root, &v)
    }

    fn into_resources(&self, data_root: &str, listing: &Resources) -> (r: Result<
        Resources,
        Error,
    >) {
        let mut f = self.dir(data_root);
        f.append("/");
        f.append("style.css");
        let ghost fv = f@;
        let res = Resources(vec![f]);
        proof {
            reveal_strlit("/");
            assert("/"@ =~= seq!['/']);
            assert(res@ =~= seq![fv]);
        }
        Ok(res)
    }
}

/// Raw CSV series data for one data type and country.
#[derive(Debug)]
pub struct CsvRawData {
    pub country: Country,
    pub data_type: DataType,
}

impl IntoResources for CsvRawData {
    open spec fn spec_dir(&self, root: Seq<char>) -> Seq<char> {
        join_of(root, seq!["raw_data"@, self.data_type.label_of(), self.country.filepath_of()])
    }

    open spec fn spec_resources(&self, root: Seq<char>, listing: Seq<Seq<char>>) -> ListingCheck {
        checked_filtered(listing, seq!["csv"@, "meta"@], seq!["csv"@])
    }

    fn dir(&self, data_root: &str) -> (r: String) {
        let dt = self.data_type.as_label();
        let c = self.country.as_filepath();
        let v: Vec<&str> = vec!["raw_data", dt, c];
        proof {
            assert(strs_view(v@) =~= seq![
                "raw_data"@,
                self.data_type.label_of(),
                self.country.filepath_of(),
            ]);
        }
        crate::path::join_segments(data_root, &v)
    }

    fn into_resources(&self, data_root: &str, listing: &Resources) -> (r: Result<
        Resources,
        Error,
    >) {
        let allowed: Vec<&str> = vec!["csv", "meta"];
        let kept: Vec<&str> = vec!["csv"];
        proof {
            assert(strs_view(allowed@) =~= seq!["csv"@, "meta"@]);
            assert(strs_view(kept@) =~= seq!["csv"@]);
        }
        check_and_filter(listing, allowed, kept)
    }
}

/// Transformed CSV series data for one data type and country.
#[derive(Debug)]
pub struct CsvTransformedData {
    pub country: Country,
    pub data_type: DataType,
}

impl IntoResources for CsvTransformedData {
    open spec fn spec_dir(&self, root: Seq<char>) -> Seq<char> {
        join_of(root, seq!["transformed_data"@, self.data_type.label_of(), self.country.filepath_of()])
    }

    open spec fn spec_resources(&self, root: Seq<char>, listing: Seq<Seq<char>>) -> ListingCheck {
        checked_filtered(listing, seq!["csv"@, "meta"@], seq!["csv"@])
    }

    fn dir(&self, data_root: &str) -> (r: String) {
        let dt = self.data_type.as_label();
        let c = self.country.as_filepath();
        let v: Vec<&str> = vec!["transformed_data", dt, c];
        proof {
            assert(strs_view(v@) =~= seq![
                "transformed_data"@,
                self.data_type.label_of(),
                self.country.filepath_of(),
            ]);
        }
        crate::path::join_segments(data_root, &v)
    }

    fn into_resources(&self, data_root: &str, listing: &Resources) -> (r: Result<
        Resources,
        Error,
    >) {
        let allowed: Vec<&str> = vec!["csv", "meta"];
        let kept: Vec<&str> = vec!["csv"];
        proof {
            assert(strs_view(allowed@) =~= seq!["csv"@, "meta"@]);
            assert(strs_view(kept@) =~= seq!["csv"@]);
        }
        check_and_filter(listing, allowed, kept)
    }
}

/// Per-series metadata files for one data type and country.
#[derive(Debug)]
pub struct MetaData {
    pub country: Country,
    pub data_type: DataType,
}

impl IntoResources for MetaData {
    open spec fn spec_dir(&self, root: Seq<char>) -> Seq<char> {
        join_of(root, seq!["raw_data"@, self.data_type.label_of(), self.country.filepath_of()])
    }

    open spec fn spec_resources(&self, root: Seq<char>, listing: Seq<Seq<char>>) -> ListingCheck {
        checked_filtered(listing, seq!["csv"@, "meta"@], seq!["meta"@])
    }

    fn dir(&self, data_root: &str) -> (r: String) {
        let dt = self.data_type.as_label();
        let c = self.country.as_filepath();
        let v: Vec<&str> = vec!["raw_data", dt, c];
        proof {
            assert(strs_view(v@) =~= seq![
                "raw_data"@,
                self.data_type.label_of(),
                self.country.filepath_of(),
            ]);
        }
        crate::path::join_segments(data_root, &v)
    }

    fn into_resources(&self, data_root: &str, listing: &Resources) -> (r: Result<
        Resources,
        Error,
    >) {
        let allowed: Vec<&str> = vec!["csv", "meta"];
        let kept: Vec<&str> = vec!["meta"];
        proof {
            assert(strs_view(allowed@) =~= seq!["csv"@, "meta"@]);
            assert(strs_view(kept@) =~= seq!["meta"@]);
        }
        check_and_filter(listing, allowed, kept)
    }
}

/// The specification files, one extension only.
#[derive(Debug)]
pub struct Spec;

impl IntoResources for Spec {
    open spec fn spec_dir(&self, root: Seq<char>) -> Seq<char> {
        join_of(root, seq!["specs"@])
    }

    open spec fn spec_resources(&self, root: Seq<char>, listing: Seq<Seq<char>>) -> ListingCheck {
        checked_filtered(listing, seq!["keytree"@], seq!["keytree"@])
    }

    fn dir(&self, data_root: &str) -> (r: String) {
        let v: Vec<&str> = vec!["specs"];
        proof {
            assert(strs_view(v@) =~= seq!["specs"@]);
        }
        crate::path::join_segments(data_root, &v)
    }

    fn into_resources(&self, data_root: &str, listing: &Resources) -> (r: Result<
        Resources,
        Error,
    >) {
        let allowed: Vec<&str> = vec!["keytree"];
        let kept: Vec<&str> = vec!["keytree"];
        proof {
            assert(strs_view(allowed@) =~= seq!["keytree"@]);
            assert(strs_view(kept@) =~= seq!["keytree"@]);
        }
        check_and_filter(listing, allowed, kept)
    }
}

/// The favicon of the graphics pages.
#[derive(Debug)]
pub struct PidGraphicsFavIcon;

impl IntoResources for PidGraphicsFavIcon {
    open spec fn spec_dir(&self, root: Seq<char>) -> Seq<char> {
        join_of(root, seq!["pid_graphics"@, "favicon"@])
    }

    open spec fn spec_resources(&self, root: Seq<char>, listing: Seq<Seq<char>>) -> ListingCheck {
        ListingCheck::Files(seq![self.spec_dir(root) + seq!['/'] + "favicon.png"@])
    }

    fn dir(&self, data_root: &str) -> (r: String) {
        let v: Vec<&str> = vec!["pid_graphics", "favicon"];
        proof {
            assert(strs_view(v@) =~= seq!["pid_graphics"@, "favicon"@]);
        }
        crate::path::join_segments(data_root, &v)
    }

    fn into_resources(&self, data_root: &str, listing: &Resources) -> (r: Result<
        Resources,
        Error,
    >) {
        let mut f = self.dir(data_root);
        f.append("/");
        f.append("favicon.png");
        let ghost fv = f@;
        let res = Resources(vec![f]);
        proof {
            reveal_strlit("/");
            assert("/"@ =~= seq!['/']);
            assert(res@ =~= seq![fv]);
        }
        Ok(res)
    }
}

/// The helper scripts of the graphics pages.
#[derive(Debug)]
pub struct PidGraphicsJs;

impl IntoResources for PidGraphicsJs {
    open spec fn spec_dir(&self, root: Seq<char>) -> Seq<char> {
        join_of(root, seq!["pid_graphics"@, "js"@])
    }

    open spec fn spec_resources(&self, root: Seq<char>, listing: Seq<Seq<char>>) -> ListingCheck {
        checked_filtered(listing, seq!["js"@], seq!["js"@])
    }

    fn dir(&self, data_root: &str) -> (r: String) {
        let v: Vec<&str> = vec!["pid_graphics", "js"];
        proof {
            assert(strs_view(v@) =~= seq!["pid_graphics"@, "js"@]);
        }
        crate::path::join_segments(data_root, &v)
    }

    fn into_resources(&self, data_root: &str, listing: &Resources) -> (r: Result<
        Resources,
        Error,
    >) {
        let allowed: Vec<&str> = vec!["js"];
        let kept: Vec<&str> = vec!["js"];
        proof {
            assert(strs_view(allowed@) =~= seq!["js"@]);
            assert(strs_view(kept@) =~= seq!["js"@]);
        }
        check_and_filter(listing, allowed, kept)
    }
}

/// The time-series page specifications.
#[derive(Debug)]
pub struct TSPageSpec;

impl IntoResources for TSPageSpec {
    open spec fn spec_dir(&self, root: Seq<char>) -> Seq<char> {
        join_of(root, seq!["ts_graphics"@, "spec"@])
    }

    open spec fn spec_resources(&self, root: Seq<char>, listing: Seq<Seq<char>>) -> ListingCheck {
        checked_filtered(listing, seq!["keytree"@], seq!["keytree"@])
    }

    fn dir(&self, data_root: &str) -> (r: String) {
        let v: Vec<&str> = vec!["ts_graphics", "spec"];
        proof {
            assert(strs_view(v@) =~= seq!["ts_graphics"@, "spec"@]);
        }
        crate::path::join_segments(data_root, &v)
    }

    fn into_resources(&self, data_root: &str, listing: &Resources) -> (r: Result<
        Resources,
        Error,
    >) {
        let allowed: Vec<&str> = vec!["keytree"];
        let kept: Vec<&str> = vec!["keytree"];
        proof {
            assert(strs_view(allowed@) =~= seq!["keytree"@]);
            assert(strs_view(kept@) =~= seq!["keytree"@]);
        }
        check_and_filter(listing, allowed, kept)
    }
}

/// The time-series graphics scripts.
#[derive(Debug)]
pub struct TSGraphicsJs;

impl IntoResources for TSGraphicsJs {
    open spec fn spec_dir(&self, root: Seq<char>) -> Seq<char> {
        join_of(root, seq!["ts_graphics"@, "js"@])
    }

    open spec fn spec_resources(&self, root: Seq<char>, listing: Seq<Seq<char>>) -> ListingCheck {
        checked_filtered(listing, seq!["js"@], seq!["js"@])
    }

    fn dir(&self, data_root: &str) -> (r: String) {
        let v: Vec<&str> = vec!["ts_graphics", "js"];
        proof {
            assert(strs_view(v@) =~= seq!["ts_graphics"@, "js"@]);
        }
        crate::path::join_segments(data_root, &v)
    }

    fn into_resources(&self, data_root: &str, listing: &Resources) -> (r: Result<
        Resources,
        Error,
    >) {
        let allowed: Vec<&str> = vec!["js"];
        let kept: Vec<&str> = vec!["js"];
        proof {
            assert(strs_view(allowed@) =~= seq!["js"@]);
            assert(strs_view(kept@) =~= seq!["js"@]);
        }
        check_and_filter(listing, allowed, kept)
    }
}

} // verus!

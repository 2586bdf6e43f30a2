//! Resource location: paths, extensions, listings, validation.

use graphics_pipeline::error::Error;
use graphics_pipeline::countries::Country;
use graphics_pipeline::file_resources::impls::{
    CsvRawData, CsvTransformedData, MetaData, PidGraphicCss, PidGraphicsFavIcon, PidGraphicsJs,
    Spec, TSGraphicsJs, TSPageSpec,
};
use graphics_pipeline::file_resources::{
    extension_is, find_file, from_path_arg, full_path, has_file, join_paths, IntoResources,
    Resources,
};
use graphics_pipeline::path::{extension, file_name, file_stem, parent};
use graphics_pipeline::primitives::DataType;

fn listing(paths: &[&str]) -> Resources {
    Resources::new(paths.iter().map(|p| p.to_string()).collect())
}

#[test]
fn paths_come_apart_as_expected() {
    assert_eq!(file_name("raw_data/u/australia/AUSURAMS.csv"), "AUSURAMS.csv");
    assert_eq!(file_name("AUSURAMS.csv"), "AUSURAMS.csv");
    assert_eq!(extension("a/b/c.csv"), Some("csv".to_string()));
    assert_eq!(extension("a/b/noext"), None);
    assert_eq!(extension("a/.hidden"), None);
    assert_eq!(file_stem("a/b/AUSURAMS_adj.csv"), "AUSURAMS_adj");
    assert_eq!(parent("a/b/c.csv"), "a/b");
    assert_eq!(parent("c.csv"), "");
}

#[test]
fn extension_is_matches_exactly() {
    assert!(extension_is("/australia/u/LRUN.csv", "csv"));
    assert!(!extension_is("/australia/u/LRUN.csv", "meta"));
    assert!(!extension_is("/australia/u/LRUN", "csv"));
}

#[test]
fn join_paths_inserts_separators() {
    assert_eq!(join_paths("root", vec!["pid_graphics", "css"]), "root/pid_graphics/css");
    assert_eq!(from_path_arg("shared"), "shared");
}

#[test]
fn kind_directories_follow_the_layout() {
    let cd = CsvRawData { country: Country::Australia, data_type: DataType::U };
    assert_eq!(cd.dir("root"), "root/raw_data/u/australia");
    let td = CsvTransformedData { country: Country::CzechRepublic, data_type: DataType::Inf };
    assert_eq!(td.dir("root"), "root/transformed_data/inf/czech_republic");
    let md = MetaData { country: Country::Japan, data_type: DataType::Cpi };
    assert_eq!(md.dir("root"), "root/raw_data/cpi/japan");
    assert_eq!(Spec.dir("root"), "root/specs");
    assert_eq!(PidGraphicCss.dir("root"), "root/pid_graphics/css");
    assert_eq!(PidGraphicsFavIcon.dir("root"), "root/pid_graphics/favicon");
    assert_eq!(PidGraphicsJs.dir("root"), "root/pid_graphics/js");
    assert_eq!(TSPageSpec.dir("root"), "root/ts_graphics/spec");
    assert_eq!(TSGraphicsJs.dir("root"), "root/ts_graphics/js");
}

#[test]
fn a_clean_directory_returns_its_canonical_files() {
    // allowed {csv, meta}: a directory with both is clean, and only the csv
    // files are the raw-data kind's resources
    let cd = CsvRawData { country: Country::Australia, data_type: DataType::U };
    let l = listing(&["d/a.csv", "d/b.meta", "d/c.csv"]);
    let r = cd.into_resources("root", &l).unwrap();
    assert_eq!(r.0, vec!["d/a.csv".to_string(), "d/c.csv".to_string()]);

    let md = MetaData { country: Country::Australia, data_type: DataType::U };
    let r = md.into_resources("root", &l).unwrap();
    assert_eq!(r.0, vec!["d/b.meta".to_string()]);
}

#[test]
fn a_contaminated_directory_is_rejected_whole() {
    let l = listing(&["d/a.csv", "d/b.txt"]);
    match l.only_ext(vec!["csv"]) {
        Err(Error::ExtensionContamination { dir, offending_extension, allowed }) => {
            assert_eq!(dir, "d");
            assert_eq!(offending_extension, "txt");
            assert_eq!(allowed, vec!["csv".to_string()]);
        },
        _ => panic!("expected contamination"),
    }
    // and a directory that honours the allowed set passes
    let clean = listing(&["d/a.csv", "d/b.meta"]);
    assert!(clean.only_ext(vec!["csv", "meta"]).is_ok());
}

#[test]
fn contamination_stops_a_kind_before_any_subset_is_returned() {
    let cd = CsvRawData { country: Country::Australia, data_type: DataType::U };
    let l = listing(&["d/a.csv", "d/b.js"]);
    match cd.into_resources("root", &l) {
        Err(Error::ExtensionContamination { offending_extension, .. }) => {
            assert_eq!(offending_extension, "js");
        },
        _ => panic!("expected contamination"),
    }
}

#[test]
fn filter_by_ext_keeps_order_and_drops_the_rest() {
    let l = listing(&["d/a.csv", "d/b.meta", "d/c.csv", "d/noext"]);
    let r = l.filter_by_ext(vec!["csv"]);
    assert_eq!(r.0, vec!["d/a.csv".to_string(), "d/c.csv".to_string()]);
}

#[test]
fn has_file_matches_by_trailing_component_only() {
    let l = listing(&["shared/raw_data/u/australia/AUSURAMS.csv"]);
    assert!(l.has_file("AUSURAMS.csv"));
    assert!(!l.has_file("australia/AUSURAMS.csv"));
    assert!(!l.has_file("AUSURAMS"));
    assert!(!l.has_file("OTHER.csv"));
}

#[test]
fn has_file_through_a_kind_uses_its_canonical_set() {
    let cd = CsvRawData { country: Country::Australia, data_type: DataType::U };
    let l = listing(&["d/AUSURAMS.csv", "d/AUSURAMS.meta"]);
    assert!(has_file(&cd, "root", &l, "AUSURAMS.csv").unwrap());
    // the meta file is not among the raw-data kind's resources
    assert!(!has_file(&cd, "root", &l, "AUSURAMS.meta").unwrap());
}

#[test]
fn a_missing_file_is_reported_with_its_directory() {
    let sp = Spec;
    let l = listing(&["root/specs/filter_spec.keytree"]);
    match find_file(&sp, "root", &l, "missing") {
        Err(Error::FileNotFound { name, dir }) => {
            assert_eq!(name, "missing");
            assert_eq!(dir, "root/specs");
        },
        _ => panic!("expected a missing file"),
    }
    let found = find_file(&sp, "root", &l, "filter_spec.keytree").unwrap();
    assert_eq!(found, "root/specs/filter_spec.keytree");
}

#[test]
fn single_file_kinds_resolve_their_one_file() {
    let css = PidGraphicCss.into_resources("root", &listing(&[])).unwrap();
    assert_eq!(css.0, vec!["root/pid_graphics/css/style.css".to_string()]);
    let icon = PidGraphicsFavIcon.into_resources("root", &listing(&[])).unwrap();
    assert_eq!(icon.0, vec!["root/pid_graphics/favicon/favicon.png".to_string()]);
}

#[test]
fn full_path_joins_without_consulting_the_listing() {
    let p = full_path(&Spec, "root", "series_spec.keytree");
    assert_eq!(p, "root/specs/series_spec.keytree");
}

#[test]
fn resources_iter_walks_in_order() {
    let l = listing(&["a.js", "b.js"]);
    let mut it = l.iter();
    assert_eq!(it.next(), Some("a.js".to_string()));
    assert_eq!(it.next(), Some("b.js".to_string()));
    assert_eq!(it.next(), None);
}

#[test]
fn directory_not_found_carries_the_path() {
    // the filesystem shell reports a missing directory with this kind
    let e = Error::DirectoryNotFound { path: "../missing/specs".to_string() };
    match e {
        Error::DirectoryNotFound { path } => assert_eq!(path, "../missing/specs"),
        _ => unreachable!(),
    }
}

//! Reconciliation: drift reports and orphan detection.

use graphics_pipeline::countries::Country;
use graphics_pipeline::file_resources::Resources;
use graphics_pipeline::primitives::{DataType, SeriesId};
use graphics_pipeline::series_spec::SeriesSpec;
use graphics_pipeline::series_to_disk::{find_orphans, verify_listings, SeriesSpecMap};

fn listing(paths: &[&str]) -> Resources {
    Resources::new(paths.iter().map(|p| p.to_string()).collect())
}

#[test]
fn the_report_names_every_series_and_does_not_stop_at_a_miss() {
    let mut map = SeriesSpecMap::new();
    map.insert(&SeriesSpec::new(DataType::U, Country::Australia, SeriesId::new("HAVE")));
    map.insert(&SeriesSpec::new(DataType::U, Country::Australia, SeriesId::new("MISS")));
    map.insert(&SeriesSpec::new(DataType::U, Country::Austria, SeriesId::new("ALSO")));

    let listings = vec![
        listing(&["d/HAVE.csv"]),
        listing(&["e/ALSO.csv"]),
    ];
    let report = verify_listings(&map, &listings);
    let lines: Vec<(String, bool)> = report
        .entries
        .iter()
        .map(|e| (e.series_id.0.clone(), e.found))
        .collect();
    assert_eq!(
        lines,
        vec![
            ("HAVE".to_string(), true),
            ("MISS".to_string(), false),
            ("ALSO".to_string(), true),
        ]
    );
}

#[test]
fn the_expected_file_is_the_identifier_with_a_csv_extension() {
    let mut map = SeriesSpecMap::new();
    map.insert(&SeriesSpec::new(DataType::U, Country::Australia, SeriesId::new("AUSURAMS")));
    // a file with the right stem but the wrong extension does not count
    let report = verify_listings(&map, &vec![listing(&["d/AUSURAMS.meta"])]);
    assert_eq!(report.entries.len(), 1);
    assert!(!report.entries[0].found);
}

#[test]
fn orphans_are_files_whose_base_identifier_is_undeclared() {
    let mut map = SeriesSpecMap::new();
    map.insert(&SeriesSpec::new(DataType::U, Country::Australia, SeriesId::new("AUSURAMS")));

    let files = listing(&["d/AUSURAMS.csv", "d/AUSURAMS_adj.csv", "d/STRAYFILE.csv"]);
    let orphans = find_orphans(&map, &files);
    assert_eq!(orphans.0, vec!["d/STRAYFILE.csv".to_string()]);
}

#[test]
fn an_empty_index_makes_every_file_an_orphan() {
    let map = SeriesSpecMap::new();
    let files = listing(&["d/ONE.csv", "d/TWO.csv"]);
    let orphans = find_orphans(&map, &files);
    assert_eq!(orphans.0.len(), 2);
}

#[test]
fn stem_recovers_the_base_identifier() {
    assert_eq!(SeriesId::new("AUSURAMS_adj").stem().0, "AUSURAMS");
    assert_eq!(SeriesId::new("AUSURAMS").stem().0, "AUSURAMS");
    assert_eq!(SeriesId::new("A_b_c").stem().0, "A");
    assert_eq!(SeriesId::new("").stem().0, "");
}

//! Labels, tag building, selection rules, and the keyed stores.

use graphics_pipeline::countries::Country;
use graphics_pipeline::error::Error;
use graphics_pipeline::filter_spec::{FilterSpec, TagSelector};
use graphics_pipeline::filter_to_series::{countries_with_data, fred_country, is_selected, tag};
use graphics_pipeline::html_to_server::Html;
use graphics_pipeline::meta_data::Series;
use graphics_pipeline::os_setup::{Cmd, Pid, Port};
use graphics_pipeline::primitives::{DataType, SeriesId};
use graphics_pipeline::series_spec::{SeriesSpec, SeriessSpec};
use graphics_pipeline::text::{str_contains, str_eq, str_lt, str_trim};
use graphics_pipeline::ts_graphics::js_scripts::{JsScripts, Key};
use graphics_pipeline::ts_graphics::TSGraphicCategory;

#[test]
fn series_in_spec_should_also_be_in_transformed_data() {
    // get a series from the specification
    // check that it exists under the transformed data
}

#[test]
fn should_return_port_pid_cmd() {
    // Test this using the driver process
}

#[test]
fn data_type_labels_round_trip() {
    assert_eq!(DataType::U.label(), "u");
    assert_eq!(DataType::Cpi.label(), "cpi");
    assert_eq!(DataType::Inf.label(), "inf");
    assert_eq!(DataType::from_label("u"), Some(DataType::U));
    assert_eq!(DataType::from_label("cpi"), Some(DataType::Cpi));
    assert_eq!(DataType::from_label("inf"), Some(DataType::Inf));
    assert_eq!(DataType::from_label("x"), None);
}

#[test]
fn country_names_have_both_forms() {
    assert_eq!(Country::Australia.label(), "Australia");
    assert_eq!(Country::CzechRepublic.label(), "Czech Republic");
    assert_eq!(Country::Australia.as_filepath(), "australia");
    assert_eq!(Country::UnitedStates.as_filepath(), "united_states");
    assert_eq!(Country::from_label("New Zealand"), Some(Country::NewZealand));
    assert_eq!(Country::from_label("Atlantis"), None);
}

#[test]
fn twenty_eight_countries_have_data() {
    let all = countries_with_data();
    assert_eq!(all.len(), 28);
    assert_eq!(all[0], Country::Australia);
    assert_eq!(all[27], Country::UnitedStates);
}

#[test]
fn fred_country_lowers_names_with_exceptions() {
    assert_eq!(fred_country(Country::France), "france");
    assert_eq!(fred_country(Country::CzechRepublic), "czech republic");
    assert_eq!(fred_country(Country::SouthKorea), "korea");
    assert_eq!(fred_country(Country::UnitedStates), "usa");
}

fn selector(
    tags: &[&str],
    enumerate: &[&str],
    exclude: &[&str],
    require: &[&str],
) -> TagSelector {
    TagSelector {
        country: Country::Australia,
        data_type: DataType::U,
        tags: tags.iter().map(|s| s.to_string()).collect(),
        enumerate: enumerate.iter().map(|s| s.to_string()).collect(),
        exclude: exclude.iter().map(|s| s.to_string()).collect(),
        require: require.iter().map(|s| s.to_string()).collect(),
    }
}

#[test]
fn tag_joins_trimmed_tags_and_the_country() {
    let ts = selector(&[" unemployment ", "rate"], &[], &[], &[]);
    assert_eq!(tag(&ts), "unemployment;rate;australia");
    let empty = selector(&[], &[], &[], &[]);
    assert_eq!(tag(&empty), "australia");
}

#[test]
fn selection_applies_enumerate_exclude_and_require() {
    // no rules: everything passes
    assert!(is_selected(&selector(&[], &[], &[], &[]), "Unemployment Rate in Australia"));
    // enumerate must name the exact title
    let e = selector(&[], &["Unemployment Rate in Australia"], &[], &[]);
    assert!(is_selected(&e, "Unemployment Rate in Australia"));
    assert!(!is_selected(&e, "Unemployment Rate"));
    // an excluded word drops the candidate
    let x = selector(&[], &[], &["Female"], &[]);
    assert!(!is_selected(&x, "Unemployment Rate, Female"));
    assert!(is_selected(&x, "Unemployment Rate"));
    // a missing required word drops the candidate
    let r = selector(&[], &[], &[], &["Rate"]);
    assert!(is_selected(&r, "Unemployment Rate"));
    assert!(!is_selected(&r, "Unemployment in Australia"));
}

#[test]
fn filter_spec_iter_walks_selectors_in_order() {
    let spec = FilterSpec(vec![
        selector(&["one"], &[], &[], &[]),
        selector(&["two"], &[], &[], &[]),
    ]);
    let mut it = spec.iter();
    assert_eq!(it.next().unwrap().tags[0], "one");
    assert_eq!(it.next().unwrap().tags[0], "two");
    assert!(it.next().is_none());
}

#[test]
fn seriess_spec_iter_hands_out_records_in_order() {
    let spec = SeriessSpec {
        series: vec![
            SeriesSpec::new(DataType::U, Country::Australia, SeriesId::new("AUSURAMS")),
            SeriesSpec::new(DataType::U, Country::Australia, SeriesId::new("AUSURANAA")),
        ],
    };
    let mut iter = spec.iter();
    assert!(iter.next().is_some());
    assert!(iter.next().is_some());
    assert!(iter.next().is_none());
}

#[test]
fn text_helpers_behave_like_their_contracts_say() {
    assert!(str_eq("abc", "abc"));
    assert!(!str_eq("abc", "abd"));
    assert!(str_contains("Unemployment Rate", "Rate"));
    assert!(!str_contains("Unemployment", "Rate"));
    assert!(str_contains("anything", ""));
    assert_eq!(str_trim("  padded\t"), "padded");
    assert_eq!(str_trim("   "), "");
    assert!(str_lt("alpha", "beta"));
    assert!(str_lt("alp", "alpha"));
    assert!(!str_lt("beta", "alpha"));
}

#[test]
fn html_store_answers_by_key() {
    let html = Html::from_entries(vec![("style".to_string(), "body {}".to_string())]);
    assert_eq!(html.get("style"), Some("body {}".to_string()));
    assert_eq!(html.get("missing"), None);
}

#[test]
fn script_keys_are_file_stems() {
    let k = Key::from_path("root/ts_graphics/js/plot.js").unwrap();
    assert_eq!(k.0, "plot");
    match Key::from_path("root/ts_graphics/js/") {
        Err(Error::Io { .. }) => {},
        _ => panic!("expected an error for a path without a file name"),
    }
}

#[test]
fn script_store_answers_by_key() {
    let scripts = JsScripts::from_entries(vec![
        (Key::from_name("plot"), "draw();".to_string()),
    ]);
    assert_eq!(scripts.get(&Key::from_name("plot")), Some("draw();".to_string()));
    assert_eq!(scripts.get(&Key::from_name("other")), None);
}

#[test]
fn graphic_categories_round_trip() {
    assert_eq!(TSGraphicCategory::Collation.as_label(), "collation");
    assert_eq!(TSGraphicCategory::from_label("source"), Some(TSGraphicCategory::Source));
    assert_eq!(TSGraphicCategory::from_label("cleaned"), Some(TSGraphicCategory::Cleaned));
    assert_eq!(TSGraphicCategory::from_label("other"), None);
}

#[test]
fn process_values_hold_their_parts() {
    assert_eq!(Pid(27563), Pid(27563));
    assert_ne!(Port(4444), Port(8080));
    assert_eq!(Cmd::from_name("geckodriver"), Cmd::from_name("geckodriver"));
    assert_ne!(Cmd::from_name("geckodriver"), Cmd::from_name("shared_http"));
}

#[test]
fn metadata_records_keep_their_fields() {
    let s = Series::new(
        "2021-06-03".to_string(),
        SeriesId::new("AUSCPALTT01IXNBQ"),
        "Consumer Price Index: Total for Australia".to_string(),
        "1960-01-01".to_string(),
        "2021-01-01".to_string(),
        "Quarterly".to_string(),
        "Not Seasonally Adjusted".to_string(),
    );
    assert_eq!(s.series_id.0, "AUSCPALTT01IXNBQ");
    assert_eq!(s.frequency, "Quarterly");
}

#[test]
fn ts_series_records_keep_their_fields() {
    let s = graphics_pipeline::ts_graphics::ts_spec::Series::new(
        DataType::U,
        SeriesId::new("LRHUTTTTAUA156S"),
    );
    assert_eq!(s.data_type, DataType::U);
    assert_eq!(s.series_id.0, "LRHUTTTTAUA156S");
}

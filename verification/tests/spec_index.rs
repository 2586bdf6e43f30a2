//! The specification index: insertion, lookup, ordering, resumption.

use graphics_pipeline::countries::Country;
use graphics_pipeline::error::Error;
use graphics_pipeline::primitives::{DataType, SeriesId};
use graphics_pipeline::series_spec::SeriesSpec;
use graphics_pipeline::series_to_disk::{resume_from, SeriesSpecMap};

#[test]
fn insert_should_work() {
    let series_id = SeriesId::new("first");

    let input = SeriesSpec::new(DataType::U, Country::Australia, series_id.clone());

    let mut map = SeriesSpecMap::new();
    map.insert(&input);
    if let Some(output) = map.get_series_spec(&series_id) {
        assert_eq!(output.country(), Country::Australia);
    } else {
        assert!(false);
    }
}

#[test]
fn inserts_with_same_key_should_work() {
    let series_id = SeriesId::new("first");
    let series_id2 = SeriesId::new("second");

    let input = SeriesSpec::new(DataType::U, Country::Australia, series_id.clone());

    let input2 = SeriesSpec::new(DataType::U, Country::Australia, series_id2.clone());

    let mut map = SeriesSpecMap::new();
    map.insert(&input);
    map.insert(&input2);
    let bt = map.get_inner_map(&(DataType::U, Country::Australia)).unwrap();
    let first = bt.iter().find(|p| p.0 == series_id).unwrap();
    assert_eq!(&first.1, &input);
    let second = bt.iter().find(|p| p.0 == series_id2).unwrap();
    assert_eq!(&second.1, &input2);
}

#[test]
fn inserts_should_be_ordered() {
    let series_id = SeriesId::new("first");
    let series_id2 = SeriesId::new("second");

    let input = SeriesSpec::new(DataType::U, Country::Australia, series_id.clone());

    let input2 = SeriesSpec::new(DataType::U, Country::Australia, series_id2.clone());

    let mut map = SeriesSpecMap::new();
    // Insert in reverse order
    map.insert(&input2);
    map.insert(&input);
    let bt = map.get_inner_map(&(DataType::U, Country::Australia)).unwrap();
    let mut iter = bt.iter();
    assert_eq!(&iter.next().unwrap().1, &input);
    assert_eq!(&iter.next().unwrap().1, &input2);
}

#[test]
fn lookup_returns_the_inserted_record() {
    let id = SeriesId::new("AUSURAMS");
    let s = SeriesSpec::new(DataType::U, Country::Australia, id.clone());
    let mut map = SeriesSpecMap::new();
    map.insert(&s);
    let found = map.get_series_spec(&id).unwrap();
    assert_eq!(found, s);
}

#[test]
fn update_replaces_in_place_and_keeps_declaration_order() {
    // Declaration order is "second" then "first"; an update of "second" must
    // not move it.
    let mut map = SeriesSpecMap::new();
    map.insert(&SeriesSpec::new(DataType::U, Country::Australia, SeriesId::new("second")));
    map.insert(&SeriesSpec::new(DataType::U, Country::Australia, SeriesId::new("first")));
    map.insert(&SeriesSpec::new(DataType::Cpi, Country::Australia, SeriesId::new("second")));

    let bucket = map.bucket(DataType::U, Country::Australia);
    assert_eq!(bucket.len(), 2);
    assert_eq!(bucket[0].series_id().0, "second");
    assert_eq!(bucket[1].series_id().0, "first");
    // the stored record was updated where it stood
    assert_eq!(bucket[0].data_type(), DataType::Cpi);
}

#[test]
fn bucket_order_is_declaration_order_not_lexicographic() {
    let mut map = SeriesSpecMap::new();
    map.insert(&SeriesSpec::new(DataType::U, Country::Australia, SeriesId::new("second")));
    map.insert(&SeriesSpec::new(DataType::U, Country::Australia, SeriesId::new("first")));
    let bucket = map.bucket(DataType::U, Country::Australia);
    let ids: Vec<String> = bucket.iter().map(|s| s.series_id().0).collect();
    assert_eq!(ids, vec!["second".to_string(), "first".to_string()]);
}

#[test]
fn reverse_index_agrees_with_the_buckets() {
    let mut map = SeriesSpecMap::new();
    map.insert(&SeriesSpec::new(DataType::U, Country::Australia, SeriesId::new("a")));
    map.insert(&SeriesSpec::new(DataType::U, Country::Austria, SeriesId::new("b")));
    map.insert(&SeriesSpec::new(DataType::Cpi, Country::Japan, SeriesId::new("c")));

    // every reverse entry names a bucket that holds its identifier
    for entry in &map.reverse {
        let bucket = map.bucket(entry.key.0, entry.key.1);
        assert!(bucket.iter().any(|s| s.series_id() == entry.series_id));
    }
    // every bucket member is reverse-mapped to its bucket's key
    for b in &map.map {
        for s in &b.seriess {
            let e = map
                .reverse
                .iter()
                .find(|e| e.series_id == s.series_id())
                .unwrap();
            assert_eq!(e.key, b.key);
        }
    }
}

#[test]
fn bucket_keys_come_in_canonical_order() {
    let mut map = SeriesSpecMap::new();
    map.insert(&SeriesSpec::new(DataType::Inf, Country::Belgium, SeriesId::new("x1")));
    map.insert(&SeriesSpec::new(DataType::U, Country::Austria, SeriesId::new("x2")));
    map.insert(&SeriesSpec::new(DataType::U, Country::Australia, SeriesId::new("x3")));
    map.insert(&SeriesSpec::new(DataType::Cpi, Country::Japan, SeriesId::new("x4")));
    let keys = map.bucket_keys();
    assert_eq!(
        keys,
        vec![
            (DataType::U, Country::Australia),
            (DataType::U, Country::Austria),
            (DataType::Cpi, Country::Japan),
            (DataType::Inf, Country::Belgium),
        ]
    );
}

#[test]
fn resume_skips_everything_up_to_and_including_the_identifier() {
    // three buckets in deterministic order: [a, b], [c, d], [e]
    let mut map = SeriesSpecMap::new();
    map.insert(&SeriesSpec::new(DataType::U, Country::Australia, SeriesId::new("a")));
    map.insert(&SeriesSpec::new(DataType::U, Country::Australia, SeriesId::new("b")));
    map.insert(&SeriesSpec::new(DataType::U, Country::Austria, SeriesId::new("c")));
    map.insert(&SeriesSpec::new(DataType::U, Country::Austria, SeriesId::new("d")));
    map.insert(&SeriesSpec::new(DataType::U, Country::Belgium, SeriesId::new("e")));

    let rest = resume_from(&map, &SeriesId::new("c")).unwrap();
    let ids: Vec<String> = rest.iter().map(|s| s.series_id().0).collect();
    assert_eq!(ids, vec!["d".to_string(), "e".to_string()]);

    let all = resume_from(&map, &SeriesId::new("a")).unwrap();
    assert_eq!(all.len(), 4);

    let none = resume_from(&map, &SeriesId::new("e")).unwrap();
    assert_eq!(none.len(), 0);
}

#[test]
fn resume_from_an_unknown_identifier_is_an_error() {
    let mut map = SeriesSpecMap::new();
    map.insert(&SeriesSpec::new(DataType::U, Country::Australia, SeriesId::new("a")));
    match resume_from(&map, &SeriesId::new("z")) {
        Err(Error::UndefinedResumePoint { series_id }) => assert_eq!(series_id, "z"),
        _ => panic!("expected an undefined resume point"),
    }
}

#[test]
fn from_specs_folds_in_order() {
    let specs = vec![
        SeriesSpec::new(DataType::U, Country::Australia, SeriesId::new("m2")),
        SeriesSpec::new(DataType::U, Country::Australia, SeriesId::new("m1")),
    ];
    let map = SeriesSpecMap::from_specs(&specs);
    let bucket = map.bucket(DataType::U, Country::Australia);
    assert_eq!(bucket[0].series_id().0, "m2");
    assert_eq!(bucket[1].series_id().0, "m1");
}

#[test]
fn get_inner_map_is_sorted_by_identifier() {
    let mut map = SeriesSpecMap::new();
    map.insert(&SeriesSpec::new(DataType::U, Country::Australia, SeriesId::new("zeta")));
    map.insert(&SeriesSpec::new(DataType::U, Country::Australia, SeriesId::new("alpha")));
    map.insert(&SeriesSpec::new(DataType::U, Country::Australia, SeriesId::new("mid")));
    let pairs = map.get_inner_map(&(DataType::U, Country::Australia)).unwrap();
    let ids: Vec<String> = pairs.iter().map(|p| p.0 .0.clone()).collect();
    assert_eq!(ids, vec!["alpha".to_string(), "mid".to_string(), "zeta".to_string()]);
    assert!(map.get_inner_map(&(DataType::Inf, Country::Japan)).is_none());
}

use repo_fetch::codec::{merge_reports, round_trip, Format, LangStat};

fn sample_report() -> Vec<LangStat> {
    vec![
        LangStat { name: String::from("LangA"), files: 10, code: 100, comments: 7, blanks: 3 },
        LangStat { name: String::from("LangB"), files: 5, code: 40, comments: 2, blanks: 1 },
    ]
}

#[test]
fn formatting_print_matches_parse() {
    let langs = sample_report();

    // Check that the value matches after serializing and deserializing
    for variant in [Format::Json, Format::Cbor, Format::Yaml] {
        let serialized = variant
            .print(&langs)
            .unwrap_or_else(|_| panic!("Failed serializing variant: {:?}", variant));
        let deserialized = Format::parse(&serialized)
            .unwrap_or_else(|| panic!("Failed deserializing variant: {:?}", variant));
        assert_eq!(langs, deserialized);
    }
}

#[test]
fn json_round_trip_is_exact() {
    let report = sample_report();
    let text = Format::Json.print(&report).unwrap();
    let back = Format::parse(&text).unwrap();
    assert_eq!(back, report);
}

#[test]
fn cbor_round_trip_is_exact() {
    let report = sample_report();
    let text = Format::Cbor.print(&report).unwrap();
    // The binary codec is shipped hex-armoured.
    assert!(text.chars().all(|c| c.is_ascii_hexdigit()));
    let back = Format::parse(&text).unwrap();
    assert_eq!(back, report);
}

#[test]
fn yaml_round_trip_is_exact() {
    let report = sample_report();
    let text = Format::Yaml.print(&report).unwrap();
    let back = Format::parse(&text).unwrap();
    assert_eq!(back, report);
}

#[test]
fn empty_input_does_not_parse() {
    assert!(Format::parse("").is_none());
}

#[test]
fn garbage_input_does_not_parse() {
    assert!(Format::parse("certainly not a report").is_none());
}

#[test]
fn format_names_resolve() {
    assert!(matches!(Format::from_name("json"), Ok(Format::Json)));
    assert!(matches!(Format::from_name("cbor"), Ok(Format::Cbor)));
    assert!(matches!(Format::from_name("yaml"), Ok(Format::Yaml)));
}

#[test]
fn unknown_format_is_reported_by_name() {
    let err = Format::from_name("toml").unwrap_err();
    assert_eq!(err, "toml is not a supported serialization format");
}

#[test]
fn print_never_fails_and_output_shapes_hold() {
    let report = sample_report();
    let json = Format::Json.print(&report).unwrap();
    assert!(json.starts_with('['));
    let yaml = Format::Yaml.print(&report).unwrap();
    assert!(yaml.starts_with('-'));
    let cbor = Format::Cbor.print(&report).unwrap();
    assert!(!cbor.is_empty());
    assert!(Format::Json.print(&Vec::new()).is_ok());
    assert!(Format::Cbor.print(&Vec::new()).is_ok());
    assert!(Format::Yaml.print(&Vec::new()).is_ok());
}

#[test]
fn round_trip_function_returns_the_report() {
    let report = sample_report();
    for variant in [Format::Json, Format::Cbor, Format::Yaml] {
        let back = round_trip(&variant, &report).unwrap();
        assert_eq!(back, report);
    }
}

#[test]
fn merging_sums_counts_of_a_known_language() {
    let mut report = vec![LangStat {
        name: String::from("LangA"),
        files: 10,
        code: 100,
        comments: 7,
        blanks: 3,
    }];
    let extra = vec![LangStat {
        name: String::from("LangA"),
        files: 2,
        code: 30,
        comments: 1,
        blanks: 4,
    }];

    merge_reports(&mut report, &extra);

    assert_eq!(
        report,
        vec![LangStat { name: String::from("LangA"), files: 12, code: 130, comments: 8, blanks: 7 }]
    );
}

#[test]
fn merging_appends_new_languages_in_order() {
    let mut report = vec![LangStat {
        name: String::from("LangA"),
        files: 1,
        code: 2,
        comments: 3,
        blanks: 4,
    }];
    let extra = sample_report();

    merge_reports(&mut report, &extra);

    assert_eq!(report.len(), 2);
    assert_eq!(
        report[0],
        LangStat { name: String::from("LangA"), files: 11, code: 102, comments: 10, blanks: 7 }
    );
    assert_eq!(report[1], extra[1]);
}

#[test]
fn merging_saturates_instead_of_wrapping() {
    let mut report = vec![LangStat {
        name: String::from("LangA"),
        files: u64::MAX - 1,
        code: 0,
        comments: 0,
        blanks: 0,
    }];
    let extra = vec![LangStat {
        name: String::from("LangA"),
        files: 5,
        code: 1,
        comments: 0,
        blanks: 0,
    }];

    merge_reports(&mut report, &extra);

    assert_eq!(report[0].files, u64::MAX);
    assert_eq!(report[0].code, 1);
}

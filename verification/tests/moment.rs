use snouty::moment::is_moment_format;
use snouty::moment::parse;

const REPORTED: &str = r#"Moment.from({ session_id: "f89d5c11f5e3bf5e4bb3641809800cee-44-22", input_hash: "6057726200491963783", vtime: 329.8037810830865 })"#;

fn message(input: &str) -> String {
    parse(input).unwrap_err().to_string()
}

#[test]
fn the_literal_is_detected() {
    assert!(is_moment_format(REPORTED));
    assert!(is_moment_format("Moment.from({})"));
    assert!(is_moment_format("Moment.from()"));
    assert!(is_moment_format("Moment.from(anything at all)"));
}

#[test]
fn other_texts_are_not_detected() {
    assert!(!is_moment_format(r#"{"antithesis.duration": "60"}"#));
    assert!(!is_moment_format(""));
    assert!(!is_moment_format("Moment.from("));
    assert!(!is_moment_format("Moment.from({}"));
    assert!(!is_moment_format("moment.from({})"));
    assert!(!is_moment_format(" Moment.from({})"));
    assert!(!is_moment_format("Moment.from({})\n"));
    assert!(!is_moment_format("Moment.from"));
}

#[test]
fn the_reported_literal_is_read() {
    let params = parse(REPORTED).unwrap();
    assert_eq!(params.len(), 3);
    assert_eq!(
        params.as_map().get("antithesis.debugging.session_id").unwrap(),
        "f89d5c11f5e3bf5e4bb3641809800cee-44-22"
    );
    assert_eq!(
        params.as_map().get("antithesis.debugging.input_hash").unwrap(),
        "6057726200491963783"
    );
    assert_eq!(
        params.as_map().get("antithesis.debugging.vtime").unwrap(),
        "329.8037810830865"
    );
    assert!(params.validate_debugging_params().is_ok());
}

#[test]
fn relaxed_writing_is_tolerated() {
    let params = parse("Moment.from(\n\t{'session_id':'a b',\"input_hash\" : \"it's\",\r\n vtime:-12 , } )")
        .unwrap();
    assert_eq!(params.as_map().get("antithesis.debugging.session_id").unwrap(), "a b");
    assert_eq!(params.as_map().get("antithesis.debugging.input_hash").unwrap(), "it's");
    assert_eq!(params.as_map().get("antithesis.debugging.vtime").unwrap(), "-12");
    assert_eq!(params.len(), 3);
}

#[test]
fn numbers_are_stored_in_decimal() {
    for (written, stored) in [
        ("0", "0"),
        ("7", "7"),
        ("007", "7"),
        ("000", "0"),
        ("1.50", "1.5"),
        ("1.0", "1"),
        ("10.010", "10.01"),
        ("5.", "5"),
        (".5", "0.5"),
        (".50", "0.5"),
        ("0.0", "0"),
        ("+3", "3"),
        ("+0.25", "0.25"),
        ("-0.25", "-0.25"),
        ("-012.300", "-12.3"),
        ("-0", "-0"),
        ("-.0", "-0"),
        ("100", "100"),
        ("329.8037810830865", "329.8037810830865"),
        ("123456789012345678901234567890", "123456789012345678901234567890"),
    ] {
        let params = parse(&format!("Moment.from({{vtime:{}}})", written)).unwrap();
        assert_eq!(
            params.as_map().get("antithesis.debugging.vtime").unwrap(),
            stored,
            "written: {}",
            written
        );
    }
}

#[test]
fn quoted_numbers_are_kept_as_written() {
    let params = parse("Moment.from({vtime: '007.50'})").unwrap();
    assert_eq!(params.as_map().get("antithesis.debugging.vtime").unwrap(), "007.50");
}

#[test]
fn an_empty_object_gives_no_parameters() {
    assert_eq!(parse("Moment.from({})").unwrap().len(), 0);
    assert_eq!(parse("Moment.from( { } )").unwrap().len(), 0);
}

#[test]
fn the_last_of_a_repeated_key_wins() {
    let params = parse("Moment.from({vtime: 1, vtime: 2})").unwrap();
    assert_eq!(params.len(), 1);
    assert_eq!(params.as_map().get("antithesis.debugging.vtime").unwrap(), "2");
}

#[test]
fn other_keys_are_refused() {
    assert_eq!(
        message(r#"Moment.from({ session_id: "s", colour: "red", other: 1 })"#),
        "invalid arguments: unrecognized Moment.from key: colour"
    );
    assert_eq!(
        message(r#"Moment.from({ "antithesis.debugging.vtime": 1 })"#),
        "invalid arguments: unrecognized Moment.from key: antithesis.debugging.vtime"
    );
    assert_eq!(message("Moment.from({'': 1})"), "invalid arguments: unrecognized Moment.from key: ");
}

#[test]
fn malformed_objects_are_refused() {
    for body in [
        "",
        "{",
        "}",
        "{}}",
        "{} x",
        "[]",
        "{vtime}",
        "{vtime:}",
        "{vtime 1}",
        "{vtime: 1 session_id: 2}",
        "{,}",
        "{vtime: 1,,}",
        "{vtime: .}",
        "{vtime: -}",
        "{vtime: +}",
        "{vtime: -.}",
        "{vtime: --1}",
        "{vtime: 1.2.3}",
        "{vtime: 1..2}",
        "{vtime: 1e5}",
        "{vtime: 0x10}",
        "{vtime: 12abc}",
        "{vtime: true}",
        "{vtime: \"open}",
        "{vtime: 'a\\'b'}",
        "{vtime: \"a\\nb\"}",
        "{1vtime: 1}",
        "{vtime: {}}",
        "{colour: 1",
    ] {
        assert_eq!(
            message(&format!("Moment.from({})", body)),
            "invalid arguments: malformed Moment.from object",
            "body: {}",
            body
        );
    }
}

#[test]
fn a_text_of_another_shape_is_refused() {
    assert_eq!(message("{}"), "invalid arguments: expected Moment.from(...)");
    assert_eq!(message(""), "invalid arguments: expected Moment.from(...)");
    assert_eq!(message("Moment.from({}"), "invalid arguments: expected Moment.from(...)");
}

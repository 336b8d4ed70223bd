use snouty::error::Error;
use snouty::params::Params;
use snouty::schema::validate;
use snouty::schema::Profile;

fn violations_of(result: Result<(), Error>) -> Vec<String> {
    match result {
        Ok(()) => vec![],
        Err(Error::ValidationFailed(list)) => list,
        Err(other) => panic!("unexpected error: {:?}", other),
    }
}

fn text(s: &str) -> serde_json::Value {
    serde_json::Value::String(s.to_string())
}

#[test]
fn moment_keys_conform_to_debugging() {
    let params = Params::from_args(&[
        "--antithesis.debugging.input_hash",
        "abc123",
        "--antithesis.debugging.session_id",
        "sess-456",
        "--antithesis.debugging.vtime",
        "329.8",
    ])
    .unwrap();
    assert!(validate(params.as_map(), Profile::DebuggingParams).is_empty());
    assert!(params.validate_debugging_params().is_ok());
}

#[test]
fn each_absent_moment_key_is_named() {
    let all = [
        ("antithesis.debugging.input_hash", "abc123"),
        ("antithesis.debugging.session_id", "sess-456"),
        ("antithesis.debugging.vtime", "1234567890"),
    ];
    for left_out in 0..3 {
        let mut object = serde_json::Map::new();
        for (i, (key, value)) in all.iter().enumerate() {
            if i != left_out {
                object.insert(key.to_string(), text(value));
            }
        }
        let params = Params::from_json(&serde_json::Value::Object(object)).unwrap();
        let list = violations_of(params.validate_debugging_params());
        assert_eq!(list, vec![format!("missing required property '{}'", all[left_out].0)]);
    }
}

#[test]
fn absent_keys_are_reported_in_the_order_of_the_profile() {
    let params = Params::from_args(&["--antithesis.debugging.session_id", "s"]).unwrap();
    assert_eq!(
        violations_of(params.validate_debugging_params()),
        vec![
            "missing required property 'antithesis.debugging.input_hash'".to_string(),
            "missing required property 'antithesis.debugging.vtime'".to_string(),
        ]
    );
}

#[test]
fn debugging_refuses_keys_outside_the_namespace() {
    let params = Params::from_args(&[
        "--antithesis.debugging.input_hash",
        "abc123",
        "--antithesis.debugging.session_id",
        "sess-456",
        "--antithesis.debugging.vtime",
        "123",
        "--x",
        "value",
    ])
    .unwrap();
    assert_eq!(
        violations_of(params.validate_debugging_params()),
        vec!["additional property 'x' not allowed".to_string()]
    );
}

#[test]
fn debugging_accepts_other_reserved_keys() {
    let params = Params::from_args(&[
        "--antithesis.debugging.input_hash",
        "abc123",
        "--antithesis.debugging.session_id",
        "sess-456",
        "--antithesis.debugging.vtime",
        "123",
        "--antithesis.report.recipients",
        "team@example.com",
        "--antithesis.duration",
        "soon",
    ])
    .unwrap();
    assert!(params.validate_debugging_params().is_ok());
}

#[test]
fn all_violations_are_collected() {
    let mut object = serde_json::Map::new();
    object.insert("antithesis.debugging.vtime".to_string(), serde_json::Value::Bool(true));
    object.insert("zz".to_string(), text("1"));
    let list = validate(&object, Profile::DebuggingParams);
    assert_eq!(
        list,
        vec![
            "missing required property 'antithesis.debugging.input_hash'".to_string(),
            "missing required property 'antithesis.debugging.session_id'".to_string(),
            "property 'antithesis.debugging.vtime' must be a string".to_string(),
            "additional property 'zz' not allowed".to_string(),
        ]
    );
}

#[test]
fn test_runs_let_custom_keys_through() {
    let mut object = serde_json::Map::new();
    object.insert("antithesis.duration".to_string(), text("30"));
    object.insert("my.custom.property".to_string(), serde_json::Value::Array(vec![]));
    object.insert("other".to_string(), serde_json::Value::Null);
    assert!(validate(&object, Profile::TestParams).is_empty());
}

#[test]
fn test_runs_require_a_duration() {
    let params = Params::from_args(&["--antithesis.description", "nightly"]).unwrap();
    assert_eq!(
        violations_of(params.validate_test_params()),
        vec!["missing required property 'antithesis.duration'".to_string()]
    );
}

#[test]
fn duration_must_be_digits() {
    for bad in ["", "-5", "1.5", "30m", " 30"] {
        let params = Params::from_args(&["--antithesis.duration", bad]).unwrap();
        assert_eq!(
            violations_of(params.validate_test_params()),
            vec!["property 'antithesis.duration' must be a string of decimal digits".to_string()]
        );
    }
    let mut object = serde_json::Map::new();
    object.insert("antithesis.duration".to_string(), serde_json::Value::Bool(false));
    assert_eq!(
        validate(&object, Profile::TestParams),
        vec!["property 'antithesis.duration' must be a string of decimal digits".to_string()]
    );
    let params = Params::from_args(&["--antithesis.duration", "0045"]).unwrap();
    assert!(params.validate_test_params().is_ok());
}

#[test]
fn ephemeral_must_be_true_or_false() {
    for good in ["true", "false"] {
        let params =
            Params::from_args(&["--antithesis.duration", "1", "--antithesis.is_ephemeral", good])
                .unwrap();
        assert!(params.validate_test_params().is_ok());
    }
    for bad in ["True", "yes", "", "1"] {
        let params =
            Params::from_args(&["--antithesis.duration", "1", "--antithesis.is_ephemeral", bad])
                .unwrap();
        assert_eq!(
            violations_of(params.validate_test_params()),
            vec!["property 'antithesis.is_ephemeral' must be \"true\" or \"false\"".to_string()]
        );
    }
}

#[test]
fn reserved_keys_hold_strings() {
    let mut object = serde_json::Map::new();
    object.insert("antithesis.duration".to_string(), text("1"));
    object.insert("antithesis.description".to_string(), serde_json::Value::Null);
    assert_eq!(
        validate(&object, Profile::TestParams),
        vec!["property 'antithesis.description' must be a string".to_string()]
    );
}

#[test]
fn integration_groups_hold_objects_of_strings() {
    let grouped = Params::from_args_grouped(&[
        "--antithesis.duration",
        "30",
        "--antithesis.integrations.github.token",
        "t",
        "--antithesis.integrations.github.callback_url",
        "u",
    ])
    .unwrap();
    assert!(grouped.validate_test_params().is_ok());

    let flat = Params::from_args(&[
        "--antithesis.duration",
        "30",
        "--antithesis.integrations.github.token",
        "t",
    ])
    .unwrap();
    assert!(flat.validate_test_params().is_ok());

    let plain = Params::from_args(&["--antithesis.duration", "30", "--antithesis.integrations.github", "t"])
        .unwrap();
    assert_eq!(
        violations_of(plain.validate_test_params()),
        vec!["property 'antithesis.integrations.github' must be an object with string fields"
            .to_string()]
    );

    let mut fields = serde_json::Map::new();
    fields.insert("token".to_string(), serde_json::Value::Bool(true));
    let mut object = serde_json::Map::new();
    object.insert("antithesis.duration".to_string(), text("30"));
    object.insert("antithesis.integrations.github".to_string(), serde_json::Value::Object(fields));
    assert_eq!(
        validate(&object, Profile::TestParams),
        vec!["property 'antithesis.integrations.github' must be an object with string fields"
            .to_string()]
    );
}

#[test]
fn validation_does_not_change_the_parameters() {
    let params = Params::from_args(&["--x", "1"]).unwrap();
    let before = params.as_map().clone();
    assert!(params.validate_debugging_params().is_err());
    assert!(params.validate_test_params().is_err());
    assert_eq!(params.as_map(), &before);
}

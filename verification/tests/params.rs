use snouty::params::Params;

#[test]
fn parse_simple_args() {
    let args = [
        "--antithesis.duration",
        "30",
        "--antithesis.description",
        "test run",
    ];
    let params = Params::from_args(&args).unwrap();

    assert_eq!(params.as_map().get("antithesis.duration").unwrap(), "30");
    assert_eq!(
        params.as_map().get("antithesis.description").unwrap(),
        "test run"
    );
}

#[test]
fn parse_values_as_strings() {
    let args = ["--count", "42", "--enabled", "true", "--ratio", "3.14"];
    let params = Params::from_args(&args).unwrap();

    // Values are kept as strings (schema validates format)
    assert_eq!(params.as_map().get("count").unwrap(), "42");
    assert_eq!(params.as_map().get("enabled").unwrap(), "true");
    assert_eq!(params.as_map().get("ratio").unwrap(), "3.14");
}

#[test]
fn parse_integration_args() {
    let args = [
        "--antithesis.integrations.github.callback_url",
        "https://github.com/cb",
        "--antithesis.integrations.github.token",
        "secret",
    ];
    let params = Params::from_args(&args).unwrap();

    assert_eq!(
        params
            .as_map()
            .get("antithesis.integrations.github.callback_url")
            .unwrap(),
        "https://github.com/cb"
    );
    assert_eq!(
        params
            .as_map()
            .get("antithesis.integrations.github.token")
            .unwrap(),
        "secret"
    );
}

#[test]
fn validate_test_params_success() {
    let args = [
        "--antithesis.duration",
        "30",
        "--antithesis.is_ephemeral",
        "true",
    ];
    let params = Params::from_args(&args).unwrap();
    assert!(params.validate_test_params().is_ok());
}

#[test]
fn validate_test_params_with_custom_props() {
    let args = [
        "--antithesis.duration",
        "30",
        "--my.custom.property",
        "value",
    ];
    let params = Params::from_args(&args).unwrap();
    assert!(params.validate_test_params().is_ok());
}

#[test]
fn validate_debugging_params_success() {
    let args = [
        "--antithesis.debugging.input_hash",
        "abc123",
        "--antithesis.debugging.session_id",
        "sess-456",
        "--antithesis.debugging.vtime",
        "1234567890",
    ];
    let params = Params::from_args(&args).unwrap();
    assert!(params.validate_debugging_params().is_ok());
}

#[test]
fn validate_debugging_params_missing_required() {
    let args = ["--antithesis.debugging.input_hash", "abc123"];
    let params = Params::from_args(&args).unwrap();
    assert!(params.validate_debugging_params().is_err());
}

#[test]
fn validate_debugging_params_rejects_custom_props() {
    let args = [
        "--antithesis.debugging.input_hash",
        "abc123",
        "--antithesis.debugging.session_id",
        "sess-456",
        "--antithesis.debugging.vtime",
        "123",
        "--my.custom.prop",
        "value",
    ];
    let params = Params::from_args(&args).unwrap();
    assert!(params.validate_debugging_params().is_err());
}

#[test]
fn missing_value_error() {
    let args = ["--antithesis.duration"];
    let result = Params::from_args(&args);
    assert!(result.is_err());
}

#[test]
fn unexpected_arg_error() {
    let args = ["notaflag", "value"];
    let result = Params::from_args(&args);
    assert!(result.is_err());
}

#[test]
fn empty_key_after_dashes_error() {
    let args = ["--", "value"];
    let result = Params::from_args(&args);
    assert!(result.is_err());
    assert!(result.unwrap_err().to_string().contains("empty key"));
}

#[test]
fn merge_params_overwrites_existing_keys() {
    let mut base = Params::from_args(&[
        "--antithesis.duration",
        "30",
        "--antithesis.description",
        "base description",
    ])
    .unwrap();

    let overlay = Params::from_args(&[
        "--antithesis.duration",
        "60",
        "--antithesis.report.recipients",
        "team@example.com",
    ])
    .unwrap();

    base.merge(overlay);

    // Overlay value should overwrite base value
    assert_eq!(base.as_map().get("antithesis.duration").unwrap(), "60");
    // Base-only value should be preserved
    assert_eq!(
        base.as_map().get("antithesis.description").unwrap(),
        "base description"
    );
    // Overlay-only value should be added
    assert_eq!(
        base.as_map().get("antithesis.report.recipients").unwrap(),
        "team@example.com"
    );
}

#[test]
fn redacted_map_hides_sensitive_values() {
    let args = [
        "--antithesis.duration",
        "30",
        "--antithesis.integrations.github.token",
        "secret_token_123",
        "--antithesis.integrations.github.callback_url",
        "https://example.com/callback",
        "--antithesis.report.recipients",
        "user@example.com;other@example.com",
    ];
    let params = Params::from_args(&args).unwrap();
    let redacted = params.to_redacted_map();

    // Non-sensitive values should be preserved
    assert_eq!(redacted.get("antithesis.duration").unwrap(), "30");
    assert_eq!(
        redacted
            .get("antithesis.integrations.github.callback_url")
            .unwrap(),
        "https://example.com/callback"
    );

    // Sensitive values should be redacted
    assert_eq!(
        redacted
            .get("antithesis.integrations.github.token")
            .unwrap(),
        "[REDACTED]"
    );
    assert_eq!(
        redacted.get("antithesis.report.recipients").unwrap(),
        "[REDACTED]"
    );
}

#[test]
fn flat_reading_keeps_one_entry_per_key() {
    let params = Params::from_args(&["--a", "1", "--b", "2"]).unwrap();
    assert_eq!(params.len(), 2);
    assert_eq!(params.as_map().get("a").unwrap(), "1");
    assert_eq!(params.as_map().get("b").unwrap(), "2");
}

#[test]
fn flat_reading_of_no_tokens_is_empty() {
    let none: [&str; 0] = [];
    let params = Params::from_args(&none).unwrap();
    assert_eq!(params.len(), 0);
}

#[test]
fn later_token_wins_for_a_repeated_key() {
    let params = Params::from_args(&["--a", "1", "--b", "2", "--a", "3"]).unwrap();
    assert_eq!(params.len(), 2);
    assert_eq!(params.as_map().get("a").unwrap(), "3");
}

#[test]
fn a_value_may_look_like_a_flag() {
    let params = Params::from_args(&["--a", "--b"]).unwrap();
    assert_eq!(params.as_map().get("a").unwrap(), "--b");
}

#[test]
fn reading_fails_with_the_message_for_the_first_fault() {
    assert_eq!(
        Params::from_args(&["--a"]).unwrap_err().to_string(),
        "invalid arguments: missing value for --a"
    );
    assert_eq!(
        Params::from_args(&["x", "1"]).unwrap_err().to_string(),
        "invalid arguments: unexpected argument: x"
    );
    assert_eq!(
        Params::from_args(&["--", "1"]).unwrap_err().to_string(),
        "invalid arguments: empty key after --"
    );
    assert_eq!(
        Params::from_args(&["--a", "1", "-b", "2", "--"]).unwrap_err().to_string(),
        "invalid arguments: unexpected argument: -b"
    );
    assert_eq!(
        Params::from_args_grouped(&["--a", "1", "--b"]).unwrap_err().to_string(),
        "invalid arguments: missing value for --b"
    );
}

#[test]
fn grouped_reading_collects_integration_fields() {
    let params = Params::from_args_grouped(&[
        "--ns.integrations.gh.token",
        "t",
        "--ns.integrations.gh.url",
        "u",
    ])
    .unwrap();
    assert_eq!(params.len(), 1);
    let mut fields = serde_json::Map::new();
    fields.insert("token".to_string(), serde_json::Value::String("t".to_string()));
    fields.insert("url".to_string(), serde_json::Value::String("u".to_string()));
    assert_eq!(
        params.as_map().get("ns.integrations.gh").unwrap(),
        &serde_json::Value::Object(fields)
    );
}

#[test]
fn grouped_reading_leaves_other_keys_flat() {
    let params = Params::from_args_grouped(&[
        "--antithesis.duration",
        "30",
        "--ns.integrations.gh",
        "x",
        "--ns.other.gh.token",
        "t",
        "--.integrations.gh.token",
        "a",
        "--ns.integrations..token",
        "b",
        "--ns.integrations.gh.",
        "c",
        "--ns.integrations.gl.a.b",
        "d",
    ])
    .unwrap();
    assert_eq!(params.as_map().get("antithesis.duration").unwrap(), "30");
    assert_eq!(params.as_map().get("ns.other.gh.token").unwrap(), "t");
    assert_eq!(params.as_map().get(".integrations.gh.token").unwrap(), "a");
    assert_eq!(params.as_map().get("ns.integrations..token").unwrap(), "b");
    assert_eq!(params.as_map().get("ns.integrations.gh.").unwrap(), "c");
    assert_eq!(params.as_map().get("ns.integrations.gh").unwrap(), "x");
    let mut fields = serde_json::Map::new();
    fields.insert("a.b".to_string(), serde_json::Value::String("d".to_string()));
    assert_eq!(
        params.as_map().get("ns.integrations.gl").unwrap(),
        &serde_json::Value::Object(fields)
    );
    assert_eq!(params.len(), 7);
}

#[test]
fn grouped_reading_replaces_what_is_no_object() {
    let params = Params::from_args_grouped(&[
        "--ns.integrations.gh",
        "plain",
        "--ns.integrations.gh.token",
        "t",
    ])
    .unwrap();
    let mut fields = serde_json::Map::new();
    fields.insert("token".to_string(), serde_json::Value::String("t".to_string()));
    assert_eq!(
        params.as_map().get("ns.integrations.gh").unwrap(),
        &serde_json::Value::Object(fields)
    );
}

#[test]
fn from_json_takes_an_object_only() {
    let mut object = serde_json::Map::new();
    object.insert("a".to_string(), serde_json::Value::String("1".to_string()));
    object.insert("n".to_string(), serde_json::Value::Bool(true));
    let params = Params::from_json(&serde_json::Value::Object(object.clone())).unwrap();
    assert_eq!(params.as_map(), &object);
    assert_eq!(params.to_value(), serde_json::Value::Object(object));

    let refused = Params::from_json(&serde_json::Value::String("a".to_string()));
    assert_eq!(
        refused.unwrap_err().to_string(),
        "invalid arguments: expected JSON object"
    );
    assert!(Params::from_json(&serde_json::Value::Null).is_err());
    assert!(Params::from_json(&serde_json::Value::Array(vec![])).is_err());
}

#[test]
fn merge_is_biased_to_the_overlay() {
    let mut base = Params::from_args(&["--a", "1", "--b", "2"]).unwrap();
    let overlay = Params::from_args(&["--b", "3", "--c", "4"]).unwrap();
    base.merge(overlay);
    assert_eq!(base.len(), 3);
    assert_eq!(base.as_map().get("a").unwrap(), "1");
    assert_eq!(base.as_map().get("b").unwrap(), "3");
    assert_eq!(base.as_map().get("c").unwrap(), "4");
}

#[test]
fn merge_replaces_whole_objects() {
    let mut base =
        Params::from_args_grouped(&["--ns.integrations.gh.token", "t", "--ns.integrations.gh.url", "u"])
            .unwrap();
    let overlay = Params::from_args_grouped(&["--ns.integrations.gh.token", "v"]).unwrap();
    base.merge(overlay);
    let mut fields = serde_json::Map::new();
    fields.insert("token".to_string(), serde_json::Value::String("v".to_string()));
    assert_eq!(
        base.as_map().get("ns.integrations.gh").unwrap(),
        &serde_json::Value::Object(fields)
    );
}

#[test]
fn merge_with_nothing_changes_nothing() {
    let none: [&str; 0] = [];
    let mut base = Params::from_args(&["--a", "1"]).unwrap();
    base.merge(Params::from_args(&none).unwrap());
    assert_eq!(base.len(), 1);
    assert_eq!(base.as_map().get("a").unwrap(), "1");
}

#[test]
fn redaction_keeps_keys_and_is_idempotent() {
    let params = Params::from_args(&[
        "--a.token",
        "secret",
        "--token",
        "kept",
        "--antithesis.report.recipients",
        "x@example.com",
        "--antithesis.report.recipients.cc",
        "y@example.com",
        "--.token",
        "s",
    ])
    .unwrap();
    let once = params.to_redacted_map();
    assert_eq!(once.len(), 5);
    assert_eq!(once.get("a.token").unwrap(), "[REDACTED]");
    assert_eq!(once.get(".token").unwrap(), "[REDACTED]");
    assert_eq!(once.get("token").unwrap(), "kept");
    assert_eq!(once.get("antithesis.report.recipients").unwrap(), "[REDACTED]");
    assert_eq!(once.get("antithesis.report.recipients.cc").unwrap(), "y@example.com");
    let again = Params::from_json(&serde_json::Value::Object(once.clone()))
        .unwrap()
        .to_redacted_map();
    assert_eq!(again, once);
    // the parameters themselves are not changed
    assert_eq!(params.as_map().get("a.token").unwrap(), "secret");
}

#[test]
fn sensitive_keys() {
    assert!(snouty::params::is_sensitive_key("antithesis.integrations.github.token"));
    assert!(snouty::params::is_sensitive_key("antithesis.report.recipients"));
    assert!(snouty::params::is_sensitive_key(".token"));
    assert!(!snouty::params::is_sensitive_key("token"));
    assert!(!snouty::params::is_sensitive_key("a.tokens"));
    assert!(!snouty::params::is_sensitive_key("antithesis.report.recipient"));
    assert!(!snouty::params::is_sensitive_key(""));
}

#[test]
fn clone_holds_the_same_entries() {
    let params = Params::from_args(&["--a", "1"]).unwrap();
    let copy = params.clone();
    assert_eq!(copy.as_map(), params.as_map());
}

#[test]
fn distinct_keys_give_one_entry_each_in_both_readings() {
    let args = ["--a", " 1 ", "--b", "true", "--c.d", "3.0", "--e", ""];
    for grouped in [false, true] {
        let map = snouty::params::parse_args(&args, grouped).unwrap();
        assert_eq!(map.len(), 4);
        assert_eq!(map.get("a").unwrap(), &serde_json::Value::String(" 1 ".to_string()));
        assert_eq!(map.get("b").unwrap(), &serde_json::Value::String("true".to_string()));
        assert_eq!(map.get("c.d").unwrap(), &serde_json::Value::String("3.0".to_string()));
        assert_eq!(map.get("e").unwrap(), &serde_json::Value::String(String::new()));
    }
    assert!(snouty::params::parse_args(&["--a"], true).is_err());
}

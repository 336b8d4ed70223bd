use snouty::error::Error;

#[test]
fn error_lines() {
    assert_eq!(
        Error::MissingEnvVar("ANTITHESIS_TENANT").to_string(),
        "missing environment variable: ANTITHESIS_TENANT"
    );
    assert_eq!(
        Error::InvalidEnvVar { name: "ANTITHESIS_USERNAME", source: "not unicode".to_string() }
            .to_string(),
        "invalid environment variable ANTITHESIS_USERNAME: not unicode"
    );
    assert_eq!(
        Error::Request("timed out".to_string()).to_string(),
        "HTTP request failed: timed out"
    );
    assert_eq!(
        Error::Api { status: 400, message: "bad".to_string() }.to_string(),
        "API error: 400 - bad"
    );
    assert_eq!(
        Error::InvalidArgs("no parameters provided".to_string()).to_string(),
        "invalid arguments: no parameters provided"
    );
}

#[test]
fn status_is_written_in_decimal() {
    for (status, text) in [(0u16, "0"), (7, "7"), (10, "10"), (404, "404"), (65535, "65535")] {
        assert_eq!(
            Error::Api { status, message: String::new() }.to_string(),
            format!("API error: {} - ", text)
        );
    }
}

#[test]
fn violations_are_joined_with_commas() {
    assert_eq!(Error::ValidationFailed(vec![]).to_string(), "validation failed: ");
    assert_eq!(
        Error::ValidationFailed(vec!["a".to_string()]).to_string(),
        "validation failed: a"
    );
    assert_eq!(
        Error::ValidationFailed(vec!["a".to_string(), "b".to_string(), "c".to_string()])
            .to_string(),
        "validation failed: a, b, c"
    );
}

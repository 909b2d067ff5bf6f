use guardlib::config::{
    extract_config_fields, extract_json_string, read_signed_config, verify_config, ConfigError,
};

#[test]
fn json_string_value_is_extracted() {
    let json = r#"{"api_url":"https://example.com","api_fingerprint":"AA:BB:CC:DD"}"#;
    assert_eq!(extract_json_string(json, "api_url"), Some("https://example.com".to_string()));
    assert_eq!(extract_json_string(json, "api_fingerprint"), Some("AA:BB:CC:DD".to_string()));
}

#[test]
fn whitespace_around_the_colon_is_skipped() {
    let json = "{\n  \"api_url\" :\t \"https://x.test\"\n}";
    assert_eq!(extract_json_string(json, "api_url"), Some("https://x.test".to_string()));
}

#[test]
fn missing_or_non_string_values_give_nothing() {
    assert_eq!(extract_json_string(r#"{"other":"v"}"#, "api_url"), None);
    assert_eq!(extract_json_string(r#"{"api_url":42}"#, "api_url"), None);
    assert_eq!(extract_json_string(r#"{"api_url""#, "api_url"), None);
    assert_eq!(extract_json_string(r#"{"api_url":"unterminated"#, "api_url"), None);
}

#[test]
fn key_text_in_value_position_is_not_a_key() {
    assert_eq!(extract_json_string(r#"{"x":"api_url","y":"evil"}"#, "api_url"), None);
    let json = r#"{"note":"api_url","api_url" : "https://good.test"}"#;
    assert_eq!(extract_json_string(json, "api_url"), Some("https://good.test".to_string()));
}

#[test]
fn value_is_read_after_the_first_colon_following_the_key() {
    let json = r#"{"api_url" "x":"https://evil"}"#;
    assert_eq!(extract_json_string(json, "api_url"), Some("https://evil".to_string()));
}

#[test]
fn readme_example_config_parses() {
    let json = "{\n  \"api_url\": \"https://your-backend.com\",\n  \"api_fingerprint\": \"AA:BB:CC:DD:EE:FF:...\"\n}";
    assert_eq!(
        extract_config_fields(json),
        Some(("https://your-backend.com".to_string(), "AA:BB:CC:DD:EE:FF:...".to_string()))
    );
}

#[test]
fn response_with_nul_is_refused() {
    let json = b"{\"api_url\":\"a\0b\",\"api_fingerprint\":\"AA\"}";
    assert_eq!(read_signed_config(json), Err(ConfigError::NulInResponse));
    assert_eq!(ConfigError::NulInResponse.message(), "Internal error: result contains NUL byte");
}

#[test]
fn value_ends_at_the_first_quote() {
    let json = r#"{"api_url":"a\"b"}"#;
    assert_eq!(extract_json_string(json, "api_url"), Some("a\\".to_string()));
}

#[test]
fn config_fields_need_both_values_non_empty() {
    let json = r#"{"api_url":"https://example.com","api_fingerprint":"aa:bb"}"#;
    assert_eq!(
        extract_config_fields(json),
        Some(("https://example.com".to_string(), "aa:bb".to_string()))
    );
    assert_eq!(extract_config_fields(r#"{"api_url":"","api_fingerprint":"AA"}"#), None);
    assert_eq!(extract_config_fields(r#"{"api_url":"u","api_fingerprint":""}"#), None);
    assert_eq!(extract_config_fields(r#"{"api_url":"u"}"#), None);
}

#[test]
fn signed_config_response_uppercases_the_fingerprint() {
    let json = br#"{"api_url":"https://example.com","api_fingerprint":"aa:bb:cc"}"#;
    assert_eq!(
        read_signed_config(json),
        Ok(r#"{"api_url":"https://example.com","api_fingerprint":"AA:BB:CC"}"#.to_string())
    );
}

#[test]
fn signed_config_that_is_not_utf8_is_refused() {
    let json = [b'{', 0xff, 0xfe, b'}'];
    assert_eq!(read_signed_config(&json), Err(ConfigError::NotUtf8));
}

#[test]
fn signed_config_without_fields_is_refused() {
    assert_eq!(read_signed_config(br#"{"api_url":"x"}"#), Err(ConfigError::MissingFields));
}

#[test]
fn short_signature_is_refused_with_its_length() {
    let r = verify_config(b"{}", &[0u8; 63]);
    assert_eq!(r, Err(ConfigError::SignatureLength(63)));
    assert_eq!(
        ConfigError::SignatureLength(63).message(),
        "Signature mismatch: expected 64 bytes, got 63"
    );
}

#[test]
fn unsigned_config_is_refused() {
    let json = br#"{"api_url":"https://evil.test","api_fingerprint":"AA"}"#;
    assert_eq!(verify_config(json, &[0u8; 64]), Err(ConfigError::SignatureMismatch));
}

#[test]
fn error_messages() {
    assert_eq!(ConfigError::SignatureMismatch.message(), "Signature mismatch");
    assert_eq!(ConfigError::NotUtf8.message(), "Internal error: config is not valid UTF-8");
    assert_eq!(
        ConfigError::MissingFields.message(),
        "Signature mismatch: missing api_url or api_fingerprint"
    );
    assert_eq!(
        ConfigError::SignatureLength(0).message(),
        "Signature mismatch: expected 64 bytes, got 0"
    );
    assert_eq!(
        ConfigError::SignatureLength(1234).message(),
        "Signature mismatch: expected 64 bytes, got 1234"
    );
}

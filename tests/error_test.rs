use open_agent::{Error, Result};

fn into_error(e: reqwest::Error) -> Error {
    Error::Http(e)
}

fn returns_result() -> Result<i32> {
    Ok(42)
}

fn returns_error() -> Result<i32> {
    Err(Error::timeout())
}

#[test]
fn test_error_config() {
    let err = Error::config("Invalid model");
    assert!(matches!(err, Error::Config(_)));
    assert_eq!(err.to_string(), "Invalid configuration: Invalid model");
}

#[test]
fn test_error_api() {
    let err = Error::api("500 Internal Server Error");
    assert!(matches!(err, Error::Api(_)));
    assert_eq!(err.to_string(), "API error: 500 Internal Server Error");
}

#[test]
fn test_error_stream() {
    let err = Error::stream("Connection lost");
    assert!(matches!(err, Error::Stream(_)));
    assert_eq!(err.to_string(), "Streaming error: Connection lost");
}

#[test]
fn test_error_tool() {
    let err = Error::tool("Tool not found");
    assert!(matches!(err, Error::Tool(_)));
    assert_eq!(err.to_string(), "Tool execution error: Tool not found");
}

#[test]
fn test_error_invalid_input() {
    let err = Error::invalid_input("Missing parameter");
    assert!(matches!(err, Error::InvalidInput(_)));
    assert_eq!(err.to_string(), "Invalid input: Missing parameter");
}

#[test]
fn test_error_timeout() {
    let err = Error::timeout();
    assert!(matches!(err, Error::Timeout));
    assert_eq!(err.to_string(), "Request timeout");
}

#[test]
fn test_error_other() {
    let err = Error::other("Something went wrong");
    assert!(matches!(err, Error::Other(_)));
    assert_eq!(err.to_string(), "Error: Something went wrong");
}

#[test]
fn test_error_from_reqwest() {
    // Conversion from reqwest::Error is checked at compile time.
    let _convert: fn(reqwest::Error) -> Error = into_error;
    let _from: fn(reqwest::Error) -> Error = Error::from;
}

#[test]
fn test_error_from_serde_json() {
    let json_err = serde_json::from_str::<serde_json::Value>("invalid json").unwrap_err();
    let err: Error = json_err.into();
    assert!(matches!(err, Error::Json(_)));
}

#[test]
fn test_result_type_alias() {
    assert_eq!(returns_result().unwrap(), 42);
    assert!(matches!(returns_error(), Err(Error::Timeout)));
}

#[test]
fn interrupted_is_distinct_from_timeout() {
    let err = Error::interrupted();
    assert!(matches!(err, Error::Interrupted));
    assert_eq!(err.to_string(), "Operation interrupted");
    assert_ne!(err.to_string(), Error::timeout().to_string());
}

#[test]
fn json_error_message_has_prefix() {
    let json_err = serde_json::from_str::<serde_json::Value>("{").unwrap_err();
    let err = Error::from(json_err);
    assert!(err.to_string().starts_with("JSON error: "));
}

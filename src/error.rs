//! Error type shared by every component of the engine.
use vstd::prelude::*;
use reqwest::Error as HttpError;
use serde_json::Error as JsonError;

verus! {

/// Declares `reqwest::Error`, carried opaquely by transport failures.
#[verifier::external_type_specification]
#[verifier::external_body]
pub struct ExHttpError(HttpError);

/// Declares `serde_json::Error`, carried opaquely by JSON failures.
#[verifier::external_type_specification]
#[verifier::external_body]
pub struct ExJsonError(JsonError);

/// Every failure the engine reports.
#[derive(Debug)]
pub enum Error {
    /// The HTTP transport failed (connection, DNS, TLS, body read).
    Http(HttpError),
    /// A JSON document could not be parsed or produced.
    Json(JsonError),
    /// The configuration is invalid; detected before any I/O.
    Config(String),
    /// The server answered with a well-formed error response.
    Api(String),
    /// The event stream was malformed.
    Stream(String),
    /// A tool call could not be prepared or executed.
    Tool(String),
    /// Caller-supplied data violates a precondition.
    InvalidInput(String),
    /// The overall operation budget elapsed.
    Timeout,
    /// The caller asked for the operation to stop.
    Interrupted,
    /// Anything that fits no other kind.
    Other(String),
}

/// Result type used throughout the engine.
pub type Result<T> = core::result::Result<T, Error>;

impl Error {
    /// A configuration error carrying `msg`.
    pub fn config(msg: &str) -> (r: Error)
        ensures
            r matches Error::Config(m) && m@ == msg@,
    {
        Error::Config(msg.to_string())
    }

    /// An error response from the server carrying `msg`.
    pub fn api(msg: &str) -> (r: Error)
        ensures
            r matches Error::Api(m) && m@ == msg@,
    {
        Error::Api(msg.to_string())
    }

    /// A streaming error carrying `msg`.
    pub fn stream(msg: &str) -> (r: Error)
        ensures
            r matches Error::Stream(m) && m@ == msg@,
    {
        Error::Stream(msg.to_string())
    }

    /// A tool error carrying `msg`.
    pub fn tool(msg: &str) -> (r: Error)
        ensures
            r matches Error::Tool(m) && m@ == msg@,
    {
        Error::Tool(msg.to_string())
    }

    /// An input validation error carrying `msg`.
    pub fn invalid_input(msg: &str) -> (r: Error)
        ensures
            r matches Error::InvalidInput(m) && m@ == msg@,
    {
        Error::InvalidInput(msg.to_string())
    }

    /// An error of no other kind carrying `msg`.
    pub fn other(msg: &str) -> (r: Error)
        ensures
            r matches Error::Other(m) && m@ == msg@,
    {
        Error::Other(msg.to_string())
    }

    /// The error for an elapsed operation budget.
    pub fn timeout() -> (r: Error)
        ensures
            r is Timeout,
    {
        Error::Timeout
    }

    /// The error for an operation the caller cancelled.
    pub fn interrupted() -> (r: Error)
        ensures
            r is Interrupted,
    {
        Error::Interrupted
    }

    /// The human-readable message of the error: a fixed prefix naming the
    /// kind, followed by the carried message.
    pub fn to_string(&self) -> (r: String)
        ensures
            self matches Error::Config(m) ==> r@ == "Invalid configuration: "@ + m@,
            self matches Error::Api(m) ==> r@ == "API error: "@ + m@,
            self matches Error::Stream(m) ==> r@ == "Streaming error: "@ + m@,
            self matches Error::Tool(m) ==> r@ == "Tool execution error: "@ + m@,
            self matches Error::InvalidInput(m) ==> r@ == "Invalid input: "@ + m@,
            self matches Error::Other(m) ==> r@ == "Error: "@ + m@,
            self is Timeout ==> r@ == "Request timeout"@,
            self is Interrupted ==> r@ == "Operation interrupted"@,
            self is Http ==> exists|t: Seq<char>| r@ == "HTTP request failed: "@ + t,
            self is Json ==> exists|t: Seq<char>| r@ == "JSON error: "@ + t,
    {
        match self {
            Error::Http(e) => {
                let t = e.to_string();
                let r = String::from_str("HTTP request failed: ").concat(t.as_str());
                assert(r@ == "HTTP request failed: "@ + t@);
                r
            },
            Error::Json(e) => {
                let t = e.to_string();
                let r = String::from_str("JSON error: ").concat(t.as_str());
                assert(r@ == "JSON error: "@ + t@);
                r
            },
            Error::Config(m) => String::from_str("Invalid configuration: ").concat(m.as_str()),
            Error::Api(m) => String::from_str("API error: ").concat(m.as_str()),
            Error::Stream(m) => String::from_str("Streaming error: ").concat(m.as_str()),
            Error::Tool(m) => String::from_str("Tool execution error: ").concat(m.as_str()),
            Error::InvalidInput(m) => String::from_str("Invalid input: ").concat(m.as_str()),
            Error::Other(m) => String::from_str("Error: ").concat(m.as_str()),
            Error::Timeout => String::from_str("Request timeout"),
            Error::Interrupted => String::from_str("Operation interrupted"),
        }
    }
}

impl From<HttpError> for Error {
    fn from(e: HttpError) -> (r: Error)
        ensures
            r == Error::Http(e),
    {
        Error::Http(e)
    }
}

impl vstd::std_specs::convert::FromSpecImpl<HttpError> for Error {
    open spec fn obeys_from_spec() -> bool {
        true
    }

    open spec fn from_spec(e: HttpError) -> Error {
        Error::Http(e)
    }
}

impl From<JsonError> for Error {
    fn from(e: JsonError) -> (r: Error)
        ensures
            r == Error::Json(e),
    {
        Error::Json(e)
    }
}

impl vstd::std_specs::convert::FromSpecImpl<JsonError> for Error {
    open spec fn obeys_from_spec() -> bool {
        true
    }

    open spec fn from_spec(e: JsonError) -> Error {
        Error::Json(e)
    }
}

} // verus!

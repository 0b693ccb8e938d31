use vstd::prelude::*;
use vstd::string::to_string_from_display_ensures;

verus! {

/// The error type of `dotenvy`, carried through unchanged.
#[verifier::external_type_specification]
#[verifier::external_body]
pub struct ExDotenvError(dotenvy::Error);

/// The error type of `serde_json`, carried through unchanged.
#[verifier::external_type_specification]
#[verifier::external_body]
pub struct ExJsonError(serde_json::Error);

/// The deserialisation error type of `toml`, carried through unchanged.
#[verifier::external_type_specification]
#[verifier::external_body]
pub struct ExTomlError(toml::de::Error);

/// Every way in which loading configuration or running the command can fail.
#[derive(Debug)]
pub enum ConfixError {
    /// A file exists but could not be read; carries the system's message.
    Io(String),
    /// A dotenv file is malformed.
    Dotenv(dotenvy::Error),
    /// A JSON file is not a flat object of strings.
    Json(serde_json::Error),
    /// A TOML file is not a flat table of strings.
    Toml(toml::de::Error),
    /// No command was given, or it could not be spawned or waited on.
    CommandFailed(String),
    /// The path names no supported format.
    UnsupportedFormat(String),
    /// The path does not exist.
    FileNotFound(String),
}

/// Two errors of the same kind with the same text; the parsers' own error
/// values are compared by kind only.
pub open spec fn same_error(a: ConfixError, b: ConfixError) -> bool {
    match (a, b) {
        (ConfixError::Io(x), ConfixError::Io(y)) => x@ == y@,
        (ConfixError::Dotenv(_), ConfixError::Dotenv(_)) => true,
        (ConfixError::Json(_), ConfixError::Json(_)) => true,
        (ConfixError::Toml(_), ConfixError::Toml(_)) => true,
        (ConfixError::CommandFailed(x), ConfixError::CommandFailed(y)) => x@ == y@,
        (ConfixError::UnsupportedFormat(x), ConfixError::UnsupportedFormat(y)) => x@ == y@,
        (ConfixError::FileNotFound(x), ConfixError::FileNotFound(y)) => x@ == y@,
        _ => false,
    }
}

fn prefixed(prefix: &str, detail: &str) -> (r: String)
    ensures
        r@ == prefix@ + detail@,
{
    let mut s = prefix.to_owned();
    s.append(detail);
    s
}

impl ConfixError {
    /// The human-readable text of the error, as printed after `Error: `.
    pub fn message(&self) -> (r: String)
        ensures
            match self {
                ConfixError::Io(m) => r@ == "IO error: "@ + m@,
                ConfixError::CommandFailed(m) => r@ == "Command execution failed: "@ + m@,
                ConfixError::UnsupportedFormat(p) => r@ == "Unsupported file format for: "@ + p@,
                ConfixError::FileNotFound(p) => r@ == "Configuration file not found: "@ + p@,
                ConfixError::Dotenv(e) => exists|d: String|
                    #[trigger] to_string_from_display_ensures::<dotenvy::Error>(e, d) && r@ == "Dotenv error: "@ + d@,
                ConfixError::Json(e) => exists|d: String|
                    #[trigger] to_string_from_display_ensures::<serde_json::Error>(e, d) && r@ == "JSON parsing error: "@ + d@,
                ConfixError::Toml(e) => exists|d: String|
                    #[trigger] to_string_from_display_ensures::<toml::de::Error>(e, d) && r@ == "TOML parsing error: "@ + d@,
            },
    {
        match self {
            ConfixError::Io(m) => prefixed("IO error: ", m.as_str()),
            ConfixError::CommandFailed(m) => prefixed("Command execution failed: ", m.as_str()),
            ConfixError::UnsupportedFormat(p) => prefixed("Unsupported file format for: ", p.as_str()),
            ConfixError::FileNotFound(p) => prefixed("Configuration file not found: ", p.as_str()),
            ConfixError::Dotenv(e) => {
                let d = e.to_string();
                prefixed("Dotenv error: ", d.as_str())
            },
            ConfixError::Json(e) => {
                let d = e.to_string();
                prefixed("JSON parsing error: ", d.as_str())
            },
            ConfixError::Toml(e) => {
                let d = e.to_string();
                prefixed("TOML parsing error: ", d.as_str())
            },
        }
    }
}

} // verus!

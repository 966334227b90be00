//! Errors reported by apix commands, the hints shown beside them and the
//! process exit codes they map to.

use vstd::prelude::*;
use crate::text::{chars_of, concat2, contains, contains_str, owned, str_eq};

verus! {

/// An apix failure, by kind, with its message.
#[derive(Debug, Clone, PartialEq, Eq)]
pub enum ApixError {
    Io(String),
    Parse(String),
    Http(String),
    Git(String),
    Config(String),
    VaultNotFound(String),
    RouteNotFound(String),
    Ambiguous(String),
}

/// The kind-specific prefix printed before an error's message.
pub open spec fn error_prefix(e: ApixError) -> Seq<char> {
    match e {
        ApixError::Io(_) => "I/O error: "@,
        ApixError::Parse(_) => "Parse error: "@,
        ApixError::Http(_) => "HTTP error: "@,
        ApixError::Git(_) => "Git error: "@,
        ApixError::Config(_) => "Config error: "@,
        ApixError::VaultNotFound(_) => "Vault not found: "@,
        ApixError::RouteNotFound(_) => "Route not found: "@,
        ApixError::Ambiguous(_) => "Ambiguous route/source: "@,
    }
}

/// The message carried by an error.
pub open spec fn error_detail(e: ApixError) -> Seq<char> {
    match e {
        ApixError::Io(m) => m@,
        ApixError::Parse(m) => m@,
        ApixError::Http(m) => m@,
        ApixError::Git(m) => m@,
        ApixError::Config(m) => m@,
        ApixError::VaultNotFound(m) => m@,
        ApixError::RouteNotFound(m) => m@,
        ApixError::Ambiguous(m) => m@,
    }
}

impl ApixError {
    /// The text shown for the error: its kind's prefix, then its message.
    pub fn message(&self) -> (r: String)
        ensures
            r@ == error_prefix(*self) + error_detail(*self),
    {
        match self {
            ApixError::Io(m) => concat2("I/O error: ", m.as_str()),
            ApixError::Parse(m) => concat2("Parse error: ", m.as_str()),
            ApixError::Http(m) => concat2("HTTP error: ", m.as_str()),
            ApixError::Git(m) => concat2("Git error: ", m.as_str()),
            ApixError::Config(m) => concat2("Config error: ", m.as_str()),
            ApixError::VaultNotFound(m) => concat2("Vault not found: ", m.as_str()),
            ApixError::RouteNotFound(m) => concat2("Route not found: ", m.as_str()),
            ApixError::Ambiguous(m) => concat2("Ambiguous route/source: ", m.as_str()),
        }
    }
}

/// The hint printed after an error, by kind.
pub open spec fn hint_for(e: ApixError) -> Seq<char> {
    match e {
        ApixError::VaultNotFound(m) => if contains(m@, "registry.json"@) {
            "Run `apix update` (or `apix update --source <name>`) to fetch source metadata."@
        } else {
            "Run `apix update` then `apix pull <namespace>`."@
        },
        ApixError::RouteNotFound(_) => "Use `apix grep <namespace> <query>` to discover available routes."@,
        ApixError::Parse(_) => "Check command flags and input file format (OpenAPI 3.0/3.1 JSON or YAML)."@,
        ApixError::Http(_) => "Verify network access, URL, headers, and required parameters."@,
        ApixError::Git(_) => "Ensure git is installed and retry `apix update` or `apix pull`."@,
        ApixError::Config(_) => "Run `apix init` to create default config, or verify APIX_HOME/config.toml."@,
        ApixError::Ambiguous(_) => "Disambiguate with --source or with a source-prefixed route."@,
        ApixError::Io(_) => "Verify filesystem paths and permissions."@,
    }
}

/// The next step suggested for an error; every kind has one.
pub fn actionable_hint(err: &ApixError) -> (r: Option<&'static str>)
    ensures
        r matches Some(h) && h@ == hint_for(*err),
{
    match err {
        ApixError::VaultNotFound(msg) => {
            let m = chars_of(msg.as_str());
            if contains_str(m.as_slice(), "registry.json") {
                Some(
                    "Run `apix update` (or `apix update --source <name>`) to fetch source metadata.",
                )
            } else {
                Some("Run `apix update` then `apix pull <namespace>`.")
            }
        },
        ApixError::RouteNotFound(_) => Some(
            "Use `apix grep <namespace> <query>` to discover available routes.",
        ),
        ApixError::Parse(_) => Some(
            "Check command flags and input file format (OpenAPI 3.0/3.1 JSON or YAML).",
        ),
        ApixError::Http(_) => Some("Verify network access, URL, headers, and required parameters."),
        ApixError::Git(_) => Some("Ensure git is installed and retry `apix update` or `apix pull`."),
        ApixError::Config(_) => Some(
            "Run `apix init` to create default config, or verify APIX_HOME/config.toml.",
        ),
        ApixError::Ambiguous(_) => Some("Disambiguate with --source or with a source-prefixed route."),
        ApixError::Io(_) => Some("Verify filesystem paths and permissions."),
    }
}

/// The process exit status for a failed command: 1 for configuration and
/// lookup failures, 2 for everything else.
pub fn exit_code(err: &ApixError) -> (r: i32)
    ensures
        r == (match *err {
            ApixError::Config(_) | ApixError::VaultNotFound(_) | ApixError::RouteNotFound(_)
            | ApixError::Ambiguous(_) => 1i32,
            _ => 2i32,
        }),
{
    match err {
        ApixError::Config(_) | ApixError::VaultNotFound(_) | ApixError::RouteNotFound(_)
        | ApixError::Ambiguous(_) => 1,
        _ => 2,
    }
}

} // verus!

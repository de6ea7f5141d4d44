//! Failure taxonomy of the server.

use vstd::prelude::*;
use vstd::string::StringExecFns;

verus! {

/// Why reading or validating the project configuration failed.
#[derive(Debug, PartialEq, Eq, Structural, Clone, Copy)]
pub enum ConfigError {
    InvalidUri,
    ConfigNotFound,
    ConfigNotParsed,
}

impl ConfigError {
    /// A fixed description of the failure.
    pub fn message(&self) -> (r: &'static str)
        ensures
            r@ == config_error_text(*self),
    {
        match self {
            ConfigError::InvalidUri => "ConfigError: Invalid Uri.",
            ConfigError::ConfigNotFound => "ConfigError: Config not found.",
            ConfigError::ConfigNotParsed => "ConfigError: Config can't be parsed.",
        }
    }
}

pub open spec fn config_error_text(e: ConfigError) -> Seq<char> {
    match e {
        ConfigError::InvalidUri => "ConfigError: Invalid Uri."@,
        ConfigError::ConfigNotFound => "ConfigError: Config not found."@,
        ConfigError::ConfigNotParsed => "ConfigError: Config can't be parsed."@,
    }
}

/// One error per failure category of the server.
#[derive(Debug)]
pub enum BSPError {
    /// A malformed frame header on the inbound stream.
    Framing(String),
    /// An unparseable message body, or an unrecognized method.
    Protocol(String),
    /// A missing or invalid project configuration.
    Config(ConfigError),
    /// The external build tool failed or produced unusable output.
    Subprocess(String),
    /// A dangling id cross-reference inside the action-graph document.
    Resolution(String),
    /// A lookup for a target or file that the last resolution did not produce.
    TargetNotFound(String),
}

pub open spec fn bsp_error_text(e: BSPError) -> Seq<char> {
    match e {
        BSPError::Framing(m) => "BSPError::Framing -> Reason: "@ + m@,
        BSPError::Protocol(m) => "BSPError::Protocol -> Reason: "@ + m@,
        BSPError::Config(c) => "BSPError::Config -> Reason: "@ + config_error_text(c),
        BSPError::Subprocess(m) => "BSPError::Subprocess -> Reason: "@ + m@,
        BSPError::Resolution(m) => "BSPError::Resolution -> Reason: "@ + m@,
        BSPError::TargetNotFound(m) => "BSPError::TargetNotFound -> Reason: "@ + m@,
    }
}

impl BSPError {
    /// A description naming the category and the reason.
    pub fn message(&self) -> (r: String)
        ensures
            r@ == bsp_error_text(*self),
    {
        match self {
            BSPError::Framing(m) => {
                let mut s = String::from_str("BSPError::Framing -> Reason: ");
                s.append(m.as_str());
                s
            },
            BSPError::Protocol(m) => {
                let mut s = String::from_str("BSPError::Protocol -> Reason: ");
                s.append(m.as_str());
                s
            },
            BSPError::Config(c) => {
                let mut s = String::from_str("BSPError::Config -> Reason: ");
                s.append(c.message());
                s
            },
            BSPError::Subprocess(m) => {
                let mut s = String::from_str("BSPError::Subprocess -> Reason: ");
                s.append(m.as_str());
                s
            },
            BSPError::Resolution(m) => {
                let mut s = String::from_str("BSPError::Resolution -> Reason: ");
                s.append(m.as_str());
                s
            },
            BSPError::TargetNotFound(m) => {
                let mut s = String::from_str("BSPError::TargetNotFound -> Reason: ");
                s.append(m.as_str());
                s
            },
        }
    }
}

/// The propagation policy: subprocess, resolution and lookup failures
/// stay local to the request that hit them; framing, protocol and
/// configuration failures end the session.
pub fn is_request_local(e: &BSPError) -> (r: bool)
    ensures
        r == (e is Subprocess || e is Resolution || e is TargetNotFound),
{
    match e {
        BSPError::Subprocess(_) => true,
        BSPError::Resolution(_) => true,
        BSPError::TargetNotFound(_) => true,
        BSPError::Framing(_) => false,
        BSPError::Protocol(_) => false,
        BSPError::Config(_) => false,
    }
}

} // verus!

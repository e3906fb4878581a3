use vstd::prelude::*;

use crate::error::AstralError;
use crate::text::{all_whitespace, chars_of, trim};

verus! {

/// The log filter used when `RUST_LOG` is not set.
pub open spec fn default_log_filter() -> Seq<char> {
    "astral=info"@
}

/// The program's configuration.
#[derive(Debug, Clone, PartialEq, Eq)]
pub struct Config {
    /// The `tracing` filter directives for the log.
    pub log_filter: String,
}

impl Default for Config {
    fn default() -> (r: Self)
        ensures
            r.log_filter@ == default_log_filter(),
    {
        Config { log_filter: "astral=info".to_owned() }
    }
}

/// What the environment holds for a variable, as `std::env::var` reports it.
#[derive(Debug, Clone, PartialEq, Eq)]
pub enum EnvValue {
    NotPresent,
    NotUnicode,
    Present(String),
}

/// `r` is the refusal of a configuration with the message `message`.
pub open spec fn invalid_configuration<T>(r: Result<T, AstralError>, message: Seq<char>) -> bool {
    r matches Err(AstralError::InvalidConfiguration { message: m }) && m@ == message
}

impl Config {
    /// The configuration from the value of `RUST_LOG`: the default filter when it is not
    /// set; an error when it is blank or not valid Unicode; the value itself otherwise.
    pub fn from_env(rust_log: EnvValue) -> (r: Result<Self, AstralError>)
        ensures
            rust_log is NotPresent ==> (r matches Ok(c) && c.log_filter@ == default_log_filter()),
            rust_log is NotUnicode ==> invalid_configuration(r, "RUST_LOG must be valid UTF-8"@),
            rust_log matches EnvValue::Present(v) ==> if all_whitespace(v@) {
                invalid_configuration(r, "RUST_LOG must not be empty"@)
            } else {
                r matches Ok(c) && c.log_filter@ == v@
            },
    {
        match rust_log {
            EnvValue::NotPresent => Ok(Config::default()),
            EnvValue::NotUnicode => Err(
                AstralError::InvalidConfiguration { message: "RUST_LOG must be valid UTF-8".to_owned() },
            ),
            EnvValue::Present(value) => {
                let t = trim(chars_of(value.as_str()).as_slice());
                if t.len() == 0 {
                    Err(AstralError::InvalidConfiguration { message: "RUST_LOG must not be empty".to_owned() })
                } else {
                    Ok(Config { log_filter: value })
                }
            },
        }
    }
}

} // verus!

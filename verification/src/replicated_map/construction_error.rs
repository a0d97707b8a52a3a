//! Why a replicated map or a read replica could not be constructed.

use vstd::prelude::*;

use crate::replicated_map::config::ConfigError;

verus! {

/// The outside error that binding, querying or persisting fails with.
#[verifier::external_type_specification]
#[verifier::external_body]
pub struct ExIoError(std::io::Error);

/// Why constructing a replicated map or a read replica failed.
#[derive(Debug)]
#[non_exhaustive]
pub enum ConstructionError {
    /// The configuration is invalid.
    Config(ConfigError),
    /// Binding or querying the transport failed.
    Io(std::io::Error),
}

/// What construction failed for.
#[derive(Debug)]
pub enum ConstructionCause<'a> {
    /// The configuration is invalid.
    Config(&'a ConfigError),
    /// Binding or querying the transport failed.
    Io(&'a std::io::Error),
}

impl ConstructionError {
    /// The cause.
    pub fn source(&self) -> (cause: Option<ConstructionCause<'_>>)
        ensures
            cause == Some(
                match self {
                    ConstructionError::Config(error) => ConstructionCause::Config(error),
                    ConstructionError::Io(error) => ConstructionCause::Io(error),
                },
            ),
    {
        match self {
            ConstructionError::Config(error) => Some(ConstructionCause::Config(error)),
            ConstructionError::Io(error) => Some(ConstructionCause::Io(error)),
        }
    }

    /// The message a user sees: that of the cause.
    pub fn to_string(&self) -> (text: String)
        ensures
            self matches ConstructionError::Config(error) ==> text@ == error.message(),
            self matches ConstructionError::Io(error) ==> vstd::string::to_string_from_display_ensures(
                error,
                text,
            ),
    {
        match self {
            ConstructionError::Config(error) => error.to_string(),
            ConstructionError::Io(error) => error.to_string(),
        }
    }
}

impl From<ConfigError> for ConstructionError {
    fn from(error: ConfigError) -> (wrapped: Self) {
        ConstructionError::Config(error)
    }
}

impl vstd::std_specs::convert::FromSpecImpl<ConfigError> for ConstructionError {
    open spec fn obeys_from_spec() -> bool {
        true
    }

    open spec fn from_spec(error: ConfigError) -> Self {
        ConstructionError::Config(error)
    }
}

impl From<std::io::Error> for ConstructionError {
    fn from(error: std::io::Error) -> (wrapped: Self) {
        ConstructionError::Io(error)
    }
}

impl vstd::std_specs::convert::FromSpecImpl<std::io::Error> for ConstructionError {
    open spec fn obeys_from_spec() -> bool {
        true
    }

    open spec fn from_spec(error: std::io::Error) -> Self {
        ConstructionError::Io(error)
    }
}

} // verus!

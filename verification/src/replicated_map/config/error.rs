//! Why a configuration was rejected.

use vstd::prelude::*;
use vstd::string::StringExecFns;

use crate::replicated_map::config::MAX_NETS;
use crate::text;

verus! {

/// Why an operation on a configuration was rejected.
#[derive(Clone, Copy, Debug, PartialEq, Eq, Structural)]
#[non_exhaustive]
pub enum ConfigError {
    /// It would declare more than [`MAX_NETS`] networks.
    TooManyNets,
    /// Neither a cluster key nor the explicit opt-in to run without one.
    MissingSecurityMode,
}

impl ConfigError {
    /// The message a user sees.
    pub open spec fn message(self) -> Seq<char> {
        match self {
            ConfigError::TooManyNets => "at most "@ + text::decimal(MAX_NETS as nat)
                + " networks are supported"@,
            ConfigError::MissingSecurityMode => "no cluster key is set; set one, or opt in to running without one"@,
        }
    }

    /// The message a user sees.
    pub fn to_string(&self) -> (text: String)
        ensures
            text@ == self.message(),
    {
        match self {
            ConfigError::TooManyNets => {
                let mut text: String = String::from_str("at most ");
                text::append_decimal(&mut text, MAX_NETS);
                text.append(" networks are supported");
                text
            },
            ConfigError::MissingSecurityMode => String::from_str(
                "no cluster key is set; set one, or opt in to running without one",
            ),
        }
    }
}

/// What a user reads of too many networks is how many there may be.
pub proof fn the_message_tells_the_limit() -> (around: (Seq<char>, Seq<char>))
    ensures
        ConfigError::TooManyNets.message() == around.0 + text::decimal(16) + around.1,
        around.0 == "at most "@,
{
    ("at most "@, " networks are supported"@)
}

} // verus!

//! The error type of the agent integrations.

use vstd::prelude::*;

verus! {

/// An integration could not read or write an agent's configuration.
#[derive(Debug, Clone, PartialEq, Eq)]
pub enum AgenticSshError {
    Config { message: String },
}

impl AgenticSshError {
    /// The text shown for the error.
    pub fn message(&self) -> (r: String)
        ensures
            match self {
                AgenticSshError::Config { message } => r@ == "Configuration error: "@ + message@,
            },
    {
        match self {
            AgenticSshError::Config { message } => {
                let mut r = String::from_str("Configuration error: ");
                r.append(message.as_str());
                r
            },
        }
    }
}

} // verus!

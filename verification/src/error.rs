use vstd::prelude::*;

verus! {

/// The error kinds the library reports. Terminal failures are fatal and carry
/// the underlying message; repository and per-candidate failures are non-fatal
/// at the discovery level and are surfaced per item.
#[derive(Debug, Clone, PartialEq, Eq)]
pub enum TmsError {
    GitError,
    NonUtf8Path,
    TuiError(String),
    IoError,
    ConfigError,
    SessionNotFound(String),
}

impl TmsError {
    /// A human-readable description of the error.
    pub fn message(&self) -> (r: String)
        ensures
            r@.len() > 0,
    {
        match self {
            TmsError::ConfigError => {
                let r = String::from_str("Config Error");
                proof {
                    reveal_strlit("Config Error");
                }
                r
            },
            TmsError::GitError => {
                let r = String::from_str("Git Error");
                proof {
                    reveal_strlit("Git Error");
                }
                r
            },
            TmsError::NonUtf8Path => {
                let r = String::from_str("Non Utf-8 Path");
                proof {
                    reveal_strlit("Non Utf-8 Path");
                }
                r
            },
            TmsError::IoError => {
                let r = String::from_str("IO Error");
                proof {
                    reveal_strlit("IO Error");
                }
                r
            },
            TmsError::TuiError(inner) => {
                let mut r = String::from_str("TUI error: ");
                proof {
                    reveal_strlit("TUI error: ");
                }
                r.append(inner.as_str());
                r
            },
            TmsError::SessionNotFound(name) => {
                let mut r = String::from_str("Session not found: ");
                proof {
                    reveal_strlit("Session not found: ");
                }
                r.append(name.as_str());
                r
            },
        }
    }
}

/// A hint printed alongside an error to point the user at a fix.
#[derive(Debug, Clone, PartialEq, Eq)]
pub struct Suggestion(pub &'static str);

} // verus!

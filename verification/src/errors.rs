//! Error types for the rate limiter.

use vstd::prelude::*;

verus! {

/// Errors that can occur while configuring or operating the rate limiter.
#[derive(Debug)]
pub enum RateLimitError {
    /// `limit` must be a positive integer.
    InvalidLimit,
    /// `window_seconds` must be a positive integer.
    InvalidWindow,
    /// `algorithm` must be one of the supported strategies (`"fixed"` or
    /// `"sliding"`); carries the name that was given.
    InvalidAlgorithm(String),
    /// The system clock could not be read; carries the clock's message.
    SystemTime(String),
}

/// The `Debug` text of a string: what `format!("{:?}", s)` gives for it.
pub uninterp spec fn debug_text(s: Seq<char>) -> Seq<char>;

/// `format!("{:?}", name)`: the `Debug` text of a string (quoted, with
/// escapes). The text is named, not spelled out here.
#[verifier::external_body]
fn debug_quoted(name: &str) -> (text: String)
    ensures
        text@ == debug_text(name@),
{
    format!("{:?}", name)
}

impl RateLimitError {
    /// The message that describes the error.
    pub open spec fn message_text(&self) -> Seq<char> {
        match self {
            RateLimitError::InvalidLimit => "invalid `limit`: must be greater than 0"@,
            RateLimitError::InvalidWindow => "invalid `window_seconds`: must be greater than 0"@,
            RateLimitError::InvalidAlgorithm(name) => "invalid `algorithm`: "@ + debug_text(name@)
                + " (expected \"fixed\" or \"sliding\")"@,
            RateLimitError::SystemTime(message) => "system time error: "@ + message@,
        }
    }

    /// The error's message, as shown to users.
    pub fn message(&self) -> (text: String)
        ensures
            text@ == self.message_text(),
    {
        match self {
            RateLimitError::InvalidLimit => "invalid `limit`: must be greater than 0".to_owned(),
            RateLimitError::InvalidWindow => "invalid `window_seconds`: must be greater than 0".to_owned(),
            RateLimitError::InvalidAlgorithm(name) => {
                let mut text = "invalid `algorithm`: ".to_owned();
                let quoted = debug_quoted(name.as_str());
                text.append(quoted.as_str());
                text.append(" (expected \"fixed\" or \"sliding\")");
                text
            },
            RateLimitError::SystemTime(message) => {
                let mut text = "system time error: ".to_owned();
                text.append(message.as_str());
                text
            },
        }
    }
}

} // verus!

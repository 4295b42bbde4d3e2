//! The interpreter's error type: I/O failures, text that is not valid UTF-8,
//! and everything else, each carrying its description.

use vstd::prelude::*;
use vstd::string::StringExecFns;

verus! {

/// What went wrong while a line was processed.
pub enum Error {
    /// An input/output failure, with the underlying description.
    Io(String),
    /// Bytes that were not valid UTF-8 where text was required.
    Utf8(String),
    /// Any other failure, with its description.
    Other(String),
}

impl Error {
    /// The user-visible description: the category, `--`, and the detail.
    pub open spec fn spec_message(&self) -> Seq<char> {
        match self {
            Error::Io(m) => "io -- "@ + m@,
            Error::Utf8(m) => "utf8 -- "@ + m@,
            Error::Other(m) => "other -- "@ + m@,
        }
    }

    /// Renders the error for display on the error channel.
    pub fn message(&self) -> (r: String)
        ensures
            r@ == self.spec_message(),
    {
        match self {
            Error::Io(m) => {
                let mut s = String::from_str("io -- ");
                s.append(m.as_str());
                s
            },
            Error::Utf8(m) => {
                let mut s = String::from_str("utf8 -- ");
                s.append(m.as_str());
                s
            },
            Error::Other(m) => {
                let mut s = String::from_str("other -- ");
                s.append(m.as_str());
                s
            },
        }
    }
}

} // verus!

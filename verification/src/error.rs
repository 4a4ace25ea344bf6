//! Errors of the library.
use vstd::prelude::*;
use vstd::string::StringExecFns;

verus! {

broadcast use vstd::string::group_string_axioms;

/// `std::io::Error`, carried through unopened.
#[verifier::external_type_specification]
#[verifier::external_body]
pub struct ExIoError(std::io::Error);

/// Everything that can stop hashing or grouping.
#[derive(Debug)]
pub enum TelfhashError {
    Message(String),
    Io(std::io::Error),
    InvalidElf,
    UnsupportedArchitecture,
    InvalidGlobPattern(String),
    TlshGeneration(String),
    TlshComparison(String),
    Serialization(String),
}

/// The text that `std::io::Error` displays.
///
/// Calls `Display::fmt` of `std::io::Error`. Nothing is stated of the text: it
/// comes from the operating system.
#[verifier::external_body]
fn io_error_text(error: &std::io::Error) -> String {
    format!("{}", error)
}

/// `prefix` followed by `rest`.
fn prefixed(prefix: &str, rest: &str) -> (r: String)
    ensures
        r@ == prefix@ + rest@,
{
    String::from_str(prefix).concat(rest)
}

/// `text` is the message `e` is reported with; for an I/O error, the text
/// after the prefix is the operating system's.
pub open spec fn error_message_is(e: TelfhashError, text: Seq<char>) -> bool {
    match e {
        TelfhashError::Message(m) => text == m@,
        TelfhashError::Io(_) => exists|t: Seq<char>| text == "I/O error: "@ + t,
        TelfhashError::InvalidElf => text == "Could not parse file as ELF"@,
        TelfhashError::UnsupportedArchitecture => text == "Unsupported ELF architecture"@,
        TelfhashError::InvalidGlobPattern(m) => text == "Invalid glob pattern: "@ + m@,
        TelfhashError::TlshGeneration(m) => text == "TLSH generation failed: "@ + m@,
        TelfhashError::TlshComparison(m) => text == "TLSH comparison failed: "@ + m@,
        TelfhashError::Serialization(m) => text == "Serialization failed: "@ + m@,
    }
}

impl TelfhashError {
    /// The message the error is reported with.
    pub fn message(&self) -> (r: String)
        ensures
            error_message_is(*self, r@),
    {
        match self {
            TelfhashError::Message(m) => m.clone(),
            TelfhashError::Io(e) => {
                let text = io_error_text(e);
                prefixed("I/O error: ", text.as_str())
            },
            TelfhashError::InvalidElf => String::from_str("Could not parse file as ELF"),
            TelfhashError::UnsupportedArchitecture => String::from_str("Unsupported ELF architecture"),
            TelfhashError::InvalidGlobPattern(m) => prefixed("Invalid glob pattern: ", m.as_str()),
            TelfhashError::TlshGeneration(m) => prefixed("TLSH generation failed: ", m.as_str()),
            TelfhashError::TlshComparison(m) => prefixed("TLSH comparison failed: ", m.as_str()),
            TelfhashError::Serialization(m) => prefixed("Serialization failed: ", m.as_str()),
        }
    }
}

} // verus!

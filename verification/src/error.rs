//! Errors of the hardware-monitoring layer.

use vstd::prelude::*;
use vstd::string::*;

verus! {

/// A sysfs access that failed.
#[derive(Debug)]
pub enum HwmonError {
    /// A file could not be read, or what it holds could not be understood.
    ReadError { path: String, message: String },
    /// A file did not take what was written to it.
    WriteError { path: String, message: String },
}

impl HwmonError {
    /// The path that the failed access was for.
    pub open spec fn path_text(&self) -> Seq<char> {
        match self {
            HwmonError::ReadError { path, message } => path@,
            HwmonError::WriteError { path, message } => path@,
        }
    }

    /// What went wrong.
    pub open spec fn message_text(&self) -> Seq<char> {
        match self {
            HwmonError::ReadError { path, message } => message@,
            HwmonError::WriteError { path, message } => message@,
        }
    }

    /// Whether this is a failed read of `path` for the reason `message`.
    pub open spec fn is_read_error(&self, path: Seq<char>, message: Seq<char>) -> bool {
        self is ReadError && self.path_text() == path && self.message_text() == message
    }

    /// Whether this is a failed write to `path` for the reason `message`.
    pub open spec fn is_write_error(&self, path: Seq<char>, message: Seq<char>) -> bool {
        self is WriteError && self.path_text() == path && self.message_text() == message
    }

    /// The error in words.
    pub open spec fn words(&self) -> Seq<char> {
        match self {
            HwmonError::ReadError { path, message } => "read error: "@ + path@ + ": "@ + message@,
            HwmonError::WriteError { path, message } => "write error: "@ + path@ + ": "@ + message@,
        }
    }

    /// The error in words.
    pub fn describe(&self) -> (r: String)
        ensures
            r@ == self.words(),
    {
        let (kind, path, message): (&'static str, &String, &String) = match self {
            HwmonError::ReadError { path, message } => ("read error: ", path, message),
            HwmonError::WriteError { path, message } => ("write error: ", path, message),
        };
        let mut s: String = kind.to_owned();
        s.append(path.as_str());
        s.append(": ");
        s.append(message.as_str());
        s
    }

    /// What went wrong, as text.
    pub fn message(&self) -> (m: &str)
        ensures
            m@ == self.message_text(),
    {
        match self {
            HwmonError::ReadError { message, .. } => message.as_str(),
            HwmonError::WriteError { message, .. } => message.as_str(),
        }
    }
}

/// An error in words says what was tried, on which file, and what went wrong, in this
/// order; a failed read is never told as a failed write.
pub proof fn an_error_names_its_file(e: HwmonError, i: int)
    requires
        0 <= i < e.path_text().len(),
    ensures
        e is ReadError ==> {
            &&& e.words()[0] == 'r'
            &&& e.words().len() == 14 + e.path_text().len() + e.message_text().len()
            &&& e.words()[12 + i] == e.path_text()[i]
            &&& e.words().skip(14int + e.path_text().len()) == e.message_text()
        },
        e is WriteError ==> {
            &&& e.words()[0] == 'w'
            &&& e.words().len() == 15 + e.path_text().len() + e.message_text().len()
            &&& e.words()[13 + i] == e.path_text()[i]
            &&& e.words().skip(15int + e.path_text().len()) == e.message_text()
        },
        !(exists|p: Seq<char>, m: Seq<char>| e.is_read_error(p, m) && e.is_write_error(p, m)),
{
    reveal_strlit("read error: ");
    reveal_strlit("write error: ");
    reveal_strlit(": ");
}

} // verus!

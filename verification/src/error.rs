//! Errors of reading, writing and merging tables.

use vstd::prelude::*;

use crate::text::IntErrorKind;

verus! {

/// Why a table could not be read.
#[derive(Debug, Clone)]
pub enum ReadError {
    /// A line holds something else than the format asks for there.
    FormatError(String, String),
    /// The text ends where the format asks for more; the payload names what.
    UnexpectedEOFError(String),
    /// A line does not hold an integer.
    ParseIntError(IntErrorKind),
    /// A line does not hold a real number.
    ParseFloatError,
    /// A line does not hold a boolean.
    ParseBoolError,
}

/// The mathematical form of a [`ReadError`].
pub enum SpecReadError {
    FormatError(Seq<char>, Seq<char>),
    UnexpectedEOFError(Seq<char>),
    ParseIntError(IntErrorKind),
    ParseFloatError,
    ParseBoolError,
}

impl View for ReadError {
    type V = SpecReadError;

    open spec fn view(&self) -> SpecReadError {
        match self {
            ReadError::FormatError(a, b) => SpecReadError::FormatError(a@, b@),
            ReadError::UnexpectedEOFError(a) => SpecReadError::UnexpectedEOFError(a@),
            ReadError::ParseIntError(k) => SpecReadError::ParseIntError(*k),
            ReadError::ParseFloatError => SpecReadError::ParseFloatError,
            ReadError::ParseBoolError => SpecReadError::ParseBoolError,
        }
    }
}

impl DeepView for ReadError {
    type V = SpecReadError;

    open spec fn deep_view(&self) -> SpecReadError {
        self.view()
    }
}

/// How reading a table ends when it does not give a table: with an error, or
/// on an input that the format does not provide for at all (a malformed
/// separator, an unknown layout code), which stops the program.
#[derive(Debug, Clone)]
pub enum ReadFailure {
    Error(ReadError),
    Abort,
}

/// The mathematical form of a [`ReadFailure`].
pub enum SpecFailure {
    Error(SpecReadError),
    Abort,
}

impl View for ReadFailure {
    type V = SpecFailure;

    open spec fn view(&self) -> SpecFailure {
        match self {
            ReadFailure::Error(e) => SpecFailure::Error(e@),
            ReadFailure::Abort => SpecFailure::Abort,
        }
    }
}

/// Why a table could not be written.
#[derive(Debug, Clone)]
pub enum WriteError {
    /// The output file could not be written; the payload describes why.
    IOError(String),
    /// The output stream refused the text.
    FmtError,
}

/// Why two tables could not be merged: the field of the metadata in which
/// they differ, and its two values.
#[derive(Debug, Clone)]
pub enum MergeError {
    IncompatibleTables(String, String, String),
}

pub open spec fn backquoted(s: Seq<char>) -> Seq<char> {
    seq!['`'] + s + seq!['`']
}

impl ReadError {
    /// The text that describes the error.
    pub open spec fn spec_message(&self) -> Seq<char> {
        match self {
            ReadError::FormatError(a, b) => "Invalid table format: expected "@ + backquoted(a@)
                + ", found "@ + backquoted(b@),
            ReadError::UnexpectedEOFError(a) => "Unexpected end of file, expected "@ + a@,
            ReadError::ParseIntError(_) => "Error while parsing int"@,
            ReadError::ParseFloatError => "Error while parsing float"@,
            ReadError::ParseBoolError => "Error while parsing bool"@,
        }
    }

    /// The text that describes the error.
    pub fn message(&self) -> (r: String)
        ensures
            r@ == self.spec_message(),
    {
        match self {
            ReadError::FormatError(a, b) => {
                let mut r = String::from_str("Invalid table format: expected `");
                r.append(a.as_str());
                r.append("`, found `");
                r.append(b.as_str());
                r.append("`");
                proof {
                    reveal_strlit("Invalid table format: expected `");
                    reveal_strlit("Invalid table format: expected ");
                    reveal_strlit("`, found `");
                    reveal_strlit(", found ");
                    reveal_strlit("`");
                    assert(r@ =~= self.spec_message());
                }
                r
            },
            ReadError::UnexpectedEOFError(a) => {
                let mut r = String::from_str("Unexpected end of file, expected ");
                r.append(a.as_str());
                r
            },
            ReadError::ParseIntError(_) => String::from_str("Error while parsing int"),
            ReadError::ParseFloatError => String::from_str("Error while parsing float"),
            ReadError::ParseBoolError => String::from_str("Error while parsing bool"),
        }
    }
}

impl WriteError {
    pub open spec fn spec_message(&self) -> Seq<char> {
        match self {
            WriteError::IOError(_) => "Unable to write to output file"@,
            WriteError::FmtError => "Unable to write to output stream"@,
        }
    }

    /// The text that describes the error.
    pub fn message(&self) -> (r: String)
        ensures
            r@ == self.spec_message(),
    {
        match self {
            WriteError::IOError(_) => String::from_str("Unable to write to output file"),
            WriteError::FmtError => String::from_str("Unable to write to output stream"),
        }
    }
}

impl MergeError {
    pub open spec fn spec_message(&self) -> Seq<char> {
        match self {
            MergeError::IncompatibleTables(field, a, b) => "Metadata field "@ + field@
                + " is incompatible: "@ + a@ + " vs "@ + b@,
        }
    }

    /// The text that describes the error.
    pub fn message(&self) -> (r: String)
        ensures
            r@ == self.spec_message(),
    {
        match self {
            MergeError::IncompatibleTables(field, a, b) => {
                let mut r = String::from_str("Metadata field ");
                r.append(field.as_str());
                r.append(" is incompatible: ");
                r.append(a.as_str());
                r.append(" vs ");
                r.append(b.as_str());
                r
            },
        }
    }
}

} // verus!

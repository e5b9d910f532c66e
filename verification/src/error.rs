//! The errors of an export.

use vstd::prelude::*;
use vstd::string::*;

verus! {

/// `std::io::Error`: why a file could not be created or written. It is
/// carried inside `ParquetError::Io`; nothing is read off it but its text.
#[verifier::external_type_specification]
#[verifier::external_body]
pub struct ExIoError(std::io::Error);

/// Why an export, or one step of it, failed.
#[derive(Debug)]
pub enum ParquetError {
    /// A file could not be created or written.
    Io(std::io::Error),
    /// A batch could not be assembled or encoded.
    ParquetWrite(String),
    /// An attribute could not be looked up or reflected.
    Serialization(String),
}

/// `std::io::Error::to_string`: the text of an I/O error. Nothing is
/// stated of it.
#[verifier::external_body]
fn io_error_text(e: &std::io::Error) -> (r: String) {
    e.to_string()
}

impl ParquetError {
    /// The text that a write or serialization error carries.
    pub open spec fn spec_message(self) -> Seq<char> {
        match self {
            ParquetError::Io(_) => Seq::empty(),
            ParquetError::ParquetWrite(m) => m@,
            ParquetError::Serialization(m) => m@,
        }
    }

    /// The text that the error carries; for an I/O error, the text that the
    /// system gave.
    pub fn message(&self) -> (r: String)
        ensures
            !(self is Io) ==> r@ == self.spec_message(),
    {
        match self {
            ParquetError::Io(e) => io_error_text(e),
            ParquetError::ParquetWrite(m) => m.clone(),
            ParquetError::Serialization(m) => m.clone(),
        }
    }

    /// The words that say what failed.
    pub open spec fn spec_heading(self) -> Seq<char> {
        match self {
            ParquetError::Io(_) => "IO error: "@,
            ParquetError::ParquetWrite(_) => "Parquet write error: "@,
            ParquetError::Serialization(_) => "Component serialization error: "@,
        }
    }

    /// The error as one line: what failed, then the text.
    pub fn describe(&self) -> (r: String)
        ensures
            self.spec_heading().is_prefix_of(r@),
            !(self is Io) ==> r@ == self.spec_heading() + self.spec_message(),
    {
        let text = self.message();
        let heading = match self {
            ParquetError::Io(_) => "IO error: ",
            ParquetError::ParquetWrite(_) => "Parquet write error: ",
            ParquetError::Serialization(_) => "Component serialization error: ",
        };
        String::from_str(heading).concat(text.as_str())
    }
}

} // verus!

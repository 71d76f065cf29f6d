use vstd::prelude::*;
use vstd::string::StringExecFns;

pub use crate::bench::BenchResult;

verus! {

/// One field of a record: its text and, when the text reads as a floating-point
/// number, that number's IEEE-754 binary64 bit pattern.
///
/// The caller that builds a field from text fills `number` (reading a float is done
/// outside the library); the library only compares the bit patterns.
pub struct Field {
    pub text: String,
    pub number: Option<u64>,
}

impl Field {
    /// A field with the given text and numeric reading.
    pub fn new(text: String, number: Option<u64>) -> (f: Field)
        ensures
            f.text@ == text@,
            f.number == number,
    {
        Field { text, number }
    }
}

/// A row of a table: one field per column.
pub type Record = Vec<Field>;

/// A generated student record.
pub struct Student {
    pub first_name: String,
    pub last_name: String,
    pub age: u32,
    pub act_score: u32,
    pub sat_score: u32,
}

/// A field of `Student` to order by.
#[derive(Clone, Copy, PartialEq, Eq, Structural)]
pub enum StudentField {
    FirstName,
    LastName,
    Age,
    ActScore,
    SatScore,
}

/// Why a table could not be loaded or saved.
#[derive(Debug, Clone)]
pub enum CsvError {
    FileNotFound(String),
    ParseError(String),
    IoError(String),
}

impl CsvError {
    /// The message shown for the error: a prefix naming its kind, then its detail.
    pub open spec fn spec_message(&self) -> Seq<char> {
        match self {
            CsvError::FileNotFound(path) => "File not found: "@ + path@,
            CsvError::ParseError(msg) => "Parse error: "@ + msg@,
            CsvError::IoError(msg) => "IO error: "@ + msg@,
        }
    }

    /// The message shown for the error.
    pub fn message(&self) -> (r: String)
        ensures
            r@ == self.spec_message(),
    {
        match self {
            CsvError::FileNotFound(path) => String::from_str("File not found: ").concat(path.as_str()),
            CsvError::ParseError(msg) => String::from_str("Parse error: ").concat(msg.as_str()),
            CsvError::IoError(msg) => String::from_str("IO error: ").concat(msg.as_str()),
        }
    }
}

} // verus!

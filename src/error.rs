use vstd::prelude::*;

verus! {

/// std's I/O error, carried unopened inside `AnalysisError`.
#[verifier::external_type_specification]
#[verifier::external_body]
pub struct ExIoError(std::io::Error);

/// Why a file could not be analysed.
pub enum AnalysisError {
    /// The file or a directory entry could not be read.
    IOError(std::io::Error),
    /// The parser produced no syntax tree.
    ParseError,
}

impl AnalysisError {
    /// The diagnostic line for this error.
    pub fn message(&self) -> (r: String)
        ensures
            match self {
                AnalysisError::IOError(e) => vstd::string::to_string_from_display_ensures(e, r),
                AnalysisError::ParseError => r@ == "failed to parse"@,
            },
    {
        match self {
            AnalysisError::IOError(e) => e.to_string(),
            AnalysisError::ParseError => String::from_str("failed to parse"),
        }
    }
}

impl From<std::io::Error> for AnalysisError {
    fn from(value: std::io::Error) -> (r: Self)
        ensures
            r == AnalysisError::IOError(value),
    {
        AnalysisError::IOError(value)
    }
}

impl vstd::std_specs::convert::FromSpecImpl<std::io::Error> for AnalysisError {
    open spec fn obeys_from_spec() -> bool {
        true
    }

    open spec fn from_spec(v: std::io::Error) -> AnalysisError {
        AnalysisError::IOError(v)
    }
}

} // verus!

//! The failures a lookup or its configuration can report.

use vstd::prelude::*;

verus! {

/// Why a configuration or a query did not produce a region.
#[derive(Debug, Clone, Copy, PartialEq, Eq, Structural)]
pub enum SearchError {
    /// No xdb path was given and none of the default candidates exists.
    ConfigurationError,
    /// The xdb file could not be opened or read.
    IoError,
    /// The address is neither dotted decimal nor a decimal integer that fits
    /// 32 bits.
    InvalidIpFormat,
    /// No segment record of the address's cell holds the address.
    NotFound,
    /// The buffer is too short for what its offsets point to, or a payload
    /// is not UTF-8.
    DataError,
}

impl SearchError {
    /// The sentence that says what went wrong.
    pub open spec fn spec_message(self) -> Seq<char> {
        match self {
            SearchError::ConfigurationError =>
                "default filepath not find the xdb file, so you must set xdb_filepath"@,
            SearchError::IoError => "the xdb file could not be read"@,
            SearchError::InvalidIpFormat => "not a dotted or decimal IPv4 address"@,
            SearchError::NotFound => "not matched"@,
            SearchError::DataError => "the xdb data is malformed"@,
        }
    }

    /// The sentence that says what went wrong.
    pub fn message(&self) -> (text: String)
        ensures
            text@ == self.spec_message(),
    {
        match self {
            SearchError::ConfigurationError =>
                "default filepath not find the xdb file, so you must set xdb_filepath".to_owned(),
            SearchError::IoError => "the xdb file could not be read".to_owned(),
            SearchError::InvalidIpFormat => "not a dotted or decimal IPv4 address".to_owned(),
            SearchError::NotFound => "not matched".to_owned(),
            SearchError::DataError => "the xdb data is malformed".to_owned(),
        }
    }
}

} // verus!

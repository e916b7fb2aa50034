//! The ways in which a release can fail.
use vstd::prelude::*;
use vstd::string::StringExecFns;

verus! {

/// A failure, with the text of the underlying failure where another layer reported it.
#[derive(Debug)]
pub enum Error {
    /// Error performing io
    IO(String),
    /// Error reading from TOML strings
    TomlRead(String),
    /// Error writing to TOML strings
    TomlWrite(String),
    /// Error while zipping file
    Zip(String),
    /// Zip placement path doesn't exist
    ZipPath,
    /// Path could not be converted to string
    PathString,
    /// Target specified is not supported
    InvalidTarget,
    /// Target crate has no [package] section
    PackageMissing,
    /// Target crate has no name
    NameMissing,
    /// Target crate has no version
    VersionMissing,
    /// Expected a string (when parsing toml)
    NotString,
    /// Expected a table (when parsing toml)
    NotTable,
    /// Cannot publish already published crate
    RePublish,
    /// Some builds failed
    FailedBuilds,
    /// No schema version could read the configuration
    Config,
}

impl Error {
    /// The text shown to the user for this error.
    pub open spec fn spec_message(&self) -> Seq<char> {
        match self {
            Error::IO(detail) => "IO Error: "@ + detail@,
            Error::TomlRead(detail) => "Error reading TOML: "@ + detail@,
            Error::TomlWrite(detail) => "Error writing TOML: "@ + detail@,
            Error::Zip(detail) => "Error making .zip: "@ + detail@,
            Error::ZipPath => "Path for zip file is invalid"@,
            Error::PathString => "Path could not be converted to string"@,
            Error::InvalidTarget => "Supplied target is not supported"@,
            Error::PackageMissing => "Crate is missing [package] section"@,
            Error::NameMissing => "Crate is missing the 'name' parameter"@,
            Error::VersionMissing => "Crate is missing the 'version' parameter"@,
            Error::NotString => "Expected a toml::Value::String, got something else"@,
            Error::NotTable => "Expected a toml::Value::Table, got somethign else"@,
            Error::RePublish => "Cannot re-publish an already published crate"@,
            Error::FailedBuilds => "Some builds failed"@,
            Error::Config => "No usable release configuration"@,
        }
    }

    pub fn message(&self) -> (r: String)
        ensures
            r@ == self.spec_message(),
    {
        match self {
            Error::IO(detail) => "IO Error: ".to_owned().concat(detail.as_str()),
            Error::TomlRead(detail) => "Error reading TOML: ".to_owned().concat(detail.as_str()),
            Error::TomlWrite(detail) => "Error writing TOML: ".to_owned().concat(detail.as_str()),
            Error::Zip(detail) => "Error making .zip: ".to_owned().concat(detail.as_str()),
            Error::ZipPath => "Path for zip file is invalid".to_owned(),
            Error::PathString => "Path could not be converted to string".to_owned(),
            Error::InvalidTarget => "Supplied target is not supported".to_owned(),
            Error::PackageMissing => "Crate is missing [package] section".to_owned(),
            Error::NameMissing => "Crate is missing the 'name' parameter".to_owned(),
            Error::VersionMissing => "Crate is missing the 'version' parameter".to_owned(),
            Error::NotString => "Expected a toml::Value::String, got something else".to_owned(),
            Error::NotTable => "Expected a toml::Value::Table, got somethign else".to_owned(),
            Error::RePublish => "Cannot re-publish an already published crate".to_owned(),
            Error::FailedBuilds => "Some builds failed".to_owned(),
            Error::Config => "No usable release configuration".to_owned(),
        }
    }
}

} // verus!

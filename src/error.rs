use vstd::prelude::*;

verus! {

/// The ways a query or a load can fail.
#[derive(Debug)]
pub enum ZipCodeError {
    /// A well-formed ZIP code that the database does not hold.
    ZipNotFound(String),
    /// An identifier that is not five ASCII digits.
    InvalidZipFormat(String),
    /// A latitude or longitude (in microdegrees) outside the geographic range.
    InvalidCoordinates(i64, i64),
    /// The data could not be loaded, or the database holds no areas.
    DataLoadError(String),
}

} // verus!

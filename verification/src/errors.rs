//! The failures the library reports. Parsing, resolution and state errors
//! carry the inputs they arose from; backend failures stay opaque.

use vstd::prelude::*;

verus! {

#[derive(Clone, Debug, PartialEq)]
pub enum Error {
    /// Author parsing: the segment before `;` is absent or empty once trimmed.
    MissingName,
    /// Author parsing: the segment after `;` is absent or empty once trimmed.
    MissingEmailSeed,
    /// Author parsing: a bare local part was given and no domain is configured.
    MissingDomain,
    /// No raw author value is configured under these initials.
    AuthorNotFound(String),
    /// The raw value configured under the initials does not parse.
    InvalidAuthor(String, String),
    /// Signing off was attempted with no active author set.
    NoActiveAuthors,
    /// The store holds no value under this key.
    KeyNotFound(String),
    /// An opaque failure of the configuration backend.
    Backend(String),
}

} // verus!

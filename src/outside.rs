//! Types of other crates that the library carries without looking inside.

use vstd::prelude::*;

verus! {

/// The URL of the tracker, carried through unread.
#[verifier::external_type_specification]
#[verifier::external_body]
pub struct ExUrl(url::Url);

/// An error of reading or writing the stored settings, carried through unread.
#[verifier::external_type_specification]
#[verifier::external_body]
pub struct ExIoError(std::io::Error);

/// An error of encoding or decoding the stored settings, carried through unread.
#[verifier::external_type_specification]
#[verifier::external_body]
pub struct ExJsonError(serde_json::Error);

} // verus!

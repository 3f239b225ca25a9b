use vstd::prelude::*;

verus! {

#[verifier::external_type_specification]
#[verifier::external_body]
pub struct ExJsonError(serde_json::Error);

/// The ways a call through the client can fail.
#[derive(Debug)]
pub enum PantryError {
    /// Both channels failed to deliver the request; each reason is kept.
    TransportError { local: String, network: String },
    /// A response body that is not valid UTF-8.
    Utf8Error,
    /// A success body that is not valid JSON.
    DeserializationError(serde_json::Error),
    /// The server answered with a non-success status; the body text is kept verbatim.
    ApiError(u16, String),
    /// Any other failure, described in words.
    OtherFailure(String),
}

} // verus!

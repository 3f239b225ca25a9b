use vstd::prelude::*;
use vstd::utf8::{decode_utf8, valid_utf8};
use crate::error::PantryError;
use crate::wire::{json_accepts, parse_json, utf8_text};

verus! {

/// A capability rating that filters and preferences speak of.
#[derive(Clone, Copy, Debug, PartialEq, Eq, Structural)]
pub enum CapabilityType {
    General,
    Assistant,
    Writing,
    Coding,
}

/// The lower-case name the server uses for a capability.
pub open spec fn capability_name(c: CapabilityType) -> Seq<char> {
    match c {
        CapabilityType::General => "general"@,
        CapabilityType::Assistant => "assistant"@,
        CapabilityType::Writing => "writing"@,
        CapabilityType::Coding => "coding"@,
    }
}

impl CapabilityType {
    /// The lower-case name of this capability.
    pub fn to_string(&self) -> (r: String)
        ensures
            r@ == capability_name(*self),
    {
        match self {
            CapabilityType::General => String::from_str("general"),
            CapabilityType::Assistant => String::from_str("assistant"),
            CapabilityType::Writing => String::from_str("writing"),
            CapabilityType::Coding => String::from_str("coding"),
        }
    }
}

/// A minimum rating for one capability.
#[derive(Debug, Clone, Copy, PartialEq, Eq, Structural)]
pub struct CapabilityFilter {
    pub capability: CapabilityType,
    pub value: i32,
}

} // verus!

verus! {

/// Whether a status code reports success (2xx).
pub open spec fn is_success(status: u16) -> bool {
    200 <= status < 300
}

/// Interprets a complete response. A body that is not UTF-8 fails with
/// `Utf8Error`. A 2xx status carries a JSON payload, which is returned, or
/// fails with `DeserializationError` when it is not JSON. Any other status
/// fails with `ApiError`, holding the status and the body text verbatim.
pub fn read_response(status: u16, body: &[u8]) -> (r: Result<serde_json::Value, PantryError>)
    ensures
        !valid_utf8(body@) ==> r matches Err(PantryError::Utf8Error),
        valid_utf8(body@) && is_success(status) ==> {
            &&& r is Ok <==> json_accepts(decode_utf8(body@))
            &&& r is Err ==> r matches Err(PantryError::DeserializationError(_))
        },
        valid_utf8(body@) && !is_success(status) ==> (r matches Err(
            PantryError::ApiError(code, message),
        ) && code == status && message@ == decode_utf8(body@)),
{
    let text = match utf8_text(body) {
        Some(t) => t,
        None => return Err(PantryError::Utf8Error),
    };
    if 200 <= status && status < 300 {
        match parse_json(text) {
            Ok(v) => Ok(v),
            Err(e) => Err(PantryError::DeserializationError(e)),
        }
    } else {
        Err(PantryError::ApiError(status, text.to_owned()))
    }
}

} // verus!

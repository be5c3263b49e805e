//! Reading a project-local configuration file: a JSON document whose
//! `version` field names the toolchain version the project wants.
//!
//! The JSON parsing itself is done by an outside crate behind the trusted
//! wrappers below; everything around the calls — which field counts, what
//! shape its value must have, what is reported when it is missing — is
//! decided and verified here.
use crate::error::StoreError;
use crate::text::check_token;
use crate::text::is_token;
use vstd::prelude::*;

verus! {

#[verifier::external_type_specification]
#[verifier::external_body]
pub struct ExValue(serde_json::Value);

#[verifier::external_type_specification]
#[verifier::external_body]
pub struct ExJsonError(serde_json::Error);

/// Relies on serde_json::from_str: parses a JSON document, Err when the
/// text is not valid JSON. Nothing is assumed of the parsed value; every
/// use of it goes back through a call below.
#[verifier::external_body]
fn parse_json(contents: &str) -> Result<serde_json::Value, serde_json::Error> {
    serde_json::from_str::<serde_json::Value>(contents)
}

/// Relies on serde_json::Value::get: the value under a key of a JSON
/// object, None when the value is no object or the key is absent.
#[verifier::external_body]
fn json_get<'a>(v: &'a serde_json::Value, key: &str) -> Option<&'a serde_json::Value> {
    v.get(key)
}

/// Relies on serde_json::Value::as_str: the contained string, None when
/// the value is not a JSON string.
#[verifier::external_body]
fn json_as_str(v: &serde_json::Value) -> Option<&str> {
    v.as_str()
}

/// The version a configuration file asks for: the string under its
/// `version` key. Whatever the document holds, a returned version is a
/// value the store files can carry; any other outcome — text that is not
/// JSON, a missing key, a value of another shape, a version no ledger
/// line could hold — reports the file as corrupt, under the path the
/// caller read it from.
pub fn version_from_rc(contents: &String, path: &String) -> (r: Result<String, StoreError>)
    ensures
        r matches Ok(v) ==> is_token(v@),
        r matches Err(e) ==> (e matches StoreError::CorruptState { path: p } && p@ == path@),
{
    let json = match parse_json(contents.as_str()) {
        Ok(j) => j,
        Err(_) => {
            return Err(StoreError::CorruptState { path: path.clone() });
        },
    };
    let field = match json_get(&json, "version") {
        Some(f) => f,
        None => {
            return Err(StoreError::CorruptState { path: path.clone() });
        },
    };
    let version = match json_as_str(field) {
        Some(s) => s,
        None => {
            return Err(StoreError::CorruptState { path: path.clone() });
        },
    };
    if check_token(version) {
        Ok(version.to_owned())
    } else {
        Err(StoreError::CorruptState { path: path.clone() })
    }
}

} // verus!

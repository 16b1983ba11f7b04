//! Opaque JSON settings carried on catalog items.
//!
//! An item's `settings` column is free-form JSON that the ledger stores
//! and hands back without ever reading into it, so the value stays
//! opaque here.

use vstd::prelude::*;

verus! {

/// serde_json's JSON value, declared so it can sit in a field and be
/// carried through unread.
#[verifier::external_type_specification]
#[verifier::external_body]
pub struct ExValue(serde_json::Value);

/// Relies on serde_json::Map::new and serde_json::Value::Object: builds
/// the empty JSON object stored when an item is created with no settings.
#[verifier::external_body]
pub fn empty_settings() -> serde_json::Value {
    serde_json::Value::Object(serde_json::Map::new())
}

} // verus!

//! The JSON transactions that Dredd hands to hooks.
//!
//! A transaction is a JSON object (`serde_json::Map`). Hooks may change it in any
//! way; the only thing this library reads from it is its `name`, which selects
//! the hooks registered for that transaction.

use vstd::prelude::*;

verus! {

/// `serde_json::Map`, a JSON object; opaque here, what the library reads of it
/// is [`string_fields`].
#[verifier::external_type_specification]
#[verifier::external_body]
#[verifier::reject_recursive_types(K)]
#[verifier::reject_recursive_types(V)]
pub struct ExJsonMap<K, V>(serde_json::Map<K, V>);

/// `serde_json::Value`, a JSON value; opaque here.
#[verifier::external_type_specification]
#[verifier::external_body]
pub struct ExJsonValue(serde_json::Value);

/// A Dredd transaction: the JSON object that describes one HTTP exchange.
pub type Transaction = serde_json::Map<String, serde_json::Value>;

/// The entries of a JSON object whose values are JSON strings, by key.
pub uninterp spec fn string_fields(t: serde_json::Map<String, serde_json::Value>) -> Map<Seq<char>, Seq<char>>;

/// `serde_json::Map::get`, keeping the value only when it is a JSON string.
#[verifier::external_body]
fn string_field<'a>(t: &'a Transaction, key: &str) -> (r: Option<&'a str>)
    ensures
        r is Some <==> string_fields(*t).contains_key(key@),
        r matches Some(s) ==> s@ == string_fields(*t)[key@],
{
    match t.get(key) {
        Some(serde_json::Value::String(s)) => Some(s.as_str()),
        _ => None,
    }
}

/// The key under which a transaction carries its name.
pub open spec fn name_key() -> Seq<char> {
    "name"@
}

/// The name of a transaction, when it has one that is a JSON string.
pub open spec fn transaction_name(t: Transaction) -> Option<Seq<char>> {
    if string_fields(t).contains_key(name_key()) {
        Some(string_fields(t)[name_key()])
    } else {
        None
    }
}

/// Reads the name of a transaction.
pub fn name_of(t: &Transaction) -> (r: Option<String>)
    ensures
        r is Some <==> transaction_name(*t) is Some,
        r matches Some(s) ==> transaction_name(*t) == Some(s@),
{
    match string_field(t, "name") {
        Some(s) => Some(s.to_owned()),
        None => None,
    }
}

} // verus!

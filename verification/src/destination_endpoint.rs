//! What the destination endpoints decide when they forward an asset's data: the state store
//! key, the telemetry sender, the schema id sent along, and how a store reply is reported.

use vstd::prelude::*;

use crate::text::str_equals;

verus! {

/// The state store key that a dataset's data is stored under: the dataset's name, or the
/// asset's name where the dataset's is empty.
pub fn state_store_key(dataset: &String, asset_name: &String) -> (key: String)
    ensures
        key@ == if dataset@.len() == 0 {
            asset_name@
        } else {
            dataset@
        },
{
    if dataset.as_str().is_empty() {
        asset_name.clone()
    } else {
        dataset.clone()
    }
}

/// What a state store `set` that got a reply comes to: only a reply that the value was set is
/// a success.
pub fn state_store_set_result(response: bool) -> (r: Result<(), String>)
    ensures
        response ==> r is Ok,
        !response ==> r is Err && r->Err_0@ == "Failed to set value"@,
{
    if response {
        Ok(())
    } else {
        Err(String::from_str("Failed to set value"))
    }
}

/// Whether a dataset's telemetry goes through the asset's default sender rather than a sender
/// of its own.
pub fn uses_default_telemetry_sender(dataset: &str) -> (r: bool)
    ensures
        r == (dataset@ == "asset_definition.default_topic.path"@),
{
    str_equals(dataset, "asset_definition.default_topic.path")
}

/// The user property that telemetry carries the message schema in: `schemaId`, with the
/// schema hash, or an empty text where there is none.
pub fn schema_id_user_data(schema_info: &Option<String>) -> (r: (String, String))
    ensures
        r.0@ == "schemaId"@,
        r.1@ == match schema_info {
            Some(s) => s@,
            None => Seq::<char>::empty(),
        },
{
    let value = match schema_info {
        Some(s) => s.clone(),
        None => String::new(),
    };
    (String::from_str("schemaId"), value)
}

/// Why a state store call failed, as the state store client reports it.
pub enum StateStoreFailure {
    /// The service answered with an error; its text.
    Service(String),
    /// The request timed out.
    Timeout,
    /// The protocol failed otherwise.
    Protocol,
    /// Anything else.
    Other,
}

/// A state store failure as a data transformation graph sees it.
#[derive(Debug, PartialEq, Eq)]
pub enum GraphStoreError {
    RequestError(String),
    Timeout,
    Protocol,
    Internal,
}

/// Translates a state store failure for a data transformation graph.
pub fn map_state_store_error(error: StateStoreFailure) -> (r: GraphStoreError)
    ensures
        match error {
            StateStoreFailure::Service(m) => r == GraphStoreError::RequestError(m),
            StateStoreFailure::Timeout => r == GraphStoreError::Timeout,
            StateStoreFailure::Protocol => r == GraphStoreError::Protocol,
            StateStoreFailure::Other => r == GraphStoreError::Internal,
        },
{
    match error {
        StateStoreFailure::Service(m) => GraphStoreError::RequestError(m),
        StateStoreFailure::Timeout => GraphStoreError::Timeout,
        StateStoreFailure::Protocol => GraphStoreError::Protocol,
        StateStoreFailure::Other => GraphStoreError::Internal,
    }
}

} // verus!

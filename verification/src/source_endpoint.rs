//! Source endpoints: what the connector creates for each asset endpoint profile, and the
//! REST source endpoint.

use std::collections::HashMap;
use vstd::prelude::*;

use crate::adr_client::{AssetDefinition, AssetEndpointProfile, Dataset, Event};

verus! {

/// Creates a source endpoint for each asset endpoint profile.
pub trait SourceEndpointFactory {
    type SE;

    /// Returns an error if the aep is invalid for this `SourceEndpoint` type
    fn create_asset_endpoint_profile_source_endpoint(&self, aep: AssetEndpointProfile) -> Result<
        Self::SE,
        String,
    >;
}

/// A change that a source endpoint is told of.
pub enum EventType<T> {
    Created(T),
    Updated(T),
    Deleted(String),
}

/// A change to an asset, a dataset or an event.
pub enum Notification {
    Asset(EventType<AssetDefinition>),
    Dataset(EventType<Dataset>),
    Event(EventType<Event>),
}

/// Creates REST source endpoints.
pub struct RestSourceEndpointFactory {
    aeps: HashMap<String, RestSourceEndpoint>,
}

impl View for RestSourceEndpointFactory {
    type V = Map<String, RestSourceEndpoint>;

    closed spec fn view(&self) -> Map<String, RestSourceEndpoint> {
        self.aeps@
    }
}

impl RestSourceEndpointFactory {
    /// A factory that has created no source endpoint yet.
    pub fn new() -> (f: RestSourceEndpointFactory)
        ensures
            f@ == Map::<String, RestSourceEndpoint>::empty(),
    {
        RestSourceEndpointFactory { aeps: HashMap::new() }
    }
}

impl Default for RestSourceEndpointFactory {
    /// The same factory as `RestSourceEndpointFactory::new`.
    fn default() -> (f: RestSourceEndpointFactory)
        ensures
            f@ == Map::<String, RestSourceEndpoint>::empty(),
    {
        RestSourceEndpointFactory::new()
    }
}

/// A source endpoint that reads from a REST service.
pub struct RestSourceEndpoint {
    aep: AssetEndpointProfile,
    asset_definitions: HashMap<String, AssetDefinition>,
}

impl RestSourceEndpoint {
    /// The asset endpoint profile that the endpoint serves.
    pub closed spec fn profile(&self) -> AssetEndpointProfile {
        self.aep
    }

    /// The asset definitions that the endpoint knows of.
    pub closed spec fn known_assets(&self) -> Map<String, AssetDefinition> {
        self.asset_definitions@
    }

    /// A source endpoint for `aep` that knows of no asset yet.
    pub fn new(aep: AssetEndpointProfile) -> (e: RestSourceEndpoint)
        ensures
            e.profile() == aep,
            e.known_assets() == Map::<String, AssetDefinition>::empty(),
    {
        RestSourceEndpoint { aep, asset_definitions: HashMap::new() }
    }

    /// The asset endpoint profile that the endpoint serves.
    pub fn aep(&self) -> (r: &AssetEndpointProfile)
        ensures
            *r == self.profile(),
    {
        &self.aep
    }
}

impl SourceEndpointFactory for RestSourceEndpointFactory {
    type SE = RestSourceEndpoint;

    fn create_asset_endpoint_profile_source_endpoint(&self, aep: AssetEndpointProfile) -> (r: Result<
        RestSourceEndpoint,
        String,
    >)
        ensures
            r is Ok,
            r->Ok_0.profile() == aep,
            r->Ok_0.known_assets() == Map::<String, AssetDefinition>::empty(),
    {
        Ok(RestSourceEndpoint::new(aep))
    }
}

} // verus!

//! The records that the Azure Device Registry keeps for asset endpoint profiles and assets,
//! and the status that a connector reports for an asset.

use std::time::Duration;
use vstd::prelude::*;

verus! {

/// `Clone::clone` of `std::time::Duration`, which is `Copy`: the clone equals the value it was
/// made from (std derives `Clone` for it).
pub assume_specification[ <Duration as Clone>::clone ](d: &Duration) -> (r: Duration)
    ensures
        r == *d,
;

/// Client for the Azure Device Registry.
pub struct ADRClient {}

impl ADRClient {
    /// Creates a client for the Azure Device Registry.
    ///
    /// The registry's operations (observing and reading profiles and assets, reporting their
    /// status) are not provided by this library, and no connection to the registry is made:
    /// the client holds no state, every call returns, and every client equals the one
    /// returned. Code that needs a working registry client cannot get one here.
    pub fn new() -> (c: ADRClient)
        ensures
            c == (ADRClient {}),
    {
        ADRClient {}
    }
}

impl Default for ADRClient {
    /// The same client as `ADRClient::new`.
    fn default() -> (c: ADRClient)
        ensures
            c == (ADRClient {}),
    {
        ADRClient::new()
    }
}

/// An asset endpoint profile.
#[derive(Clone)]
pub struct AssetEndpointProfile {
    pub name: String,
    pub additional_configuration: Vec<String>,
}

/// The definition of an asset.
#[derive(Clone)]
pub struct AssetDefinition {
    pub name: String,
    pub target: String,
    pub frequency: Duration,
    pub datasets: Vec<Dataset>,
    pub events: Vec<Event>,
}

/// A dataset of an asset.
#[derive(Clone)]
pub struct Dataset {
    pub name: String,
}

/// An event of an asset.
#[derive(Clone)]
pub struct Event {
    pub name: String,
}

/// A change to a registry entry.
pub enum Notification {
    Update(String),
    Delete(String),
}

/// The status reported for an asset endpoint profile.
pub struct AssetEndpointProfileStatus {
    pub errors: Vec<ADRError>,
}

/// The status reported for an asset.
#[derive(Clone)]
pub struct AssetStatus {
    pub datasets_schema: Option<Vec<DatasetsSchema>>,
    pub events_schema: Option<Vec<EventsSchema>>,
    pub errors: Option<Vec<ADRError>>,
    pub version: Option<i32>,
}

/// The message schema registered for a dataset.
#[derive(Clone)]
pub struct DatasetsSchema {
    pub name: String,
    pub message_schema_reference: MessageSchemaReference,
}

/// The message schema registered for an event.
#[derive(Clone)]
pub struct EventsSchema {
    pub name: String,
    pub message_schema_reference: MessageSchemaReference,
}

/// Where a message schema is found in the schema registry.
#[derive(Clone)]
pub struct MessageSchemaReference {
    pub name: Option<String>,
    pub namespace: Option<String>,
    pub version: Option<String>,
}

/// An error reported to the registry.
#[derive(Clone, Debug)]
pub struct ADRError {
    pub code: u16,
    pub message: String,
}

/// The entries of an optional list; none where there is no list.
pub open spec fn listed<T>(o: Option<Vec<T>>) -> Seq<T> {
    match o {
        Some(v) => v@,
        None => Seq::empty(),
    }
}

/// Keeps the dataset schemas that are not named `name`.
pub open spec fn dataset_not_named(name: Seq<char>) -> spec_fn(DatasetsSchema) -> bool {
    |d: DatasetsSchema| d.name@ != name
}

/// Keeps the event schemas that are not named `name`.
pub open spec fn event_not_named(name: Seq<char>) -> spec_fn(EventsSchema) -> bool {
    |e: EventsSchema| e.name@ != name
}

/// The list without the entries that `keep` rejects, the others in their order; no list stays
/// no list.
pub open spec fn retained<T>(o: Option<Vec<T>>, keep: spec_fn(T) -> bool) -> Option<Seq<T>> {
    match o {
        Some(v) => Some(v@.filter(keep)),
        None => None,
    }
}

/// The entries of an optional list, as an optional sequence.
pub open spec fn list_view<T>(o: Option<Vec<T>>) -> Option<Seq<T>> {
    match o {
        Some(v) => Some(v@),
        None => None,
    }
}

/// The entries of `v` that `keep` accepts, in their order.
fn retain_dataset_schemas(v: Vec<DatasetsSchema>, name: &String) -> (r: Vec<DatasetsSchema>)
    ensures
        r@ == v@.filter(dataset_not_named(name@)),
{
    let ghost orig = v@;
    let ghost keep = dataset_not_named(name@);
    let mut kept: Vec<DatasetsSchema> = Vec::new();
    for d in it: v.into_iter()
        invariant
            it.seq() == orig,
            keep == dataset_not_named(name@),
            kept@ == orig.take(it.index()).filter(keep),
    {
        let ghost before = kept@;
        let ghost i = it.index();
        if !(d.name == *name) {
            kept.push(d);
        }
        proof {
            reveal_with_fuel(Seq::filter, 1);
            assert(orig.take(i + 1).drop_last() =~= orig.take(i));
            assert(orig.take(i + 1).last() == orig[i]);
            assert(kept@ == orig.take(i + 1).filter(keep));
        }
    }
    proof {
        assert(orig.take(orig.len() as int) =~= orig);
    }
    kept
}

/// The entries of `v` that `keep` accepts, in their order.
fn retain_events_schemas(v: Vec<EventsSchema>, name: &String) -> (r: Vec<EventsSchema>)
    ensures
        r@ == v@.filter(event_not_named(name@)),
{
    let ghost orig = v@;
    let ghost keep = event_not_named(name@);
    let mut kept: Vec<EventsSchema> = Vec::new();
    for e in it: v.into_iter()
        invariant
            it.seq() == orig,
            keep == event_not_named(name@),
            kept@ == orig.take(it.index()).filter(keep),
    {
        let ghost before = kept@;
        let ghost i = it.index();
        if !(e.name == *name) {
            kept.push(e);
        }
        proof {
            reveal_with_fuel(Seq::filter, 1);
            assert(orig.take(i + 1).drop_last() =~= orig.take(i));
            assert(orig.take(i + 1).last() == orig[i]);
            assert(kept@ == orig.take(i + 1).filter(keep));
        }
    }
    proof {
        assert(orig.take(orig.len() as int) =~= orig);
    }
    kept
}

impl AssetStatus {
    /// Adds a dataset schema at the end of the list, starting the list where there is none.
    pub fn add_dataset_schema(&mut self, dataset_schema: DatasetsSchema)
        ensures
            list_view(final(self).datasets_schema) == Some(listed(old(self).datasets_schema).push(dataset_schema)),
            final(self).events_schema == old(self).events_schema,
            final(self).errors == old(self).errors,
            final(self).version == old(self).version,
    {
        match self.datasets_schema.take() {
            Some(mut datasets_schema) => {
                datasets_schema.push(dataset_schema);
                self.datasets_schema = Some(datasets_schema);
            },
            None => {
                let mut datasets_schema = Vec::new();
                datasets_schema.push(dataset_schema);
                self.datasets_schema = Some(datasets_schema);
            },
        }
    }

    /// Removes every dataset schema named `dataset_name`, keeping the others in their order.
    pub fn remove_dataset_schema(&mut self, dataset_name: String)
        ensures
            list_view(final(self).datasets_schema) == retained(old(self).datasets_schema, dataset_not_named(dataset_name@)),
            final(self).events_schema == old(self).events_schema,
            final(self).errors == old(self).errors,
            final(self).version == old(self).version,
    {
        match self.datasets_schema.take() {
            Some(datasets_schema) => {
                self.datasets_schema = Some(retain_dataset_schemas(datasets_schema, &dataset_name));
            },
            None => {},
        }
    }

    /// Adds an event schema at the end of the list, starting the list where there is none.
    pub fn add_events_schema(&mut self, events_schema: EventsSchema)
        ensures
            list_view(final(self).events_schema) == Some(listed(old(self).events_schema).push(events_schema)),
            final(self).datasets_schema == old(self).datasets_schema,
            final(self).errors == old(self).errors,
            final(self).version == old(self).version,
    {
        match self.events_schema.take() {
            Some(mut events_schemas) => {
                events_schemas.push(events_schema);
                self.events_schema = Some(events_schemas);
            },
            None => {
                let mut events_schemas = Vec::new();
                events_schemas.push(events_schema);
                self.events_schema = Some(events_schemas);
            },
        }
    }

    /// Removes every event schema named `event_name`, keeping the others in their order.
    pub fn remove_events_schema(&mut self, event_name: String)
        ensures
            list_view(final(self).events_schema) == retained(old(self).events_schema, event_not_named(event_name@)),
            final(self).datasets_schema == old(self).datasets_schema,
            final(self).errors == old(self).errors,
            final(self).version == old(self).version,
    {
        match self.events_schema.take() {
            Some(events_schemas) => {
                self.events_schema = Some(retain_events_schemas(events_schemas, &event_name));
            },
            None => {},
        }
    }

    /// Adds an error at the end of the list, starting the list where there is none.
    pub fn add_error(&mut self, error: ADRError)
        ensures
            list_view(final(self).errors) == Some(listed(old(self).errors).push(error)),
            final(self).datasets_schema == old(self).datasets_schema,
            final(self).events_schema == old(self).events_schema,
            final(self).version == old(self).version,
    {
        match self.errors.take() {
            Some(mut errors) => {
                errors.push(error);
                self.errors = Some(errors);
            },
            None => {
                let mut errors = Vec::new();
                errors.push(error);
                self.errors = Some(errors);
            },
        }
    }
}

/// Filtering a second time by the same predicate removes nothing more.
proof fn lemma_filter_twice<T>(s: Seq<T>, keep: spec_fn(T) -> bool)
    ensures
        s.filter(keep).filter(keep) == s.filter(keep),
    decreases s.len(),
{
    if s.len() > 0 {
        let d = s.drop_last();
        lemma_filter_twice(d, keep);
        assert(d.push(s.last()) =~= s);
        d.lemma_filter_push(s.last(), keep);
        d.filter(keep).lemma_filter_push(s.last(), keep);
    } else {
        reveal_with_fuel(Seq::filter, 1);
    }
}

/// What the filter keeps passes the predicate.
proof fn lemma_filter_all<T>(s: Seq<T>, keep: spec_fn(T) -> bool)
    ensures
        forall|i: int| 0 <= i < s.filter(keep).len() ==> keep(#[trigger] s.filter(keep)[i]),
{
    assert forall|i: int| 0 <= i < s.filter(keep).len() implies keep(#[trigger] s.filter(keep)[i]) by {
        s.lemma_filter_pred(keep, i);
    }
}

/// Removing the dataset schemas named like one just added leaves the list as removing them
/// before the addition would have left it.
pub proof fn law_remove_dataset_schema_undoes_add(before: Option<Vec<DatasetsSchema>>, schema: DatasetsSchema)
    ensures
        listed(before).push(schema).filter(dataset_not_named(schema.name@))
            == listed(before).filter(dataset_not_named(schema.name@)),
{
    listed(before).lemma_filter_push(schema, dataset_not_named(schema.name@));
}

/// Removing the event schemas named like one just added leaves the list as removing them
/// before the addition would have left it.
pub proof fn law_remove_events_schema_undoes_add(before: Option<Vec<EventsSchema>>, schema: EventsSchema)
    ensures
        listed(before).push(schema).filter(event_not_named(schema.name@))
            == listed(before).filter(event_not_named(schema.name@)),
{
    listed(before).lemma_filter_push(schema, event_not_named(schema.name@));
}

/// After a removal no dataset schema carries the removed name, and removing it again changes
/// nothing.
pub proof fn law_remove_dataset_schema_is_complete(before: Option<Vec<DatasetsSchema>>, name: Seq<char>)
    ensures
        match retained(before, dataset_not_named(name)) {
            Some(after) => {
                &&& forall|i: int| 0 <= i < after.len() ==> (#[trigger] after[i]).name@ != name
                &&& after.filter(dataset_not_named(name)) == after
            },
            None => before is None,
        },
{
    if let Some(v) = before {
        lemma_filter_all(v@, dataset_not_named(name));
        lemma_filter_twice(v@, dataset_not_named(name));
    }
}

/// After a removal no event schema carries the removed name, and removing it again changes
/// nothing.
pub proof fn law_remove_events_schema_is_complete(before: Option<Vec<EventsSchema>>, name: Seq<char>)
    ensures
        match retained(before, event_not_named(name)) {
            Some(after) => {
                &&& forall|i: int| 0 <= i < after.len() ==> (#[trigger] after[i]).name@ != name
                &&& after.filter(event_not_named(name)) == after
            },
            None => before is None,
        },
{
    if let Some(v) = before {
        lemma_filter_all(v@, event_not_named(name));
        lemma_filter_twice(v@, event_not_named(name));
    }
}

} // verus!

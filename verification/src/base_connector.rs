//! What the base connector decides: the status it reports for asset endpoint profiles and
//! assets, where an asset's data goes, and how its supervision loops react to what happens.
//!
//! The loops themselves (receiving notifications, awaiting tasks, calling the registry and
//! the schema registry) are driven from outside; each step hands the event here and carries
//! out the action returned.

use vstd::prelude::*;

use crate::adr_client::{
    listed, list_view, ADRError, AssetDefinition, AssetEndpointProfile, AssetEndpointProfileStatus,
    AssetStatus, DatasetsSchema, EventsSchema, MessageSchemaReference,
};
use crate::text::str_equals;

verus! {

// ---------------------------------------------------------------------------------------
// Destinations
// ---------------------------------------------------------------------------------------

/// The destinations that the connector forwards data to.
#[derive(PartialEq, Eq, Structural, Debug, Clone, Copy)]
pub enum DestinationKind {
    /// MQTT telemetry, named `"Mqtt"` in an asset definition's target.
    MqttTelemetry,
    /// The distributed state store, named `"Dss"` in an asset definition's target.
    StateStore,
}

/// The destination that an asset definition's target names.
pub open spec fn destination_of(target: Seq<char>) -> Option<DestinationKind> {
    if target == "Mqtt"@ {
        Some(DestinationKind::MqttTelemetry)
    } else if target == "Dss"@ {
        Some(DestinationKind::StateStore)
    } else {
        None
    }
}

/// The destination that an asset definition's target names, if it names one.
pub fn destination_for_target(target: &str) -> (r: Option<DestinationKind>)
    ensures
        r == destination_of(target@),
{
    if str_equals(target, "Mqtt") {
        Some(DestinationKind::MqttTelemetry)
    } else if str_equals(target, "Dss") {
        Some(DestinationKind::StateStore)
    } else {
        None
    }
}

// ---------------------------------------------------------------------------------------
// Status of asset endpoint profiles
// ---------------------------------------------------------------------------------------

/// The status reported for an asset endpoint profile once its source endpoint was, or was
/// not, created: no status where it was, else the creation error with code 1.
pub fn profile_status_after_creation(creation_error: Option<String>) -> (r: Option<AssetEndpointProfileStatus>)
    ensures
        match creation_error {
            None => r is None,
            Some(e) => r is Some && r->Some_0.errors@ == seq![ADRError { code: 1, message: e }],
        },
{
    match creation_error {
        None => None,
        Some(e) => {
            let mut errors = Vec::new();
            errors.push(ADRError { code: 1, message: e });
            Some(AssetEndpointProfileStatus { errors })
        },
    }
}

// ---------------------------------------------------------------------------------------
// Status of assets
// ---------------------------------------------------------------------------------------

/// What registering a message schema with the schema registry came to.
pub enum SchemaOutcome {
    /// The source endpoint provides no schema.
    NotProvided,
    /// The registry stored the schema.
    Registered(RegisteredSchema),
    /// The registry refused the schema as invalid or unserializable; the text says why.
    Rejected(String),
    /// The registry could not be reached or failed otherwise.
    Unavailable,
}

/// A schema as the schema registry stored it.
pub struct RegisteredSchema {
    pub name: Option<String>,
    pub namespace: Option<String>,
    pub version: Option<String>,
    pub hash: Option<String>,
}

/// The reference to a registered schema, as the asset status records it.
pub open spec fn schema_reference(s: RegisteredSchema) -> MessageSchemaReference {
    MessageSchemaReference { name: s.name, namespace: s.namespace, version: s.version }
}

/// An error reported for an asset's setup: code 1 and the text.
pub open spec fn setup_error(message: String) -> ADRError {
    ADRError { code: 1, message }
}

impl AssetStatus {
    /// The status an asset starts with: no schemas, no errors, version 1.
    pub fn initial() -> (s: AssetStatus)
        ensures
            s.datasets_schema is None,
            s.events_schema is None,
            s.errors is None,
            s.version == Some(1i32),
    {
        AssetStatus { datasets_schema: None, events_schema: None, errors: None, version: Some(1) }
    }

    /// The status of an asset whose target names no destination.
    pub fn destination_not_found() -> (s: AssetStatus)
        ensures
            s.datasets_schema is None,
            s.events_schema is None,
            s.errors is Some,
            s.errors->Some_0@.len() == 1,
            s.errors->Some_0@[0].code == 1,
            s.errors->Some_0@[0].message@ == "Destination endpoint not found"@,
            s.version == Some(1i32),
    {
        let mut s = AssetStatus::initial();
        s.add_error(ADRError { code: 1, message: String::from_str("Destination endpoint not found") });
        s
    }

    /// Records a failure to set up a dataset's or an event's forwarding (or the asset's
    /// forwarding as a whole): an error with code 1 and the text.
    pub fn record_setup_error(&mut self, message: String)
        ensures
            list_view(final(self).errors) == Some(listed(old(self).errors).push(setup_error(message))),
            final(self).datasets_schema == old(self).datasets_schema,
            final(self).events_schema == old(self).events_schema,
            final(self).version == old(self).version,
    {
        self.add_error(ADRError { code: 1, message });
    }

    /// Records what registering a dataset's message schema came to, and returns the schema
    /// hash to forward the dataset's messages with: a registered schema is listed under the
    /// dataset's name; a rejected one is reported as an error; nothing else is recorded.
    pub fn record_dataset_schema(&mut self, dataset_name: String, outcome: SchemaOutcome) -> (uri: Option<String>)
        ensures
            match outcome {
                SchemaOutcome::Registered(s) => {
                    &&& list_view(final(self).datasets_schema) == Some(
                        listed(old(self).datasets_schema).push(
                            DatasetsSchema { name: dataset_name, message_schema_reference: schema_reference(s) },
                        ),
                    )
                    &&& final(self).events_schema == old(self).events_schema
                    &&& final(self).errors == old(self).errors
                    &&& final(self).version == old(self).version
                    &&& uri == s.hash
                },
                SchemaOutcome::Rejected(m) => {
                    &&& list_view(final(self).errors) == Some(listed(old(self).errors).push(setup_error(m)))
                    &&& final(self).datasets_schema == old(self).datasets_schema
                    &&& final(self).events_schema == old(self).events_schema
                    &&& final(self).version == old(self).version
                    &&& uri is None
                },
                _ => *final(self) == *old(self) && uri is None,
            },
    {
        match outcome {
            SchemaOutcome::Registered(schema) => {
                self.add_dataset_schema(
                    DatasetsSchema {
                        name: dataset_name,
                        message_schema_reference: MessageSchemaReference {
                            name: schema.name,
                            namespace: schema.namespace,
                            version: schema.version,
                        },
                    },
                );
                schema.hash
            },
            SchemaOutcome::Rejected(message) => {
                self.add_error(ADRError { code: 1, message });
                None
            },
            _ => None,
        }
    }

    /// Records what registering an event's message schema came to, and returns the schema
    /// hash to forward the event's messages with: a registered schema is listed under the
    /// event's name; a rejected one is reported as an error; nothing else is recorded.
    pub fn record_event_schema(&mut self, event_name: String, outcome: SchemaOutcome) -> (uri: Option<String>)
        ensures
            match outcome {
                SchemaOutcome::Registered(s) => {
                    &&& list_view(final(self).events_schema) == Some(
                        listed(old(self).events_schema).push(
                            EventsSchema { name: event_name, message_schema_reference: schema_reference(s) },
                        ),
                    )
                    &&& final(self).datasets_schema == old(self).datasets_schema
                    &&& final(self).errors == old(self).errors
                    &&& final(self).version == old(self).version
                    &&& uri == s.hash
                },
                SchemaOutcome::Rejected(m) => {
                    &&& list_view(final(self).errors) == Some(listed(old(self).errors).push(setup_error(m)))
                    &&& final(self).datasets_schema == old(self).datasets_schema
                    &&& final(self).events_schema == old(self).events_schema
                    &&& final(self).version == old(self).version
                    &&& uri is None
                },
                _ => *final(self) == *old(self) && uri is None,
            },
    {
        match outcome {
            SchemaOutcome::Registered(schema) => {
                self.add_events_schema(
                    EventsSchema {
                        name: event_name,
                        message_schema_reference: MessageSchemaReference {
                            name: schema.name,
                            namespace: schema.namespace,
                            version: schema.version,
                        },
                    },
                );
                schema.hash
            },
            SchemaOutcome::Rejected(message) => {
                self.add_error(ADRError { code: 1, message });
                None
            },
            _ => None,
        }
    }
}

/// A list as an asset status holds it: no list where it would be empty.
pub open spec fn nonempty_list<T>(s: Seq<T>) -> Option<Seq<T>> {
    if s.len() == 0 {
        None
    } else {
        Some(s)
    }
}

/// The schemas registered for the datasets, in order: one for each dataset whose schema the
/// registry stored.
pub open spec fn registered_datasets(items: Seq<(String, SchemaOutcome, Result<(), String>)>) -> Seq<DatasetsSchema>
    decreases items.len(),
{
    if items.len() == 0 {
        Seq::empty()
    } else {
        let rest = registered_datasets(items.drop_last());
        match items.last().1 {
            SchemaOutcome::Registered(s) => rest.push(
                DatasetsSchema { name: items.last().0, message_schema_reference: schema_reference(s) },
            ),
            _ => rest,
        }
    }
}

/// The schemas registered for the events, in order: one for each event whose schema the
/// registry stored.
pub open spec fn registered_events(items: Seq<(String, SchemaOutcome, Result<(), String>)>) -> Seq<EventsSchema>
    decreases items.len(),
{
    if items.len() == 0 {
        Seq::empty()
    } else {
        let rest = registered_events(items.drop_last());
        match items.last().1 {
            SchemaOutcome::Registered(s) => rest.push(
                EventsSchema { name: items.last().0, message_schema_reference: schema_reference(s) },
            ),
            _ => rest,
        }
    }
}

/// The errors that setting up the datasets (or events) reports, in order: for each, a
/// rejected schema, then a forwarder that could not be created.
pub open spec fn setup_errors(items: Seq<(String, SchemaOutcome, Result<(), String>)>) -> Seq<ADRError>
    decreases items.len(),
{
    if items.len() == 0 {
        Seq::empty()
    } else {
        let rest = setup_errors(items.drop_last());
        let with_schema = match items.last().1 {
            SchemaOutcome::Rejected(m) => rest.push(setup_error(m)),
            _ => rest,
        };
        match items.last().2 {
            Err(e) => with_schema.push(setup_error(e)),
            Ok(_) => with_schema,
        }
    }
}

/// The schema entry of a dataset whose schema the registry stored.
pub open spec fn dataset_entry(x: (String, SchemaOutcome, Result<(), String>)) -> DatasetsSchema {
    DatasetsSchema { name: x.0, message_schema_reference: schema_reference(x.1->Registered_0) }
}

/// The schema entry of an event whose schema the registry stored.
pub open spec fn event_entry(x: (String, SchemaOutcome, Result<(), String>)) -> EventsSchema {
    EventsSchema { name: x.0, message_schema_reference: schema_reference(x.1->Registered_0) }
}

/// The registry stored the schema of this dataset or event.
pub open spec fn schema_stored(x: (String, SchemaOutcome, Result<(), String>)) -> bool {
    x.1 is Registered
}

/// The dataset schemas that the status lists are one for each dataset whose schema the
/// registry stored, in order, whatever became of its forwarder.
pub proof fn law_registered_datasets_listed(items: Seq<(String, SchemaOutcome, Result<(), String>)>)
    ensures
        registered_datasets(items) == items.filter(|x: (String, SchemaOutcome, Result<(), String>)| schema_stored(x)).map_values(
            |x: (String, SchemaOutcome, Result<(), String>)| dataset_entry(x),
        ),
    decreases items.len(),
{
    let keep = |x: (String, SchemaOutcome, Result<(), String>)| schema_stored(x);
    let entry = |x: (String, SchemaOutcome, Result<(), String>)| dataset_entry(x);
    if items.len() == 0 {
        reveal_with_fuel(Seq::filter, 1);
        assert(items.filter(keep).map_values(entry) =~= Seq::<DatasetsSchema>::empty());
    } else {
        let d = items.drop_last();
        law_registered_datasets_listed(d);
        assert(d.push(items.last()) =~= items);
        d.lemma_filter_push(items.last(), keep);
        if keep(items.last()) {
            assert(d.filter(keep).push(items.last()).map_values(entry) =~= d.filter(keep).map_values(entry).push(
                entry(items.last()),
            ));
        }
    }
}

/// The event schemas that the status lists are one for each event whose schema the registry
/// stored, in order, whatever became of its forwarder.
pub proof fn law_registered_events_listed(items: Seq<(String, SchemaOutcome, Result<(), String>)>)
    ensures
        registered_events(items) == items.filter(|x: (String, SchemaOutcome, Result<(), String>)| schema_stored(x)).map_values(
            |x: (String, SchemaOutcome, Result<(), String>)| event_entry(x),
        ),
    decreases items.len(),
{
    let keep = |x: (String, SchemaOutcome, Result<(), String>)| schema_stored(x);
    let entry = |x: (String, SchemaOutcome, Result<(), String>)| event_entry(x);
    if items.len() == 0 {
        reveal_with_fuel(Seq::filter, 1);
        assert(items.filter(keep).map_values(entry) =~= Seq::<EventsSchema>::empty());
    } else {
        let d = items.drop_last();
        law_registered_events_listed(d);
        assert(d.push(items.last()) =~= items);
        d.lemma_filter_push(items.last(), keep);
        if keep(items.last()) {
            assert(d.filter(keep).push(items.last()).map_values(entry) =~= d.filter(keep).map_values(entry).push(
                entry(items.last()),
            ));
        }
    }
}

/// The errors that one dataset's or event's setup reports: its rejected schema, then its
/// forwarder that could not be created.
pub open spec fn item_errors(x: (String, SchemaOutcome, Result<(), String>)) -> Seq<ADRError> {
    let schema_error = match x.1 {
        SchemaOutcome::Rejected(m) => seq![setup_error(m)],
        _ => Seq::<ADRError>::empty(),
    };
    let forwarder_error = match x.2 {
        Err(e) => seq![setup_error(e)],
        Ok(_) => Seq::<ADRError>::empty(),
    };
    schema_error + forwarder_error
}

/// The errors of a setup are, item by item in order, the rejected schema and then the
/// forwarder that could not be created, each reported with code 1.
pub proof fn law_setup_errors_item_by_item(items: Seq<(String, SchemaOutcome, Result<(), String>)>)
    ensures
        setup_errors(items) == items.map_values(|x: (String, SchemaOutcome, Result<(), String>)| item_errors(x)).flatten(),
        forall|i: int| 0 <= i < setup_errors(items).len() ==> (#[trigger] setup_errors(items)[i]).code == 1,
    decreases items.len(),
{
    let f = |x: (String, SchemaOutcome, Result<(), String>)| item_errors(x);
    if items.len() == 0 {
        assert(items.map_values(f) =~= Seq::<Seq<ADRError>>::empty());
    } else {
        let d = items.drop_last();
        law_setup_errors_item_by_item(d);
        assert(items.map_values(f) =~= d.map_values(f).push(f(items.last())));
        d.map_values(f).lemma_flatten_push(f(items.last()));
        let rest = setup_errors(d);
        let x = items.last();
        assert(setup_errors(items) =~= rest + item_errors(x));
        assert forall|i: int| 0 <= i < setup_errors(items).len() implies (#[trigger] setup_errors(items)[i]).code
            == 1 by {
            if i >= rest.len() {
                assert(setup_errors(items)[i] == item_errors(x)[i - rest.len()]);
            }
        }
    }
}

/// Only the targets `"Mqtt"` and `"Dss"` name a destination, MQTT telemetry and the state
/// store respectively.
pub proof fn law_destinations_named(target: Seq<char>)
    ensures
        destination_of(target) is Some <==> (target == "Mqtt"@ || target == "Dss"@),
        destination_of(target) == Some(DestinationKind::MqttTelemetry) ==> target == "Mqtt"@,
        destination_of(target) == Some(DestinationKind::StateStore) ==> target == "Dss"@,
{
}

/// A list whose view is a list that is kept nonempty lists exactly that list.
proof fn lemma_listed_of_nonempty<T>(o: Option<Vec<T>>, s: Seq<T>)
    requires
        list_view(o) == nonempty_list(s),
    ensures
        listed(o) == s,
{
    if o is None {
        assert(s.len() == 0);
        assert(s =~= Seq::<T>::empty());
    }
}

/// The status an asset reports once its setup is done: a target that names no destination
/// is reported as such; a forwarder factory that could not be created is reported as an
/// error; otherwise, for each dataset and then each event, in order, a registered schema is
/// listed, a rejected schema is reported as an error, and a forwarder that could not be
/// created is reported as an error. Each error has code 1; the version is 1.
pub fn asset_status_after_setup(
    target_found: bool,
    factory: Result<(), String>,
    datasets: Vec<(String, SchemaOutcome, Result<(), String>)>,
    events: Vec<(String, SchemaOutcome, Result<(), String>)>,
) -> (s: AssetStatus)
    ensures
        s.version == Some(1i32),
        !target_found ==> {
            &&& s.datasets_schema is None
            &&& s.events_schema is None
            &&& s.errors is Some
            &&& s.errors->Some_0@.len() == 1
            &&& s.errors->Some_0@[0].code == 1
            &&& s.errors->Some_0@[0].message@ == "Destination endpoint not found"@
        },
        target_found && factory is Err ==> {
            &&& s.datasets_schema is None
            &&& s.events_schema is None
            &&& list_view(s.errors) == Some(seq![setup_error(factory->Err_0)])
        },
        target_found && factory is Ok ==> {
            &&& list_view(s.datasets_schema) == nonempty_list(registered_datasets(datasets@))
            &&& list_view(s.events_schema) == nonempty_list(registered_events(events@))
            &&& list_view(s.errors) == nonempty_list(setup_errors(datasets@) + setup_errors(events@))
        },
{
    if !target_found {
        return AssetStatus::destination_not_found();
    }
    let mut s = AssetStatus::initial();
    match factory {
        Err(e) => {
            s.record_setup_error(e);
            return s;
        },
        Ok(()) => {},
    }
    let ghost ds = datasets@;
    let ghost es = events@;
    proof {
        assert(ds.take(0) =~= Seq::<(String, SchemaOutcome, Result<(), String>)>::empty());
    }
    for item in it: datasets.into_iter()
        invariant
            it.seq() == ds,
            s.version == Some(1i32),
            s.events_schema is None,
            list_view(s.datasets_schema) == nonempty_list(registered_datasets(ds.take(it.index()))),
            list_view(s.errors) == nonempty_list(setup_errors(ds.take(it.index()))),
    {
        let ghost i = it.index();
        proof {
            assert(ds.take(i + 1).drop_last() =~= ds.take(i));
            assert(ds.take(i + 1).last() == ds[i]);
            lemma_listed_of_nonempty(s.datasets_schema, registered_datasets(ds.take(i)));
            lemma_listed_of_nonempty(s.errors, setup_errors(ds.take(i)));
        }
        let (name, outcome, forwarder) = item;
        let _ = s.record_dataset_schema(name, outcome);
        proof {
            lemma_listed_of_nonempty(s.errors, match ds[i].1 {
                SchemaOutcome::Rejected(m) => setup_errors(ds.take(i)).push(setup_error(m)),
                _ => setup_errors(ds.take(i)),
            });
        }
        match forwarder {
            Err(e) => s.record_setup_error(e),
            Ok(()) => {},
        }
    }
    proof {
        assert(ds.take(ds.len() as int) =~= ds);
        assert(es.take(0) =~= Seq::<(String, SchemaOutcome, Result<(), String>)>::empty());
        assert(setup_errors(ds) + setup_errors(es.take(0)) =~= setup_errors(ds));
    }
    for item in it: events.into_iter()
        invariant
            it.seq() == es,
            s.version == Some(1i32),
            list_view(s.datasets_schema) == nonempty_list(registered_datasets(ds)),
            list_view(s.events_schema) == nonempty_list(registered_events(es.take(it.index()))),
            list_view(s.errors) == nonempty_list(setup_errors(ds) + setup_errors(es.take(it.index()))),
    {
        let ghost i = it.index();
        let ghost before = setup_errors(ds);
        proof {
            assert(es.take(i + 1).drop_last() =~= es.take(i));
            assert(es.take(i + 1).last() == es[i]);
            lemma_listed_of_nonempty(s.events_schema, registered_events(es.take(i)));
            lemma_listed_of_nonempty(s.errors, before + setup_errors(es.take(i)));
        }
        let (name, outcome, forwarder) = item;
        let _ = s.record_event_schema(name, outcome);
        let ghost mid = match es[i].1 {
            SchemaOutcome::Rejected(m) => setup_errors(es.take(i)).push(setup_error(m)),
            _ => setup_errors(es.take(i)),
        };
        proof {
            assert(before + mid =~= match es[i].1 {
                SchemaOutcome::Rejected(m) => (before + setup_errors(es.take(i))).push(setup_error(m)),
                _ => before + setup_errors(es.take(i)),
            });
            lemma_listed_of_nonempty(s.errors, before + mid);
        }
        match forwarder {
            Err(e) => {
                s.record_setup_error(e);
                proof {
                    assert((before + mid).push(setup_error(e)) =~= before + mid.push(setup_error(e)));
                }
            },
            Ok(()) => {},
        }
    }
    proof {
        assert(es.take(es.len() as int) =~= es);
    }
    s
}

// ---------------------------------------------------------------------------------------
// Supervision loops
// ---------------------------------------------------------------------------------------

/// Why a supervised task ended.
pub enum EndReason<T> {
    /// What it served was deleted.
    Deleted,
    /// What it served was updated; the new definition.
    Updated(T),
    /// Its notifications stopped coming.
    Error,
    /// It has nothing left to do.
    Finished,
}

/// How a supervised task ended.
pub enum TaskEnd<T> {
    /// It returned why it ended.
    Returned(EndReason<T>),
    /// It was cancelled or panicked.
    Aborted,
}

/// What happened while the connector watches for asset endpoint profiles.
pub enum ConnectorEvent {
    /// A profile was created; `None` where no more creations will be reported.
    ProfileCreated(Option<AssetEndpointProfile>),
    /// A profile's task ended; `None` where no profile task runs.
    ProfileTaskEnded(Option<TaskEnd<AssetEndpointProfile>>),
}

/// What the connector does next.
pub enum ConnectorAction {
    /// Start the tasks of this profile.
    StartProfile(AssetEndpointProfile),
    /// Stop watching and shut the clients down.
    Shutdown,
    /// Log that a profile task was cancelled or panicked, and go on.
    LogTaskFailure,
    /// Go on watching.
    Wait,
}

/// The events that the connector has a rule for: a profile task that ends because its profile
/// was deleted, or with an error, or finished, has none yet.
pub open spec fn connector_handles(event: ConnectorEvent) -> bool {
    match event {
        ConnectorEvent::ProfileTaskEnded(Some(TaskEnd::Returned(r))) => r is Updated,
        _ => true,
    }
}

/// One step of the connector's watch over asset endpoint profiles.
pub fn connector_step(event: ConnectorEvent) -> (a: ConnectorAction)
    requires
        connector_handles(event),
    ensures
        match event {
            ConnectorEvent::ProfileCreated(Some(p)) => a == ConnectorAction::StartProfile(p),
            ConnectorEvent::ProfileCreated(None) => a is Shutdown,
            ConnectorEvent::ProfileTaskEnded(Some(TaskEnd::Returned(EndReason::Updated(p)))) => a
                == ConnectorAction::StartProfile(p),
            ConnectorEvent::ProfileTaskEnded(Some(TaskEnd::Aborted)) => a is LogTaskFailure,
            ConnectorEvent::ProfileTaskEnded(None) => a is Wait,
            _ => false,
        },
{
    match event {
        ConnectorEvent::ProfileCreated(Some(p)) => ConnectorAction::StartProfile(p),
        ConnectorEvent::ProfileCreated(None) => ConnectorAction::Shutdown,
        ConnectorEvent::ProfileTaskEnded(Some(TaskEnd::Returned(EndReason::Updated(p)))) => ConnectorAction::StartProfile(p),
        ConnectorEvent::ProfileTaskEnded(Some(TaskEnd::Aborted)) => ConnectorAction::LogTaskFailure,
        ConnectorEvent::ProfileTaskEnded(Some(TaskEnd::Returned(_))) => ConnectorAction::Wait,
        ConnectorEvent::ProfileTaskEnded(None) => ConnectorAction::Wait,
    }
}

/// What happened while a profile's task watches its assets.
pub enum ProfileEvent {
    /// The profile's cancellation token was cancelled.
    Cancelled,
    /// An asset was created; `None` where no more creations will be reported.
    AssetCreated(Option<AssetDefinition>),
    /// The profile was deleted (`true`), or no more deletions will be reported (`false`).
    ProfileDeleted(bool),
    /// The profile was updated; `None` where no more updates will be reported.
    ProfileUpdated(Option<AssetEndpointProfile>),
    /// An asset's task ended; `None` where no asset task runs.
    AssetTaskEnded(Option<TaskEnd<AssetDefinition>>),
}

/// What a profile's task does next.
pub enum ProfileAction {
    /// End the task for this reason.
    End(EndReason<AssetEndpointProfile>),
    /// Cancel the profile's other work, then end the task for this reason.
    CancelAndEnd(EndReason<AssetEndpointProfile>),
    /// Start the tasks of this asset.
    StartAsset(AssetDefinition),
    /// Log that an asset task was cancelled or panicked, and go on.
    LogTaskFailure,
    /// Go on watching.
    Wait,
}

/// The events that a profile's task has a rule for: an asset task that ends because its asset
/// was deleted, or with an error, or finished, has none yet.
pub open spec fn profile_handles(event: ProfileEvent) -> bool {
    match event {
        ProfileEvent::AssetTaskEnded(Some(TaskEnd::Returned(r))) => r is Updated,
        _ => true,
    }
}

/// One step of a profile's task.
pub fn profile_step(event: ProfileEvent) -> (a: ProfileAction)
    requires
        profile_handles(event),
    ensures
        match event {
            ProfileEvent::Cancelled => a == ProfileAction::End(EndReason::Finished),
            ProfileEvent::AssetCreated(Some(d)) => a == ProfileAction::StartAsset(d),
            ProfileEvent::AssetCreated(None) => a == ProfileAction::End(EndReason::Error),
            ProfileEvent::ProfileDeleted(true) => a == ProfileAction::CancelAndEnd(EndReason::Deleted),
            ProfileEvent::ProfileDeleted(false) => a == ProfileAction::End(EndReason::Error),
            ProfileEvent::ProfileUpdated(Some(p)) => a == ProfileAction::CancelAndEnd(EndReason::Updated(p)),
            ProfileEvent::ProfileUpdated(None) => a == ProfileAction::End(EndReason::Error),
            ProfileEvent::AssetTaskEnded(Some(TaskEnd::Returned(EndReason::Updated(d)))) => a
                == ProfileAction::StartAsset(d),
            ProfileEvent::AssetTaskEnded(Some(TaskEnd::Aborted)) => a is LogTaskFailure,
            ProfileEvent::AssetTaskEnded(None) => a is Wait,
            _ => false,
        },
{
    match event {
        ProfileEvent::Cancelled => ProfileAction::End(EndReason::Finished),
        ProfileEvent::AssetCreated(Some(d)) => ProfileAction::StartAsset(d),
        ProfileEvent::AssetCreated(None) => ProfileAction::End(EndReason::Error),
        ProfileEvent::ProfileDeleted(deleted) => {
            if deleted {
                ProfileAction::CancelAndEnd(EndReason::Deleted)
            } else {
                ProfileAction::End(EndReason::Error)
            }
        },
        ProfileEvent::ProfileUpdated(Some(p)) => ProfileAction::CancelAndEnd(EndReason::Updated(p)),
        ProfileEvent::ProfileUpdated(None) => ProfileAction::End(EndReason::Error),
        ProfileEvent::AssetTaskEnded(Some(TaskEnd::Returned(EndReason::Updated(d)))) => ProfileAction::StartAsset(d),
        ProfileEvent::AssetTaskEnded(Some(TaskEnd::Aborted)) => ProfileAction::LogTaskFailure,
        ProfileEvent::AssetTaskEnded(Some(TaskEnd::Returned(_))) => ProfileAction::Wait,
        ProfileEvent::AssetTaskEnded(None) => ProfileAction::Wait,
    }
}

/// What happened while an asset's task watches its datasets and events.
pub enum AssetEvent {
    /// A dataset or event task ended normally (`Some(true)`), was cancelled or panicked
    /// (`Some(false)`), or none is left (`None`).
    ForwardingEnded(Option<bool>),
    /// The asset was deleted (`true`), or no more deletions will be reported (`false`).
    AssetDeleted(bool),
    /// The asset was updated; `None` where no more updates will be reported.
    AssetUpdated(Option<AssetDefinition>),
}

/// What an asset's task does next.
pub enum AssetAction {
    /// End the task for this reason.
    End(EndReason<AssetDefinition>),
    /// Cancel the asset's other work, then end the task for this reason.
    CancelAndEnd(EndReason<AssetDefinition>),
    /// Log that a dataset or event task ended, and go on.
    LogEnded,
    /// Log that a dataset or event task was cancelled or panicked, and go on.
    LogFailure,
}

/// Whether an asset whose status was reported gets a task that watches it: only where some
/// forwarding of its datasets or events was started.
pub fn asset_watch_owed(forwarders_started: usize) -> (r: bool)
    ensures
        r == (forwarders_started > 0),
{
    forwarders_started > 0
}

/// One step of an asset's task.
pub fn asset_step(event: AssetEvent) -> (a: AssetAction)
    ensures
        match event {
            AssetEvent::ForwardingEnded(Some(true)) => a is LogEnded,
            AssetEvent::ForwardingEnded(Some(false)) => a is LogFailure,
            AssetEvent::ForwardingEnded(None) => a == AssetAction::End(EndReason::Finished),
            AssetEvent::AssetDeleted(true) => a == AssetAction::CancelAndEnd(EndReason::Deleted),
            AssetEvent::AssetDeleted(false) => a == AssetAction::End(EndReason::Error),
            AssetEvent::AssetUpdated(Some(d)) => a == AssetAction::CancelAndEnd(EndReason::Updated(d)),
            AssetEvent::AssetUpdated(None) => a == AssetAction::End(EndReason::Error),
        },
{
    match event {
        AssetEvent::ForwardingEnded(Some(ok)) => {
            if ok {
                AssetAction::LogEnded
            } else {
                AssetAction::LogFailure
            }
        },
        AssetEvent::ForwardingEnded(None) => AssetAction::End(EndReason::Finished),
        AssetEvent::AssetDeleted(deleted) => {
            if deleted {
                AssetAction::CancelAndEnd(EndReason::Deleted)
            } else {
                AssetAction::End(EndReason::Error)
            }
        },
        AssetEvent::AssetUpdated(Some(d)) => AssetAction::CancelAndEnd(EndReason::Updated(d)),
        AssetEvent::AssetUpdated(None) => AssetAction::End(EndReason::Error),
    }
}

} // verus!

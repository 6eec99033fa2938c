//! The connector's bookkeeping on concrete values: configuration, asset status, supervision
//! steps, destinations, source endpoints, graph layout and acknowledgement metadata.

use std::time::Duration;

use azure_iot_operations_connector::ack_metadata::Metadata;
use azure_iot_operations_connector::adr_client::{
    ADRClient, ADRError, AssetDefinition, AssetEndpointProfile, AssetStatus, Dataset, DatasetsSchema, Event,
    EventsSchema, MessageSchemaReference,
};
use azure_iot_operations_connector::base_connector::{
    asset_status_after_setup, asset_step, asset_watch_owed, connector_step, destination_for_target, profile_status_after_creation, profile_step, AssetAction,
    AssetEvent, ConnectorAction, ConnectorEvent, DestinationKind, EndReason, ProfileAction, ProfileEvent,
    RegisteredSchema, SchemaOutcome, TaskEnd,
};
use azure_iot_operations_connector::connector_configuration::{
    connection_values, default_host, default_keep_alive_seconds, optional_env_value, parse_port, EnvLookup,
    Method, MqttAuthentication, MqttConnectionConfiguration, MqttTls, Mode, PortParseError, Protocol,
    ServiceAccountTokenSettings,
};
use azure_iot_operations_connector::destination_endpoint::{
    map_state_store_error, schema_id_user_data, state_store_key, state_store_set_result,
    uses_default_telemetry_sender, GraphStoreError, StateStoreFailure,
};
use azure_iot_operations_connector::graph_config::{
    graph_definition_is_valid, make_graph_config, modules_to_subscribe, BranchArm, ConnectionFrom, ConnectionTo,
    GraphConnection, GraphDefinition, GraphModule, OperationKind,
};
use azure_iot_operations_connector::source_endpoint::{RestSourceEndpoint, RestSourceEndpointFactory, SourceEndpointFactory};

fn config_with_host(host: &str) -> MqttConnectionConfiguration {
    MqttConnectionConfiguration {
        host: host.to_string(),
        keep_alive_seconds: 60,
        max_inflight_messages: 100,
        protocol: Protocol::Mqtt,
        authentication: MqttAuthentication {
            method: Method::ServiceAccountToken,
            service_account_token_settings: ServiceAccountTokenSettings { audience: "aio-internal".to_string() },
        },
        session_expiry_seconds: 3600,
        tls: Some(MqttTls { mode: Mode::Enabled, trusted_ca_certificate_config_map_ref: None }),
    }
}

fn schema(name: &str) -> DatasetsSchema {
    DatasetsSchema {
        name: name.to_string(),
        message_schema_reference: MessageSchemaReference {
            name: Some(format!("{name}-schema")),
            namespace: Some("ns".to_string()),
            version: Some("1.0.0".to_string()),
        },
    }
}

fn event_schema(name: &str) -> EventsSchema {
    EventsSchema {
        name: name.to_string(),
        message_schema_reference: MessageSchemaReference { name: None, namespace: None, version: None },
    }
}

fn names(v: &Option<Vec<DatasetsSchema>>) -> Vec<String> {
    v.as_ref().map(|v| v.iter().map(|d| d.name.clone()).collect()).unwrap_or_default()
}

fn profile(name: &str) -> AssetEndpointProfile {
    AssetEndpointProfile { name: name.to_string(), additional_configuration: vec![] }
}

fn asset(name: &str) -> AssetDefinition {
    AssetDefinition {
        name: name.to_string(),
        target: "Mqtt".to_string(),
        frequency: Duration::from_secs(5),
        datasets: vec![Dataset { name: "temperature".to_string() }],
        events: vec![Event { name: "alarm".to_string() }],
    }
}

fn module(name: &str, kind: OperationKind, m: Option<&str>) -> GraphModule {
    GraphModule { name: name.to_string(), operation_type: kind, module: m.map(|s| s.to_string()) }
}

fn connect(from: &str, arm: Option<BranchArm>, to: &str) -> GraphConnection {
    GraphConnection {
        from: ConnectionFrom { name: from.to_string(), arm },
        to: ConnectionTo { name: to.to_string() },
    }
}

// ----- configuration -----

#[test]
fn defaults() {
    assert_eq!(default_host(), "aio-broker:18883");
    assert_eq!(default_keep_alive_seconds(), 60);
}

#[test]
fn default_host_gives_broker_and_port() {
    let v = connection_values(&config_with_host(&default_host())).unwrap();
    assert_eq!(v.hostname, "aio-broker");
    assert_eq!(v.tcp_port, 18883);
    assert!(v.use_tls);
    assert_eq!(v.keep_alive_seconds, 60);
    assert_eq!(v.receive_max, 100);
    assert_eq!(v.session_expiry_seconds, 3600);
}

#[test]
fn host_without_port_is_malformed() {
    let e = connection_values(&config_with_host("localhost")).err().unwrap();
    assert_eq!(e, "BROKER_TARGET_ADDRESS is malformed. Expected format <hostname>:<port>. Found: localhost");
}

#[test]
fn host_with_bad_port_is_refused() {
    let e = connection_values(&config_with_host("localhost:70000")).err().unwrap();
    assert_eq!(e, "Cannot parse MQTT port from BROKER_TARGET_ADDRESS: number too large to fit in target type");
    let e = connection_values(&config_with_host("localhost:")).err().unwrap();
    assert_eq!(e, "Cannot parse MQTT port from BROKER_TARGET_ADDRESS: cannot parse integer from empty string");
    let e = connection_values(&config_with_host("a:b:1883")).err().unwrap();
    assert_eq!(e, "Cannot parse MQTT port from BROKER_TARGET_ADDRESS: invalid digit found in string");
}

#[test]
fn host_split_at_first_colon_without_tls() {
    let mut config = config_with_host("broker.example:1883");
    config.tls = None;
    let v = connection_values(&config).unwrap();
    assert_eq!(v.hostname, "broker.example");
    assert_eq!(v.tcp_port, 1883);
    assert!(!v.use_tls);
}

#[test]
fn port_reading_matches_u16_parsing() {
    for text in ["0", "65535", "+80", "080", "", "+", "65536", "12a", "-1", " 1", "99999999999"] {
        let expected = text.parse::<u16>();
        let got = parse_port(text);
        match (expected, got) {
            (Ok(a), Ok(b)) => assert_eq!(a, b, "{text}"),
            (Err(a), Err(b)) => assert_eq!(a.to_string(), b.message(), "{text}"),
            (a, b) => panic!("{text}: {a:?} against {b:?}"),
        }
    }
    assert_eq!(parse_port(""), Err(PortParseError::Empty));
    assert_eq!(parse_port("x"), Err(PortParseError::InvalidDigit));
    assert_eq!(parse_port("65536"), Err(PortParseError::PosOverflow));
}

#[test]
fn environment_values() {
    assert_eq!(optional_env_value(EnvLookup::Present("v".to_string())), Ok(Some("v".to_string())));
    assert_eq!(optional_env_value(EnvLookup::NotPresent), Ok(None));
    assert_eq!(
        optional_env_value(EnvLookup::NotUnicode),
        Err("Could not parse non-unicode environment variable".to_string())
    );
}

// ----- asset status -----

#[test]
fn dataset_schemas_are_added_and_removed() {
    let mut s = AssetStatus::initial();
    s.add_dataset_schema(schema("a"));
    s.add_dataset_schema(schema("b"));
    s.add_dataset_schema(schema("a"));
    assert_eq!(names(&s.datasets_schema), vec!["a", "b", "a"]);
    s.remove_dataset_schema("a".to_string());
    assert_eq!(names(&s.datasets_schema), vec!["b"]);
    s.remove_dataset_schema("a".to_string());
    assert_eq!(names(&s.datasets_schema), vec!["b"]);
    assert!(s.events_schema.is_none());
    assert!(s.errors.is_none());
    assert_eq!(s.version, Some(1));
}

#[test]
fn removing_what_was_just_added_restores_the_list() {
    let mut s = AssetStatus::initial();
    s.add_dataset_schema(schema("kept"));
    s.add_dataset_schema(schema("new"));
    s.remove_dataset_schema("new".to_string());
    assert_eq!(names(&s.datasets_schema), vec!["kept"]);
}

#[test]
fn removing_from_no_list_keeps_no_list() {
    let mut s = AssetStatus::initial();
    s.remove_dataset_schema("a".to_string());
    s.remove_events_schema("e".to_string());
    assert!(s.datasets_schema.is_none());
    assert!(s.events_schema.is_none());
}

#[test]
fn event_schemas_and_errors_are_added() {
    let mut s = AssetStatus::initial();
    s.add_events_schema(event_schema("e1"));
    s.add_events_schema(event_schema("e2"));
    s.remove_events_schema("e1".to_string());
    let events: Vec<String> = s.events_schema.as_ref().unwrap().iter().map(|e| e.name.clone()).collect();
    assert_eq!(events, vec!["e2"]);
    s.add_error(ADRError { code: 7, message: "boom".to_string() });
    let errors = s.errors.as_ref().unwrap();
    assert_eq!(errors.len(), 1);
    assert_eq!(errors[0].code, 7);
    assert_eq!(errors[0].message, "boom");
}

#[test]
fn destination_not_found_status() {
    let s = AssetStatus::destination_not_found();
    let errors = s.errors.unwrap();
    assert_eq!(errors.len(), 1);
    assert_eq!(errors[0].code, 1);
    assert_eq!(errors[0].message, "Destination endpoint not found");
    assert_eq!(s.version, Some(1));
}

#[test]
fn schema_outcomes_are_recorded() {
    let mut s = AssetStatus::initial();
    let uri = s.record_dataset_schema(
        "temperature".to_string(),
        SchemaOutcome::Registered(RegisteredSchema {
            name: Some("n".to_string()),
            namespace: Some("ns".to_string()),
            version: Some("1".to_string()),
            hash: Some("h".to_string()),
        }),
    );
    assert_eq!(uri, Some("h".to_string()));
    let d = &s.datasets_schema.as_ref().unwrap()[0];
    assert_eq!(d.name, "temperature");
    assert_eq!(d.message_schema_reference.name, Some("n".to_string()));
    assert_eq!(d.message_schema_reference.namespace, Some("ns".to_string()));
    assert_eq!(d.message_schema_reference.version, Some("1".to_string()));

    let uri = s.record_event_schema("alarm".to_string(), SchemaOutcome::Rejected("bad schema".to_string()));
    assert_eq!(uri, None);
    assert_eq!(s.errors.as_ref().unwrap()[0].message, "bad schema");
    assert!(s.events_schema.is_none());

    let uri = s.record_event_schema("alarm".to_string(), SchemaOutcome::NotProvided);
    assert_eq!(uri, None);
    let uri = s.record_dataset_schema("x".to_string(), SchemaOutcome::Unavailable);
    assert_eq!(uri, None);
    assert_eq!(s.datasets_schema.as_ref().unwrap().len(), 1);
    assert_eq!(s.errors.as_ref().unwrap().len(), 1);

    s.record_setup_error("no forwarder".to_string());
    assert_eq!(s.errors.as_ref().unwrap()[1].message, "no forwarder");
    assert_eq!(s.errors.as_ref().unwrap()[1].code, 1);
}

#[test]
fn profile_status_reports_creation_error() {
    assert!(profile_status_after_creation(None).is_none());
    let status = profile_status_after_creation(Some("unsupported".to_string())).unwrap();
    assert_eq!(status.errors.len(), 1);
    assert_eq!(status.errors[0].code, 1);
    assert_eq!(status.errors[0].message, "unsupported");
}

#[test]
fn registry_client_is_stateless() {
    let _client = ADRClient::new();
    let _default = ADRClient::default();
}

#[test]
fn default_rest_factory_creates_endpoints() {
    let factory = RestSourceEndpointFactory::default();
    let endpoint = factory.create_asset_endpoint_profile_source_endpoint(profile("dflt")).unwrap();
    assert_eq!(endpoint.aep().name, "dflt");
}

// ----- supervision steps -----

#[test]
fn connector_steps() {
    assert!(matches!(
        connector_step(ConnectorEvent::ProfileCreated(Some(profile("p")))),
        ConnectorAction::StartProfile(p) if p.name == "p"
    ));
    assert!(matches!(connector_step(ConnectorEvent::ProfileCreated(None)), ConnectorAction::Shutdown));
    assert!(matches!(
        connector_step(ConnectorEvent::ProfileTaskEnded(Some(TaskEnd::Returned(EndReason::Updated(profile("q")))))),
        ConnectorAction::StartProfile(p) if p.name == "q"
    ));
    assert!(matches!(
        connector_step(ConnectorEvent::ProfileTaskEnded(Some(TaskEnd::Aborted))),
        ConnectorAction::LogTaskFailure
    ));
    assert!(matches!(connector_step(ConnectorEvent::ProfileTaskEnded(None)), ConnectorAction::Wait));
}

#[test]
fn profile_steps() {
    assert!(matches!(profile_step(ProfileEvent::Cancelled), ProfileAction::End(EndReason::Finished)));
    assert!(matches!(
        profile_step(ProfileEvent::AssetCreated(Some(asset("a")))),
        ProfileAction::StartAsset(d) if d.name == "a"
    ));
    assert!(matches!(profile_step(ProfileEvent::AssetCreated(None)), ProfileAction::End(EndReason::Error)));
    assert!(matches!(
        profile_step(ProfileEvent::ProfileDeleted(true)),
        ProfileAction::CancelAndEnd(EndReason::Deleted)
    ));
    assert!(matches!(profile_step(ProfileEvent::ProfileDeleted(false)), ProfileAction::End(EndReason::Error)));
    assert!(matches!(
        profile_step(ProfileEvent::ProfileUpdated(Some(profile("p2")))),
        ProfileAction::CancelAndEnd(EndReason::Updated(p)) if p.name == "p2"
    ));
    assert!(matches!(profile_step(ProfileEvent::ProfileUpdated(None)), ProfileAction::End(EndReason::Error)));
    assert!(matches!(
        profile_step(ProfileEvent::AssetTaskEnded(Some(TaskEnd::Returned(EndReason::Updated(asset("b")))))),
        ProfileAction::StartAsset(d) if d.name == "b"
    ));
    assert!(matches!(
        profile_step(ProfileEvent::AssetTaskEnded(Some(TaskEnd::Aborted))),
        ProfileAction::LogTaskFailure
    ));
    assert!(matches!(profile_step(ProfileEvent::AssetTaskEnded(None)), ProfileAction::Wait));
}

#[test]
fn asset_steps() {
    assert!(matches!(asset_step(AssetEvent::ForwardingEnded(Some(true))), AssetAction::LogEnded));
    assert!(matches!(asset_step(AssetEvent::ForwardingEnded(Some(false))), AssetAction::LogFailure));
    assert!(matches!(asset_step(AssetEvent::ForwardingEnded(None)), AssetAction::End(EndReason::Finished)));
    assert!(matches!(asset_step(AssetEvent::AssetDeleted(true)), AssetAction::CancelAndEnd(EndReason::Deleted)));
    assert!(matches!(asset_step(AssetEvent::AssetDeleted(false)), AssetAction::End(EndReason::Error)));
    assert!(matches!(
        asset_step(AssetEvent::AssetUpdated(Some(asset("c")))),
        AssetAction::CancelAndEnd(EndReason::Updated(d)) if d.name == "c"
    ));
    assert!(matches!(asset_step(AssetEvent::AssetUpdated(None)), AssetAction::End(EndReason::Error)));
}

// ----- destinations -----

#[test]
fn destinations_by_target() {
    assert_eq!(destination_for_target("Mqtt"), Some(DestinationKind::MqttTelemetry));
    assert_eq!(destination_for_target("Dss"), Some(DestinationKind::StateStore));
    assert_eq!(destination_for_target("mqtt"), None);
    assert_eq!(destination_for_target(""), None);
}

#[test]
fn state_store_forwarding() {
    assert_eq!(state_store_key(&"dataset".to_string(), &"asset".to_string()), "dataset");
    assert_eq!(state_store_key(&String::new(), &"asset".to_string()), "asset");
    assert_eq!(state_store_set_result(true), Ok(()));
    assert_eq!(state_store_set_result(false), Err("Failed to set value".to_string()));
    assert_eq!(
        map_state_store_error(StateStoreFailure::Service("denied".to_string())),
        GraphStoreError::RequestError("denied".to_string())
    );
    assert_eq!(map_state_store_error(StateStoreFailure::Timeout), GraphStoreError::Timeout);
    assert_eq!(map_state_store_error(StateStoreFailure::Protocol), GraphStoreError::Protocol);
    assert_eq!(map_state_store_error(StateStoreFailure::Other), GraphStoreError::Internal);
}

#[test]
fn telemetry_forwarding() {
    assert!(uses_default_telemetry_sender("asset_definition.default_topic.path"));
    assert!(!uses_default_telemetry_sender("temperature"));
    assert_eq!(schema_id_user_data(&Some("hash".to_string())), ("schemaId".to_string(), "hash".to_string()));
    assert_eq!(schema_id_user_data(&None), ("schemaId".to_string(), String::new()));
}

// ----- source endpoints -----

#[test]
fn rest_source_endpoints_serve_their_profile() {
    let factory = RestSourceEndpointFactory::new();
    let endpoint = factory.create_asset_endpoint_profile_source_endpoint(profile("rest")).unwrap();
    assert_eq!(endpoint.aep().name, "rest");
    let direct = RestSourceEndpoint::new(profile("direct"));
    assert_eq!(direct.aep().name, "direct");
}

// ----- graph layout -----

fn sample_graph() -> GraphDefinition {
    GraphDefinition {
        operations: vec![
            module("source", OperationKind::Source, None),
            module("map", OperationKind::Mapper, Some("mapper:1.0")),
            module("branch", OperationKind::Branch, Some("brancher")),
            module("sink", OperationKind::Sink, None),
        ],
        connections: vec![
            connect("source", None, "map"),
            connect("map", None, "branch"),
            connect("branch", Some(BranchArm::True), "sink"),
            connect("branch", Some(BranchArm::False), "sink"),
        ],
    }
}

#[test]
fn graph_layout() {
    let g = sample_graph();
    assert!(graph_definition_is_valid(&g));
    let layout = make_graph_config(g);
    assert_eq!(layout.module_names.get("map").map(|s| s.as_str()), Some("mapper:1.0"));
    assert_eq!(layout.module_names.get("branch").map(|s| s.as_str()), Some("brancher"));
    assert!(layout.module_names.get("source").is_none());
    assert!(layout.module_names.get("sink").is_none());
    let nodes: Vec<(String, OperationKind)> = layout.nodes.iter().map(|n| (n.id.clone(), n.operator)).collect();
    assert_eq!(
        nodes,
        vec![
            ("branch".to_string(), OperationKind::Branch),
            ("map".to_string(), OperationKind::Mapper),
            ("sink".to_string(), OperationKind::Sink),
            ("source".to_string(), OperationKind::Source),
        ]
    );
    let pins: Vec<(String, usize, String, usize)> = layout
        .connections
        .iter()
        .map(|c| (c.from_id.clone(), c.output_pin, c.to_id.clone(), c.input_pin))
        .collect();
    assert_eq!(
        pins,
        vec![
            ("source".to_string(), 0, "map".to_string(), 0),
            ("map".to_string(), 0, "branch".to_string(), 0),
            ("branch".to_string(), 1, "sink".to_string(), 0),
            ("branch".to_string(), 0, "sink".to_string(), 0),
        ]
    );
}

#[test]
fn invalid_graphs_are_detected() {
    let mut g = sample_graph();
    g.connections.push(connect("sink", None, "map"));
    assert!(!graph_definition_is_valid(&g));
    let mut g = sample_graph();
    g.connections.push(connect("map", None, "source"));
    assert!(!graph_definition_is_valid(&g));
    let mut g = sample_graph();
    g.connections.push(connect("map", None, "missing"));
    assert!(!graph_definition_is_valid(&g));
    let mut g = sample_graph();
    g.operations.push(module("filter", OperationKind::Filter, None));
    g.connections.push(connect("map", None, "filter"));
    assert!(!graph_definition_is_valid(&g));
}

#[test]
fn modules_are_subscribed_by_name() {
    let subs = modules_to_subscribe(&sample_graph());
    assert_eq!(subs, vec!["mapper".to_string(), "brancher".to_string()]);
}

// ----- acknowledgement metadata -----

#[test]
fn metadata_gathers_senders_in_order() {
    let mut m = Metadata::new(1u32);
    m.extend(Metadata::new(2u32));
    let mut other = Metadata::new(3u32);
    other.extend(Metadata::new(4u32));
    m.extend(other);
    assert_eq!(m.senders(), &vec![1, 2, 3, 4]);
}

#[test]
fn written_ports_read_back() {
    for port in [0u16, 7, 10, 99, 1883, 8883, 18883, 65535] {
        assert_eq!(parse_port(&port.to_string()), Ok(port));
        let v = connection_values(&config_with_host(&format!("broker-{port}:{port}"))).unwrap();
        assert_eq!(v.hostname, format!("broker-{port}"));
        assert_eq!(v.tcp_port, port);
    }
}

#[test]
fn graph_nodes_come_in_the_order_of_their_ids() {
    let g = GraphDefinition {
        operations: vec![
            module("zeta", OperationKind::Source, None),
            module("alpha", OperationKind::Filter, Some("f")),
            module("Beta", OperationKind::Sink, None),
        ],
        connections: vec![connect("zeta", None, "alpha"), connect("alpha", None, "Beta")],
    };
    let layout = make_graph_config(g);
    let ids: Vec<String> = layout.nodes.iter().map(|n| n.id.clone()).collect();
    assert_eq!(ids, vec!["Beta", "alpha", "zeta"]);
}

fn registered(hash: &str) -> SchemaOutcome {
    SchemaOutcome::Registered(RegisteredSchema {
        name: Some(format!("{hash}-name")),
        namespace: None,
        version: Some("1".to_string()),
        hash: Some(hash.to_string()),
    })
}

#[test]
fn asset_status_after_setup_folds_datasets_then_events() {
    let s = asset_status_after_setup(
        true,
        Ok(()),
        vec![
            ("d1".to_string(), registered("h1"), Ok(())),
            ("d2".to_string(), SchemaOutcome::Rejected("bad d2".to_string()), Err("no forwarder d2".to_string())),
            ("d3".to_string(), SchemaOutcome::NotProvided, Ok(())),
            ("d4".to_string(), registered("h4"), Err("no forwarder d4".to_string())),
        ],
        vec![
            ("e1".to_string(), SchemaOutcome::Unavailable, Err("no forwarder e1".to_string())),
            ("e2".to_string(), registered("h2"), Ok(())),
        ],
    );
    assert_eq!(s.version, Some(1));
    assert_eq!(names(&s.datasets_schema), vec!["d1", "d4"]);
    let events: Vec<String> = s.events_schema.as_ref().unwrap().iter().map(|e| e.name.clone()).collect();
    assert_eq!(events, vec!["e2"]);
    let errors: Vec<(u16, String)> = s.errors.unwrap().into_iter().map(|e| (e.code, e.message)).collect();
    assert_eq!(
        errors,
        vec![
            (1, "bad d2".to_string()),
            (1, "no forwarder d2".to_string()),
            (1, "no forwarder d4".to_string()),
            (1, "no forwarder e1".to_string()),
        ]
    );
}

#[test]
fn asset_status_after_setup_without_destination_or_factory() {
    let s = asset_status_after_setup(false, Ok(()), vec![("d".to_string(), registered("h"), Ok(()))], vec![]);
    assert!(s.datasets_schema.is_none());
    let errors = s.errors.unwrap();
    assert_eq!(errors.len(), 1);
    assert_eq!(errors[0].message, "Destination endpoint not found");
    let s = asset_status_after_setup(true, Err("no factory".to_string()), vec![], vec![]);
    assert!(s.datasets_schema.is_none() && s.events_schema.is_none());
    assert_eq!(s.errors.unwrap()[0].message, "no factory");
    let s = asset_status_after_setup(true, Ok(()), vec![], vec![]);
    assert!(s.datasets_schema.is_none() && s.events_schema.is_none() && s.errors.is_none());
    assert_eq!(s.version, Some(1));
}

#[test]
fn an_asset_is_watched_only_where_forwarding_started() {
    assert!(!asset_watch_owed(0));
    assert!(asset_watch_owed(1));
    assert!(asset_watch_owed(3));
}

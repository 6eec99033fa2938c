# azure_iot_operations_connector

Topic handling and asset bookkeeping for Azure IoT Operations connectors, written in Verus:
each function carries a `requires`/`ensures` contract that Verus proves.

## Layout

- `src/` — the verified library.
  - `topic_processor.rs`, `topic_grammar.rs`, `topic_regex.rs`, `topic_laws.rs`,
    `publish_laws.rs`: topic patterns (validation, token replacement, subscribe and publish
    topics, parsing token values back out of a topic), the grammar they are stated over, the
    calls into the `regex` crate, and the laws proved of them: a published topic parses back
    to the values it was made from, holds no invalid character, and matches the subscribe
    topic of its pattern.
  - `token_map.rs`: the map from token names to values that topic patterns use.
  - `connector_configuration.rs`: the mounted connection configuration and the MQTT
    connection values derived from it (host name and port, TLS, keep-alive, limits).
  - `adr_client.rs`: the registry records and the status reported for an asset.
  - `base_connector.rs`: what the connector decides — the status it reports, where an
    asset's data goes, and one step of each supervision loop, from event to action.
  - `destination_endpoint.rs`, `source_endpoint.rs`: the decisions of the destination and
    source endpoints.
  - `graph_config.rs`, `ack_metadata.rs`: the layout of a data transformation graph and the
    acknowledgement senders that travel with its messages.
  - `text.rs`: character and byte helpers on string slices.
- `tests/`: the library on concrete values.
- `app/`: what cannot be verified — reading the environment and the mounted files, serde and
  thiserror on copies of the library's types, `HashMap` adapters for topic patterns, and the
  supervision loops, run on tokio, that hand each event to the library's step functions.

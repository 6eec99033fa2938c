//! Topic handling and asset bookkeeping for Azure IoT Operations connectors.

pub mod ack_metadata;
pub mod adr_client;
pub mod base_connector;
pub mod connector_configuration;
pub mod destination_endpoint;
pub mod graph_config;
pub mod publish_laws;
pub mod source_endpoint;
pub mod text;
pub mod token_map;
pub mod topic_grammar;
pub mod topic_laws;
pub mod topic_processor;
pub mod topic_regex;

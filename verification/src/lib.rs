//! Robot management service: catalog, discovery, edge heartbeats, control leases and the
//! bounded import of recordings, as verified functions over plain values.

pub mod advertisement;
pub mod api;
pub mod approval;
pub mod bytes;
pub mod catalog;
pub mod control;
pub mod conversion;
pub mod crypto;
pub mod csv_import;
pub mod csv_rows;
pub mod discovery;
pub mod discovery_flow;
pub mod discovery_rules;
pub mod domain;
pub mod edge_advertisement;
pub mod edge_agents;
pub mod edge_topics;
pub mod encoding;
pub mod hashing;
pub mod heartbeat;
pub mod import;
pub mod imports;
pub mod inventory;
pub mod mcap_limits;
pub mod mdns;
pub mod names;
pub mod order;
pub mod projects;
pub mod providers;
pub mod rosbag;
pub mod rrd_manifest;
pub mod rrd_places;
pub mod rrd_verify;
pub mod rrd_wire;
pub mod scanning;
pub mod search;
pub mod security;
pub mod sessions;
pub mod spans;
pub mod ssdp;
pub mod storage;
pub mod table;
pub mod text;
pub mod time;
pub mod tools;
pub mod topics;
pub mod uploads;
pub mod web_viewer;
pub mod ws_discovery;

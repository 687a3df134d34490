//! Properties that PipeWire announces for graph objects, as plain text.
//!
//! The runtime copies the properties that the model reads out of each
//! registry announcement into these records; the model never sees the
//! PipeWire dictionaries themselves.
use vstd::prelude::*;

verus! {

/// The properties of a node that the model reads.
#[derive(Debug, Clone, Default)]
pub struct NodeProperties {
    /// `object.serial`
    pub serial: Option<String>,
    /// `node.name`
    pub name: Option<String>,
    /// `node.description`
    pub description: Option<String>,
    /// `media.name`
    pub media_name: Option<String>,
    /// `media.class`
    pub media_class: Option<String>,
    /// `node.virtual`
    pub virtual_node: Option<String>,
    /// `client.id`
    pub client_id: Option<String>,
    /// `device.id`
    pub device_id: Option<String>,
    /// `application.id`
    pub application_id: Option<String>,
    /// `application.name`
    pub application_name: Option<String>,
    /// `port.direction`
    pub port_direction: Option<String>,
}

/// The properties of a port that the model reads.
#[derive(Debug, Clone, Default)]
pub struct PortProperties {
    /// `port.id`
    pub port_id: Option<String>,
    /// `node.id`
    pub node_id: Option<String>,
    /// `port.direction`
    pub direction: Option<String>,
    /// `audio.channel`
    pub channel: Option<String>,
    /// `port.monitor`
    pub monitor: Option<String>,
}

} // verus!

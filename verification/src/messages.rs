//! Messages that the PipeWire thread sends to the user interface.

use crate::types::{Direction, MediaType, NodeType};
use vstd::prelude::*;

verus! {

/// What the PipeWire thread reports about the graph and the connection.
///
/// Volume reports carry a floating-point level and travel outside this type.
#[derive(Debug, PartialEq)]
pub enum PipewireMessage {
    NodeAdded { id: u32, name: String, node_type: Option<NodeType> },
    NodeNameChanged { id: u32, name: String, media_name: String },
    NodeRemoved { id: u32 },
    PortAdded { id: u32, node_id: u32, name: String, direction: Direction },
    PortFormatChanged { id: u32, media_type: MediaType },
    PortRemoved { id: u32, node_id: u32 },
    LinkAdded { id: u32, port_from: u32, port_to: u32, active: bool, media_type: MediaType },
    LinkStateChanged { id: u32, active: bool },
    LinkFormatChanged { id: u32, media_type: MediaType },
    LinkRemoved { id: u32 },
    MuteChanged { node_id: u32, muted: bool },
    Connecting,
    Connected,
    Disconnected,
}

} // verus!

//! Edge Node + Device lifecycle: the state, configuration and payload SPI of
//! the Edge Node engine.
use vstd::prelude::*;

use crate::error::SparkplugError;
use crate::model::Payload;

verus! {

/// Edge Node lifecycle state.
#[derive(Clone, Copy, Debug, PartialEq, Eq, Structural)]
pub enum EdgeState {
    /// Not connected to any MQTT server.
    Disconnected,
    /// MQTT connect in progress.
    Connecting,
    /// Connected; waiting for the configured primary host's online STATE before birthing.
    WaitingForPrimaryHost,
    /// Births published; publishing data by exception.
    Online,
}

/// Configuration for an Edge Node.
#[derive(Debug)]
pub struct EdgeNodeConfig {
    /// Group ID.
    pub group_id: String,
    /// Edge Node ID.
    pub edge_node_id: String,
    /// Optional primary Host Application ID to gate online/offline on.
    pub primary_host_id: Option<String>,
    /// Whether to assign and use metric aliases on DATA messages.
    pub use_aliases: bool,
    /// Debounce window collapsing a storm of rebirth requests into one.
    pub rebirth_debounce: std::time::Duration,
}

impl Clone for EdgeNodeConfig {
    fn clone(&self) -> (c: Self)
        ensures
            c.group_id@ == self.group_id@,
            c.edge_node_id@ == self.edge_node_id@,
            c.use_aliases == self.use_aliases,
            c.rebirth_debounce == self.rebirth_debounce,
            match (c.primary_host_id, self.primary_host_id) {
                (Some(a), Some(b)) => a@ == b@,
                (None, None) => true,
                _ => false,
            },
    {
        EdgeNodeConfig {
            group_id: self.group_id.clone(),
            edge_node_id: self.edge_node_id.clone(),
            primary_host_id: match &self.primary_host_id {
                Some(h) => Some(h.clone()),
                None => None,
            },
            use_aliases: self.use_aliases,
            rebirth_debounce: self.rebirth_debounce,
        }
    }
}

/// The SPI the Edge Node engine calls into for payloads and writes.
pub trait MetricHandler {
    /// Build the NDEATH payload (a single `bdSeq` metric) to register as the
    /// MQTT will.
    fn death_payload(&self) -> Result<Payload, SparkplugError>;

    /// Publish the full birth sequence: NBIRTH (seq=0, bdSeq, `Node Control/Rebirth`)
    /// then each Device's DBIRTH.
    fn publish_birth_sequence(&mut self) -> Result<(), SparkplugError>;

    /// Whether `name` is a metric this Edge Node (or one of its Devices) reports.
    fn has_metric(&self, name: &str) -> bool;
}

} // verus!

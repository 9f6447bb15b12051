//! Host Application + Primary Host: the configuration and the events the Host
//! Application surfaces to its consumer.
use vstd::prelude::*;

use crate::model::Metric;
use crate::state::StatePayload;
use crate::topic::SparkplugTopic;

verus! {

/// Configuration for a Host Application.
#[derive(Clone, Debug)]
pub struct HostConfig {
    /// The Host Application ID (its STATE topic is `spBv1.0/STATE/<host_id>`).
    pub host_id: String,
    /// The Sparkplug data-namespace subscriptions to make (e.g. `spBv1.0/#`).
    pub group_subscriptions: Vec<String>,
}

/// An event surfaced by the Host Application to its consumer (delivered over a
/// channel rather than through a callback interface).
#[derive(Debug)]
pub enum HostEvent {
    /// An Edge Node birth was received and processed.
    NodeBirth {
        /// The NBIRTH topic.
        topic: SparkplugTopic,
    },
    /// An Edge Node data metric update.
    NodeData {
        /// The NDATA topic.
        topic: SparkplugTopic,
        /// The (alias-resolved) metric.
        metric: Metric,
    },
    /// An Edge Node death (all its metrics become stale).
    NodeDeath {
        /// The NDEATH topic.
        topic: SparkplugTopic,
    },
    /// A Device birth.
    DeviceBirth {
        /// The DBIRTH topic.
        topic: SparkplugTopic,
    },
    /// A Device data metric update.
    DeviceData {
        /// The DDATA topic.
        topic: SparkplugTopic,
        /// The (alias-resolved) metric.
        metric: Metric,
    },
    /// A Device death.
    DeviceDeath {
        /// The DDEATH topic.
        topic: SparkplugTopic,
    },
    /// A metric was marked stale (after a death).
    Stale {
        /// The owning entity's topic.
        topic: SparkplugTopic,
    },
    /// A primary-host STATE change observed on `spBv1.0/STATE/<host_id>`.
    PrimaryHostState(StatePayload),
}

} // verus!

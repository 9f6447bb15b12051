//! Eclipse Sparkplug B 3.0.0: the payload model and its protobuf (proto2) codec,
//! the topic namespace, the `seq`/`bdSeq` counters, the alias registry, the
//! Host Application STATE payload and the compression envelope.
//!
//! The codec is specified by spec functions over a mathematical model of the
//! payload (see [`model`], [`codec::fields`] and [`codec::parse`]);
//! `decode(encode(p)) == p` is proved for every well-formed payload
//! ([`codec::roundtrip`]). Topics, STATE payloads and compression envelopes are
//! likewise proved to read back what was written.
use vstd::prelude::*;

pub mod alias;
pub mod codec;
pub mod compress;
pub mod datatype;
pub mod edge;
pub mod error;
pub mod host;
pub mod model;
pub mod sequence;
pub mod state;
pub mod text;
pub mod topic;
pub mod transport;
pub mod util;
pub mod value;

pub use alias::{AliasRegistry, MetricKey};
pub use codec::{decode, encode, EncodeOptions};
pub use compress::Compression;
pub use datatype::DataType;
pub use edge::{EdgeNodeConfig, EdgeState, MetricHandler};
pub use error::SparkplugError;
pub use host::{HostConfig, HostEvent};
pub use model::{
    DataSet, MetaData, Metric, Parameter, Payload, PropertySet, PropertySetList, Template,
};
pub use sequence::{BdSeq, BdSeqStore, InMemoryBdSeqStore, SeqCounter};
pub use state::StatePayload;
pub use topic::{DeviceId, EdgeNodeId, GroupId, MessageType, SparkplugTopic};
pub use transport::{ConnectOptions, IncomingMessage, OutboundMessage, Qos, TlsConfig};
pub use value::{DataSetValue, MetricValue, ParameterValue, PropertyValue};

verus! {

/// The Sparkplug B topic namespace (`spBv1.0`).
pub const SPARKPLUG_B_NAMESPACE: &'static str = "spBv1.0";

/// The Edge Node control metric that requests a rebirth.
pub const NODE_CONTROL_REBIRTH: &'static str = "Node Control/Rebirth";

/// The name of the birth/death sequence metric.
pub const BDSEQ_METRIC_NAME: &'static str = "bdSeq";

/// The `uuid` that marks a compression envelope.
pub const COMPRESSED_PAYLOAD_UUID: &'static str = "SPBV1.0_COMPRESSED";

} // verus!

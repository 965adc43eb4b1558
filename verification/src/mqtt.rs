//! Configuration for the external telemetry sink and the publish policy.
//!
//! Publishing itself is an outside capability: the core only decides, per
//! decoded record, whether the sink should receive it.

use crate::dataprocessor::{GrowattData, RecordView};
use vstd::prelude::*;

verus! {

/// Address and port of the telemetry sink.
#[derive(Clone)]
pub struct MqttConfig {
    pub server: String,
    pub port: u16,
}

/// A record is handed to the sink only when a sink is configured and the
/// record is non-empty and not an offline-buffered report.
pub open spec fn spec_should_publish(record: RecordView, has_sink: bool) -> bool {
    &&& has_sink
    &&& record.fields.len() > 0
    &&& record.header[7] != 0x50
}

/// Decides whether a decoded record is forwarded to the sink.
pub fn should_publish(data: &GrowattData, has_sink: bool) -> (b: bool)
    ensures
        b == spec_should_publish(data@, has_sink),
{
    has_sink && data.has_data() && !data.is_buffered()
}

} // verus!

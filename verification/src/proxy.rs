//! The relay engine's per-chunk decisions.
//!
//! The relay forwards bytes between an inverter and its cloud endpoint.
//! For each inbound chunk it decides what to forward (always the original
//! bytes, unchanged) and whether a decoded record is handed to the sink.
//! The socket loop itself is an outside concern; these functions are the
//! decisions it executes, and their contracts guarantee that decoding can
//! never alter, drop or reorder the forwarded byte stream.

use crate::dataprocessor::{auto_model, GrowattData, RecordView};
use crate::mqtt::{should_publish, spec_should_publish, MqttConfig};
use vstd::prelude::*;

verus! {

/// Chunks of at most this many bytes are control or ACK traffic and are not
/// decode candidates.
pub const DECODE_THRESHOLD: usize = 128;

/// Configuration of a relay instance.
pub struct GrowattProxyConfig {
    pub listen_address: String,
    pub growatt_address: String,
    pub mqtt_address: Option<String>,
    pub mqtt_port: u16,
}

/// A relay instance: where to listen, where to forward, and an optional
/// sink for decoded records.
pub struct GrowattProxy {
    pub address: String,
    pub growatt_address: String,
    pub mqtt_config: Option<MqttConfig>,
}

impl GrowattProxy {
    /// Builds a relay instance from its configuration.
    pub fn new(cfg: GrowattProxyConfig) -> (r: GrowattProxy)
        ensures
            r.address@ == cfg.listen_address@,
            r.growatt_address@ == cfg.growatt_address@,
            r.mqtt_config is Some <==> cfg.mqtt_address is Some,
            r.mqtt_config matches Some(m) ==> m.server@ == cfg.mqtt_address->0@ && m.port
                == cfg.mqtt_port,
    {
        let mqtt_config = match cfg.mqtt_address {
            Some(addr) => Some(MqttConfig { server: addr, port: cfg.mqtt_port }),
            None => None,
        };
        GrowattProxy { address: cfg.listen_address, growatt_address: cfg.growatt_address, mqtt_config }
    }
}

/// What the relay does with one inbound chunk: the bytes to forward to the
/// cloud (always the original chunk) and a decoded record for the sink, if
/// one is owed.
pub struct ChunkOutcome {
    pub forward: Vec<u8>,
    pub publish: Option<GrowattData>,
}

/// The record owed to the sink for one inbound chunk: only chunks above the
/// decode threshold are decode candidates, and only a successfully decoded,
/// non-empty, non-buffered record is published.
pub open spec fn publish_of_chunk(chunk: Seq<u8>, publish_enabled: bool, now: int) -> Option<
    RecordView,
> {
    if chunk.len() > DECODE_THRESHOLD && publish_enabled {
        match auto_model(chunk, now) {
            Ok(rec) => {
                if spec_should_publish(rec, true) {
                    Some(rec)
                } else {
                    None
                }
            },
            Err(_) => None,
        }
    } else {
        None
    }
}

/// Byte-for-byte copy of a buffer.
fn clone_bytes(v: &Vec<u8>) -> (r: Vec<u8>)
    ensures
        r@ == v@,
{
    let n = v.len();
    let mut r: Vec<u8> = Vec::new();
    let mut i: usize = 0;
    while i < n
        invariant
            i <= n,
            n == v@.len(),
            r@ == v@.subrange(0, i as int),
        decreases n - i,
    {
        r.push(v[i]);
        proof {
            assert(r@ =~= v@.subrange(0, i + 1));
        }
        i = i + 1;
    }
    proof {
        assert(r@ =~= v@);
    }
    r
}

/// Handles one chunk read from the device: decodes a private copy when the
/// chunk is a decode candidate, and always forwards the original bytes.
///
/// The forwarded bytes equal the inbound bytes whatever the decode outcome,
/// so decoding can never corrupt the relayed stream.
pub fn process_device_chunk(chunk: &Vec<u8>, publish_enabled: bool, now: i64) -> (out: ChunkOutcome)
    ensures
        out.forward@ == chunk@,
        match out.publish {
            Some(gd) => publish_of_chunk(chunk@, publish_enabled, now as int) == Some(gd@),
            None => publish_of_chunk(chunk@, publish_enabled, now as int) is None,
        },
{
    let mut publish: Option<GrowattData> = None;
    if chunk.len() > DECODE_THRESHOLD && publish_enabled {
        let mut copy = clone_bytes(chunk);
        match GrowattData::extract_auto_at(&mut copy, now) {
            Ok(data) => {
                if should_publish(&data, true) {
                    publish = Some(data);
                }
            },
            Err(_) => {},
        }
    }
    ChunkOutcome { forward: clone_bytes(chunk), publish }
}

/// Handles one chunk read from the cloud: it is returned verbatim for the
/// device.
pub fn process_cloud_chunk(chunk: &Vec<u8>) -> (out: Vec<u8>)
    ensures
        out@ == chunk@,
{
    clone_bytes(chunk)
}

/// A record decoded from a valid no-telemetry frame is never handed to the
/// sink.
pub proof fn lemma_no_telemetry_never_published(chunk: Seq<u8>, publish_enabled: bool, now: int)
    requires
        chunk.len() >= 12,
        crate::codec::frame_valid(chunk),
        crate::dataprocessor::no_telemetry_tag(crate::dataprocessor::tag_of(chunk.subrange(0, 8))),
    ensures
        publish_of_chunk(chunk, publish_enabled, now) is None,
{
    crate::dataprocessor::lemma_no_telemetry_empty_record(chunk, now);
}

/// The byte stream carried by a sequence of chunks, in order.
pub open spec fn stream_bytes(chunks: Seq<Seq<u8>>) -> Seq<u8>
    decreases chunks.len(),
{
    if chunks.len() == 0 {
        Seq::empty()
    } else {
        stream_bytes(chunks.drop_last()) + chunks.last()
    }
}

/// Full passthrough: with an upstream that echoes every forwarded chunk,
/// any sequence of chunks written by the device comes back byte-identical
/// and in order, independent of the decode outcome of any chunk.
///
/// The premises are exactly what [`process_device_chunk`] and
/// [`process_cloud_chunk`] guarantee for each chunk, and what an echoing
/// upstream guarantees for its replies.
pub proof fn lemma_echo_round_trip(
    chunks: Seq<Seq<u8>>,
    forwards: Seq<Seq<u8>>,
    replies: Seq<Seq<u8>>,
    returned: Seq<Seq<u8>>,
)
    requires
        forwards.len() == chunks.len(),
        forall|i: int| 0 <= i < chunks.len() ==> forwards[i] == chunks[i],
        replies == forwards,
        returned.len() == replies.len(),
        forall|i: int| 0 <= i < replies.len() ==> returned[i] == replies[i],
    ensures
        returned == chunks,
        stream_bytes(returned) == stream_bytes(chunks),
{
    assert(returned =~= chunks);
}

} // verus!

//! Decoding of raw captured link-layer frames.
//!
//! A capture source yields raw link-layer packets whose payload starts at
//! one of two known header offsets, depending on the link layer in use.
//! Both offsets are tried in order; the capture loop itself is an outside
//! concern.

use crate::dataprocessor::{auto_model, GrowattData, RecordView};
use crate::mqtt::MqttConfig;
use vstd::prelude::*;

verus! {

/// First link-layer header offset tried on a captured packet.
pub const CAPTURE_OFFSET_A: usize = 56;

/// Second link-layer header offset tried on a captured packet.
pub const CAPTURE_OFFSET_B: usize = 68;

/// Configuration of the capture mode.
pub struct GrowattSnifferConfig {
    pub address: String,
    pub port: u16,
    pub mqtt: Option<MqttConfig>,
    pub dump_packets: bool,
}

/// What decoding a captured packet yields: the record decoded after
/// stripping the first link-layer offset that works, with that offset,
/// or nothing when neither offset yields a record.
pub open spec fn capture_model(packet: Seq<u8>, now: int) -> Option<(RecordView, int)> {
    if auto_model(packet.skip(56), now) is Ok {
        Some((auto_model(packet.skip(56), now)->Ok_0, 56))
    } else if auto_model(packet.skip(68), now) is Ok {
        Some((auto_model(packet.skip(68), now)->Ok_0, 68))
    } else {
        None
    }
}

/// Copy of a buffer from the given position to its end.
fn copy_tail(v: &Vec<u8>, from: usize) -> (r: Vec<u8>)
    requires
        from <= v@.len(),
    ensures
        r@ == v@.skip(from as int),
{
    let n = v.len();
    let mut r: Vec<u8> = Vec::new();
    let mut i: usize = from;
    while i < n
        invariant
            from <= i <= n,
            n == v@.len(),
            r@ == v@.subrange(from as int, i as int),
        decreases n - i,
    {
        r.push(v[i]);
        proof {
            assert(r@ =~= v@.subrange(from as int, i + 1));
        }
        i = i + 1;
    }
    proof {
        assert(r@ =~= v@.skip(from as int));
    }
    r
}

/// Decodes a captured link-layer packet, trying both known header offsets
/// in order on private copies of the payload.
pub fn decode_capture(packet: &Vec<u8>, now: i64) -> (r: Option<(GrowattData, u16)>)
    requires
        packet@.len() > crate::proxy::DECODE_THRESHOLD,
    ensures
        match r {
            Some(p) => capture_model(packet@, now as int) == Some((p.0@, p.1 as int)),
            None => capture_model(packet@, now as int) is None,
        },
{
    let mut tail_a = copy_tail(packet, CAPTURE_OFFSET_A);
    match GrowattData::extract_auto_at(&mut tail_a, now) {
        Ok(gd) => {
            return Some((gd, 56));
        },
        Err(_) => {},
    }
    let mut tail_b = copy_tail(packet, CAPTURE_OFFSET_B);
    match GrowattData::extract_auto_at(&mut tail_b, now) {
        Ok(gd) => {
            return Some((gd, 68));
        },
        Err(_) => {},
    }
    None
}

} // verus!

//! Relay passthrough and capture-decoding tests.

use growattproxy::dataprocessor::{Field, FieldValue, GrowattData};
use growattproxy::mqtt::{should_publish, MqttConfig};
use growattproxy::proxy::{process_cloud_chunk, process_device_chunk, GrowattProxy, GrowattProxyConfig};
use growattproxy::rational::Rational;
use growattproxy::sniffer::decode_capture;

const MASK: [u8; 7] = [0x47, 0x72, 0x6f, 0x77, 0x61, 0x74, 0x74];

fn apply_mask(frame: &mut Vec<u8>) {
    for i in 8..frame.len() {
        frame[i] ^= MASK[(i - 8) % 7];
    }
}

fn seal_checksum(frame: &mut Vec<u8>) {
    let n = frame.len();
    let crc = crc16::State::<crc16::MODBUS>::calculate(&frame[..n - 2]);
    frame[n - 2] = (crc >> 8) as u8;
    frame[n - 1] = (crc & 0xff) as u8;
}

/// A decodable 300-byte telemetry frame (same shape as the canned capture).
fn canned_frame() -> Vec<u8> {
    let mut frame = vec![0u8; 300];
    frame[..8].copy_from_slice(&[0x00, 0x01, 0x00, 0x06, 0x01, 0x24, 0x50, 0x04]);
    frame[38..48].copy_from_slice(b"MFK0CE306Q");
    frame[79..81].copy_from_slice(&[0x00, 0x01]);
    frame[81..85].copy_from_slice(&31326207u32.to_be_bytes());
    frame[125..129].copy_from_slice(&80000u32.to_be_bytes());
    apply_mask(&mut frame);
    seal_checksum(&mut frame);
    frame
}

#[test]
fn relay_echo_full_passthrough() {
    // one decodable chunk, one garbage chunk, one short control chunk:
    // whatever the decode outcome, the bytes the device wrote come back
    // byte-identical and in order through an echoing upstream
    let chunks: Vec<Vec<u8>> = vec![canned_frame(), vec![0xab; 200], vec![1, 2, 3]];
    let mut sent: Vec<u8> = Vec::new();
    let mut received: Vec<u8> = Vec::new();
    for chunk in &chunks {
        sent.extend_from_slice(chunk);
        let out = process_device_chunk(chunk, true, 1_700_000_000);
        assert_eq!(&out.forward, chunk);
        // the upstream echoes what it received
        let reply = out.forward;
        let back = process_cloud_chunk(&reply);
        assert_eq!(&back, chunk);
        received.extend_from_slice(&back);
    }
    assert_eq!(sent, received);
}

#[test]
fn relay_publishes_only_decodable_chunks() {
    let decodable = canned_frame();
    let out = process_device_chunk(&decodable, true, 1_700_000_000);
    let record = out.publish.expect("a decoded record is owed to the sink");
    assert_eq!(record.layout_spec, String::from("t06NNNNX"));
    assert_eq!(
        record.field_value("pvpowerin").unwrap(),
        FieldValue::Number(Rational::new(31326207, 10))
    );

    // garbage of decode-candidate size: forwarded, nothing published
    let garbage = vec![0xab; 200];
    let out = process_device_chunk(&garbage, true, 0);
    assert_eq!(out.forward, garbage);
    assert!(out.publish.is_none());

    // short control traffic is not a decode candidate
    let small = vec![1, 2, 3, 4];
    let out = process_device_chunk(&small, true, 0);
    assert_eq!(out.forward, small);
    assert!(out.publish.is_none());

    // without a sink nothing is ever published
    let out = process_device_chunk(&decodable, false, 0);
    assert!(out.publish.is_none());
}

#[test]
fn no_telemetry_frames_are_never_published() {
    // a valid status frame above the decode threshold decodes to an empty
    // record, which is not owed to the sink
    let mut frame = vec![0u8; 150];
    frame[..8].copy_from_slice(&[0x00, 0x09, 0x00, 0x06, 0x00, 142, 0x51, 0x03]);
    seal_checksum(&mut frame);
    let out = process_device_chunk(&frame, true, 0);
    assert_eq!(out.forward, frame);
    assert!(out.publish.is_none());
}

#[test]
fn publish_gate_requires_content_and_live_report() {
    let header = [0x00, 0x01, 0x00, 0x06, 0x00, 0x00, 0x50, 0x04];
    let field = Field {
        name: String::from("pvstatus"),
        value: FieldValue::Number(Rational::from_integer(1)),
    };
    let live = GrowattData {
        header,
        layout_spec: String::from("t06NNNNX"),
        fields: vec![field.clone()],
    };
    assert!(should_publish(&live, true));
    assert!(!should_publish(&live, false));

    let empty = GrowattData {
        header,
        layout_spec: String::from("t06NNNNX"),
        fields: Vec::new(),
    };
    assert!(!should_publish(&empty, true));

    let mut buffered_header = header;
    buffered_header[7] = 0x50; // offline-cached report
    let buffered = GrowattData {
        header: buffered_header,
        layout_spec: String::from("t06NNNNX"),
        fields: vec![field],
    };
    assert!(!should_publish(&buffered, true));
}

#[test]
fn proxy_configuration_is_carried_over() {
    let proxy = GrowattProxy::new(GrowattProxyConfig {
        listen_address: String::from("0.0.0.0:5279"),
        growatt_address: String::from("47.91.67.66:5279"),
        mqtt_address: Some(String::from("broker.local")),
        mqtt_port: 1883,
    });
    assert_eq!(proxy.address, "0.0.0.0:5279");
    assert_eq!(proxy.growatt_address, "47.91.67.66:5279");
    let mqtt = proxy.mqtt_config.expect("sink configured");
    assert_eq!(mqtt.server, "broker.local");
    assert_eq!(mqtt.port, 1883);

    let silent = GrowattProxy::new(GrowattProxyConfig {
        listen_address: String::from("a"),
        growatt_address: String::from("b"),
        mqtt_address: None,
        mqtt_port: 1883,
    });
    assert!(silent.mqtt_config.is_none());
}

#[test]
fn capture_strips_the_matching_link_layer_offset() {
    // payload behind a 56-byte link-layer header
    let mut packet = vec![0u8; 56];
    packet.extend_from_slice(&canned_frame());
    let (gd, offset) = decode_capture(&packet, 7).expect("decodes at the first offset");
    assert_eq!(offset, 56);
    assert_eq!(
        gd.field_value("pvpowerin").unwrap(),
        FieldValue::Number(Rational::new(31326207, 10))
    );

    // payload behind a 68-byte link-layer header: the first offset yields
    // an invalid frame, the second succeeds
    let mut packet = vec![0u8; 68];
    packet.extend_from_slice(&canned_frame());
    let (gd, offset) = decode_capture(&packet, 7).expect("decodes at the second offset");
    assert_eq!(offset, 68);
    assert_eq!(
        gd.field_value("pvserial").unwrap(),
        FieldValue::Text(String::from("MFK0CE306Q"))
    );

    // neither offset fits: nothing is decoded
    let packet = vec![0u8; 200];
    assert!(decode_capture(&packet, 7).is_none());

    // a sniffer configuration carries the optional sink settings through
    let cfg = growattproxy::sniffer::GrowattSnifferConfig {
        address: String::from("0.0.0.0"),
        port: 5279,
        mqtt: Some(MqttConfig { server: String::from("broker.local"), port: 1883 }),
        dump_packets: false,
    };
    assert_eq!(cfg.port, 5279);
    assert!(cfg.mqtt.is_some());
}

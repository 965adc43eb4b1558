//! Field-extraction tests on a canned capture frame for the common
//! generation layout.

use growattproxy::dataprocessor::{FieldSpecification, FieldValue, GrowattData, LayoutSpecification};
use growattproxy::layouts;
use growattproxy::rational::Rational;
use growattproxy::ProxyError;

const MASK: [u8; 7] = [0x47, 0x72, 0x6f, 0x77, 0x61, 0x74, 0x74];

/// XORs the body (bytes 8 onward) with the repeating obfuscation mask.
fn apply_mask(frame: &mut Vec<u8>) {
    for i in 8..frame.len() {
        frame[i] ^= MASK[(i - 8) % 7];
    }
}

/// Stores the CRC-16/MODBUS of all preceding bytes in the last two bytes.
fn seal_checksum(frame: &mut Vec<u8>) {
    let n = frame.len();
    let crc = crc16::State::<crc16::MODBUS>::calculate(&frame[..n - 2]);
    frame[n - 2] = (crc >> 8) as u8;
    frame[n - 1] = (crc & 0xff) as u8;
}

/// A canned 300-byte capture frame for the common generation layout:
/// protocol 0x06 (checksum required), serial "MFK0CE306Q", status 1,
/// power-in raw 31326207 (divisor 10), power-out raw 80000 (divisor 10).
fn canned_frame() -> Vec<u8> {
    let mut frame = vec![0u8; 300];
    // header: index 1, protocol 0x06, declared body length 292, tag bytes
    let header = [0x00, 0x01, 0x00, 0x06, 0x01, 0x24, 0x50, 0x04];
    frame[..8].copy_from_slice(&header);
    // plaintext body fields at the byte offsets of the layout
    frame[38..48].copy_from_slice(b"MFK0CE306Q");
    frame[79..81].copy_from_slice(&[0x00, 0x01]);
    frame[81..85].copy_from_slice(&31326207u32.to_be_bytes());
    frame[125..129].copy_from_slice(&80000u32.to_be_bytes());
    apply_mask(&mut frame);
    seal_checksum(&mut frame);
    frame
}

#[test]
fn parse_data() {
    let mut data = canned_frame();

    let gd = GrowattData::from_buffer(&mut data, &layouts::t065004x()).unwrap();
    assert_eq!(
        gd.field_value("pvserial").unwrap(),
        FieldValue::Text(String::from("MFK0CE306Q"))
    );

    assert_eq!(
        gd.field_value("pvstatus").unwrap(),
        FieldValue::Number(Rational::from_integer(1))
    );

    assert_eq!(
        gd.field_value("pvpowerin").unwrap(),
        FieldValue::Number(Rational::new(31326207, 10))
    );
}

#[test]
fn serial_find_vs_fixed() {
    let mut data = canned_frame();

    let gd = GrowattData::from_buffer(&mut data, &layouts::t065004x()).unwrap();

    if let Some(FieldValue::Text(serial)) = gd.field_value("pvserial") {
        assert_eq!(serial, String::from("MFK0CE306Q"));
        let mut fresh = canned_frame();
        let gd_serial =
            GrowattData::from_buffer_auto_detect_layout(&mut fresh, Some(serial)).unwrap();

        assert_eq!(
            gd.field_value("pvpowerin").unwrap(),
            gd_serial.field_value("pvpowerin").unwrap()
        );
    } else {
        panic!("No serial found");
    }
}

#[test]
fn auto_detection_falls_back_to_reduced_layout() {
    let mut data = canned_frame();
    let gd = GrowattData::from_buffer_auto_detect_layout(&mut data, None).unwrap();
    // the canned header tag "T065004" carries no smart-meter mark, so it
    // misses the fully specified "T065004X" entry and degrades
    assert_eq!(gd.layout_spec, String::from("t06NNNNX"));
    assert_eq!(gd.layout(), String::from("T065004"));
    assert_eq!(
        gd.field_value("pvpowerin").unwrap(),
        FieldValue::Number(Rational::new(31326207, 10))
    );
}

#[test]
fn short_frame_is_rejected_as_ack() {
    for len in 0..12usize {
        let mut data = vec![0u8; len];
        let r = GrowattData::from_buffer_auto_detect_layout(&mut data, None);
        assert_eq!(r.unwrap_err(), ProxyError::AckFrame);
    }
    let mut data = vec![0u8; 11];
    let r = GrowattData::from_buffer(&mut data, &layouts::t065004x());
    assert_eq!(r.unwrap_err(), ProxyError::AckFrame);
}

#[test]
fn length_mismatch_is_reported_and_never_succeeds() {
    let mut data = canned_frame();
    // declare one byte more than the body holds
    data[5] = data[5].wrapping_add(1);
    let r = GrowattData::from_buffer(&mut data, &layouts::t065004x());
    assert_eq!(r.unwrap_err(), ProxyError::LengthMismatch);
    let r = GrowattData::from_buffer_auto_detect_layout(&mut data, None);
    assert_eq!(r.unwrap_err(), ProxyError::LengthMismatch);
}

#[test]
fn checksum_mismatch_is_reported() {
    let mut data = canned_frame();
    let last = data.len() - 1;
    data[last] ^= 0xff;
    let r = GrowattData::from_buffer(&mut data, &layouts::t065004x());
    assert_eq!(r.unwrap_err(), ProxyError::ChecksumMismatch);
}

#[test]
fn invalid_utf8_text_aborts_extraction() {
    let mut frame = vec![0u8; 300];
    frame[..8].copy_from_slice(&[0x00, 0x01, 0x00, 0x06, 0x01, 0x24, 0x50, 0x04]);
    frame[38] = 0xff; // never valid UTF-8
    apply_mask(&mut frame);
    seal_checksum(&mut frame);
    let r = GrowattData::from_buffer(&mut frame, &layouts::t065004x());
    assert_eq!(r.unwrap_err(), ProxyError::EncodingError);
}

#[test]
fn power_ceiling_is_enforced_exactly() {
    // raw 80000 with divisor 10 is exactly the ceiling of 8000: accepted
    let mut at_limit = canned_frame();
    assert!(GrowattData::from_buffer(&mut at_limit, &layouts::t065004x()).is_ok());

    // one raw unit above the ceiling: rejected with the range error
    let mut frame = vec![0u8; 300];
    frame[..8].copy_from_slice(&[0x00, 0x01, 0x00, 0x06, 0x01, 0x24, 0x50, 0x04]);
    frame[38..48].copy_from_slice(b"MFK0CE306Q");
    frame[125..129].copy_from_slice(&80001u32.to_be_bytes());
    apply_mask(&mut frame);
    seal_checksum(&mut frame);
    let r = GrowattData::from_buffer(&mut frame, &layouts::t065004x());
    assert_eq!(r.unwrap_err(), ProxyError::PowerOutOfRange);
}

#[test]
fn unsupported_number_width_is_a_configuration_error() {
    let spec = LayoutSpecification::new(
        "bad",
        false,
        vec![FieldSpecification::number("odd", 20, 3, 1)],
    );
    let mut frame = vec![0u8; 40];
    frame[3] = 0x27; // no checksum required
    frame[5] = 32; // declared body length
    let r = GrowattData::from_buffer(&mut frame, &spec);
    assert_eq!(r.unwrap_err(), ProxyError::InvalidFieldLength);
}

#[test]
fn truncated_fields_are_skipped_not_fatal() {
    // a frame long enough for the early fields only: later slots are skipped
    let mut frame = vec![0u8; 128];
    frame[..8].copy_from_slice(&[0x00, 0x01, 0x00, 0x06, 0x00, 120, 0x50, 0x04]);
    frame[38..48].copy_from_slice(b"MFK0CE306Q");
    frame[79..81].copy_from_slice(&[0x00, 0x02]);
    frame[81..85].copy_from_slice(&123u32.to_be_bytes());
    apply_mask(&mut frame);
    seal_checksum(&mut frame);
    let gd = GrowattData::from_buffer(&mut frame, &layouts::t065004x()).unwrap();
    assert_eq!(
        gd.field_value("pvstatus").unwrap(),
        FieldValue::Number(Rational::from_integer(2))
    );
    // pvpowerout lies beyond this frame: skipped entirely
    assert!(gd.field_value("pvpowerout").is_none());
}

#[test]
fn field_ending_exactly_at_frame_end_is_decoded() {
    // a slot is skipped only when it exceeds the frame bounds: one ending
    // exactly at the last byte is still decoded
    let spec = LayoutSpecification::new(
        "edge",
        false,
        vec![
            FieldSpecification::number("last", 76, 2, 1),
            FieldSpecification::number("past", 78, 2, 1),
        ],
    );
    let mut frame = vec![0u8; 40];
    frame[3] = 0x27; // no checksum required
    frame[5] = 32; // declared body length
    frame[38] = 0x01; // big-endian 256 in the final two bytes
    let gd = GrowattData::from_buffer(&mut frame, &spec).unwrap();
    assert_eq!(
        gd.field_value("last").unwrap(),
        FieldValue::Number(Rational::from_integer(256))
    );
    // the next slot would reach one byte beyond the frame: skipped
    assert!(gd.field_value("past").is_none());
}

#[test]
fn no_telemetry_tag_yields_empty_record() {
    // header resolving to tag "T065103": status frame without power data
    let mut frame = vec![0u8; 150];
    frame[..8].copy_from_slice(&[0x00, 0x09, 0x00, 0x06, 0x00, 142, 0x51, 0x03]);
    seal_checksum(&mut frame);
    let gd = GrowattData::from_buffer_auto_detect_layout(&mut frame, None).unwrap();
    assert_eq!(gd.layout(), String::from("T065103"));
    assert!(!gd.has_data());
    assert_eq!(gd.field_count(), 0);

    // the sibling tag "T065129" behaves the same
    let mut frame2 = vec![0u8; 150];
    frame2[..8].copy_from_slice(&[0x00, 0x09, 0x00, 0x06, 0x00, 142, 0x51, 0x29]);
    seal_checksum(&mut frame2);
    let gd2 = GrowattData::from_buffer_auto_detect_layout(&mut frame2, None).unwrap();
    assert_eq!(gd2.layout(), String::from("T065129"));
    assert_eq!(gd2.field_count(), 0);
}

#[test]
fn analyze_rejects_missing_serial() {
    let mut data = canned_frame();
    let r = GrowattData::analyze_data(&mut data, Some(String::from("ZZZZ")));
    assert_eq!(r.unwrap_err(), ProxyError::SerialNotFound);
}

#[test]
fn analyze_finds_serial_then_revalidates_decrypted_buffer() {
    // the analyzer decrypts the valid frame, finds the serial in the
    // plaintext, and then re-validates: the checksum of a protocol-0x06
    // frame no longer matches once the body has been decrypted in place
    let mut data = canned_frame();
    let r = GrowattData::analyze_data(&mut data, Some(String::from("MFK0CE306Q")));
    assert_eq!(r.unwrap_err(), ProxyError::ChecksumMismatch);
}

#[test]
fn date_slots_are_stamped_with_the_supplied_time() {
    // the 12-byte date slot's bytes are never decoded: extraction stamps
    // the timestamp it is given, whatever the slot holds
    let mut data = canned_frame();
    let gd = growattproxy::dataprocessor::extract_at(&mut data, &layouts::t065004x(), 1_700_000_000)
        .unwrap();
    assert_eq!(gd.field_value("date").unwrap(), FieldValue::Date(1_700_000_000));

    let mut other = canned_frame();
    let gd2 = growattproxy::dataprocessor::extract_at(&mut other, &layouts::t065004x(), 42).unwrap();
    assert_eq!(gd2.field_value("date").unwrap(), FieldValue::Date(42));
}

#[test]
fn record_header_predicates() {
    let mut data = canned_frame();
    let gd = GrowattData::from_buffer(&mut data, &layouts::t065004x()).unwrap();
    assert_eq!(gd.packet_index(), 1);
    assert!(!gd.is_buffered());
    assert!(gd.has_data());
    assert_eq!(gd.layout_spec, String::from("T065004X"));
}

#[test]
fn error_messages_name_each_failure() {
    assert_eq!(ProxyError::LengthMismatch.message(), "data payload size mismatch");
    assert_eq!(ProxyError::ChecksumMismatch.message(), "crc mismatch");
    assert_eq!(ProxyError::AckFrame.message(), "frame too short (ack)");
    assert_eq!(ProxyError::EncodingError.message(), "text field is not valid utf-8");
    assert_eq!(ProxyError::InvalidFieldLength.message(), "invalid length for number");
    assert_eq!(ProxyError::PowerOutOfRange.message(), "invalid pv power value");
    assert_eq!(ProxyError::SerialNotFound.message(), "serial not found in data packet");
}

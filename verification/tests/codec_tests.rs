//! Wire codec behaviour: frame decoding against an independent encoder,
//! frame accounting, and the hello handshake.

use spanbroker::codec;
use spanbroker::codec::{decode_frame, read_command, Command, Duration, Hello, MatchResult, SpanId};
use spanbroker::metadata::Level;

fn frame_of(payload: Vec<u8>) -> Vec<u8> {
    let mut out = (payload.len() as u32).to_le_bytes().to_vec();
    out.extend_from_slice(&payload);
    out
}

#[test]
fn decodes_span_alloc_frame_built_with_bincode() {
    // The command encoding is field-by-field concatenation, so an
    // equivalent tuple serialized by bincode yields the same bytes.
    let payload = bincode::serialize(&(
        0u32,
        (42u32, 0u32),
        (
            "work".to_string(),
            "tgt".to_string(),
            2u32,
            None::<String>,
            None::<String>,
            None::<u32>,
        ),
    ))
    .unwrap();
    let frame = frame_of(payload);
    let (cmd, used) = decode_frame(&frame).expect("frame should decode");
    assert_eq!(used, frame.len());
    match cmd {
        Command::SpanAlloc { id, metadata } => {
            assert_eq!(id, SpanId { id: 42, instance: 0 });
            assert_eq!(metadata.name, "work");
            assert_eq!(metadata.target, "tgt");
            assert_eq!(metadata.level, Level::Info);
            assert!(metadata.module.is_none());
            assert!(metadata.file.is_none());
            assert!(metadata.line.is_none());
        }
        _ => panic!("wrong variant"),
    }
}

#[test]
fn decode_consumes_length_prefix_plus_four() {
    // A Terminate frame: variant index 9, no fields.
    let payload = bincode::serialize(&9u32).unwrap();
    let frame = frame_of(payload);
    let (cmd, used) = decode_frame(&frame).expect("frame should decode");
    assert!(cmd.is_terminate());
    assert_eq!(used, 4 + 4);
}

#[test]
fn decodes_span_exit_with_structured_duration() {
    let payload = bincode::serialize(&(6u32, (7u32, 1u32), (1u32, 500_000_000u32))).unwrap();
    let frame = frame_of(payload);
    let (cmd, _) = decode_frame(&frame).expect("frame should decode");
    match cmd {
        Command::SpanExit { span, duration } => {
            assert_eq!(span, SpanId { id: 7, instance: 1 });
            assert_eq!(duration, Duration { seconds: 1, nano_seconds: 500_000_000 });
            assert_eq!(duration.as_nanos(), 1_500_000_000);
        }
        _ => panic!("wrong variant"),
    }
}

#[test]
fn decodes_event_with_values() {
    let payload = bincode::serialize(&(
        4u32,
        Some((3u32, 1u32)),
        ("evt".to_string(), "t".to_string(), 0u32, None::<String>, None::<String>, None::<u32>),
        1_700_000_000i64,
        Some("hello".to_string()),
        vec![("k".to_string(), (3u32, "v".to_string()))],
    ))
    .unwrap();
    let frame = frame_of(payload);
    let (cmd, _) = decode_frame(&frame).expect("frame should decode");
    match cmd {
        Command::Event { span, metadata, time, message, value_set } => {
            assert_eq!(span, Some(SpanId { id: 3, instance: 1 }));
            assert_eq!(metadata.level, Level::Trace);
            assert_eq!(time, 1_700_000_000);
            assert_eq!(message.as_deref(), Some("hello"));
            assert_eq!(value_set.len(), 1);
            assert_eq!(value_set[0].0, "k");
            match &value_set[0].1 {
                codec::RawValue::Str(s) => assert_eq!(s, "v"),
                _ => panic!("wrong value variant"),
            }
        }
        _ => panic!("wrong variant"),
    }
}

#[test]
fn rejects_truncated_frame() {
    let payload = bincode::serialize(&(5u32, (1u32, 1u32))).unwrap();
    let mut frame = frame_of(payload);
    frame.pop();
    assert!(decode_frame(&frame).is_none());
}

#[test]
fn rejects_frame_with_wrong_length_prefix() {
    let payload = bincode::serialize(&9u32).unwrap();
    let mut frame = ((payload.len() + 1) as u32).to_le_bytes().to_vec();
    frame.extend_from_slice(&payload);
    frame.push(0);
    assert!(decode_frame(&frame).is_none());
}

#[test]
fn rejects_bad_level_tag() {
    let payload = bincode::serialize(&(
        0u32,
        (1u32, 0u32),
        ("n".to_string(), "t".to_string(), 9u32, None::<String>, None::<String>, None::<u32>),
    ))
    .unwrap();
    let frame = frame_of(payload);
    assert!(decode_frame(&frame).is_none());
}

#[test]
fn rejects_invalid_utf8_string() {
    // A SpanAlloc whose metadata name bytes are not UTF-8.
    let mut payload = bincode::serialize(&(0u32, (1u32, 0u32))).unwrap();
    payload.extend_from_slice(&2u64.to_le_bytes());
    payload.extend_from_slice(&[0xff, 0xfe]);
    assert!(read_command(&payload, 0).is_none());
}

#[test]
fn hello_round_trip() {
    let packet = Hello::packet();
    let bytes = packet.to_bytes();
    assert_eq!(bytes.len(), 40);
    assert_eq!(&bytes[0..4], b"BP3D");
    let parsed = Hello::from_bytes(&bytes);
    assert!(matches!(parsed.matches(&Hello::packet()), MatchResult::Accepted));
}

#[test]
fn hello_wrong_signature_is_kicked_before_any_reply() {
    let mut bytes = Hello::packet().to_bytes();
    bytes[0] = b'X';
    let verdict = codec::check_hello(&bytes);
    match verdict {
        Err(reason) => assert_eq!(reason, "wrong signature"),
        Ok(_) => panic!("a bad signature must not be accepted"),
    }
}

#[test]
fn hello_wrong_version_is_kicked() {
    let mut bytes = Hello::packet().to_bytes();
    bytes[4] = 9;
    let verdict = codec::check_hello(&bytes);
    match verdict {
        Err(reason) => assert_eq!(reason, "wrong version"),
        Ok(_) => panic!("a bad version must not be accepted"),
    }
}

#[test]
fn hello_accepted_replies_with_our_block() {
    let bytes = Hello::packet().to_bytes();
    let reply = codec::check_hello(&bytes).expect("matching hello must be accepted");
    assert_eq!(reply, Hello::packet().to_bytes());
}

#[test]
fn float_values_cross_the_wire_as_bits() {
    let x: f64 = 2.5;
    let payload = bincode::serialize(&(
        3u32,
        (4u32, 1u32),
        None::<String>,
        vec![("f".to_string(), (0u32, x))],
    ))
    .unwrap();
    let frame = frame_of(payload);
    let (cmd, _) = decode_frame(&frame).expect("frame should decode");
    match cmd {
        Command::SpanValues { value_set, .. } => match &value_set[0].1 {
            codec::RawValue::Float(bits) => assert_eq!(*bits, x.to_bits()),
            _ => panic!("wrong value variant"),
        },
        _ => panic!("wrong variant"),
    }
}

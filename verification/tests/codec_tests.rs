use oneway::messages::Message;
use oneway::retransmit::{encode_envelope, max_payload_size};
use oneway::{Error, ParseFault, Wire};

fn round_trip(m: &Message) {
    let bytes = m.to_wire().unwrap();
    let (parsed, used) = Message::from_wire(&bytes).unwrap();
    assert_eq!(&parsed, m);
    assert_eq!(used, bytes.len());
}

#[test]
fn hello_round_trip() {
    round_trip(&Message::Hello);
    assert_eq!(Message::Hello.to_wire().unwrap(), vec![0u8]);
}

#[test]
fn done_round_trip() {
    round_trip(&Message::Done);
    assert_eq!(Message::Done.to_wire().unwrap(), vec![5u8]);
}

#[test]
fn keep_alive_round_trip() {
    round_trip(&Message::KeepAlive(0));
    round_trip(&Message::KeepAlive(0x0123456789abcdef));
    round_trip(&Message::KeepAlive(u64::MAX));
    assert_eq!(
        Message::KeepAlive(0x0102030405060708).to_wire().unwrap(),
        vec![1u8, 1, 2, 3, 4, 5, 6, 7, 8]
    );
}

#[test]
fn count_files_round_trip() {
    round_trip(&Message::CountFilesToUpload(42));
    assert_eq!(
        Message::CountFilesToUpload(2).to_wire().unwrap(),
        vec![2u8, 0, 0, 0, 0, 0, 0, 0, 2]
    );
}

#[test]
fn file_round_trip() {
    round_trip(&Message::File {
        filename: String::from("a.txt"),
        created: 1_700_000_000,
        size: 5,
        id: 7,
    });
}

#[test]
fn file_wire_format_is_exact() {
    let m = Message::File {
        filename: String::from("ab"),
        created: 3,
        size: 4,
        id: 5,
    };
    let mut expected = vec![3u8, 0, 2, 97, 98];
    expected.extend_from_slice(&[0, 0, 0, 0, 0, 0, 0, 3]);
    expected.extend_from_slice(&[0, 0, 0, 0, 0, 0, 0, 4]);
    expected.extend_from_slice(&[0, 0, 0, 0, 0, 0, 0, 5]);
    assert_eq!(m.to_wire().unwrap(), expected);
}

#[test]
fn non_ascii_filename_is_utf8_on_the_wire() {
    // one character, two bytes on the wire: the length field counts
    // bytes, not characters
    let m = Message::File {
        filename: String::from("é"),
        created: 0,
        size: 0,
        id: 0,
    };
    let bytes = m.to_wire().unwrap();
    assert_eq!(bytes[1], 0);
    assert_eq!(bytes[2], 2);
    assert_eq!(&bytes[3..5], "é".as_bytes());
    round_trip(&m);
}

#[test]
fn file_chunk_round_trip() {
    round_trip(&Message::FileChunk {
        id: 9,
        offset: 1024,
        content_size: 3,
        content: vec![10, 20, 30],
    });
}

#[test]
fn file_chunk_sends_only_content_size_bytes() {
    let m = Message::FileChunk {
        id: 1,
        offset: 0,
        content_size: 2,
        content: vec![7, 8, 9, 10],
    };
    let bytes = m.to_wire().unwrap();
    assert_eq!(bytes.len(), 19 + 2);
    assert_eq!(&bytes[19..], &[7, 8]);
    let (parsed, _) = Message::from_wire(&bytes).unwrap();
    match parsed {
        Message::FileChunk { content_size, content, .. } => {
            assert_eq!(content_size, 2);
            assert_eq!(content, vec![7, 8]);
        }
        other => panic!("unexpected message {:?}", other),
    }
}

#[test]
fn unknown_tag_is_malformed() {
    let r = Message::from_wire(&[6u8]);
    assert!(matches!(r, Err(Error::Deserialize(ParseFault::Malformed))));
}

#[test]
fn truncated_message_is_incomplete() {
    assert!(matches!(
        Message::from_wire(&[]),
        Err(Error::Deserialize(ParseFault::Incomplete))
    ));
    assert!(matches!(
        Message::from_wire(&[1u8, 0, 0]),
        Err(Error::Deserialize(ParseFault::Incomplete))
    ));
}

#[test]
fn invalid_utf8_filename_is_malformed() {
    // File with a 1-byte filename holding a lone continuation byte
    let mut bytes = vec![3u8, 0, 1, 0x80];
    bytes.extend_from_slice(&[0; 24]);
    let r = Message::from_wire(&bytes);
    assert!(matches!(r, Err(Error::Deserialize(ParseFault::Malformed))));
}

#[test]
fn oversize_filename_is_refused_at_serialization() {
    let m = Message::File {
        filename: "x".repeat(70000),
        created: 0,
        size: 0,
        id: 0,
    };
    assert!(matches!(m.to_wire(), Err(Error::IntegerConversion)));
}

#[test]
fn envelope_opens_with_magic_and_length() {
    let payload = vec![1u8, 2, 3];
    let env = encode_envelope(&payload);
    assert_eq!(&env[..4], b"1WAY");
    assert_eq!(env[4], 0);
    assert_eq!(env[5], 3);
    assert_eq!(&env[6..], &[1, 2, 3]);
    assert_eq!(env.len(), 6 + payload.len());
}

#[test]
fn payload_sizes() {
    assert_eq!(max_payload_size(1024), 1018);
    assert_eq!(Message::get_max_content_size(1018), 999);
}

use oneway::retransmit::{encode_envelope, Reassembler, Retransmit};
use oneway::{Config, Error, ParseFault};

fn fresh() -> Reassembler {
    Reassembler::new(&Config::default())
}

#[test]
fn empty_buffer_is_no_data() {
    let mut r = fresh();
    let mut data = Vec::new();
    assert!(matches!(r.get_next_data(&mut data), Err(Error::NoData)));
}

#[test]
fn dedup_idempotence() {
    // the same chunk three times in a row yields exactly one payload
    let chunk = vec![5u8, 6, 7];
    let env = encode_envelope(&chunk);
    let mut r = fresh();
    r.push_data(&env);
    r.push_data(&env);
    r.push_data(&env);
    let mut data = Vec::new();
    assert!(r.get_next_data(&mut data).is_ok());
    assert_eq!(data, chunk);
    assert!(matches!(
        r.get_next_data(&mut data),
        Err(Error::Deserialize(ParseFault::Incomplete))
    ));
}

#[test]
fn dedup_preservation() {
    // distinct chunks c1, c2, c1 come out as c1, c2, c1
    let c1 = vec![1u8, 1, 1];
    let c2 = vec![2u8, 2];
    let mut r = fresh();
    r.push_data(&encode_envelope(&c1));
    r.push_data(&encode_envelope(&c2));
    r.push_data(&encode_envelope(&c1));
    let mut data = Vec::new();
    assert!(r.get_next_data(&mut data).is_ok());
    assert_eq!(data, c1);
    assert!(r.get_next_data(&mut data).is_ok());
    assert_eq!(data, c2);
    assert!(r.get_next_data(&mut data).is_ok());
    assert_eq!(data, c1);
}

#[test]
fn partial_frame_patience() {
    let payload = vec![9u8, 8, 7, 6];
    let env = encode_envelope(&payload);
    for cut in 0..env.len() {
        let mut r = fresh();
        r.push_data(&env[..cut]);
        let mut data = Vec::new();
        let outcome = r.get_next_data(&mut data);
        if cut == 0 {
            assert!(matches!(outcome, Err(Error::NoData)));
        } else {
            assert!(matches!(
                outcome,
                Err(Error::Deserialize(ParseFault::Incomplete))
            ));
        }
        assert!(data.is_empty());
        r.push_data(&env[cut..]);
        assert!(r.get_next_data(&mut data).is_ok());
        assert_eq!(data, payload);
    }
}

#[test]
fn wrong_magic_is_malformed() {
    let mut r = fresh();
    r.push_data(&[b'2', b'W', b'A', b'Y', 0, 0]);
    let mut data = Vec::new();
    assert!(matches!(
        r.get_next_data(&mut data),
        Err(Error::Deserialize(ParseFault::Malformed))
    ));
}

#[test]
fn retransmit_emits_the_configured_number_of_copies() {
    let payload = vec![1u8, 2, 3];
    let mut rt = Retransmit::new(&payload, 3, 1024).unwrap();
    let expected = encode_envelope(&payload);
    let mut copies = 0;
    while let Some(chunk) = rt.get_next_chunk() {
        assert_eq!(chunk, expected);
        copies += 1;
    }
    assert_eq!(copies, 3);
    assert!(rt.get_next_chunk().is_none());
    rt.reset();
    let mut again = 0;
    while rt.get_next_chunk().is_some() {
        again += 1;
    }
    assert_eq!(again, 3);
}

#[test]
fn oversize_payload_is_refused() {
    let payload = vec![0u8; 27];
    match Retransmit::new(&payload, 3, 32) {
        Err(Error::PayloadTooLarge(sz)) => assert_eq!(sz, 33),
        other => panic!("expected PayloadTooLarge, got {:?}", other.map(|_| ())),
    }
}

#[test]
fn payload_over_wire_width_is_integer_conversion() {
    let payload = vec![0u8; 70000];
    match Retransmit::new(&payload, 1, 100_000) {
        Err(Error::IntegerConversion) => {}
        other => panic!("expected IntegerConversion, got {:?}", other.map(|_| ())),
    }
}

#[test]
fn buffer_compaction_preserves_the_stream() {
    // many envelopes pushed one by one keep coming out right even as
    // the internal buffer compacts
    let mut r = fresh();
    let mut data = Vec::new();
    for i in 0..200u8 {
        let chunk = vec![i, i.wrapping_add(1)];
        r.push_data(&encode_envelope(&chunk));
        assert!(r.get_next_data(&mut data).is_ok());
        assert_eq!(data, chunk);
    }
}

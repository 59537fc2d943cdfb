use oneway::envelope::{EnvelopeHeader, EnvelopeIterator};
use oneway::utils::Hex;
use oneway::Config;

fn config(mtu: usize, remission_count: usize) -> Config {
    Config {
        mtu,
        remission_count,
        ..Default::default()
    }
}

#[test]
fn header_size_is_fixed() {
    assert_eq!(EnvelopeHeader::size(), 14);
}

#[test]
fn small_data_is_one_chunk_repeated() {
    let data = [1u8, 2, 3];
    let mut it = EnvelopeIterator::new(&data, &config(64, 2)).unwrap();
    let first = it.get_next_envelope().unwrap();
    let second = it.get_next_envelope().unwrap();
    assert!(it.get_next_envelope().is_none());
    // emission count 2, first copy, offset 0, size 3, total 3
    assert_eq!(&first[..2], &[2, 1]);
    assert_eq!(&first[2..4], &[0, 0]);
    assert_eq!(&first[4..6], &[3, 0]);
    assert_eq!(&first[6..14], &[3, 0, 0, 0, 0, 0, 0, 0]);
    assert_eq!(&first[14..], &data);
    // the second copy differs only in its emission number
    assert_eq!(second[1], 2);
    assert_eq!(&second[2..], &first[2..]);
}

#[test]
fn large_data_fragments_into_chunks() {
    let data: Vec<u8> = (0..100u32).map(|i| i as u8).collect();
    let mut it = EnvelopeIterator::new(&data, &config(64, 2)).unwrap();
    // chunk size 50: two chunks, each emitted twice
    let mut envelopes = Vec::new();
    while let Some(e) = it.get_next_envelope() {
        envelopes.push(e);
    }
    assert_eq!(envelopes.len(), 4);
    assert_eq!(&envelopes[0][14..], &data[..50]);
    assert_eq!(&envelopes[1][14..], &data[..50]);
    assert_eq!(&envelopes[2][14..], &data[50..]);
    assert_eq!(&envelopes[3][14..], &data[50..]);
    // the second chunk names its offset
    assert_eq!(&envelopes[2][2..4], &[50, 0]);
    // every envelope fits in the datagram budget
    for e in &envelopes {
        assert!(e.len() <= 64);
    }
}

#[test]
fn get_chunk_returns_the_current_chunk() {
    let data: Vec<u8> = (0..100u32).map(|i| i as u8).collect();
    let it = EnvelopeIterator::new(&data, &config(64, 1)).unwrap();
    assert_eq!(it.get_chunk(), &data[..50]);
}

#[test]
fn oversize_remission_count_is_refused() {
    let data = [0u8; 4];
    assert!(EnvelopeIterator::new(&data, &config(64, 300)).is_err());
}

#[test]
fn hex_renders_lower_case_digits() {
    let h = Hex::new(&[0x0f, 0xa0, 0x00, 0xff]);
    assert_eq!(h.hex_string(), "0fa000ff");
}

#[test]
fn hex_of_nothing_is_empty() {
    assert_eq!(Hex::new(&[]).hex_string(), "");
}

use oneway::messages::Message;
use oneway::session::{apply_chunk, Action, ClientHandler, Warning};
use oneway::{Config, Wire};

fn handler(root: &str) -> ClientHandler {
    ClientHandler::new(root.as_bytes(), &Config::default())
}

#[test]
fn keep_alive_in_sequence_raises_no_warning() {
    let mut h = handler("recv");
    let a = 41u64;
    let o1 = h.process_message(Message::KeepAlive(a));
    let o2 = h.process_message(Message::KeepAlive(a + 1));
    assert!(o1.warning.is_none());
    assert!(o2.warning.is_none());
}

#[test]
fn keep_alive_gap_raises_exactly_one_warning() {
    let mut h = handler("recv");
    let a = 41u64;
    let o1 = h.process_message(Message::KeepAlive(a));
    let o2 = h.process_message(Message::KeepAlive(a + 2));
    let warnings = [o1.warning, o2.warning];
    let count = warnings.iter().filter(|w| w.is_some()).count();
    assert_eq!(count, 1);
    assert_eq!(
        o2.warning,
        Some(Warning::KeepAliveGap { expected: a + 1, got: a + 2 })
    );
}

#[test]
fn keep_alive_wraps_around() {
    let mut h = handler("recv");
    h.process_message(Message::KeepAlive(u64::MAX));
    let o = h.process_message(Message::KeepAlive(0));
    assert!(o.warning.is_none());
}

#[test]
fn file_creation_joins_path_under_root() {
    let mut h = handler("recv");
    let o = h.process_message(Message::File {
        filename: String::from("a.txt"),
        created: 1_700_000_000,
        size: 5,
        id: 7,
    });
    assert_eq!(
        o.action,
        Some(Action::CreateFile { path: b"recv/a.txt".to_vec(), size: 5, id: 7 })
    );
    assert!(o.warning.is_none());
    assert!(!o.done);
}

#[test]
fn path_escape_is_refused() {
    let mut h = handler("recv");
    let o = h.process_message(Message::File {
        filename: String::from("/etc/oneway.conf"),
        created: 0,
        size: 1,
        id: 1,
    });
    assert_eq!(o.action, None);
    assert_eq!(o.warning, Some(Warning::PathEscape));
    // and no write happens either: the id was never registered
    let o2 = h.process_message(Message::FileChunk {
        id: 1,
        offset: 0,
        content_size: 1,
        content: vec![0],
    });
    assert_eq!(o2.action, None);
    assert_eq!(o2.warning, Some(Warning::UnknownFileId { id: 1 }));
}

#[test]
fn absolute_filename_under_root_is_kept() {
    let mut h = handler("/srv/recv");
    let o = h.process_message(Message::File {
        filename: String::from("/srv/recv/inner.bin"),
        created: 0,
        size: 1,
        id: 3,
    });
    assert_eq!(
        o.action,
        Some(Action::CreateFile { path: b"/srv/recv/inner.bin".to_vec(), size: 1, id: 3 })
    );
}

#[test]
fn chunk_for_unknown_id_is_dropped() {
    let mut h = handler("recv");
    let o = h.process_message(Message::FileChunk {
        id: 99,
        offset: 0,
        content_size: 1,
        content: vec![1],
    });
    assert_eq!(o.action, None);
    assert_eq!(o.warning, Some(Warning::UnknownFileId { id: 99 }));
}

#[test]
fn empty_chunk_closes_the_file() {
    let mut h = handler("recv");
    h.process_message(Message::File {
        filename: String::from("f"),
        created: 0,
        size: 2,
        id: 4,
    });
    let o = h.process_message(Message::FileChunk {
        id: 4,
        offset: 2,
        content_size: 0,
        content: vec![],
    });
    assert_eq!(o.action, Some(Action::CloseFile { id: 4 }));
    // the id is gone afterwards
    let o2 = h.process_message(Message::FileChunk {
        id: 4,
        offset: 2,
        content_size: 1,
        content: vec![9],
    });
    assert_eq!(o2.warning, Some(Warning::UnknownFileId { id: 4 }));
}

#[test]
fn out_of_order_chunk_warns_and_still_writes() {
    let mut h = handler("recv");
    h.process_message(Message::File {
        filename: String::from("f"),
        created: 0,
        size: 100,
        id: 4,
    });
    let o = h.process_message(Message::FileChunk {
        id: 4,
        offset: 50,
        content_size: 2,
        content: vec![1, 2],
    });
    assert_eq!(o.warning, Some(Warning::OffsetMismatch { expected: 0, got: 50 }));
    assert_eq!(
        o.action,
        Some(Action::WriteChunk { id: 4, offset: 50, content: vec![1, 2] })
    );
    // the follow-up at the expected offset raises no warning
    let o2 = h.process_message(Message::FileChunk {
        id: 4,
        offset: 52,
        content_size: 1,
        content: vec![3],
    });
    assert!(o2.warning.is_none());
}

#[test]
fn done_completes_the_session() {
    let mut h = handler("recv");
    let o = h.process_message(Message::Done);
    assert!(o.done);
    assert_eq!(o.action, None);
}

#[test]
fn hole_policy_on_the_file_image() {
    // chunks at offsets 0 and 2k of a preallocated file leave the
    // middle k bytes zero
    let k = 16usize;
    let c1 = vec![0xaau8; k];
    let c2 = vec![0xbbu8; k];
    let mut file = vec![0u8; 3 * k];
    apply_chunk(&mut file, 0, &c1);
    apply_chunk(&mut file, (2 * k) as u64, &c2);
    assert_eq!(&file[..k], &c1[..]);
    assert!(file[k..2 * k].iter().all(|b| *b == 0));
    assert_eq!(&file[2 * k..3 * k], &c2[..]);
}

#[test]
fn process_buffer_drains_complete_messages() {
    let mut h = handler("recv");
    let mut wire = Vec::new();
    for m in [
        Message::Hello,
        Message::CountFilesToUpload(1),
        Message::File { filename: String::from("x"), created: 0, size: 1, id: 8 },
    ] {
        let bytes = m.to_wire().unwrap();
        wire.extend_from_slice(&oneway::retransmit::encode_envelope(&bytes));
    }
    let outcome = h.process_buffer(&wire);
    assert!(!outcome.done);
    assert_eq!(outcome.actions.len(), 1);
    assert!(outcome.warnings.is_empty());
}

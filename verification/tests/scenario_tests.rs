use oneway::messages::Message;
use oneway::retransmit::Retransmit;
use oneway::sender::chunk_file_messages;
use oneway::session::{apply_chunk, Action, ClientHandler};
use oneway::{Config, Error, Wire};
use std::collections::HashMap;

/// The datagrams the sender puts on the wire for one message.
fn datagrams_for(m: &Message, remission: usize, mtu: usize) -> Vec<Vec<u8>> {
    let bytes = m.to_wire().unwrap();
    let mut rt = Retransmit::new(&bytes, remission, mtu).unwrap();
    let mut out = Vec::new();
    while let Some(d) = rt.get_next_chunk() {
        out.push(d);
    }
    out
}

/// An in-memory stand-in for the receiver's file system.
#[derive(Default)]
struct FileStore {
    open: HashMap<u64, (Vec<u8>, Vec<u8>)>,
    closed: HashMap<Vec<u8>, Vec<u8>>,
}

impl FileStore {
    fn apply(&mut self, action: Action) {
        match action {
            Action::CreateFile { path, size, id } => {
                self.open.insert(id, (path, vec![0u8; size as usize]));
            }
            Action::WriteChunk { id, offset, content } => {
                let (_, file) = self.open.get_mut(&id).expect("write to unopened file");
                apply_chunk(file, offset, &content);
            }
            Action::CloseFile { id } => {
                if let Some((path, file)) = self.open.remove(&id) {
                    self.closed.insert(path, file);
                }
            }
        }
    }
}

/// Feeds wire datagrams to one handler, applying every action.
fn feed(handler: &mut ClientHandler, store: &mut FileStore, datagrams: &[Vec<u8>]) -> bool {
    let mut done = false;
    for d in datagrams {
        let outcome = handler.process_buffer(d);
        for a in outcome.actions {
            store.apply(a);
        }
        if outcome.done {
            done = true;
            break;
        }
    }
    done
}

#[test]
fn empty_transfer() {
    let mut handler = ClientHandler::new(b"recv", &Config::default());
    let mut store = FileStore::default();
    let mut wire = Vec::new();
    wire.extend(datagrams_for(&Message::CountFilesToUpload(0), 3, 1024));
    wire.extend(datagrams_for(&Message::Done, 3, 1024));
    let done = feed(&mut handler, &mut store, &wire);
    assert!(done);
    assert!(store.open.is_empty());
    assert!(store.closed.is_empty());
}

#[test]
fn single_tiny_file() {
    let mut handler = ClientHandler::new(b"recv", &Config::default());
    let mut store = FileStore::default();
    let mut wire = Vec::new();
    wire.extend(datagrams_for(
        &Message::File {
            filename: String::from("a.txt"),
            created: 1_700_000_000,
            size: 5,
            id: 7,
        },
        3,
        1024,
    ));
    wire.extend(datagrams_for(
        &Message::FileChunk { id: 7, offset: 0, content_size: 5, content: b"hello".to_vec() },
        3,
        1024,
    ));
    wire.extend(datagrams_for(
        &Message::FileChunk { id: 7, offset: 5, content_size: 0, content: vec![] },
        3,
        1024,
    ));
    wire.extend(datagrams_for(&Message::Done, 3, 1024));
    let done = feed(&mut handler, &mut store, &wire);
    assert!(done);
    assert_eq!(store.closed.get(&b"recv/a.txt".to_vec()).unwrap(), b"hello");
}

fn file_messages(filename: &str, content: &[u8], id: u64, mtu: usize) -> Vec<Message> {
    let mut msgs = vec![Message::File {
        filename: String::from(filename),
        created: 1_700_000_000,
        size: content.len() as u64,
        id,
    }];
    msgs.extend(chunk_file_messages(id, content, mtu));
    msgs
}

#[test]
fn multi_chunk_file_with_exact_duplication() {
    let mtu = 64;
    let remission = 2;
    let content: Vec<u8> = (0..300u32).map(|i| (i % 251) as u8).collect();
    let mut handler = ClientHandler::new(b"recv", &Config::default());
    let mut store = FileStore::default();

    let mut msgs = vec![Message::CountFilesToUpload(1)];
    msgs.extend(file_messages("data.bin", &content, 11, mtu));
    msgs.push(Message::Done);

    let mut wire = Vec::new();
    for m in &msgs {
        let copies = datagrams_for(m, remission, mtu);
        // every datagram appears exactly twice on the wire
        assert_eq!(copies.len(), 2);
        assert_eq!(copies[0], copies[1]);
        for c in &copies {
            assert!(c.len() <= mtu);
        }
        wire.extend(copies);
    }
    let done = feed(&mut handler, &mut store, &wire);
    assert!(done);
    assert_eq!(store.closed.get(&b"recv/data.bin".to_vec()).unwrap(), &content);
}

#[test]
fn dropped_middle_chunk_leaves_a_zero_hole() {
    let mtu = 64;
    let step = mtu - 25;
    let content: Vec<u8> = (0..100u32).map(|i| (i as u8).wrapping_mul(3).wrapping_add(1)).collect();
    let mut handler = ClientHandler::new(b"recv", &Config::default());
    let mut store = FileStore::default();

    let mut msgs = vec![Message::CountFilesToUpload(1)];
    msgs.extend(file_messages("holey.bin", &content, 21, mtu));
    msgs.push(Message::Done);
    // three content chunks plus the closing empty chunk
    assert_eq!(msgs.len(), 1 + 1 + 4 + 1);

    let mut wire = Vec::new();
    for (i, m) in msgs.iter().enumerate() {
        // the transport drops every copy of the middle chunk
        let is_middle_chunk = i == 3;
        if !is_middle_chunk {
            wire.extend(datagrams_for(m, 1, mtu));
        }
    }
    let done = feed(&mut handler, &mut store, &wire);
    assert!(done);
    let file = store.closed.get(&b"recv/holey.bin".to_vec()).unwrap();
    assert_eq!(file.len(), content.len());
    assert_eq!(&file[..step], &content[..step]);
    assert!(file[step..2 * step].iter().all(|b| *b == 0));
    assert_eq!(&file[2 * step..], &content[2 * step..]);
}

#[test]
fn two_concurrent_senders() {
    let mtu = 64;
    let content_a: Vec<u8> = (0..100u32).map(|i| i as u8).collect();
    let content_b: Vec<u8> = (0..200u32).map(|i| (i as u8).wrapping_add(7)).collect();

    let mut wire_a = Vec::new();
    for m in file_messages("a", &content_a, 1, mtu) {
        wire_a.extend(datagrams_for(&m, 2, mtu));
    }
    for m in [Message::Done] {
        wire_a.extend(datagrams_for(&m, 2, mtu));
    }
    let mut wire_b = Vec::new();
    for m in file_messages("b", &content_b, 2, mtu) {
        wire_b.extend(datagrams_for(&m, 2, mtu));
    }
    for m in [Message::Done] {
        wire_b.extend(datagrams_for(&m, 2, mtu));
    }

    // each peer has its own handler and store; datagrams interleave
    let mut handler_a = ClientHandler::new(b"recv", &Config::default());
    let mut handler_b = ClientHandler::new(b"recv", &Config::default());
    let mut store_a = FileStore::default();
    let mut store_b = FileStore::default();
    let mut ia = wire_a.into_iter();
    let mut ib = wire_b.into_iter();
    loop {
        let da = ia.next();
        let db = ib.next();
        if da.is_none() && db.is_none() {
            break;
        }
        if let Some(d) = da {
            let outcome = handler_a.process_buffer(&d);
            for a in outcome.actions {
                store_a.apply(a);
            }
        }
        if let Some(d) = db {
            let outcome = handler_b.process_buffer(&d);
            for a in outcome.actions {
                store_b.apply(a);
            }
        }
    }
    assert_eq!(store_a.closed.get(&b"recv/a".to_vec()).unwrap(), &content_a);
    assert_eq!(store_b.closed.get(&b"recv/b".to_vec()).unwrap(), &content_b);
}

#[test]
fn oversize_message_is_refused_before_transmission() {
    let mtu = 32;
    let m = Message::File {
        filename: "x".repeat(200),
        created: 0,
        size: 1,
        id: 1,
    };
    let bytes = m.to_wire().unwrap();
    match Retransmit::new(&bytes, 3, mtu) {
        Err(Error::PayloadTooLarge(sz)) => {
            assert_eq!(sz, bytes.len() + 6);
        }
        _ => panic!("expected PayloadTooLarge"),
    }
}

#[test]
fn sender_chunking_covers_the_content_and_fits_the_mtu() {
    let mtu = 64;
    let content: Vec<u8> = (0..100u32).map(|i| i as u8).collect();
    let msgs = chunk_file_messages(9, &content, mtu);
    assert_eq!(msgs.len(), 4);
    let mut rebuilt = vec![0u8; content.len()];
    for (i, m) in msgs.iter().enumerate() {
        match m {
            Message::FileChunk { id, offset, content_size, content: body } => {
                assert_eq!(*id, 9);
                assert_eq!(*content_size as usize, body.len());
                if i == msgs.len() - 1 {
                    assert_eq!(*offset, 100);
                    assert_eq!(*content_size, 0);
                } else {
                    assert_eq!(*offset as usize, i * (mtu - 25));
                    apply_chunk(&mut rebuilt, *offset, body);
                }
                let wire = m.to_wire().unwrap();
                assert!(wire.len() + 6 <= mtu);
            }
            other => panic!("unexpected message {:?}", other),
        }
    }
    assert_eq!(rebuilt, content);
}

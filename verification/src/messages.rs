//! The typed command language of the protocol and its binary codec.
//!
//! Messages are encoded big-endian, tag first.  Each message fits in one
//! chunk envelope; the sender guarantees this by sizing `FileChunk`
//! contents against the MTU (see [`Message::get_max_content_size`]).

use crate::utils::{push_be16, push_be64, read_be16, read_be64, bytes_to_string, spec_be16,
    spec_be16_val, spec_be64, spec_be64_val, lemma_be16_round_trip, lemma_be64_round_trip};
use crate::{Error, OnewayResult, ParseFault, ParseOutcome, Wire};
use vstd::prelude::*;
use vstd::slice::{slice_subrange, slice_to_vec};
use vstd::utf8::{decode_utf8_encode_utf8, encode_utf8, valid_utf8};

verus! {

/// Mathematical model of a message as it appears on the wire: the
/// filename stands as its UTF-8 byte encoding, and a chunk's content as
/// exactly the bytes that are transmitted.
#[verifier::ext_equal]
pub enum MessageModel {
    Hello,
    KeepAlive { id: u64 },
    CountFilesToUpload { count: u64 },
    File { filename: Seq<u8>, created: u64, size: u64, id: u64 },
    FileChunk { id: u64, offset: u64, content: Seq<u8> },
    Done,
}

/// Well-formedness of a message model: every length field fits the wire
/// width, and a filename is a valid UTF-8 encoding.
pub open spec fn spec_message_wf(m: MessageModel) -> bool {
    match m {
        MessageModel::File { filename, .. } => filename.len() <= 0xffff && valid_utf8(filename),
        MessageModel::FileChunk { content, .. } => content.len() <= 0xffff,
        _ => true,
    }
}

/// Byte encoding of a message model: one tag octet followed by the body.
pub open spec fn spec_message_bytes(m: MessageModel) -> Seq<u8> {
    match m {
        MessageModel::Hello => seq![0u8],
        MessageModel::KeepAlive { id } => seq![1u8] + spec_be64(id),
        MessageModel::CountFilesToUpload { count } => seq![2u8] + spec_be64(count),
        MessageModel::File { filename, created, size, id } => seq![3u8] + spec_be16(
            filename.len() as u16,
        ) + filename + spec_be64(created) + spec_be64(size) + spec_be64(id),
        MessageModel::FileChunk { id, offset, content } => seq![4u8] + spec_be64(id) + spec_be64(
            offset,
        ) + spec_be16(content.len() as u16) + content,
        MessageModel::Done => seq![5u8],
    }
}

/// Byte-level parsing function for messages.  Missing bytes surface as
/// `Incomplete`; an unknown tag or an invalid UTF-8 filename surfaces as
/// `Malformed`.
pub open spec fn spec_parse_message(input: Seq<u8>) -> ParseOutcome<MessageModel> {
    if input.len() < 1 {
        ParseOutcome::Incomplete
    } else {
        let tag = input[0];
        if tag == 0 {
            ParseOutcome::Parsed { value: MessageModel::Hello, used: 1 }
        } else if tag == 1 {
            if input.len() < 9 {
                ParseOutcome::Incomplete
            } else {
                ParseOutcome::Parsed {
                    value: MessageModel::KeepAlive { id: spec_be64_val(input.subrange(1, 9)) },
                    used: 9,
                }
            }
        } else if tag == 2 {
            if input.len() < 9 {
                ParseOutcome::Incomplete
            } else {
                ParseOutcome::Parsed {
                    value: MessageModel::CountFilesToUpload {
                        count: spec_be64_val(input.subrange(1, 9)),
                    },
                    used: 9,
                }
            }
        } else if tag == 3 {
            if input.len() < 3 {
                ParseOutcome::Incomplete
            } else {
                let flen = spec_be16_val(input.subrange(1, 3)) as int;
                if input.len() < 27 + flen {
                    ParseOutcome::Incomplete
                } else {
                    let filename = input.subrange(3, 3 + flen);
                    if !valid_utf8(filename) {
                        ParseOutcome::Malformed
                    } else {
                        ParseOutcome::Parsed {
                            value: MessageModel::File {
                                filename,
                                created: spec_be64_val(input.subrange(3 + flen, 11 + flen)),
                                size: spec_be64_val(input.subrange(11 + flen, 19 + flen)),
                                id: spec_be64_val(input.subrange(19 + flen, 27 + flen)),
                            },
                            used: 27 + flen,
                        }
                    }
                }
            }
        } else if tag == 4 {
            if input.len() < 19 {
                ParseOutcome::Incomplete
            } else {
                let clen = spec_be16_val(input.subrange(17, 19)) as int;
                if input.len() < 19 + clen {
                    ParseOutcome::Incomplete
                } else {
                    ParseOutcome::Parsed {
                        value: MessageModel::FileChunk {
                            id: spec_be64_val(input.subrange(1, 9)),
                            offset: spec_be64_val(input.subrange(9, 17)),
                            content: input.subrange(19, 19 + clen),
                        },
                        used: 19 + clen,
                    }
                }
            }
        } else if tag == 5 {
            ParseOutcome::Parsed { value: MessageModel::Done, used: 1 }
        } else {
            ParseOutcome::Malformed
        }
    }
}

/// Message sent from the client to the server.
#[derive(Debug, Clone, PartialEq, Eq)]
pub enum Message {
    /// Hello message to start a new session.
    Hello,
    /// KeepAlive message with an incrementing id.
    KeepAlive(u64),
    /// How many files will be uploaded.
    CountFilesToUpload(u64),
    /// A single file to create: name, creation time in seconds since the
    /// Unix epoch, total size in bytes, and the sender-chosen file id.
    File { filename: String, created: u64, size: u64, id: u64 },
    /// A chunk of data from a file.  Only the first `content_size` bytes
    /// of `content` belong to the message; the buffer may be larger.  A
    /// chunk with `content_size == 0` signals the end of the file.
    FileChunk { id: u64, offset: u64, content_size: u16, content: Vec<u8> },
    /// Client is done.
    Done,
}

impl Message {
    /// The largest chunk content that still fits when `max_payload` bytes
    /// may be spent on one serialized `FileChunk` message: tag, id,
    /// offset and content length claim 19 of them.
    pub fn get_max_content_size(max_payload: usize) -> (r: usize)
        requires
            max_payload >= 19,
        ensures
            r == max_payload - 19,
    {
        max_payload - 19
    }
}

impl Wire for Message {
    type Model = MessageModel;

    open spec fn model(&self) -> MessageModel {
        match self {
            Message::Hello => MessageModel::Hello,
            Message::KeepAlive(id) => MessageModel::KeepAlive { id: *id },
            Message::CountFilesToUpload(count) => MessageModel::CountFilesToUpload {
                count: *count,
            },
            Message::File { filename, created, size, id } => MessageModel::File {
                filename: encode_utf8(filename@),
                created: *created,
                size: *size,
                id: *id,
            },
            Message::FileChunk { id, offset, content_size, content } => MessageModel::FileChunk {
                id: *id,
                offset: *offset,
                content: content@.take(*content_size as int),
            },
            Message::Done => MessageModel::Done,
        }
    }

    open spec fn wire_wf(&self) -> bool {
        match self {
            Message::FileChunk { content_size, content, .. } => *content_size
                <= content@.len(),
            _ => true,
        }
    }

    open spec fn wire_encodes(&self) -> bool {
        match self {
            Message::File { filename, .. } => encode_utf8(filename@).len() <= 0xffff,
            _ => true,
        }
    }

    open spec fn wire_bytes(m: MessageModel) -> Seq<u8> {
        spec_message_bytes(m)
    }

    open spec fn wire_parse(input: Seq<u8>) -> ParseOutcome<MessageModel> {
        spec_parse_message(input)
    }

    fn to_wire(&self) -> (r: OnewayResult<Vec<u8>>) {
        match self {
            Message::Hello => {
                let mut out: Vec<u8> = Vec::new();
                out.push(0u8);
                proof {
                    assert(out@ =~= spec_message_bytes(self.model()));
                }
                Ok(out)
            },
            Message::KeepAlive(id) => {
                let mut out: Vec<u8> = Vec::new();
                out.push(1u8);
                push_be64(&mut out, *id);
                proof {
                    assert(out@ =~= spec_message_bytes(self.model()));
                }
                Ok(out)
            },
            Message::CountFilesToUpload(count) => {
                let mut out: Vec<u8> = Vec::new();
                out.push(2u8);
                push_be64(&mut out, *count);
                proof {
                    assert(out@ =~= spec_message_bytes(self.model()));
                }
                Ok(out)
            },
            Message::File { filename, created, size, id } => {
                let fb = filename.as_str().as_bytes();
                if fb.len() > 0xffff {
                    return Err(Error::IntegerConversion);
                }
                let mut out: Vec<u8> = Vec::new();
                out.push(3u8);
                push_be16(&mut out, fb.len() as u16);
                out.extend_from_slice(fb);
                push_be64(&mut out, *created);
                push_be64(&mut out, *size);
                push_be64(&mut out, *id);
                proof {
                    assert(out@ =~= spec_message_bytes(self.model()));
                }
                Ok(out)
            },
            Message::FileChunk { id, offset, content_size, content } => {
                let mut out: Vec<u8> = Vec::new();
                out.push(4u8);
                push_be64(&mut out, *id);
                push_be64(&mut out, *offset);
                push_be16(&mut out, *content_size);
                let body = slice_subrange(content.as_slice(), 0, *content_size as usize);
                out.extend_from_slice(body);
                proof {
                    assert(body@ =~= content@.take(*content_size as int));
                    assert(out@ =~= spec_message_bytes(self.model()));
                }
                Ok(out)
            },
            Message::Done => {
                let mut out: Vec<u8> = Vec::new();
                out.push(5u8);
                proof {
                    assert(out@ =~= spec_message_bytes(self.model()));
                }
                Ok(out)
            },
        }
    }

    fn from_wire(input: &[u8]) -> (r: OnewayResult<(Self, usize)>) {
        let n = input.len();
        if n < 1 {
            return Err(Error::Deserialize(ParseFault::Incomplete));
        }
        let tag = input[0];
        if tag == 0 {
            Ok((Message::Hello, 1))
        } else if tag == 1 {
            if n < 9 {
                return Err(Error::Deserialize(ParseFault::Incomplete));
            }
            let id = read_be64(input, 1);
            Ok((Message::KeepAlive(id), 9))
        } else if tag == 2 {
            if n < 9 {
                return Err(Error::Deserialize(ParseFault::Incomplete));
            }
            let count = read_be64(input, 1);
            Ok((Message::CountFilesToUpload(count), 9))
        } else if tag == 3 {
            if n < 3 {
                return Err(Error::Deserialize(ParseFault::Incomplete));
            }
            let flen = read_be16(input, 1) as usize;
            if n < 27 + flen {
                return Err(Error::Deserialize(ParseFault::Incomplete));
            }
            let fb = slice_subrange(input, 3, 3 + flen);
            let fv = slice_to_vec(fb);
            let ghost fbytes = input@.subrange(3, 3 + flen as int);
            match bytes_to_string(fv) {
                None => Err(Error::Deserialize(ParseFault::Malformed)),
                Some(filename) => {
                    proof {
                        decode_utf8_encode_utf8(fbytes);
                    }
                    let created = read_be64(input, 3 + flen);
                    let size = read_be64(input, 11 + flen);
                    let id = read_be64(input, 19 + flen);
                    Ok((Message::File { filename, created, size, id }, 27 + flen))
                },
            }
        } else if tag == 4 {
            if n < 19 {
                return Err(Error::Deserialize(ParseFault::Incomplete));
            }
            let clen = read_be16(input, 17) as usize;
            if n < 19 + clen {
                return Err(Error::Deserialize(ParseFault::Incomplete));
            }
            let id = read_be64(input, 1);
            let offset = read_be64(input, 9);
            let content = slice_to_vec(slice_subrange(input, 19, 19 + clen));
            proof {
                assert(content@.take(clen as int) =~= content@);
            }
            Ok((Message::FileChunk { id, offset, content_size: clen as u16, content }, 19 + clen))
        } else if tag == 5 {
            Ok((Message::Done, 1))
        } else {
            Err(Error::Deserialize(ParseFault::Malformed))
        }
    }
}

/// Message round-trip law: parsing the encoding of any well-formed
/// message model yields that model back and consumes every byte.
#[verifier::rlimit(30)]
pub proof fn lemma_message_round_trip(m: MessageModel)
    requires
        spec_message_wf(m),
    ensures
        spec_parse_message(spec_message_bytes(m)) == (ParseOutcome::Parsed {
            value: m,
            used: spec_message_bytes(m).len() as int,
        }),
{
    let bytes = spec_message_bytes(m);
    match m {
        MessageModel::Hello => {
            assert(bytes[0] == 0);
        },
        MessageModel::KeepAlive { id } => {
            assert(bytes[0] == 1);
            assert(bytes.subrange(1, 9) =~= spec_be64(id));
            lemma_be64_round_trip(id);
        },
        MessageModel::CountFilesToUpload { count } => {
            assert(bytes[0] == 2);
            assert(bytes.subrange(1, 9) =~= spec_be64(count));
            lemma_be64_round_trip(count);
        },
        MessageModel::File { filename, created, size, id } => {
            let flen = filename.len() as int;
            assert(bytes[0] == 3);
            assert(bytes.subrange(1, 3) =~= spec_be16(filename.len() as u16));
            lemma_be16_round_trip(filename.len() as u16);
            assert(bytes.len() == 27 + flen);
            assert(bytes.subrange(3, 3 + flen) =~= filename);
            assert(bytes.subrange(3 + flen, 11 + flen) =~= spec_be64(created));
            assert(bytes.subrange(11 + flen, 19 + flen) =~= spec_be64(size));
            assert(bytes.subrange(19 + flen, 27 + flen) =~= spec_be64(id));
            lemma_be64_round_trip(created);
            lemma_be64_round_trip(size);
            lemma_be64_round_trip(id);
            assert(spec_parse_message(bytes) =~= (ParseOutcome::Parsed {
                value: m,
                used: bytes.len() as int,
            }));
        },
        MessageModel::FileChunk { id, offset, content } => {
            let clen = content.len() as int;
            assert(bytes[0] == 4);
            assert(bytes.subrange(1, 9) =~= spec_be64(id));
            assert(bytes.subrange(9, 17) =~= spec_be64(offset));
            assert(bytes.subrange(17, 19) =~= spec_be16(content.len() as u16));
            lemma_be64_round_trip(id);
            lemma_be64_round_trip(offset);
            lemma_be16_round_trip(content.len() as u16);
            assert(bytes.len() == 19 + clen);
            assert(bytes.subrange(19, 19 + clen) =~= content);
            assert(spec_parse_message(bytes) =~= (ParseOutcome::Parsed {
                value: m,
                used: bytes.len() as int,
            }));
        },
        MessageModel::Done => {
            assert(bytes[0] == 5);
        },
    }
}

} // verus!

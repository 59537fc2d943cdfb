//! Sender-side logic: slicing a file's content into `FileChunk`
//! messages that each fit in one datagram.
//!
//! The sender avoids fragmentation by sizing every chunk against the
//! MTU: the envelope header claims 6 bytes of a datagram and the fixed
//! `FileChunk` prefix 19 more, so each chunk carries at most `mtu - 25`
//! content bytes.  A final chunk with no content signals the end of the
//! file.

use crate::messages::{Message, MessageModel, spec_message_bytes, spec_message_wf};
use crate::Wire;
use vstd::prelude::*;
use vstd::slice::{slice_subrange, slice_to_vec};

verus! {

/// Whether a message, once framed in an envelope, fits in one datagram
/// of `mtu` bytes.
pub open spec fn spec_fits(m: MessageModel, mtu: int) -> bool {
    spec_message_bytes(m).len() + 6 <= mtu
}

/// Size bound law, fixed-size messages: `Hello`, `Done`, `KeepAlive`
/// and `CountFilesToUpload` fit in any datagram of at least 15 bytes.
pub proof fn lemma_control_message_fits(mtu: int)
    requires
        mtu >= 15,
    ensures
        spec_fits(MessageModel::Hello, mtu),
        spec_fits(MessageModel::Done, mtu),
        forall|id: u64| #[trigger] spec_fits(MessageModel::KeepAlive { id }, mtu),
        forall|count: u64| #[trigger] spec_fits(MessageModel::CountFilesToUpload { count }, mtu),
{
}

/// The models of a sequence of messages.
pub open spec fn spec_messages_model(s: Seq<Message>) -> Seq<MessageModel> {
    s.map_values(|m: Message| m.model())
}

/// The chunk messages a sender emits for file `id` whose remaining
/// content starts at byte `off`, each chunk carrying at most `step`
/// content bytes.  The closing empty chunk is not included.
pub open spec fn spec_file_chunks(id: u64, content: Seq<u8>, off: int, step: int) -> Seq<
    MessageModel,
>
    recommends
        1 <= step,
        0 <= off <= content.len(),
    decreases content.len() - off,
        when 0 <= off && 1 <= step
{
    if off >= content.len() {
        seq![]
    } else {
        let end = if content.len() - off > step {
            off + step
        } else {
            content.len() as int
        };
        seq![
            MessageModel::FileChunk { id, offset: off as u64, content: content.subrange(off, end) },
        ] + spec_file_chunks(id, content, end, step)
    }
}

/// Size bound law, file chunks: every chunk message the sender
/// produces against `mtu` is well formed and, once framed in an
/// envelope, fits in one datagram of `mtu` bytes.
pub proof fn lemma_sender_size_bound(id: u64, content: Seq<u8>, off: int, mtu: int)
    requires
        26 <= mtu,
        mtu - 25 <= 0xffff,
        0 <= off <= content.len(),
    ensures
        forall|j: int|
            0 <= j < spec_file_chunks(id, content, off, mtu - 25).len() ==> {
                &&& spec_message_wf(#[trigger] spec_file_chunks(id, content, off, mtu - 25)[j])
                &&& spec_fits(spec_file_chunks(id, content, off, mtu - 25)[j], mtu)
            },
    decreases content.len() - off,
{
    let step = mtu - 25;
    let chunks = spec_file_chunks(id, content, off, step);
    if off < content.len() {
        let end = if content.len() - off > step {
            off + step
        } else {
            content.len() as int
        };
        let head = MessageModel::FileChunk {
            id,
            offset: off as u64,
            content: content.subrange(off, end),
        };
        assert(spec_message_bytes(head).len() == 19 + (end - off));
        lemma_sender_size_bound(id, content, end, mtu);
        let tail = spec_file_chunks(id, content, end, step);
        assert forall|j: int| 0 <= j < chunks.len() implies {
            &&& spec_message_wf(#[trigger] chunks[j])
            &&& spec_fits(chunks[j], mtu)
        } by {
            if j == 0 {
                assert(chunks[j] == head);
            } else {
                assert(chunks[j] == tail[j - 1]);
            }
        }
    }
}

/// Slices the content of file `id` into the `FileChunk` messages the
/// sender emits, ending with the empty chunk that closes the file.
/// Every produced message is well formed and fits in one datagram of
/// `mtu` bytes (the size bound law).
pub fn chunk_file_messages(id: u64, content: &[u8], mtu: usize) -> (r: Vec<Message>)
    requires
        26 <= mtu <= 65560,
        content@.len() <= u64::MAX,
    ensures
        r@.len() == spec_file_chunks(id, content@, 0, mtu - 25).len() + 1,
        spec_messages_model(r@) == spec_file_chunks(id, content@, 0, mtu - 25) + seq![
            MessageModel::FileChunk {
                id,
                offset: content@.len() as u64,
                content: Seq::<u8>::empty(),
            },
        ],
        forall|j: int|
            0 <= j < r@.len() ==> {
                &&& (#[trigger] r@[j]).wire_wf()
                &&& spec_message_wf(r@[j].model())
                &&& spec_fits(r@[j].model(), mtu as int)
            },
{
    let step = mtu - 25;
    let l = content.len();
    let mut out: Vec<Message> = Vec::new();
    let mut off: usize = 0;
    proof {
        assert(spec_messages_model(out@) =~= Seq::<MessageModel>::empty());
    }
    while off < l
        invariant
            26 <= mtu <= 65560,
            step == mtu - 25,
            l == content@.len(),
            l <= u64::MAX,
            off <= l,
            spec_messages_model(out@) + spec_file_chunks(id, content@, off as int, step as int)
                =~= spec_file_chunks(id, content@, 0, step as int),
            forall|j: int|
                0 <= j < out@.len() ==> {
                    &&& (#[trigger] out@[j]).wire_wf()
                    &&& spec_message_wf(out@[j].model())
                    &&& spec_fits(out@[j].model(), mtu as int)
                },
        decreases l - off,
    {
        let end = if l - off > step {
            off + step
        } else {
            l
        };
        let body = slice_to_vec(slice_subrange(content, off, end));
        let cs = (end - off) as u16;
        let ghost pre = out@;
        let ghost bodyv = body@;
        let message = Message::FileChunk {
            id,
            offset: off as u64,
            content_size: cs,
            content: body,
        };
        proof {
            assert(bodyv.take(cs as int) =~= content@.subrange(off as int, end as int));
            assert(message.model() == (MessageModel::FileChunk {
                id,
                offset: off as u64,
                content: content@.subrange(off as int, end as int),
            }));
        }
        out.push(message);
        off = end;
        proof {
            assert(spec_messages_model(out@) =~= spec_messages_model(pre).push(
                out@.last().model(),
            ));
            assert(spec_messages_model(out@) + spec_file_chunks(
                id,
                content@,
                off as int,
                step as int,
            ) =~= spec_file_chunks(id, content@, 0, step as int));
        }
    }
    let ghost chunks = out@;
    let empty_body: Vec<u8> = Vec::new();
    let ghost emptyv = empty_body@;
    let sentinel = Message::FileChunk { id, offset: l as u64, content_size: 0, content: empty_body };
    proof {
        assert(emptyv.take(0) =~= Seq::<u8>::empty());
        assert(sentinel.model() == (MessageModel::FileChunk {
            id,
            offset: l as u64,
            content: Seq::<u8>::empty(),
        }));
    }
    out.push(sentinel);
    proof {
        assert(spec_file_chunks(id, content@, l as int, step as int) =~= Seq::<
            MessageModel,
        >::empty());
        assert(spec_messages_model(chunks) =~= spec_file_chunks(id, content@, 0, step as int));
        assert(spec_messages_model(out@) =~= spec_messages_model(chunks).push(out@.last().model()));
        assert(spec_messages_model(out@) =~= spec_file_chunks(id, content@, 0, step as int) + seq![
            MessageModel::FileChunk {
                id,
                offset: content@.len() as u64,
                content: Seq::<u8>::empty(),
            },
        ]);
    }
    out
}

} // verus!

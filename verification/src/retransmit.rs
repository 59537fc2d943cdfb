//! Wire framing and the retransmit / reassembly layer.
//!
//! Every datagram carries exactly one chunk envelope: a four-byte magic,
//! the payload length as a big-endian 16-bit integer, and the payload.
//! The sender emits each envelope several times back-to-back (blind
//! repetition); the receiver's [`Reassembler`] buffers incoming bytes,
//! recovers envelope boundaries and drops any chunk byte-identical to the
//! most recently accepted one, collapsing the repetitions back to one.

use crate::config::Config;
use crate::utils::{lemma_be16_round_trip, push_be16, read_be16, spec_be16, spec_be16_val};
use crate::{Error, OnewayResult, ParseFault, ParseOutcome};
use vstd::prelude::*;
use vstd::slice::{slice_subrange, slice_to_vec};

verus! {

/// Number of bytes of the envelope header: four magic bytes and a
/// big-endian 16-bit payload length.
pub const RETRANSMIT_HEADER_SIZE: usize = 6;

/// The magic bytes `"1WAY"` that open every envelope.
pub open spec fn spec_magic() -> Seq<u8> {
    seq![0x31u8, 0x57u8, 0x41u8, 0x59u8]
}

/// The envelope framing a payload: magic, length, payload bytes.
pub open spec fn spec_envelope(payload: Seq<u8>) -> Seq<u8>
    recommends
        payload.len() <= 0xffff,
{
    spec_magic() + spec_be16(payload.len() as u16) + payload
}

/// Byte-level parsing of one envelope from the head of `input`.  Fewer
/// than six bytes, or fewer payload bytes than the header promises,
/// surface as `Incomplete`; a wrong magic surfaces as `Malformed`.
pub open spec fn spec_parse_envelope(input: Seq<u8>) -> ParseOutcome<Seq<u8>> {
    if input.len() < 6 {
        ParseOutcome::Incomplete
    } else if input.subrange(0, 4) != spec_magic() {
        ParseOutcome::Malformed
    } else {
        let size = spec_be16_val(input.subrange(4, 6)) as int;
        if input.len() < 6 + size {
            ParseOutcome::Incomplete
        } else {
            ParseOutcome::Parsed { value: input.subrange(6, 6 + size), used: 6 + size }
        }
    }
}

/// The largest payload an envelope may carry inside one datagram of
/// `mtu` bytes: everything but the envelope header.
pub fn max_payload_size(mtu: usize) -> (r: usize)
    requires
        mtu > RETRANSMIT_HEADER_SIZE,
    ensures
        r == mtu - RETRANSMIT_HEADER_SIZE,
{
    mtu - RETRANSMIT_HEADER_SIZE
}

/// Builds the envelope framing `payload`.
pub fn encode_envelope(payload: &[u8]) -> (r: Vec<u8>)
    requires
        payload@.len() <= 0xffff,
    ensures
        r@ == spec_envelope(payload@),
{
    let mut out: Vec<u8> = Vec::new();
    out.push(0x31u8);
    out.push(0x57u8);
    out.push(0x41u8);
    out.push(0x59u8);
    push_be16(&mut out, payload.len() as u16);
    out.extend_from_slice(payload);
    proof {
        assert(out@ =~= spec_envelope(payload@));
    }
    out
}

/// Framing round-trip law: parsing the envelope of any payload of at
/// most 65535 bytes yields the payload back and consumes the whole
/// envelope, and the envelope opens with the magic followed by the
/// payload length as a big-endian 16-bit integer.
pub proof fn lemma_envelope_round_trip(p: Seq<u8>)
    requires
        p.len() <= 0xffff,
    ensures
        spec_parse_envelope(spec_envelope(p)) == (ParseOutcome::Parsed {
            value: p,
            used: spec_envelope(p).len() as int,
        }),
        spec_envelope(p).len() == 6 + p.len(),
        spec_envelope(p).subrange(0, 4) == spec_magic(),
        spec_envelope(p).subrange(4, 6) == spec_be16(p.len() as u16),
{
    let e = spec_envelope(p);
    assert(e.subrange(0, 4) =~= spec_magic());
    assert(e.subrange(4, 6) =~= spec_be16(p.len() as u16));
    lemma_be16_round_trip(p.len() as u16);
    assert(e.subrange(6, 6 + p.len() as int) =~= p);
}

/// A generic wrapper preparing data to be sent over an unreliable wire:
/// it frames the data once and yields the framed bytes the configured
/// number of times.
#[derive(Debug)]
pub struct Retransmit {
    /// Current emission, from 1 to `total_emissions + 1`.
    current_emission: usize,
    /// Total number of transmissions of the same message.
    total_emissions: usize,
    /// The framed message, yielded on every emission.
    buffer: Vec<u8>,
}

impl Retransmit {
    /// The framed message this value emits.
    pub closed spec fn buffer_bytes(&self) -> Seq<u8> {
        self.buffer@
    }

    /// How many emissions have been yielded since the last reset.
    pub closed spec fn emitted(&self) -> int {
        self.current_emission - 1
    }

    /// How many emissions each message gets.
    pub closed spec fn total(&self) -> int {
        self.total_emissions as int
    }

    /// Internal consistency: the emission counter stays in range.
    pub closed spec fn wf(&self) -> bool {
        1 <= self.current_emission && self.current_emission <= self.total_emissions + 1
            && self.total_emissions < usize::MAX
    }

    /// Constructs a new `Retransmit` for one message.  The framed
    /// message must fit in one datagram of `mtu` bytes; a message too
    /// large for the MTU is refused as `PayloadTooLarge`, one whose
    /// length does not fit the wire width as `IntegerConversion`.
    pub fn new(data: &[u8], remission_count: usize, mtu: usize) -> (r: OnewayResult<Retransmit>)
        requires
            data@.len() + RETRANSMIT_HEADER_SIZE <= usize::MAX,
            remission_count < usize::MAX,
        ensures
            (match r {
                Ok(rt) => {
                    &&& data@.len() + RETRANSMIT_HEADER_SIZE <= mtu
                    &&& data@.len() <= 0xffff
                    &&& rt.wf()
                    &&& rt.buffer_bytes() == spec_envelope(data@)
                    &&& rt.emitted() == 0
                    &&& rt.total() == remission_count
                },
                Err(Error::PayloadTooLarge(sz)) => {
                    &&& data@.len() + RETRANSMIT_HEADER_SIZE > mtu
                    &&& sz == data@.len() + RETRANSMIT_HEADER_SIZE
                },
                Err(Error::IntegerConversion) => {
                    &&& data@.len() + RETRANSMIT_HEADER_SIZE <= mtu
                    &&& data@.len() > 0xffff
                },
                _ => false,
            }),
    {
        let buffer_size = data.len() + RETRANSMIT_HEADER_SIZE;
        if buffer_size > mtu {
            return Err(Error::PayloadTooLarge(buffer_size));
        }
        if data.len() > 0xffff {
            return Err(Error::IntegerConversion);
        }
        let buffer = encode_envelope(data);
        Ok(Retransmit { current_emission: 1, total_emissions: remission_count, buffer })
    }

    /// Yields the framed message for the next emission, or `None` once
    /// all emissions are spent.
    pub fn get_next_chunk(&mut self) -> (r: Option<Vec<u8>>)
        requires
            old(self).wf(),
        ensures
            final(self).wf(),
            final(self).buffer_bytes() == old(self).buffer_bytes(),
            final(self).total() == old(self).total(),
            (if old(self).emitted() < old(self).total() {
                &&& r matches Some(c) && c@ == old(self).buffer_bytes()
                &&& final(self).emitted() == old(self).emitted() + 1
            } else {
                &&& r is None
                &&& final(self).emitted() == old(self).emitted()
            }),
    {
        if self.current_emission <= self.total_emissions {
            self.current_emission = self.current_emission + 1;
            return Some(slice_to_vec(self.buffer.as_slice()));
        }
        None
    }

    /// Resets the emission counter so the same message can be yielded
    /// over again.
    pub fn reset(&mut self)
        ensures
            old(self).wf() ==> final(self).wf(),
            final(self).buffer_bytes() == old(self).buffer_bytes(),
            final(self).total() == old(self).total(),
            final(self).emitted() == 0,
    {
        self.current_emission = 1;
    }
}

/// Outcome of extracting the next distinct chunk from buffered bytes,
/// at the specification level.  `rest` is what stays buffered.
#[verifier::ext_equal]
pub enum ExtractOutcome {
    /// A chunk was accepted.
    Chunk { chunk: Seq<u8>, rest: Seq<u8> },
    /// No complete envelope is buffered yet.
    Incomplete { rest: Seq<u8> },
    /// The buffered bytes do not open with a well-formed envelope.
    Malformed { rest: Seq<u8> },
}

/// Extraction function of the reassembler: parse envelopes from the
/// head of `avail`, silently dropping every chunk byte-identical to
/// `prev` (the most recently accepted chunk), until a distinct chunk or
/// the end of the parsable bytes is reached.
pub open spec fn spec_extract(avail: Seq<u8>, prev: Seq<u8>) -> ExtractOutcome
    decreases avail.len(),
{
    match spec_parse_envelope(avail) {
        ParseOutcome::Parsed { value, used } => if value == prev {
            spec_extract(avail.skip(used), prev)
        } else {
            ExtractOutcome::Chunk { chunk: value, rest: avail.skip(used) }
        },
        ParseOutcome::Incomplete => ExtractOutcome::Incomplete { rest: avail },
        ParseOutcome::Malformed => ExtractOutcome::Malformed { rest: avail },
    }
}

/// Reassembles chunk payloads out of the byte stream received from one
/// peer, suppressing the blind repetitions the sender emits.
#[derive(Debug)]
pub struct Reassembler {
    /// Buffer of bytes handed to this struct and not yet consumed.
    buffer: Vec<u8>,
    /// Read offset into the buffer.
    offset: usize,
    /// Configured MTU, used to size fresh buffers.
    mtu: usize,
    /// The most recently accepted chunk.
    previous_chunk: Vec<u8>,
}

impl Reassembler {
    /// The bytes buffered and not yet consumed.
    pub closed spec fn available(&self) -> Seq<u8> {
        self.buffer@.skip(self.offset as int)
    }

    /// The most recently accepted chunk.
    pub closed spec fn previous(&self) -> Seq<u8> {
        self.previous_chunk@
    }

    /// Internal consistency: the read offset stays inside the buffer.
    pub closed spec fn wf(&self) -> bool {
        self.offset <= self.buffer@.len()
    }

    /// A fresh reassembler with nothing buffered and no chunk accepted.
    pub fn new(config: &Config) -> (r: Reassembler)
        ensures
            r.wf(),
            r.available() == Seq::<u8>::empty(),
            r.previous() == Seq::<u8>::empty(),
    {
        Reassembler {
            buffer: Vec::with_capacity(double_capacity(config.mtu)),
            offset: 0,
            mtu: config.mtu,
            previous_chunk: Vec::with_capacity(config.mtu),
        }
    }

    /// Drops `count` consumed bytes from the head of the available
    /// bytes, compacting the buffer once more than half of it has been
    /// consumed.
    fn consume(&mut self, count: usize)
        requires
            old(self).wf(),
            count <= old(self).available().len(),
        ensures
            final(self).wf(),
            final(self).available() == old(self).available().skip(count as int),
            final(self).previous() == old(self).previous(),
    {
        let ghost target = old(self).available().skip(count as int);
        let buf_len = self.buffer.len();
        assert(self.offset + count <= buf_len);
        self.offset = self.offset + count;
        proof {
            assert(self.available() =~= target);
        }
        if self.offset > self.buffer.len() / 2 {
            let mut fresh: Vec<u8> = Vec::with_capacity(double_capacity(self.mtu));
            fresh.extend_from_slice(
                slice_subrange(self.buffer.as_slice(), self.offset, self.buffer.len()),
            );
            self.buffer = fresh;
            self.offset = 0;
            proof {
                assert(self.available() =~= target);
            }
        }
    }

    /// Appends freshly received bytes to the buffer.
    pub fn push_data(&mut self, data: &[u8])
        requires
            old(self).wf(),
        ensures
            final(self).wf(),
            final(self).available() == old(self).available() + data@,
            final(self).previous() == old(self).previous(),
    {
        self.buffer.extend_from_slice(data);
        proof {
            assert(self.available() =~= old(self).available() + data@);
        }
    }

    /// Extracts the next distinct chunk into `data`.
    ///
    /// With nothing buffered at all the call fails with `NoData`; with a
    /// partial envelope buffered it fails with `Incomplete`; both are
    /// benign and the caller should wait for more bytes.  Chunks equal
    /// to the most recently accepted one are silently consumed.
    pub fn get_next_data(&mut self, data: &mut Vec<u8>) -> (r: OnewayResult<()>)
        requires
            old(self).wf(),
        ensures
            final(self).wf(),
            (if old(self).available().len() == 0 {
                &&& r matches Err(Error::NoData)
                &&& final(self).available() == old(self).available()
                &&& final(self).previous() == old(self).previous()
                &&& final(data)@ == Seq::<u8>::empty()
            } else {
                match spec_extract(old(self).available(), old(self).previous()) {
                    ExtractOutcome::Chunk { chunk, rest } => {
                        &&& r is Ok
                        &&& final(data)@ == chunk
                        &&& final(self).available() == rest
                        &&& final(self).previous() == chunk
                    },
                    ExtractOutcome::Incomplete { rest } => {
                        &&& r matches Err(Error::Deserialize(ParseFault::Incomplete))
                        &&& final(self).available() == rest
                        &&& final(self).previous() == old(self).previous()
                        &&& final(data)@ == Seq::<u8>::empty()
                    },
                    ExtractOutcome::Malformed { rest } => {
                        &&& r matches Err(Error::Deserialize(ParseFault::Malformed))
                        &&& final(self).available() == rest
                        &&& final(self).previous() == old(self).previous()
                        &&& final(data)@ == Seq::<u8>::empty()
                    },
                }
            }),
    {
        data.clear();
        if self.buffer.len() == self.offset {
            return Err(Error::NoData);
        }
        proof {
            assert(data@ =~= Seq::<u8>::empty());
        }
        loop
            invariant
                self.wf(),
                data@ == Seq::<u8>::empty(),
                old(self).available().len() != 0,
                self.previous() == old(self).previous(),
                spec_extract(self.available(), self.previous()) == spec_extract(
                    old(self).available(),
                    old(self).previous(),
                ),
            decreases self.available().len(),
        {
            let ghost avail = self.available();
            let avail_len = self.buffer.len() - self.offset;
            if avail_len < 6 {
                return Err(Error::Deserialize(ParseFault::Incomplete));
            }
            let o = self.offset;
            if self.buffer[o] != 0x31 || self.buffer[o + 1] != 0x57 || self.buffer[o + 2] != 0x41
                || self.buffer[o + 3] != 0x59 {
                proof {
                    assert(avail.subrange(0, 4) != spec_magic());
                }
                return Err(Error::Deserialize(ParseFault::Malformed));
            }
            proof {
                assert(avail.subrange(0, 4) =~= spec_magic());
            }
            let size = read_be16(self.buffer.as_slice(), o + 4) as usize;
            proof {
                assert(self.buffer@.subrange(o as int + 4, o as int + 6) =~= avail.subrange(4, 6));
            }
            if avail_len < 6 + size {
                return Err(Error::Deserialize(ParseFault::Incomplete));
            }
            let start = o + 6;
            let chunk_slice = slice_subrange(self.buffer.as_slice(), start, start + size);
            proof {
                assert(chunk_slice@ =~= avail.subrange(6, 6 + size as int));
            }
            let dup = slices_equal(chunk_slice, self.previous_chunk.as_slice());
            if dup {
                self.consume(6 + size);
                proof {
                    assert(self.available() =~= avail.skip(6 + size as int));
                }
            } else {
                let chunk_vec = slice_to_vec(chunk_slice);
                data.extend_from_slice(chunk_vec.as_slice());
                self.previous_chunk = chunk_vec;
                self.consume(6 + size);
                proof {
                    assert(self.available() =~= avail.skip(6 + size as int));
                }
                return Ok(());
            }
        }
    }
}

/// Whatever the extraction outcome, the bytes left buffered never grow,
/// and accepting a chunk consumes at least one envelope.
pub proof fn lemma_extract_shrinks(avail: Seq<u8>, prev: Seq<u8>)
    ensures
        (match spec_extract(avail, prev) {
            ExtractOutcome::Chunk { rest, .. } => rest.len() < avail.len(),
            ExtractOutcome::Incomplete { rest } => rest.len() <= avail.len(),
            ExtractOutcome::Malformed { rest } => rest.len() <= avail.len(),
        }),
    decreases avail.len(),
{
    match spec_parse_envelope(avail) {
        ParseOutcome::Parsed { value, used } => {
            if value == prev {
                lemma_extract_shrinks(avail.skip(used), prev);
            }
        },
        _ => {},
    }
}

/// Twice `n`, saturating at the largest representable size; buffers
/// are sized generously to make compaction rare.
fn double_capacity(n: usize) -> (r: usize)
    ensures
        r >= n,
{
    if n <= usize::MAX / 2 {
        n * 2
    } else {
        n
    }
}

/// Compares two byte slices for equality.
pub(crate) fn slices_equal(a: &[u8], b: &[u8]) -> (r: bool)
    ensures
        r <==> a@ == b@,
{
    if a.len() != b.len() {
        proof {
            assert(a@.len() != b@.len());
        }
        return false;
    }
    let n = a.len();
    let mut i: usize = 0;
    while i < n
        invariant
            i <= n,
            n == a@.len(),
            n == b@.len(),
            forall|j: int| 0 <= j < i ==> a@[j] == b@[j],
        decreases n - i,
    {
        if a[i] != b[i] {
            return false;
        }
        i = i + 1;
    }
    proof {
        assert(a@ =~= b@);
    }
    true
}

/// `k` back-to-back copies of the byte sequence `s`.
pub open spec fn spec_repeat(s: Seq<u8>, k: nat) -> Seq<u8>
    decreases k,
{
    if k == 0 {
        Seq::empty()
    } else {
        s + spec_repeat(s, (k - 1) as nat)
    }
}

/// Extracting from an envelope of a chunk distinct from the previously
/// accepted one, followed by any further bytes, accepts that chunk and
/// leaves exactly the further bytes buffered.
pub proof fn lemma_extract_head(p: Seq<u8>, prev: Seq<u8>, rest: Seq<u8>)
    requires
        p.len() <= 0xffff,
        p != prev,
    ensures
        spec_extract(spec_envelope(p) + rest, prev) == (ExtractOutcome::Chunk { chunk: p, rest }),
{
    let w = spec_envelope(p) + rest;
    assert(w.subrange(0, 4) =~= spec_magic());
    assert(w.subrange(4, 6) =~= spec_be16(p.len() as u16));
    lemma_be16_round_trip(p.len() as u16);
    assert(w.subrange(6, 6 + p.len() as int) =~= p);
    assert(w.skip(6 + p.len() as int) =~= rest);
}

/// Extracting from a single envelope of a chunk distinct from the
/// previously accepted one accepts the chunk and drains the buffer.
pub proof fn lemma_single_envelope(p: Seq<u8>, prev: Seq<u8>)
    requires
        p.len() <= 0xffff,
        p != prev,
    ensures
        spec_extract(spec_envelope(p), prev) == (ExtractOutcome::Chunk {
            chunk: p,
            rest: Seq::<u8>::empty(),
        }),
{
    assert(spec_envelope(p) + Seq::<u8>::empty() =~= spec_envelope(p));
    lemma_extract_head(p, prev, Seq::<u8>::empty());
}

/// Every copy of a chunk equal to the previously accepted one is
/// silently consumed: extraction over any number of such copies ends
/// with an empty buffer and no payload.
pub proof fn lemma_dedup_drains(c: Seq<u8>, j: nat)
    requires
        c.len() <= 0xffff,
    ensures
        spec_extract(spec_repeat(spec_envelope(c), j), c) == (ExtractOutcome::Incomplete {
            rest: Seq::<u8>::empty(),
        }),
    decreases j,
{
    if j == 0 {
        assert(spec_repeat(spec_envelope(c), 0) =~= Seq::<u8>::empty());
    } else {
        let w = spec_repeat(spec_envelope(c), j);
        let tail = spec_repeat(spec_envelope(c), (j - 1) as nat);
        assert(w == spec_envelope(c) + tail);
        assert(w.subrange(0, 4) =~= spec_magic());
        assert(w.subrange(4, 6) =~= spec_be16(c.len() as u16));
        lemma_be16_round_trip(c.len() as u16);
        assert(w.subrange(6, 6 + c.len() as int) =~= c);
        assert(w.skip(6 + c.len() as int) =~= tail);
        lemma_dedup_drains(c, (j - 1) as nat);
    }
}

/// Dedup idempotence law: feeding the same non-empty chunk any number
/// of times in a row to a fresh reassembler yields exactly one payload;
/// the first extraction accepts the chunk, and extraction over the
/// remaining copies yields nothing further.
pub proof fn lemma_dedup_idempotent(c: Seq<u8>, k: nat)
    requires
        0 < c.len() <= 0xffff,
        k >= 1,
    ensures
        spec_extract(spec_repeat(spec_envelope(c), k), Seq::<u8>::empty())
            == (ExtractOutcome::Chunk {
            chunk: c,
            rest: spec_repeat(spec_envelope(c), (k - 1) as nat),
        }),
        spec_extract(spec_repeat(spec_envelope(c), (k - 1) as nat), c)
            == (ExtractOutcome::Incomplete { rest: Seq::<u8>::empty() }),
{
    assert(spec_repeat(spec_envelope(c), k) == spec_envelope(c) + spec_repeat(
        spec_envelope(c),
        (k - 1) as nat,
    ));
    assert(c != Seq::<u8>::empty());
    lemma_extract_head(c, Seq::<u8>::empty(), spec_repeat(spec_envelope(c), (k - 1) as nat));
    lemma_dedup_drains(c, (k - 1) as nat);
}

/// Dedup preservation law: feeding distinct chunks `c1, c2, c1` yields
/// the sequence `c1, c2, c1`; the final copy of `c1` is not suppressed
/// because it differs from the most recently accepted chunk `c2`.
pub proof fn lemma_dedup_preservation(c1: Seq<u8>, c2: Seq<u8>)
    requires
        0 < c1.len() <= 0xffff,
        c2.len() <= 0xffff,
        c1 != c2,
    ensures
        spec_extract(
            spec_envelope(c1) + (spec_envelope(c2) + spec_envelope(c1)),
            Seq::<u8>::empty(),
        ) == (ExtractOutcome::Chunk {
            chunk: c1,
            rest: spec_envelope(c2) + spec_envelope(c1),
        }),
        spec_extract(spec_envelope(c2) + spec_envelope(c1), c1) == (ExtractOutcome::Chunk {
            chunk: c2,
            rest: spec_envelope(c1),
        }),
        spec_extract(spec_envelope(c1), c2) == (ExtractOutcome::Chunk {
            chunk: c1,
            rest: Seq::<u8>::empty(),
        }),
{
    assert(c1 != Seq::<u8>::empty());
    lemma_extract_head(c1, Seq::<u8>::empty(), spec_envelope(c2) + spec_envelope(c1));
    lemma_extract_head(c2, c1, spec_envelope(c1));
    lemma_single_envelope(c1, c2);
}

/// Partial-frame patience law: any proper prefix of an envelope yields
/// `Incomplete` and no payload, whatever chunk was accepted before.
pub proof fn lemma_partial_frame_patience(p: Seq<u8>, i: int, prev: Seq<u8>)
    requires
        p.len() <= 0xffff,
        0 <= i < spec_envelope(p).len(),
    ensures
        spec_extract(spec_envelope(p).take(i), prev) == (ExtractOutcome::Incomplete {
            rest: spec_envelope(p).take(i),
        }),
{
    let w = spec_envelope(p).take(i);
    if i < 6 {
    } else {
        assert(w.subrange(0, 4) =~= spec_magic());
        assert(w.subrange(4, 6) =~= spec_be16(p.len() as u16));
        lemma_be16_round_trip(p.len() as u16);
        assert(w.len() < 6 + p.len());
    }
}

} // verus!

//! Fragmenting envelope framing.
//!
//! This is the richer, self-describing frame of the protocol: each
//! emitted datagram opens with a fixed 14-byte header naming the
//! configured emission count, the emission number of this copy, the
//! chunk's offset and size, and the total size of the data, followed by
//! the chunk bytes.  Unlike the plain chunk envelope, this frame can
//! fragment one message over several datagrams; each fragment is
//! emitted the configured number of times before the next one starts.

use crate::config::Config;
use crate::utils::{push_le16, push_le64, spec_le16, spec_le64};
use crate::{Error, OnewayResult};
use vstd::prelude::*;
use vstd::slice::{slice_subrange, slice_to_vec};

verus! {

/// Number of bytes of the serialized envelope header.
pub const ENVELOPE_HEADER_SIZE: usize = 14;

/// The per-datagram header of the fragmenting envelope: emission
/// bookkeeping, the chunk's place in the whole, and the total size.
#[derive(Debug, Clone, PartialEq, Eq, Structural)]
pub struct EnvelopeHeader {
    /// How many copies of each chunk are emitted.
    pub emission_count: u8,
    /// Which copy this is, starting at 1.
    pub current_emission: u8,
    /// Offset of the chunk within the whole data.
    pub offset: u16,
    /// Number of chunk bytes following the header.
    pub size: u16,
    /// Total size of the data being transferred.
    pub total_size: u64,
}

/// The serialized form of an envelope header: the two emission bytes
/// followed by offset, size and total size, little-endian.
pub open spec fn spec_header_bytes(h: EnvelopeHeader) -> Seq<u8> {
    seq![h.emission_count, h.current_emission] + spec_le16(h.offset) + spec_le16(h.size)
        + spec_le64(h.total_size)
}

impl EnvelopeHeader {
    /// The number of bytes the serialized header occupies.
    pub fn size() -> (r: usize)
        ensures
            r == ENVELOPE_HEADER_SIZE,
            r == spec_header_bytes(
                EnvelopeHeader {
                    emission_count: 0,
                    current_emission: 0,
                    offset: 0,
                    size: 0,
                    total_size: 0,
                },
            ).len(),
    {
        ENVELOPE_HEADER_SIZE
    }

    /// Appends the serialized header to `out`.
    fn write_bytes(&self, out: &mut Vec<u8>)
        ensures
            final(out)@ == old(out)@ + spec_header_bytes(*self),
    {
        out.push(self.emission_count);
        out.push(self.current_emission);
        push_le16(out, self.offset);
        push_le16(out, self.size);
        push_le64(out, self.total_size);
        proof {
            assert(out@ =~= old(out)@ + spec_header_bytes(*self));
        }
    }
}

/// Yields each datagram to send: the data is cut into chunks of at
/// most `chunk_size` bytes, and every chunk is framed and yielded
/// `emission_count` times before the next chunk starts.
pub struct EnvelopeIterator {
    /// The data being sent.
    data: Vec<u8>,
    /// The envelope header, tracking the current chunk; its emission
    /// number is filled in for each yielded copy.
    header: EnvelopeHeader,
    /// Chunk size in use.
    chunk_size: usize,
    /// How many copies of the current chunk have been yielded.
    emitted: usize,
}

impl EnvelopeIterator {
    /// The data being sent.
    pub closed spec fn data_bytes(&self) -> Seq<u8> {
        self.data@
    }

    /// The chunk size in use.
    pub closed spec fn chunk_len(&self) -> int {
        self.chunk_size as int
    }

    /// The offset of the current chunk.
    pub closed spec fn cur_offset(&self) -> int {
        self.header.offset as int
    }

    /// How many copies of the current chunk have been yielded.
    pub closed spec fn cur_emitted(&self) -> int {
        self.emitted as int
    }

    /// The configured emission count.
    pub closed spec fn emissions(&self) -> int {
        self.header.emission_count as int
    }

    /// Internal consistency: the data and the chunk cursor stay within
    /// the 16-bit wire bounds.
    pub closed spec fn wf(&self) -> bool {
        &&& self.data@.len() <= 0xffff
        &&& self.header.offset <= self.data@.len()
        &&& self.chunk_size <= 0xffff
        &&& (self.data@.len() > 0 ==> self.chunk_size >= 1)
        &&& self.header.total_size == self.data@.len()
        &&& 1 <= self.header.emission_count
        &&& self.emitted <= self.header.emission_count
    }

    /// The current chunk: at most `chunk_size` bytes of the data,
    /// starting at the current offset.
    pub open spec fn spec_chunk(&self) -> Seq<u8> {
        let end = if self.data_bytes().len() - self.cur_offset() > self.chunk_len() {
            self.cur_offset() + self.chunk_len()
        } else {
            self.data_bytes().len() as int
        };
        self.data_bytes().subrange(self.cur_offset(), end)
    }

    /// A fresh iterator over `data`.  The chunk size is the whole data
    /// when it fits in one datagram of `config.mtu` bytes, and the
    /// largest size that leaves room for the header otherwise.  An
    /// emission count beyond 255 does not fit the header.
    pub fn new(data: &[u8], config: &Config) -> (r: OnewayResult<EnvelopeIterator>)
        requires
            config.mtu > ENVELOPE_HEADER_SIZE,
            config.remission_count >= 1,
            data@.len() <= 0xffff,
        ensures
            (match r {
                Ok(it) => {
                    &&& config.remission_count <= 255
                    &&& it.wf()
                    &&& it.data_bytes() == data@
                    &&& it.chunk_len() == (if data@.len() + ENVELOPE_HEADER_SIZE > config.mtu {
                        config.mtu - ENVELOPE_HEADER_SIZE
                    } else {
                        data@.len() as int
                    })
                    &&& it.cur_offset() == 0
                    &&& it.cur_emitted() == 0
                    &&& it.emissions() == config.remission_count
                },
                Err(Error::IntegerConversion) => config.remission_count > 255,
                _ => false,
            }),
    {
        let chunk_size = if data.len() + ENVELOPE_HEADER_SIZE > config.mtu {
            config.mtu - ENVELOPE_HEADER_SIZE
        } else {
            data.len()
        };
        if config.remission_count > 255 {
            return Err(Error::IntegerConversion);
        }
        let header = EnvelopeHeader {
            emission_count: config.remission_count as u8,
            current_emission: 1,
            offset: 0,
            size: 0,
            total_size: data.len() as u64,
        };
        Ok(EnvelopeIterator { data: slice_to_vec(data), header, chunk_size, emitted: 0 })
    }

    /// The current chunk of the data.
    pub fn get_chunk(&self) -> (r: Vec<u8>)
        requires
            self.wf(),
        ensures
            r@ == self.spec_chunk(),
    {
        let offset = self.header.offset as usize;
        let len = self.data.len();
        let end = if len - offset > self.chunk_size {
            offset + self.chunk_size
        } else {
            len
        };
        slice_to_vec(slice_subrange(self.data.as_slice(), offset, end))
    }

    /// Yields the next framed datagram: the current chunk behind its
    /// header, carrying the emission number of this copy, counted from
    /// 1.  Each chunk is yielded `emission_count` times before the
    /// offset advances; once the last chunk is spent the iterator
    /// yields nothing more.
    pub fn get_next_envelope(&mut self) -> (r: Option<Vec<u8>>)
        requires
            old(self).wf(),
        ensures
            final(self).wf(),
            final(self).data_bytes() == old(self).data_bytes(),
            final(self).chunk_len() == old(self).chunk_len(),
            final(self).emissions() == old(self).emissions(),
            (if old(self).cur_emitted() < old(self).emissions() {
                &&& final(self).cur_offset() == old(self).cur_offset()
                &&& final(self).cur_emitted() == old(self).cur_emitted() + 1
                &&& (r matches Some(v) && v@ == spec_header_bytes(
                    EnvelopeHeader {
                        emission_count: old(self).emissions() as u8,
                        current_emission: (old(self).cur_emitted() + 1) as u8,
                        offset: old(self).cur_offset() as u16,
                        size: old(self).spec_chunk().len() as u16,
                        total_size: old(self).data_bytes().len() as u64,
                    },
                ) + old(self).spec_chunk())
            } else if old(self).cur_offset() + old(self).chunk_len() < old(
                self,
            ).data_bytes().len() {
                &&& final(self).cur_offset() == old(self).cur_offset() + old(self).chunk_len()
                &&& final(self).cur_emitted() == 1
                &&& (r matches Some(v) && v@ == spec_header_bytes(
                    EnvelopeHeader {
                        emission_count: old(self).emissions() as u8,
                        current_emission: 1,
                        offset: final(self).cur_offset() as u16,
                        size: final(self).spec_chunk().len() as u16,
                        total_size: old(self).data_bytes().len() as u64,
                    },
                ) + final(self).spec_chunk())
            } else {
                &&& r is None
                &&& final(self).cur_offset() == old(self).cur_offset()
                &&& final(self).cur_emitted() == old(self).cur_emitted()
            }),
    {
        if self.emitted >= self.header.emission_count as usize {
            // every copy of the current chunk is out; move on, if
            // anything is left
            let offset = self.header.offset as usize;
            if offset + self.chunk_size >= self.data.len() {
                return None;
            }
            self.header.offset = (offset + self.chunk_size) as u16;
            self.emitted = 0;
        }
        let chunk = self.get_chunk();
        self.header.size = chunk.len() as u16;
        self.header.current_emission = (self.emitted + 1) as u8;
        let mut buffer: Vec<u8> = Vec::new();
        self.header.write_bytes(&mut buffer);
        buffer.extend_from_slice(chunk.as_slice());
        self.emitted = self.emitted + 1;
        Some(buffer)
    }
}

} // verus!

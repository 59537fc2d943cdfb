//! Byte-level helpers shared by the wire codecs: big-endian integer
//! encoding, UTF-8 conversion, and hexadecimal rendering of byte buffers.

use vstd::prelude::*;
use vstd::arithmetic::div_mod::{lemma_basic_div, lemma_div_denominator,
    lemma_fundamental_div_mod, lemma_fundamental_div_mod_converse};
use vstd::slice::slice_to_vec;
use vstd::utf8::{decode_utf8, encode_utf8, is_leading_byte_width_1, partial_valid_utf8,
    partial_valid_utf8_extend_ascii_block, valid_utf8};

verus! {

/// Big-endian two-byte encoding of a 16-bit integer.
pub open spec fn spec_be16(x: u16) -> Seq<u8> {
    seq![(x as int / 256) as u8, (x as int % 256) as u8]
}

/// The 16-bit value read big-endian from a two-byte sequence.
pub open spec fn spec_be16_val(b: Seq<u8>) -> u16
    recommends
        b.len() == 2,
{
    (b[0] as int * 256 + b[1] as int) as u16
}

/// Big-endian eight-byte encoding of a 64-bit integer.
pub open spec fn spec_be64(x: u64) -> Seq<u8> {
    seq![
        (x as int / 0x100000000000000 % 256) as u8,
        (x as int / 0x1000000000000 % 256) as u8,
        (x as int / 0x10000000000 % 256) as u8,
        (x as int / 0x100000000 % 256) as u8,
        (x as int / 0x1000000 % 256) as u8,
        (x as int / 0x10000 % 256) as u8,
        (x as int / 0x100 % 256) as u8,
        (x as int % 256) as u8,
    ]
}

/// The 64-bit value read big-endian from an eight-byte sequence.
pub open spec fn spec_be64_val(b: Seq<u8>) -> u64
    recommends
        b.len() == 8,
{
    (b[0] as int * 0x100000000000000 + b[1] as int * 0x1000000000000 + b[2] as int
        * 0x10000000000 + b[3] as int * 0x100000000 + b[4] as int * 0x1000000 + b[5] as int
        * 0x10000 + b[6] as int * 0x100 + b[7] as int) as u64
}

/// Reading back a big-endian two-byte encoding yields the encoded value.
pub proof fn lemma_be16_round_trip(x: u16)
    ensures
        spec_be16_val(spec_be16(x)) == x,
{
}

/// Encoding the value read from two bytes yields those two bytes again.
pub proof fn lemma_be16_bytes_round_trip(b: Seq<u8>)
    requires
        b.len() == 2,
    ensures
        spec_be16(spec_be16_val(b)) =~= b,
{
}

/// Reading back a big-endian eight-byte encoding yields the encoded value.
pub proof fn lemma_be64_round_trip(x: u64)
    ensures
        spec_be64_val(spec_be64(x)) == x,
{
    let xi = x as int;
    lemma_fundamental_div_mod(xi, 256);
    lemma_fundamental_div_mod(xi / 0x100, 256);
    lemma_div_denominator(xi, 0x100, 256);
    lemma_fundamental_div_mod(xi / 0x10000, 256);
    lemma_div_denominator(xi, 0x10000, 256);
    lemma_fundamental_div_mod(xi / 0x1000000, 256);
    lemma_div_denominator(xi, 0x1000000, 256);
    lemma_fundamental_div_mod(xi / 0x100000000, 256);
    lemma_div_denominator(xi, 0x100000000, 256);
    lemma_fundamental_div_mod(xi / 0x10000000000, 256);
    lemma_div_denominator(xi, 0x10000000000, 256);
    lemma_fundamental_div_mod(xi / 0x1000000000000, 256);
    lemma_div_denominator(xi, 0x1000000000000, 256);
    lemma_fundamental_div_mod(xi / 0x100000000000000, 256);
    lemma_div_denominator(xi, 0x100000000000000, 256);
    lemma_basic_div(xi, 0x10000000000000000);
}

/// Encoding the value read from eight bytes yields those eight bytes again.
pub proof fn lemma_be64_bytes_round_trip(b: Seq<u8>)
    requires
        b.len() == 8,
    ensures
        spec_be64(spec_be64_val(b)) =~= b,
{
    let b0 = b[0] as int;
    let b1 = b[1] as int;
    let b2 = b[2] as int;
    let b3 = b[3] as int;
    let b4 = b[4] as int;
    let b5 = b[5] as int;
    let b6 = b[6] as int;
    let b7 = b[7] as int;
    let v = b0 * 0x100000000000000 + b1 * 0x1000000000000 + b2 * 0x10000000000 + b3
        * 0x100000000 + b4 * 0x1000000 + b5 * 0x10000 + b6 * 0x100 + b7;
    assert(spec_be64_val(b) == v as u64);
    let q0 = b0;
    let q1 = q0 * 256 + b1;
    let q2 = q1 * 256 + b2;
    let q3 = q2 * 256 + b3;
    let q4 = q3 * 256 + b4;
    let q5 = q4 * 256 + b5;
    let q6 = q5 * 256 + b6;
    lemma_fundamental_div_mod_converse(v, 0x100000000000000, q0, v - q0 * 0x100000000000000);
    lemma_fundamental_div_mod_converse(v, 0x1000000000000, q1, v - q1 * 0x1000000000000);
    lemma_fundamental_div_mod_converse(v, 0x10000000000, q2, v - q2 * 0x10000000000);
    lemma_fundamental_div_mod_converse(v, 0x100000000, q3, v - q3 * 0x100000000);
    lemma_fundamental_div_mod_converse(v, 0x1000000, q4, v - q4 * 0x1000000);
    lemma_fundamental_div_mod_converse(v, 0x10000, q5, v - q5 * 0x10000);
    lemma_fundamental_div_mod_converse(v, 0x100, q6, v - q6 * 0x100);
    lemma_fundamental_div_mod_converse(q0, 256, 0, b0);
    lemma_fundamental_div_mod_converse(q1, 256, q0, b1);
    lemma_fundamental_div_mod_converse(q2, 256, q1, b2);
    lemma_fundamental_div_mod_converse(q3, 256, q2, b3);
    lemma_fundamental_div_mod_converse(q4, 256, q3, b4);
    lemma_fundamental_div_mod_converse(q5, 256, q4, b5);
    lemma_fundamental_div_mod_converse(q6, 256, q5, b6);
    lemma_fundamental_div_mod_converse(v, 256, q6, b7);
    assert(spec_be64(spec_be64_val(b))[0] == b[0]);
    assert(spec_be64(spec_be64_val(b))[1] == b[1]);
    assert(spec_be64(spec_be64_val(b))[2] == b[2]);
    assert(spec_be64(spec_be64_val(b))[3] == b[3]);
    assert(spec_be64(spec_be64_val(b))[4] == b[4]);
    assert(spec_be64(spec_be64_val(b))[5] == b[5]);
    assert(spec_be64(spec_be64_val(b))[6] == b[6]);
    assert(spec_be64(spec_be64_val(b))[7] == b[7]);
}

/// Appends the big-endian encoding of `x` to `out`.
pub fn push_be16(out: &mut Vec<u8>, x: u16)
    ensures
        final(out)@ == old(out)@ + spec_be16(x),
{
    out.push((x / 256) as u8);
    out.push((x % 256) as u8);
    assert(out@ =~= old(out)@ + spec_be16(x));
}

/// Appends the big-endian encoding of `x` to `out`.
pub fn push_be64(out: &mut Vec<u8>, x: u64)
    ensures
        final(out)@ == old(out)@ + spec_be64(x),
{
    out.push((x / 0x100000000000000) as u8);
    out.push((x / 0x1000000000000 % 256) as u8);
    out.push((x / 0x10000000000 % 256) as u8);
    out.push((x / 0x100000000 % 256) as u8);
    out.push((x / 0x1000000 % 256) as u8);
    out.push((x / 0x10000 % 256) as u8);
    out.push((x / 0x100 % 256) as u8);
    out.push((x % 256) as u8);
    assert(out@ =~= old(out)@ + spec_be64(x));
}

/// Reads the big-endian 16-bit value stored at `b[at..at + 2]`.
pub fn read_be16(b: &[u8], at: usize) -> (r: u16)
    requires
        at + 2 <= b@.len(),
    ensures
        r == spec_be16_val(b@.subrange(at as int, at as int + 2)),
{
    let hi = b[at];
    let lo = b[at + 1];
    (hi as u16) * 256 + (lo as u16)
}

/// Reads the big-endian 64-bit value stored at `b[at..at + 8]`.
pub fn read_be64(b: &[u8], at: usize) -> (r: u64)
    requires
        at + 8 <= b@.len(),
    ensures
        r == spec_be64_val(b@.subrange(at as int, at as int + 8)),
{
    let mut acc: u64 = 0;
    acc = acc * 256 + (b[at] as u64);
    acc = acc * 256 + (b[at + 1] as u64);
    acc = acc * 256 + (b[at + 2] as u64);
    acc = acc * 256 + (b[at + 3] as u64);
    acc = acc * 256 + (b[at + 4] as u64);
    acc = acc * 256 + (b[at + 5] as u64);
    acc = acc * 256 + (b[at + 6] as u64);
    acc = acc * 256 + (b[at + 7] as u64);
    acc
}

/// Little-endian two-byte encoding of a 16-bit integer.
pub open spec fn spec_le16(x: u16) -> Seq<u8> {
    seq![(x as int % 256) as u8, (x as int / 256) as u8]
}

/// Little-endian eight-byte encoding of a 64-bit integer.
pub open spec fn spec_le64(x: u64) -> Seq<u8> {
    seq![
        (x as int % 256) as u8,
        (x as int / 0x100 % 256) as u8,
        (x as int / 0x10000 % 256) as u8,
        (x as int / 0x1000000 % 256) as u8,
        (x as int / 0x100000000 % 256) as u8,
        (x as int / 0x10000000000 % 256) as u8,
        (x as int / 0x1000000000000 % 256) as u8,
        (x as int / 0x100000000000000 % 256) as u8,
    ]
}

/// Appends the little-endian encoding of `x` to `out`.
pub fn push_le16(out: &mut Vec<u8>, x: u16)
    ensures
        final(out)@ == old(out)@ + spec_le16(x),
{
    out.push((x % 256) as u8);
    out.push((x / 256) as u8);
    assert(out@ =~= old(out)@ + spec_le16(x));
}

/// Appends the little-endian encoding of `x` to `out`.
pub fn push_le64(out: &mut Vec<u8>, x: u64)
    ensures
        final(out)@ == old(out)@ + spec_le64(x),
{
    out.push((x % 256) as u8);
    out.push((x / 0x100 % 256) as u8);
    out.push((x / 0x10000 % 256) as u8);
    out.push((x / 0x1000000 % 256) as u8);
    out.push((x / 0x100000000 % 256) as u8);
    out.push((x / 0x10000000000 % 256) as u8);
    out.push((x / 0x1000000000000 % 256) as u8);
    out.push((x / 0x100000000000000) as u8);
    assert(out@ =~= old(out)@ + spec_le64(x));
}

/// Relies on `String::from_utf8`: it succeeds exactly on valid UTF-8 input
/// and decodes those bytes to the characters they encode.
#[verifier::external_body]
pub fn bytes_to_string(v: Vec<u8>) -> (r: Option<String>)
    ensures
        r is Some <==> valid_utf8(v@),
        (r matches Some(s) ==> s@ == decode_utf8(v@)),
{
    String::from_utf8(v).ok()
}

/// A byte sequence made of ASCII bytes only is valid UTF-8.
pub proof fn lemma_ascii_bytes_valid_utf8(b: Seq<u8>)
    requires
        forall|i: int| 0 <= i < b.len() ==> b[i] < 0x80,
    ensures
        valid_utf8(b),
{
    assert(forall|i: int| 0 <= i < b.len() ==> #[trigger] is_leading_byte_width_1(b[i]));
    assert(b.subrange(0, 0) =~= Seq::<u8>::empty());
    assert(partial_valid_utf8(b, 0));
    partial_valid_utf8_extend_ascii_block(b, 0, b.len() as int);
    assert(b.subrange(0, b.len() as int) =~= b);
}

/// ASCII code of the lower-case hexadecimal digit for a value below 16.
pub open spec fn spec_hex_digit(d: u8) -> u8
    recommends
        d < 16,
{
    if d < 10 {
        (48 + d) as u8
    } else {
        (87 + d) as u8
    }
}

/// ASCII rendering of a byte sequence as lower-case hexadecimal digits,
/// two digits per byte.
pub open spec fn spec_hex_bytes(s: Seq<u8>) -> Seq<u8>
    decreases s.len(),
{
    if s.len() == 0 {
        Seq::empty()
    } else {
        spec_hex_bytes(s.drop_last()) + seq![
            spec_hex_digit((s.last() as int / 16) as u8),
            spec_hex_digit((s.last() as int % 16) as u8),
        ]
    }
}

/// A byte buffer to be rendered as hexadecimal digits.
pub struct Hex {
    bytes: Vec<u8>,
}

impl View for Hex {
    type V = Seq<u8>;

    /// The wrapped bytes.
    closed spec fn view(&self) -> Seq<u8> {
        self.bytes@
    }
}

impl Hex {
    /// Wraps a copy of `data` for hexadecimal rendering.
    pub fn new(data: &[u8]) -> (r: Hex)
        ensures
            r@ == data@,
    {
        Hex { bytes: slice_to_vec(data) }
    }

    /// Renders the wrapped bytes as lower-case hexadecimal digits.
    pub fn hex_string(&self) -> (r: String)
        ensures
            encode_utf8(r@) == spec_hex_bytes(self@),
    {
        let n = self.bytes.len();
        let mut out: Vec<u8> = Vec::new();
        let mut i: usize = 0;
        while i < n
            invariant
                i <= n,
                n == self.bytes@.len(),
                out@ == spec_hex_bytes(self.bytes@.subrange(0, i as int)),
                forall|j: int| 0 <= j < out@.len() ==> out@[j] < 0x80,
            decreases n - i,
        {
            let byte = self.bytes[i];
            out.push(hex_digit(byte / 16));
            out.push(hex_digit(byte % 16));
            i = i + 1;
            proof {
                let pre = self.bytes@.subrange(0, i - 1 as int);
                let cur = self.bytes@.subrange(0, i as int);
                assert(cur.drop_last() =~= pre);
                assert(cur.last() == self.bytes@[i - 1]);
                assert(out@ =~= spec_hex_bytes(cur));
            }
        }
        proof {
            assert(self.bytes@.subrange(0, n as int) =~= self.bytes@);
            lemma_ascii_bytes_valid_utf8(out@);
        }
        let ghost encoded = out@;
        match bytes_to_string(out) {
            Some(s) => {
                proof {
                    vstd::utf8::decode_utf8_encode_utf8(encoded);
                }
                s
            },
            None => {
                proof {
                    assert(false);
                }
                String::new()
            },
        }
    }
}

/// Computes the lower-case hexadecimal digit for a value below 16.
fn hex_digit(d: u8) -> (r: u8)
    requires
        d < 16,
    ensures
        r == spec_hex_digit(d),
        r < 0x80,
{
    if d < 10 {
        48 + d
    } else {
        87 + d
    }
}

} // verus!

//! Runtime configuration and its line-oriented text format.
//!
//! The format is INI-like: blank lines are ignored, `;` or `#` start a
//! comment, `[section]` headers are allowed but ignored, and `key = value`
//! lines set recognized keys.  Unknown keys are skipped and never fatal;
//! syntactically malformed lines are fatal, as are numeric values that do
//! not parse or do not fit.

use crate::utils::bytes_to_string;
use crate::{Error, OnewayResult};
use vstd::prelude::*;
use vstd::slice::{slice_subrange, slice_to_vec};
use vstd::utf8::{decode_utf8_encode_utf8, encode_utf8, is_ascii_chars, is_ascii_chars_encode_utf8,
    valid_utf8};

verus! {

/// Shared runtime configuration, built once and then read-only.
#[derive(Debug, Clone, PartialEq, Eq)]
pub struct Config {
    /// How many copies of each chunk the sender emits.
    pub remission_count: usize,
    /// Maximum datagram payload in bytes, envelope header included.
    pub mtu: usize,
    /// Per-receive deadline in seconds.
    pub recv_timeout: u64,
    /// Bounded queue depth from dispatcher to handler.
    pub channel_size: usize,
    /// Receiver's base directory.
    pub root: String,
    /// Bind or connect target, as `host:port`.
    pub address: String,
}

/// Mathematical model of a configuration, paths and addresses as their
/// UTF-8 bytes.
#[verifier::ext_equal]
pub struct ConfigModel {
    pub remission_count: usize,
    pub mtu: usize,
    pub recv_timeout: u64,
    pub channel_size: usize,
    pub root: Seq<u8>,
    pub address: Seq<u8>,
}

/// The default configuration model: three emissions per chunk, an MTU
/// of 1024 bytes, a three-second receive deadline.
pub open spec fn spec_default_config() -> ConfigModel {
    ConfigModel {
        remission_count: 3,
        mtu: 1024,
        recv_timeout: 3,
        channel_size: 64,
        root: Seq::empty(),
        address: Seq::empty(),
    }
}

impl Config {
    /// The model of this configuration.
    pub open spec fn model(&self) -> ConfigModel {
        ConfigModel {
            remission_count: self.remission_count,
            mtu: self.mtu,
            recv_timeout: self.recv_timeout,
            channel_size: self.channel_size,
            root: encode_utf8(self.root@),
            address: encode_utf8(self.address@),
        }
    }
}

impl Default for Config {
    /// The default configuration.
    fn default() -> (r: Config)
        ensures
            r.model() == spec_default_config(),
    {
        let r = Config {
            remission_count: 3,
            mtu: 1024,
            recv_timeout: 3,
            channel_size: 64,
            root: String::new(),
            address: String::new(),
        };
        proof {
            assert(encode_utf8(Seq::<char>::empty()) =~= Seq::<u8>::empty());
        }
        r
    }
}

/// ASCII whitespace, as line trimming removes it.
pub open spec fn spec_is_ws(b: u8) -> bool {
    b == 32 || (9 <= b && b <= 13)
}

/// The byte sequence with trailing whitespace removed.
pub open spec fn spec_trim_end(s: Seq<u8>) -> Seq<u8>
    decreases s.len(),
{
    if s.len() > 0 && spec_is_ws(s.last()) {
        spec_trim_end(s.drop_last())
    } else {
        s
    }
}

/// The byte sequence with leading whitespace removed.
pub open spec fn spec_trim_start(s: Seq<u8>) -> Seq<u8>
    decreases s.len(),
{
    if s.len() > 0 && spec_is_ws(s.first()) {
        spec_trim_start(s.drop_first())
    } else {
        s
    }
}

/// The byte sequence with whitespace removed on both sides.
pub open spec fn spec_trim(s: Seq<u8>) -> Seq<u8> {
    spec_trim_start(spec_trim_end(s))
}

/// Bytes allowed in a configuration key: ASCII letters, digits, `_`
/// and `-`.
pub open spec fn spec_is_key_byte(b: u8) -> bool {
    (48 <= b && b <= 57) || (65 <= b && b <= 90) || (97 <= b && b <= 122) || b == 95 || b == 45
}

/// Whether every byte of `s` may appear in a key.
pub open spec fn spec_valid_key(s: Seq<u8>) -> bool {
    forall|i: int| 0 <= i < s.len() ==> spec_is_key_byte(#[trigger] s[i])
}

/// Index of the first occurrence of `b` in `s`, or -1.
pub open spec fn spec_find(s: Seq<u8>, b: u8) -> int
    decreases s.len(),
{
    if s.len() == 0 {
        -1
    } else if s[0] == b {
        0
    } else {
        let r = spec_find(s.drop_first(), b);
        if r < 0 {
            -1
        } else {
            r + 1
        }
    }
}

/// What `spec_find` returns: the first index holding `b`, or -1 when
/// `b` does not occur.
pub proof fn lemma_find_characterization(s: Seq<u8>, b: u8)
    ensures
        ({
            let idx = spec_find(s, b);
            &&& -1 <= idx < s.len()
            &&& idx >= 0 ==> s[idx] == b && (forall|j: int| 0 <= j < idx ==> s[j] != b)
            &&& idx < 0 ==> (forall|j: int| 0 <= j < s.len() ==> s[j] != b)
        }),
    decreases s.len(),
{
    if s.len() > 0 && s[0] != b {
        let t = s.drop_first();
        lemma_find_characterization(t, b);
        let r = spec_find(t, b);
        if r >= 0 {
            assert(s[r + 1] == t[r]);
            assert forall|j: int| 0 <= j < r + 1 implies s[j] != b by {
                if j > 0 {
                    assert(s[j] == t[j - 1]);
                }
            }
        } else {
            assert forall|j: int| 0 <= j < s.len() implies s[j] != b by {
                if j > 0 {
                    assert(s[j] == t[j - 1]);
                }
            }
        }
    }
}

/// Lower-casing of an ASCII byte.
pub open spec fn spec_lower(b: u8) -> u8 {
    if 65 <= b && b <= 90 {
        (b + 32) as u8
    } else {
        b
    }
}

/// ASCII-case-insensitive equality of two byte strings.
pub open spec fn spec_key_matches(key: Seq<u8>, name: Seq<u8>) -> bool {
    key.len() == name.len() && (forall|i: int|
        0 <= i < key.len() ==> spec_lower(#[trigger] key[i]) == spec_lower(name[i]))
}

/// The bytes of an ASCII character sequence, one byte per character.
pub open spec fn spec_ascii(s: Seq<char>) -> Seq<u8> {
    s.map_values(|c: char| c as u8)
}

/// Classification of one non-blank configuration line.
#[verifier::ext_equal]
pub enum ConfigLine {
    /// The line opens a comment.
    Comment,
    /// The line sets `key` to `value`.
    KeyValue { key: Seq<u8>, value: Seq<u8> },
    /// The line opens a section, which is ignored.
    Section { name: Seq<u8> },
    /// The line holds a bare key, which is ignored with a warning.
    KeyOnly { key: Seq<u8> },
    /// The line is malformed.
    Invalid,
}

/// Parses one trimmed, non-blank line: comments open with `#` or `;`;
/// a line with `=` sets a key to a value, where the key (trailing
/// whitespace removed) must hold only key bytes and the trimmed value
/// must be non-empty; `[section]` lines name a section; anything else
/// is a bare key.
pub open spec fn spec_parse_line(line: Seq<u8>) -> ConfigLine
    recommends
        line.len() > 0,
{
    if line.len() > 0 && (line[0] == 35 || line[0] == 59) {
        ConfigLine::Comment
    } else if spec_find(line, 61) >= 0 {
        let idx = spec_find(line, 61);
        let key = spec_trim_end(line.subrange(0, idx));
        if !spec_valid_key(key) {
            ConfigLine::Invalid
        } else {
            let value = spec_trim(line.subrange(idx + 1, line.len() as int));
            if value.len() == 0 {
                ConfigLine::Invalid
            } else {
                ConfigLine::KeyValue { key, value }
            }
        }
    } else if line.len() >= 2 && line[0] == 91 && line[line.len() - 1] == 93 {
        let name = line.subrange(1, line.len() - 1);
        if spec_valid_key(name) {
            ConfigLine::Section { name }
        } else {
            ConfigLine::Invalid
        }
    } else {
        let key = spec_trim(line);
        if spec_valid_key(key) {
            ConfigLine::KeyOnly { key }
        } else {
            ConfigLine::Invalid
        }
    }
}

/// The numeric value of a run of ASCII digits.
pub open spec fn spec_digits_val(s: Seq<u8>) -> int
    decreases s.len(),
{
    if s.len() == 0 {
        0
    } else {
        spec_digits_val(s.drop_last()) * 10 + (s.last() - 48)
    }
}

/// Whether every byte of `s` is an ASCII digit.
pub open spec fn spec_all_digits(s: Seq<u8>) -> bool {
    forall|i: int| 0 <= i < s.len() ==> 48 <= #[trigger] s[i] <= 57
}

/// The integer a decimal value string denotes: an optional leading `+`
/// followed by at least one digit.
pub open spec fn spec_parse_int(s: Seq<u8>) -> Option<int> {
    let digits = if s.len() > 0 && s[0] == 43 {
        s.drop_first()
    } else {
        s
    };
    if digits.len() > 0 && spec_all_digits(digits) {
        Some(spec_digits_val(digits))
    } else {
        None
    }
}

/// The value of a digit run is never negative.
pub proof fn lemma_digits_nonneg(s: Seq<u8>)
    requires
        spec_all_digits(s),
    ensures
        spec_digits_val(s) >= 0,
    decreases s.len(),
{
    if s.len() > 0 {
        assert(spec_all_digits(s.drop_last()));
        lemma_digits_nonneg(s.drop_last());
    }
}

/// The value of a prefix of a digit run never exceeds the value of the
/// whole run.
pub proof fn lemma_digits_prefix_le(s: Seq<u8>, i: int)
    requires
        spec_all_digits(s),
        0 <= i <= s.len(),
    ensures
        spec_digits_val(s.subrange(0, i)) <= spec_digits_val(s),
    decreases s.len() - i,
{
    if i == s.len() {
        assert(s.subrange(0, i) =~= s);
    } else {
        let p = s.subrange(0, i);
        let q = s.subrange(0, i + 1);
        assert(q.drop_last() =~= p);
        assert(spec_all_digits(p));
        lemma_digits_nonneg(p);
        assert(spec_digits_val(q) == spec_digits_val(p) * 10 + (q.last() - 48));
        lemma_digits_prefix_le(s, i + 1);
    }
}

/// Outcome of applying one `key = value` line to a configuration.
#[verifier::ext_equal]
pub enum ConfigStep {
    /// The line was applied or ignored.
    Applied { c: ConfigModel },
    /// The value of a numeric key did not parse or does not fit.
    BadInt,
    /// The value of a text key is not valid UTF-8; a caller handing in
    /// a `&str` can never produce this.
    BadValue,
}

/// Applies one `key = value` pair: the recognized keys set their field
/// (numeric values must parse and fit), the reserved key `key` and any
/// unknown key are ignored.
pub open spec fn spec_apply_key_value(c: ConfigModel, key: Seq<u8>, value: Seq<u8>) -> ConfigStep {
    if spec_key_matches(key, spec_ascii("remission_count"@)) {
        match spec_parse_int(value) {
            Some(v) => if v <= usize::MAX as int {
                ConfigStep::Applied { c: ConfigModel { remission_count: v as usize, ..c } }
            } else {
                ConfigStep::BadInt
            },
            None => ConfigStep::BadInt,
        }
    } else if spec_key_matches(key, spec_ascii("mtu"@)) {
        match spec_parse_int(value) {
            Some(v) => if v <= usize::MAX as int {
                ConfigStep::Applied { c: ConfigModel { mtu: v as usize, ..c } }
            } else {
                ConfigStep::BadInt
            },
            None => ConfigStep::BadInt,
        }
    } else if spec_key_matches(key, spec_ascii("recv_timeout"@)) {
        match spec_parse_int(value) {
            Some(v) => if v <= u64::MAX as int {
                ConfigStep::Applied { c: ConfigModel { recv_timeout: v as u64, ..c } }
            } else {
                ConfigStep::BadInt
            },
            None => ConfigStep::BadInt,
        }
    } else if spec_key_matches(key, spec_ascii("channel_size"@)) {
        match spec_parse_int(value) {
            Some(v) => if v <= usize::MAX as int {
                ConfigStep::Applied { c: ConfigModel { channel_size: v as usize, ..c } }
            } else {
                ConfigStep::BadInt
            },
            None => ConfigStep::BadInt,
        }
    } else if spec_key_matches(key, spec_ascii("root"@)) {
        if valid_utf8(value) {
            ConfigStep::Applied { c: ConfigModel { root: value, ..c } }
        } else {
            ConfigStep::BadValue
        }
    } else if spec_key_matches(key, spec_ascii("address"@)) {
        if valid_utf8(value) {
            ConfigStep::Applied { c: ConfigModel { address: value, ..c } }
        } else {
            ConfigStep::BadValue
        }
    } else {
        ConfigStep::Applied { c }
    }
}

/// The input split into lines at each newline byte; a trailing newline
/// opens no further line.
pub open spec fn spec_lines(s: Seq<u8>) -> Seq<Seq<u8>>
    decreases s.len(),
    via spec_lines_decreases
{
    if s.len() == 0 {
        seq![]
    } else {
        let idx = spec_find(s, 10);
        if idx < 0 {
            seq![s]
        } else {
            seq![s.subrange(0, idx)] + spec_lines(s.subrange(idx + 1, s.len() as int))
        }
    }
}

#[via_fn]
proof fn spec_lines_decreases(s: Seq<u8>) {
    lemma_find_characterization(s, 10);
}

/// Outcome of parsing a whole configuration text.
#[verifier::ext_equal]
pub enum ConfigOutcome {
    /// Every line parsed; `c` is the resulting configuration.
    Parsed { c: ConfigModel },
    /// The line numbered `linenum` (starting at 1, trailing whitespace
    /// removed) is malformed.
    BadLine { linenum: int, line: Seq<u8> },
    /// A numeric value did not parse or does not fit its field.
    BadInt,
}

/// Folds the configuration lines over a starting model: blank lines
/// are skipped, comments, sections and bare keys are ignored, and
/// `key = value` lines are applied in order.
pub open spec fn spec_parse_lines(c: ConfigModel, lines: Seq<Seq<u8>>, linenum: int) -> ConfigOutcome
    decreases lines.len(),
{
    if lines.len() == 0 {
        ConfigOutcome::Parsed { c }
    } else {
        let line = spec_trim_end(lines[0]);
        if line.len() == 0 {
            spec_parse_lines(c, lines.drop_first(), linenum + 1)
        } else {
            match spec_parse_line(line) {
                ConfigLine::Invalid => ConfigOutcome::BadLine { linenum, line },
                ConfigLine::KeyValue { key, value } => match spec_apply_key_value(c, key, value) {
                    ConfigStep::Applied { c: c2 } => spec_parse_lines(
                        c2,
                        lines.drop_first(),
                        linenum + 1,
                    ),
                    ConfigStep::BadInt => ConfigOutcome::BadInt,
                    ConfigStep::BadValue => ConfigOutcome::BadLine { linenum, line },
                },
                _ => spec_parse_lines(c, lines.drop_first(), linenum + 1),
            }
        }
    }
}

/// The meaning of a configuration text: its lines folded over the
/// default configuration.
pub open spec fn spec_parse_stream(bytes: Seq<u8>) -> ConfigOutcome {
    spec_parse_lines(spec_default_config(), spec_lines(bytes), 1)
}

/// Trimming trailing whitespace keeps exactly the prefix up to the
/// last non-whitespace byte.
proof fn lemma_trim_end_from_witness(s: Seq<u8>, k: int)
    requires
        0 <= k <= s.len(),
        forall|j: int| k <= j < s.len() ==> spec_is_ws(#[trigger] s[j]),
        k > 0 ==> !spec_is_ws(s[k - 1]),
    ensures
        spec_trim_end(s) == s.subrange(0, k),
    decreases s.len(),
{
    if s.len() == k {
        assert(s.subrange(0, k) =~= s);
    } else {
        assert(spec_is_ws(s.last()));
        let t = s.drop_last();
        assert(t =~= s.subrange(0, s.len() - 1));
        lemma_trim_end_from_witness(t, k);
        assert(t.subrange(0, k) =~= s.subrange(0, k));
    }
}

/// Trimming leading whitespace keeps exactly the suffix from the
/// first non-whitespace byte.
proof fn lemma_trim_start_from_witness(s: Seq<u8>, k: int)
    requires
        0 <= k <= s.len(),
        forall|j: int| 0 <= j < k ==> spec_is_ws(#[trigger] s[j]),
        k < s.len() ==> !spec_is_ws(s[k]),
    ensures
        spec_trim_start(s) == s.subrange(k, s.len() as int),
    decreases s.len(),
{
    if k == 0 {
        if s.len() > 0 {
            assert(s.subrange(0, s.len() as int) =~= s);
        } else {
            assert(s.subrange(0, 0) =~= s);
        }
    } else {
        assert(spec_is_ws(s.first()));
        let t = s.drop_first();
        lemma_trim_start_from_witness(t, k - 1);
        assert(t.subrange(k - 1, t.len() as int) =~= s.subrange(k, s.len() as int));
    }
}

/// Finds the first occurrence of `b` at or after `from`.
#[verifier::loop_isolation(false)]
fn find_byte(s: &[u8], from: usize, b: u8) -> (r: Option<usize>)
    requires
        from <= s@.len(),
    ensures
        (match r {
            Some(i) => {
                &&& from <= i < s@.len()
                &&& s@[i as int] == b
                &&& spec_find(s@.subrange(from as int, s@.len() as int), b) == i - from
            },
            None => spec_find(s@.subrange(from as int, s@.len() as int), b) == -1,
        }),
{
    let n = s.len();
    let ghost sub = s@.subrange(from as int, n as int);
    proof {
        lemma_find_characterization(sub, b);
    }
    let mut i = from;
    while i < n
        invariant
            from <= i <= n,
            n == s@.len(),
            sub == s@.subrange(from as int, n as int),
            forall|j: int| from <= j < i ==> s@[j] != b,
        decreases n - i,
    {
        if s[i] == b {
            proof {
                assert(sub[i - from] == b);
                assert forall|j: int| 0 <= j < i - from implies sub[j] != b by {
                    assert(sub[j] == s@[from + j]);
                }
                if spec_find(sub, b) < i - from {
                    assert(sub[spec_find(sub, b)] == b);
                }
            }
            return Some(i);
        }
        i = i + 1;
    }
    proof {
        assert forall|j: int| 0 <= j < sub.len() implies sub[j] != b by {
            assert(sub[j] == s@[from + j]);
        }
    }
    None
}

/// Whether a byte is ASCII whitespace.
fn is_ws_byte(b: u8) -> (r: bool)
    ensures
        r == spec_is_ws(b),
{
    b == 32 || (9 <= b && b <= 13)
}

/// The end of `s[start..end]` once trailing whitespace is dropped.
#[verifier::loop_isolation(false)]
fn trim_end_index(s: &[u8], start: usize, end: usize) -> (r: usize)
    requires
        start <= end <= s@.len(),
    ensures
        start <= r <= end,
        spec_trim_end(s@.subrange(start as int, end as int)) == s@.subrange(
            start as int,
            r as int,
        ),
{
    let mut k = end;
    while k > start && is_ws_byte(s[k - 1])
        invariant
            start <= k <= end,
            end <= s@.len(),
            forall|j: int| k <= j < end ==> spec_is_ws(#[trigger] s@[j]),
        decreases k,
    {
        k = k - 1;
    }
    proof {
        let sub = s@.subrange(start as int, end as int);
        assert forall|j: int| k - start <= j < sub.len() implies spec_is_ws(#[trigger] sub[j]) by {
            assert(sub[j] == s@[start + j]);
        }
        if k > start {
            assert(sub[k - start - 1] == s@[k - 1]);
        }
        lemma_trim_end_from_witness(sub, k - start as int);
        assert(sub.subrange(0, k - start as int) =~= s@.subrange(start as int, k as int));
    }
    k
}

/// The start of `s[start..end]` once leading whitespace is dropped.
#[verifier::loop_isolation(false)]
fn trim_start_index(s: &[u8], start: usize, end: usize) -> (r: usize)
    requires
        start <= end <= s@.len(),
    ensures
        start <= r <= end,
        spec_trim_start(s@.subrange(start as int, end as int)) == s@.subrange(
            r as int,
            end as int,
        ),
{
    let mut k = start;
    while k < end && is_ws_byte(s[k])
        invariant
            start <= k <= end,
            end <= s@.len(),
            forall|j: int| start <= j < k ==> spec_is_ws(#[trigger] s@[j]),
        decreases end - k,
    {
        k = k + 1;
    }
    proof {
        let sub = s@.subrange(start as int, end as int);
        assert forall|j: int| 0 <= j < k - start implies spec_is_ws(#[trigger] sub[j]) by {
            assert(sub[j] == s@[start + j]);
        }
        if k < end {
            assert(sub[k - start] == s@[k as int]);
        }
        lemma_trim_start_from_witness(sub, k - start as int);
        assert(sub.subrange(k - start as int, sub.len() as int) =~= s@.subrange(
            k as int,
            end as int,
        ));
    }
    k
}

/// Whether every byte of `s` may appear in a key.
#[verifier::loop_isolation(false)]
fn valid_key_bytes(s: &[u8]) -> (r: bool)
    ensures
        r == spec_valid_key(s@),
{
    let n = s.len();
    let mut i: usize = 0;
    while i < n
        invariant
            i <= n,
            n == s@.len(),
            forall|j: int| 0 <= j < i ==> spec_is_key_byte(#[trigger] s@[j]),
        decreases n - i,
    {
        let b = s[i];
        if !((48 <= b && b <= 57) || (65 <= b && b <= 90) || (97 <= b && b <= 122) || b == 95
            || b == 45) {
            return false;
        }
        i = i + 1;
    }
    true
}

/// Lower-cases an ASCII byte.
fn lower_byte(b: u8) -> (r: u8)
    ensures
        r == spec_lower(b),
{
    if 65 <= b && b <= 90 {
        b + 32
    } else {
        b
    }
}

/// Whether `key` equals the ASCII name `name` up to ASCII case.
#[verifier::loop_isolation(false)]
fn key_is(key: &[u8], name: &str) -> (r: bool)
    requires
        is_ascii_chars(name@),
    ensures
        r == spec_key_matches(key@, spec_ascii(name@)),
{
    let nb = name.as_bytes();
    proof {
        is_ascii_chars_encode_utf8(name@);
        assert(nb@ =~= spec_ascii(name@));
    }
    if key.len() != nb.len() {
        return false;
    }
    let n = key.len();
    let mut i: usize = 0;
    while i < n
        invariant
            i <= n,
            n == key@.len(),
            n == nb@.len(),
            nb@ == spec_ascii(name@),
            forall|j: int| 0 <= j < i ==> spec_lower(#[trigger] key@[j]) == spec_lower(nb@[j]),
        decreases n - i,
    {
        if lower_byte(key[i]) != lower_byte(nb[i]) {
            return false;
        }
        i = i + 1;
    }
    true
}

/// Parses a decimal value string into an integer no larger than `max`.
#[verifier::loop_isolation(false)]
fn parse_int_bytes(s: &[u8], max: u64) -> (r: Option<u64>)
    ensures
        (spec_parse_int(s@) matches Some(v) ==> 0 <= v),
        (match spec_parse_int(s@) {
            Some(v) => if v <= max {
                r == Some(v as u64)
            } else {
                r is None
            },
            None => r is None,
        }),
{
    let n = s.len();
    let start: usize = if n > 0 && s[0] == 43 {
        1
    } else {
        0
    };
    let ghost digits = if s@.len() > 0 && s@[0] == 43 {
        s@.drop_first()
    } else {
        s@
    };
    proof {
        assert(digits =~= s@.subrange(start as int, n as int));
        if spec_parse_int(s@) is Some {
            lemma_digits_nonneg(digits);
        }
    }
    if start == n {
        return None;
    }
    let mut acc: u64 = 0;
    let mut i = start;
    while i < n
        invariant
            start <= i <= n,
            n == s@.len(),
            start <= 1,
            digits == s@.subrange(start as int, n as int),
            acc <= max,
            spec_all_digits(s@.subrange(start as int, i as int)),
            acc == spec_digits_val(s@.subrange(start as int, i as int)),
        decreases n - i,
    {
        let b = s[i];
        if b < 48 || b > 57 {
            proof {
                assert(digits[i - start] == s@[i as int]);
            }
            return None;
        }
        let d = (b - 48) as u64;
        let ghost pre = s@.subrange(start as int, i as int);
        let ghost cur = s@.subrange(start as int, i + 1 as int);
        proof {
            assert(cur.drop_last() =~= pre);
            assert(cur.last() == s@[i as int]);
            assert(spec_all_digits(cur));
            assert(spec_digits_val(cur) == spec_digits_val(pre) * 10 + (s@[i as int] - 48));
        }
        if acc > max / 10 || (acc == max / 10 && d > max % 10) {
            proof {
                vstd::arithmetic::div_mod::lemma_fundamental_div_mod(max as int, 10);
                assert(acc * 10 + d > max);
                if spec_parse_int(s@) is Some {
                    assert(spec_all_digits(digits));
                    lemma_digits_prefix_le(digits, i + 1 - start as int);
                    assert(digits.subrange(0, i + 1 - start as int) =~= cur);
                    assert(spec_digits_val(digits) >= spec_digits_val(cur));
                }
            }
            return None;
        }
        proof {
            vstd::arithmetic::div_mod::lemma_fundamental_div_mod(max as int, 10);
            assert(acc * 10 + d <= max);
        }
        acc = acc * 10 + d;
        i = i + 1;
    }
    proof {
        assert(s@.subrange(start as int, n as int) == digits);
    }
    Some(acc)
}

/// Classification of one configuration line, as the parser hands it
/// back: key, value and section names as owned byte strings.
#[derive(Debug)]
pub enum Line {
    /// The line opens a comment.
    Comment,
    /// The line sets a key to a value.
    KeyValue { key: Vec<u8>, value: Vec<u8> },
    /// The line opens a section, which is ignored.
    Section { name: Vec<u8> },
    /// The line holds a bare key, which is ignored with a warning.
    Key { key: Vec<u8> },
}

/// Outcome of applying one `key = value` pair.
#[derive(Debug, Clone, Copy, PartialEq, Eq, Structural)]
enum ApplyResult {
    Applied,
    BadInt,
    BadValue,
}

/// Applies one `key = value` pair to the configuration, following
/// [`spec_apply_key_value`].
fn apply_key_value(config: &mut Config, key: &[u8], value: &[u8]) -> (r: ApplyResult)
    ensures
        (match spec_apply_key_value(old(config).model(), key@, value@) {
            ConfigStep::Applied { c } => r == ApplyResult::Applied && final(config).model() == c,
            ConfigStep::BadInt => r == ApplyResult::BadInt && final(config).model() == old(
                config,
            ).model(),
            ConfigStep::BadValue => r == ApplyResult::BadValue && final(config).model() == old(
                config,
            ).model(),
        }),
{
    proof {
        reveal_strlit("remission_count");
        reveal_strlit("mtu");
        reveal_strlit("recv_timeout");
        reveal_strlit("channel_size");
        reveal_strlit("root");
        reveal_strlit("address");
    }
    if key_is(key, "remission_count") {
        match parse_int_bytes(value, usize::MAX as u64) {
            Some(v) => {
                config.remission_count = v as usize;
                ApplyResult::Applied
            },
            None => ApplyResult::BadInt,
        }
    } else if key_is(key, "mtu") {
        match parse_int_bytes(value, usize::MAX as u64) {
            Some(v) => {
                config.mtu = v as usize;
                ApplyResult::Applied
            },
            None => ApplyResult::BadInt,
        }
    } else if key_is(key, "recv_timeout") {
        match parse_int_bytes(value, u64::MAX) {
            Some(v) => {
                config.recv_timeout = v;
                ApplyResult::Applied
            },
            None => ApplyResult::BadInt,
        }
    } else if key_is(key, "channel_size") {
        match parse_int_bytes(value, usize::MAX as u64) {
            Some(v) => {
                config.channel_size = v as usize;
                ApplyResult::Applied
            },
            None => ApplyResult::BadInt,
        }
    } else if key_is(key, "root") {
        match bytes_to_string(slice_to_vec(value)) {
            Some(s) => {
                proof {
                    decode_utf8_encode_utf8(value@);
                }
                config.root = s;
                ApplyResult::Applied
            },
            None => ApplyResult::BadValue,
        }
    } else if key_is(key, "address") {
        match bytes_to_string(slice_to_vec(value)) {
            Some(s) => {
                proof {
                    decode_utf8_encode_utf8(value@);
                }
                config.address = s;
                ApplyResult::Applied
            },
            None => ApplyResult::BadValue,
        }
    } else {
        ApplyResult::Applied
    }
}

/// Renders a line's bytes as a `String`, for error reports.
fn line_string(line: &[u8]) -> (r: String)
    ensures
        valid_utf8(line@) ==> encode_utf8(r@) == line@,
{
    match bytes_to_string(slice_to_vec(line)) {
        Some(s) => {
            proof {
                decode_utf8_encode_utf8(line@);
            }
            s
        },
        None => String::new(),
    }
}

impl Config {
    /// Parses one non-blank, end-trimmed configuration line, following
    /// [`spec_parse_line`]; a malformed line yields `None`.
    pub fn parse_line(line: &[u8]) -> (r: Option<Line>)
        ensures
            (match spec_parse_line(line@) {
                ConfigLine::Comment => r matches Some(Line::Comment),
                ConfigLine::KeyValue { key, value } => (r matches Some(Line::KeyValue {
                    key: k,
                    value: v,
                }) && k@ == key && v@ == value),
                ConfigLine::Section { name } => (r matches Some(Line::Section { name: n }) && n@
                    == name),
                ConfigLine::KeyOnly { key } => (r matches Some(Line::Key { key: k }) && k@ == key),
                ConfigLine::Invalid => r is None,
            }),
    {
        let n = line.len();
        if n > 0 && (line[0] == 35 || line[0] == 59) {
            return Some(Line::Comment);
        }
        proof {
            assert(line@.subrange(0, n as int) =~= line@);
        }
        match find_byte(line, 0, 61) {
            Some(idx) => {
                let kend = trim_end_index(line, 0, idx);
                let key_slice = slice_subrange(line, 0, kend);
                proof {
                    assert(key_slice@ =~= line@.subrange(0, kend as int));
                }
                if !valid_key_bytes(key_slice) {
                    return None;
                }
                let vend = trim_end_index(line, idx + 1, n);
                let vstart = trim_start_index(line, idx + 1, vend);
                proof {
                    assert(spec_trim(line@.subrange(idx + 1 as int, n as int)) == line@.subrange(
                        vstart as int,
                        vend as int,
                    ));
                }
                if vstart == vend {
                    return None;
                }
                let value_slice = slice_subrange(line, vstart, vend);
                proof {
                    assert(value_slice@ =~= line@.subrange(vstart as int, vend as int));
                }
                Some(Line::KeyValue {
                    key: slice_to_vec(key_slice),
                    value: slice_to_vec(value_slice),
                })
            },
            None => {
                if n >= 2 && line[0] == 91 && line[n - 1] == 93 {
                    let name_slice = slice_subrange(line, 1, n - 1);
                    proof {
                        assert(name_slice@ =~= line@.subrange(1, n - 1 as int));
                    }
                    if valid_key_bytes(name_slice) {
                        Some(Line::Section { name: slice_to_vec(name_slice) })
                    } else {
                        None
                    }
                } else {
                    let kend = trim_end_index(line, 0, n);
                    let kstart = trim_start_index(line, 0, kend);
                    let ks = slice_subrange(line, kstart, kend);
                    proof {
                        assert(line@.subrange(0, n as int) =~= line@);
                        assert(ks@ =~= line@.subrange(kstart as int, kend as int));
                    }
                    if valid_key_bytes(ks) {
                        Some(Line::Key { key: slice_to_vec(ks) })
                    } else {
                        None
                    }
                }
            },
        }
    }

    /// Parses a whole configuration text, following
    /// [`spec_parse_stream`]: recognized keys set their field, blank
    /// lines, comments, sections, bare keys and unknown keys are
    /// skipped, a malformed line is fatal with its line number, and a
    /// numeric value that does not parse or fit is fatal.
    #[verifier::loop_isolation(false)]
    #[verifier::rlimit(60)]
    pub fn parse_stream(input: &str) -> (r: OnewayResult<Config>)
        requires
            encode_utf8(input@).len() < usize::MAX,
        ensures
            (match spec_parse_stream(encode_utf8(input@)) {
                ConfigOutcome::Parsed { c } => (r matches Ok(conf) && conf.model() == c),
                ConfigOutcome::BadLine { linenum, line } => (r matches Err(Error::InvalidConfig {
                    linenum: ln,
                    line: l,
                }) && ln as int == linenum && (valid_utf8(line) ==> encode_utf8(l@) == line)),
                ConfigOutcome::BadInt => r matches Err(Error::ParseInt),
            }),
    {
        let bytes = input.as_bytes();
        let n = bytes.len();
        let mut config = Config::default();
        let mut pos: usize = 0;
        let mut linenum: usize = 1;
        let ghost goal = spec_parse_stream(encode_utf8(input@));
        proof {
            assert(bytes@.subrange(0, n as int) =~= bytes@);
        }
        while pos < n
            invariant
                pos <= n,
                linenum <= pos + 1,
                1 <= linenum,
                spec_parse_lines(
                    config.model(),
                    spec_lines(bytes@.subrange(pos as int, n as int)),
                    linenum as int,
                ) == goal,
            decreases n - pos,
        {
            let ghost rem = bytes@.subrange(pos as int, n as int);
            let ghost cm = config.model();
            let (end, next_pos) = match find_byte(bytes, pos, 10) {
                Some(idx) => (idx, idx + 1),
                None => (n, n),
            };
            let ghost line_raw = bytes@.subrange(pos as int, end as int);
            let ghost lines = spec_lines(rem);
            proof {
                if end < n {
                    assert(rem.subrange(0, end - pos as int) =~= line_raw);
                    assert(rem.subrange(end - pos + 1 as int, rem.len() as int) =~= bytes@
                        .subrange(next_pos as int, n as int));
                    assert(lines == seq![line_raw] + spec_lines(
                        bytes@.subrange(next_pos as int, n as int),
                    ));
                    assert(lines.drop_first() =~= spec_lines(
                        bytes@.subrange(next_pos as int, n as int),
                    ));
                } else {
                    assert(rem =~= line_raw);
                    assert(lines == seq![line_raw]);
                    assert(bytes@.subrange(next_pos as int, n as int) =~= Seq::<u8>::empty());
                    assert(lines.drop_first() =~= spec_lines(
                        bytes@.subrange(next_pos as int, n as int),
                    ));
                }
                assert(lines[0] == line_raw);
            }
            let te = trim_end_index(bytes, pos, end);
            let ghost trimmed = spec_trim_end(line_raw);
            proof {
                assert(trimmed == bytes@.subrange(pos as int, te as int));
            }
            if te > pos {
                let line_slice = slice_subrange(bytes, pos, te);
                proof {
                    assert(line_slice@ =~= trimmed);
                }
                match Config::parse_line(line_slice) {
                    None => {
                        return Err(Error::InvalidConfig {
                            linenum,
                            line: line_string(line_slice),
                        });
                    },
                    Some(Line::KeyValue { key, value }) => {
                        match apply_key_value(&mut config, key.as_slice(), value.as_slice()) {
                            ApplyResult::Applied => {},
                            ApplyResult::BadInt => {
                                return Err(Error::ParseInt);
                            },
                            ApplyResult::BadValue => {
                                return Err(Error::InvalidConfig {
                                    linenum,
                                    line: line_string(line_slice),
                                });
                            },
                        }
                    },
                    Some(_) => {},
                }
            }
            proof {
                let tail_lines = spec_lines(bytes@.subrange(next_pos as int, n as int));
                assert(lines.drop_first() == tail_lines);
                assert(spec_parse_lines(cm, lines, linenum as int) == spec_parse_lines(
                    config.model(),
                    tail_lines,
                    linenum as int + 1,
                ));
            }
            if end < n {
                linenum = linenum + 1;
            }
            pos = next_pos;
        }
        proof {
            assert(bytes@.subrange(pos as int, n as int) =~= Seq::<u8>::empty());
        }
        Ok(config)
    }
}

} // verus!

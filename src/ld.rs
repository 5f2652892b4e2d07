use vstd::prelude::*;
use vstd::string::StringExecFns;
use vstd::utf8::{decode_utf8, valid_utf8};
use vstd::arithmetic::div_mod::lemma_fundamental_div_mod_converse;
use crate::error::{MotecError, Result};

verus! {

/// Size of the header region; the channel table starts right after it.
pub const HEADER_SIZE: usize = 512;
/// Bytes of one channel record: a 64-byte name and 32-byte units.
pub const CHANNEL_RECORD_SIZE: usize = 96;
/// Width of the name field of a channel record.
pub const NAME_FIELD_SIZE: usize = 64;
/// Width of the units field of a channel record.
pub const UNITS_FIELD_SIZE: usize = 32;
/// Most sample rows decoded from one file.
pub const MAX_SAMPLE_ROWS: u32 = 10000;

/// Contents of a decoded binary log file.
#[derive(Debug, Clone)]
pub struct LdFile {
    pub header: LdHeader,
    pub channels: Vec<LdChannel>,
    pub samples: Vec<LdSample>,
}

/// Scalar fields at fixed offsets of the header region.
/// `sample_rate_bits` holds the IEEE-754 single-precision bit pattern
/// of the sample rate exactly as stored.
#[derive(Debug, Clone)]
pub struct LdHeader {
    pub version: u32,
    pub sample_count: u32,
    pub sample_rate_bits: u32,
    pub start_time: Option<String>,
    pub channel_count: u16,
}

/// One channel descriptor of the channel table.
#[derive(Debug, Clone)]
pub struct LdChannel {
    pub name: String,
    pub units: String,
    pub data_type: String,
    pub index: u16,
}

/// One sample row. Timestamp and values hold IEEE-754 double-precision
/// bit patterns exactly as stored.
#[derive(Debug, Clone)]
pub struct LdSample {
    pub timestamp_bits: u64,
    pub value_bits: Vec<u64>,
}

/// Summary of a binary log read from its first 512 bytes only.
#[derive(Debug, Clone)]
pub struct LdMetadata {
    pub file_size: u64,
    pub version: u32,
    pub sample_count: u32,
    pub sample_rate_bits: u32,
    pub channel_count: u16,
    pub channel_names: Vec<String>,
    pub valid: bool,
}

/// Little-endian value of the two bytes at `at`.
pub open spec fn le16(d: Seq<u8>, at: int) -> int {
    d[at] as int + 256 * (d[at + 1] as int)
}

/// Little-endian value of the four bytes at `at`.
pub open spec fn le32(d: Seq<u8>, at: int) -> int {
    le16(d, at) + 65536 * le16(d, at + 2)
}

/// Little-endian value of the eight bytes at `at`.
pub open spec fn le64(d: Seq<u8>, at: int) -> int {
    le32(d, at) + 4294967296 * le32(d, at + 4)
}

fn read_u16_le(d: &[u8], at: usize) -> (r: u16)
    requires
        at + 2 <= d@.len(),
    ensures
        r as int == le16(d@, at as int),
{
    (d[at] as u16) + (d[at + 1] as u16) * 256
}

fn read_u32_le(d: &[u8], at: usize) -> (r: u32)
    requires
        at + 4 <= d.len(),
    ensures
        r as int == le32(d@, at as int),
{
    let lo = read_u16_le(d, at);
    let hi = read_u16_le(d, at + 2);
    (lo as u32) + (hi as u32) * 65536
}

fn read_u64_le(d: &[u8], at: usize) -> (r: u64)
    requires
        at + 8 <= d.len(),
    ensures
        r as int == le64(d@, at as int),
{
    let lo = read_u32_le(d, at);
    let hi = read_u32_le(d, at + 4);
    (lo as u64) + (hi as u64) * 4294967296
}

/// What `String::from_utf8_lossy` makes of a byte sequence.
pub uninterp spec fn lossy_of(b: Seq<u8>) -> Seq<char>;

/// The characters with the Unicode `White_Space` property.
pub open spec fn is_white_space(c: char) -> bool {
    ||| '\u{9}' <= c <= '\u{d}'
    ||| c == ' '
    ||| c == '\u{85}'
    ||| c == '\u{a0}'
    ||| c == '\u{1680}'
    ||| '\u{2000}' <= c <= '\u{200a}'
    ||| c == '\u{2028}'
    ||| c == '\u{2029}'
    ||| c == '\u{202f}'
    ||| c == '\u{205f}'
    ||| c == '\u{3000}'
}

/// `s` without its leading white space.
pub open spec fn trim_front(s: Seq<char>) -> Seq<char>
    decreases s.len(),
{
    if s.len() > 0 && is_white_space(s[0]) {
        trim_front(s.drop_first())
    } else {
        s
    }
}

/// `s` without its trailing white space.
pub open spec fn trim_back(s: Seq<char>) -> Seq<char>
    decreases s.len(),
{
    if s.len() > 0 && is_white_space(s.last()) {
        trim_back(s.drop_last())
    } else {
        s
    }
}

/// `s` without leading and trailing white space.
pub open spec fn trim_of(s: Seq<char>) -> Seq<char> {
    trim_back(trim_front(s))
}

/// Relies on `String::from_utf8_lossy`: decodes bytes as UTF-8, replacing
/// invalid sequences; the result depends on the bytes alone, and valid
/// UTF-8 is decoded unchanged.
#[verifier::external_body]
fn lossy(b: &[u8]) -> (r: String)
    ensures
        r@ == lossy_of(b@),
        valid_utf8(b@) ==> r@ == decode_utf8(b@),
{
    String::from_utf8_lossy(b).into_owned()
}

/// Relies on `str::trim`: removes leading and trailing characters with
/// the `White_Space` property.
#[verifier::external_body]
fn trim(s: &str) -> (r: String)
    ensures
        r@ == trim_of(s@),
{
    s.trim().to_string()
}

/// Character of the decimal digit `d`.
pub open spec fn digit_char(d: nat) -> char {
    seq!['0', '1', '2', '3', '4', '5', '6', '7', '8', '9'][d as int]
}

/// Decimal digits of `n`, without leading zeros.
pub open spec fn decimal(n: nat) -> Seq<char>
    decreases n,
{
    if n < 10 {
        seq![digit_char(n)]
    } else {
        decimal(n / 10) + seq![digit_char(n % 10)]
    }
}

fn digit_str(d: usize) -> (r: &'static str)
    requires
        d < 10,
    ensures
        r@ == seq![digit_char(d as nat)],
{
    proof {
        reveal_strlit("0");
        reveal_strlit("1");
        reveal_strlit("2");
        reveal_strlit("3");
        reveal_strlit("4");
        reveal_strlit("5");
        reveal_strlit("6");
        reveal_strlit("7");
        reveal_strlit("8");
        reveal_strlit("9");
    }
    let r = match d {
        0 => "0",
        1 => "1",
        2 => "2",
        3 => "3",
        4 => "4",
        5 => "5",
        6 => "6",
        7 => "7",
        8 => "8",
        _ => "9",
    };
    assert(r@ =~= seq![digit_char(d as nat)]);
    r
}

fn push_decimal(s: &mut String, n: usize)
    ensures
        final(s)@ == old(s)@ + decimal(n as nat),
    decreases n,
{
    if n >= 10 {
        push_decimal(s, n / 10);
    }
    s.append(digit_str(n % 10));
    assert(final(s)@ =~= old(s)@ + decimal(n as nat));
}

/// Message of a failed read of `field` of the `what` numbered `index`.
pub open spec fn read_failure(what: Seq<char>, index: nat, field: Seq<char>) -> Seq<char> {
    "Failed to read "@ + what + " "@ + decimal(index) + " "@ + field + ": unexpected end of data"@
}

fn failure_message(what: &str, index: usize, field: &str) -> (r: String)
    ensures
        r@ == read_failure(what@, index as nat, field@),
{
    let mut m = String::from_str("Failed to read ");
    m.append(what);
    m.append(" ");
    push_decimal(&mut m, index);
    m.append(" ");
    m.append(field);
    m.append(": unexpected end of data");
    m
}

/// `n` is the position of the first zero byte of `b`, or its length if
/// it holds none.
pub open spec fn terminated_at(b: Seq<u8>, n: int) -> bool {
    &&& 0 <= n <= b.len()
    &&& forall|i: int| 0 <= i < n ==> b[i] != 0
    &&& n < b.len() ==> b[n] == 0
}

/// `s` is the text of the fixed-width field `b`: the bytes before the
/// first zero (all of them if none is zero), decoded and trimmed.
pub open spec fn decodes_to(b: Seq<u8>, s: Seq<char>) -> bool {
    exists|n: int| terminated_at(b, n) && s == trim_of(lossy_of(b.take(n)))
}

/// Decodes a fixed-width, zero-terminated text field.
pub fn decode_text_field(field: &[u8]) -> (r: String)
    ensures
        decodes_to(field@, r@),
{
    let mut text: Vec<u8> = Vec::new();
    let mut i: usize = 0;
    while i < field.len()
        invariant
            i <= field@.len(),
            text@ == field@.take(i as int),
            forall|k: int| 0 <= k < i ==> field@[k] != 0,
        ensures
            i <= field@.len(),
            text@ == field@.take(i as int),
            forall|k: int| 0 <= k < i ==> field@[k] != 0,
            i < field@.len() ==> field@[i as int] == 0,
        decreases field.len() - i,
    {
        if field[i] == 0 {
            break;
        }
        text.push(field[i]);
        i = i + 1;
        assert(text@ =~= field@.take(i as int));
    }
    let decoded = lossy(text.as_slice());
    let r = trim(decoded.as_str());
    assert(terminated_at(field@, i as int));
    r
}

/// Copies the `n` bytes of `d` at `at`.
fn copy_bytes(d: &[u8], at: usize, n: usize) -> (v: Vec<u8>)
    requires
        at + n <= d@.len(),
    ensures
        v@ == d@.subrange(at as int, at + n),
{
    let len = d.len();
    let mut v: Vec<u8> = Vec::new();
    let mut i: usize = 0;
    while i < n
        invariant
            at + n <= d@.len(),
            len == d@.len(),
            i <= n,
            v@ == d@.subrange(at as int, at + i),
        decreases n - i,
    {
        v.push(d[at + i]);
        i = i + 1;
        assert(v@ =~= d@.subrange(at as int, at + i));
    }
    v
}

/// `h` holds the header fields stored in `d`.
pub open spec fn header_matches(h: LdHeader, d: Seq<u8>) -> bool {
    &&& h.version as int == le32(d, 0)
    &&& h.sample_count as int == le32(d, 4)
    &&& h.sample_rate_bits as int == le32(d, 8)
    &&& h.channel_count as int == le16(d, 16)
    &&& h.start_time is None
}

/// Message of a buffer too small to hold the header region.
pub open spec fn header_too_small() -> Seq<char> {
    "LD file too small (minimum 512 bytes header)"@
}

/// Reads the header fields, each at its own fixed offset; fails with
/// `InvalidFormat` when the buffer cannot hold the 512-byte header region.
fn parse_ld_header(data: &[u8]) -> (r: Result<LdHeader>)
    ensures
        r is Ok <==> data@.len() >= 512,
        r matches Ok(h) ==> header_matches(h, data@),
        r matches Err(e) ==> (e matches MotecError::InvalidFormat(m) && m@ == header_too_small()),
{
    if data.len() < HEADER_SIZE {
        return Err(MotecError::InvalidFormat(String::from_str("LD file too small (minimum 512 bytes header)")));
    }
    let version = read_u32_le(data, 0);
    let sample_count = read_u32_le(data, 4);
    let sample_rate_bits = read_u32_le(data, 8);
    let channel_count = read_u16_le(data, 16);
    Ok(LdHeader { version, sample_count, sample_rate_bits, start_time: None, channel_count })
}

/// The data-type label given to every channel.
pub open spec fn f64_tag() -> Seq<char> {
    seq!['f', '6', '4']
}

/// Offset of channel record `i`.
pub open spec fn channel_at(i: int) -> int {
    512 + 96 * i
}

/// `c` is channel `i` of the table stored in `d`.
pub open spec fn channel_matches(c: LdChannel, d: Seq<u8>, i: int) -> bool {
    &&& decodes_to(d.subrange(channel_at(i), channel_at(i) + 64), c.name@)
    &&& decodes_to(d.subrange(channel_at(i) + 64, channel_at(i) + 96), c.units@)
    &&& c.data_type@ == f64_tag()
    &&& c.index as int == i
}

/// `cs` is the table of `count` channels stored in `d`.
pub open spec fn channels_match(cs: Seq<LdChannel>, d: Seq<u8>, count: int) -> bool {
    &&& cs.len() == count
    &&& forall|i: int| 0 <= i < count ==> channel_matches(#[trigger] cs[i], d, i)
}

/// Index of the first channel record that does not fit before `end`.
pub open spec fn short_channel(end: int) -> int {
    if end < 512 {
        0
    } else {
        (end - 512) / 96
    }
}

/// Message of a channel table cut short at `end`: it names the first
/// record that does not fit, and whether its name or its units are short.
pub open spec fn channel_failure(end: int) -> Seq<char> {
    read_failure(
        "channel"@,
        short_channel(end) as nat,
        if end < channel_at(short_channel(end)) + 64 {
            "name"@
        } else {
            "units"@
        },
    )
}

/// Reads `count` channel records from offset 512, reading no byte at or
/// past `end`. Fails exactly when the table does not fit before `end`.
pub fn parse_ld_channels(data: &[u8], end: usize, count: u16) -> (r: Result<Vec<LdChannel>>)
    requires
        end <= data@.len(),
    ensures
        r is Ok <==> count == 0 || channel_at(count as int) <= end,
        r matches Ok(cs) ==> channels_match(cs@, data@, count as int),
        r matches Err(e) ==> (e matches MotecError::BinaryParse(m) && m@ == channel_failure(end as int)),
{
    let mut channels: Vec<LdChannel> = Vec::new();
    let mut pos: usize = HEADER_SIZE;
    let mut i: u16 = 0;
    while i < count
        invariant
            end <= data@.len(),
            i <= count,
            pos as int == channel_at(i as int),
            i > 0 ==> pos <= end,
            channels_match(channels@, data@, i as int),
        decreases count - i,
    {
        if pos > end || end - pos < NAME_FIELD_SIZE {
            proof {
                if pos <= end {
                    lemma_fundamental_div_mod_converse(end - 512, 96, i as int, end - pos);
                }
            }
            return Err(MotecError::BinaryParse(failure_message("channel", i as usize, "name")));
        }
        let name_bytes = copy_bytes(data, pos, NAME_FIELD_SIZE);
        let name = decode_text_field(name_bytes.as_slice());
        if end - pos < CHANNEL_RECORD_SIZE {
            proof {
                lemma_fundamental_div_mod_converse(end - 512, 96, i as int, end - pos);
            }
            return Err(MotecError::BinaryParse(failure_message("channel", i as usize, "units")));
        }
        let units_bytes = copy_bytes(data, pos + NAME_FIELD_SIZE, UNITS_FIELD_SIZE);
        let units = decode_text_field(units_bytes.as_slice());
        let data_type = String::from_str("f64");
        proof {
            reveal_strlit("f64");
        }
        let ghost prev = channels@;
        channels.push(LdChannel { name, units, data_type, index: i });
        assert(forall|k: int| 0 <= k < i ==> channels@[k] == prev[k]);
        assert(channels@[i as int].data_type@ == f64_tag());
        assert(channel_matches(channels@[i as int], data@, i as int));
        pos = pos + CHANNEL_RECORD_SIZE;
        i = i + 1;
    }
    Ok(channels)
}

/// Bytes of one sample row with `cc` values.
pub open spec fn row_size(cc: int) -> int {
    8 * (cc + 1)
}

/// Rows decoded for a declared sample count: at most 10000.
pub open spec fn capped_rows(sc: int) -> int {
    if sc < 10000 {
        sc
    } else {
        10000
    }
}

/// `s` is the row of `cc` values stored at `at` in `d`.
pub open spec fn row_matches(s: LdSample, d: Seq<u8>, at: int, cc: int) -> bool {
    &&& s.timestamp_bits as int == le64(d, at)
    &&& s.value_bits@.len() == cc
    &&& forall|k: int| 0 <= k < cc ==> #[trigger] s.value_bits@[k] as int == le64(d, at + 8 + 8 * k)
}

/// `ss` is the `rows` rows of `cc` values stored from `start` in `d`.
pub open spec fn samples_match(ss: Seq<LdSample>, d: Seq<u8>, start: int, rows: int, cc: int) -> bool {
    &&& ss.len() == rows
    &&& forall|j: int| 0 <= j < rows ==> row_matches(#[trigger] ss[j], d, start + j * row_size(cc), cc)
}

/// Index of the first row of `cc` values from `start` that does not fit
/// in `len` bytes.
pub open spec fn short_row(len: int, start: int, cc: int) -> int {
    if len < start {
        0
    } else {
        (len - start) / row_size(cc)
    }
}

/// Message of sample rows cut short: it names the first row that does not
/// fit, and whether its timestamp or one of its values is short.
pub open spec fn sample_failure(len: int, start: int, cc: int) -> Seq<char> {
    read_failure(
        "sample"@,
        short_row(len, start, cc) as nat,
        if len < start || (len - start) % row_size(cc) < 8 {
            "timestamp"@
        } else {
            "value"@
        },
    )
}

/// Reads `min(sample_count, 10000)` rows of a timestamp and
/// `channel_count` values from `start`. Fails exactly when the rows do not
/// fit in `data`; no partial row is returned.
pub fn parse_ld_samples(data: &[u8], start: usize, sample_count: u32, channel_count: usize) -> (r: Result<Vec<LdSample>>)
    ensures
        r is Ok <==> capped_rows(sample_count as int) == 0
            || start + capped_rows(sample_count as int) * row_size(channel_count as int) <= data@.len(),
        r matches Ok(ss) ==> samples_match(ss@, data@, start as int, capped_rows(sample_count as int), channel_count as int),
        r matches Err(e) ==> (e matches MotecError::BinaryParse(m)
            && m@ == sample_failure(data@.len() as int, start as int, channel_count as int)),
{
    let len = data.len();
    let max_rows: u32 = if sample_count < MAX_SAMPLE_ROWS { sample_count } else { MAX_SAMPLE_ROWS };
    let ghost rs = row_size(channel_count as int);
    let ghost m = max_rows as int;
    let mut samples: Vec<LdSample> = Vec::new();
    let mut pos: usize = start;
    let mut j: u32 = 0;
    while j < max_rows
        invariant
            len == data@.len(),
            m == max_rows,
            m == capped_rows(sample_count as int),
            rs == row_size(channel_count as int),
            j <= max_rows,
            pos as int == start + j * rs,
            j > 0 ==> pos <= len,
            samples_match(samples@, data@, start as int, j as int, channel_count as int),
        decreases max_rows - j,
    {
        assert((j + 1) * rs <= m * rs) by (nonlinear_arith)
            requires j + 1 <= m, rs >= 0;
        assert(start + (j + 1) * rs == pos + rs) by (nonlinear_arith)
            requires pos == start + j * rs;
        if pos > len || len - pos < 8 {
            proof {
                if pos <= len {
                    lemma_fundamental_div_mod_converse(len - start, rs, j as int, len - pos);
                }
            }
            return Err(MotecError::BinaryParse(failure_message("sample", j as usize, "timestamp")));
        }
        let timestamp_bits = read_u64_le(data, pos);
        let mut p: usize = pos + 8;
        let mut values: Vec<u64> = Vec::new();
        let mut k: usize = 0;
        while k < channel_count
            invariant
                len == data@.len(),
                k <= channel_count,
                pos <= len,
                pos as int == start + j * rs,
                p as int == pos + 8 + 8 * k,
                p <= len,
                start + m * rs >= pos + rs,
                rs == row_size(channel_count as int),
                m == capped_rows(sample_count as int),
                k < channel_count ==> p + 8 <= pos + rs,
                values@.len() == k,
                forall|q: int| 0 <= q < k ==> #[trigger] values@[q] as int == le64(data@, pos + 8 + 8 * q),
            decreases channel_count - k,
        {
            if len - p < 8 {
                proof {
                    lemma_fundamental_div_mod_converse(len - start, rs, j as int, len - pos);
                }
                return Err(MotecError::BinaryParse(failure_message("sample", j as usize, "value")));
            }
            values.push(read_u64_le(data, p));
            p = p + 8;
            k = k + 1;
        }
        let ghost prev = samples@;
        samples.push(LdSample { timestamp_bits, value_bits: values });
        assert(forall|q: int| 0 <= q < j ==> samples@[q] == prev[q]);
        pos = p;
        j = j + 1;
    }
    Ok(samples)
}

/// Declared channel count of the header stored in `d`.
pub open spec fn declared_channels(d: Seq<u8>) -> int {
    le16(d, 16)
}

/// Declared sample count of the header stored in `d`.
pub open spec fn declared_samples(d: Seq<u8>) -> int {
    le32(d, 4)
}

/// Offset of the first sample row of the file `d`.
pub open spec fn samples_start(d: Seq<u8>) -> int {
    channel_at(declared_channels(d))
}

/// `d` holds a whole header region, channel table and the capped rows.
pub open spec fn ld_fits(d: Seq<u8>) -> bool {
    &&& d.len() >= 512
    &&& samples_start(d) + capped_rows(declared_samples(d)) * row_size(declared_channels(d)) <= d.len()
}

/// `f` is the file decoded from `d`.
pub open spec fn ld_parsed(d: Seq<u8>, f: LdFile) -> bool {
    &&& header_matches(f.header, d)
    &&& channels_match(f.channels@, d, declared_channels(d))
    &&& samples_match(
        f.samples@,
        d,
        samples_start(d),
        capped_rows(declared_samples(d)),
        declared_channels(d),
    )
}

/// Message of a buffer of at least 512 bytes that does not hold the whole
/// file: the first channel record, or else the first sample row, that is
/// cut short.
pub open spec fn ld_failure(d: Seq<u8>) -> Seq<char> {
    if declared_channels(d) > 0 && channel_at(declared_channels(d)) > d.len() {
        channel_failure(d.len() as int)
    } else {
        sample_failure(d.len() as int, samples_start(d), declared_channels(d))
    }
}

/// Decodes a whole binary log: header, channel table and sample rows.
/// Fails with `InvalidFormat` below 512 bytes, and with `BinaryParse`
/// when the table or the capped rows run past the end of `data`.
pub fn parse_ld(data: &[u8]) -> (r: Result<LdFile>)
    ensures
        r is Ok <==> ld_fits(data@),
        r matches Ok(f) ==> ld_parsed(data@, f),
        r matches Ok(f) ==> f.channels@.len() == f.header.channel_count,
        r matches Ok(f) ==> f.samples@.len() == capped_rows(f.header.sample_count as int),
        r matches Ok(f) ==> forall|j: int|
            0 <= j < f.samples@.len() ==> (#[trigger] f.samples@[j]).value_bits@.len() == f.channels@.len(),
        data@.len() < 512 ==> (r matches Err(e) && e matches MotecError::InvalidFormat(m)
            && m@ == header_too_small()),
        data@.len() >= 512 && !ld_fits(data@) ==> (r matches Err(e) && e matches MotecError::BinaryParse(m)
            && m@ == ld_failure(data@)),
{
    let ghost d = data@;
    let header = parse_ld_header(data)?;
    let ghost cc = declared_channels(d);
    let ghost rows = capped_rows(declared_samples(d));
    assert(rows * row_size(cc) >= 0) by (nonlinear_arith)
        requires rows >= 0, cc >= 0;
    let channels = parse_ld_channels(data, data.len(), header.channel_count)?;
    let start = HEADER_SIZE + CHANNEL_RECORD_SIZE * (header.channel_count as usize);
    let samples = parse_ld_samples(data, start, header.sample_count, channels.len())?;
    Ok(LdFile { header, channels, samples })
}

/// `m` is the summary decoded from the first 512 bytes of `d`.
pub open spec fn metadata_parsed(d: Seq<u8>, m: LdMetadata) -> bool {
    &&& m.file_size == d.len()
    &&& m.version as int == le32(d, 0)
    &&& m.sample_count as int == le32(d, 4)
    &&& m.sample_rate_bits as int == le32(d, 8)
    &&& m.channel_count as int == declared_channels(d)
    &&& m.channel_names@.len() == declared_channels(d)
    &&& forall|i: int| 0 <= i < m.channel_names@.len() ==>
        decodes_to(d.subrange(channel_at(i), channel_at(i) + 64), (#[trigger] m.channel_names@[i])@)
    &&& m.valid
}

/// Summarises a binary log from its first 512 bytes. The channel table
/// starts at offset 512, so any channel record lies outside that window:
/// the summary succeeds exactly when the buffer holds 512 bytes and the
/// header declares no channels.
pub fn parse_ld_metadata(data: &[u8]) -> (r: Result<LdMetadata>)
    ensures
        r is Ok <==> data@.len() >= 512 && declared_channels(data@) == 0,
        r matches Ok(m) ==> metadata_parsed(data@, m),
        data@.len() < 512 ==> (r matches Err(e) && e matches MotecError::InvalidFormat(m)
            && m@ == "LD file too small for metadata extraction"@),
        data@.len() >= 512 && declared_channels(data@) != 0 ==> (r matches Err(e)
            && e matches MotecError::BinaryParse(m) && m@ == channel_failure(512)),
{
    if data.len() < HEADER_SIZE {
        return Err(MotecError::InvalidFormat(String::from_str("LD file too small for metadata extraction")));
    }
    let header = parse_ld_header(data)?;
    let channels = parse_ld_channels(data, HEADER_SIZE, header.channel_count)?;
    let mut channel_names: Vec<String> = Vec::new();
    let mut i: usize = 0;
    while i < channels.len()
        invariant
            i <= channels@.len(),
            channels_match(channels@, data@, header.channel_count as int),
            channel_names@.len() == i,
            forall|k: int| 0 <= k < i ==> (#[trigger] channel_names@[k])@ == channels@[k].name@,
        decreases channels.len() - i,
    {
        channel_names.push(channels[i].name.clone());
        i = i + 1;
    }
    Ok(LdMetadata {
        file_size: data.len() as u64,
        version: header.version,
        sample_count: header.sample_count,
        sample_rate_bits: header.sample_rate_bits,
        channel_count: header.channel_count,
        channel_names,
        valid: true,
    })
}

/// A file and its summary agree on the number of channels: whenever both
/// are decoded from the same buffer, the file holds as many channel
/// descriptors as the summary's channel count.
pub proof fn lemma_channel_count_agrees(d: Seq<u8>, f: LdFile, m: LdMetadata)
    requires
        ld_parsed(d, f),
        metadata_parsed(d, m),
    ensures
        f.channels@.len() == m.channel_count,
{
}

} // verus!

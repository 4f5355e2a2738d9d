use crate::errors::{is_iso_error, AppError, AppResult};
use crate::text::{
    clone_strings, is_ascii_digit, join, join_strings, str_chars, string_from_chars, strings_view,
};
use std::collections::HashSet;
use vstd::prelude::*;

verus! {

pub const SECTOR_SIZE: usize = 2048;

pub const VOLUME_DESCRIPTOR_START: u64 = 16;

pub const MAX_VOLUME_DESCRIPTORS: u64 = 256;

pub const MAX_DIRECTORIES: usize = 1_000_000;

/// `char::from_u32` gives the character with that scalar value, and `None`
/// for a surrogate or a value above `0x10FFFF`.
pub assume_specification[ char::from_u32 ](i: u32) -> (r: Option<char>)
    ensures
        r == (if i <= 0xD7FF || (0xE000 <= i && i <= 0x10FFFF) {
            Some(i as char)
        } else {
            None::<char>
        }),
;

/// What `String::from_utf8_lossy` makes of the bytes.
pub uninterp spec fn utf8_lossy(bytes: Seq<u8>) -> Seq<char>;

/// Calls `String::from_utf8_lossy`. Its documentation says that valid UTF-8 is
/// decoded as it stands; invalid sequences become U+FFFD, and which bytes each
/// replacement covers is left to the name `utf8_lossy`.
#[verifier::external_body]
pub(crate) fn decode_utf8_lossy(bytes: &[u8]) -> (s: String)
    ensures
        s@ == utf8_lossy(bytes@),
        vstd::utf8::valid_utf8(bytes@) ==> s@ == vstd::utf8::decode_utf8(bytes@),
{
    String::from_utf8_lossy(bytes).into_owned()
}

#[derive(Debug, Clone, Copy, PartialEq, Eq, Structural)]
pub enum IsoEntryKind {
    File,
    Directory,
    Other,
}

/// A file, directory or other object found in the image.
#[derive(Debug, Clone, PartialEq, Eq)]
pub struct IsoEntry {
    pub path: String,
    pub size: u64,
    pub kind: IsoEntryKind,
    pub extent: u32,
}

pub struct IsoEntryView {
    pub path: Seq<char>,
    pub size: u64,
    pub kind: IsoEntryKind,
    pub extent: u32,
}

impl View for IsoEntry {
    type V = IsoEntryView;

    open spec fn view(&self) -> IsoEntryView {
        IsoEntryView { path: self.path@, size: self.size, kind: self.kind, extent: self.extent }
    }
}

/// Where a directory's records lie: first sector and length in bytes.
#[derive(Debug, Clone, Copy, PartialEq, Eq, Structural)]
pub struct DirectoryRef {
    pub extent: u32,
    pub size: u32,
}

#[derive(Debug, Clone, PartialEq, Eq)]
pub enum RecordIdentifier {
    Current,
    Parent,
    Name(String),
}

pub enum RecordIdentifierView {
    Current,
    Parent,
    Name(Seq<char>),
}

impl View for RecordIdentifier {
    type V = RecordIdentifierView;

    open spec fn view(&self) -> RecordIdentifierView {
        match self {
            RecordIdentifier::Current => RecordIdentifierView::Current,
            RecordIdentifier::Parent => RecordIdentifierView::Parent,
            RecordIdentifier::Name(n) => RecordIdentifierView::Name(n@),
        }
    }
}

/// One directory record, decoded.
#[derive(Debug, Clone)]
pub struct ParsedRecord {
    pub identifier: RecordIdentifier,
    pub extent: u32,
    pub size: u32,
    pub kind: IsoEntryKind,
}

pub struct ParsedRecordView {
    pub identifier: RecordIdentifierView,
    pub extent: u32,
    pub size: u32,
    pub kind: IsoEntryKind,
}

impl View for ParsedRecord {
    type V = ParsedRecordView;

    open spec fn view(&self) -> ParsedRecordView {
        ParsedRecordView {
            identifier: self.identifier@,
            extent: self.extent,
            size: self.size,
            kind: self.kind,
        }
    }
}

pub open spec fn records_view(rs: Seq<ParsedRecord>) -> Seq<ParsedRecordView> {
    rs.map_values(|r: ParsedRecord| r@)
}

// ---------------------------------------------------------------------------
// Names
// ---------------------------------------------------------------------------

/// Index of the last occurrence of `c` in `s`.
pub open spec fn rfind_char(s: Seq<char>, c: char) -> Option<int>
    decreases s.len(),
{
    if s.len() == 0 {
        None
    } else if s.last() == c {
        Some(s.len() - 1)
    } else {
        rfind_char(s.drop_last(), c)
    }
}

pub open spec fn all_ascii_digits(s: Seq<char>) -> bool {
    forall|i: int| 0 <= i < s.len() ==> is_ascii_digit(#[trigger] s[i])
}

/// A name without its `;<digits>` version suffix, then without one trailing `.`.
pub open spec fn spec_strip_iso_version(name: Seq<char>) -> Seq<char> {
    let t = match rfind_char(name, ';') {
        Some(i) => if all_ascii_digits(name.skip(i + 1)) {
            name.take(i)
        } else {
            name
        },
        None => name,
    };
    if t.len() > 0 && t.last() == '.' {
        t.drop_last()
    } else {
        t
    }
}

pub proof fn lemma_rfind_char_props(s: Seq<char>, c: char)
    ensures
        rfind_char(s, c) matches Some(i) ==> 0 <= i < s.len() && s[i] == c,
    decreases s.len(),
{
    if s.len() > 0 && s.last() != c {
        lemma_rfind_char_props(s.drop_last(), c);
    }
}

pub proof fn lemma_rfind_char_is(s: Seq<char>, c: char, k: int)
    requires
        -1 <= k < s.len(),
        forall|j: int| k < j < s.len() ==> #[trigger] s[j] != c,
        k >= 0 ==> s[k] == c,
    ensures
        rfind_char(s, c) == (if k >= 0 { Some(k) } else { None::<int> }),
    decreases s.len(),
{
    if s.len() > 0 && s.last() != c {
        lemma_rfind_char_is(s.drop_last(), c, k);
    }
}

pub fn strip_iso_version(name: String) -> (r: String)
    ensures
        r@ == spec_strip_iso_version(name@),
{
    let chars = str_chars(name.as_str());
    let n = chars.len();
    let mut i: usize = n;
    while i > 0 && chars[i - 1] != ';'
        invariant
            i <= n,
            n == chars.len(),
            forall|j: int| i <= j < n ==> #[trigger] chars@[j] != ';',
        decreases i,
    {
        i = i - 1;
    }
    let mut end: usize = n;
    if i > 0 {
        let semi = i - 1;
        proof {
            lemma_rfind_char_is(chars@, ';', semi as int);
        }
        let mut all_digits = true;
        let mut k: usize = i;
        while k < n
            invariant
                i <= k <= n,
                n == chars.len(),
                all_digits == (forall|j: int| i <= j < k ==> is_ascii_digit(#[trigger] chars@[j])),
            decreases n - k,
        {
            if !('0' <= chars[k] && chars[k] <= '9') {
                all_digits = false;
            }
            k = k + 1;
        }
        assert(all_digits == all_ascii_digits(chars@.skip(i as int))) by {
            if all_digits {
                assert forall|j: int| 0 <= j < chars@.skip(i as int).len() implies is_ascii_digit(
                    #[trigger] chars@.skip(i as int)[j],
                ) by {
                    assert(chars@.skip(i as int)[j] == chars@[i + j]);
                }
            } else {
                let j = choose|j: int| i <= j < n && !is_ascii_digit(#[trigger] chars@[j]);
                assert(chars@.skip(i as int)[j - i] == chars@[j]);
            }
        }
        if all_digits {
            end = semi;
        }
    } else {
        proof {
            lemma_rfind_char_is(chars@, ';', -1);
        }
    }
    if end > 0 && chars[end - 1] == '.' {
        end = end - 1;
    }
    let r = string_from_chars(&chars[0..end]);
    proof {
        let t = match rfind_char(chars@, ';') {
            Some(i) => if all_ascii_digits(chars@.skip(i + 1)) {
                chars@.take(i)
            } else {
                chars@
            },
            None => chars@,
        };
        assert(t.len() > 0 ==> t.last() == t[t.len() - 1]);
        if t.len() > 0 && t.last() == '.' {
            assert(r@ =~= t.drop_last());
        } else {
            assert(r@ =~= t);
        }
    }
    r
}

// ---------------------------------------------------------------------------
// UTF-16
// ---------------------------------------------------------------------------

pub open spec fn is_high_surrogate(u: u16) -> bool {
    0xD800 <= u <= 0xDBFF
}

pub open spec fn is_low_surrogate(u: u16) -> bool {
    0xDC00 <= u <= 0xDFFF
}

pub open spec fn surrogate_pair_value(hi: u16, lo: u16) -> u32 {
    (0x10000 + (hi - 0xD800) * 1024 + (lo - 0xDC00)) as u32
}

/// UTF-16 decoding in which every unpaired surrogate becomes U+FFFD, as
/// `String::from_utf16_lossy` decodes.
pub open spec fn utf16_lossy(units: Seq<u16>) -> Seq<char>
    decreases units.len(),
{
    if units.len() == 0 {
        Seq::empty()
    } else if is_high_surrogate(units[0]) && units.len() >= 2 && is_low_surrogate(units[1]) {
        seq![surrogate_pair_value(units[0], units[1]) as char] + utf16_lossy(units.skip(2))
    } else if is_high_surrogate(units[0]) || is_low_surrogate(units[0]) {
        seq!['\u{FFFD}'] + utf16_lossy(units.skip(1))
    } else {
        seq![(units[0] as u32) as char] + utf16_lossy(units.skip(1))
    }
}

/// The big-endian 16-bit units of an even-length byte string.
pub open spec fn be_units(bytes: Seq<u8>) -> Seq<u16> {
    Seq::new(
        (bytes.len() / 2) as nat,
        |i: int| (bytes[2 * i] as int * 256 + bytes[2 * i + 1] as int) as u16,
    )
}

/// Units outside the surrogate range each decode to the character of that value.
pub proof fn lemma_utf16_without_surrogates(units: Seq<u16>)
    requires
        forall|i: int| 0 <= i < units.len() ==> !(0xD800 <= #[trigger] units[i] <= 0xDFFF),
    ensures
        utf16_lossy(units) == units.map_values(|u: u16| (u as u32) as char),
    decreases units.len(),
{
    if units.len() > 0 {
        lemma_utf16_without_surrogates(units.skip(1));
        assert(seq![(units[0] as u32) as char] + units.skip(1).map_values(|u: u16| (u as u32) as char)
            =~= units.map_values(|u: u16| (u as u32) as char));
    } else {
        assert(units.map_values(|u: u16| (u as u32) as char) =~= Seq::<char>::empty());
    }
}

pub fn decode_utf16_lossy(units: &[u16]) -> (r: Vec<char>)
    ensures
        r@ == utf16_lossy(units@),
{
    let mut out: Vec<char> = Vec::new();
    let mut i: usize = 0;
    assert(units@.skip(0) =~= units@);
    while i < units.len()
        invariant
            i <= units.len(),
            utf16_lossy(units@) == out@ + utf16_lossy(units@.skip(i as int)),
        decreases units.len() - i,
    {
        let u = units[i];
        let ghost rest = units@.skip(i as int);
        assert(rest[0] == u);
        if 0xD800 <= u && u <= 0xDBFF && i + 1 < units.len() && 0xDC00 <= units[i + 1]
            && units[i + 1] <= 0xDFFF {
            let lo = units[i + 1];
            assert(rest[1] == lo);
            let v: u32 = 0x10000 + ((u - 0xD800) as u32) * 1024 + ((lo - 0xDC00) as u32);
            let c = char::from_u32(v).unwrap();
            out.push(c);
            assert(rest.skip(2) =~= units@.skip(i + 2));
            i = i + 2;
        } else if 0xD800 <= u && u <= 0xDFFF {
            out.push('\u{FFFD}');
            assert(rest.skip(1) =~= units@.skip(i + 1));
            i = i + 1;
        } else {
            let c = char::from_u32(u as u32).unwrap();
            out.push(c);
            assert(rest.skip(1) =~= units@.skip(i + 1));
            i = i + 1;
        }
    }
    assert(units@.skip(i as int) =~= Seq::<u16>::empty());
    assert(out@ + Seq::<char>::empty() =~= out@);
    out
}

// ---------------------------------------------------------------------------
// Identifiers
// ---------------------------------------------------------------------------

pub open spec fn spec_decode_identifier(bytes: Seq<u8>, joliet: bool) -> RecordIdentifierView {
    if bytes == seq![0u8] {
        RecordIdentifierView::Current
    } else if bytes == seq![1u8] {
        RecordIdentifierView::Parent
    } else {
        let decoded = if joliet && bytes.len() % 2 == 0 {
            utf16_lossy(be_units(bytes))
        } else {
            utf8_lossy(bytes)
        };
        RecordIdentifierView::Name(spec_strip_iso_version(decoded))
    }
}

/// An identifier read as UTF-8 (not as Joliet UTF-16), other than `.` and
/// `..`, whose bytes are valid UTF-8.
pub open spec fn is_plain_utf8_identifier(bytes: Seq<u8>, joliet: bool) -> bool {
    &&& !(joliet && bytes.len() % 2 == 0)
    &&& bytes != seq![0u8]
    &&& bytes != seq![1u8]
    &&& vstd::utf8::valid_utf8(bytes)
}

/// The UTF-16 big-endian bytes of a text of the Basic Multilingual Plane:
/// for each character its high byte, then its low byte.
pub open spec fn utf16be_bytes(t: Seq<char>) -> Seq<u8> {
    Seq::new(
        2 * t.len(),
        |i: int|
            if i % 2 == 0 {
                ((t[i / 2] as u32) / 256) as u8
            } else {
                ((t[i / 2] as u32) % 256) as u8
            },
    )
}

/// Every character lies in the Basic Multilingual Plane.
pub open spec fn is_bmp_text(t: Seq<char>) -> bool {
    forall|i: int| 0 <= i < t.len() ==> (#[trigger] t[i] as u32) < 0x10000
}

/// A Joliet name written as UTF-16 big-endian reads back as the text it
/// encodes, version suffix and trailing dot stripped: each unit is the
/// high byte times 256 plus the low byte.
pub proof fn lemma_joliet_reads_utf16be(t: Seq<char>)
    requires
        is_bmp_text(t),
    ensures
        spec_decode_identifier(utf16be_bytes(t), true) == RecordIdentifierView::Name(
            spec_strip_iso_version(t),
        ),
{
    let b = utf16be_bytes(t);
    let units = be_units(b);
    assert(b.len() == 2 * t.len());
    assert(b != seq![0u8] && b != seq![1u8]) by {
        if b == seq![0u8] || b == seq![1u8] {
            assert(b.len() == 1);
        }
    }
    assert(units.len() == t.len());
    assert forall|i: int| 0 <= i < units.len() implies #[trigger] units[i] == (t[i] as u32) as u16
        && !(0xD800 <= units[i] <= 0xDFFF) && ((units[i] as u32) as char) == t[i] by {
        let c = t[i] as u32;
        assert(c < 0x10000);
        assert((2 * i) % 2 == 0 && (2 * i) / 2 == i);
        assert((2 * i + 1) % 2 == 1 && (2 * i + 1) / 2 == i);
        let hi = b[2 * i];
        let lo = b[2 * i + 1];
        assert(hi == ((c / 256) as u8));
        assert(lo == ((c % 256) as u8));
        assert(((c / 256) as u8) as int == c / 256 && ((c % 256) as u8) as int == c % 256
            && (c / 256) * 256 + c % 256 == c) by (nonlinear_arith)
            requires
                c < 0x10000,
        ;
        assert(units[i] == (hi as int * 256 + lo as int) as u16);
        assert((c as u16) as u32 == c);
        vstd::utf8::char_is_scalar(t[i]);
        vstd::utf8::char_u32_cast(t[i], c);
    }
    lemma_utf16_without_surrogates(units);
    assert(units.map_values(|u: u16| (u as u32) as char) =~= t);
}

pub fn decode_identifier(bytes: &[u8], joliet: bool) -> (r: RecordIdentifier)
    ensures
        r@ == spec_decode_identifier(bytes@, joliet),
        is_plain_utf8_identifier(bytes@, joliet) ==> r@ == RecordIdentifierView::Name(
            spec_strip_iso_version(vstd::utf8::decode_utf8(bytes@)),
        ),
{
    if bytes.len() == 1 && bytes[0] == 0 {
        assert(bytes@ =~= seq![0u8]);
        return RecordIdentifier::Current;
    }
    if bytes.len() == 1 && bytes[0] == 1 {
        assert(bytes@ =~= seq![1u8]);
        return RecordIdentifier::Parent;
    }
    assert(bytes@ != seq![0u8] && bytes@ != seq![1u8]) by {
        if bytes@ == seq![0u8] || bytes@ == seq![1u8] {
            assert(bytes@.len() == 1);
        }
    }
    let decoded = if joliet && bytes.len() % 2 == 0 {
        let mut units: Vec<u16> = Vec::new();
        let mut k: usize = 0;
        while k < bytes.len() / 2
            invariant
                bytes.len() % 2 == 0,
                k <= bytes.len() / 2,
                units@ == be_units(bytes@).take(k as int),
            decreases bytes.len() / 2 - k,
        {
            let hi = bytes[2 * k];
            let lo = bytes[2 * k + 1];
            units.push((hi as u16) * 256 + (lo as u16));
            k = k + 1;
            assert(units@ =~= be_units(bytes@).take(k as int));
        }
        assert(be_units(bytes@).take(k as int) =~= be_units(bytes@));
        let chars = decode_utf16_lossy(&units);
        string_from_chars(&chars)
    } else {
        decode_utf8_lossy(bytes)
    };
    RecordIdentifier::Name(strip_iso_version(decoded))
}

// ---------------------------------------------------------------------------
// Directory records
// ---------------------------------------------------------------------------

/// The little-endian 32-bit value at `offset`.
pub open spec fn spec_u32_le(b: Seq<u8>, offset: int) -> u32 {
    (b[offset] as int + b[offset + 1] as int * 0x100 + b[offset + 2] as int * 0x10000 + b[offset
        + 3] as int * 0x1000000) as u32
}

pub open spec fn spec_read_u32_le(b: Seq<u8>, offset: int) -> Result<u32, Seq<char>> {
    if offset + 4 <= b.len() {
        Ok(spec_u32_le(b, offset))
    } else {
        Err("directory record is missing a u32 field"@)
    }
}

pub fn read_u32_le(record: &[u8], offset: usize) -> (r: AppResult<u32>)
    requires
        offset <= usize::MAX - 4,
    ensures
        match (r, spec_read_u32_le(record@, offset as int)) {
            (Ok(v), Ok(w)) => v == w,
            (Err(e), Err(m)) => is_iso_error(e, m),
            _ => false,
        },
{
    if offset + 4 > record.len() {
        return Err(AppError::iso("directory record is missing a u32 field".to_owned()));
    }
    let v: u32 = record[offset] as u32 + (record[offset + 1] as u32) * 0x100 + (record[offset
        + 2] as u32) * 0x10000 + (record[offset + 3] as u32) * 0x1000000;
    Ok(v)
}

/// The kind that a record's flag byte gives.
pub open spec fn kind_of_flags(flags: u8) -> IsoEntryKind {
    if flags & 0x02 != 0 {
        IsoEntryKind::Directory
    } else if flags & 0x01 != 0 {
        IsoEntryKind::Other
    } else {
        IsoEntryKind::File
    }
}

/// One directory record: at least 34 bytes, the identifier's length at
/// byte 32 and the identifier from byte 33, extent at byte 2, size at byte 10,
/// flags at byte 25.
pub open spec fn spec_parse_directory_record(record: Seq<u8>, joliet: bool) -> Result<
    ParsedRecordView,
    Seq<char>,
> {
    if record.len() < 34 {
        Err("directory record is too short"@)
    } else if 33 + record[32] as int > record.len() {
        Err("directory identifier extends past record"@)
    } else {
        Ok(
            ParsedRecordView {
                identifier: spec_decode_identifier(
                    record.subrange(33, 33 + record[32] as int),
                    joliet,
                ),
                extent: spec_u32_le(record, 2),
                size: spec_u32_le(record, 10),
                kind: kind_of_flags(record[25]),
            },
        )
    }
}

pub fn parse_directory_record(record: &[u8], joliet: bool) -> (r: AppResult<ParsedRecord>)
    ensures
        match (r, spec_parse_directory_record(record@, joliet)) {
            (Ok(v), Ok(w)) => v@ == w,
            (Err(e), Err(m)) => is_iso_error(e, m),
            _ => false,
        },
        r matches Ok(v) ==> (is_plain_utf8_identifier(
            record@.subrange(33, 33 + record@[32] as int),
            joliet,
        ) ==> v.identifier@ == RecordIdentifierView::Name(
            spec_strip_iso_version(
                vstd::utf8::decode_utf8(record@.subrange(33, 33 + record@[32] as int)),
            ),
        )),
{
    if record.len() < 34 {
        return Err(AppError::iso("directory record is too short".to_owned()));
    }
    let identifier_len = record[32] as usize;
    let identifier_start: usize = 33;
    let identifier_end = identifier_start + identifier_len;
    if identifier_end > record.len() {
        return Err(AppError::iso("directory identifier extends past record".to_owned()));
    }
    let flags = record[25];
    let kind = if flags & 0x02 != 0 {
        IsoEntryKind::Directory
    } else if flags & 0x01 != 0 {
        IsoEntryKind::Other
    } else {
        IsoEntryKind::File
    };
    let identifier = decode_identifier(&record[identifier_start..identifier_end], joliet);
    let extent = read_u32_le(record, 2)?;
    let size = read_u32_le(record, 10)?;
    Ok(ParsedRecord { identifier, extent, size, kind })
}

/// The start of the sector after the one that holds `offset`.
pub open spec fn spec_next_sector_boundary(offset: int) -> int {
    (offset / 2048 + 1) * 2048
}

pub proof fn lemma_next_sector_boundary(offset: int)
    requires
        0 <= offset,
    ensures
        offset < spec_next_sector_boundary(offset) <= offset + 2048,
        spec_next_sector_boundary(offset) % 2048 == 0,
{
    assert(offset < (offset / 2048 + 1) * 2048 <= offset + 2048) by (nonlinear_arith)
        requires
            0 <= offset,
    ;
    assert(((offset / 2048 + 1) * 2048) % 2048 == 0) by (nonlinear_arith);
}

pub fn next_sector_boundary(offset: usize) -> (r: usize)
    requires
        offset <= usize::MAX - SECTOR_SIZE,
    ensures
        r == spec_next_sector_boundary(offset as int),
        offset < r <= offset + SECTOR_SIZE,
{
    proof {
        lemma_next_sector_boundary(offset as int);
    }
    ((offset / SECTOR_SIZE) + 1) * SECTOR_SIZE
}

/// The records of a directory from `offset` on. A zero length byte pads the
/// rest of its sector.
pub open spec fn spec_records_from(data: Seq<u8>, offset: int, joliet: bool) -> Result<
    Seq<ParsedRecordView>,
    Seq<char>,
>
    decreases (if offset < data.len() {
        data.len() - offset
    } else {
        0
    }),
    when 0 <= offset
{
    if offset >= data.len() {
        Ok(Seq::empty())
    } else if data[offset] == 0 {
        proof {
            lemma_next_sector_boundary(offset);
        }
        spec_records_from(data, spec_next_sector_boundary(offset), joliet)
    } else if offset + data[offset] as int > data.len() {
        Err("directory record extends past directory data"@)
    } else {
        match spec_parse_directory_record(
            data.subrange(offset, offset + data[offset] as int),
            joliet,
        ) {
            Err(m) => Err(m),
            Ok(r) => match spec_records_from(data, offset + data[offset] as int, joliet) {
                Ok(rs) => Ok(seq![r] + rs),
                Err(m) => Err(m),
            },
        }
    }
}

pub open spec fn spec_parse_directory_records(data: Seq<u8>, joliet: bool) -> Result<
    Seq<ParsedRecordView>,
    Seq<char>,
> {
    spec_records_from(data, 0, joliet)
}

/// `prefix` put in front of the records of a successful parse.
pub open spec fn prepend_records(
    prefix: Seq<ParsedRecordView>,
    r: Result<Seq<ParsedRecordView>, Seq<char>>,
) -> Result<Seq<ParsedRecordView>, Seq<char>> {
    match r {
        Ok(rs) => Ok(prefix + rs),
        Err(m) => Err(m),
    }
}

/// The bytes from `offset` to the next sector boundary: `2048 - offset % 2048`.
pub proof fn lemma_sector_step(offset: int)
    requires
        0 <= offset,
    ensures
        offset + (2048 - offset % 2048) == spec_next_sector_boundary(offset),
        1 <= 2048 - offset % 2048 <= 2048,
{
    assert(offset == (offset / 2048) * 2048 + offset % 2048) by (nonlinear_arith)
        requires
            0 <= offset,
    ;
    assert(0 <= offset % 2048 < 2048) by (nonlinear_arith);
    assert((offset / 2048 + 1) * 2048 == (offset / 2048) * 2048 + 2048) by (nonlinear_arith);
}

pub fn parse_directory_records(data: &[u8], joliet: bool) -> (r: AppResult<Vec<ParsedRecord>>)
    ensures
        match (r, spec_parse_directory_records(data@, joliet)) {
            (Ok(v), Ok(w)) => records_view(v@) == w,
            (Err(e), Err(m)) => is_iso_error(e, m),
            _ => false,
        },
{
    let mut records: Vec<ParsedRecord> = Vec::new();
    let mut offset: usize = 0;
    assert(prepend_records(records_view(records@), spec_records_from(data@, 0, joliet))
        =~= spec_records_from(data@, 0, joliet)) by {
        assert(records_view(records@) =~= Seq::<ParsedRecordView>::empty());
        match spec_records_from(data@, 0, joliet) {
            Ok(rs) => assert(Seq::<ParsedRecordView>::empty() + rs =~= rs),
            Err(_) => {},
        }
    }
    while offset < data.len()
        invariant
            offset <= data.len(),
            spec_parse_directory_records(data@, joliet) == prepend_records(
                records_view(records@),
                spec_records_from(data@, offset as int, joliet),
            ),
        decreases data.len() - offset,
    {
        let length = data[offset] as usize;
        if length == 0 {
            // Skip to the next sector; past the end of the data, stop there.
            let step = SECTOR_SIZE - offset % SECTOR_SIZE;
            proof {
                lemma_sector_step(offset as int);
            }
            let ghost next = spec_next_sector_boundary(offset as int);
            assert(spec_records_from(data@, offset as int, joliet) == spec_records_from(
                data@,
                next,
                joliet,
            ));
            if step >= data.len() - offset {
                assert(spec_records_from(data@, next, joliet) == spec_records_from(
                    data@,
                    data.len() as int,
                    joliet,
                ));
                offset = data.len();
            } else {
                offset = offset + step;
            }
            continue;
        }
        if length > data.len() - offset {
            return Err(AppError::iso("directory record extends past directory data".to_owned()));
        }
        let end = offset + length;
        let record = parse_directory_record(&data[offset..end], joliet)?;
        let ghost before = records_view(records@);
        records.push(record);
        proof {
            assert(records_view(records@) =~= before.push(record@));
            match spec_records_from(data@, end as int, joliet) {
                Ok(rs) => {
                    assert(before + (seq![record@] + rs) =~= before.push(record@) + rs);
                },
                Err(_) => {},
            }
        }
        offset = end;
    }
    proof {
        assert(records_view(records@) + Seq::<ParsedRecordView>::empty() =~= records_view(
            records@,
        ));
    }
    Ok(records)
}

/// The root directory recorded in a volume descriptor at byte 156.
pub open spec fn spec_parse_root_directory(descriptor: Seq<u8>, joliet: bool) -> Result<
    DirectoryRef,
    Seq<char>,
> {
    match spec_parse_directory_record(descriptor.skip(156), joliet) {
        Ok(r) => Ok(DirectoryRef { extent: r.extent, size: r.size }),
        Err(m) => Err(m),
    }
}

pub fn parse_root_directory(descriptor: &[u8], joliet: bool) -> (r: AppResult<DirectoryRef>)
    requires
        descriptor.len() >= 156,
    ensures
        match (r, spec_parse_root_directory(descriptor@, joliet)) {
            (Ok(v), Ok(w)) => v == w,
            (Err(e), Err(m)) => is_iso_error(e, m),
            _ => false,
        },
{
    let record = parse_directory_record(&descriptor[156..descriptor.len()], joliet)?;
    assert(descriptor@.subrange(156, descriptor@.len() as int) =~= descriptor@.skip(156));
    Ok(DirectoryRef { extent: record.extent, size: record.size })
}

/// A supplementary descriptor is Joliet when bytes 88..91 hold one of the
/// escape sequences `%/@`, `%/C`, `%/E`.
pub open spec fn spec_is_joliet_descriptor(d: Seq<u8>) -> bool {
    d[88] == 0x25 && d[89] == 0x2f && (d[90] == 0x40 || d[90] == 0x43 || d[90] == 0x45)
}

pub fn is_joliet_descriptor(descriptor: &[u8]) -> (r: bool)
    requires
        descriptor.len() >= 91,
    ensures
        r == spec_is_joliet_descriptor(descriptor@),
{
    descriptor[88] == 0x25 && descriptor[89] == 0x2f && (descriptor[90] == 0x40 || descriptor[90]
        == 0x43 || descriptor[90] == 0x45)
}

// ---------------------------------------------------------------------------
// Opening an image: the volume descriptors
// ---------------------------------------------------------------------------

/// What the library knows of an opened image: its root directory and whether
/// its names are read as Joliet (UTF-16).
#[derive(Debug, Clone, Copy, PartialEq, Eq, Structural)]
pub struct IsoVolume {
    pub root: DirectoryRef,
    pub joliet: bool,
}

/// Progress through the volume descriptors, which start at sector 16.
pub struct VolumeScan {
    pub index: u64,
    pub primary_root: Option<DirectoryRef>,
    pub joliet_root: Option<DirectoryRef>,
    pub ended: bool,
}

/// A descriptor carries the standard identifier `CD001` at bytes 1..6.
pub open spec fn has_standard_identifier(d: Seq<u8>) -> bool {
    d[1] == 0x43 && d[2] == 0x44 && d[3] == 0x30 && d[4] == 0x30 && d[5] == 0x31
}

/// The byte offset of descriptor `index`.
pub open spec fn spec_descriptor_offset(index: u64) -> int {
    (VOLUME_DESCRIPTOR_START + index) * SECTOR_SIZE
}

/// The scan after one more descriptor: a primary descriptor (type 1) gives
/// the root, a Joliet supplementary descriptor (type 2) gives the Joliet root,
/// the terminator (type 255) ends the scan. A first sector without `CD001`
/// is an error; a later one is skipped.
pub open spec fn spec_scan_step(
    index: u64,
    primary_root: Option<DirectoryRef>,
    joliet_root: Option<DirectoryRef>,
    d: Seq<u8>,
) -> Result<(u64, Option<DirectoryRef>, Option<DirectoryRef>, bool), Seq<char>> {
    if !has_standard_identifier(d) {
        if index == 0 {
            Err("not an ISO 9660 image: missing CD001 descriptor"@)
        } else {
            Ok(((index + 1) as u64, primary_root, joliet_root, false))
        }
    } else if d[0] == 1 {
        match spec_parse_root_directory(d, false) {
            Ok(root) => Ok(((index + 1) as u64, Some(root), joliet_root, false)),
            Err(m) => Err(m),
        }
    } else if d[0] == 2 && spec_is_joliet_descriptor(d) {
        match spec_parse_root_directory(d, true) {
            Ok(root) => Ok(((index + 1) as u64, primary_root, Some(root), false)),
            Err(m) => Err(m),
        }
    } else if d[0] == 255 {
        Ok((index, primary_root, joliet_root, true))
    } else {
        Ok(((index + 1) as u64, primary_root, joliet_root, false))
    }
}

/// The volume that a finished scan gives: Joliet names when a Joliet
/// descriptor was seen, else the primary descriptor's.
pub open spec fn spec_scan_result(
    primary_root: Option<DirectoryRef>,
    joliet_root: Option<DirectoryRef>,
) -> Result<IsoVolume, Seq<char>> {
    match joliet_root {
        Some(root) => Ok(IsoVolume { root, joliet: true }),
        None => match primary_root {
            Some(root) => Ok(IsoVolume { root, joliet: false }),
            None => Err("ISO has no primary volume descriptor"@),
        },
    }
}

impl VolumeScan {
    pub fn new() -> (s: VolumeScan)
        ensures
            s.index == 0,
            s.primary_root is None,
            s.joliet_root is None,
            !s.ended,
    {
        VolumeScan { index: 0, primary_root: None, joliet_root: None, ended: false }
    }

    /// Where the next descriptor to read starts, or `None` once the scan is over.
    pub fn next_descriptor_offset(&self) -> (r: Option<u64>)
        ensures
            r == (if !self.ended && self.index < MAX_VOLUME_DESCRIPTORS {
                Some(spec_descriptor_offset(self.index) as u64)
            } else {
                None::<u64>
            }),
    {
        if !self.ended && self.index < MAX_VOLUME_DESCRIPTORS {
            let sector: u64 = VOLUME_DESCRIPTOR_START + self.index;
            assert(sector < 272);
            Some(sector * 2048)
        } else {
            None
        }
    }

    /// Takes in the descriptor read at `next_descriptor_offset`.
    pub fn feed(&mut self, descriptor: &[u8]) -> (r: AppResult<()>)
        requires
            descriptor.len() == SECTOR_SIZE,
            !old(self).ended,
            old(self).index < MAX_VOLUME_DESCRIPTORS,
        ensures
            match spec_scan_step(
                old(self).index,
                old(self).primary_root,
                old(self).joliet_root,
                descriptor@,
            ) {
                Ok((i, p, j, e)) => r is Ok && final(self).index == i && final(self).primary_root
                    == p && final(self).joliet_root == j && final(self).ended == e,
                Err(m) => r matches Err(err) && is_iso_error(err, m),
            },
    {
        if !(descriptor[1] == 0x43 && descriptor[2] == 0x44 && descriptor[3] == 0x30
            && descriptor[4] == 0x30 && descriptor[5] == 0x31) {
            if self.index == 0 {
                return Err(
                    AppError::iso("not an ISO 9660 image: missing CD001 descriptor".to_owned()),
                );
            }
            self.index = self.index + 1;
            return Ok(());
        }
        if descriptor[0] == 1 {
            let root = parse_root_directory(descriptor, false)?;
            self.primary_root = Some(root);
            self.index = self.index + 1;
        } else if descriptor[0] == 2 && is_joliet_descriptor(descriptor) {
            let root = parse_root_directory(descriptor, true)?;
            self.joliet_root = Some(root);
            self.index = self.index + 1;
        } else if descriptor[0] == 255 {
            self.ended = true;
        } else {
            self.index = self.index + 1;
        }
        Ok(())
    }

    /// The volume the scan found.
    pub fn finish(&self) -> (r: AppResult<IsoVolume>)
        ensures
            match (r, spec_scan_result(self.primary_root, self.joliet_root)) {
                (Ok(v), Ok(w)) => v == w,
                (Err(e), Err(m)) => is_iso_error(e, m),
                _ => false,
            },
    {
        if let Some(root) = self.joliet_root {
            Ok(IsoVolume { root, joliet: true })
        } else if let Some(root) = self.primary_root {
            Ok(IsoVolume { root, joliet: false })
        } else {
            Err(AppError::iso("ISO has no primary volume descriptor".to_owned()))
        }
    }
}

// ---------------------------------------------------------------------------
// Listing the entries: the directory walk
// ---------------------------------------------------------------------------

/// The key under which a directory counts as visited.
pub open spec fn directory_key(d: DirectoryRef) -> u64 {
    (d.extent as int * 0x1_0000_0000 + d.size as int) as u64
}

pub proof fn lemma_directory_key_injective(a: DirectoryRef, b: DirectoryRef)
    ensures
        directory_key(a) == directory_key(b) ==> a == b,
{
    assert(a.extent as int * 0x1_0000_0000 + a.size as int <= u64::MAX);
    assert(b.extent as int * 0x1_0000_0000 + b.size as int <= u64::MAX);
}

pub type PendingDirectory = (Vec<String>, DirectoryRef);

pub open spec fn pending_view(p: PendingDirectory) -> (Seq<Seq<char>>, DirectoryRef) {
    (strings_view(p.0@), p.1)
}

pub open spec fn stack_view(s: Seq<PendingDirectory>) -> Seq<(Seq<Seq<char>>, DirectoryRef)> {
    s.map_values(|p: PendingDirectory| pending_view(p))
}

pub open spec fn entries_view(s: Seq<IsoEntry>) -> Seq<IsoEntryView> {
    s.map_values(|e: IsoEntry| e@)
}

/// Depth-first walk over the directory tree, each directory read once.
pub struct DirectoryWalk {
    pub joliet: bool,
    pub stack: Vec<PendingDirectory>,
    pub visited: HashSet<u64>,
    pub current: Vec<String>,
    pub entries: Vec<IsoEntry>,
}

/// What the walk does next.
pub enum WalkStep {
    /// Every directory has been read.
    Done,
    /// Too many directories.
    LimitExceeded,
    /// Read `dir`, whose entries' paths start with `prefix`.
    Visit {
        stack: Seq<(Seq<Seq<char>>, DirectoryRef)>,
        visited: Set<u64>,
        prefix: Seq<Seq<char>>,
        dir: DirectoryRef,
    },
}

/// Pops pending directories until one not yet visited is found.
pub open spec fn spec_next_directory(
    stack: Seq<(Seq<Seq<char>>, DirectoryRef)>,
    visited: Set<u64>,
) -> WalkStep
    decreases stack.len(),
{
    if stack.len() == 0 {
        WalkStep::Done
    } else if visited.contains(directory_key(stack.last().1)) {
        spec_next_directory(stack.drop_last(), visited)
    } else if visited.len() + 1 > MAX_DIRECTORIES {
        WalkStep::LimitExceeded
    } else {
        WalkStep::Visit {
            stack: stack.drop_last(),
            visited: visited.insert(directory_key(stack.last().1)),
            prefix: stack.last().0,
            dir: stack.last().1,
        }
    }
}

/// The entries and pending subdirectories that the records of a directory
/// under `prefix` add; `.` and `..` add nothing.
pub open spec fn spec_walk_records(prefix: Seq<Seq<char>>, recs: Seq<ParsedRecordView>) -> (
    Seq<IsoEntryView>,
    Seq<(Seq<Seq<char>>, DirectoryRef)>,
)
    decreases recs.len(),
{
    if recs.len() == 0 {
        (Seq::empty(), Seq::empty())
    } else {
        let (es, ds) = spec_walk_records(prefix, recs.drop_last());
        let r = recs.last();
        match r.identifier {
            RecordIdentifierView::Name(name) => {
                let parts = prefix.push(name);
                let e = IsoEntryView {
                    path: join(parts, "/"@),
                    size: r.size as u64,
                    kind: r.kind,
                    extent: r.extent,
                };
                (
                    es.push(e),
                    if r.kind == IsoEntryKind::Directory {
                        ds.push((parts, DirectoryRef { extent: r.extent, size: r.size }))
                    } else {
                        ds
                    },
                )
            },
            _ => (es, ds),
        }
    }
}

/// The entries that the records of a directory under `prefix` add.
pub open spec fn walk_entries(prefix: Seq<Seq<char>>, recs: Seq<ParsedRecordView>) -> Seq<
    IsoEntryView,
> {
    spec_walk_records(prefix, recs).0
}

/// The subdirectories, with their prefixes, that the records of a directory
/// under `prefix` queue.
pub open spec fn walk_queued(prefix: Seq<Seq<char>>, recs: Seq<ParsedRecordView>) -> Seq<
    (Seq<Seq<char>>, DirectoryRef),
> {
    spec_walk_records(prefix, recs).1
}

/// `q` is a subdirectory named by one of `recs`, queued with `prefix`
/// followed by that name.
pub open spec fn queued_from_record(
    prefix: Seq<Seq<char>>,
    recs: Seq<ParsedRecordView>,
    q: (Seq<Seq<char>>, DirectoryRef),
) -> bool {
    exists|i: int|
        0 <= i < recs.len() && is_named_record(#[trigger] recs[i]) && recs[i].kind is Directory
            && q.0 == prefix.push(record_name(recs[i])) && q.1 == (DirectoryRef {
            extent: recs[i].extent,
            size: recs[i].size,
        })
}

/// Some directory entry has the names `parts` joined by `/` as its path.
pub open spec fn has_directory_entry(es: Seq<IsoEntryView>, parts: Seq<Seq<char>>) -> bool {
    exists|k: int|
        0 <= k < es.len() && (#[trigger] es[k]).path == join(parts, "/"@) && es[k].kind
            is Directory
}

/// Whether a record names a file or directory (is not `.` or `..`).
pub open spec fn is_named_record(r: ParsedRecordView) -> bool {
    r.identifier is Name
}

/// The name of a record that names something.
pub open spec fn record_name(r: ParsedRecordView) -> Seq<char> {
    match r.identifier {
        RecordIdentifierView::Name(n) => n,
        _ => Seq::empty(),
    }
}

/// The records of a directory reached by the names `prefix` give entries
/// whose paths are `prefix`, then the record's name, joined by `/`.
pub proof fn lemma_walk_entry_paths(prefix: Seq<Seq<char>>, recs: Seq<ParsedRecordView>)
    ensures
        forall|k: int|
            0 <= k < spec_walk_records(prefix, recs).0.len() ==> exists|i: int|
                0 <= i < recs.len() && is_named_record(#[trigger] recs[i])
                    && (#[trigger] spec_walk_records(prefix, recs).0[k]).path == join(
                    prefix.push(record_name(recs[i])),
                    "/"@,
                ) && spec_walk_records(prefix, recs).0[k].kind == recs[i].kind
                    && spec_walk_records(prefix, recs).0[k].extent == recs[i].extent,
    decreases recs.len(),
{
    if recs.len() > 0 {
        let rest = recs.drop_last();
        lemma_walk_entry_paths(prefix, rest);
        let es0 = spec_walk_records(prefix, rest).0;
        let es = spec_walk_records(prefix, recs).0;
        let n = recs.len() - 1;
        assert forall|k: int| 0 <= k < es.len() implies exists|i: int|
            0 <= i < recs.len() && is_named_record(#[trigger] recs[i]) && (#[trigger] es[k]).path
                == join(prefix.push(record_name(recs[i])), "/"@) && es[k].kind == recs[i].kind
                && es[k].extent == recs[i].extent by {
            if k < es0.len() {
                assert(es[k] == es0[k]);
                let i = choose|i: int|
                    0 <= i < rest.len() && is_named_record(#[trigger] rest[i]) && es0[k].path
                        == join(prefix.push(record_name(rest[i])), "/"@) && es0[k].kind
                        == rest[i].kind && es0[k].extent == rest[i].extent;
                assert(rest[i] == recs[i]);
            } else {
                assert(is_named_record(recs[n]));
            }
        }
    }
}

/// Every subdirectory found in the records of a directory reached by the
/// names `prefix` is queued with `prefix` followed by its own name, so its
/// own entries get its full path in turn.
pub proof fn lemma_walk_queues_full_prefix(prefix: Seq<Seq<char>>, recs: Seq<ParsedRecordView>)
    ensures
        forall|j: int|
            0 <= j < walk_queued(prefix, recs).len() ==> #[trigger] queued_from_record(
                prefix,
                recs,
                walk_queued(prefix, recs)[j],
            ),
    decreases recs.len(),
{
    if recs.len() > 0 {
        let rest = recs.drop_last();
        lemma_walk_queues_full_prefix(prefix, rest);
        let ds0 = walk_queued(prefix, rest);
        let ds = walk_queued(prefix, recs);
        let n = recs.len() - 1;
        assert forall|j: int| 0 <= j < ds.len() implies #[trigger] queued_from_record(
            prefix,
            recs,
            ds[j],
        ) by {
            if j < ds0.len() {
                assert(ds[j] == ds0[j]);
                assert(queued_from_record(prefix, rest, ds0[j]));
                let i = choose|i: int|
                    0 <= i < rest.len() && is_named_record(#[trigger] rest[i]) && rest[i].kind
                        is Directory && ds0[j].0 == prefix.push(record_name(rest[i])) && ds0[j].1
                        == (DirectoryRef { extent: rest[i].extent, size: rest[i].size });
                assert(rest[i] == recs[i]);
                assert(is_named_record(recs[i]));
            } else {
                assert(is_named_record(recs[n]));
                assert(ds[j].0 == prefix.push(record_name(recs[n])));
            }
        }
    }
}

/// The prefix with which a subdirectory is queued, joined by `/`, is the path
/// of the subdirectory's own entry.
pub proof fn lemma_walk_queued_prefix_is_entry_path(
    prefix: Seq<Seq<char>>,
    recs: Seq<ParsedRecordView>,
)
    ensures
        forall|j: int|
            0 <= j < walk_queued(prefix, recs).len() ==> #[trigger] has_directory_entry(
                walk_entries(prefix, recs),
                walk_queued(prefix, recs)[j].0,
            ),
    decreases recs.len(),
{
    if recs.len() > 0 {
        let rest = recs.drop_last();
        lemma_walk_queued_prefix_is_entry_path(prefix, rest);
        let es0 = walk_entries(prefix, rest);
        let ds0 = walk_queued(prefix, rest);
        let es = walk_entries(prefix, recs);
        let ds = walk_queued(prefix, recs);
        assert forall|j: int| 0 <= j < ds.len() implies #[trigger] has_directory_entry(
            es,
            ds[j].0,
        ) by {
            if j < ds0.len() {
                assert(ds[j] == ds0[j]);
                assert(has_directory_entry(es0, ds0[j].0));
                let k = choose|k: int|
                    0 <= k < es0.len() && (#[trigger] es0[k]).path == join(ds0[j].0, "/"@)
                        && es0[k].kind is Directory;
                assert(es[k] == es0[k]);
            } else {
                assert(es[es.len() - 1].path == join(ds[j].0, "/"@));
            }
        }
    }
}

/// The walk reads a directory only when it has not been read before, and
/// then remembers it; it reads at most `MAX_DIRECTORIES` directories in all.
pub proof fn lemma_walk_reads_each_directory_once(
    stack: Seq<(Seq<Seq<char>>, DirectoryRef)>,
    visited: Set<u64>,
)
    ensures
        spec_next_directory(stack, visited) matches WalkStep::Visit { stack: rest, visited: now, dir, .. } ==> {
            &&& !visited.contains(directory_key(dir))
            &&& now == visited.insert(directory_key(dir))
            &&& rest.len() < stack.len()
            &&& visited.finite() ==> now.len() == visited.len() + 1 && now.len() <= MAX_DIRECTORIES
        },
    decreases stack.len(),
{
    if stack.len() > 0 && visited.contains(directory_key(stack.last().1)) {
        lemma_walk_reads_each_directory_once(stack.drop_last(), visited);
    }
}

impl DirectoryWalk {
    pub open spec fn well_formed(&self) -> bool {
        self.visited@.finite()
    }

    pub fn new(volume: IsoVolume) -> (w: DirectoryWalk)
        ensures
            w.well_formed(),
            w.joliet == volume.joliet,
            stack_view(w.stack@) == seq![(Seq::<Seq<char>>::empty(), volume.root)],
            w.visited@ == Set::<u64>::empty(),
            w.entries@.len() == 0,
            w.current@.len() == 0,
    {
        let mut stack: Vec<PendingDirectory> = Vec::new();
        stack.push((Vec::new(), volume.root));
        let w = DirectoryWalk {
            joliet: volume.joliet,
            stack,
            visited: HashSet::new(),
            current: Vec::new(),
            entries: Vec::new(),
        };
        assert(strings_view(w.stack@[0].0@) =~= Seq::<Seq<char>>::empty());
        assert(stack_view(w.stack@) =~= seq![(Seq::<Seq<char>>::empty(), volume.root)]);
        w
    }

    /// The next directory to read, `None` when the walk is over.
    pub fn next_directory(&mut self) -> (r: AppResult<Option<DirectoryRef>>)
        requires
            old(self).well_formed(),
        ensures
            final(self).well_formed(),
            final(self).joliet == old(self).joliet,
            final(self).entries@ == old(self).entries@,
            match spec_next_directory(stack_view(old(self).stack@), old(self).visited@) {
                WalkStep::Done => r == Ok::<Option<DirectoryRef>, AppError>(None),
                WalkStep::LimitExceeded => r matches Err(e) && is_iso_error(
                    e,
                    "ISO directory limit exceeded"@,
                ),
                WalkStep::Visit { stack, visited, prefix, dir } => r == Ok::<
                    Option<DirectoryRef>,
                    AppError,
                >(Some(dir)) && stack_view(final(self).stack@) == stack && final(self).visited@
                    == visited && strings_view(final(self).current@) == prefix,
            },
            r matches Ok(Some(dir)) ==> !old(self).visited@.contains(directory_key(dir))
                && final(self).visited@.len() == old(self).visited@.len() + 1
                && final(self).visited@.len() <= MAX_DIRECTORIES,
    {
        broadcast use vstd::std_specs::hash::group_hash_axioms;

        proof {
            lemma_walk_reads_each_directory_once(stack_view(self.stack@), self.visited@);
        }

        loop
            invariant
                self.well_formed(),
                self.joliet == old(self).joliet,
                self.entries@ == old(self).entries@,
                spec_next_directory(stack_view(old(self).stack@), old(self).visited@)
                    == spec_next_directory(stack_view(self.stack@), self.visited@),
                old(self).visited@.finite(),
                spec_next_directory(stack_view(old(self).stack@), old(self).visited@) matches WalkStep::Visit { visited: now, dir, .. } ==> {
                    &&& !old(self).visited@.contains(directory_key(dir))
                    &&& now.len() == old(self).visited@.len() + 1
                    &&& now.len() <= MAX_DIRECTORIES
                },
            decreases self.stack@.len(),
        {
            let ghost before = stack_view(self.stack@);
            match self.stack.pop() {
                None => {
                    return Ok(None);
                },
                Some((prefix, dir)) => {
                    assert(stack_view(self.stack@) =~= before.drop_last());
                    let key: u64 = (dir.extent as u64) * 0x1_0000_0000 + (dir.size as u64);
                    assert(key == directory_key(dir));
                    let ghost visited0 = self.visited@;
                    if !self.visited.insert(key) {
                        assert(self.visited@ =~= visited0);
                        continue;
                    }
                    if self.visited.len() > MAX_DIRECTORIES {
                        return Err(AppError::iso("ISO directory limit exceeded".to_owned()));
                    }
                    self.current = prefix;
                    return Ok(Some(dir));
                },
            }
        }
    }

    /// Takes in the bytes of the directory last returned by `next_directory`.
    pub fn accept(&mut self, data: &[u8]) -> (r: AppResult<()>)
        requires
            old(self).well_formed(),
        ensures
            final(self).well_formed(),
            final(self).joliet == old(self).joliet,
            final(self).visited@ == old(self).visited@,
            match spec_parse_directory_records(data@, old(self).joliet) {
                Ok(recs) => r is Ok && entries_view(final(self).entries@) == entries_view(
                    old(self).entries@,
                ) + spec_walk_records(strings_view(old(self).current@), recs).0 && stack_view(
                    final(self).stack@,
                ) == stack_view(old(self).stack@) + spec_walk_records(
                    strings_view(old(self).current@),
                    recs,
                ).1,
                Err(m) => r matches Err(e) && is_iso_error(e, m),
            },
    {
        let records = parse_directory_records(data, self.joliet)?;
        let ghost recs = records_view(records@);
        let ghost prefix = strings_view(self.current@);
        let ghost entries0 = entries_view(self.entries@);
        let ghost stack0 = stack_view(self.stack@);
        let mut i: usize = 0;
        while i < records.len()
            invariant
                self.well_formed(),
                self.joliet == old(self).joliet,
                self.visited@ == old(self).visited@,
                i <= records.len(),
                recs == records_view(records@),
                prefix == strings_view(self.current@),
                entries_view(self.entries@) == entries0 + spec_walk_records(
                    prefix,
                    recs.take(i as int),
                ).0,
                stack_view(self.stack@) == stack0 + spec_walk_records(
                    prefix,
                    recs.take(i as int),
                ).1,
            decreases records.len() - i,
        {
            let record = &records[i];
            let ghost es0 = entries_view(self.entries@);
            let ghost st0 = stack_view(self.stack@);
            assert(recs.take(i + 1).drop_last() =~= recs.take(i as int));
            assert(recs.take(i + 1).last() == record@);
            if let RecordIdentifier::Name(name) = &record.identifier {
                let mut path_parts = clone_strings(&self.current);
                path_parts.push(name.clone());
                assert(strings_view(path_parts@) =~= prefix.push(name@));
                let path = join_strings(&path_parts, "/");
                self.entries.push(
                    IsoEntry {
                        path,
                        size: record.size as u64,
                        kind: record.kind,
                        extent: record.extent,
                    },
                );
                assert(entries_view(self.entries@) =~= es0.push(self.entries@.last()@));
                if record.kind == IsoEntryKind::Directory {
                    self.stack.push((path_parts, DirectoryRef { extent: record.extent, size: record.size }));
                    assert(stack_view(self.stack@) =~= st0.push(pending_view(self.stack@.last())));
                }
            }
            i = i + 1;
        }
        assert(recs.take(records.len() as int) =~= recs);
        Ok(())
    }

    /// Every entry found so far.
    pub fn into_entries(self) -> (r: Vec<IsoEntry>)
        ensures
            r@ == self.entries@,
    {
        self.entries
    }
}

// ---------------------------------------------------------------------------
// Reading a file's bytes
// ---------------------------------------------------------------------------

/// Where a regular file's bytes lie: byte offset and length.
pub open spec fn spec_file_span(e: IsoEntryView) -> Result<(u64, u64), Seq<char>> {
    if e.kind != IsoEntryKind::File {
        Err(e.path + " is not a regular ISO file"@)
    } else {
        Ok(((e.extent as int * SECTOR_SIZE) as u64, e.size))
    }
}

/// The span that `IsoImage::read_file` reads for an entry.
pub fn file_span(entry: &IsoEntry) -> (r: AppResult<(u64, usize)>)
    ensures
        match (r, spec_file_span(entry@)) {
            (Ok((off, len)), Ok((o, l))) => off == o && len == l,
            (Err(e), Err(m)) => is_iso_error(e, m),
            (Err(e), Ok(_)) => entry.size > usize::MAX && is_iso_error(
                e,
                "ISO file is too large"@,
            ),
            _ => false,
        },
{
    if entry.kind != IsoEntryKind::File {
        let mut msg = str_chars(entry.path.as_str());
        crate::text::extend_str(&mut msg, " is not a regular ISO file");
        return Err(AppError::iso(string_from_chars(&msg)));
    }
    extent_span(entry.extent, entry.size)
}

/// Byte offset and length of `size` bytes from sector `extent` on.
pub fn extent_span(extent: u32, size: u64) -> (r: AppResult<(u64, usize)>)
    ensures
        size <= usize::MAX ==> r == Ok::<(u64, usize), AppError>(
            ((extent as int * SECTOR_SIZE) as u64, size as usize),
        ),
        size > usize::MAX ==> (r matches Err(e) && is_iso_error(e, "ISO file is too large"@)),
{
    let e: u64 = extent as u64;
    assert(e <= 0xffff_ffff);
    let offset: u64 = e * 2048;
    if size > usize::MAX as u64 {
        return Err(AppError::iso("ISO file is too large".to_owned()));
    }
    Ok((offset, size as usize))
}

} // verus!

//! ncurses-compatible compiled terminfo format parsing (term(5)).
//!
//! An entry is laid out as follows, every integer little-endian:
//!
//! | bytes                    | content                                          |
//! |--------------------------|--------------------------------------------------|
//! | 2                        | the magic number `0x011A`                        |
//! | 5 x 2                    | length of the names section, number of flags, number of numbers, number of string offsets, length of the string table |
//! | length of the names      | the names, each ended by a NUL                   |
//! | number of flags          | one byte per boolean capability                  |
//! | 0 or 1                   | padding to an even offset                        |
//! | 2 x number of numbers    | 16-bit numbers; -1 and -2 stand for "absent"     |
//! | 2 x number of offsets    | 16-bit offsets into the string table; -1 stands for "absent" |
//! | length of the table      | the string table, each string ended by a NUL     |
//!
//! Directly behind the string table an extended-numbers section may follow:
//! the marker `0x021E`, a 16-bit count, and that many 32-bit numbers. A number
//! there that is neither -1 nor -2 replaces the 16-bit number of the same
//! capability. Bytes behind the string table that do not begin with the marker
//! are ignored.

use crate::names::{BOOL_COUNT, NUMBER_COUNT, STRING_COUNT};
use crate::{string_views, Error, LoadError, TermInfo, TermInfoView, Utf8Failure};
use std::collections::HashMap;
use vstd::prelude::*;
use vstd::slice::{slice_subrange, slice_to_vec};
use vstd::utf8::{decode_utf8, valid_utf8};

verus! {

/// The magic number that every entry starts with.
pub const MAGIC: u16 = 0x011A;

/// The marker that an extended-numbers section starts with.
pub const EXTENDED_MAGIC: u16 = 0x021E;

/// Length of the magic number and the five header fields.
pub const HEADER_LEN: usize = 12;

/// The 16-bit little-endian integer at `at`.
pub open spec fn le16(b: Seq<u8>, at: int) -> int {
    b[at] as int + 256 * (b[at + 1] as int)
}

/// The 32-bit little-endian integer at `at`.
pub open spec fn le32(b: Seq<u8>, at: int) -> int {
    b[at] as int + 256 * (b[at + 1] as int) + 65536 * (b[at + 2] as int) + 16777216 * (b[at
        + 3] as int)
}

/// The count that a 16-bit field carries: itself when it is not negative as a
/// signed integer, zero when it is -1, none below that.
pub open spec fn field_count(raw: int) -> Option<int> {
    if 0 <= raw < 0x8000 {
        Some(raw)
    } else if raw == 0xFFFF {
        Some(0)
    } else {
        None
    }
}

/// The five counts of a header.
pub struct Header {
    pub names_len: int,
    pub bool_count: int,
    pub number_count: int,
    pub string_count: int,
    pub table_len: int,
}

impl Header {
    /// Offset of the first flag, which is the end of the names section.
    pub open spec fn bools_start(self) -> int {
        HEADER_LEN as int + self.names_len
    }

    /// Offset of the first number, at an even offset behind the flags.
    pub open spec fn numbers_start(self) -> int {
        self.bools_start() + self.bool_count + (self.names_len + self.bool_count) % 2
    }

    /// Offset of the first string offset.
    pub open spec fn offsets_start(self) -> int {
        self.numbers_start() + 2 * self.number_count
    }

    /// Offset of the string table.
    pub open spec fn table_start(self) -> int {
        self.offsets_start() + 2 * self.string_count
    }

    /// Offset of the first byte behind the string table.
    pub open spec fn end(self) -> int {
        self.table_start() + self.table_len
    }
}

/// Whether each of the five header fields is at least -1.
pub open spec fn header_valid(b: Seq<u8>) -> bool {
    &&& field_count(le16(b, 2)) is Some
    &&& field_count(le16(b, 4)) is Some
    &&& field_count(le16(b, 6)) is Some
    &&& field_count(le16(b, 8)) is Some
    &&& field_count(le16(b, 10)) is Some
}

/// The header of an entry of at least twelve bytes.
pub open spec fn header_of(b: Seq<u8>) -> Header {
    Header {
        names_len: field_count(le16(b, 2)).unwrap(),
        bool_count: field_count(le16(b, 4)).unwrap(),
        number_count: field_count(le16(b, 6)).unwrap(),
        string_count: field_count(le16(b, 8)).unwrap(),
        table_len: field_count(le16(b, 10)).unwrap(),
    }
}

/// Index of the first NUL of `s` at or behind `at`; the length of `s` when
/// there is none.
pub open spec fn nul_from(s: Seq<u8>, at: int) -> int
    decreases s.len() - at,
{
    if at < 0 || at >= s.len() {
        s.len() as int
    } else if s[at] == 0 {
        at
    } else {
        nul_from(s, at + 1)
    }
}

/// The pieces of `s` between its NUL bytes, in order: one more than `s` has
/// NUL bytes.
pub open spec fn segments(s: Seq<u8>) -> Seq<Seq<u8>>
    decreases s.len(),
{
    let k = nul_from(s, 0);
    if 0 <= k < s.len() {
        seq![s.subrange(0, k)] + segments(s.subrange(k + 1, s.len() as int))
    } else {
        seq![s]
    }
}

/// Each piece read as UTF-8.
pub open spec fn texts(pieces: Seq<Seq<u8>>) -> Seq<Seq<char>> {
    Seq::new(pieces.len(), |i: int| decode_utf8(pieces[i]))
}

/// The names section without the NUL that ends it.
pub open spec fn names_text(b: Seq<u8>) -> Seq<u8> {
    b.subrange(HEADER_LEN as int, header_of(b).bools_start() - 1)
}

/// Whether `n` is the length of the longest prefix of `s` that is valid UTF-8.
pub open spec fn is_valid_up_to(s: Seq<u8>, n: int) -> bool {
    &&& 0 <= n <= s.len()
    &&& valid_utf8(s.subrange(0, n))
    &&& forall|m: int| n < m <= s.len() ==> !valid_utf8(#[trigger] s.subrange(0, m))
}

/// What `Utf8Error::error_len` gives when `core::str::from_utf8` fails on
/// `bytes`: the length of the invalid sequence that starts where the valid
/// prefix ends, or none when the bytes end inside a sequence.
pub uninterp spec fn utf8_error_len(bytes: Seq<u8>) -> Option<usize>;

/// The length of the longest prefix of `s` that is valid UTF-8.
pub open spec fn valid_prefix_len(s: Seq<u8>) -> int {
    choose|n: int| is_valid_up_to(s, n)
}

/// Whether the flag of boolean capability `i` is set: its byte is 1.
pub open spec fn flag_set(b: Seq<u8>, i: int) -> bool {
    0 <= i < header_of(b).bool_count && b[header_of(b).bools_start() + i] == 1
}

/// The 16-bit number of capability `i`, unless it is -1 or -2.
pub open spec fn base_number(b: Seq<u8>, i: int) -> Option<u32> {
    let v = le16(b, header_of(b).numbers_start() + 2 * i);
    if 0 <= i < header_of(b).number_count && v != 0xFFFF && v != 0xFFFE {
        Some(v as u32)
    } else {
        None
    }
}

/// Whether the marker of an extended-numbers section follows the string table.
pub open spec fn extended_present(b: Seq<u8>) -> bool {
    b.len() >= header_of(b).end() + 2 && le16(b, header_of(b).end()) == EXTENDED_MAGIC
}

/// The count of the extended-numbers section.
pub open spec fn extended_count(b: Seq<u8>) -> int {
    field_count(le16(b, header_of(b).end() + 2)).unwrap()
}

/// The 32-bit number of capability `i`, unless there is none or it is -1 or -2.
pub open spec fn extended_number(b: Seq<u8>, i: int) -> Option<u32> {
    let v = le32(b, header_of(b).end() + 4 + 4 * i);
    if extended_present(b) && 0 <= i < extended_count(b) && v != 0xFFFF_FFFF && v != 0xFFFF_FFFE {
        Some(v as u32)
    } else {
        None
    }
}

/// The value of numeric capability `i`: the 32-bit number where there is one,
/// else the 16-bit number.
pub open spec fn number_at(b: Seq<u8>, i: int) -> Option<u32> {
    if extended_number(b, i) is Some {
        extended_number(b, i)
    } else {
        base_number(b, i)
    }
}

/// The string table.
pub open spec fn string_table(b: Seq<u8>) -> Seq<u8> {
    b.subrange(header_of(b).table_start(), header_of(b).end())
}

/// The offset of string capability `i`.
pub open spec fn string_offset(b: Seq<u8>, i: int) -> int {
    le16(b, header_of(b).offsets_start() + 2 * i)
}

/// What is wrong with the offset of string capability `i`.
pub open spec fn string_failure(b: Seq<u8>, i: int) -> Option<Error> {
    let off = string_offset(b, i);
    if off == 0xFFFF {
        None
    } else if off >= 0x8000 || off >= header_of(b).table_len {
        Some(Error::InvalidLength)
    } else if nul_from(string_table(b), off) >= header_of(b).table_len {
        Some(Error::StringsMissingNull)
    } else {
        None
    }
}

/// What is wrong with the first bad offset among the string capabilities from
/// `i` on.
pub open spec fn strings_failure(b: Seq<u8>, i: int) -> Option<Error>
    decreases header_of(b).string_count - i,
{
    if i < 0 || i >= header_of(b).string_count {
        None
    } else if string_failure(b, i) is Some {
        string_failure(b, i)
    } else {
        strings_failure(b, i + 1)
    }
}

/// The string of capability `i`: the bytes of the table from its offset up to
/// the next NUL, unless the offset is -1.
pub open spec fn string_at(b: Seq<u8>, i: int) -> Option<Seq<u8>> {
    let off = string_offset(b, i);
    if 0 <= i < header_of(b).string_count && off != 0xFFFF {
        Some(string_table(b).subrange(off, nul_from(string_table(b), off)))
    } else {
        None
    }
}

/// What is wrong with the extended-numbers section.
pub open spec fn extended_failure(b: Seq<u8>) -> Option<LoadError> {
    let at = header_of(b).end();
    if !extended_present(b) {
        None
    } else if b.len() < at + 4 {
        Some(LoadError::UnexpectedEof)
    } else if field_count(le16(b, at + 2)) is None {
        Some(LoadError::Invalid(Error::InvalidLength))
    } else if extended_count(b) > NUMBER_COUNT {
        Some(LoadError::Invalid(Error::TooManyNumbers))
    } else if b.len() < at + 4 + 4 * extended_count(b) {
        Some(LoadError::UnexpectedEof)
    } else {
        None
    }
}

/// Why `b` is no entry: the first failure met when `b` is read from its start
/// to its end. None when `b` is an entry.
pub open spec fn parse_failure(b: Seq<u8>) -> Option<LoadError> {
    let h = header_of(b);
    if b.len() < 2 {
        Some(LoadError::UnexpectedEof)
    } else if le16(b, 0) != MAGIC {
        Some(LoadError::Invalid(Error::BadMagic(le16(b, 0) as u16)))
    } else if b.len() < HEADER_LEN {
        Some(LoadError::UnexpectedEof)
    } else if !header_valid(b) {
        Some(LoadError::Invalid(Error::InvalidLength))
    } else if h.names_len == 0 {
        Some(LoadError::Invalid(Error::ShortNames))
    } else if b.len() < h.bools_start() {
        Some(LoadError::UnexpectedEof)
    } else if b[h.bools_start() - 1] != 0 {
        Some(LoadError::Invalid(Error::NamesMissingNull))
    } else if !valid_utf8(names_text(b)) {
        Some(
            LoadError::Invalid(
                Error::NotUtf8(
                    Utf8Failure {
                        valid_up_to: valid_prefix_len(names_text(b)) as usize,
                        error_len: utf8_error_len(names_text(b)),
                    },
                ),
            ),
        )
    } else if h.bool_count > BOOL_COUNT {
        Some(LoadError::Invalid(Error::TooManyBools))
    } else if b.len() < h.numbers_start() {
        Some(LoadError::UnexpectedEof)
    } else if h.number_count > NUMBER_COUNT {
        Some(LoadError::Invalid(Error::TooManyNumbers))
    } else if b.len() < h.offsets_start() {
        Some(LoadError::UnexpectedEof)
    } else if h.string_count > STRING_COUNT {
        Some(LoadError::Invalid(Error::TooManyStrings))
    } else if b.len() < h.end() {
        Some(LoadError::UnexpectedEof)
    } else if strings_failure(b, 0) is Some {
        Some(LoadError::Invalid(strings_failure(b, 0).unwrap()))
    } else {
        extended_failure(b)
    }
}

/// Whether `t` is the table that the entry `b` holds.
pub open spec fn describes(b: Seq<u8>, t: TermInfoView) -> bool {
    &&& t.names == texts(segments(names_text(b)))
    &&& forall|k: u16| #[trigger] t.bools.contains_key(k) <==> flag_set(b, k as int)
    &&& forall|k: u16| #[trigger] t.bools.contains_key(k) ==> t.bools[k]
    &&& forall|k: u16| #[trigger] t.numbers.contains_key(k) <==> number_at(b, k as int) is Some
    &&& forall|k: u16| #[trigger]
        t.numbers.contains_key(k) ==> t.numbers[k] == number_at(b, k as int).unwrap()
    &&& forall|k: u16| #[trigger] t.strings.contains_key(k) <==> string_at(b, k as int) is Some
    &&& forall|k: u16| #[trigger]
        t.strings.contains_key(k) ==> t.strings[k] == string_at(b, k as int).unwrap()
}

/// Whether `r` is what parsing `b` gives: the table that `b` holds, or the
/// first failure met when `b` is read from start to end.
pub open spec fn parsed_as(b: Seq<u8>, r: Result<TermInfo, LoadError>) -> bool {
    match r {
        Ok(t) => parse_failure(b) is None && describes(b, t@),
        Err(e) => parse_failure(b) == Some(e),
    }
}

/// No NUL lies in `s` from `at` up to `k`, and `k` is a NUL or the end: then
/// `k` is the first NUL from `at`.
pub proof fn lemma_nul_from(s: Seq<u8>, at: int, k: int)
    requires
        0 <= at <= k <= s.len(),
        forall|j: int| at <= j < k ==> s[j] != 0,
        k < s.len() ==> s[k] == 0,
    ensures
        nul_from(s, at) == k,
    decreases k - at,
{
    if at < k {
        lemma_nul_from(s, at + 1, k);
    }
}

/// What lies before and behind a NUL of a valid UTF-8 text is valid UTF-8.
proof fn lemma_valid_around_nul(s: Seq<u8>, k: int)
    requires
        valid_utf8(s),
        0 <= k < s.len(),
        s[k] == 0,
    ensures
        valid_utf8(s.subrange(0, k)),
        valid_utf8(s.subrange(k + 1, s.len() as int)),
{
    vstd::utf8::is_char_boundary_iff_not_is_continuation_byte(s, k);
    vstd::utf8::valid_utf8_split(s, k);
    let tail = s.subrange(k, s.len() as int);
    assert(vstd::utf8::pop_first_scalar(tail) =~= s.subrange(k + 1, s.len() as int));
}

/// `core::str::from_utf8`, with `Utf8Error::valid_up_to` and
/// `Utf8Error::error_len` for its error.
///
/// Trusted, not proved: the call succeeds exactly on valid UTF-8, and then
/// gives the text that the bytes encode; when it fails, `valid_up_to` is the
/// length of the longest prefix of the bytes that is valid UTF-8, and
/// `error_len` is what it is for these bytes whenever the call is made.
#[verifier::external_body]
fn utf8_text<'a>(bytes: &'a [u8]) -> (r: Result<&'a str, Utf8Failure>)
    ensures
        match r {
            Ok(s) => valid_utf8(bytes@) && s@ == decode_utf8(bytes@),
            Err(f) => !valid_utf8(bytes@) && is_valid_up_to(bytes@, f.valid_up_to as int)
                && f.error_len == utf8_error_len(bytes@),
        },
{
    match core::str::from_utf8(bytes) {
        Ok(s) => Ok(s),
        Err(e) => Err(Utf8Failure { valid_up_to: e.valid_up_to(), error_len: e.error_len() }),
    }
}

/// The 16-bit little-endian integer at `at`.
fn read_u16(bytes: &[u8], at: usize) -> (v: u16)
    requires
        at + 2 <= bytes@.len(),
    ensures
        v as int == le16(bytes@, at as int),
{
    let lo: u16 = bytes[at] as u16;
    let hi: u16 = bytes[at + 1] as u16;
    lo + hi * 256
}

/// The 32-bit little-endian integer at `at`.
fn read_u32(bytes: &[u8], at: usize) -> (v: u32)
    requires
        at + 4 <= bytes@.len(),
    ensures
        v as int == le32(bytes@, at as int),
{
    let b0: u32 = bytes[at] as u32;
    let b1: u32 = bytes[at + 1] as u32;
    let b2: u32 = bytes[at + 2] as u32;
    let b3: u32 = bytes[at + 3] as u32;
    b0 + b1 * 256 + b2 * 65536 + b3 * 16777216
}

/// The count that the 16-bit field at `at` carries.
fn read_count(bytes: &[u8], at: usize) -> (r: Option<usize>)
    requires
        at + 2 <= bytes@.len(),
    ensures
        match r {
            Some(n) => field_count(le16(bytes@, at as int)) == Some(n as int),
            None => field_count(le16(bytes@, at as int)) is None,
        },
{
    let v: u16 = read_u16(bytes, at);
    if v < 0x8000 {
        Some(v as usize)
    } else if v == 0xFFFF {
        Some(0)
    } else {
        None
    }
}

/// The names of a names section, given without the NUL that ends it.
fn read_names(text: &[u8]) -> (r: Result<Vec<String>, Utf8Failure>)
    ensures
        match r {
            Ok(names) => valid_utf8(text@) && string_views(names@) == texts(segments(text@)),
            Err(f) => !valid_utf8(text@) && is_valid_up_to(text@, f.valid_up_to as int)
                && f.error_len == utf8_error_len(text@),
        },
{
    match utf8_text(text) {
        Ok(_) => {},
        Err(f) => {
            return Err(f);
        },
    }
    let n: usize = text.len();
    let mut names: Vec<String> = Vec::new();
    let mut start: usize = 0;
    let mut i: usize = 0;
    proof {
        assert(text@.subrange(0, n as int) =~= text@);
    }
    while i < n
        invariant
            n == text@.len(),
            start <= i <= n,
            forall|j: int| start <= j < i ==> text@[j] != 0,
            valid_utf8(text@.subrange(start as int, n as int)),
            string_views(names@) + texts(segments(text@.subrange(start as int, n as int)))
                == texts(segments(text@)),
        decreases n - i,
    {
        if text[i] == 0 {
            let piece = slice_subrange(text, start, i);
            let ghost rest = text@.subrange(start as int, n as int);
            let ghost behind = text@.subrange(i + 1, n as int);
            proof {
                lemma_nul_from(rest, 0, i - start);
                lemma_valid_around_nul(rest, i - start);
                assert(rest.subrange(0, i - start) =~= piece@);
                assert(rest.subrange(i - start + 1, rest.len() as int) =~= behind);
            }
            match utf8_text(piece) {
                Ok(s) => {
                    names.push(s.to_owned());
                },
                Err(f) => {
                    // A piece of valid UTF-8 that ends at a NUL is valid UTF-8.
                    proof {
                        assert(false);
                    }
                    return Err(f);
                },
            }
            start = i + 1;
        }
        i = i + 1;
    }
    let piece = slice_subrange(text, start, n);
    proof {
        lemma_nul_from(piece@, 0, n - start);
    }
    match utf8_text(piece) {
        Ok(s) => {
            names.push(s.to_owned());
            Ok(names)
        },
        Err(f) => {
            // What follows the last NUL of valid UTF-8 is valid UTF-8.
            proof {
                assert(false);
            }
            Err(f)
        },
    }
}

/// The five counts of a header, as read.
struct Counts {
    names_len: usize,
    bool_count: usize,
    number_count: usize,
    string_count: usize,
    table_len: usize,
}

impl Counts {
    spec fn view(&self) -> Header {
        Header {
            names_len: self.names_len as int,
            bool_count: self.bool_count as int,
            number_count: self.number_count as int,
            string_count: self.string_count as int,
            table_len: self.table_len as int,
        }
    }

    /// Whether each count is one that a 16-bit field can carry.
    spec fn small(&self) -> bool {
        &&& self.names_len < 0x8000
        &&& self.bool_count < 0x8000
        &&& self.number_count < 0x8000
        &&& self.string_count < 0x8000
        &&& self.table_len < 0x8000
    }

    fn bools_start(&self) -> (r: usize)
        requires
            self.small(),
        ensures
            r == self@.bools_start(),
    {
        HEADER_LEN + self.names_len
    }

    fn numbers_start(&self) -> (r: usize)
        requires
            self.small(),
        ensures
            r == self@.numbers_start(),
    {
        HEADER_LEN + self.names_len + self.bool_count + (self.names_len + self.bool_count) % 2
    }

    fn offsets_start(&self) -> (r: usize)
        requires
            self.small(),
        ensures
            r == self@.offsets_start(),
    {
        self.numbers_start() + 2 * self.number_count
    }

    fn table_start(&self) -> (r: usize)
        requires
            self.small(),
        ensures
            r == self@.table_start(),
    {
        self.offsets_start() + 2 * self.string_count
    }

    fn end(&self) -> (r: usize)
        requires
            self.small(),
        ensures
            r == self@.end(),
    {
        self.table_start() + self.table_len
    }
}

/// The header fields of an entry of at least twelve bytes.
fn read_header(bytes: &[u8]) -> (r: Option<Counts>)
    requires
        bytes@.len() >= HEADER_LEN,
    ensures
        match r {
            Some(c) => header_valid(bytes@) && c@ == header_of(bytes@) && c.small(),
            None => !header_valid(bytes@),
        },
{
    let names_len: usize = match read_count(bytes, 2) {
        Some(n) => n,
        None => {
            return None;
        },
    };
    let bool_count: usize = match read_count(bytes, 4) {
        Some(n) => n,
        None => {
            return None;
        },
    };
    let number_count: usize = match read_count(bytes, 6) {
        Some(n) => n,
        None => {
            return None;
        },
    };
    let string_count: usize = match read_count(bytes, 8) {
        Some(n) => n,
        None => {
            return None;
        },
    };
    let table_len: usize = match read_count(bytes, 10) {
        Some(n) => n,
        None => {
            return None;
        },
    };
    Some(Counts { names_len, bool_count, number_count, string_count, table_len })
}

/// The flags that are set.
fn read_bools(bytes: &[u8], c: &Counts) -> (bools: HashMap<u16, bool>)
    requires
        c.small(),
        c@ == header_of(bytes@),
        c@.numbers_start() <= bytes@.len(),
    ensures
        forall|k: u16| #[trigger] bools@.contains_key(k) <==> flag_set(bytes@, k as int),
        forall|k: u16| #[trigger] bools@.contains_key(k) ==> bools@[k],
{
    let start: usize = c.bools_start();
    let mut bools: HashMap<u16, bool> = HashMap::new();
    let mut i: usize = 0;
    while i < c.bool_count
        invariant
            c.small(),
            c@ == header_of(bytes@),
            c@.numbers_start() <= bytes@.len(),
            start == c@.bools_start(),
            i <= c.bool_count,
            forall|k: u16| #[trigger]
                bools@.contains_key(k) <==> (k < i && flag_set(bytes@, k as int)),
            forall|k: u16| #[trigger] bools@.contains_key(k) ==> bools@[k],
        decreases c.bool_count - i,
    {
        if bytes[start + i] == 1 {
            bools.insert(i as u16, true);
        }
        i = i + 1;
    }
    bools
}

/// The 16-bit numbers that are present.
fn read_numbers(bytes: &[u8], c: &Counts) -> (numbers: HashMap<u16, u32>)
    requires
        c.small(),
        c@ == header_of(bytes@),
        c@.offsets_start() <= bytes@.len(),
    ensures
        forall|k: u16| #[trigger]
            numbers@.contains_key(k) <==> base_number(bytes@, k as int) is Some,
        forall|k: u16| #[trigger]
            numbers@.contains_key(k) ==> numbers@[k] == base_number(bytes@, k as int).unwrap(),
{
    let start: usize = c.numbers_start();
    let mut numbers: HashMap<u16, u32> = HashMap::new();
    let mut i: usize = 0;
    while i < c.number_count
        invariant
            c.small(),
            c@ == header_of(bytes@),
            c@.offsets_start() <= bytes@.len(),
            start == c@.numbers_start(),
            i <= c.number_count,
            forall|k: u16| #[trigger]
                numbers@.contains_key(k) <==> (k < i && base_number(bytes@, k as int) is Some),
            forall|k: u16| #[trigger]
                numbers@.contains_key(k) ==> numbers@[k] == base_number(
                    bytes@,
                    k as int,
                ).unwrap(),
        decreases c.number_count - i,
    {
        let v: u16 = read_u16(bytes, start + 2 * i);
        if v != 0xFFFF && v != 0xFFFE {
            numbers.insert(i as u16, v as u32);
        }
        i = i + 1;
    }
    numbers
}

/// The 16-bit numbers, each replaced by the 32-bit number of the extended
/// section where that holds one.
fn read_extended(bytes: &[u8], c: &Counts, count: usize, base: HashMap<u16, u32>) -> (numbers:
    HashMap<u16, u32>)
    requires
        c.small(),
        c@ == header_of(bytes@),
        extended_present(bytes@),
        extended_failure(bytes@) is None,
        count == extended_count(bytes@),
        forall|k: u16| #[trigger] base@.contains_key(k) <==> base_number(bytes@, k as int) is Some,
        forall|k: u16| #[trigger]
            base@.contains_key(k) ==> base@[k] == base_number(bytes@, k as int).unwrap(),
    ensures
        forall|k: u16| #[trigger] numbers@.contains_key(k) <==> number_at(bytes@, k as int) is Some,
        forall|k: u16| #[trigger]
            numbers@.contains_key(k) ==> numbers@[k] == number_at(bytes@, k as int).unwrap(),
{
    let start: usize = c.end() + 4;
    let mut numbers: HashMap<u16, u32> = base;
    let mut i: usize = 0;
    while i < count
        invariant
            c.small(),
            c@ == header_of(bytes@),
            extended_present(bytes@),
            extended_failure(bytes@) is None,
            count == extended_count(bytes@),
            start == c@.end() + 4,
            i <= count,
            forall|k: u16| #[trigger]
                numbers@.contains_key(k) <==> (if k < i {
                    number_at(bytes@, k as int) is Some
                } else {
                    base_number(bytes@, k as int) is Some
                }),
            forall|k: u16| #[trigger]
                numbers@.contains_key(k) ==> numbers@[k] == (if k < i {
                    number_at(bytes@, k as int).unwrap()
                } else {
                    base_number(bytes@, k as int).unwrap()
                }),
        decreases count - i,
    {
        let v: u32 = read_u32(bytes, start + 4 * i);
        if v != 0xFFFF_FFFF && v != 0xFFFF_FFFE {
            numbers.insert(i as u16, v);
        }
        i = i + 1;
    }
    numbers
}

/// The string of one capability whose offset is not -1.
fn read_string(bytes: &[u8], c: &Counts, i: usize) -> (r: Result<Vec<u8>, Error>)
    requires
        c.small(),
        c@ == header_of(bytes@),
        c@.end() <= bytes@.len(),
        i < c.string_count,
        string_offset(bytes@, i as int) != 0xFFFF,
    ensures
        match r {
            Ok(s) => string_failure(bytes@, i as int) is None && Some(s@) == string_at(
                bytes@,
                i as int,
            ),
            Err(e) => string_failure(bytes@, i as int) == Some(e),
        },
{
    let off: usize = read_u16(bytes, c.offsets_start() + 2 * i) as usize;
    if off >= 0x8000 || off >= c.table_len {
        return Err(Error::InvalidLength);
    }
    let table = slice_subrange(bytes, c.table_start(), c.end());
    let mut j: usize = off;
    while j < c.table_len && table[j] != 0
        invariant
            table@ == string_table(bytes@),
            table@.len() == c.table_len,
            off <= j <= c.table_len,
            forall|k: int| off <= k < j ==> table@[k] != 0,
        decreases c.table_len - j,
    {
        j = j + 1;
    }
    proof {
        lemma_nul_from(table@, off as int, j as int);
    }
    if j >= c.table_len {
        return Err(Error::StringsMissingNull);
    }
    Ok(slice_to_vec(slice_subrange(table, off, j)))
}

/// The strings that are present.
fn read_strings(bytes: &[u8], c: &Counts) -> (r: Result<HashMap<u16, Vec<u8>>, Error>)
    requires
        c.small(),
        c@ == header_of(bytes@),
        c@.end() <= bytes@.len(),
    ensures
        match r {
            Ok(strings) => {
                &&& strings_failure(bytes@, 0) is None
                &&& forall|k: u16| #[trigger]
                    strings@.contains_key(k) <==> string_at(bytes@, k as int) is Some
                &&& forall|k: u16| #[trigger]
                    strings@.contains_key(k) ==> strings@[k]@ == string_at(
                        bytes@,
                        k as int,
                    ).unwrap()
            },
            Err(e) => strings_failure(bytes@, 0) == Some(e),
        },
{
    let start: usize = c.offsets_start();
    let mut strings: HashMap<u16, Vec<u8>> = HashMap::new();
    let mut i: usize = 0;
    while i < c.string_count
        invariant
            c.small(),
            c@ == header_of(bytes@),
            c@.end() <= bytes@.len(),
            start == c@.offsets_start(),
            i <= c.string_count,
            strings_failure(bytes@, 0) == strings_failure(bytes@, i as int),
            forall|k: u16| #[trigger]
                strings@.contains_key(k) <==> (k < i && string_at(bytes@, k as int) is Some),
            forall|k: u16| #[trigger]
                strings@.contains_key(k) ==> strings@[k]@ == string_at(bytes@, k as int).unwrap(),
        decreases c.string_count - i,
    {
        let off: u16 = read_u16(bytes, start + 2 * i);
        if off != 0xFFFF {
            match read_string(bytes, c, i) {
                Ok(s) => {
                    strings.insert(i as u16, s);
                },
                Err(e) => {
                    return Err(e);
                },
            }
        }
        i = i + 1;
    }
    Ok(strings)
}

/// Parse a compiled terminfo entry.
///
/// The result is the table that the entry holds, or the first failure met
/// when the bytes are read from start to end.
pub fn parse(bytes: &[u8]) -> (r: Result<TermInfo, LoadError>)
    ensures
        parsed_as(bytes@, r),
        r matches Ok(t) ==> t@.well_formed(),
{
    let n: usize = bytes.len();
    if n < 2 {
        return Err(LoadError::UnexpectedEof);
    }
    let magic: u16 = read_u16(bytes, 0);
    if magic != MAGIC {
        return Err(LoadError::Invalid(Error::BadMagic(magic)));
    }
    if n < HEADER_LEN {
        return Err(LoadError::UnexpectedEof);
    }
    let c: Counts = match read_header(bytes) {
        Some(c) => c,
        None => {
            return Err(LoadError::Invalid(Error::InvalidLength));
        },
    };
    if c.names_len == 0 {
        return Err(LoadError::Invalid(Error::ShortNames));
    }
    if n < c.bools_start() {
        return Err(LoadError::UnexpectedEof);
    }
    if bytes[c.bools_start() - 1] != 0 {
        return Err(LoadError::Invalid(Error::NamesMissingNull));
    }
    let text = slice_subrange(bytes, HEADER_LEN, c.bools_start() - 1);
    let names: Vec<String> = match read_names(text) {
        Ok(names) => names,
        Err(f) => {
            return Err(LoadError::Invalid(Error::NotUtf8(f)));
        },
    };
    if c.bool_count > BOOL_COUNT {
        return Err(LoadError::Invalid(Error::TooManyBools));
    }
    if n < c.numbers_start() {
        return Err(LoadError::UnexpectedEof);
    }
    if c.number_count > NUMBER_COUNT {
        return Err(LoadError::Invalid(Error::TooManyNumbers));
    }
    if n < c.offsets_start() {
        return Err(LoadError::UnexpectedEof);
    }
    if c.string_count > STRING_COUNT {
        return Err(LoadError::Invalid(Error::TooManyStrings));
    }
    if n < c.end() {
        return Err(LoadError::UnexpectedEof);
    }
    let bools = read_bools(bytes, &c);
    let base = read_numbers(bytes, &c);
    let strings = match read_strings(bytes, &c) {
        Ok(strings) => strings,
        Err(e) => {
            return Err(LoadError::Invalid(e));
        },
    };
    let at: usize = c.end();
    let numbers = if n >= at + 2 && read_u16(bytes, at) == EXTENDED_MAGIC {
        if n < at + 4 {
            return Err(LoadError::UnexpectedEof);
        }
        let count: usize = match read_count(bytes, at + 2) {
            Some(count) => count,
            None => {
                return Err(LoadError::Invalid(Error::InvalidLength));
            },
        };
        if count > NUMBER_COUNT {
            return Err(LoadError::Invalid(Error::TooManyNumbers));
        }
        if n < at + 4 + 4 * count {
            return Err(LoadError::UnexpectedEof);
        }
        read_extended(bytes, &c, count, base)
    } else {
        base
    };
    Ok(TermInfo { names, bools, numbers, strings })
}

/// An entry holds one table: two tables that the same bytes describe are
/// equal.
pub proof fn lemma_table_is_unique(b: Seq<u8>, t1: TermInfoView, t2: TermInfoView)
    requires
        describes(b, t1),
        describes(b, t2),
    ensures
        t1 == t2,
{
    assert forall|k: u16| t1.bools.dom().contains(k) == t2.bools.dom().contains(k) by {}
    assert(t1.bools =~= t2.bools);
    assert forall|k: u16| t1.numbers.dom().contains(k) == t2.numbers.dom().contains(k) by {}
    assert(t1.numbers =~= t2.numbers);
    assert forall|k: u16| t1.strings.dom().contains(k) == t2.strings.dom().contains(k) by {}
    assert(t1.strings =~= t2.strings);
}

/// Decoding the same bytes twice gives the same: both times a table, and
/// then equal tables, or both times the same failure.
pub proof fn lemma_parse_is_deterministic(
    b: Seq<u8>,
    r1: Result<TermInfo, LoadError>,
    r2: Result<TermInfo, LoadError>,
)
    requires
        parsed_as(b, r1),
        parsed_as(b, r2),
    ensures
        r1 is Ok <==> r2 is Ok,
        r1 matches Ok(t1) ==> r2 matches Ok(t2) ==> t1@ == t2@,
        r1 matches Err(e1) ==> r2 matches Err(e2) ==> e1 == e2,
{
    match (r1, r2) {
        (Ok(t1), Ok(t2)) => {
            lemma_table_is_unique(b, t1@, t2@);
        },
        _ => {},
    }
}

/// The table of an entry is well formed: it has at least one name, it holds
/// no capability beyond the vocabularies, and every flag in it is set.
pub proof fn lemma_entry_is_well_formed(b: Seq<u8>, t: TermInfoView)
    requires
        parse_failure(b) is None,
        describes(b, t),
    ensures
        t.well_formed(),
{
}

/// An entry whose header announces an empty names section fails with
/// `ShortNames`.
pub proof fn lemma_empty_names_are_short(b: Seq<u8>)
    requires
        b.len() >= HEADER_LEN,
        le16(b, 0) == MAGIC,
        header_valid(b),
        header_of(b).names_len == 0,
    ensures
        parse_failure(b) == Some(LoadError::Invalid(Error::ShortNames)),
{
}

/// A capability whose number or offset is -1 has no key in the table: a
/// number where no extended section gives the capability another one.
pub proof fn lemma_absent_has_no_key(b: Seq<u8>, t: TermInfoView, k: u16)
    requires
        describes(b, t),
    ensures
        le16(b, header_of(b).numbers_start() + 2 * k) == 0xFFFF && extended_number(b, k as int)
            is None ==> !t.numbers.contains_key(k),
        string_offset(b, k as int) == 0xFFFF ==> !t.strings.contains_key(k),
{
}

/// Bytes that start with another number than the magic number fail with
/// `BadMagic` of that number, whatever follows.
pub proof fn lemma_wrong_magic_is_bad_magic(b: Seq<u8>)
    requires
        b.len() >= 2,
        le16(b, 0) != MAGIC,
    ensures
        parse_failure(b) == Some(LoadError::Invalid(Error::BadMagic(le16(b, 0) as u16))),
{
}

/// Bytes that end before the string table does are no entry.
pub proof fn lemma_truncated_is_failure(b: Seq<u8>)
    requires
        b.len() >= HEADER_LEN,
        header_valid(b),
        b.len() < header_of(b).end(),
    ensures
        parse_failure(b) is Some,
{
}

} // verus!

use terminfo::names::{
    bool_index, bool_name, number_index, number_name, string_index, string_name,
};
use terminfo::parser::compiled::parse;
use terminfo::{Error, LoadError, TermInfo, Utf8Failure};

fn le16(v: u16) -> [u8; 2] {
    [(v & 0xFF) as u8, (v >> 8) as u8]
}

fn le32(v: u32) -> [u8; 4] {
    [(v & 0xFF) as u8, ((v >> 8) & 0xFF) as u8, ((v >> 16) & 0xFF) as u8, (v >> 24) as u8]
}

/// An entry with the given sections; the header is made to fit them.
fn entry(names: &[u8], bools: &[u8], numbers: &[u16], offsets: &[u16], table: &[u8]) -> Vec<u8> {
    let mut b: Vec<u8> = Vec::new();
    b.extend_from_slice(&le16(0x011A));
    b.extend_from_slice(&le16(names.len() as u16));
    b.extend_from_slice(&le16(bools.len() as u16));
    b.extend_from_slice(&le16(numbers.len() as u16));
    b.extend_from_slice(&le16(offsets.len() as u16));
    b.extend_from_slice(&le16(table.len() as u16));
    b.extend_from_slice(names);
    b.extend_from_slice(bools);
    if (names.len() + bools.len()) % 2 == 1 {
        b.push(0);
    }
    for n in numbers {
        b.extend_from_slice(&le16(*n));
    }
    for o in offsets {
        b.extend_from_slice(&le16(*o));
    }
    b.extend_from_slice(table);
    b
}

fn sample() -> Vec<u8> {
    entry(
        b"xterm\0",
        &[0, 1, 0, 1],
        &[80, 0xFFFF, 24, 0xFFFE],
        &[0, 0xFFFF, 3],
        b"\x1b[\0\r\0",
    )
}

fn ok(bytes: &[u8]) -> TermInfo {
    parse(bytes).unwrap()
}

fn failure(bytes: &[u8]) -> LoadError {
    parse(bytes).unwrap_err()
}

#[test]
fn parses_every_section() {
    let t = ok(&sample());
    assert_eq!(t.names, vec!["xterm".to_string()]);
    assert_eq!(t.bools.len(), 2);
    assert_eq!(t.bools.get(&1), Some(&true));
    assert_eq!(t.bools.get(&3), Some(&true));
    assert_eq!(t.bools.get(&0), None);
    assert_eq!(t.numbers.len(), 2);
    assert_eq!(t.numbers.get(&0), Some(&80));
    assert_eq!(t.numbers.get(&2), Some(&24));
    assert_eq!(t.strings.len(), 2);
    assert_eq!(t.strings.get(&0), Some(&b"\x1b[".to_vec()));
    assert_eq!(t.strings.get(&2), Some(&b"\r".to_vec()));
}

#[test]
fn names_are_split_at_nul() {
    let t = ok(&entry(b"vt100\0vt100-am\0dec vt100\0", &[], &[], &[], &[]));
    assert_eq!(
        t.names,
        vec!["vt100".to_string(), "vt100-am".to_string(), "dec vt100".to_string()]
    );
}

#[test]
fn a_lone_nul_is_one_empty_name() {
    let t = ok(&entry(b"\0", &[], &[], &[], &[]));
    assert_eq!(t.names, vec![String::new()]);
}

#[test]
fn names_may_hold_text_beyond_ascii() {
    let t = ok(&entry("térm\0".as_bytes(), &[], &[], &[], &[]));
    assert_eq!(t.names, vec!["térm".to_string()]);
}

#[test]
fn names_are_never_empty() {
    for names in [&b"a\0"[..], &b"\0"[..], &b"a\0\0b\0"[..]] {
        assert!(!ok(&entry(names, &[], &[], &[], &[])).names.is_empty());
    }
}

#[test]
fn decoding_twice_gives_equal_tables() {
    let bytes = sample();
    assert_eq!(ok(&bytes), ok(&bytes));
}

#[test]
fn wrong_magic_is_bad_magic() {
    assert_eq!(failure(&[0, 0]), LoadError::Invalid(Error::BadMagic(0)));
    assert_eq!(failure(&[0, 0, 1, 2, 3]), LoadError::Invalid(Error::BadMagic(0)));
    let mut bytes = sample();
    bytes[0] = 0x1E;
    bytes[1] = 0x02;
    assert_eq!(failure(&bytes), LoadError::Invalid(Error::BadMagic(0x021E)));
}

#[test]
fn short_input_is_unexpected_eof() {
    assert_eq!(failure(&[]), LoadError::UnexpectedEof);
    assert_eq!(failure(&[0x1A]), LoadError::UnexpectedEof);
    assert_eq!(failure(&[0x1A, 0x01]), LoadError::UnexpectedEof);
    assert_eq!(failure(&sample()[..11]), LoadError::UnexpectedEof);
}

#[test]
fn every_truncation_fails() {
    let bytes = sample();
    for n in 0..bytes.len() {
        assert!(parse(&bytes[..n]).is_err(), "prefix of {} bytes", n);
    }
    assert!(parse(&bytes).is_ok());
}

#[test]
fn cut_inside_the_string_table_is_unexpected_eof() {
    let bytes = sample();
    assert_eq!(failure(&bytes[..bytes.len() - 2]), LoadError::UnexpectedEof);
}

#[test]
fn cut_inside_each_section_is_unexpected_eof() {
    let bytes = sample();
    assert_eq!(failure(&bytes[..14]), LoadError::UnexpectedEof);
    assert_eq!(failure(&bytes[..20]), LoadError::UnexpectedEof);
    assert_eq!(failure(&bytes[..25]), LoadError::UnexpectedEof);
    assert_eq!(failure(&bytes[..33]), LoadError::UnexpectedEof);
}

#[test]
fn header_field_below_minus_one_is_invalid_length() {
    for field in 1..6 {
        let mut bytes = sample();
        bytes[2 * field] = 0xFE;
        bytes[2 * field + 1] = 0xFF;
        assert_eq!(failure(&bytes), LoadError::Invalid(Error::InvalidLength));
    }
}

#[test]
fn header_field_of_minus_one_counts_as_zero() {
    let mut bytes = entry(b"a\0", &[], &[], &[], &[]);
    for field in 2..6 {
        bytes[2 * field] = 0xFF;
        bytes[2 * field + 1] = 0xFF;
    }
    let t = ok(&bytes);
    assert_eq!(t.names, vec!["a".to_string()]);
    assert!(t.bools.is_empty() && t.numbers.is_empty() && t.strings.is_empty());
    bytes[2] = 0xFF;
    bytes[3] = 0xFF;
    assert_eq!(failure(&bytes), LoadError::Invalid(Error::ShortNames));
}

#[test]
fn empty_names_section_is_short_names() {
    assert_eq!(
        failure(&entry(b"", &[1], &[1], &[], &[])),
        LoadError::Invalid(Error::ShortNames)
    );
}

#[test]
fn names_without_final_nul() {
    assert_eq!(
        failure(&entry(b"xterm", &[], &[], &[], &[])),
        LoadError::Invalid(Error::NamesMissingNull)
    );
}

#[test]
fn names_that_are_not_utf8() {
    assert_eq!(
        failure(&entry(b"ab\xFFcd\0", &[], &[], &[], &[])),
        LoadError::Invalid(Error::NotUtf8(Utf8Failure { valid_up_to: 2, error_len: Some(1) }))
    );
    assert_eq!(
        failure(&entry(b"a\0\xC3\0", &[], &[], &[], &[])),
        LoadError::Invalid(Error::NotUtf8(Utf8Failure { valid_up_to: 2, error_len: None }))
    );
    assert_eq!(
        failure(&entry(b"a\0\xC3\0b\0", &[], &[], &[], &[])),
        LoadError::Invalid(Error::NotUtf8(Utf8Failure { valid_up_to: 2, error_len: Some(1) }))
    );
    assert_eq!(
        failure(&entry(b"abc\xE2\x82\0", &[], &[], &[], &[])),
        LoadError::Invalid(Error::NotUtf8(Utf8Failure { valid_up_to: 3, error_len: None }))
    );
    assert_eq!(
        failure(&entry(b"\xE2\x82(\0", &[], &[], &[], &[])),
        LoadError::Invalid(Error::NotUtf8(Utf8Failure { valid_up_to: 0, error_len: Some(2) }))
    );
}

#[test]
fn utf8_failure_is_the_one_of_the_standard_library() {
    for text in [
        &b"ab\xFFcd"[..],
        &b"abc\xE2\x82"[..],
        &b"\xE2\x82("[..],
        &b"\xF0\x9F\x92"[..],
        &b"0123456789\xF0\x9F\x92x"[..],
        &b"\xC0\x80"[..],
        &b"t\xC3\xA9rm\x80"[..],
    ] {
        let e = std::str::from_utf8(text).unwrap_err();
        let mut names = text.to_vec();
        names.push(0);
        match failure(&entry(&names, &[], &[], &[], &[])) {
            LoadError::Invalid(found) => {
                assert_eq!(
                    found,
                    Error::NotUtf8(Utf8Failure {
                        valid_up_to: e.valid_up_to(),
                        error_len: e.error_len(),
                    })
                );
                assert_eq!(found.to_string(), e.to_string());
            }
            other => panic!("{:?}", other),
        }
    }
}

#[test]
fn too_many_of_each_kind() {
    assert!(parse(&entry(b"a\0", &[0; 44], &[], &[], &[])).is_ok());
    assert_eq!(
        failure(&entry(b"a\0", &[0; 45], &[], &[], &[])),
        LoadError::Invalid(Error::TooManyBools)
    );
    assert!(parse(&entry(b"a\0", &[], &[0; 39], &[], &[])).is_ok());
    assert_eq!(
        failure(&entry(b"a\0", &[], &[0; 40], &[], &[])),
        LoadError::Invalid(Error::TooManyNumbers)
    );
    assert!(parse(&entry(b"a\0", &[], &[], &[0xFFFF; 414], &[])).is_ok());
    assert_eq!(
        failure(&entry(b"a\0", &[], &[], &[0xFFFF; 415], &[])),
        LoadError::Invalid(Error::TooManyStrings)
    );
}

#[test]
fn failures_come_in_the_order_of_the_sections() {
    assert_eq!(
        failure(&entry(b"a", &[0; 45], &[0; 40], &[0; 415], &[])),
        LoadError::Invalid(Error::NamesMissingNull)
    );
    assert_eq!(
        failure(&entry(b"a\0", &[0; 45], &[0; 40], &[0; 415], &[])),
        LoadError::Invalid(Error::TooManyBools)
    );
    assert_eq!(
        failure(&entry(b"a\0", &[0; 44], &[0; 40], &[0; 415], &[])),
        LoadError::Invalid(Error::TooManyNumbers)
    );
    assert_eq!(
        failure(&entry(b"a\0", &[0; 44], &[0; 39], &[0; 415], &[])),
        LoadError::Invalid(Error::TooManyStrings)
    );
}

#[test]
fn only_a_byte_of_one_sets_a_flag() {
    let t = ok(&entry(b"a\0", &[1, 0, 2, 255, 1], &[], &[], &[]));
    let mut set: Vec<u16> = t.bools.keys().copied().collect();
    set.sort();
    assert_eq!(set, vec![0, 4]);
    assert!(t.bools.values().all(|b| *b));
}

#[test]
fn padding_follows_an_odd_offset() {
    let odd = entry(b"ab\0", &[], &[7], &[], &[]);
    assert_eq!(odd.len(), 12 + 3 + 1 + 2);
    assert_eq!(ok(&odd).numbers.get(&0), Some(&7));
    let even = entry(b"ab\0", &[1], &[7], &[], &[]);
    assert_eq!(even.len(), 12 + 3 + 1 + 2);
    assert_eq!(ok(&even).numbers.get(&0), Some(&7));
}

#[test]
fn absent_numbers_have_no_key() {
    let t = ok(&entry(b"a\0", &[], &[0xFFFF, 0xFFFE, 0, 0x8000, 0xFFFD], &[], &[]));
    assert_eq!(t.numbers.get(&0), None);
    assert_eq!(t.numbers.get(&1), None);
    assert_eq!(t.numbers.get(&2), Some(&0));
    assert_eq!(t.numbers.get(&3), Some(&0x8000));
    assert_eq!(t.numbers.get(&4), Some(&0xFFFD));
    assert_eq!(t.numbers.len(), 3);
}

#[test]
fn absent_strings_have_no_key() {
    let t = ok(&entry(b"a\0", &[], &[], &[0xFFFF, 0, 0xFFFF, 1], b"\0x\0"));
    assert_eq!(t.strings.get(&0), None);
    assert_eq!(t.strings.get(&1), Some(&Vec::new()));
    assert_eq!(t.strings.get(&2), None);
    assert_eq!(t.strings.get(&3), Some(&b"x".to_vec()));
    assert_eq!(t.strings.len(), 2);
}

#[test]
fn strings_may_share_bytes_of_the_table() {
    let t = ok(&entry(b"a\0", &[], &[], &[0, 2, 4], b"abcde\0"));
    assert_eq!(t.strings.get(&0), Some(&b"abcde".to_vec()));
    assert_eq!(t.strings.get(&1), Some(&b"cde".to_vec()));
    assert_eq!(t.strings.get(&2), Some(&b"e".to_vec()));
}

#[test]
fn bad_string_offsets() {
    assert_eq!(
        failure(&entry(b"a\0", &[], &[], &[0xFFFE], b"x\0")),
        LoadError::Invalid(Error::InvalidLength)
    );
    assert_eq!(
        failure(&entry(b"a\0", &[], &[], &[0x8000], b"x\0")),
        LoadError::Invalid(Error::InvalidLength)
    );
    assert_eq!(
        failure(&entry(b"a\0", &[], &[], &[2], b"x\0")),
        LoadError::Invalid(Error::InvalidLength)
    );
    assert_eq!(
        failure(&entry(b"a\0", &[], &[], &[0], b"")),
        LoadError::Invalid(Error::InvalidLength)
    );
    assert!(parse(&entry(b"a\0", &[], &[], &[1], b"x\0")).is_ok());
}

#[test]
fn string_without_nul() {
    assert_eq!(
        failure(&entry(b"a\0", &[], &[], &[0], b"xyz")),
        LoadError::Invalid(Error::StringsMissingNull)
    );
    assert_eq!(
        failure(&entry(b"a\0", &[], &[], &[0, 2], b"x\0yz")),
        LoadError::Invalid(Error::StringsMissingNull)
    );
}

#[test]
fn the_first_bad_string_decides() {
    assert_eq!(
        failure(&entry(b"a\0", &[], &[], &[2, 9], b"x\0yz")),
        LoadError::Invalid(Error::StringsMissingNull)
    );
    assert_eq!(
        failure(&entry(b"a\0", &[], &[], &[9, 2], b"x\0yz")),
        LoadError::Invalid(Error::InvalidLength)
    );
}

#[test]
fn trailing_bytes_without_marker_are_ignored() {
    let mut bytes = sample();
    bytes.extend_from_slice(&[1, 2, 3, 4, 5]);
    assert_eq!(ok(&bytes), ok(&sample()));
    let mut bytes = sample();
    bytes.push(0x1E);
    assert_eq!(ok(&bytes), ok(&sample()));
}

#[test]
fn extended_numbers_replace_and_add() {
    let mut bytes = sample();
    bytes.extend_from_slice(&le16(0x021E));
    bytes.extend_from_slice(&le16(5));
    bytes.extend_from_slice(&le32(100_000));
    bytes.extend_from_slice(&le32(70_000));
    bytes.extend_from_slice(&le32(0xFFFF_FFFF));
    bytes.extend_from_slice(&le32(0xFFFF_FFFE));
    bytes.extend_from_slice(&le32(0x8000_0000));
    let t = ok(&bytes);
    assert_eq!(t.numbers.get(&0), Some(&100_000));
    assert_eq!(t.numbers.get(&1), Some(&70_000));
    assert_eq!(t.numbers.get(&2), Some(&24));
    assert_eq!(t.numbers.get(&3), None);
    assert_eq!(t.numbers.get(&4), Some(&0x8000_0000));
    assert_eq!(t.numbers.len(), 4);
    assert_eq!(t.strings, ok(&sample()).strings);
}

#[test]
fn bad_extended_sections() {
    let mut bytes = sample();
    bytes.extend_from_slice(&le16(0x021E));
    assert_eq!(failure(&bytes), LoadError::UnexpectedEof);
    bytes.extend_from_slice(&le16(1));
    assert_eq!(failure(&bytes), LoadError::UnexpectedEof);
    bytes.extend_from_slice(&[1, 0, 0]);
    assert_eq!(failure(&bytes), LoadError::UnexpectedEof);
    bytes.push(0);
    assert_eq!(ok(&bytes).numbers.get(&0), Some(&1));

    let mut bytes = sample();
    bytes.extend_from_slice(&le16(0x021E));
    bytes.extend_from_slice(&le16(0xFFFE));
    assert_eq!(failure(&bytes), LoadError::Invalid(Error::InvalidLength));

    let mut bytes = sample();
    bytes.extend_from_slice(&le16(0x021E));
    bytes.extend_from_slice(&le16(40));
    assert_eq!(failure(&bytes), LoadError::Invalid(Error::TooManyNumbers));

    let mut bytes = sample();
    bytes.extend_from_slice(&le16(0x021E));
    bytes.extend_from_slice(&le16(0xFFFF));
    assert_eq!(ok(&bytes), ok(&sample()));
}

#[test]
fn capabilities_are_found_by_name() {
    let mut offsets = vec![0xFFFF; 11];
    offsets[10] = 0;
    let mut numbers = vec![0xFFFF; 14];
    numbers[0] = 80;
    numbers[13] = 256;
    let t = ok(&entry(b"a\0", &[0, 1], &numbers, &offsets, b"\x1b[%i%p1%d;%p2%dH\0"));
    assert!(t.flag("am"));
    assert!(!t.flag("bw"));
    assert!(!t.flag("xenl"));
    assert!(!t.flag("no such flag"));
    assert_eq!(t.number("cols"), Some(80));
    assert_eq!(t.number("colors"), Some(256));
    assert_eq!(t.number("lines"), None);
    assert_eq!(t.number("cup"), None);
    assert_eq!(t.string("cup"), Some(&b"\x1b[%i%p1%d;%p2%dH".to_vec()));
    assert_eq!(t.string("bold"), None);
    assert_eq!(t.string("colors"), None);
}

#[test]
fn vocabulary_places() {
    assert_eq!(bool_index("bw"), Some(0));
    assert_eq!(bool_index("am"), Some(1));
    assert_eq!(bool_index("OTxr"), Some(43));
    assert_eq!(bool_index("cols"), None);
    assert_eq!(number_index("cols"), Some(0));
    assert_eq!(number_index("lines"), Some(2));
    assert_eq!(number_index("colors"), Some(13));
    assert_eq!(number_index("OTkn"), Some(38));
    assert_eq!(string_index("cbt"), Some(0));
    assert_eq!(string_index("cup"), Some(10));
    assert_eq!(string_index("bold"), Some(27));
    assert_eq!(string_index("sgr0"), Some(39));
    assert_eq!(string_index("sgr"), Some(131));
    assert_eq!(string_index("op"), Some(297));
    assert_eq!(string_index("setaf"), Some(359));
    assert_eq!(string_index("setab"), Some(360));
    assert_eq!(string_index("box1"), Some(413));
    assert_eq!(string_index(""), None);
    assert_eq!(string_index("CUP"), None);
}

#[test]
fn vocabulary_names() {
    assert_eq!(bool_name(0), Some("bw"));
    assert_eq!(bool_name(43), Some("OTxr"));
    assert_eq!(bool_name(44), None);
    assert_eq!(number_name(13), Some("colors"));
    assert_eq!(number_name(39), None);
    assert_eq!(string_name(10), Some("cup"));
    assert_eq!(string_name(413), Some("box1"));
    assert_eq!(string_name(414), None);
    for i in 0..414 {
        assert_eq!(string_index(string_name(i).unwrap()), Some(i));
    }
    for i in 0..44 {
        assert_eq!(bool_index(bool_name(i).unwrap()), Some(i));
    }
    for i in 0..39 {
        assert_eq!(number_index(number_name(i).unwrap()), Some(i));
    }
}

#[test]
fn error_texts() {
    assert_eq!(Error::BadMagic(0x21e).to_string(), "bad magic number 21e in terminfo header");
    assert_eq!(Error::BadMagic(0).to_string(), "bad magic number 0 in terminfo header");
    assert_eq!(Error::BadMagic(0xFFFF).to_string(), "bad magic number ffff in terminfo header");
    assert_eq!(
        Error::NotUtf8(Utf8Failure { valid_up_to: 1203, error_len: Some(3) }).to_string(),
        "invalid utf-8 sequence of 3 bytes from index 1203"
    );
    assert_eq!(
        Error::NotUtf8(Utf8Failure { valid_up_to: 1, error_len: Some(1) }).to_string(),
        "invalid utf-8 sequence of 1 bytes from index 1"
    );
    assert_eq!(
        Error::NotUtf8(Utf8Failure { valid_up_to: 40, error_len: None }).to_string(),
        "incomplete utf-8 byte sequence from index 40"
    );
    assert_eq!(
        Error::NotUtf8(Utf8Failure { valid_up_to: 0, error_len: None }).to_string(),
        "incomplete utf-8 byte sequence from index 0"
    );
    assert_eq!(Error::ShortNames.to_string(), "no names exposed, need at least one");
    assert_eq!(Error::BadMagic(7).description(), "incorrect magic number at start of file");
    assert_eq!(
        Error::TooManyBools.description(),
        "more boolean properties than libterm knows about"
    );
    assert_eq!(
        Error::TooManyNumbers.description(),
        "more number properties than libterm knows about"
    );
    assert_eq!(
        Error::TooManyStrings.description(),
        "more string properties than libterm knows about"
    );
    assert_eq!(Error::InvalidLength.description(), "invalid length field value, must be >= -1");
    assert_eq!(Error::NamesMissingNull.description(), "names table missing NUL terminator");
    assert_eq!(
        Error::NotUtf8(Utf8Failure { valid_up_to: 0, error_len: None }).description(),
        "invalid utf-8: corrupt contents"
    );
    assert_eq!(Error::ShortNames.description(), "no names exposed, need at least one");
    assert_eq!(Error::StringsMissingNull.description(), "string table missing NUL terminator");
    assert_eq!(
        Error::NotUtf8(Utf8Failure { valid_up_to: 0, error_len: None }).cause(),
        Some(Utf8Failure { valid_up_to: 0, error_len: None })
    );
    assert_eq!(Error::ShortNames.cause(), None);
    assert_eq!(LoadError::from(Error::ShortNames), LoadError::Invalid(Error::ShortNames));
    assert_eq!(
        Error::from(Utf8Failure { valid_up_to: 3, error_len: Some(2) }),
        Error::NotUtf8(Utf8Failure { valid_up_to: 3, error_len: Some(2) })
    );
}

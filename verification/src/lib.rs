//! Terminfo database interface.
//!
//! A compiled terminfo entry is decoded from its bytes into a [`TermInfo`]
//! capability table, entries are located in a snapshot of the database
//! directories, and the `%`-escapes of a string capability are expanded against
//! run-time arguments. The crate never touches a file or the environment: the
//! caller reads bytes and hands them over.

use crate::names::{
    bool_index, number_index, place, string_index, BOOL_COUNT, BOOL_NAMES, NUMBER_COUNT,
    NUMBER_NAMES, STRING_COUNT, STRING_NAMES,
};
use crate::parser::compiled::{parse, parsed_as};
use crate::searcher::{get_dbpath_for_term, resolved, Database};
use crate::text::{numeral, push_numeral};
use std::collections::HashMap;
use vstd::prelude::*;
use vstd::string::StringExecFns;

pub mod names;
pub mod parm;
pub mod parser;
pub mod searcher;
pub mod text;

verus! {

/// Where the text of a names section stops being UTF-8, and how.
#[derive(Clone, Copy, Debug, PartialEq, Eq, Structural)]
pub struct Utf8Failure {
    /// Length of the longest prefix of the text that is valid UTF-8.
    pub valid_up_to: usize,
    /// Length of the invalid sequence that starts there; none when the text
    /// ends inside a sequence.
    pub error_len: Option<usize>,
}

/// An error from parsing a terminfo entry.
#[derive(Clone, Copy, Debug, PartialEq, Eq, Structural)]
pub enum Error {
    /// The "magic" number at the start of the file was wrong.
    ///
    /// It should be `0x11A`.
    BadMagic(u16),
    /// The names in the file were not valid UTF-8.
    NotUtf8(Utf8Failure),
    /// The names section of the file was empty.
    ShortNames,
    /// More boolean parameters are present in the file than this crate knows how to interpret.
    TooManyBools,
    /// More number parameters are present in the file than this crate knows how to interpret.
    TooManyNumbers,
    /// More string parameters are present in the file than this crate knows how to interpret.
    TooManyStrings,
    /// The length of some field was not >= -1.
    InvalidLength,
    /// The names table was missing a trailing null terminator.
    NamesMissingNull,
    /// The strings table was missing a trailing null terminator.
    StringsMissingNull,
}

/// Why no capability table could be produced.
#[derive(Clone, Copy, Debug, PartialEq, Eq, Structural)]
pub enum LoadError {
    /// No entry exists for the terminal, or no file at the path.
    NotFound,
    /// The bytes stop before the end of a section that the header announces.
    UnexpectedEof,
    /// The bytes are no well-formed terminfo entry.
    Invalid(Error),
}

/// A parsed terminfo database entry.
///
/// A capability is keyed by its position in the vocabulary of its kind (see
/// [`names`]); a capability that the entry marks as absent has no key.
#[derive(Debug, Clone, PartialEq, Eq)]
pub struct TermInfo {
    /// Names for the terminal.
    pub names: Vec<String>,
    /// Map of boolean capability to its flag.
    pub bools: HashMap<u16, bool>,
    /// Map of numeric capability to its value.
    pub numbers: HashMap<u16, u32>,
    /// Map of string capability to its raw (unexpanded) string.
    pub strings: HashMap<u16, Vec<u8>>,
}

/// The views of the strings of `v`.
pub open spec fn string_views(v: Seq<String>) -> Seq<Seq<char>> {
    Seq::new(v.len(), |i: int| v[i]@)
}

/// The mathematical content of a [`TermInfo`].
pub struct TermInfoView {
    pub names: Seq<Seq<char>>,
    pub bools: Map<u16, bool>,
    pub numbers: Map<u16, u32>,
    pub strings: Map<u16, Seq<u8>>,
}

impl TermInfoView {
    /// Whether the table is one that an entry can hold: it has a name, every
    /// capability in it belongs to the vocabulary of its kind, and every flag
    /// in it is set.
    pub open spec fn well_formed(self) -> bool {
        &&& self.names.len() >= 1
        &&& forall|k: u16| #[trigger] self.bools.contains_key(k) ==> k < BOOL_COUNT && self.bools[k]
        &&& forall|k: u16| #[trigger] self.numbers.contains_key(k) ==> k < NUMBER_COUNT
        &&& forall|k: u16| #[trigger] self.strings.contains_key(k) ==> k < STRING_COUNT
    }
}

impl View for TermInfo {
    type V = TermInfoView;

    open spec fn view(&self) -> TermInfoView {
        TermInfoView {
            names: string_views(self.names@),
            bools: self.bools@,
            numbers: self.numbers@,
            strings: Map::new(
                |k: u16| self.strings@.contains_key(k),
                |k: u16| self.strings@[k]@,
            ),
        }
    }
}

impl TermInfo {
    /// Create a TermInfo for the named terminal: the table of the entry that
    /// the database holds for it, `NotFound` when it holds none.
    pub fn from_name(name: &str, db: &Database) -> (r: Result<TermInfo, LoadError>)
        ensures
            match resolved(*db, name@) {
                Some(path) => db.content(path) is Some && parsed_as(db.content(path).unwrap(), r),
                None => r matches Err(e) && e == LoadError::NotFound,
            },
            r matches Ok(t) ==> t@.well_formed(),
    {
        match get_dbpath_for_term(name, db) {
            Some(path) => {
                proof {
                    crate::searcher::lemma_first_held_is_held(
                        *db,
                        crate::searcher::candidates(string_views(db.roots@), name@),
                        0,
                    );
                }
                TermInfo::from_path(path.as_str(), db)
            },
            None => Err(LoadError::NotFound),
        }
    }

    /// Parse the TermInfo of the file at `path`; `NotFound` when the database
    /// holds no such file.
    pub fn from_path(path: &str, db: &Database) -> (r: Result<TermInfo, LoadError>)
        ensures
            match db.content(path@) {
                Some(bytes) => parsed_as(bytes, r),
                None => r matches Err(e) && e == LoadError::NotFound,
            },
            r matches Ok(t) ==> t@.well_formed(),
    {
        match db.read(path) {
            Some(bytes) => parse(bytes.as_slice()),
            None => Err(LoadError::NotFound),
        }
    }

    /// Whether the boolean capability called `name` is set.
    pub fn flag(&self, name: &str) -> (r: bool)
        ensures
            r == match place(BOOL_NAMES@, name@) {
                Some(i) => self@.bools.contains_key(i as u16) && self@.bools[i as u16],
                None => false,
            },
    {
        match bool_index(name) {
            Some(i) => match self.bools.get(&i) {
                Some(b) => *b,
                None => false,
            },
            None => false,
        }
    }

    /// The value of the numeric capability called `name`.
    pub fn number(&self, name: &str) -> (r: Option<u32>)
        ensures
            r == match place(NUMBER_NAMES@, name@) {
                Some(i) => if self@.numbers.contains_key(i as u16) {
                    Some(self@.numbers[i as u16])
                } else {
                    None
                },
                None => None,
            },
    {
        match number_index(name) {
            Some(i) => match self.numbers.get(&i) {
                Some(n) => Some(*n),
                None => None,
            },
            None => None,
        }
    }

    /// The raw string of the string capability called `name`.
    pub fn string(&self, name: &str) -> (r: Option<&Vec<u8>>)
        ensures
            match place(STRING_NAMES@, name@) {
                Some(i) => if self@.strings.contains_key(i as u16) {
                    r matches Some(s) && s@ == self@.strings[i as u16]
                } else {
                    r is None
                },
                None => r is None,
            },
    {
        match string_index(name) {
            Some(i) => self.strings.get(&i),
            None => None,
        }
    }
}

/// What says in words what is wrong with an entry.
pub open spec fn description_of(e: Error) -> Seq<char> {
    match e {
        Error::BadMagic(_) => "incorrect magic number at start of file"@,
        Error::NotUtf8(_) => "invalid utf-8: corrupt contents"@,
        Error::ShortNames => "no names exposed, need at least one"@,
        Error::TooManyBools => "more boolean properties than libterm knows about"@,
        Error::TooManyNumbers => "more number properties than libterm knows about"@,
        Error::TooManyStrings => "more string properties than libterm knows about"@,
        Error::InvalidLength => "invalid length field value, must be >= -1"@,
        Error::NamesMissingNull => "names table missing NUL terminator"@,
        Error::StringsMissingNull => "string table missing NUL terminator"@,
    }
}

/// The message of a UTF-8 failure, which is the one that the standard
/// library gives for its own UTF-8 error.
pub open spec fn utf8_message_of(f: Utf8Failure) -> Seq<char> {
    match f.error_len {
        Some(n) => "invalid utf-8 sequence of "@ + numeral(n as int, 10) + " bytes from index "@
            + numeral(f.valid_up_to as int, 10),
        None => "incomplete utf-8 byte sequence from index "@ + numeral(f.valid_up_to as int, 10),
    }
}

/// The message of an error: for a wrong magic number it holds the number,
/// for names that are not UTF-8 it is the message of the failure that lies
/// under the error, else it is the description.
pub open spec fn message_of(e: Error) -> Seq<char> {
    match e {
        Error::BadMagic(v) => "bad magic number "@ + numeral(v as int, 16)
            + " in terminfo header"@,
        Error::NotUtf8(f) => utf8_message_of(f),
        _ => description_of(e),
    }
}

impl Error {
    /// What is wrong, in words.
    pub fn description(&self) -> (r: &'static str)
        ensures
            r@ == description_of(*self),
    {
        match self {
            Error::BadMagic(_) => "incorrect magic number at start of file",
            Error::NotUtf8(_) => "invalid utf-8: corrupt contents",
            Error::ShortNames => "no names exposed, need at least one",
            Error::TooManyBools => "more boolean properties than libterm knows about",
            Error::TooManyNumbers => "more number properties than libterm knows about",
            Error::TooManyStrings => "more string properties than libterm knows about",
            Error::InvalidLength => "invalid length field value, must be >= -1",
            Error::NamesMissingNull => "names table missing NUL terminator",
            Error::StringsMissingNull => "string table missing NUL terminator",
        }
    }

    /// The message of the error.
    pub fn to_string(&self) -> (r: String)
        ensures
            r@ == message_of(*self),
    {
        match self {
            Error::BadMagic(v) => {
                let mut r: String = String::from_str("bad magic number ");
                push_numeral(&mut r, *v as usize, 16);
                r.append(" in terminfo header");
                r
            },
            Error::NotUtf8(f) => match f.error_len {
                Some(n) => {
                    let mut r: String = String::from_str("invalid utf-8 sequence of ");
                    push_numeral(&mut r, n, 10);
                    r.append(" bytes from index ");
                    push_numeral(&mut r, f.valid_up_to, 10);
                    r
                },
                None => {
                    let mut r: String = String::from_str(
                        "incomplete utf-8 byte sequence from index ",
                    );
                    push_numeral(&mut r, f.valid_up_to, 10);
                    r
                },
            },
            _ => String::from_str(self.description()),
        }
    }

    /// The failure that lies under the error: where the names stop being
    /// UTF-8, for `NotUtf8`; none for the others.
    pub fn cause(&self) -> (r: Option<Utf8Failure>)
        ensures
            r == match *self {
                Error::NotUtf8(f) => Some(f),
                _ => None,
            },
    {
        match self {
            Error::NotUtf8(f) => Some(*f),
            _ => None,
        }
    }
}

impl From<Utf8Failure> for Error {
    fn from(v: Utf8Failure) -> (e: Error) {
        Error::NotUtf8(v)
    }
}

impl vstd::std_specs::convert::FromSpecImpl<Utf8Failure> for Error {
    open spec fn obeys_from_spec() -> bool {
        true
    }

    open spec fn from_spec(v: Utf8Failure) -> Error {
        Error::NotUtf8(v)
    }
}

impl From<Error> for LoadError {
    fn from(e: Error) -> (r: LoadError) {
        LoadError::Invalid(e)
    }
}

impl vstd::std_specs::convert::FromSpecImpl<Error> for LoadError {
    open spec fn obeys_from_spec() -> bool {
        true
    }

    open spec fn from_spec(e: Error) -> LoadError {
        LoadError::Invalid(e)
    }
}

} // verus!

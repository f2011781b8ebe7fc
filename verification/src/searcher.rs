//! Where the entry of a terminal is looked for.
//!
//! The database is a list of root directories, searched in order. Below a
//! root the entry of a terminal is a file called by the terminal's name, in a
//! directory called by the first character of that name or, on some
//! installations, by the first byte of the name as two hexadecimal digits:
//! `x/xterm` or `78/xterm`. Below each root the first form is tried before
//! the second.
//!
//! Nothing here reads a directory: the files that exist are handed over in a
//! [`Database`].

use crate::string_views;
use crate::text::{hex_digit, hex_digit_text, same_text};
use vstd::prelude::*;
use vstd::string::{StrSliceExecFns, StringExecFns};
use vstd::utf8::encode_utf8;

verus! {

/// The system directories that hold terminfo entries, in the order in which
/// they are searched.
pub const SYSTEM_ROOTS: [&'static str; 3] = ["/etc/terminfo", "/lib/terminfo", "/usr/share/terminfo"];

/// A snapshot of the terminfo database.
pub struct Database {
    /// The root directories, the first searched first.
    pub roots: Vec<String>,
    /// The regular files below the roots: the path and the content of each.
    pub files: Vec<(String, Vec<u8>)>,
}

impl Database {
    /// The first place from `j` on at which `files` holds a file at `path`.
    pub open spec fn place_from(self, path: Seq<char>, j: int) -> Option<int>
        decreases self.files@.len() - j,
    {
        if j < 0 || j >= self.files@.len() {
            None
        } else if self.files@[j].0@ == path {
            Some(j)
        } else {
            self.place_from(path, j + 1)
        }
    }

    /// The content of the file at `path`; none when there is no such file.
    pub open spec fn content(self, path: Seq<char>) -> Option<Seq<u8>> {
        match self.place_from(path, 0) {
            Some(j) => Some(self.files@[j].1@),
            None => None,
        }
    }

    /// The content of the file at `path`.
    pub fn read(&self, path: &str) -> (r: Option<&Vec<u8>>)
        ensures
            match r {
                Some(bytes) => self.content(path@) == Some(bytes@),
                None => self.content(path@) is None,
            },
    {
        let mut j: usize = 0;
        while j < self.files.len()
            invariant
                j <= self.files@.len(),
                self.place_from(path@, 0) == self.place_from(path@, j as int),
            decreases self.files@.len() - j,
        {
            if same_text(self.files[j].0.as_str(), path) {
                return Some(&self.files[j].1);
            }
            j = j + 1;
        }
        None
    }
}

/// The path of the entry of `name` below `root`, in the directory called by
/// the first character of `name`.
pub open spec fn letter_path(root: Seq<char>, name: Seq<char>) -> Seq<char> {
    root + seq!['/'] + seq![name[0]] + seq!['/'] + name
}

/// The path of the entry of `name` below `root`, in the directory called by
/// the first byte of `name` as two hexadecimal digits.
pub open spec fn hex_path(root: Seq<char>, name: Seq<char>) -> Seq<char> {
    let first = encode_utf8(name)[0];
    root + seq!['/'] + seq![hex_digit(first as int / 16), hex_digit(first as int % 16)] + seq![
        '/',
    ] + name
}

/// The paths at which the entry of `name` is looked for, in order: below each
/// root the path by letter, then the path by hexadecimal digits. None for the
/// empty name.
pub open spec fn candidates(roots: Seq<Seq<char>>, name: Seq<char>) -> Seq<Seq<char>> {
    if name.len() == 0 {
        seq![]
    } else {
        Seq::new(
            2 * roots.len(),
            |k: int|
                if k % 2 == 0 {
                    letter_path(roots[k / 2], name)
                } else {
                    hex_path(roots[k / 2], name)
                },
        )
    }
}

/// The first of `paths`, from the place `k` on, at which the database holds a
/// file.
pub open spec fn first_held(db: Database, paths: Seq<Seq<char>>, k: int) -> Option<Seq<char>>
    decreases paths.len() - k,
{
    if k < 0 || k >= paths.len() {
        None
    } else if db.content(paths[k]) is Some {
        Some(paths[k])
    } else {
        first_held(db, paths, k + 1)
    }
}

/// The path of the entry of the terminal `name`: the first of its candidates
/// at which the database holds a file.
pub open spec fn resolved(db: Database, name: Seq<char>) -> Option<Seq<char>> {
    first_held(db, candidates(string_views(db.roots@), name), 0)
}

/// The root directories to search: the override directory, where there is
/// one, and then the system directories.
pub fn search_roots(override_dir: Option<&str>) -> (r: Vec<String>)
    ensures
        string_views(r@) == (match override_dir {
            Some(dir) => seq![dir@],
            None => seq![],
        }) + seq![SYSTEM_ROOTS[0]@, SYSTEM_ROOTS[1]@, SYSTEM_ROOTS[2]@],
{
    let mut r: Vec<String> = Vec::new();
    match override_dir {
        Some(dir) => {
            r.push(String::from_str(dir));
        },
        None => {},
    }
    r.push(String::from_str(SYSTEM_ROOTS[0]));
    r.push(String::from_str(SYSTEM_ROOTS[1]));
    r.push(String::from_str(SYSTEM_ROOTS[2]));
    r
}

/// The paths at which the entry of `name` is looked for below `roots`.
pub fn candidate_paths(roots: &Vec<String>, name: &str) -> (r: Vec<String>)
    ensures
        string_views(r@) == candidates(string_views(roots@), name@),
{
    let mut r: Vec<String> = Vec::new();
    if name.is_empty() {
        return r;
    }
    proof {
        reveal_strlit("/");
    }
    let letter: &str = name.substring_char(0, 1);
    let first: u8 = name.as_bytes()[0];
    let high: &'static str = hex_digit_text(first / 16);
    let low: &'static str = hex_digit_text(first % 16);
    let mut i: usize = 0;
    while i < roots.len()
        invariant
            i <= roots@.len(),
            name@.len() > 0,
            "/"@ == seq!['/'],
            letter@ == seq![name@[0]],
            first == encode_utf8(name@)[0],
            high@ == seq![hex_digit(first as int / 16)],
            low@ == seq![hex_digit(first as int % 16)],
            r@.len() == 2 * i,
            forall|k: int|
                0 <= k < 2 * i ==> (#[trigger] r@[k])@ == candidates(
                    string_views(roots@),
                    name@,
                )[k],
        decreases roots@.len() - i,
    {
        let root: &str = roots[i].as_str();
        let mut by_letter: String = String::from_str(root);
        by_letter.append("/");
        by_letter.append(letter);
        by_letter.append("/");
        by_letter.append(name);
        let mut by_hex: String = String::from_str(root);
        by_hex.append("/");
        by_hex.append(high);
        by_hex.append(low);
        by_hex.append("/");
        by_hex.append(name);
        r.push(by_letter);
        r.push(by_hex);
        i = i + 1;
    }
    r
}

/// Return path to database entry for `term`: the first of its candidates at
/// which the database holds a file.
pub fn get_dbpath_for_term(term: &str, db: &Database) -> (r: Option<String>)
    ensures
        match r {
            Some(path) => resolved(*db, term@) == Some(path@),
            None => resolved(*db, term@) is None,
        },
{
    let paths: Vec<String> = candidate_paths(&db.roots, term);
    let mut k: usize = 0;
    while k < paths.len()
        invariant
            k <= paths@.len(),
            string_views(paths@) == candidates(string_views(db.roots@), term@),
            resolved(*db, term@) == first_held(*db, string_views(paths@), k as int),
        decreases paths@.len() - k,
    {
        match db.read(paths[k].as_str()) {
            Some(_) => {
                return Some(paths[k].clone());
            },
            None => {},
        }
        k = k + 1;
    }
    None
}

/// The first path held is one of the paths, and the database holds a file
/// there.
pub proof fn lemma_first_held_is_held(db: Database, paths: Seq<Seq<char>>, k: int)
    requires
        0 <= k,
    ensures
        first_held(db, paths, k) matches Some(path) ==> db.content(path) is Some,
    decreases paths.len() - k,
{
    if k < paths.len() && db.content(paths[k]) is None {
        lemma_first_held_is_held(db, paths, k + 1);
    }
}

/// Below the first root under which the terminal has an entry at all, the
/// path by letter is the one found whenever a file is there, whether or not
/// the path by hexadecimal digits has a file too.
pub proof fn lemma_letter_comes_first(db: Database, name: Seq<char>, i: int)
    requires
        name.len() > 0,
        0 <= i < db.roots@.len(),
        forall|j: int|
            0 <= j < i ==> db.content(letter_path(#[trigger] db.roots@[j]@, name)) is None
                && db.content(hex_path(db.roots@[j]@, name)) is None,
        db.content(letter_path(db.roots@[i]@, name)) is Some,
    ensures
        resolved(db, name) == Some(letter_path(db.roots@[i]@, name)),
{
    lemma_first_held_skips(db, candidates(string_views(db.roots@), name), 0, 2 * i);
}

/// Where the database holds no file at the paths from `k` up to `n`, the
/// first path held from `k` on is the first held from `n` on.
proof fn lemma_first_held_skips(db: Database, paths: Seq<Seq<char>>, k: int, n: int)
    requires
        0 <= k <= n <= paths.len(),
        forall|j: int| k <= j < n ==> db.content(#[trigger] paths[j]) is None,
    ensures
        first_held(db, paths, k) == first_held(db, paths, n),
    decreases n - k,
{
    if k < n {
        lemma_first_held_skips(db, paths, k + 1, n);
    }
}

} // verus!

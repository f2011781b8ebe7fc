//! The capability vocabularies.
//!
//! A capability is known by its place in the vocabulary of its kind, which is
//! the place of its value in a compiled entry. The names are the short names
//! of terminfo(5), in the order of term(5).

use crate::text::same_text;
use vstd::prelude::*;

verus! {

/// Number of boolean capabilities that an entry can hold.
pub const BOOL_COUNT: usize = 44;

/// Number of numeric capabilities that an entry can hold.
pub const NUMBER_COUNT: usize = 39;

/// Number of string capabilities that an entry can hold.
pub const STRING_COUNT: usize = 414;

/// The names of the boolean capabilities.
pub const BOOL_NAMES: [&'static str; 44] = [
    "bw", "am", "xsb", "xhp", "xenl", "eo", "gn", "hc", "km", "hs", "in", "db", "da", "mir",
    "msgr", "os", "eslok", "xt", "hz", "ul", "xon", "nxon", "mc5i", "chts", "nrrmc", "npc",
    "ndscr", "ccc", "bce", "hls", "xhpa", "crxm", "daisy", "xvpa", "sam", "cpix", "lpix",
    "OTbs", "OTns", "OTnc", "OTMT", "OTNL", "OTpt", "OTxr",
];

/// The names of the numeric capabilities.
pub const NUMBER_NAMES: [&'static str; 39] = [
    "cols", "it", "lines", "lm", "xmc", "pb", "vt", "wsl", "nlab", "lh", "lw", "ma", "wnum",
    "colors", "pairs", "ncv", "bufsz", "spinv", "spinh", "maddr", "mjump", "mcs", "mls",
    "npins", "orc", "orl", "orhi", "orvi", "cps", "widcs", "btns", "bitwin", "bitype", "OTug",
    "OTdC", "OTdN", "OTdB", "OTdT", "OTkn",
];

/// The names of the string capabilities.
pub const STRING_NAMES: [&'static str; 414] = [
    "cbt", "bel", "cr", "csr", "tbc", "clear", "el", "ed", "hpa", "cmdch", "cup", "cud1",
    "home", "civis", "cub1", "mrcup", "cnorm", "cuf1", "ll", "cuu1", "cvvis", "dch1", "dl1",
    "dsl", "hd", "smacs", "blink", "bold", "smcup", "smdc", "dim", "smir", "invis", "prot",
    "rev", "smso", "smul", "ech", "rmacs", "sgr0", "rmcup", "rmdc", "rmir", "rmso", "rmul",
    "flash", "ff", "fsl", "is1", "is2", "is3", "if", "ich1", "il1", "ip", "kbs", "ktbc", "kclr",
    "kctab", "kdch1", "kdl1", "kcud1", "krmir", "kel", "ked", "kf0", "kf1", "kf10", "kf2",
    "kf3", "kf4", "kf5", "kf6", "kf7", "kf8", "kf9", "khome", "kich1", "kil1", "kcub1", "kll",
    "knp", "kpp", "kcuf1", "kind", "kri", "khts", "kcuu1", "rmkx", "smkx", "lf0", "lf1", "lf10",
    "lf2", "lf3", "lf4", "lf5", "lf6", "lf7", "lf8", "lf9", "rmm", "smm", "nel", "pad", "dch",
    "dl", "cud", "ich", "indn", "il", "cub", "cuf", "rin", "cuu", "pfkey", "pfloc", "pfx",
    "mc0", "mc4", "mc5", "rep", "rs1", "rs2", "rs3", "rf", "rc", "vpa", "sc", "ind", "ri",
    "sgr", "hts", "wind", "ht", "tsl", "uc", "hu", "iprog", "ka1", "ka3", "kb2", "kc1", "kc3",
    "mc5p", "rmp", "acsc", "pln", "kcbt", "smxon", "rmxon", "smam", "rmam", "xonc", "xoffc",
    "enacs", "smln", "rmln", "kbeg", "kcan", "kclo", "kcmd", "kcpy", "kcrt", "kend", "kent",
    "kext", "kfnd", "khlp", "kmrk", "kmsg", "kmov", "knxt", "kopn", "kopt", "kprv", "kprt",
    "krdo", "kref", "krfr", "krpl", "krst", "kres", "ksav", "kspd", "kund", "kBEG", "kCAN",
    "kCMD", "kCPY", "kCRT", "kDC", "kDL", "kslt", "kEND", "kEOL", "kEXT", "kFND", "kHLP",
    "kHOM", "kIC", "kLFT", "kMSG", "kMOV", "kNXT", "kOPT", "kPRV", "kPRT", "kRDO", "kRPL",
    "kRIT", "kRES", "kSAV", "kSPD", "kUND", "rfi", "kf11", "kf12", "kf13", "kf14", "kf15",
    "kf16", "kf17", "kf18", "kf19", "kf20", "kf21", "kf22", "kf23", "kf24", "kf25", "kf26",
    "kf27", "kf28", "kf29", "kf30", "kf31", "kf32", "kf33", "kf34", "kf35", "kf36", "kf37",
    "kf38", "kf39", "kf40", "kf41", "kf42", "kf43", "kf44", "kf45", "kf46", "kf47", "kf48",
    "kf49", "kf50", "kf51", "kf52", "kf53", "kf54", "kf55", "kf56", "kf57", "kf58", "kf59",
    "kf60", "kf61", "kf62", "kf63", "el1", "mgc", "smgl", "smgr", "fln", "sclk", "dclk",
    "rmclk", "cwin", "wingo", "hup", "dial", "qdial", "tone", "pulse", "hook", "pause", "wait",
    "u0", "u1", "u2", "u3", "u4", "u5", "u6", "u7", "u8", "u9", "op", "oc", "initc", "initp",
    "scp", "setf", "setb", "cpi", "lpi", "chr", "cvr", "defc", "swidm", "sdrfq", "sitm", "slm",
    "smicm", "snlq", "snrmq", "sshm", "ssubm", "ssupm", "sum", "rwidm", "ritm", "rlm", "rmicm",
    "rshm", "rsubm", "rsupm", "rum", "mhpa", "mcud1", "mcub1", "mcuf1", "mvpa", "mcuu1",
    "porder", "mcud", "mcub", "mcuf", "mcuu", "scs", "smgb", "smgbp", "smglp", "smgrp", "smgt",
    "smgtp", "sbim", "scsd", "rbim", "rcsd", "subcs", "supcs", "docr", "zerom", "csnm", "kmous",
    "minfo", "reqmp", "getm", "setaf", "setab", "pfxl", "devt", "csin", "s0ds", "s1ds", "s2ds",
    "s3ds", "smglr", "smgtb", "birep", "binel", "bicr", "colornm", "defbi", "endbi", "setcolor",
    "slines", "dispc", "smpch", "rmpch", "smsc", "rmsc", "pctrm", "scesc", "scesa", "ehhlm",
    "elhlm", "elohlm", "erhlm", "ethlm", "evhlm", "sgr1", "slength", "OTi2", "OTrs", "OTnl",
    "OTbc", "OTko", "OTma", "OTG2", "OTG3", "OTG1", "OTG4", "OTGR", "OTGL", "OTGU", "OTGD",
    "OTGH", "OTGV", "OTGC", "meml", "memu", "box1",
];

/// The first place from `j` on at which `table` holds `name`.
pub open spec fn place_from(table: Seq<&'static str>, name: Seq<char>, j: int) -> Option<int>
    decreases table.len() - j,
{
    if j < 0 || j >= table.len() {
        None
    } else if table[j]@ == name {
        Some(j)
    } else {
        place_from(table, name, j + 1)
    }
}

/// The first place at which `table` holds `name`.
pub open spec fn place(table: Seq<&'static str>, name: Seq<char>) -> Option<int> {
    place_from(table, name, 0)
}

/// A place that was found lies in the table, and the name stands there.
pub proof fn lemma_place_holds_name(table: Seq<&'static str>, name: Seq<char>, j: int)
    requires
        0 <= j,
    ensures
        place_from(table, name, j) matches Some(i) ==> j <= i < table.len() && table[i]@ == name,
    decreases table.len() - j,
{
    if j < table.len() && table[j]@ != name {
        lemma_place_holds_name(table, name, j + 1);
    }
}

/// The first place at which `table` holds `name`.
fn place_of(table: &[&'static str], name: &str) -> (r: Option<usize>)
    ensures
        match r {
            Some(i) => place(table@, name@) == Some(i as int) && i < table@.len(),
            None => place(table@, name@) is None,
        },
{
    let mut i: usize = 0;
    while i < table.len()
        invariant
            i <= table@.len(),
            place(table@, name@) == place_from(table@, name@, i as int),
        decreases table@.len() - i,
    {
        if same_text(table[i], name) {
            return Some(i);
        }
        i = i + 1;
    }
    None
}

/// The name of the boolean capability at `index`.
pub fn bool_name(index: u16) -> (r: Option<&'static str>)
    ensures
        r == if index < BOOL_COUNT {
            Some(BOOL_NAMES[index as int])
        } else {
            None
        },
{
    if (index as usize) < BOOL_COUNT {
        Some(BOOL_NAMES[index as usize])
    } else {
        None
    }
}

/// The name of the numeric capability at `index`.
pub fn number_name(index: u16) -> (r: Option<&'static str>)
    ensures
        r == if index < NUMBER_COUNT {
            Some(NUMBER_NAMES[index as int])
        } else {
            None
        },
{
    if (index as usize) < NUMBER_COUNT {
        Some(NUMBER_NAMES[index as usize])
    } else {
        None
    }
}

/// The name of the string capability at `index`.
pub fn string_name(index: u16) -> (r: Option<&'static str>)
    ensures
        r == if index < STRING_COUNT {
            Some(STRING_NAMES[index as int])
        } else {
            None
        },
{
    if (index as usize) < STRING_COUNT {
        Some(STRING_NAMES[index as usize])
    } else {
        None
    }
}

/// The place of the boolean capability called `name`.
pub fn bool_index(name: &str) -> (r: Option<u16>)
    ensures
        match r {
            Some(i) => place(BOOL_NAMES@, name@) == Some(i as int) && i < BOOL_COUNT
                && BOOL_NAMES[i as int]@ == name@,
            None => place(BOOL_NAMES@, name@) is None,
        },
{
    proof {
        lemma_place_holds_name(BOOL_NAMES@, name@, 0);
    }
    match place_of(BOOL_NAMES.as_slice(), name) {
        Some(i) => Some(i as u16),
        None => None,
    }
}

/// The place of the numeric capability called `name`.
pub fn number_index(name: &str) -> (r: Option<u16>)
    ensures
        match r {
            Some(i) => place(NUMBER_NAMES@, name@) == Some(i as int) && i < NUMBER_COUNT
                && NUMBER_NAMES[i as int]@ == name@,
            None => place(NUMBER_NAMES@, name@) is None,
        },
{
    proof {
        lemma_place_holds_name(NUMBER_NAMES@, name@, 0);
    }
    match place_of(NUMBER_NAMES.as_slice(), name) {
        Some(i) => Some(i as u16),
        None => None,
    }
}

/// The place of the string capability called `name`.
pub fn string_index(name: &str) -> (r: Option<u16>)
    ensures
        match r {
            Some(i) => place(STRING_NAMES@, name@) == Some(i as int) && i < STRING_COUNT
                && STRING_NAMES[i as int]@ == name@,
            None => place(STRING_NAMES@, name@) is None,
        },
{
    proof {
        lemma_place_holds_name(STRING_NAMES@, name@, 0);
    }
    match place_of(STRING_NAMES.as_slice(), name) {
        Some(i) => Some(i as u16),
        None => None,
    }
}

} // verus!

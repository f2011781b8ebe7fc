//! The ASCII characters that escapes are made of, as bytes.

use vstd::prelude::*;

verus! {

/// The space.
pub const SPACE: u8 = 0x20;

/// `!`
pub const BANG: u8 = 0x21;

/// `#`
pub const HASH: u8 = 0x23;

/// `%`
pub const PERCENT: u8 = 0x25;

/// `&`
pub const AMPERSAND: u8 = 0x26;

/// `'`
pub const QUOTE: u8 = 0x27;

/// `*`
pub const STAR: u8 = 0x2A;

/// `+`
pub const PLUS: u8 = 0x2B;

/// `-`
pub const MINUS: u8 = 0x2D;

/// `.`
pub const DOT: u8 = 0x2E;

/// `/`
pub const SLASH: u8 = 0x2F;

/// `0`
pub const DIGIT_0: u8 = 0x30;

/// `1`
pub const DIGIT_1: u8 = 0x31;

/// `9`
pub const DIGIT_9: u8 = 0x39;

/// `:`
pub const COLON: u8 = 0x3A;

/// `;`
pub const SEMICOLON: u8 = 0x3B;

/// `<`
pub const LESS: u8 = 0x3C;

/// `=`
pub const EQUALS: u8 = 0x3D;

/// `>`
pub const GREATER: u8 = 0x3E;

/// `?`
pub const QUESTION: u8 = 0x3F;

/// `A`
pub const UPPER_A: u8 = 0x41;

/// `O`
pub const UPPER_O: u8 = 0x4F;

/// `P`
pub const UPPER_P: u8 = 0x50;

/// `X`
pub const UPPER_X: u8 = 0x58;

/// `Z`
pub const UPPER_Z: u8 = 0x5A;

/// `^`
pub const CARET: u8 = 0x5E;

/// `a`
pub const LOWER_A: u8 = 0x61;

/// `c`
pub const LOWER_C: u8 = 0x63;

/// `d`
pub const LOWER_D: u8 = 0x64;

/// `e`
pub const LOWER_E: u8 = 0x65;

/// `g`
pub const LOWER_G: u8 = 0x67;

/// `i`
pub const LOWER_I: u8 = 0x69;

/// `l`
pub const LOWER_L: u8 = 0x6C;

/// `m`
pub const LOWER_M: u8 = 0x6D;

/// `o`
pub const LOWER_O: u8 = 0x6F;

/// `p`
pub const LOWER_P: u8 = 0x70;

/// `s`
pub const LOWER_S: u8 = 0x73;

/// `t`
pub const LOWER_T: u8 = 0x74;

/// `x`
pub const LOWER_X: u8 = 0x78;

/// `z`
pub const LOWER_Z: u8 = 0x7A;

/// `{`
pub const BRACE_OPEN: u8 = 0x7B;

/// `|`
pub const BAR: u8 = 0x7C;

/// `}`
pub const BRACE_CLOSE: u8 = 0x7D;

/// `~`
pub const TILDE: u8 = 0x7E;

} // verus!

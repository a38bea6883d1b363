//! The ASCII codes that the grammar names.

use vstd::prelude::*;

verus! {

/// Horizontal tab.
pub const TAB: u8 = 0x09;

/// Line feed.
pub const LINE_FEED: u8 = 0x0A;

/// Carriage return.
pub const CARRIAGE_RETURN: u8 = 0x0D;

/// The space character.
pub const BLANK: u8 = 0x20;

/// `"`
pub const QUOTE: u8 = 0x22;

/// `+`
pub const PLUS: u8 = 0x2B;

/// `,`
pub const COMMA: u8 = 0x2C;

/// `-`
pub const MINUS: u8 = 0x2D;

/// `.`
pub const DOT: u8 = 0x2E;

/// `0`
pub const DIGIT_ZERO: u8 = 0x30;

/// `9`
pub const DIGIT_NINE: u8 = 0x39;

/// `:`
pub const COLON: u8 = 0x3A;

/// `E`
pub const UPPER_E: u8 = 0x45;

/// `[`
pub const LEFT_BRACKET: u8 = 0x5B;

/// `\`
pub const BACKSLASH: u8 = 0x5C;

/// `]`
pub const RIGHT_BRACKET: u8 = 0x5D;

/// `a`
pub const LOWER_A: u8 = 0x61;

/// `e`
pub const LOWER_E: u8 = 0x65;

/// `f`
pub const LOWER_F: u8 = 0x66;

/// `l`
pub const LOWER_L: u8 = 0x6C;

/// `n`
pub const LOWER_N: u8 = 0x6E;

/// `r`
pub const LOWER_R: u8 = 0x72;

/// `s`
pub const LOWER_S: u8 = 0x73;

/// `t`
pub const LOWER_T: u8 = 0x74;

/// `u`
pub const LOWER_U: u8 = 0x75;

/// `{`
pub const LEFT_BRACE: u8 = 0x7B;

/// `}`
pub const RIGHT_BRACE: u8 = 0x7D;

} // verus!

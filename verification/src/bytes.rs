//! The bytes that the scanner tells apart, by name.
use vstd::prelude::*;

verus! {

/// `(`
pub const LEFT_PAREN: u8 = 0x28;

/// `)`
pub const RIGHT_PAREN: u8 = 0x29;

/// `{`
pub const LEFT_BRACE: u8 = 0x7b;

/// `}`
pub const RIGHT_BRACE: u8 = 0x7d;

/// `,`
pub const COMMA: u8 = 0x2c;

/// `.`
pub const DOT: u8 = 0x2e;

/// `;`
pub const SEMICOLON: u8 = 0x3b;

/// `?`
pub const QUESTION: u8 = 0x3f;

/// `:`
pub const COLON: u8 = 0x3a;

/// `-`
pub const MINUS: u8 = 0x2d;

/// `+`
pub const PLUS: u8 = 0x2b;

/// `*`
pub const STAR: u8 = 0x2a;

/// `!`
pub const BANG: u8 = 0x21;

/// `=`
pub const EQUAL: u8 = 0x3d;

/// `<`
pub const LESS: u8 = 0x3c;

/// `>`
pub const GREATER: u8 = 0x3e;

/// `/`
pub const SLASH: u8 = 0x2f;

/// A space
pub const SPACE: u8 = 0x20;

/// A tab
pub const TAB: u8 = 0x09;

/// A carriage return
pub const RETURN: u8 = 0x0d;

/// A newline
pub const NEWLINE: u8 = 0x0a;

/// `"`
pub const DOUBLE_QUOTE: u8 = 0x22;

/// `'`
pub const SINGLE_QUOTE: u8 = 0x27;

/// `0`
pub const DIGIT_0: u8 = 0x30;

/// `9`
pub const DIGIT_9: u8 = 0x39;

/// `A`
pub const UPPER_A: u8 = 0x41;

/// `Z`
pub const UPPER_Z: u8 = 0x5a;

/// `a`
pub const LOWER_A: u8 = 0x61;

/// `z`
pub const LOWER_Z: u8 = 0x7a;

/// `_`
pub const UNDERSCORE: u8 = 0x5f;

} // verus!

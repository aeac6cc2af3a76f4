//! Helpers on strings and on the bytes that encode them.
use vstd::prelude::*;
use vstd::string::*;
use vstd::utf8::*;
use crate::bytes::{DIGIT_0, DIGIT_9, LOWER_A, LOWER_Z, UNDERSCORE, UPPER_A, UPPER_Z};

verus! {

/// Whether the byte is a decimal digit.
pub open spec fn is_digit(byte: u8) -> bool {
    DIGIT_0 <= byte <= DIGIT_9
}

/// Whether the byte is a letter of the Latin alphabet.
pub open spec fn is_alpha(byte: u8) -> bool {
    (UPPER_A <= byte <= UPPER_Z) || (LOWER_A <= byte <= LOWER_Z)
}

/// The classes of bytes that a lexeme may run over.
#[derive(Clone, Copy, Debug, PartialEq, Eq, Structural)]
pub enum ByteClass {
    /// A decimal digit.
    Digit,
    /// A letter, a digit or `_`.
    Word,
    /// Any byte but the given one.
    Except(u8),
    /// A byte that continues a character begun earlier.
    Continuation,
}

impl ByteClass {
    /// Whether the byte is of the class.
    pub open spec fn holds(self, byte: u8) -> bool {
        match self {
            ByteClass::Digit => is_digit(byte),
            ByteClass::Word => is_alpha(byte) || is_digit(byte) || byte == UNDERSCORE,
            ByteClass::Except(other) => byte != other,
            ByteClass::Continuation => is_continuation_byte(byte),
        }
    }
}

/// How many bytes from `pos` on are of the class `class` without a break.
pub open spec fn run_length(src: Seq<u8>, pos: nat, class: ByteClass) -> nat
    decreases src.len() - pos,
{
    if pos < src.len() && class.holds(src[pos as int]) {
        1 + run_length(src, pos + 1, class)
    } else {
        0
    }
}

/// The first position from `pos` on whose byte is not in `class`, or the
/// length of the source.
pub open spec fn run_end(src: Seq<u8>, pos: nat, class: ByteClass) -> nat {
    pos + run_length(src, pos, class)
}

/// How many bytes of the source are left at `pos`.
pub open spec fn left_from(src: Seq<u8>, pos: nat) -> nat {
    if pos < src.len() {
        (src.len() - pos) as nat
    } else {
        0
    }
}

/// The text that the bytes from `from` up to `to` spell.
pub open spec fn text_of(src: Seq<u8>, from: nat, to: nat) -> Seq<char> {
    decode_utf8(src.subrange(from as int, to as int))
}

/// Where a run ends, and what lies before its end.
pub proof fn lemma_run_end(src: Seq<u8>, pos: nat, class: ByteClass)
    ensures
        pos <= run_end(src, pos, class),
        pos <= src.len() ==> run_end(src, pos, class) <= src.len(),
        forall|i: int| pos <= i < run_end(src, pos, class) ==> class.holds(#[trigger] src[i]),
        run_end(src, pos, class) < src.len() ==> !class.holds(src[run_end(src, pos, class) as int]),
    decreases src.len() - pos,
{
    if pos < src.len() && class.holds(src[pos as int]) {
        lemma_run_end(src, pos + 1, class);
    }
}

impl ByteClass {
    /// Whether the byte is of the class.
    pub fn test(self, byte: u8) -> (held: bool)
        ensures
            held == self.holds(byte),
    {
        match self {
            ByteClass::Digit => DIGIT_0 <= byte && byte <= DIGIT_9,
            ByteClass::Word => is_letter(byte) || (DIGIT_0 <= byte && byte <= DIGIT_9) || byte
                == UNDERSCORE,
            ByteClass::Except(other) => byte != other,
            ByteClass::Continuation => 0x80 <= byte && byte <= 0xbf,
        }
    }
}

/// Whether the byte is a letter.
pub fn is_letter(byte: u8) -> (letter: bool)
    ensures
        letter == is_alpha(byte),
{
    (UPPER_A <= byte && byte <= UPPER_Z) || (LOWER_A <= byte && byte <= LOWER_Z)
}

/// In valid UTF-8, the position after an ASCII byte that starts a character
/// starts a character too, or is the end.
pub proof fn lemma_boundary_after_ascii(bytes: Seq<u8>, i: int)
    requires
        valid_utf8(bytes),
        0 <= i < bytes.len(),
        bytes[i] < 0x80,
    ensures
        is_char_boundary(bytes, i),
        is_char_boundary(bytes, i + 1),
{
    is_char_boundary_iff_not_is_continuation_byte(bytes, i);
    valid_utf8_split(bytes, i);
    let tail = bytes.subrange(i, bytes.len() as int);
    assert(tail[0] == bytes[i]);
    assert(valid_first_scalar(tail));
    assert(length_of_first_scalar(tail) == 1);
    let after = pop_first_scalar(tail);
    assert(after =~= bytes.subrange(i + 1, bytes.len() as int));
    assert(valid_utf8(after));
    if i + 1 == bytes.len() {
        is_char_boundary_start_end_of_seq(bytes);
    } else {
        assert(after.len() > 0);
        assert(after[0] == bytes[i + 1]);
        assert(valid_first_scalar(after));
        is_char_boundary_iff_not_is_continuation_byte(bytes, i + 1);
    }
}

/// Whether two strings hold the same characters.
pub fn same_text(a: &str, b: &str) -> (same: bool)
    ensures
        same == (a@ == b@),
{
    broadcast use encode_utf8_decode_utf8;

    let left = a.as_bytes();
    let right = b.as_bytes();
    if left.len() != right.len() {
        return false;
    }
    let mut i: usize = 0;
    while i < left.len()
        invariant
            i <= left.len(),
            left.len() == right.len(),
            left@ == encode_utf8(a@),
            right@ == encode_utf8(b@),
            forall|j: int| 0 <= j < i ==> left@[j] == right@[j],
        decreases left.len() - i,
    {
        if left[i] != right[i] {
            return false;
        }
        i += 1;
    }
    assert(left@ =~= right@);
    assert(decode_utf8(encode_utf8(a@)) == a@);
    assert(decode_utf8(encode_utf8(b@)) == b@);
    true
}

/// The part of `source` from byte `from` up to byte `to`, as a string of its
/// own.
pub fn slice_text(source: &str, from: usize, to: usize) -> (part: String)
    requires
        from <= to <= source.spec_bytes().len(),
        is_char_boundary(source.spec_bytes(), from as int),
        is_char_boundary(source.spec_bytes(), to as int),
    ensures
        part@ == decode_utf8(source.spec_bytes().subrange(from as int, to as int)),
{
    broadcast use encode_utf8_decode_utf8, encode_utf8_valid_utf8;

    let ghost bytes = source.spec_bytes();
    let (head, _) = source.split_at(to);
    proof {
        assert(head.spec_bytes() == bytes.subrange(0, to as int));
        if from < to {
            if to < bytes.len() {
                is_char_boundary_iff_not_is_continuation_byte(bytes, from as int);
                is_char_boundary_iff_not_is_continuation_byte(head.spec_bytes(), from as int);
            } else {
                assert(head.spec_bytes() =~= bytes);
            }
            if to < bytes.len() {
                assert(head.spec_bytes()[from as int] == bytes[from as int]);
            }
        } else {
            is_char_boundary_start_end_of_seq(head.spec_bytes());
        }
    }
    let (_, part) = head.split_at(from);
    proof {
        assert(part.spec_bytes() =~= bytes.subrange(from as int, to as int));
        assert(decode_utf8(encode_utf8(part@)) == part@);
    }
    part.to_owned()
}

/// The decimal digits of a number.
pub open spec fn decimal(n: nat) -> Seq<char>
    decreases n,
{
    let digit = if n % 10 == 0 {
        "0"@
    } else if n % 10 == 1 {
        "1"@
    } else if n % 10 == 2 {
        "2"@
    } else if n % 10 == 3 {
        "3"@
    } else if n % 10 == 4 {
        "4"@
    } else if n % 10 == 5 {
        "5"@
    } else if n % 10 == 6 {
        "6"@
    } else if n % 10 == 7 {
        "7"@
    } else if n % 10 == 8 {
        "8"@
    } else {
        "9"@
    };
    if n < 10 {
        digit
    } else {
        decimal(n / 10) + digit
    }
}

/// The decimal digits of a number.
pub fn decimal_text(n: usize) -> (text: String)
    ensures
        text@ == decimal(n as nat),
    decreases n,
{
    let last = n % 10;
    let digit = if last == 0 {
        "0"
    } else if last == 1 {
        "1"
    } else if last == 2 {
        "2"
    } else if last == 3 {
        "3"
    } else if last == 4 {
        "4"
    } else if last == 5 {
        "5"
    } else if last == 6 {
        "6"
    } else if last == 7 {
        "7"
    } else if last == 8 {
        "8"
    } else {
        "9"
    };
    if n < 10 {
        String::from_str(digit)
    } else {
        let mut text = decimal_text(n / 10);
        text.append(digit);
        text
    }
}

/// What is left of a text without the whitespace at its two ends.
pub uninterp spec fn trimmed(text: Seq<char>) -> Seq<char>;

/// `str::trim` of std: the text without its leading and trailing
/// whitespace, which is what `trimmed` names. Which characters are
/// whitespace is a table of Unicode and is not stated here.
#[verifier::external_body]
pub(crate) fn trim_text(text: &str) -> (result: String)
    ensures
        result@ == trimmed(text@),
{
    text.trim().to_owned()
}

} // verus!

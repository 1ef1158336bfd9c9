use vstd::prelude::*;
use vstd::utf8::encode_scalar;
use crate::printable_error::PrintableError;
use crate::text::{string_push, join3};

verus! {

/// Why a string literal could not be read.
#[derive(Debug, Clone, Copy, PartialEq, Eq, Structural)]
pub enum LiteralError {
    /// A backslash followed by a character that starts no escape sequence.
    UnknownEscape(char),
    /// A raw new line inside the literal.
    NewLine,
    /// The input ended before the closing quote.
    Unterminated,
}

pub open spec fn is_octal_char(c: char) -> bool {
    '0' <= c && c <= '7'
}

pub open spec fn octal_value(c: char) -> int {
    c as int - '0' as int
}

/// Three octal digits read as one byte, saturating at 255.
pub open spec fn octal_byte(d1: int, d2: int, d3: int) -> u8 {
    if 64 * d1 + 8 * d2 + d3 > 255 { 255 } else { (64 * d1 + 8 * d2 + d3) as u8 }
}

/// The byte a simple one-character escape stands for, if `c` starts one.
pub open spec fn simple_escape(c: char) -> Option<u8> {
    if c == '\\' { Some(0x5c) }
    else if c == '"' { Some(0x22) }
    else if c == '/' { Some(0x2f) }
    else if c == 'a' { Some(0x7) }
    else if c == 'b' { Some(0x8) }
    else if c == 't' { Some(0x9) }
    else if c == 'n' { Some(0xa) }
    else if c == 'v' { Some(0xb) }
    else if c == 'f' { Some(0xc) }
    else if c == 'r' { Some(0xd) }
    else { None }
}

/// An octal escape whose first digit `d1` is already read: up to two more
/// octal digits from position `j` on are taken. Gives the byte and the
/// position after the escape.
pub open spec fn octal_escape_spec(chars: Seq<char>, j: int, d1: int) -> (u8, int) {
    if j < chars.len() && is_octal_char(chars[j]) {
        if j + 1 < chars.len() && is_octal_char(chars[j + 1]) {
            (octal_byte(d1, octal_value(chars[j]), octal_value(chars[j + 1])), j + 2)
        } else {
            (octal_byte(0, d1, octal_value(chars[j])), j + 1)
        }
    } else {
        (octal_byte(0, 0, d1), j)
    }
}

/// Reads a string literal body from position `i`, whose opening quote is
/// already consumed: the bytes it stands for and the position after the
/// closing quote.
pub open spec fn decode_literal(chars: Seq<char>, i: int) -> Result<(Seq<u8>, int), LiteralError>
    decreases chars.len() - i,
{
    if i < 0 || i >= chars.len() {
        Err(LiteralError::Unterminated)
    } else {
        let c = chars[i];
        if c == '\\' {
            if i + 1 >= chars.len() {
                Err(LiteralError::Unterminated)
            } else {
                let e = chars[i + 1];
                let step: Option<(u8, int)> = if simple_escape(e) is Some {
                    Some((simple_escape(e)->0, i + 2))
                } else if is_octal_char(e) {
                    Some(octal_escape_spec(chars, i + 2, octal_value(e)))
                } else {
                    None
                };
                match step {
                    None => Err(LiteralError::UnknownEscape(e)),
                    Some((b, next)) => if next > i {
                        match decode_literal(chars, next) {
                            Ok((rest, end)) => Ok((seq![b] + rest, end)),
                            Err(err) => Err(err),
                        }
                    } else {
                        Err(LiteralError::Unterminated)
                    },
                }
            }
        } else if c == '"' {
            Ok((Seq::empty(), i + 1))
        } else if c == '\n' {
            Err(LiteralError::NewLine)
        } else {
            match decode_literal(chars, i + 1) {
                Ok((rest, end)) => Ok((encode_scalar(c as u32) + rest, end)),
                Err(err) => Err(err),
            }
        }
    }
}

/// The message shown for each way a literal can be wrong.
pub open spec fn literal_error_message(e: LiteralError) -> Seq<char> {
    match e {
        LiteralError::UnknownEscape(c) => seq!['\\', c] + " is not a known ask escape sequence"@,
        LiteralError::NewLine => "String literals may not contains a new line"@,
        LiteralError::Unterminated => "Unterminated string literal"@,
    }
}

/// Three octal digits (each at most 7) as one byte, saturating at 255.
pub fn saturating_octal_parse(char1: u8, char2: u8, char3: u8) -> (r: u8)
    requires
        char1 <= 7,
        char2 <= 7,
        char3 <= 7,
    ensures
        r == octal_byte(char1 as int, char2 as int, char3 as int),
{
    let total: u16 = char1 as u16 * 64 + char2 as u16 * 8 + char3 as u16;
    if total > 255 { 255 } else { total as u8 }
}

/// The value of the octal digit at `pos`, if there is one.
fn next_is_octal(characters: &[char], pos: usize) -> (r: Option<u8>)
    ensures
        characters@.len() <= usize::MAX,
        r is Some <==> pos < characters@.len() && is_octal_char(characters@[pos as int]),
        r matches Some(d) ==> d == octal_value(characters@[pos as int]),
{
    if pos < characters.len() {
        let c = characters[pos];
        if '0' <= c && c <= '7' {
            return Some((c as u32 - '0' as u32) as u8);
        }
    }
    None
}

/// Reads the rest of an octal escape whose first digit is `char1`.
fn octal_escape(char1: u8, characters: &[char], pos: usize) -> (r: (u8, usize))
    requires
        char1 <= 7,
        pos <= characters@.len(),
    ensures
        (r.0, r.1 as int) == octal_escape_spec(characters@, pos as int, char1 as int),
{
    if let Some(char2) = next_is_octal(characters, pos) {
        if let Some(char3) = next_is_octal(characters, pos + 1) {
            (saturating_octal_parse(char1, char2, char3), pos + 2)
        } else {
            (saturating_octal_parse(0, char1, char2), pos + 1)
        }
    } else {
        (saturating_octal_parse(0, 0, char1), pos)
    }
}

fn escape_byte(c: char) -> (r: Option<u8>)
    ensures
        r == simple_escape(c),
{
    if c == '\\' { Some(0x5c) }
    else if c == '"' { Some(0x22) }
    else if c == '/' { Some(0x2f) }
    else if c == 'a' { Some(0x7) }
    else if c == 'b' { Some(0x8) }
    else if c == 't' { Some(0x9) }
    else if c == 'n' { Some(0xa) }
    else if c == 'v' { Some(0xb) }
    else if c == 'f' { Some(0xc) }
    else if c == 'r' { Some(0xd) }
    else { None }
}

fn literal_error(e: LiteralError) -> (p: PrintableError)
    ensures
        p.msg@ == literal_error_message(e),
{
    match e {
        LiteralError::UnknownEscape(c) => {
            let mut head = String::new();
            string_push(&mut head, '\\');
            string_push(&mut head, c);
            let msg = join3("", &head, " is not a known ask escape sequence");
            proof {
                reveal_strlit("");
                assert(head@ =~= seq!['\\', c]);
                assert(msg@ =~= seq!['\\', c] + " is not a known ask escape sequence"@);
            }
            PrintableError::new(msg)
        },
        LiteralError::NewLine => PrintableError::new(String::from_str("String literals may not contains a new line")),
        LiteralError::Unterminated => PrintableError::new(String::from_str("Unterminated string literal")),
    }
}

/// Reads the body of a string literal from `start` on, its opening quote
/// already consumed, decoding escape sequences (including octal ones, which
/// saturate at 255). Gives the bytes and the position after the closing
/// quote, or the error `decode_literal` names.
pub fn escaped_string_reader(characters: &[char], start: usize) -> (r: Result<(Vec<u8>, usize), PrintableError>)
    requires
        start <= characters@.len(),
    ensures
        match decode_literal(characters@, start as int) {
            Ok((bytes, end)) => r matches Ok((v, n)) && v@ == bytes && n == end,
            Err(e) => r matches Err(p) && p.msg@ == literal_error_message(e),
        },
{
    let mut output: Vec<u8> = Vec::new();
    let mut i = start;
    let n = characters.len();
    while i < n
        invariant
            n == characters@.len(),
            start <= i <= n,
            decode_literal(characters@, start as int) == (match decode_literal(characters@, i as int) {
                Ok((rest, end)) => Ok((output@ + rest, end)),
                Err(err) => Err(err),
            }),
        decreases n - i,
    {
        let c = characters[i];
        if c == '\\' {
            if i + 1 >= n {
                return Err(literal_error(LiteralError::Unterminated));
            }
            let e = characters[i + 1];
            let ghost old_out = output@;
            match escape_byte(e) {
                Some(b) => {
                    output.push(b);
                    i = i + 2;
                    proof {
                        assert(output@ == old_out + seq![b]);
                        match decode_literal(characters@, i as int) {
                            Ok((rest, end)) => assert(old_out + (seq![b] + rest) =~= output@ + rest),
                            Err(err) => {},
                        }
                    }
                },
                None => {
                    if '0' <= e && e <= '7' {
                        let (b, next) = octal_escape((e as u32 - '0' as u32) as u8, characters, i + 2);
                        output.push(b);
                        i = next;
                        proof {
                            assert(output@ == old_out + seq![b]);
                            match decode_literal(characters@, i as int) {
                                Ok((rest, end)) => assert(old_out + (seq![b] + rest) =~= output@ + rest),
                                Err(err) => {},
                            }
                        }
                    } else {
                        return Err(literal_error(LiteralError::UnknownEscape(e)));
                    }
                },
            }
        } else if c == '"' {
            assert(output@ + Seq::<u8>::empty() =~= output@);
            return Ok((output, i + 1));
        } else if c == '\n' {
            return Err(literal_error(LiteralError::NewLine));
        } else {
            let ghost old_out = output@;
            crate::text::push_utf8(&mut output, c);
            i = i + 1;
            proof {
                match decode_literal(characters@, i as int) {
                    Ok((rest, end)) => assert(old_out + (encode_scalar(c as u32) + rest) =~= output@ + rest),
                    Err(err) => {},
                }
            }
        }
    }
    Err(literal_error(LiteralError::Unterminated))
}

/// The bytes of a literal whose escape at `i` stands for `b`: `b`, then what
/// follows the two characters of the escape.
pub open spec fn escape_then(chars: Seq<char>, i: int, b: u8) -> Result<(Seq<u8>, int), LiteralError> {
    match decode_literal(chars, i + 2) {
        Ok((rest, end)) => Ok((seq![b] + rest, end)),
        Err(err) => Err(err),
    }
}

/// The awk escape table: a backslash followed by `\`, `"`, `/`, `a`, `b`,
/// `t`, `n`, `v`, `f` or `r` stands for the byte 0x5c, 0x22, 0x2f, 0x07,
/// 0x08, 0x09, 0x0a, 0x0b, 0x0c or 0x0d, wherever it occurs in a literal.
pub proof fn law_escape_table(chars: Seq<char>, i: int)
    requires
        0 <= i,
        i + 1 < chars.len(),
        chars[i] == '\\',
    ensures
        chars[i + 1] == '\\' ==> decode_literal(chars, i) == escape_then(chars, i, 0x5c),
        chars[i + 1] == '"' ==> decode_literal(chars, i) == escape_then(chars, i, 0x22),
        chars[i + 1] == '/' ==> decode_literal(chars, i) == escape_then(chars, i, 0x2f),
        chars[i + 1] == 'a' ==> decode_literal(chars, i) == escape_then(chars, i, 0x07),
        chars[i + 1] == 'b' ==> decode_literal(chars, i) == escape_then(chars, i, 0x08),
        chars[i + 1] == 't' ==> decode_literal(chars, i) == escape_then(chars, i, 0x09),
        chars[i + 1] == 'n' ==> decode_literal(chars, i) == escape_then(chars, i, 0x0a),
        chars[i + 1] == 'v' ==> decode_literal(chars, i) == escape_then(chars, i, 0x0b),
        chars[i + 1] == 'f' ==> decode_literal(chars, i) == escape_then(chars, i, 0x0c),
        chars[i + 1] == 'r' ==> decode_literal(chars, i) == escape_then(chars, i, 0x0d),
{
}

/// Octal escapes: a backslash and three octal digits stand for the byte of
/// their value (255 when it is larger); a backslash and one octal digit not
/// followed by another stand for that digit's value.
pub proof fn law_octal_escape(chars: Seq<char>, i: int)
    requires
        0 <= i,
        i + 1 < chars.len(),
        chars[i] == '\\',
        '0' <= chars[i + 1] <= '7',
    ensures
        i + 3 < chars.len() && '0' <= chars[i + 2] <= '7' && '0' <= chars[i + 3] <= '7' ==> {
            let v = 64 * (chars[i + 1] as int - 48) + 8 * (chars[i + 2] as int - 48) + (chars[i + 3] as int - 48);
            decode_literal(chars, i) == match decode_literal(chars, i + 4) {
                Ok((rest, end)) => Ok((seq![if v > 255 { 255u8 } else { v as u8 }] + rest, end)),
                Err(err) => Err(err),
            }
        },
        (i + 2 >= chars.len() || !('0' <= chars[i + 2] <= '7')) ==>
            decode_literal(chars, i) == match decode_literal(chars, i + 2) {
                Ok((rest, end)) => Ok((seq![(chars[i + 1] as int - 48) as u8] + rest, end)),
                Err(err) => Err(err),
            },
{
}

} // verus!

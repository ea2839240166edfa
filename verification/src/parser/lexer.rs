//! The lexer: turns a text buffer into tokens, one at a time.
//!
//! The input is read byte by byte and every byte stands for the character with
//! the same number. All scanning is specified over that sequence of
//! characters, which [`Lexer::text`] names.

use vstd::prelude::*;
use crate::parser::number::decode;
use crate::parser::number::is_digit;
use crate::parser::number::to_num_from;
use crate::parser::snapshot::Snapshot;
use crate::parser::token::Token;
use crate::parser::token::TokenView;
use crate::parser::token_bool::TokenBool;
use crate::parser::token_double::TokenDouble;
use crate::parser::token_null::TokenNull;
use crate::parser::token_string::TokenString;
use crate::parser::token_symbol::TokenSymbol;
use crate::utils::string_utils::StringBuilder;

verus! {

/// Why no token could be read.
#[derive(Debug, PartialEq, Eq, Structural, Clone, Copy)]
pub enum LexError {
    /// Nothing but whitespace is left.
    EndOfInput,
    /// The next character can start no token.
    UnexpectedCharacter,
    /// A number holds a second `.`.
    SecondPoint,
    /// A number holds a second `e` or `E`.
    SecondExponent,
    /// A number holds a `-` that does not directly follow `e` or `E`.
    MisplacedMinus,
    /// A number holds no digit.
    NoDigits,
    /// A number ends in its exponent mark, or its parts are out of order.
    MalformedNumber,
    /// A string has no closing quote.
    UnterminatedString,
    /// A backslash is followed by a character that is no escape.
    UnsupportedEscape,
    /// `\u` is not followed by four hex digits, or they name a surrogate.
    InvalidUnicode,
}

impl LexError {
    /// The text of the message for each error.
    pub open spec fn message_text(self) -> Seq<char> {
        match self {
            LexError::EndOfInput => "End of input (EOF)"@,
            LexError::UnexpectedCharacter => "Error"@,
            LexError::SecondPoint => "Error parsing number where a second '.' was discovered"@,
            LexError::SecondExponent => "Error parsing number where a second 'e' was discovered"@,
            LexError::MisplacedMinus => "Error parsing number where a '-' was discovered before 'e'"@,
            LexError::NoDigits => "Did not see a number while lexing input"@,
            LexError::MalformedNumber => "Error parsing number"@,
            LexError::UnterminatedString => "Error: Missing closing double-quote ('\"')."@,
            LexError::UnsupportedEscape => "Error not a supported escape character"@,
            LexError::InvalidUnicode => "Error invalid unicode character in sequence"@,
        }
    }

    /// A sentence that describes the error.
    pub fn message(&self) -> (r: String)
        ensures
            r@ == self.message_text(),
    {
        match self {
            LexError::EndOfInput => "End of input (EOF)".to_string(),
            LexError::UnexpectedCharacter => "Error".to_string(),
            LexError::SecondPoint => "Error parsing number where a second '.' was discovered".to_string(),
            LexError::SecondExponent => "Error parsing number where a second 'e' was discovered".to_string(),
            LexError::MisplacedMinus => "Error parsing number where a '-' was discovered before 'e'".to_string(),
            LexError::NoDigits => "Did not see a number while lexing input".to_string(),
            LexError::MalformedNumber => "Error parsing number".to_string(),
            LexError::UnterminatedString => "Error: Missing closing double-quote ('\"').".to_string(),
            LexError::UnsupportedEscape => "Error not a supported escape character".to_string(),
            LexError::InvalidUnicode => "Error invalid unicode character in sequence".to_string(),
        }
    }
}

/// The characters that a sequence of bytes stands for, one for each byte.
pub open spec fn latin1(bytes: Seq<u8>) -> Seq<char> {
    Seq::new(bytes.len(), |i: int| bytes[i] as char)
}

pub open spec fn is_whitespace(c: char) -> bool {
    c == ' ' || c == '\t' || c == '\n' || c == '\x0C' || c == '\r'
}

pub open spec fn is_structural(c: char) -> bool {
    c == '{' || c == '}' || c == '[' || c == ']' || c == ',' || c == ':'
}

pub open spec fn is_ascii_letter(c: char) -> bool {
    ('a' <= c && c <= 'z') || ('A' <= c && c <= 'Z')
}

/// Whether `c`, a character below U+0100, is a letter.
pub open spec fn is_letter(c: char) -> bool {
    is_ascii_letter(c) || c == '\u{AA}' || c == '\u{B5}' || c == '\u{BA}' || ('\u{C0}' <= c && c
        <= '\u{D6}') || ('\u{D8}' <= c && c <= '\u{F6}') || ('\u{F8}' <= c && c <= '\u{FF}')
}

pub open spec fn is_word_char(c: char) -> bool {
    is_digit(c) || is_letter(c)
}

pub open spec fn is_hex(c: char) -> bool {
    is_digit(c) || ('a' <= c && c <= 'f') || ('A' <= c && c <= 'F')
}

/// The value of a hex digit.
pub open spec fn hex_value(c: char) -> int {
    if is_digit(c) {
        c as int - 48
    } else if 'a' <= c && c <= 'f' {
        c as int - 87
    } else {
        c as int - 55
    }
}

/// A hex digit with its letter in upper case.
pub open spec fn hex_upper(c: char) -> char {
    if 'a' <= c && c <= 'f' {
        (c as int - 32) as char
    } else {
        c
    }
}

/// The character that a backslash followed by `c` stands for.
pub open spec fn escape_char(c: char) -> Option<char> {
    if c == '"' {
        Some('"')
    } else if c == '/' {
        Some('/')
    } else if c == '\\' {
        Some('\\')
    } else if c == 'b' {
        Some('\x08')
    } else if c == 'f' {
        Some('\x0C')
    } else if c == 'n' {
        Some('\n')
    } else if c == 'r' {
        Some('\r')
    } else if c == 't' {
        Some('\t')
    } else {
        None
    }
}

/// The first position at or after `pos` that holds no whitespace.
pub open spec fn skip_whitespace(t: Seq<char>, pos: int) -> int
    decreases t.len() - pos,
{
    if 0 <= pos < t.len() && is_whitespace(t[pos]) {
        skip_whitespace(t, pos + 1)
    } else {
        pos
    }
}

/// The first position at or after `pos` that holds no letter and no digit.
pub open spec fn word_end(t: Seq<char>, pos: int) -> int
    decreases t.len() - pos,
{
    if 0 <= pos < t.len() && is_word_char(t[pos]) {
        word_end(t, pos + 1)
    } else {
        pos
    }
}

/// The token that a bare word is.
pub open spec fn word_token(word: Seq<char>) -> TokenView {
    if word == seq!['t', 'r', 'u', 'e'] {
        TokenView::Bool(true)
    } else if word == seq!['f', 'a', 'l', 's', 'e'] {
        TokenView::Bool(false)
    } else if word == seq!['n', 'u', 'l', 'l'] {
        TokenView::Null
    } else {
        TokenView::Symbol(word)
    }
}

/// Where the scan of a number stands: the next position and what was seen.
pub ghost struct NumberScan {
    pub pos: int,
    pub seen_point: bool,
    pub seen_exponent: bool,
    pub seen_digit: bool,
    pub after_exponent: bool,
}

/// Scans on from `st` over digits, one `.`, one `e` or `E` and a `-` directly
/// after it, up to the first character that is none of these.
pub open spec fn scan_number(t: Seq<char>, st: NumberScan) -> Result<NumberScan, LexError>
    decreases t.len() - st.pos,
{
    if st.pos < 0 || st.pos >= t.len() {
        Ok(st)
    } else {
        let c = t[st.pos];
        if is_digit(c) {
            scan_number(
                t,
                NumberScan {
                    pos: st.pos + 1,
                    seen_point: st.seen_point,
                    seen_exponent: st.seen_exponent,
                    seen_digit: true,
                    after_exponent: false,
                },
            )
        } else if c == '.' {
            if st.seen_point {
                Err(LexError::SecondPoint)
            } else {
                scan_number(
                    t,
                    NumberScan {
                        pos: st.pos + 1,
                        seen_point: true,
                        seen_exponent: st.seen_exponent,
                        seen_digit: st.seen_digit,
                        after_exponent: false,
                    },
                )
            }
        } else if c == 'e' || c == 'E' {
            if st.seen_exponent {
                Err(LexError::SecondExponent)
            } else {
                scan_number(
                    t,
                    NumberScan {
                        pos: st.pos + 1,
                        seen_point: st.seen_point,
                        seen_exponent: true,
                        seen_digit: st.seen_digit,
                        after_exponent: true,
                    },
                )
            }
        } else if c == '-' {
            if !st.after_exponent {
                Err(LexError::MisplacedMinus)
            } else {
                scan_number(
                    t,
                    NumberScan {
                        pos: st.pos + 1,
                        seen_point: st.seen_point,
                        seen_exponent: st.seen_exponent,
                        seen_digit: st.seen_digit,
                        after_exponent: false,
                    },
                )
            }
        } else {
            Ok(st)
        }
    }
}

/// The number token that starts at `start`, with the position after it.
pub open spec fn lex_number(t: Seq<char>, start: int) -> Result<(TokenView, int), LexError>
    recommends
        0 <= start < t.len(),
{
    let first = NumberScan {
        pos: start + 1,
        seen_point: t[start] == '.',
        seen_exponent: false,
        seen_digit: is_digit(t[start]),
        after_exponent: false,
    };
    match scan_number(t, first) {
        Err(e) => Err(e),
        Ok(st) => if !st.seen_digit {
            Err(LexError::NoDigits)
        } else {
            match decode(t.subrange(start, st.pos)) {
                Some(n) => Ok((TokenView::Double(n), st.pos)),
                None => Err(LexError::MalformedNumber),
            }
        },
    }
}

/// What the four characters from `at` on give as a `\u` escape: the character
/// they number where `stringify` is set, else the escape as it stands with
/// its hex digits in upper case.
pub open spec fn unicode_piece(t: Seq<char>, at: int, stringify: bool) -> Result<
    Seq<char>,
    LexError,
> {
    if at < 0 || at + 4 > t.len() || !is_hex(t[at]) || !is_hex(t[at + 1]) || !is_hex(t[at + 2])
        || !is_hex(t[at + 3]) {
        Err(LexError::InvalidUnicode)
    } else if stringify {
        let code = hex_value(t[at]) * 4096 + hex_value(t[at + 1]) * 256 + hex_value(t[at + 2]) * 16
            + hex_value(t[at + 3]);
        if 0xD800 <= code && code <= 0xDFFF {
            Err(LexError::InvalidUnicode)
        } else {
            Ok(seq![code as char])
        }
    } else {
        Ok(
            seq![
                '\\',
                'u',
                hex_upper(t[at]),
                hex_upper(t[at + 1]),
                hex_upper(t[at + 2]),
                hex_upper(t[at + 3]),
            ],
        )
    }
}

/// Puts `piece` in front of the text that a scan gave.
pub open spec fn prepend(piece: Seq<char>, rest: Result<(Seq<char>, int), LexError>) -> Result<
    (Seq<char>, int),
    LexError,
> {
    match rest {
        Ok((text, next)) => Ok((piece + text, next)),
        Err(e) => Err(e),
    }
}

/// The decoded text of the string whose body starts at `pos`, with the
/// position after its closing quote.
pub open spec fn scan_string(t: Seq<char>, pos: int, stringify: bool) -> Result<
    (Seq<char>, int),
    LexError,
>
    decreases t.len() - pos,
{
    if pos < 0 || pos >= t.len() {
        Err(LexError::UnterminatedString)
    } else if t[pos] == '"' {
        Ok((Seq::<char>::empty(), pos + 1))
    } else if t[pos] == '\\' {
        if pos + 1 >= t.len() {
            Err(LexError::UnterminatedString)
        } else if t[pos + 1] == 'u' {
            match unicode_piece(t, pos + 2, stringify) {
                Err(e) => Err(e),
                Ok(piece) => prepend(piece, scan_string(t, pos + 6, stringify)),
            }
        } else {
            match escape_char(t[pos + 1]) {
                None => Err(LexError::UnsupportedEscape),
                Some(c) => prepend(seq![c], scan_string(t, pos + 2, stringify)),
            }
        }
    } else {
        prepend(seq![t[pos]], scan_string(t, pos + 1, stringify))
    }
}

/// The token that a string starting (with its opening quote) at `start` is.
pub open spec fn lex_string(t: Seq<char>, start: int, stringify: bool) -> Result<
    (TokenView, int),
    LexError,
> {
    match scan_string(t, start + 1, stringify) {
        Ok((text, next)) => Ok((TokenView::String(text), next)),
        Err(e) => Err(e),
    }
}

/// The next token at or after `pos` with the position after it: whitespace is
/// skipped, and the first character after it decides the kind of token.
pub open spec fn lex_at(t: Seq<char>, pos: int, stringify: bool) -> Result<
    (TokenView, int),
    LexError,
> {
    let p = skip_whitespace(t, pos);
    if p < 0 || p >= t.len() {
        Err(LexError::EndOfInput)
    } else {
        let c = t[p];
        if is_structural(c) {
            Ok((TokenView::Symbol(seq![c]), p + 1))
        } else if is_ascii_letter(c) {
            let end = word_end(t, p + 1);
            Ok((word_token(t.subrange(p, end)), end))
        } else if is_digit(c) || c == '.' || c == '-' {
            lex_number(t, p)
        } else if c == '"' {
            lex_string(t, p, stringify)
        } else {
            Err(LexError::UnexpectedCharacter)
        }
    }
}


/// The lexer reads an input of ASCII characters as it stands: the
/// characters that stand for the bytes of the input are the input's own.
pub proof fn law_ascii_text(input: Seq<char>)
    requires
        vstd::utf8::is_ascii_chars(input),
    ensures
        latin1(vstd::utf8::encode_utf8(input)) == input,
{
    vstd::utf8::is_ascii_chars_encode_utf8(input);
    let bytes = vstd::utf8::encode_utf8(input);
    assert forall|i: int| 0 <= i < input.len() implies latin1(bytes)[i] == input[i] by {
        assert(input[i] as u8 == bytes[i]);
        assert('\0' <= input[i] <= '\u{7f}');
    }
    assert(latin1(bytes) =~= input);
}

/// A quoted backslash escape lexes to the string of the one character
/// that the escape stands for.
pub proof fn law_escape_decodes(e: char, stringify: bool)
    requires
        escape_char(e) is Some,
    ensures
        lex_at(seq!['"', '\\', e, '"'], 0, stringify) == Ok::<(TokenView, int), LexError>(
            (TokenView::String(seq![escape_char(e)->0]), 4),
        ),
{
    let t = seq!['"', '\\', e, '"'];
    reveal_with_fuel(scan_string, 3);
    reveal_with_fuel(skip_whitespace, 2);
    assert(skip_whitespace(t, 0) == 0);
    assert(scan_string(t, 3, stringify) == Ok::<(Seq<char>, int), LexError>((Seq::empty(), 4)));
    assert(seq![escape_char(e)->0] + Seq::<char>::empty() =~= seq![escape_char(e)->0]);
}

/// Without `stringify`, a quoted `\u` escape lexes to the string of the
/// same six characters, its hex digits in upper case.
pub proof fn law_unicode_escape_kept(h0: char, h1: char, h2: char, h3: char)
    requires
        is_hex(h0),
        is_hex(h1),
        is_hex(h2),
        is_hex(h3),
    ensures
        lex_at(seq!['"', '\\', 'u', h0, h1, h2, h3, '"'], 0, false) == Ok::<
            (TokenView, int),
            LexError,
        >(
            (
                TokenView::String(
                    seq!['\\', 'u', hex_upper(h0), hex_upper(h1), hex_upper(h2), hex_upper(h3)],
                ),
                8,
            ),
        ),
{
    let t = seq!['"', '\\', 'u', h0, h1, h2, h3, '"'];
    let piece = seq!['\\', 'u', hex_upper(h0), hex_upper(h1), hex_upper(h2), hex_upper(h3)];
    reveal_with_fuel(scan_string, 3);
    reveal_with_fuel(skip_whitespace, 2);
    assert(skip_whitespace(t, 0) == 0);
    assert(unicode_piece(t, 3, false) == Ok::<Seq<char>, LexError>(piece));
    assert(scan_string(t, 7, false) == Ok::<(Seq<char>, int), LexError>((Seq::empty(), 8)));
    assert(piece + Seq::<char>::empty() =~= piece);
}

/// The number that four hex digits write.
pub open spec fn hex_code(h0: char, h1: char, h2: char, h3: char) -> int {
    hex_value(h0) * 4096 + hex_value(h1) * 256 + hex_value(h2) * 16 + hex_value(h3)
}

/// With `stringify`, a quoted `\u` escape lexes to the string of the one
/// character with the number that its hex digits write, unless that number
/// is a surrogate's, which is an error.
pub proof fn law_unicode_escape_decoded(h0: char, h1: char, h2: char, h3: char)
    requires
        is_hex(h0),
        is_hex(h1),
        is_hex(h2),
        is_hex(h3),
    ensures
        lex_at(seq!['"', '\\', 'u', h0, h1, h2, h3, '"'], 0, true) == if 0xD800 <= hex_code(
            h0,
            h1,
            h2,
            h3,
        ) <= 0xDFFF {
            Err::<(TokenView, int), LexError>(LexError::InvalidUnicode)
        } else {
            Ok::<(TokenView, int), LexError>(
                (TokenView::String(seq![hex_code(h0, h1, h2, h3) as char]), 8),
            )
        },
{
    let t = seq!['"', '\\', 'u', h0, h1, h2, h3, '"'];
    let piece = seq![hex_code(h0, h1, h2, h3) as char];
    reveal_with_fuel(scan_string, 3);
    reveal_with_fuel(skip_whitespace, 2);
    assert(skip_whitespace(t, 0) == 0);
    assert(scan_string(t, 7, true) == Ok::<(Seq<char>, int), LexError>((Seq::empty(), 8)));
    assert(piece + Seq::<char>::empty() =~= piece);
}

/// Builds the character with the given number with `char::from_u32`, which
/// gives a character for every number up to U+10FFFF that is no surrogate
/// and nothing for any other.
#[verifier::external_body]
fn char_from_code(code: u32) -> (r: Option<char>)
    ensures
        r == if code < 0xD800 || (0xE000 <= code && code <= 0x10FFFF) {
            Some(code as char)
        } else {
            None::<char>
        },
{
    char::from_u32(code)
}

fn is_whitespace_char(c: char) -> (r: bool)
    ensures
        r == is_whitespace(c),
{
    c == ' ' || c == '\t' || c == '\n' || c == '\x0C' || c == '\r'
}

fn is_structural_char(c: char) -> (r: bool)
    ensures
        r == is_structural(c),
{
    c == '{' || c == '}' || c == '[' || c == ']' || c == ',' || c == ':'
}

fn is_digit_char(c: char) -> (r: bool)
    ensures
        r == is_digit(c),
{
    c >= '0' && c <= '9'
}

fn is_ascii_letter_char(c: char) -> (r: bool)
    ensures
        r == is_ascii_letter(c),
{
    (c >= 'a' && c <= 'z') || (c >= 'A' && c <= 'Z')
}

fn is_word_character(c: char) -> (r: bool)
    ensures
        r == is_word_char(c),
{
    is_digit_char(c) || is_ascii_letter_char(c) || c == '\u{AA}' || c == '\u{B5}' || c == '\u{BA}'
        || (c >= '\u{C0}' && c <= '\u{D6}') || (c >= '\u{D8}' && c <= '\u{F6}') || (c >= '\u{F8}'
        && c <= '\u{FF}')
}

fn is_hex_byte(b: u8) -> (r: bool)
    ensures
        r == is_hex(b as char),
{
    (b >= 48 && b <= 57) || (b >= 97 && b <= 102) || (b >= 65 && b <= 70)
}

/// The value of the hex digit `ch`.
pub fn decode_char(ch: char) -> (r: u16)
    requires
        is_hex(ch),
    ensures
        r == hex_value(ch),
        r < 16,
{
    let code: u32 = ch as u32;
    if ch >= '0' && ch <= '9' {
        (code - 48) as u16
    } else if ch >= 'a' && ch <= 'f' {
        (code - 87) as u16
    } else {
        (code - 55) as u16
    }
}

fn hex_upper_byte(b: u8) -> (r: char)
    requires
        is_hex(b as char),
    ensures
        r == hex_upper(b as char),
{
    if b >= 97 && b <= 102 {
        (b - 32) as char
    } else {
        b as char
    }
}

fn escape_character(c: char) -> (r: Option<char>)
    ensures
        r == escape_char(c),
{
    if c == '"' {
        Some('"')
    } else if c == '/' {
        Some('/')
    } else if c == '\\' {
        Some('\\')
    } else if c == 'b' {
        Some('\x08')
    } else if c == 'f' {
        Some('\x0C')
    } else if c == 'n' {
        Some('\n')
    } else if c == 'r' {
        Some('\r')
    } else if c == 't' {
        Some('\t')
    } else {
        None
    }
}

/// Putting two pieces in front one after the other is putting their
/// concatenation in front.
pub proof fn lemma_prepend_prepend(
    a: Seq<char>,
    b: Seq<char>,
    rest: Result<(Seq<char>, int), LexError>,
)
    ensures
        prepend(a, prepend(b, rest)) == prepend(a + b, rest),
{
    match rest {
        Ok((text, next)) => {
            assert(a + (b + text) =~= (a + b) + text);
        },
        Err(_) => {},
    }
}

/// Reads one of the symbols `{ } [ ] , :`.
fn handle_single_char_symbol(ch: char) -> (r: Token)
    ensures
        r@ == TokenView::Symbol(seq![ch]),
{
    let mut buffer = StringBuilder::new(1);
    buffer.append_char(ch);
    assert(buffer@ =~= seq![ch]);
    Token::Symbol(TokenSymbol::new(buffer.to_string()))
}

/// Reads a word: the letter at `start` and the letters and digits after it.
fn handle_symbol(bytes: &[u8], start: usize, buffer: &mut StringBuilder) -> (r: (Token, usize))
    requires
        start < bytes@.len(),
    ensures
        r.1 == word_end(latin1(bytes@), start + 1),
        r.0@ == word_token(latin1(bytes@).subrange(start as int, r.1 as int)),
        start < r.1 <= bytes@.len(),
{
    let ghost t = latin1(bytes@);
    buffer.clear();
    buffer.append_char(bytes[start] as char);
    let mut pos: usize = start + 1;
    assert(buffer@ =~= t.subrange(start as int, pos as int));
    while pos < bytes.len() && is_word_character(bytes[pos] as char)
        invariant
            t == latin1(bytes@),
            start < pos <= bytes@.len(),
            word_end(t, start + 1) == word_end(t, pos as int),
            buffer@ == t.subrange(start as int, pos as int),
        decreases bytes@.len() - pos,
    {
        buffer.append_char(bytes[pos] as char);
        pos += 1;
        assert(buffer@ =~= t.subrange(start as int, pos as int));
    }
    let output = buffer.to_string();
    proof {
        reveal_strlit("true");
        reveal_strlit("false");
        reveal_strlit("null");
        assert("true"@ =~= seq!['t', 'r', 'u', 'e']);
        assert("false"@ =~= seq!['f', 'a', 'l', 's', 'e']);
        assert("null"@ =~= seq!['n', 'u', 'l', 'l']);
    }
    if output == "true".to_string() {
        (Token::Bool(TokenBool::new(true)), pos)
    } else if output == "false".to_string() {
        (Token::Bool(TokenBool::new(false)), pos)
    } else if output == "null".to_string() {
        (Token::Null(TokenNull::new()), pos)
    } else {
        (Token::Symbol(TokenSymbol::new(output)), pos)
    }
}

/// Reads a number: checks its shape character by character, then decodes
/// the text that was read.
fn handle_number(bytes: &[u8], start: usize, buffer: &mut StringBuilder) -> (r: Result<
    (Token, usize),
    LexError,
>)
    requires
        start < bytes@.len(),
    ensures
        match lex_number(latin1(bytes@), start as int) {
            Ok((token, next)) => r matches Ok((tok, n)) && tok@ == token && n == next && start < n
                <= bytes@.len(),
            Err(e) => r matches Err(x) && x == e,
        },
{
    let ghost t = latin1(bytes@);
    let ch = bytes[start] as char;
    buffer.clear();
    buffer.append_char(ch);
    let mut seen_dot = ch == '.';
    let mut seen_e = false;
    let mut seen_number = is_digit_char(ch);
    let mut after_e = false;
    let mut pos: usize = start + 1;
    let ghost first = NumberScan {
        pos: start + 1,
        seen_point: seen_dot,
        seen_exponent: false,
        seen_digit: seen_number,
        after_exponent: false,
    };
    assert(buffer@ =~= t.subrange(start as int, pos as int));
    loop
        invariant
            t == latin1(bytes@),
            start < pos <= bytes@.len(),
            buffer@ == t.subrange(start as int, pos as int),
            first == (NumberScan {
                pos: start + 1,
                seen_point: t[start as int] == '.',
                seen_exponent: false,
                seen_digit: is_digit(t[start as int]),
                after_exponent: false,
            }),
            scan_number(t, first) == scan_number(
                t,
                NumberScan {
                    pos: pos as int,
                    seen_point: seen_dot,
                    seen_exponent: seen_e,
                    seen_digit: seen_number,
                    after_exponent: after_e,
                },
            ),
        ensures
            start < pos <= bytes@.len(),
            buffer@ == t.subrange(start as int, pos as int),
            scan_number(t, first) == Ok::<NumberScan, LexError>(
                NumberScan {
                    pos: pos as int,
                    seen_point: seen_dot,
                    seen_exponent: seen_e,
                    seen_digit: seen_number,
                    after_exponent: after_e,
                },
            ),
        decreases bytes@.len() - pos,
    {
        if pos >= bytes.len() {
            break;
        }
        let cur_char = bytes[pos] as char;
        if is_digit_char(cur_char) {
            seen_number = true;
            after_e = false;
        } else if cur_char == '.' {
            if seen_dot {
                return Err(LexError::SecondPoint);
            }
            seen_dot = true;
            after_e = false;
        } else if cur_char == 'e' || cur_char == 'E' {
            if seen_e {
                return Err(LexError::SecondExponent);
            }
            seen_e = true;
            after_e = true;
        } else if cur_char == '-' {
            if !after_e {
                return Err(LexError::MisplacedMinus);
            }
            after_e = false;
        } else {
            break;
        }
        buffer.append_char(cur_char);
        pos += 1;
        assert(buffer@ =~= t.subrange(start as int, pos as int));
    }
    if !seen_number {
        return Err(LexError::NoDigits);
    }
    match to_num_from(buffer.as_slice(), 0) {
        Some(number) => Ok((Token::Double(TokenDouble::new(number)), pos)),
        None => Err(LexError::MalformedNumber),
    }
}

/// Reads a quoted string and decodes its escapes. With `stringify` a `\u`
/// escape becomes the character it numbers; without, it stays an escape,
/// its hex digits in upper case.
fn handle_string(bytes: &[u8], start: usize, stringify: bool, buffer: &mut StringBuilder) -> (r:
    Result<(Token, usize), LexError>)
    requires
        start < bytes@.len(),
    ensures
        match lex_string(latin1(bytes@), start as int, stringify) {
            Ok((token, next)) => r matches Ok((tok, n)) && tok@ == token && n == next && start < n
                <= bytes@.len(),
            Err(e) => r matches Err(x) && x == e,
        },
{
    let ghost t = latin1(bytes@);
    let len = bytes.len();
    buffer.clear();
    let mut pos: usize = start + 1;
    proof {
        let whole = scan_string(t, start + 1, stringify);
        lemma_prepend_prepend(Seq::<char>::empty(), Seq::<char>::empty(), whole);
        assert(prepend(Seq::<char>::empty(), whole) == whole) by {
            match whole {
                Ok((text, next)) => {
                    assert(Seq::<char>::empty() + text =~= text);
                },
                Err(_) => {},
            }
        }
    }
    loop
        invariant
            t == latin1(bytes@),
            start < pos <= bytes@.len(),
            scan_string(t, start + 1, stringify) == prepend(
                buffer@,
                scan_string(t, pos as int, stringify),
            ),
        decreases bytes@.len() - pos,
    {
        if pos >= bytes.len() {
            return Err(LexError::UnterminatedString);
        }
        let cur_char = bytes[pos] as char;
        let ghost before = buffer@;
        if cur_char == '"' {
            assert(buffer@ + Seq::<char>::empty() =~= buffer@);
            let output = buffer.to_string();
            return Ok((Token::String(TokenString::new(output)), pos + 1));
        } else if cur_char == '\\' {
            if bytes.len() - pos < 2 {
                return Err(LexError::UnterminatedString);
            }
            let escaped = bytes[pos + 1] as char;
            if escaped == 'u' {
                if bytes.len() - pos < 6 {
                    return Err(LexError::InvalidUnicode);
                }
                let h0 = bytes[pos + 2];
                let h1 = bytes[pos + 3];
                let h2 = bytes[pos + 4];
                let h3 = bytes[pos + 5];
                if !is_hex_byte(h0) || !is_hex_byte(h1) || !is_hex_byte(h2) || !is_hex_byte(h3) {
                    return Err(LexError::InvalidUnicode);
                }
                if stringify {
                    let d0: u32 = decode_char(h0 as char) as u32;
                    let d1: u32 = decode_char(h1 as char) as u32;
                    let d2: u32 = decode_char(h2 as char) as u32;
                    let d3: u32 = decode_char(h3 as char) as u32;
                    let code: u32 = d0 * 4096 + d1 * 256 + d2 * 16 + d3;
                    match char_from_code(code) {
                        Some(decoded) => {
                            buffer.append_char(decoded);
                            assert(buffer@ =~= before + seq![decoded]);
                        },
                        None => {
                            return Err(LexError::InvalidUnicode);
                        },
                    }
                } else {
                    buffer.append_char('\\');
                    buffer.append_char('u');
                    buffer.append_char(hex_upper_byte(h0));
                    buffer.append_char(hex_upper_byte(h1));
                    buffer.append_char(hex_upper_byte(h2));
                    buffer.append_char(hex_upper_byte(h3));
                    assert(buffer@ =~= before + unicode_piece(t, pos + 2, stringify)->Ok_0);
                }
                proof {
                    lemma_prepend_prepend(
                        before,
                        unicode_piece(t, pos + 2, stringify)->Ok_0,
                        scan_string(t, pos + 6, stringify),
                    );
                }
                pos += 6;
            } else {
                match escape_character(escaped) {
                    Some(decoded) => {
                        buffer.append_char(decoded);
                        proof {
                            assert(buffer@ =~= before + seq![decoded]);
                            lemma_prepend_prepend(
                                before,
                                seq![decoded],
                                scan_string(t, pos + 2, stringify),
                            );
                        }
                        pos += 2;
                    },
                    None => {
                        return Err(LexError::UnsupportedEscape);
                    },
                }
            }
        } else {
            buffer.append_char(cur_char);
            proof {
                assert(buffer@ =~= before + seq![cur_char]);
                lemma_prepend_prepend(
                    before,
                    seq![cur_char],
                    scan_string(t, pos + 1, stringify),
                );
            }
            pos += 1;
        }
    }
}


/// The lexer: the input text, a cursor into it, and the mode for `\u`
/// escapes.
pub struct Lexer {
    input: String,
    stringify: bool,
    index: usize,
    buffer: StringBuilder,
}

impl Lexer {
    /// The characters that the lexer reads: one for each byte of the input.
    pub closed spec fn text(&self) -> Seq<char> {
        latin1(vstd::utf8::encode_utf8(self.input@))
    }

    /// The input as it was given.
    pub closed spec fn input(&self) -> Seq<char> {
        self.input@
    }

    /// The cursor: the position in [`Lexer::text`] of the next character.
    pub closed spec fn position(&self) -> nat {
        self.index as nat
    }

    /// Whether `\u` escapes are decoded to the character they number.
    pub closed spec fn stringify(&self) -> bool {
        self.stringify
    }

    /// A lexer at the start of a copy of `input`.
    pub fn new_copy(input: &String, stringify: bool) -> (r: Self)
        ensures
            r.input() == input@,
            r.text() == latin1(vstd::utf8::encode_utf8(input@)),
            r.position() == 0,
            r.stringify() == stringify,
    {
        Self { input: input.clone(), stringify, index: 0, buffer: StringBuilder::new(4096) }
    }

    /// A lexer at the start of `input`.
    pub fn new_move(input: String, stringify: bool) -> (r: Self)
        ensures
            r.input() == input@,
            r.text() == latin1(vstd::utf8::encode_utf8(input@)),
            r.position() == 0,
            r.stringify() == stringify,
    {
        Self { input, stringify, index: 0, buffer: StringBuilder::new(4096) }
    }

    pub fn get_input(&self) -> (r: &String)
        ensures
            r@ == self.input(),
    {
        &self.input
    }

    pub fn get_position(&self) -> (r: usize)
        ensures
            r == self.position(),
    {
        self.index
    }

    /// Reads the next token. On success the cursor stands after the token;
    /// on failure it stays where it was.
    pub fn next_token(&mut self) -> (r: Result<Token, LexError>)
        ensures
            final(self).input() == old(self).input(),
            final(self).text() == old(self).text(),
            final(self).stringify() == old(self).stringify(),
            match lex_at(old(self).text(), old(self).position() as int, old(self).stringify()) {
                Ok((token, next)) => r matches Ok(tok) && tok@ == token && final(self).position()
                    == next && old(self).position() < next <= old(self).text().len(),
                Err(e) => r matches Err(x) && x == e && final(self).position() == old(self).position(),
            },
    {
        let start = self.index;
        let result = self.next_token_internal();
        if result.is_err() {
            self.index = start;
        }
        result
    }

    /// Moves the cursor back to where `snapshot` was taken.
    pub fn restore(&mut self, snapshot: &Snapshot)
        ensures
            final(self).input() == old(self).input(),
            final(self).text() == old(self).text(),
            final(self).stringify() == old(self).stringify(),
            final(self).position() == snapshot@,
    {
        self.index = snapshot.get_start_pos();
    }

    /// Saves the cursor.
    pub fn snap(&self) -> (r: Snapshot)
        ensures
            r@ == self.position(),
    {
        Snapshot::new(self.index)
    }

    fn next_token_internal(&mut self) -> (r: Result<Token, LexError>)
        ensures
            final(self).input() == old(self).input(),
            final(self).text() == old(self).text(),
            final(self).stringify() == old(self).stringify(),
            match lex_at(old(self).text(), old(self).position() as int, old(self).stringify()) {
                Ok((token, next)) => r matches Ok(tok) && tok@ == token && final(self).position()
                    == next && old(self).position() < next <= old(self).text().len(),
                Err(e) => r matches Err(x) && x == e,
            },
    {
        let _ = self.skip_whitespace();
        let ch = self.next_char();
        match ch {
            Some(the_char) => {
                let start = self.index - 1;
                let bytes = self.input.as_str().as_bytes();
                if is_structural_char(the_char) {
                    Ok(handle_single_char_symbol(the_char))
                } else if is_ascii_letter_char(the_char) {
                    let (token, next) = handle_symbol(bytes, start, &mut self.buffer);
                    self.index = next;
                    Ok(token)
                } else if is_digit_char(the_char) || the_char == '.' || the_char == '-' {
                    match handle_number(bytes, start, &mut self.buffer) {
                        Ok((token, next)) => {
                            self.index = next;
                            Ok(token)
                        },
                        Err(e) => Err(e),
                    }
                } else if the_char == '"' {
                    match handle_string(bytes, start, self.stringify, &mut self.buffer) {
                        Ok((token, next)) => {
                            self.index = next;
                            Ok(token)
                        },
                        Err(e) => Err(e),
                    }
                } else {
                    Err(LexError::UnexpectedCharacter)
                }
            },
            None => Err(LexError::EndOfInput),
        }
    }

    /// Reads the character under the cursor and moves the cursor past it.
    fn next_char(&mut self) -> (r: Option<char>)
        ensures
            final(self).input() == old(self).input(),
            final(self).text() == old(self).text(),
            final(self).stringify() == old(self).stringify(),
            match r {
                Some(c) => old(self).position() < old(self).text().len() && c == old(self).text()[old(self).position() as int] && final(self).position() == old(self).position() + 1,
                None => old(self).position() >= old(self).text().len() && final(self).position()
                    == old(self).position(),
            },
    {
        let chars = self.input.as_str().as_bytes();
        if self.index < chars.len() {
            let ch = chars[self.index];
            self.index += 1;
            return Some(ch as char);
        }
        None
    }

    /// Moves the cursor past whitespace and returns how far it moved.
    fn skip_whitespace(&mut self) -> (r: usize)
        ensures
            final(self).input() == old(self).input(),
            final(self).text() == old(self).text(),
            final(self).stringify() == old(self).stringify(),
            final(self).position() == skip_whitespace(
                old(self).text(),
                old(self).position() as int,
            ),
            r == final(self).position() - old(self).position(),
    {
        let start: usize = self.index;
        let chars = self.input.as_str().as_bytes();
        while self.index < chars.len() && is_whitespace_char(chars[self.index] as char)
            invariant
                self.input == old(self).input,
                self.stringify == old(self).stringify,
                chars@ == vstd::utf8::encode_utf8(self.input@),
                start <= self.index,
                skip_whitespace(old(self).text(), start as int) == skip_whitespace(
                    old(self).text(),
                    self.index as int,
                ),
            decreases chars@.len() - self.index,
        {
            self.index += 1;
        }
        self.index - start
    }
}

} // verus!

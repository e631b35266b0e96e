//! The grammar, as spec functions: what the reader returns for every input.
use vstd::prelude::*;
use crate::classify::{spec_is_digit, spec_is_exponent, spec_is_hex, spec_is_control, spec_is_whitespace, hex_value};
use crate::value::Json;

verus! {

/// Why a document was refused.
#[derive(Debug, Clone, Copy, PartialEq, Eq, Structural)]
pub enum SyntaxErrorKind {
    /// The input ended inside a value.
    UnexpectedEnd,
    /// A character that no token can start or continue with.
    UnexpectedChar,
    /// A backslash followed by something that is no escape.
    InvalidEscape,
    /// A `\u` surrogate without its partner.
    LoneSurrogate,
    /// A control character inside a string literal.
    ControlInString,
    /// A number that breaks the number grammar.
    BadNumber,
    /// Something other than whitespace after the document.
    TrailingContent,
}

/// The outcome of reading a `T` from a position: the value and the position
/// after it, or the kind of error and where it was found.
pub type Step<T> = Result<(T, int), (SyntaxErrorKind, int)>;

/// How many whitespace characters start at `p`.
pub open spec fn ws_len(s: Seq<char>, p: int) -> nat
    decreases s.len() - p,
{
    if 0 <= p < s.len() && spec_is_whitespace(s[p]) {
        1 + ws_len(s, p + 1)
    } else {
        0
    }
}

/// How many decimal digits start at `p`.
pub open spec fn digits_len(s: Seq<char>, p: int) -> nat
    decreases s.len() - p,
{
    if 0 <= p < s.len() && spec_is_digit(s[p]) {
        1 + digits_len(s, p + 1)
    } else {
        0
    }
}

/// The four hexadecimal digits at `p`, as a number.
pub open spec fn hex4(s: Seq<char>, p: int) -> Option<u32> {
    if 0 <= p && p + 4 <= s.len() && spec_is_hex(s[p]) && spec_is_hex(s[p + 1]) && spec_is_hex(
        s[p + 2],
    ) && spec_is_hex(s[p + 3]) {
        Some(
            (hex_value(s[p]) * 4096 + hex_value(s[p + 1]) * 256 + hex_value(s[p + 2]) * 16
                + hex_value(s[p + 3])) as u32,
        )
    } else {
        None
    }
}

/// What a one-letter escape after `\` stands for.
pub open spec fn simple_escape(e: char) -> Option<char> {
    if e == '"' {
        Some('"')
    } else if e == '\\' {
        Some('\\')
    } else if e == '/' {
        Some('/')
    } else if e == 'b' {
        Some('\u{8}')
    } else if e == 'f' {
        Some('\u{c}')
    } else if e == 'n' {
        Some('\n')
    } else if e == 'r' {
        Some('\r')
    } else if e == 't' {
        Some('\t')
    } else {
        None
    }
}

pub open spec fn is_high_surrogate(u: u32) -> bool {
    0xD800 <= u < 0xDC00
}

pub open spec fn is_low_surrogate(u: u32) -> bool {
    0xDC00 <= u < 0xE000
}

/// The code point that a surrogate pair stands for.
pub open spec fn pair_code(high: u32, low: u32) -> u32 {
    (0x10000 + (high - 0xD800) * 0x400 + (low - 0xDC00)) as u32
}

/// The rest of a string literal from `p` (just after the opening quote or
/// an earlier character), with `acc` the characters read so far.
pub open spec fn string_body(s: Seq<char>, p: int, acc: Seq<char>) -> Step<Seq<char>>
    decreases s.len() - p,
{
    if !(0 <= p < s.len()) {
        Err((SyntaxErrorKind::UnexpectedEnd, s.len() as int))
    } else if s[p] == '"' {
        Ok((acc, p + 1))
    } else if s[p] == '\\' {
        if p + 1 >= s.len() {
            Err((SyntaxErrorKind::UnexpectedEnd, s.len() as int))
        } else if simple_escape(s[p + 1]) is Some {
            string_body(s, p + 2, acc.push(simple_escape(s[p + 1])->0))
        } else if s[p + 1] != 'u' {
            Err((SyntaxErrorKind::InvalidEscape, p + 1))
        } else if hex4(s, p + 2) is None {
            Err((SyntaxErrorKind::InvalidEscape, p + 1))
        } else {
            let u = hex4(s, p + 2)->0;
            if is_high_surrogate(u) {
                if p + 8 <= s.len() && s[p + 6] == '\\' && s[p + 7] == 'u' && hex4(s, p + 8) is Some
                    && is_low_surrogate(hex4(s, p + 8)->0) {
                    string_body(s, p + 12, acc.push(pair_code(u, hex4(s, p + 8)->0) as char))
                } else {
                    Err((SyntaxErrorKind::LoneSurrogate, p))
                }
            } else if is_low_surrogate(u) {
                Err((SyntaxErrorKind::LoneSurrogate, p))
            } else {
                string_body(s, p + 6, acc.push(u as char))
            }
        }
    } else if spec_is_control(s[p]) {
        Err((SyntaxErrorKind::ControlInString, p))
    } else {
        string_body(s, p + 1, acc.push(s[p]))
    }
}

/// Where the number that starts at `p` ends, by
/// `-? (0 | [1-9][0-9]*) (. [0-9]+)? ([eE] [+-]? [0-9]+)?`.
pub open spec fn number_end(s: Seq<char>, p: int) -> Result<int, (SyntaxErrorKind, int)> {
    let a = if 0 <= p < s.len() && s[p] == '-' {
        p + 1
    } else {
        p
    };
    if !(0 <= a < s.len()) || !spec_is_digit(s[a]) {
        Err((SyntaxErrorKind::BadNumber, a))
    } else {
        let b = if s[a] == '0' {
            a + 1
        } else {
            a + digits_len(s, a)
        };
        if b < s.len() && s[b] == '.' && digits_len(s, b + 1) == 0 {
            Err((SyntaxErrorKind::BadNumber, b + 1))
        } else {
            let c = if b < s.len() && s[b] == '.' {
                b + 1 + digits_len(s, b + 1)
            } else {
                b
            };
            if c < s.len() && spec_is_exponent(s[c]) {
                let e = if c + 1 < s.len() && (s[c + 1] == '+' || s[c + 1] == '-') {
                    c + 2
                } else {
                    c + 1
                };
                if digits_len(s, e) == 0 {
                    Err((SyntaxErrorKind::BadNumber, e))
                } else {
                    Ok(e + digits_len(s, e))
                }
            } else {
                Ok(c)
            }
        }
    }
}

/// Whether `word` stands at `p`.
pub open spec fn word_at(s: Seq<char>, p: int, word: Seq<char>) -> bool {
    0 <= p && p + word.len() <= s.len() && s.subrange(p, p + word.len()) == word
}

/// A literal token `word` at `p`, read as `j`.
pub open spec fn literal(s: Seq<char>, p: int, word: Seq<char>, j: Json) -> Step<Json> {
    if word_at(s, p, word) {
        Ok((j, p + word.len()))
    } else {
        Err((SyntaxErrorKind::UnexpectedChar, p))
    }
}

/// A value, after any whitespace at `p`.
pub open spec fn value(s: Seq<char>, p: int) -> Step<Json>
    decreases s.len() - p, 0int,
{
    let q = p + ws_len(s, p);
    if !(0 <= q < s.len()) {
        Err((SyntaxErrorKind::UnexpectedEnd, q))
    } else {
        let c = s[q];
        if c == '{' {
            object(s, q + 1)
        } else if c == '[' {
            array(s, q + 1)
        } else if c == '"' {
            match string_body(s, q + 1, Seq::empty()) {
                Ok((t, e)) => Ok((Json::Str(t), e)),
                Err(x) => Err(x),
            }
        } else if c == 't' {
            literal(s, q, seq!['t', 'r', 'u', 'e'], Json::True)
        } else if c == 'f' {
            literal(s, q, seq!['f', 'a', 'l', 's', 'e'], Json::False)
        } else if c == 'n' {
            literal(s, q, seq!['n', 'u', 'l', 'l'], Json::Null)
        } else if c == '-' || spec_is_digit(c) {
            match number_end(s, q) {
                Ok(e) => Ok((Json::Number(s.subrange(q, e)), e)),
                Err(x) => Err(x),
            }
        } else {
            Err((SyntaxErrorKind::UnexpectedChar, q))
        }
    }
}

/// An array, from just after its `[`.
pub open spec fn array(s: Seq<char>, p: int) -> Step<Json>
    decreases s.len() - p, 2int,
{
    let q = p + ws_len(s, p);
    if !(0 <= q < s.len()) {
        Err((SyntaxErrorKind::UnexpectedEnd, q))
    } else if s[q] == ']' {
        Ok((Json::Array(Seq::empty()), q + 1))
    } else {
        elements(s, p, Seq::empty())
    }
}

/// The elements of an array from `p`, after `acc`: a value, then `,` and
/// more elements or `]`.
pub open spec fn elements(s: Seq<char>, p: int, acc: Seq<Json>) -> Step<Json>
    decreases s.len() - p, 1int,
{
    if !(0 <= p < s.len()) {
        Err((SyntaxErrorKind::UnexpectedEnd, s.len() as int))
    } else {
        match value(s, p) {
            Err(x) => Err(x),
            Ok((v, e)) => if e <= p {
                Err((SyntaxErrorKind::UnexpectedChar, p))
            } else {
                let r = e + ws_len(s, e);
                if !(r < s.len()) {
                    Err((SyntaxErrorKind::UnexpectedEnd, r))
                } else if s[r] == ',' {
                    elements(s, r + 1, acc.push(v))
                } else if s[r] == ']' {
                    Ok((Json::Array(acc.push(v)), r + 1))
                } else {
                    Err((SyntaxErrorKind::UnexpectedChar, r))
                }
            },
        }
    }
}

/// An object, from just after its `{`.
pub open spec fn object(s: Seq<char>, p: int) -> Step<Json>
    decreases s.len() - p, 2int,
{
    let q = p + ws_len(s, p);
    if !(0 <= q < s.len()) {
        Err((SyntaxErrorKind::UnexpectedEnd, q))
    } else if s[q] == '}' {
        Ok((Json::Object(Seq::empty()), q + 1))
    } else {
        members(s, p, Seq::empty())
    }
}

/// The members of an object from `p`, after `acc`: `"name" : value`, then
/// `,` and more members or `}`.
pub open spec fn members(s: Seq<char>, p: int, acc: Seq<(Seq<char>, Json)>) -> Step<Json>
    decreases s.len() - p, 1int,
{
    let q = p + ws_len(s, p);
    if !(0 <= p && q < s.len()) {
        Err((SyntaxErrorKind::UnexpectedEnd, q))
    } else if s[q] != '"' {
        Err((SyntaxErrorKind::UnexpectedChar, q))
    } else {
        match string_body(s, q + 1, Seq::empty()) {
            Err(x) => Err(x),
            Ok((name, e)) => if e <= p {
                Err((SyntaxErrorKind::UnexpectedChar, p))
            } else {
                let k = e + ws_len(s, e);
                if !(k < s.len()) {
                    Err((SyntaxErrorKind::UnexpectedEnd, k))
                } else if s[k] != ':' {
                    Err((SyntaxErrorKind::UnexpectedChar, k))
                } else {
                    match value(s, k + 1) {
                        Err(x) => Err(x),
                        Ok((v, e2)) => if e2 <= p {
                            Err((SyntaxErrorKind::UnexpectedChar, p))
                        } else {
                            let r = e2 + ws_len(s, e2);
                            if !(r < s.len()) {
                                Err((SyntaxErrorKind::UnexpectedEnd, r))
                            } else if s[r] == ',' {
                                members(s, r + 1, acc.push((name, v)))
                            } else if s[r] == '}' {
                                Ok((Json::Object(acc.push((name, v))), r + 1))
                            } else {
                                Err((SyntaxErrorKind::UnexpectedChar, r))
                            }
                        },
                    }
                }
            },
        }
    }
}

/// A whole document: one value, with only whitespace around it.
pub open spec fn document(s: Seq<char>) -> Result<Json, (SyntaxErrorKind, int)> {
    match value(s, 0) {
        Err(x) => Err(x),
        Ok((v, e)) => {
            let r = e + ws_len(s, e);
            if r < s.len() {
                Err((SyntaxErrorKind::TrailingContent, r))
            } else {
                Ok(v)
            }
        },
    }
}

} // verus!

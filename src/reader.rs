//! The reader: text to value tree, or the first syntax error.
use vstd::prelude::*;
use crate::classify::{cargo_is_digit, cargo_is_exponent, cargo_is_hex, cargo_is_control, cargo_is_whitespace, hex_digit_value};
use crate::grammar::{
    SyntaxErrorKind, Step, ws_len, digits_len, hex4, simple_escape,
    pair_code, string_body, number_end, word_at, value, array, elements, object,
    members, document, literal,
};
use crate::laws::{lemma_value_valid, valid_json};
use crate::value::{
    CargoArray, CargoBasic, CargoContent, CargoNumber, CargoObject, CargoString, CargoValue, Json,
    digits_value, int_of_text, name_of,
};

verus! {

broadcast use vstd::std_specs::vec::group_vec_axioms;

/// A refused document: what was wrong, and the index of the character (in
/// code points from the start) where it was found.
#[derive(Debug, Clone, Copy, PartialEq, Eq, Structural)]
pub struct SyntaxError {
    pub kind: SyntaxErrorKind,
    pub position: usize,
}

/// A short description of each kind of error.
pub open spec fn message_of(kind: SyntaxErrorKind) -> Seq<char> {
    match kind {
        SyntaxErrorKind::UnexpectedEnd => "unexpected end of input"@,
        SyntaxErrorKind::UnexpectedChar => "unexpected character"@,
        SyntaxErrorKind::InvalidEscape => "invalid escape sequence"@,
        SyntaxErrorKind::LoneSurrogate => "unpaired UTF-16 surrogate"@,
        SyntaxErrorKind::ControlInString => "control character in string"@,
        SyntaxErrorKind::BadNumber => "malformed number"@,
        SyntaxErrorKind::TrailingContent => "content after the document"@,
    }
}

impl SyntaxError {
    /// A short description of the error.
    pub fn message(&self) -> (r: &'static str)
        ensures
            r@ == message_of(self.kind),
    {
        match self.kind {
            SyntaxErrorKind::UnexpectedEnd => "unexpected end of input",
            SyntaxErrorKind::UnexpectedChar => "unexpected character",
            SyntaxErrorKind::InvalidEscape => "invalid escape sequence",
            SyntaxErrorKind::LoneSurrogate => "unpaired UTF-16 surrogate",
            SyntaxErrorKind::ControlInString => "control character in string",
            SyntaxErrorKind::BadNumber => "malformed number",
            SyntaxErrorKind::TrailingContent => "content after the document",
        }
    }
}

fn fail<T>(kind: SyntaxErrorKind, position: usize) -> (r: Result<T, SyntaxError>)
    ensures
        r == Err::<T, SyntaxError>(SyntaxError { kind, position }),
{
    Err(SyntaxError { kind, position })
}

/// The exec result `r` is what the grammar gives at that place.
pub open spec fn agrees(r: Result<(CargoValue, usize), SyntaxError>, g: Step<Json>) -> bool {
    match (r, g) {
        (Ok((v, e)), Ok((j, ge))) => v.wf() && v.name is None && v.json() == j && e == ge,
        (Err(x), Err((k, gp))) => x.kind == k && x.position == gp,
        _ => false,
    }
}

fn skip_ws(s: &Vec<char>, p: usize) -> (r: usize)
    requires
        p <= s@.len(),
    ensures
        r == p + ws_len(s@, p as int),
        r <= s@.len(),
{
    let mut i: usize = p;
    while i < s.len() && cargo_is_whitespace(s[i])
        invariant
            p <= i <= s@.len(),
            ws_len(s@, p as int) == (i - p) + ws_len(s@, i as int),
        decreases s@.len() - i,
    {
        i = i + 1;
    }
    i
}

fn skip_digits(s: &Vec<char>, p: usize) -> (r: usize)
    requires
        p <= s@.len(),
    ensures
        r == p + digits_len(s@, p as int),
        r <= s@.len(),
{
    let mut i: usize = p;
    while i < s.len() && cargo_is_digit(s[i])
        invariant
            p <= i <= s@.len(),
            digits_len(s@, p as int) == (i - p) + digits_len(s@, i as int),
        decreases s@.len() - i,
    {
        i = i + 1;
    }
    i
}

fn read_hex4(s: &Vec<char>, p: usize) -> (r: Option<u32>)
    requires
        p <= s@.len(),
    ensures
        r == hex4(s@, p as int),
{
    if s.len() - p < 4 {
        return None;
    }
    if !(cargo_is_hex(s[p]) && cargo_is_hex(s[p + 1]) && cargo_is_hex(s[p + 2]) && cargo_is_hex(
        s[p + 3],
    )) {
        return None;
    }
    Some(
        hex_digit_value(s[p]) * 4096 + hex_digit_value(s[p + 1]) * 256 + hex_digit_value(s[p + 2])
            * 16 + hex_digit_value(s[p + 3]),
    )
}

fn escape_of(e: char) -> (r: Option<char>)
    ensures
        r == simple_escape(e),
{
    if e == '"' {
        Some('"')
    } else if e == '\\' {
        Some('\\')
    } else if e == '/' {
        Some('/')
    } else if e == 'b' {
        Some('\u{8}')
    } else if e == 'f' {
        Some('\u{c}')
    } else if e == 'n' {
        Some('\n')
    } else if e == 'r' {
        Some('\r')
    } else if e == 't' {
        Some('\t')
    } else {
        None
    }
}

/// Relies on `char::from_u32`: the `char` with code `u` where `u` is a
/// Unicode scalar value, `None` otherwise.
#[verifier::external_body]
fn char_from_code(u: u32) -> (r: Option<char>)
    ensures
        (u < 0xD800 || (0xE000 <= u && u <= 0x10FFFF)) <==> r is Some,
        r matches Some(c) ==> c as u32 == u,
{
    char::from_u32(u)
}

fn code_char(u: u32) -> (r: char)
    requires
        u < 0xD800 || (0xE000 <= u && u <= 0x10FFFF),
    ensures
        r == u as char,
{
    let c: char = char_from_code(u).unwrap();
    proof {
        vstd::utf8::char_u32_cast(c, u);
    }
    c
}

/// The characters of a string literal whose opening quote is just before
/// `p`, and the position after its closing quote.
pub fn read_cargo_string(s: &Vec<char>, p: usize) -> (r: Result<(CargoString, usize), SyntaxError>)
    requires
        p <= s@.len(),
    ensures
        match (r, string_body(s@, p as int, Seq::empty())) {
            (Ok((t, e)), Ok((gt, ge))) => t.wf() && t@ == gt && e == ge && p < e <= s@.len(),
            (Err(x), Err((k, gp))) => x.kind == k && x.position == gp,
            _ => false,
        },
{
    let n: usize = s.len();
    let mut acc: Vec<char> = Vec::new();
    let mut i: usize = p;
    while i < n
        invariant
            n == s@.len(),
            p <= i <= n,
            string_body(s@, p as int, Seq::empty()) == string_body(s@, i as int, acc@),
        decreases n - i,
    {
        let c: char = s[i];
        if c == '"' {
            return Ok((CargoString::from_chars(acc), i + 1));
        }
        if c == '\\' {
            if i + 1 >= n {
                return fail(SyntaxErrorKind::UnexpectedEnd, n);
            }
            let e: char = s[i + 1];
            match escape_of(e) {
                Some(x) => {
                    acc.push(x);
                    i = i + 2;
                    continue ;
                },
                None => {},
            }
            if e != 'u' {
                return fail(SyntaxErrorKind::InvalidEscape, i + 1);
            }
            let u: u32 = match read_hex4(s, i + 2) {
                None => {
                    return fail(SyntaxErrorKind::InvalidEscape, i + 1);
                },
                Some(u) => u,
            };
            if 0xD800 <= u && u < 0xDC00 {
                if n - i >= 8 && s[i + 6] == '\\' && s[i + 7] == 'u' {
                    match read_hex4(s, i + 8) {
                        Some(l) => {
                            if 0xDC00 <= l && l < 0xE000 {
                                let code: u32 = 0x10000 + (u - 0xD800) * 0x400 + (l - 0xDC00);
                                assert(code == pair_code(u, l));
                                acc.push(code_char(code));
                                i = i + 12;
                                continue ;
                            }
                        },
                        None => {},
                    }
                }
                return fail(SyntaxErrorKind::LoneSurrogate, i);
            }
            if 0xDC00 <= u && u < 0xE000 {
                return fail(SyntaxErrorKind::LoneSurrogate, i);
            }
            acc.push(code_char(u));
            i = i + 6;
        } else if cargo_is_control(c) {
            return fail(SyntaxErrorKind::ControlInString, i);
        } else {
            acc.push(c);
            i = i + 1;
        }
    }
    fail(SyntaxErrorKind::UnexpectedEnd, n)
}

/// Where the number that starts at `p` ends.
fn scan_number(s: &Vec<char>, p: usize) -> (r: Result<usize, SyntaxError>)
    requires
        p < s@.len(),
    ensures
        match (r, number_end(s@, p as int)) {
            (Ok(e), Ok(ge)) => e == ge && p < e <= s@.len(),
            (Err(x), Err((k, gp))) => x.kind == k && x.position == gp,
            _ => false,
        },
{
    let n: usize = s.len();
    let a: usize = if s[p] == '-' {
        p + 1
    } else {
        p
    };
    if !(a < n) || !cargo_is_digit(s[a]) {
        return fail(SyntaxErrorKind::BadNumber, a);
    }
    let b: usize = if s[a] == '0' {
        a + 1
    } else {
        skip_digits(s, a)
    };
    let c: usize = if b < n && s[b] == '.' {
        let f: usize = skip_digits(s, b + 1);
        if f == b + 1 {
            return fail(SyntaxErrorKind::BadNumber, b + 1);
        }
        f
    } else {
        b
    };
    if c < n && cargo_is_exponent(s[c]) {
        let e: usize = if c + 1 < n && (s[c + 1] == '+' || s[c + 1] == '-') {
            c + 2
        } else {
            c + 1
        };
        let d: usize = skip_digits(s, e);
        if d == e {
            return fail(SyntaxErrorKind::BadNumber, e);
        }
        Ok(d)
    } else {
        Ok(c)
    }
}

/// The integer that `t` denotes, where it is a run of digits whose value
/// fits in a `u64`.
pub fn int_of_chars(t: &Vec<char>) -> (r: Option<u64>)
    ensures
        r == int_of_text(t@),
{
    if t.len() == 0 {
        return None;
    }
    let mut i: usize = 0;
    let mut val: u64 = 0;
    let mut over: bool = false;
    while i < t.len()
        invariant
            i <= t@.len(),
            forall|k: int| 0 <= k < i ==> '0' <= #[trigger] t@[k] && t@[k] <= '9',
            over ==> digits_value(t@.take(i as int)) > u64::MAX,
            !over ==> val == digits_value(t@.take(i as int)),
        decreases t@.len() - i,
    {
        let c: char = t[i];
        if !('0' <= c && c <= '9') {
            return None;
        }
        let d: u64 = (c as u32 - '0' as u32) as u64;
        let ghost prev = t@.take(i as int);
        if !over {
            match val.checked_mul(10) {
                Some(m) => match m.checked_add(d) {
                    Some(x) => {
                        val = x;
                    },
                    None => {
                        over = true;
                    },
                },
                None => {
                    over = true;
                },
            }
        }
        i = i + 1;
        assert(t@.take(i as int).drop_last() =~= prev);
        assert(digits_value(t@.take(i as int)) == 10 * digits_value(prev) + d);
    }
    assert(t@.take(t@.len() as int) =~= t@);
    if over {
        None
    } else {
        Some(val)
    }
}

/// The position after `word`, where `word` stands in `s` at `p`.
fn word_end(s: &Vec<char>, p: usize, word: &str) -> (r: Option<usize>)
    requires
        p <= s@.len(),
    ensures
        r is Some <==> word_at(s@, p as int, word@),
        r matches Some(e) ==> e == p + word@.len(),
{
    let m: usize = word.unicode_len();
    if s.len() - p < m {
        return None;
    }
    let mut k: usize = 0;
    while k < m
        invariant
            m == word@.len(),
            p + m <= s@.len(),
            s@.len() <= usize::MAX,
            k <= m,
            forall|j: int| 0 <= j < k ==> s@[p + j] == word@[j],
        decreases m - k,
    {
        if s[p + k] != word.get_char(k) {
            assert(s@.subrange(p as int, p + m)[k as int] != word@[k as int]);
            return None;
        }
        k = k + 1;
    }
    assert(s@.subrange(p as int, p + m) =~= word@);
    Some(p + m)
}

fn leaf(content: CargoContent) -> (r: CargoValue)
    ensures
        r == (CargoValue { name: None, content }),
{
    CargoValue { name: None, content }
}

/// Reads the number that starts at `q`, keeping its text.
pub fn read_cargo_number(s: &Vec<char>, q: usize) -> (r: Result<(CargoValue, usize), SyntaxError>)
    requires
        q < s@.len(),
    ensures
        agrees(
            r,
            match number_end(s@, q as int) {
                Ok(e) => Ok((Json::Number(s@.subrange(q as int, e)), e)),
                Err(x) => Err(x),
            },
        ),
        r matches Ok((_, e)) ==> q < e <= s@.len(),
{
    let e: usize = match scan_number(s, q) {
        Ok(e) => e,
        Err(x) => {
            return Err(x);
        },
    };
    let mut text: Vec<char> = Vec::new();
    let mut k: usize = q;
    while k < e
        invariant
            q <= k <= e <= s@.len(),
            text@ == s@.subrange(q as int, k as int),
        decreases e - k,
    {
        text.push(s[k]);
        k = k + 1;
        assert(text@ =~= s@.subrange(q as int, k as int));
    }
    let int_value: Option<u64> = int_of_chars(&text);
    let num: CargoNumber = CargoNumber::from_text(CargoString::from_chars(text), int_value);
    Ok((leaf(CargoContent::Number(num)), e))
}

/// Reads `true`, `false` or `null` at `q`.
pub fn read_cargo_basic(s: &Vec<char>, q: usize) -> (r: Result<(CargoValue, usize), SyntaxError>)
    requires
        q < s@.len(),
        s@[q as int] == 't' || s@[q as int] == 'f' || s@[q as int] == 'n',
    ensures
        agrees(
            r,
            if s@[q as int] == 't' {
                literal(s@, q as int, seq!['t', 'r', 'u', 'e'], Json::True)
            } else if s@[q as int] == 'f' {
                literal(s@, q as int, seq!['f', 'a', 'l', 's', 'e'], Json::False)
            } else {
                literal(s@, q as int, seq!['n', 'u', 'l', 'l'], Json::Null)
            },
        ),
        r matches Ok((_, e)) ==> q < e <= s@.len(),
{
    proof {
        reveal_strlit("true");
        reveal_strlit("false");
        reveal_strlit("null");
        assert("true"@ =~= seq!['t', 'r', 'u', 'e']);
        assert("false"@ =~= seq!['f', 'a', 'l', 's', 'e']);
        assert("null"@ =~= seq!['n', 'u', 'l', 'l']);
    }
    let (word, basic): (&str, CargoBasic) = if s[q] == 't' {
        ("true", CargoBasic::CargoTrue)
    } else if s[q] == 'f' {
        ("false", CargoBasic::CargoFalse)
    } else {
        ("null", CargoBasic::CargoNull)
    };
    match word_end(s, q, word) {
        Some(e) => Ok((leaf(CargoContent::Basic(basic)), e)),
        None => fail(SyntaxErrorKind::UnexpectedChar, q),
    }
}

/// Reads a value after any whitespace at `p`.
fn read_value(s: &Vec<char>, p: usize) -> (r: Result<(CargoValue, usize), SyntaxError>)
    requires
        p <= s@.len(),
    ensures
        agrees(r, value(s@, p as int)),
        r matches Ok((_, e)) ==> p < e <= s@.len(),
    decreases s@.len() - p, 0int,
{
    let q: usize = skip_ws(s, p);
    if q >= s.len() {
        return fail(SyntaxErrorKind::UnexpectedEnd, q);
    }
    let c: char = s[q];
    if c == '{' {
        read_object(s, q + 1)
    } else if c == '[' {
        read_array(s, q + 1)
    } else if c == '"' {
        match read_cargo_string(s, q + 1) {
            Ok((t, e)) => Ok((leaf(CargoContent::String(t)), e)),
            Err(x) => Err(x),
        }
    } else if c == 't' || c == 'f' || c == 'n' {
        read_cargo_basic(s, q)
    } else if c == '-' || cargo_is_digit(c) {
        read_cargo_number(s, q)
    } else {
        fail(SyntaxErrorKind::UnexpectedChar, q)
    }
}

/// Reads an array whose `[` is just before `p`.
fn read_array(s: &Vec<char>, p: usize) -> (r: Result<(CargoValue, usize), SyntaxError>)
    requires
        p <= s@.len(),
    ensures
        agrees(r, array(s@, p as int)),
        r matches Ok((_, e)) ==> p < e <= s@.len(),
    decreases s@.len() - p, 2int,
{
    let q: usize = skip_ws(s, p);
    if q >= s.len() {
        return fail(SyntaxErrorKind::UnexpectedEnd, q);
    }
    if s[q] == ']' {
        let v: CargoValue = leaf(CargoContent::Array(Box::new(CargoArray { element_list: Vec::new() })));
        assert(v.json()->Array_0 =~= Seq::<Json>::empty());
        return Ok((v, q + 1));
    }
    read_elements(s, p)
}

/// Reads the elements of an array from `p`, up to and with its `]`.
fn read_elements(s: &Vec<char>, p: usize) -> (r: Result<(CargoValue, usize), SyntaxError>)
    requires
        p < s@.len(),
    ensures
        agrees(r, elements(s@, p as int, Seq::empty())),
        r matches Ok((_, e)) ==> p < e <= s@.len(),
    decreases s@.len() - p, 1int,
{
    let n: usize = s.len();
    let mut items: Vec<CargoValue> = Vec::new();
    let ghost mut acc: Seq<Json> = Seq::empty();
    let mut i: usize = p;
    loop
        invariant
            n == s@.len(),
            p <= i < n,
            elements(s@, p as int, Seq::empty()) == elements(s@, i as int, acc),
            items@.len() == acc.len(),
            forall|k: int|
                0 <= k < acc.len() ==> {
                    &&& (#[trigger] items@[k]).wf()
                    &&& items@[k].name is None
                    &&& items@[k].json() == acc[k]
                },
        decreases n - i,
    {
        let (v, e) = match read_value(s, i) {
            Err(x) => {
                return Err(x);
            },
            Ok(pair) => pair,
        };
        let r: usize = skip_ws(s, e);
        if r >= n {
            return fail(SyntaxErrorKind::UnexpectedEnd, r);
        }
        let c: char = s[r];
        if c != ',' && c != ']' {
            return fail(SyntaxErrorKind::UnexpectedChar, r);
        }
        proof {
            acc = acc.push(v.json());
        }
        items.push(v);
        if c == ']' {
            let a: CargoValue = leaf(CargoContent::Array(Box::new(CargoArray { element_list: items })));
            assert(a.json()->Array_0 =~= acc);
            return Ok((a, r + 1));
        }
        if r + 1 >= n {
            assert(elements(s@, r + 1, acc) == Err::<(Json, int), (SyntaxErrorKind, int)>(
                (SyntaxErrorKind::UnexpectedEnd, n as int),
            ));
            return fail(SyntaxErrorKind::UnexpectedEnd, n);
        }
        i = r + 1;
    }
}

/// Reads an object whose `{` is just before `p`.
fn read_object(s: &Vec<char>, p: usize) -> (r: Result<(CargoValue, usize), SyntaxError>)
    requires
        p <= s@.len(),
    ensures
        agrees(r, object(s@, p as int)),
        r matches Ok((v, e)) ==> p < e <= s@.len() && v.content is Object,
    decreases s@.len() - p, 2int,
{
    let q: usize = skip_ws(s, p);
    if q >= s.len() {
        return fail(SyntaxErrorKind::UnexpectedEnd, q);
    }
    if s[q] == '}' {
        let v: CargoValue = leaf(CargoContent::Object(Box::new(CargoObject { member_list: Vec::new() })));
        assert(v.json()->Object_0 =~= Seq::<(Seq<char>, Json)>::empty());
        return Ok((v, q + 1));
    }
    read_members(s, p)
}

/// Reads the members of an object from `p`, up to and with its `}`.
fn read_members(s: &Vec<char>, p: usize) -> (r: Result<(CargoValue, usize), SyntaxError>)
    requires
        p < s@.len(),
    ensures
        agrees(r, members(s@, p as int, Seq::empty())),
        r matches Ok((v, e)) ==> p < e <= s@.len() && v.content is Object,
    decreases s@.len() - p, 1int,
{
    let n: usize = s.len();
    let mut items: Vec<CargoValue> = Vec::new();
    let ghost mut acc: Seq<(Seq<char>, Json)> = Seq::empty();
    let mut i: usize = p;
    loop
        invariant
            n == s@.len(),
            p <= i <= n,
            members(s@, p as int, Seq::empty()) == members(s@, i as int, acc),
            items@.len() == acc.len(),
            forall|k: int|
                0 <= k < acc.len() ==> {
                    &&& (#[trigger] items@[k]).wf()
                    &&& items@[k].name is Some
                    &&& (name_of(items@[k]), items@[k].json()) == acc[k]
                },
        decreases n - i,
    {
        let q: usize = skip_ws(s, i);
        if q >= n {
            return fail(SyntaxErrorKind::UnexpectedEnd, q);
        }
        if s[q] != '"' {
            return fail(SyntaxErrorKind::UnexpectedChar, q);
        }
        let (name, e) = match read_cargo_string(s, q + 1) {
            Err(x) => {
                return Err(x);
            },
            Ok(pair) => pair,
        };
        let k: usize = skip_ws(s, e);
        if k >= n {
            return fail(SyntaxErrorKind::UnexpectedEnd, k);
        }
        if s[k] != ':' {
            return fail(SyntaxErrorKind::UnexpectedChar, k);
        }
        let (v, e2) = match read_value(s, k + 1) {
            Err(x) => {
                return Err(x);
            },
            Ok(pair) => pair,
        };
        let r: usize = skip_ws(s, e2);
        if r >= n {
            return fail(SyntaxErrorKind::UnexpectedEnd, r);
        }
        let c: char = s[r];
        if c != ',' && c != '}' {
            return fail(SyntaxErrorKind::UnexpectedChar, r);
        }
        let member: CargoValue = CargoValue {
            name: Some(name),
            content: v.content,
        };
        proof {
            assert(member.json() == v.json());
            assert(member.wf());
            acc = acc.push((name_of(member), member.json()));
        }
        items.push(member);
        if c == '}' {
            let o: CargoValue = leaf(CargoContent::Object(Box::new(CargoObject { member_list: items })));
            assert(o.json()->Object_0 =~= acc);
            return Ok((o, r + 1));
        }
        i = r + 1;
    }
}

/// Reads the object whose `{` is just before `p`, and gives the position
/// after its `}`.
pub fn read_cargo_object(s: &Vec<char>, p: usize) -> (r: Result<(CargoObject, usize), SyntaxError>)
    requires
        p <= s@.len(),
    ensures
        agrees(
            match r {
                Ok((o, e)) => Ok(
                    (CargoValue { name: None, content: CargoContent::Object(Box::new(o)) }, e),
                ),
                Err(x) => Err(x),
            },
            object(s@, p as int),
        ),
{
    let (v, e) = match read_object(s, p) {
        Ok(pair) => pair,
        Err(x) => {
            return Err(x);
        },
    };
    match v.content {
        CargoContent::Object(o) => Ok((*o, e)),
        _ => fail(SyntaxErrorKind::UnexpectedChar, p),
    }
}

/// Reads a whole document: one value with only whitespace around it.
pub fn read_cargo_value(s: &Vec<char>) -> (r: Result<CargoValue, SyntaxError>)
    ensures
        match (r, document(s@)) {
            (Ok(v), Ok(j)) => v.wf() && v.name is None && v.json() == j && valid_json(j),
            (Err(x), Err((k, gp))) => x.kind == k && x.position == gp,
            _ => false,
        },
{
    let (v, e) = match read_value(s, 0) {
        Err(x) => {
            return Err(x);
        },
        Ok(pair) => pair,
    };
    let r: usize = skip_ws(s, e);
    if r < s.len() {
        return fail(SyntaxErrorKind::TrailingContent, r);
    }
    proof {
        lemma_value_valid(s@, 0);
    }
    Ok(v)
}

} // verus!

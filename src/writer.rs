//! The writer: canonical and pretty-printed text of a value tree.
use vstd::prelude::*;
use crate::value::{CargoBasic, CargoContent, CargoNumber, CargoString, CargoValue, Json, name_of};

verus! {

broadcast use vstd::std_specs::vec::group_vec_axioms;

/// Which of the two output forms to write.
#[derive(Debug, Clone, Copy, PartialEq, Eq, Structural)]
pub enum WriteMode {
    Canonical,
    Pretty,
}

/// How to write: the form, and in the pretty form the spaces per level.
#[derive(Debug, Clone, Copy, PartialEq, Eq, Structural)]
pub struct WriteConfig {
    pub mode: WriteMode,
    pub indent_width: usize,
}

/// The indent width used where none is given.
pub const DEFAULT_INDENT: usize = 4;

/// A lower-case hexadecimal digit.
pub open spec fn hex_char(d: u8) -> char {
    if d < 10 {
        (48 + d) as u8 as char
    } else {
        (87 + d) as u8 as char
    }
}

/// How one character of a string is written between the quotes: `"` and
/// `\` and the control characters are escaped, every other character is
/// written as it is.
pub open spec fn escape_char(c: char) -> Seq<char> {
    if c == '"' {
        seq!['\\', '"']
    } else if c == '\\' {
        seq!['\\', '\\']
    } else if c == '\u{8}' {
        seq!['\\', 'b']
    } else if c == '\u{c}' {
        seq!['\\', 'f']
    } else if c == '\n' {
        seq!['\\', 'n']
    } else if c == '\r' {
        seq!['\\', 'r']
    } else if c == '\t' {
        seq!['\\', 't']
    } else if (c as u32) < 0x20 {
        seq!['\\', 'u', '0', '0', hex_char((c as u32 / 16) as u8), hex_char((c as u32 % 16) as u8)]
    } else {
        seq![c]
    }
}

/// The escaped characters of a string, without the quotes.
pub open spec fn escape_str(s: Seq<char>) -> Seq<char>
    decreases s.len(),
{
    if s.len() == 0 {
        Seq::empty()
    } else {
        escape_str(s.drop_last()) + escape_char(s.last())
    }
}

/// A string literal.
pub open spec fn quoted(s: Seq<char>) -> Seq<char> {
    seq!['"'] + escape_str(s) + seq!['"']
}

/// The canonical text of a document: no whitespace outside strings.
pub open spec fn canon(j: Json) -> Seq<char>
    decreases j,
{
    match j {
        Json::Object(ms) => seq!['{'] + canon_members(ms) + seq!['}'],
        Json::Array(es) => seq!['['] + canon_elements(es) + seq![']'],
        Json::Str(s) => quoted(s),
        Json::Number(t) => t,
        Json::Null => seq!['n', 'u', 'l', 'l'],
        Json::True => seq!['t', 'r', 'u', 'e'],
        Json::False => seq!['f', 'a', 'l', 's', 'e'],
    }
}

/// Members written `"name":value`, separated by commas.
pub open spec fn canon_members(ms: Seq<(Seq<char>, Json)>) -> Seq<char>
    decreases ms,
{
    if ms.len() == 0 {
        Seq::empty()
    } else {
        let m = ms[ms.len() - 1];
        canon_members(ms.subrange(0, ms.len() - 1)) + (if ms.len() > 1 {
            seq![',']
        } else {
            Seq::empty()
        }) + quoted(m.0) + seq![':'] + canon(m.1)
    }
}

/// Elements separated by commas.
pub open spec fn canon_elements(es: Seq<Json>) -> Seq<char>
    decreases es,
{
    if es.len() == 0 {
        Seq::empty()
    } else {
        canon_elements(es.subrange(0, es.len() - 1)) + (if es.len() > 1 {
            seq![',']
        } else {
            Seq::empty()
        }) + canon(es[es.len() - 1])
    }
}

/// `n` spaces.
pub open spec fn spaces(n: nat) -> Seq<char> {
    Seq::new(n, |i: int| ' ')
}

/// A line break followed by the indentation of level `depth`.
pub open spec fn new_line(width: nat, depth: nat) -> Seq<char> {
    seq!['\n'] + spaces(width * depth)
}

/// The pretty text of a document at nesting level `depth`: a line break
/// after each `{`, `[` and separating comma, and before each `}` or `]`
/// that closes a non-empty container; each line indented by `width` spaces
/// per level. Empty containers stay `{}` and `[]`.
pub open spec fn pretty(j: Json, width: nat, depth: nat) -> Seq<char>
    decreases j,
{
    match j {
        Json::Object(ms) => if ms.len() == 0 {
            seq!['{', '}']
        } else {
            seq!['{'] + pretty_members(ms, width, depth + 1) + new_line(width, depth) + seq!['}']
        },
        Json::Array(es) => if es.len() == 0 {
            seq!['[', ']']
        } else {
            seq!['['] + pretty_elements(es, width, depth + 1) + new_line(width, depth) + seq![
                ']',
            ]
        },
        _ => canon(j),
    }
}

/// Members of an object at level `depth`, each on a line of its own.
pub open spec fn pretty_members(ms: Seq<(Seq<char>, Json)>, width: nat, depth: nat) -> Seq<char>
    decreases ms,
{
    if ms.len() == 0 {
        Seq::empty()
    } else {
        let m = ms[ms.len() - 1];
        pretty_members(ms.subrange(0, ms.len() - 1), width, depth) + (if ms.len() > 1 {
            seq![',']
        } else {
            Seq::empty()
        }) + new_line(width, depth) + quoted(m.0) + seq![':'] + pretty(m.1, width, depth)
    }
}

/// Elements of an array at level `depth`, each on a line of its own.
pub open spec fn pretty_elements(es: Seq<Json>, width: nat, depth: nat) -> Seq<char>
    decreases es,
{
    if es.len() == 0 {
        Seq::empty()
    } else {
        pretty_elements(es.subrange(0, es.len() - 1), width, depth) + (if es.len() > 1 {
            seq![',']
        } else {
            Seq::empty()
        }) + new_line(width, depth) + pretty(es[es.len() - 1], width, depth)
    }
}

/// The text that `config` asks for.
pub open spec fn written(j: Json, config: WriteConfig) -> Seq<char> {
    match config.mode {
        WriteMode::Canonical => canon(j),
        WriteMode::Pretty => pretty(j, config.indent_width as nat, 0),
    }
}

fn hex_digit_char(d: u8) -> (r: char)
    requires
        d < 16,
    ensures
        r == hex_char(d),
{
    if d < 10 {
        (48 + d) as char
    } else {
        (87 + d) as char
    }
}

fn push_all(out: &mut Vec<char>, s: &Vec<char>)
    ensures
        final(out)@ == old(out)@ + s@,
{
    let mut i: usize = 0;
    while i < s.len()
        invariant
            i <= s@.len(),
            out@ == old(out)@ + s@.take(i as int),
        decreases s@.len() - i,
    {
        out.push(s[i]);
        i = i + 1;
        assert(s@.take(i as int) =~= s@.take(i - 1) + seq![s@[i - 1]]);
    }
    assert(s@.take(s@.len() as int) =~= s@);
}

/// Appends the escaped form of `c`.
pub fn write_escaped_char(c: char, out: &mut Vec<char>)
    ensures
        final(out)@ == old(out)@ + escape_char(c),
{
    let pair: Option<char> = if c == '"' {
        Some('"')
    } else if c == '\\' {
        Some('\\')
    } else if c == '\u{8}' {
        Some('b')
    } else if c == '\u{c}' {
        Some('f')
    } else if c == '\n' {
        Some('n')
    } else if c == '\r' {
        Some('r')
    } else if c == '\t' {
        Some('t')
    } else {
        None
    };
    match pair {
        Some(e) => {
            out.push('\\');
            out.push(e);
            assert(final(out)@ =~= old(out)@ + escape_char(c));
        },
        None => {
            if (c as u32) < 0x20 {
                let code: u32 = c as u32;
                out.push('\\');
                out.push('u');
                out.push('0');
                out.push('0');
                out.push(hex_digit_char((code / 16) as u8));
                out.push(hex_digit_char((code % 16) as u8));
            } else {
                out.push(c);
            }
            assert(final(out)@ =~= old(out)@ + escape_char(c));
        },
    }
}

impl CargoString {
    /// Appends this string as a string literal.
    pub fn write_cargo_string(&self, out: &mut Vec<char>)
        ensures
            final(out)@ == old(out)@ + quoted(self@),
    {
        let s: &Vec<char> = self.chars();
        out.push('"');
        let mut i: usize = 0;
        while i < s.len()
            invariant
                s@ == self@,
                i <= s@.len(),
                out@ == old(out)@ + seq!['"'] + escape_str(s@.take(i as int)),
            decreases s@.len() - i,
        {
            write_escaped_char(s[i], out);
            i = i + 1;
            assert(s@.take(i as int).drop_last() =~= s@.take(i - 1));
        }
        assert(s@.take(s@.len() as int) =~= s@);
        out.push('"');
        assert(final(out)@ =~= old(out)@ + quoted(self@));
    }
}

impl CargoNumber {
    /// Appends the number's text.
    pub fn write_cargo_number(&self, out: &mut Vec<char>)
        requires
            self.wf(),
        ensures
            final(out)@ == old(out)@ + self@,
    {
        push_all(out, self.text().chars());
    }
}

/// The token of a basic value.
pub open spec fn basic_text(b: CargoBasic) -> Seq<char> {
    match b {
        CargoBasic::CargoNull => seq!['n', 'u', 'l', 'l'],
        CargoBasic::CargoTrue => seq!['t', 'r', 'u', 'e'],
        CargoBasic::CargoFalse => seq!['f', 'a', 'l', 's', 'e'],
    }
}

impl CargoBasic {
    /// Appends the token `null`, `true` or `false`.
    pub fn write_cargo_basic(&self, out: &mut Vec<char>)
        ensures
            final(out)@ == old(out)@ + basic_text(*self),
    {
        proof {
            reveal_strlit("null");
            reveal_strlit("true");
            reveal_strlit("false");
            assert("null"@ =~= seq!['n', 'u', 'l', 'l']);
            assert("true"@ =~= seq!['t', 'r', 'u', 'e']);
            assert("false"@ =~= seq!['f', 'a', 'l', 's', 'e']);
        }
        match self {
            CargoBasic::CargoNull => write_literal("null", out),
            CargoBasic::CargoTrue => write_literal("true", out),
            CargoBasic::CargoFalse => write_literal("false", out),
        }
    }
}

fn write_literal(lit: &str, out: &mut Vec<char>)
    ensures
        final(out)@ == old(out)@ + lit@,
{
    let n: usize = lit.unicode_len();
    let mut i: usize = 0;
    while i < n
        invariant
            n == lit@.len(),
            i <= n,
            out@ == old(out)@ + lit@.take(i as int),
        decreases n - i,
    {
        out.push(lit.get_char(i));
        i = i + 1;
        assert(lit@.take(i as int) =~= lit@.take(i - 1) + seq![lit@[i - 1]]);
    }
    assert(lit@.take(n as int) =~= lit@);
}

fn write_scalar(v: &CargoValue, out: &mut Vec<char>)
    requires
        v.wf(),
        !(v.content is Object),
        !(v.content is Array),
    ensures
        final(out)@ == old(out)@ + canon(v.json()),
{
    match &v.content {
        CargoContent::String(s) => s.write_cargo_string(out),
        CargoContent::Number(n) => n.write_cargo_number(out),
        CargoContent::Basic(b) => b.write_cargo_basic(out),
        _ => {},
    }
}

/// Appends the canonical text of `v`.
pub fn write_canonical(v: &CargoValue, out: &mut Vec<char>)
    requires
        v.wf(),
    ensures
        final(out)@ == old(out)@ + canon(v.json()),
    decreases v,
{
    match &v.content {
        CargoContent::Object(o) => {
            let ghost ms = v.json()->Object_0;
            out.push('{');
            let mut i: usize = 0;
            while i < o.member_list.len()
                invariant
                    v.wf(),
                    v.content == CargoContent::Object(*o),
                    ms == v.json()->Object_0,
                    i <= o.member_list@.len(),
                    out@ == old(out)@ + seq!['{'] + canon_members(ms.take(i as int)),
                decreases o.member_list@.len() - i,
            {
                let ghost before = out@;
                if i > 0 {
                    out.push(',');
                }
                let m: &CargoValue = &o.member_list[i];
                m.name.as_ref().unwrap().write_cargo_string(out);
                out.push(':');
                write_canonical(m, out);
                proof {
                    assert(ms[i as int] == (name_of(*m), m.json()));
                    assert(ms.take(i + 1).subrange(0, i as int) =~= ms.take(i as int));
                }
                i = i + 1;
                assert(out@ =~= old(out)@ + seq!['{'] + canon_members(ms.take(i as int)));
            }
            assert(ms.take(ms.len() as int) =~= ms);
            out.push('}');
            assert(final(out)@ =~= old(out)@ + canon(v.json()));
        },
        CargoContent::Array(a) => {
            let ghost es = v.json()->Array_0;
            out.push('[');
            let mut i: usize = 0;
            while i < a.element_list.len()
                invariant
                    v.wf(),
                    v.content == CargoContent::Array(*a),
                    es == v.json()->Array_0,
                    i <= a.element_list@.len(),
                    out@ == old(out)@ + seq!['['] + canon_elements(es.take(i as int)),
                decreases a.element_list@.len() - i,
            {
                if i > 0 {
                    out.push(',');
                }
                let e: &CargoValue = &a.element_list[i];
                write_canonical(e, out);
                proof {
                    assert(es[i as int] == e.json());
                    assert(es.take(i + 1).subrange(0, i as int) =~= es.take(i as int));
                }
                i = i + 1;
                assert(out@ =~= old(out)@ + seq!['['] + canon_elements(es.take(i as int)));
            }
            assert(es.take(es.len() as int) =~= es);
            out.push(']');
            assert(final(out)@ =~= old(out)@ + canon(v.json()));
        },
        _ => write_scalar(v, out),
    }
}

/// Appends the pretty text of `v` at the level whose indentation is `indent`.
fn write_pretty(
    v: &CargoValue,
    width: usize,
    indent: &Vec<char>,
    Ghost(depth): Ghost<nat>,
    out: &mut Vec<char>,
)
    requires
        v.wf(),
        indent@ == spaces(width as nat * depth),
    ensures
        final(out)@ == old(out)@ + pretty(v.json(), width as nat, depth),
    decreases v,
{
    let ghost w = width as nat;
    match &v.content {
        CargoContent::Object(o) => {
            let ghost ms = v.json()->Object_0;
            if o.member_list.len() == 0 {
                out.push('{');
                out.push('}');
                assert(final(out)@ =~= old(out)@ + pretty(v.json(), w, depth));
                return;
            }
            let inner: Vec<char> = deeper(indent, width, Ghost(depth));
            out.push('{');
            let mut i: usize = 0;
            while i < o.member_list.len()
                invariant
                    v.wf(),
                    v.content == CargoContent::Object(*o),
                    ms == v.json()->Object_0,
                    i <= o.member_list@.len(),
                    inner@ == spaces(width as nat * (depth + 1)),
                    w == width as nat,
                    out@ == old(out)@ + seq!['{'] + pretty_members(ms.take(i as int), w, depth + 1),
                decreases o.member_list@.len() - i,
            {
                if i > 0 {
                    out.push(',');
                }
                out.push('\n');
                push_all(out, &inner);
                let m: &CargoValue = &o.member_list[i];
                m.name.as_ref().unwrap().write_cargo_string(out);
                out.push(':');
                write_pretty(m, width, &inner, Ghost(depth + 1), out);
                proof {
                    assert(ms[i as int] == (name_of(*m), m.json()));
                    assert(ms.take(i + 1).subrange(0, i as int) =~= ms.take(i as int));
                    assert(inner@ =~= new_line(w, depth + 1).drop_first());
                }
                i = i + 1;
                assert(out@ =~= old(out)@ + seq!['{'] + pretty_members(ms.take(i as int), w, depth + 1));
            }
            assert(ms.take(ms.len() as int) =~= ms);
            out.push('\n');
            push_all(out, indent);
            out.push('}');
            assert(final(out)@ =~= old(out)@ + pretty(v.json(), w, depth));
        },
        CargoContent::Array(a) => {
            let ghost es = v.json()->Array_0;
            if a.element_list.len() == 0 {
                out.push('[');
                out.push(']');
                assert(final(out)@ =~= old(out)@ + pretty(v.json(), w, depth));
                return;
            }
            let inner: Vec<char> = deeper(indent, width, Ghost(depth));
            out.push('[');
            let mut i: usize = 0;
            while i < a.element_list.len()
                invariant
                    v.wf(),
                    v.content == CargoContent::Array(*a),
                    es == v.json()->Array_0,
                    i <= a.element_list@.len(),
                    inner@ == spaces(width as nat * (depth + 1)),
                    w == width as nat,
                    out@ == old(out)@ + seq!['['] + pretty_elements(es.take(i as int), w, depth + 1),
                decreases a.element_list@.len() - i,
            {
                if i > 0 {
                    out.push(',');
                }
                out.push('\n');
                push_all(out, &inner);
                let e: &CargoValue = &a.element_list[i];
                write_pretty(e, width, &inner, Ghost(depth + 1), out);
                proof {
                    assert(es[i as int] == e.json());
                    assert(es.take(i + 1).subrange(0, i as int) =~= es.take(i as int));
                    assert(inner@ =~= new_line(w, depth + 1).drop_first());
                }
                i = i + 1;
                assert(out@ =~= old(out)@ + seq!['['] + pretty_elements(es.take(i as int), w, depth + 1));
            }
            assert(es.take(es.len() as int) =~= es);
            out.push('\n');
            push_all(out, indent);
            out.push(']');
            assert(final(out)@ =~= old(out)@ + pretty(v.json(), w, depth));
        },
        _ => write_scalar(v, out),
    }
}

/// The indentation one level deeper than `indent`.
fn deeper(indent: &Vec<char>, width: usize, Ghost(depth): Ghost<nat>) -> (r: Vec<char>)
    requires
        indent@ == spaces(width as nat * depth),
    ensures
        r@ == spaces(width as nat * (depth + 1)),
{
    let mut r: Vec<char> = indent.clone();
    let mut k: usize = 0;
    while k < width
        invariant
            k <= width,
            r@ == spaces(width as nat * depth + k as nat),
        decreases width - k,
    {
        r.push(' ');
        k = k + 1;
        assert(r@ =~= spaces(width as nat * depth + k as nat));
    }
    assert(width as nat * (depth + 1) == width as nat * depth + width) by (nonlinear_arith);
    assert(r@ =~= spaces(width as nat * (depth + 1)));
    r
}

/// Relies on `String::from_iter` over `&char` items: the string holds the
/// given characters in order.
#[verifier::external_body]
fn string_of(chars: &Vec<char>) -> (r: String)
    ensures
        r@ == chars@,
{
    String::from_iter(chars)
}

/// The text of `v` in the form that `config` asks for.
pub fn write(v: &CargoValue, config: WriteConfig) -> (r: String)
    requires
        v.wf(),
    ensures
        r@ == written(v.json(), config),
{
    let mut out: Vec<char> = Vec::new();
    match config.mode {
        WriteMode::Canonical => write_canonical(v, &mut out),
        WriteMode::Pretty => {
            let indent: Vec<char> = Vec::new();
            assert(indent@ =~= spaces(config.indent_width as nat * 0nat));
            write_pretty(v, config.indent_width, &indent, Ghost(0), &mut out);
        },
    }
    assert(out@ =~= written(v.json(), config));
    string_of(&out)
}

} // verus!

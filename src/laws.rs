//! What holds between the reader and the writer.
use vstd::prelude::*;
use crate::classify::{spec_is_digit, spec_is_whitespace, hex_value, spec_is_hex};
use crate::grammar::{
    SyntaxErrorKind, ws_len, digits_len, hex4, string_body, number_end, word_at, value, array,
    elements, object, members, document,
};
use crate::value::Json;
use crate::writer::{escape_char, escape_str, quoted, canon, canon_members, canon_elements, hex_char};

verus! {

/// A number's text that the number grammar reads whole.
pub open spec fn valid_number(t: Seq<char>) -> bool {
    number_end(t, 0) == Ok::<int, (SyntaxErrorKind, int)>(t.len() as int)
}

/// Every number in the tree is written in the number grammar.
pub open spec fn valid_json(j: Json) -> bool
    decreases j,
{
    match j {
        Json::Object(ms) => forall|i: int| 0 <= i < ms.len() ==> valid_json(#[trigger] ms[i].1),
        Json::Array(es) => forall|i: int| 0 <= i < es.len() ==> valid_json(#[trigger] es[i]),
        Json::Number(t) => valid_number(t),
        _ => true,
    }
}

/// A character that may follow a value: a separator, a closing bracket or
/// whitespace; or the end of the text.
pub open spec fn ends_value(s: Seq<char>, k: int) -> bool {
    k == s.len() || (0 <= k < s.len() && (s[k] == ',' || s[k] == ']' || s[k] == '}'
        || spec_is_whitespace(s[k])))
}

/// `s` holds `t` from `p` on.
pub open spec fn holds_at(s: Seq<char>, p: int, t: Seq<char>) -> bool {
    0 <= p && p + t.len() <= s.len() && s.subrange(p, p + t.len()) == t
}

pub(crate) proof fn lemma_holds_split(s: Seq<char>, p: int, a: Seq<char>, b: Seq<char>)
    requires
        holds_at(s, p, a + b),
    ensures
        holds_at(s, p, a),
        holds_at(s, p + a.len(), b),
{
    let w = s.subrange(p, p + (a + b).len());
    assert(s.subrange(p, p + a.len()) =~= w.subrange(0, a.len() as int));
    assert(w.subrange(0, a.len() as int) =~= a);
    assert(s.subrange(p + a.len(), p + a.len() + b.len()) =~= w.subrange(
        a.len() as int,
        w.len() as int,
    ));
    assert(w.subrange(a.len() as int, w.len() as int) =~= b);
}

pub(crate) proof fn lemma_holds_index(s: Seq<char>, p: int, t: Seq<char>, k: int)
    requires
        holds_at(s, p, t),
        0 <= k < t.len(),
    ensures
        s[p + k] == t[k],
{
    assert(s.subrange(p, p + t.len())[k] == s[p + k]);
}

proof fn lemma_escape_front(t: Seq<char>)
    requires
        t.len() > 0,
    ensures
        escape_str(t) == escape_char(t[0]) + escape_str(t.drop_first()),
    decreases t.len(),
{
    if t.len() == 1 {
        assert(t.drop_last() =~= Seq::<char>::empty());
        assert(t.drop_first() =~= Seq::<char>::empty());
        assert(escape_str(t) =~= escape_char(t[0]) + escape_str(t.drop_first()));
    } else {
        lemma_escape_front(t.drop_last());
        assert(t.drop_last().drop_first() =~= t.drop_first().drop_last());
        assert(t.drop_first().last() == t.last());
        assert(escape_str(t) =~= escape_char(t[0]) + escape_str(t.drop_first()));
    }
}

proof fn lemma_hex_char(d: u8)
    requires
        d < 16,
    ensures
        spec_is_hex(hex_char(d)),
        hex_value(hex_char(d)) == d,
{
}

proof fn lemma_read_escaped_char(s: Seq<char>, q: int, c: char, acc: Seq<char>)
    requires
        holds_at(s, q, escape_char(c)),
    ensures
        string_body(s, q, acc) == string_body(s, q + escape_char(c).len(), acc.push(c)),
{
    let e = escape_char(c);
    lemma_holds_index(s, q, e, 0);
    if e.len() >= 2 {
        lemma_holds_index(s, q, e, 1);
    }
    if e.len() == 6 {
        lemma_holds_index(s, q, e, 2);
        lemma_holds_index(s, q, e, 3);
        lemma_holds_index(s, q, e, 4);
        lemma_holds_index(s, q, e, 5);
        let u = c as u32;
        lemma_hex_char((u / 16) as u8);
        lemma_hex_char((u % 16) as u8);
        assert(hex4(s, q + 2) == Some(u));
        vstd::utf8::char_u32_cast(c, u);
    }
}

pub(crate) proof fn lemma_read_string(s: Seq<char>, q: int, t: Seq<char>, acc: Seq<char>)
    requires
        holds_at(s, q, escape_str(t) + seq!['"']),
    ensures
        string_body(s, q, acc) == Ok::<(Seq<char>, int), (SyntaxErrorKind, int)>(
            (acc + t, q + escape_str(t).len() + 1),
        ),
    decreases t.len(),
{
    if t.len() == 0 {
        lemma_holds_index(s, q, escape_str(t) + seq!['"'], 0);
        assert(acc + t =~= acc);
    } else {
        lemma_escape_front(t);
        let e = escape_char(t[0]);
        assert(escape_str(t) + seq!['"'] =~= e + (escape_str(t.drop_first()) + seq!['"']));
        lemma_holds_split(s, q, e, escape_str(t.drop_first()) + seq!['"']);
        lemma_read_escaped_char(s, q, t[0], acc);
        lemma_read_string(s, q + e.len(), t.drop_first(), acc.push(t[0]));
        assert(acc.push(t[0]) + t.drop_first() =~= acc + t);
    }
}

proof fn lemma_digits_at(s: Seq<char>, p: int, t: Seq<char>, i: int)
    requires
        holds_at(s, p, t),
        0 <= i <= t.len(),
        p + t.len() == s.len() || !spec_is_digit(s[p + t.len()]),
    ensures
        digits_len(s, p + i) == digits_len(t, i),
    decreases t.len() - i,
{
    if i < t.len() {
        lemma_holds_index(s, p, t, i);
        lemma_digits_at(s, p, t, i + 1);
    }
}

proof fn lemma_read_number(s: Seq<char>, p: int, t: Seq<char>)
    requires
        valid_number(t),
        holds_at(s, p, t),
        ends_value(s, p + t.len()),
    ensures
        number_end(s, p) == Ok::<int, (SyntaxErrorKind, int)>(p + t.len()),
{
    let n = t.len() as int;
    assert forall|k: int| 0 <= k < n implies s[p + k] == t[k] by {
        lemma_holds_index(s, p, t, k);
    }
    let a: int = if t[0] == '-' {
        1
    } else {
        0
    };
    lemma_digits_at(s, p, t, a);
    let b = if t[a] == '0' {
        a + 1
    } else {
        a + digits_len(t, a)
    };
    if b < n {
        lemma_digits_at(s, p, t, b + 1);
    }
    let c = if b < n && t[b] == '.' {
        b + 1 + digits_len(t, b + 1)
    } else {
        b
    };
    if c + 1 <= n {
        lemma_digits_at(s, p, t, c + 1);
    }
    if c + 2 <= n {
        lemma_digits_at(s, p, t, c + 2);
    }
}

/// The first character of a valid tree's canonical text starts a value.
pub(crate) proof fn lemma_canon_first(j: Json)
    requires
        valid_json(j),
    ensures
        canon(j).len() > 0,
        !spec_is_whitespace(canon(j)[0]),
        canon(j)[0] != ',' && canon(j)[0] != ']' && canon(j)[0] != '}' && canon(j)[0] != ':',
        canon(j)[0] == '"' ==> j is Str,
{
    match j {
        Json::Number(t) => {
            assert(t.len() > 0);
        },
        _ => {},
    }
}

proof fn lemma_ce_holds(s: Seq<char>, p0: int, es: Seq<Json>, k: int)
    requires
        holds_at(s, p0, canon_elements(es)),
        0 <= k <= es.len(),
    ensures
        holds_at(s, p0, canon_elements(es.take(k))),
    decreases es.len() - k,
{
    if k == es.len() {
        assert(es.take(k) =~= es);
    } else {
        lemma_ce_holds(s, p0, es, k + 1);
        let sep = if k > 0 {
            seq![',']
        } else {
            Seq::<char>::empty()
        };
        assert(es.take(k + 1).subrange(0, k) =~= es.take(k));
        assert(canon_elements(es.take(k + 1)) == canon_elements(es.take(k)) + sep + canon(es[k]));
        assert(canon_elements(es.take(k + 1)) =~= canon_elements(es.take(k)) + (sep + canon(es[k])));
        lemma_holds_split(s, p0, canon_elements(es.take(k)), sep + canon(es[k]));
    }
}

proof fn lemma_cm_holds(s: Seq<char>, p0: int, ms: Seq<(Seq<char>, Json)>, k: int)
    requires
        holds_at(s, p0, canon_members(ms)),
        0 <= k <= ms.len(),
    ensures
        holds_at(s, p0, canon_members(ms.take(k))),
    decreases ms.len() - k,
{
    if k == ms.len() {
        assert(ms.take(k) =~= ms);
    } else {
        lemma_cm_holds(s, p0, ms, k + 1);
        let sep = if k > 0 {
            seq![',']
        } else {
            Seq::<char>::empty()
        };
        let m = ms[k];
        let tail = sep + quoted(m.0) + seq![':'] + canon(m.1);
        assert(ms.take(k + 1).subrange(0, k) =~= ms.take(k));
        assert(canon_members(ms.take(k + 1)) =~= canon_members(ms.take(k)) + tail);
        lemma_holds_split(s, p0, canon_members(ms.take(k)), tail);
    }
}

/// The reader reads a valid tree's canonical text, followed by something
/// that may follow a value, back as that tree.
pub proof fn lemma_read_canon(s: Seq<char>, p: int, j: Json)
    requires
        valid_json(j),
        holds_at(s, p, canon(j)),
        ends_value(s, p + canon(j).len()),
    ensures
        value(s, p) == Ok::<(Json, int), (SyntaxErrorKind, int)>((j, p + canon(j).len())),
    decreases j, 2int,
{
    lemma_canon_first(j);
    lemma_holds_index(s, p, canon(j), 0);
    match j {
        Json::Object(ms) => {
            lemma_read_canon_object(s, p, j);
        },
        Json::Array(es) => {
            lemma_read_canon_array(s, p, j);
        },
        Json::Str(t) => {
            assert(canon(j) =~= seq!['"'] + (escape_str(t) + seq!['"']));
            lemma_holds_split(s, p, seq!['"'], escape_str(t) + seq!['"']);
            lemma_read_string(s, p + 1, t, Seq::empty());
            assert(Seq::<char>::empty() + t =~= t);
        },
        Json::Number(t) => {
            lemma_read_number(s, p, t);
        },
        _ => {
            assert(word_at(s, p, canon(j)));
        },
    }
}

#[verifier::rlimit(50)]
proof fn lemma_read_canon_object(s: Seq<char>, p: int, j: Json)
    requires
        j is Object,
        valid_json(j),
        holds_at(s, p, canon(j)),
        ends_value(s, p + canon(j).len()),
    ensures
        value(s, p) == Ok::<(Json, int), (SyntaxErrorKind, int)>((j, p + canon(j).len())),
    decreases j, 1int,
{
    let ms = j->Object_0;
    let body = canon_members(ms);
    assert(canon(j) =~= seq!['{'] + (body + seq!['}']));
    lemma_holds_split(s, p, seq!['{'], body + seq!['}']);
    lemma_holds_index(s, p, seq!['{'], 0);
    lemma_holds_split(s, p + 1, body, seq!['}']);
    lemma_holds_index(s, p + 1 + body.len(), seq!['}'], 0);
    if ms.len() == 0 {
        assert(ms =~= Seq::<(Seq<char>, Json)>::empty());
    } else {
        lemma_read_members(s, p + 1, ms, 0);
        assert(ms.take(0) =~= Seq::<(Seq<char>, Json)>::empty());
        lemma_cm_holds(s, p + 1, ms, 1);
        assert(ms.take(1).subrange(0, 0) =~= Seq::<(Seq<char>, Json)>::empty());
        assert(canon_members(ms.take(1)) =~= quoted(ms[0].0) + seq![':'] + canon(ms[0].1));
        lemma_holds_index(s, p + 1, canon_members(ms.take(1)), 0);
    }
}

#[verifier::rlimit(50)]
proof fn lemma_read_canon_array(s: Seq<char>, p: int, j: Json)
    requires
        j is Array,
        valid_json(j),
        holds_at(s, p, canon(j)),
        ends_value(s, p + canon(j).len()),
    ensures
        value(s, p) == Ok::<(Json, int), (SyntaxErrorKind, int)>((j, p + canon(j).len())),
    decreases j, 1int,
{
    let es = j->Array_0;
    let body = canon_elements(es);
    assert(canon(j) =~= seq!['['] + (body + seq![']']));
    lemma_holds_split(s, p, seq!['['], body + seq![']']);
    lemma_holds_index(s, p, seq!['['], 0);
    lemma_holds_split(s, p + 1, body, seq![']']);
    lemma_holds_index(s, p + 1 + body.len(), seq![']'], 0);
    if es.len() == 0 {
        assert(es =~= Seq::<Json>::empty());
    } else {
        lemma_read_elements(s, p + 1, es, 0);
        assert(es.take(0) =~= Seq::<Json>::empty());
        lemma_ce_holds(s, p + 1, es, 1);
        assert(es.take(1).subrange(0, 0) =~= Seq::<Json>::empty());
        assert(canon_elements(es.take(1)) =~= canon(es[0]));
        lemma_canon_first(es[0]);
        lemma_holds_index(s, p + 1, canon(es[0]), 0);
    }
}

proof fn lemma_read_elements(s: Seq<char>, p0: int, es: Seq<Json>, i: int)
    requires
        es.len() > 0,
        forall|k: int| 0 <= k < es.len() ==> valid_json(#[trigger] es[k]),
        holds_at(s, p0, canon_elements(es) + seq![']']),
        0 <= i < es.len(),
    ensures
        elements(
            s,
            p0 + canon_elements(es.take(i)).len() + (if i > 0 {
                1int
            } else {
                0int
            }),
            es.take(i),
        ) == Ok::<(Json, int), (SyntaxErrorKind, int)>(
            (Json::Array(es), p0 + canon_elements(es).len() + 1),
        ),
    decreases es, es.len() - i,
{
    let n = es.len() as int;
    let total = canon_elements(es);
    lemma_holds_split(s, p0, total, seq![']']);
    lemma_holds_index(s, p0 + total.len(), seq![']'], 0);
    lemma_ce_holds(s, p0, es, i + 1);
    let sep = if i > 0 {
        seq![',']
    } else {
        Seq::<char>::empty()
    };
    let before = canon_elements(es.take(i));
    let item = canon(es[i]);
    assert(es.take(i + 1).subrange(0, i) =~= es.take(i));
    assert(canon_elements(es.take(i + 1)) =~= before + sep + item);
    assert(before + sep + item =~= (before + sep) + item);
    lemma_holds_split(s, p0, before + sep, item);
    let pi = p0 + before.len() + sep.len();
    let after = pi + item.len();
    lemma_canon_first(es[i]);
    if i + 1 < n {
        lemma_ce_holds(s, p0, es, i + 2);
        assert(es.take(i + 2).subrange(0, i + 1) =~= es.take(i + 1));
        let next = canon_elements(es.take(i + 1));
        assert(canon_elements(es.take(i + 2)) =~= next + (seq![','] + canon(es[i + 1])));
        lemma_holds_split(s, p0, next, seq![','] + canon(es[i + 1]));
        lemma_holds_index(s, p0 + next.len(), seq![','] + canon(es[i + 1]), 0);
        lemma_read_canon(s, pi, es[i]);
        assert(es.take(i).push(es[i]) =~= es.take(i + 1));
        lemma_read_elements(s, p0, es, i + 1);
    } else {
        assert(es.take(i + 1) =~= es);
        lemma_read_canon(s, pi, es[i]);
        assert(es.take(i).push(es[i]) =~= es);
    }
}

/// Where member text `"name":value` stands at `pi`, the name is read back
/// and the value's text follows the colon.
pub(crate) proof fn lemma_member_name(s: Seq<char>, pi: int, name: Seq<char>, item: Seq<char>)
    requires
        holds_at(s, pi, seq!['"'] + ((escape_str(name) + seq!['"']) + (seq![':'] + item))),
    ensures
        s[pi] == '"',
        string_body(s, pi + 1, Seq::empty()) == Ok::<(Seq<char>, int), (SyntaxErrorKind, int)>(
            (name, pi + 2 + escape_str(name).len()),
        ),
        s[pi + 2 + escape_str(name).len()] == ':',
        holds_at(s, pi + 3 + escape_str(name).len(), item),
{
    let name_text = escape_str(name) + seq!['"'];
    lemma_holds_split(s, pi, seq!['"'], name_text + (seq![':'] + item));
    lemma_holds_index(s, pi, seq!['"'], 0);
    lemma_holds_split(s, pi + 1, name_text, seq![':'] + item);
    lemma_read_string(s, pi + 1, name, Seq::empty());
    assert(Seq::<char>::empty() + name =~= name);
    let k = pi + 1 + name_text.len();
    lemma_holds_split(s, k, seq![':'], item);
    lemma_holds_index(s, k, seq![':'], 0);
}

#[verifier::rlimit(100)]
proof fn lemma_read_members(s: Seq<char>, p0: int, ms: Seq<(Seq<char>, Json)>, i: int)
    requires
        ms.len() > 0,
        forall|k: int| 0 <= k < ms.len() ==> valid_json(#[trigger] ms[k].1),
        holds_at(s, p0, canon_members(ms) + seq!['}']),
        0 <= i < ms.len(),
    ensures
        members(
            s,
            p0 + canon_members(ms.take(i)).len() + (if i > 0 {
                1int
            } else {
                0int
            }),
            ms.take(i),
        ) == Ok::<(Json, int), (SyntaxErrorKind, int)>(
            (Json::Object(ms), p0 + canon_members(ms).len() + 1),
        ),
    decreases ms, ms.len() - i,
{
    let n = ms.len() as int;
    let total = canon_members(ms);
    lemma_holds_split(s, p0, total, seq!['}']);
    lemma_holds_index(s, p0 + total.len(), seq!['}'], 0);
    lemma_cm_holds(s, p0, ms, i + 1);
    let sep = if i > 0 {
        seq![',']
    } else {
        Seq::<char>::empty()
    };
    let m = ms[i];
    let before = canon_members(ms.take(i));
    let name_text = escape_str(m.0) + seq!['"'];
    let item = canon(m.1);
    assert(ms.take(i + 1).subrange(0, i) =~= ms.take(i));
    assert(canon_members(ms.take(i + 1)) =~= (before + sep) + (seq!['"'] + (name_text + (
    seq![':'] + item))));
    lemma_holds_split(s, p0, before + sep, seq!['"'] + (name_text + (seq![':'] + item)));
    let pi = p0 + before.len() + sep.len();
    lemma_member_name(s, pi, m.0, item);
    let k = pi + 1 + name_text.len();
    lemma_canon_first(m.1);
    if i + 1 < n {
        lemma_cm_holds(s, p0, ms, i + 2);
        assert(ms.take(i + 2).subrange(0, i + 1) =~= ms.take(i + 1));
        let next = canon_members(ms.take(i + 1));
        let m2 = ms[i + 1];
        let rest = seq![','] + quoted(m2.0) + seq![':'] + canon(m2.1);
        assert(canon_members(ms.take(i + 2)) =~= next + rest);
        lemma_holds_split(s, p0, next, rest);
        lemma_holds_index(s, p0 + next.len(), rest, 0);
        lemma_read_canon(s, k + 1, m.1);
        assert(ms.take(i).push((m.0, m.1)) =~= ms.take(i + 1));
        lemma_read_members(s, p0, ms, i + 1);
    } else {
        assert(ms.take(i + 1) =~= ms);
        lemma_read_canon(s, k + 1, m.1);
        assert(ms.take(i).push((m.0, m.1)) =~= ms);
    }
}

proof fn lemma_digits_within(s: Seq<char>, q: int, e: int, i: int)
    requires
        0 <= q <= e <= s.len(),
        0 <= i <= e - q,
    ensures
        digits_len(s.subrange(q, e), i) == if digits_len(s, q + i) < e - q - i {
            digits_len(s, q + i)
        } else {
            (e - q - i) as nat
        },
    decreases e - q - i,
{
    if i < e - q {
        lemma_digits_within(s, q, e, i + 1);
    }
}

proof fn lemma_digits_bound(s: Seq<char>, x: int)
    requires
        0 <= x <= s.len(),
    ensures
        x + digits_len(s, x) <= s.len(),
    decreases s.len() - x,
{
    if x < s.len() {
        lemma_digits_bound(s, x + 1);
    }
}

/// The text that the number grammar accepts is a valid number on its own.
proof fn lemma_number_text_valid(s: Seq<char>, q: int)
    requires
        0 <= q,
        number_end(s, q) is Ok,
    ensures
        q < number_end(s, q)->Ok_0 <= s.len(),
        valid_number(s.subrange(q, number_end(s, q)->Ok_0)),
{
    let a: int = if q < s.len() && s[q] == '-' {
        q + 1
    } else {
        q
    };
    lemma_digits_bound(s, a);
    if a + 1 < s.len() {
        lemma_digits_bound(s, a + 1);
    }
    let b0 = if s[a] == '0' {
        a + 1
    } else {
        a + digits_len(s, a)
    };
    if b0 + 1 <= s.len() {
        lemma_digits_bound(s, b0 + 1);
    }
    let c0 = if b0 < s.len() && s[b0] == '.' {
        b0 + 1 + digits_len(s, b0 + 1)
    } else {
        b0
    };
    if c0 + 1 <= s.len() {
        lemma_digits_bound(s, c0 + 1);
    }
    if c0 + 2 <= s.len() {
        lemma_digits_bound(s, c0 + 2);
    }
    let e = number_end(s, q)->Ok_0;
    let t = s.subrange(q, e);
    lemma_digits_within(s, q, e, a - q);
    let b = if s[a] == '0' {
        a + 1
    } else {
        a + digits_len(s, a)
    };
    if b < s.len() && s[b] == '.' {
        lemma_digits_within(s, q, e, b + 1 - q);
    }
    let c = if b < s.len() && s[b] == '.' {
        b + 1 + digits_len(s, b + 1)
    } else {
        b
    };
    if c < s.len() && (s[c] == 'e' || s[c] == 'E') {
        if c + 1 < s.len() && (s[c + 1] == '+' || s[c + 1] == '-') {
            lemma_digits_within(s, q, e, c + 2 - q);
        } else {
            lemma_digits_within(s, q, e, c + 1 - q);
        }
    }
}

/// Every tree that the reader returns is valid.
pub proof fn lemma_value_valid(s: Seq<char>, p: int)
    requires
        0 <= p,
        value(s, p) is Ok,
    ensures
        valid_json(value(s, p)->Ok_0.0),
        p < value(s, p)->Ok_0.1 <= s.len(),
    decreases s.len() - p, 0int,
{
    let q = p + ws_len(s, p);
    let c = s[q];
    if c == '{' {
        lemma_object_valid(s, q + 1);
    } else if c == '[' {
        lemma_array_valid(s, q + 1);
    } else if c == '"' {
        lemma_string_end(s, q + 1, Seq::empty());
    } else if c == '-' || spec_is_digit(c) {
        lemma_number_text_valid(s, q);
    }
}

proof fn lemma_string_end(s: Seq<char>, p: int, acc: Seq<char>)
    requires
        0 <= p,
        string_body(s, p, acc) is Ok,
    ensures
        p < string_body(s, p, acc)->Ok_0.1 <= s.len(),
    decreases s.len() - p,
{
    if s[p] == '"' {
    } else if s[p] == '\\' {
        if simple_escape_is_some(s, p) {
            lemma_string_end(s, p + 2, acc.push(crate::grammar::simple_escape(s[p + 1])->0));
        } else {
            let u = hex4(s, p + 2)->0;
            if crate::grammar::is_high_surrogate(u) {
                lemma_string_end(
                    s,
                    p + 12,
                    acc.push(crate::grammar::pair_code(u, hex4(s, p + 8)->0) as char),
                );
            } else {
                lemma_string_end(s, p + 6, acc.push(u as char));
            }
        }
    } else {
        lemma_string_end(s, p + 1, acc.push(s[p]));
    }
}

spec fn simple_escape_is_some(s: Seq<char>, p: int) -> bool {
    crate::grammar::simple_escape(s[p + 1]) is Some
}

proof fn lemma_array_valid(s: Seq<char>, p: int)
    requires
        0 <= p,
        array(s, p) is Ok,
    ensures
        valid_json(array(s, p)->Ok_0.0),
        p < array(s, p)->Ok_0.1 <= s.len(),
    decreases s.len() - p, 2int,
{
    let q = p + ws_len(s, p);
    if s[q] != ']' {
        lemma_elements_valid(s, p, Seq::empty());
    }
}

proof fn lemma_elements_valid(s: Seq<char>, p: int, acc: Seq<Json>)
    requires
        0 <= p,
        forall|k: int| 0 <= k < acc.len() ==> valid_json(#[trigger] acc[k]),
        elements(s, p, acc) is Ok,
    ensures
        valid_json(elements(s, p, acc)->Ok_0.0),
        p < elements(s, p, acc)->Ok_0.1 <= s.len(),
    decreases s.len() - p, 1int,
{
    lemma_value_valid(s, p);
    let (v, e) = value(s, p)->Ok_0;
    let r = e + ws_len(s, e);
    assert forall|k: int| 0 <= k < acc.push(v).len() implies valid_json(#[trigger] acc.push(v)[k]) by {
        if k < acc.len() {
            assert(acc.push(v)[k] == acc[k]);
        }
    }
    if s[r] == ',' {
        lemma_elements_valid(s, r + 1, acc.push(v));
    }
}

proof fn lemma_object_valid(s: Seq<char>, p: int)
    requires
        0 <= p,
        object(s, p) is Ok,
    ensures
        valid_json(object(s, p)->Ok_0.0),
        p < object(s, p)->Ok_0.1 <= s.len(),
    decreases s.len() - p, 2int,
{
    let q = p + ws_len(s, p);
    if s[q] != '}' {
        lemma_members_valid(s, p, Seq::empty());
    }
}

#[verifier::rlimit(50)]
proof fn lemma_members_valid(s: Seq<char>, p: int, acc: Seq<(Seq<char>, Json)>)
    requires
        0 <= p,
        forall|k: int| 0 <= k < acc.len() ==> valid_json(#[trigger] acc[k].1),
        members(s, p, acc) is Ok,
    ensures
        valid_json(members(s, p, acc)->Ok_0.0),
        p < members(s, p, acc)->Ok_0.1 <= s.len(),
    decreases s.len() - p, 1int,
{
    let q = p + ws_len(s, p);
    let (name, e) = string_body(s, q + 1, Seq::empty())->Ok_0;
    let k = e + ws_len(s, e);
    lemma_value_valid(s, k + 1);
    let (v, e2) = value(s, k + 1)->Ok_0;
    let r = e2 + ws_len(s, e2);
    let next = acc.push((name, v));
    assert forall|i: int| 0 <= i < next.len() implies valid_json(#[trigger] next[i].1) by {
        if i < acc.len() {
            assert(next[i] == acc[i]);
        }
    }
    if s[r] == ',' {
        lemma_members_valid(s, r + 1, next);
    }
}

/// The reader reads the canonical text of a valid tree as that tree.
pub proof fn lemma_canonical_reads_back(j: Json)
    requires
        valid_json(j),
    ensures
        document(canon(j)) == Ok::<Json, (SyntaxErrorKind, int)>(j),
{
    let s = canon(j);
    assert(s.subrange(0, s.len() as int) =~= s);
    lemma_read_canon(s, 0, j);
}

/// Round trip: where a text is a document, writing what was read in
/// canonical form and reading that gives the same tree again; and a second
/// round gives it once more.
pub proof fn lemma_round_trip(s: Seq<char>)
    requires
        document(s) is Ok,
    ensures
        document(canon(document(s)->Ok_0)) == document(s),
        document(canon(document(canon(document(s)->Ok_0))->Ok_0)) == document(s),
{
    lemma_value_valid(s, 0);
    lemma_canonical_reads_back(document(s)->Ok_0);
}

/// Idempotence: for a valid tree, reading its canonical text and writing
/// the result canonically gives that same text.
pub proof fn lemma_canonical_idempotent(j: Json)
    requires
        valid_json(j),
    ensures
        document(canon(j)) is Ok,
        canon(document(canon(j))->Ok_0) == canon(j),
{
    lemma_canonical_reads_back(j);
}

} // verus!

//! The pretty form reads back as the canonical form does.
use vstd::prelude::*;
use crate::classify::spec_is_whitespace;
use crate::grammar::{SyntaxErrorKind, ws_len, value, elements, members, document};
use crate::laws::{
    valid_json, ends_value, holds_at, lemma_holds_split, lemma_holds_index,
    lemma_canon_first, lemma_read_canon, lemma_canonical_reads_back,
};
use crate::value::Json;
use crate::writer::{escape_str, quoted, canon, pretty, pretty_members, pretty_elements, new_line};

verus! {

proof fn lemma_ws_run(s: Seq<char>, x: int, t: Seq<char>)
    requires
        holds_at(s, x, t),
        forall|k: int| 0 <= k < t.len() ==> spec_is_whitespace(#[trigger] t[k]),
        x + t.len() == s.len() || !spec_is_whitespace(s[x + t.len()]),
    ensures
        ws_len(s, x) == t.len(),
    decreases t.len(),
{
    if t.len() > 0 {
        lemma_holds_index(s, x, t, 0);
        assert(seq![t[0]] + t.drop_first() =~= t);
        lemma_holds_split(s, x, seq![t[0]], t.drop_first());
        lemma_ws_run(s, x + 1, t.drop_first());
    }
}

proof fn lemma_ws_rest(s: Seq<char>, p: int)
    ensures
        ws_len(s, p + ws_len(s, p)) == 0,
    decreases s.len() - p,
{
    if 0 <= p < s.len() && spec_is_whitespace(s[p]) {
        lemma_ws_rest(s, p + 1);
    }
}

/// Whitespace before a value does not change what is read.
proof fn lemma_value_after_ws(s: Seq<char>, p: int)
    ensures
        value(s, p) == value(s, p + ws_len(s, p)),
{
    lemma_ws_rest(s, p);
}

proof fn lemma_new_line_ws(w: nat, d: nat)
    ensures
        forall|k: int|
            0 <= k < new_line(w, d).len() ==> spec_is_whitespace(#[trigger] new_line(w, d)[k]),
        new_line(w, d).len() > 0,
{
}

proof fn lemma_pretty_first(j: Json, w: nat, d: nat)
    requires
        valid_json(j),
    ensures
        pretty(j, w, d).len() > 0,
        pretty(j, w, d)[0] == canon(j)[0],
{
    lemma_canon_first(j);
}

proof fn lemma_pe_holds(s: Seq<char>, p0: int, es: Seq<Json>, w: nat, d: nat, k: int)
    requires
        holds_at(s, p0, pretty_elements(es, w, d)),
        0 <= k <= es.len(),
    ensures
        holds_at(s, p0, pretty_elements(es.take(k), w, d)),
    decreases es.len() - k,
{
    if k == es.len() {
        assert(es.take(k) =~= es);
    } else {
        lemma_pe_holds(s, p0, es, w, d, k + 1);
        let sep = if k > 0 {
            seq![',']
        } else {
            Seq::<char>::empty()
        };
        let tail = sep + new_line(w, d) + pretty(es[k], w, d);
        assert(es.take(k + 1).subrange(0, k) =~= es.take(k));
        assert(pretty_elements(es.take(k + 1), w, d) =~= pretty_elements(es.take(k), w, d) + tail);
        lemma_holds_split(s, p0, pretty_elements(es.take(k), w, d), tail);
    }
}

proof fn lemma_pm_holds(
    s: Seq<char>,
    p0: int,
    ms: Seq<(Seq<char>, Json)>,
    w: nat,
    d: nat,
    k: int,
)
    requires
        holds_at(s, p0, pretty_members(ms, w, d)),
        0 <= k <= ms.len(),
    ensures
        holds_at(s, p0, pretty_members(ms.take(k), w, d)),
    decreases ms.len() - k,
{
    if k == ms.len() {
        assert(ms.take(k) =~= ms);
    } else {
        lemma_pm_holds(s, p0, ms, w, d, k + 1);
        let sep = if k > 0 {
            seq![',']
        } else {
            Seq::<char>::empty()
        };
        let m = ms[k];
        let tail = sep + new_line(w, d) + quoted(m.0) + seq![':'] + pretty(m.1, w, d);
        assert(ms.take(k + 1).subrange(0, k) =~= ms.take(k));
        assert(pretty_members(ms.take(k + 1), w, d) =~= pretty_members(ms.take(k), w, d) + tail);
        lemma_holds_split(s, p0, pretty_members(ms.take(k), w, d), tail);
    }
}

/// The reader reads a valid tree's pretty text at any level, followed by
/// something that may follow a value, back as that tree.
pub proof fn lemma_read_pretty(s: Seq<char>, p: int, j: Json, w: nat, d: nat)
    requires
        valid_json(j),
        holds_at(s, p, pretty(j, w, d)),
        ends_value(s, p + pretty(j, w, d).len()),
    ensures
        value(s, p) == Ok::<(Json, int), (SyntaxErrorKind, int)>(
            (j, p + pretty(j, w, d).len()),
        ),
    decreases j, 2int,
{
    match j {
        Json::Object(ms) => {
            lemma_read_pretty_object(s, p, j, w, d);
        },
        Json::Array(es) => {
            lemma_read_pretty_array(s, p, j, w, d);
        },
        _ => {
            lemma_read_canon(s, p, j);
        },
    }
}

#[verifier::rlimit(50)]
proof fn lemma_read_pretty_array(s: Seq<char>, p: int, j: Json, w: nat, d: nat)
    requires
        j is Array,
        valid_json(j),
        holds_at(s, p, pretty(j, w, d)),
        ends_value(s, p + pretty(j, w, d).len()),
    ensures
        value(s, p) == Ok::<(Json, int), (SyntaxErrorKind, int)>(
            (j, p + pretty(j, w, d).len()),
        ),
    decreases j, 1int,
{
    let es = j->Array_0;
    lemma_holds_index(s, p, pretty(j, w, d), 0);
    if es.len() == 0 {
        lemma_holds_index(s, p, pretty(j, w, d), 1);
        assert(es =~= Seq::<Json>::empty());
    } else {
        let body = pretty_elements(es, w, d + 1);
        let close = new_line(w, d) + seq![']'];
        assert(pretty(j, w, d) =~= seq!['['] + (body + close));
        lemma_holds_split(s, p, seq!['['], body + close);
        lemma_holds_split(s, p + 1, body, close);
        lemma_read_pretty_elements(s, p + 1, es, w, d + 1, close, 0);
        assert(es.take(0) =~= Seq::<Json>::empty());
        lemma_pe_holds(s, p + 1, es, w, d + 1, 1);
        assert(es.take(1).subrange(0, 0) =~= Seq::<Json>::empty());
        let nl = new_line(w, d + 1);
        assert(pretty_elements(es.take(1), w, d + 1) =~= nl + pretty(es[0], w, d + 1));
        lemma_holds_split(s, p + 1, nl, pretty(es[0], w, d + 1));
        lemma_pretty_first(es[0], w, d + 1);
        lemma_canon_first(es[0]);
        lemma_holds_index(s, p + 1 + nl.len(), pretty(es[0], w, d + 1), 0);
        lemma_new_line_ws(w, d + 1);
        lemma_ws_run(s, p + 1, nl);
    }
}

#[verifier::rlimit(50)]
proof fn lemma_read_pretty_object(s: Seq<char>, p: int, j: Json, w: nat, d: nat)
    requires
        j is Object,
        valid_json(j),
        holds_at(s, p, pretty(j, w, d)),
        ends_value(s, p + pretty(j, w, d).len()),
    ensures
        value(s, p) == Ok::<(Json, int), (SyntaxErrorKind, int)>(
            (j, p + pretty(j, w, d).len()),
        ),
    decreases j, 1int,
{
    let ms = j->Object_0;
    lemma_holds_index(s, p, pretty(j, w, d), 0);
    if ms.len() == 0 {
        lemma_holds_index(s, p, pretty(j, w, d), 1);
        assert(ms =~= Seq::<(Seq<char>, Json)>::empty());
    } else {
        let body = pretty_members(ms, w, d + 1);
        let close = new_line(w, d) + seq!['}'];
        assert(pretty(j, w, d) =~= seq!['{'] + (body + close));
        lemma_holds_split(s, p, seq!['{'], body + close);
        lemma_holds_split(s, p + 1, body, close);
        lemma_read_pretty_members(s, p + 1, ms, w, d + 1, close, 0);
        assert(ms.take(0) =~= Seq::<(Seq<char>, Json)>::empty());
        lemma_pm_holds(s, p + 1, ms, w, d + 1, 1);
        assert(ms.take(1).subrange(0, 0) =~= Seq::<(Seq<char>, Json)>::empty());
        let nl = new_line(w, d + 1);
        let first = quoted(ms[0].0) + seq![':'] + pretty(ms[0].1, w, d + 1);
        assert(pretty_members(ms.take(1), w, d + 1) =~= nl + first);
        lemma_holds_split(s, p + 1, nl, first);
        lemma_holds_index(s, p + 1 + nl.len(), first, 0);
        lemma_new_line_ws(w, d + 1);
        lemma_ws_run(s, p + 1, nl);
    }
}

#[verifier::rlimit(100)]
proof fn lemma_read_pretty_elements(
    s: Seq<char>,
    p0: int,
    es: Seq<Json>,
    w: nat,
    d: nat,
    close: Seq<char>,
    i: int,
)
    requires
        es.len() > 0,
        forall|k: int| 0 <= k < es.len() ==> valid_json(#[trigger] es[k]),
        close.len() > 0,
        close.last() == ']',
        forall|k: int| 0 <= k < close.len() - 1 ==> spec_is_whitespace(#[trigger] close[k]),
        holds_at(s, p0, pretty_elements(es, w, d) + close),
        0 <= i < es.len(),
    ensures
        elements(
            s,
            p0 + pretty_elements(es.take(i), w, d).len() + (if i > 0 {
                1int
            } else {
                0int
            }),
            es.take(i),
        ) == Ok::<(Json, int), (SyntaxErrorKind, int)>(
            (Json::Array(es), p0 + pretty_elements(es, w, d).len() + close.len()),
        ),
    decreases es, es.len() - i,
{
    let n = es.len() as int;
    let total = pretty_elements(es, w, d);
    lemma_holds_split(s, p0, total, close);
    lemma_pe_holds(s, p0, es, w, d, i + 1);
    let sep = if i > 0 {
        seq![',']
    } else {
        Seq::<char>::empty()
    };
    let nl = new_line(w, d);
    let before = pretty_elements(es.take(i), w, d);
    let item = pretty(es[i], w, d);
    assert(es.take(i + 1).subrange(0, i) =~= es.take(i));
    assert(pretty_elements(es.take(i + 1), w, d) =~= (before + sep) + (nl + item));
    lemma_holds_split(s, p0, before + sep, nl + item);
    let pi = p0 + before.len() + sep.len();
    lemma_holds_split(s, pi, nl, item);
    lemma_pretty_first(es[i], w, d);
    lemma_canon_first(es[i]);
    lemma_holds_index(s, pi + nl.len(), item, 0);
    lemma_new_line_ws(w, d);
    lemma_ws_run(s, pi, nl);
    let e = pi + nl.len() + item.len();
    if i + 1 < n {
        lemma_pe_holds(s, p0, es, w, d, i + 2);
        assert(es.take(i + 2).subrange(0, i + 1) =~= es.take(i + 1));
        let next = pretty_elements(es.take(i + 1), w, d);
        let rest = seq![','] + new_line(w, d) + pretty(es[i + 1], w, d);
        assert(pretty_elements(es.take(i + 2), w, d) =~= next + rest);
        lemma_holds_split(s, p0, next, rest);
        lemma_holds_index(s, p0 + next.len(), rest, 0);
        lemma_read_pretty(s, pi + nl.len(), es[i], w, d);
        lemma_value_after_ws(s, pi);
        assert(es.take(i).push(es[i]) =~= es.take(i + 1));
        lemma_read_pretty_elements(s, p0, es, w, d, close, i + 1);
    } else {
        assert(es.take(i + 1) =~= es);
        let lead = close.drop_last();
        assert(close =~= lead + seq![']']);
        lemma_holds_split(s, e, lead, seq![']']);
        lemma_holds_index(s, e + lead.len(), seq![']'], 0);
        lemma_ws_run(s, e, lead);
        if lead.len() > 0 {
            lemma_holds_index(s, e, lead, 0);
        }
        lemma_read_pretty(s, pi + nl.len(), es[i], w, d);
        lemma_value_after_ws(s, pi);
        assert(es.take(i).push(es[i]) =~= es);
    }
}

#[verifier::rlimit(100)]
proof fn lemma_read_pretty_members(
    s: Seq<char>,
    p0: int,
    ms: Seq<(Seq<char>, Json)>,
    w: nat,
    d: nat,
    close: Seq<char>,
    i: int,
)
    requires
        ms.len() > 0,
        forall|k: int| 0 <= k < ms.len() ==> valid_json(#[trigger] ms[k].1),
        close.len() > 0,
        close.last() == '}',
        forall|k: int| 0 <= k < close.len() - 1 ==> spec_is_whitespace(#[trigger] close[k]),
        holds_at(s, p0, pretty_members(ms, w, d) + close),
        0 <= i < ms.len(),
    ensures
        members(
            s,
            p0 + pretty_members(ms.take(i), w, d).len() + (if i > 0 {
                1int
            } else {
                0int
            }),
            ms.take(i),
        ) == Ok::<(Json, int), (SyntaxErrorKind, int)>(
            (Json::Object(ms), p0 + pretty_members(ms, w, d).len() + close.len()),
        ),
    decreases ms, ms.len() - i,
{
    let n = ms.len() as int;
    let total = pretty_members(ms, w, d);
    lemma_holds_split(s, p0, total, close);
    lemma_pm_holds(s, p0, ms, w, d, i + 1);
    let sep = if i > 0 {
        seq![',']
    } else {
        Seq::<char>::empty()
    };
    let m = ms[i];
    let nl = new_line(w, d);
    let before = pretty_members(ms.take(i), w, d);
    let name_text = escape_str(m.0) + seq!['"'];
    let item = pretty(m.1, w, d);
    let entry = seq!['"'] + (name_text + (seq![':'] + item));
    assert(ms.take(i + 1).subrange(0, i) =~= ms.take(i));
    assert(pretty_members(ms.take(i + 1), w, d) =~= (before + sep) + (nl + entry));
    lemma_holds_split(s, p0, before + sep, nl + entry);
    let pi = p0 + before.len() + sep.len();
    lemma_holds_split(s, pi, nl, entry);
    lemma_holds_index(s, pi + nl.len(), entry, 0);
    lemma_new_line_ws(w, d);
    lemma_ws_run(s, pi, nl);
    crate::laws::lemma_member_name(s, pi + nl.len(), m.0, item);
    let k = pi + nl.len() + 1 + name_text.len();
    lemma_pretty_first(m.1, w, d);
    lemma_canon_first(m.1);
    let e = k + 1 + item.len();
    if i + 1 < n {
        lemma_pm_holds(s, p0, ms, w, d, i + 2);
        assert(ms.take(i + 2).subrange(0, i + 1) =~= ms.take(i + 1));
        let next = pretty_members(ms.take(i + 1), w, d);
        let m2 = ms[i + 1];
        let rest = seq![','] + new_line(w, d) + quoted(m2.0) + seq![':'] + pretty(m2.1, w, d);
        assert(pretty_members(ms.take(i + 2), w, d) =~= next + rest);
        lemma_holds_split(s, p0, next, rest);
        lemma_holds_index(s, p0 + next.len(), rest, 0);
        lemma_read_pretty(s, k + 1, m.1, w, d);
        assert(ms.take(i).push((m.0, m.1)) =~= ms.take(i + 1));
        lemma_read_pretty_members(s, p0, ms, w, d, close, i + 1);
    } else {
        assert(ms.take(i + 1) =~= ms);
        let lead = close.drop_last();
        assert(close =~= lead + seq!['}']);
        lemma_holds_split(s, e, lead, seq!['}']);
        lemma_holds_index(s, e + lead.len(), seq!['}'], 0);
        lemma_ws_run(s, e, lead);
        if lead.len() > 0 {
            lemma_holds_index(s, e, lead, 0);
        }
        lemma_read_pretty(s, k + 1, m.1, w, d);
        assert(ms.take(i).push((m.0, m.1)) =~= ms);
    }
}

/// Pretty and canonical text read the same: for a valid tree, reading its
/// pretty text with any indent width gives what reading its canonical text
/// gives, namely the tree itself.
pub proof fn lemma_pretty_reads_as_canonical(j: Json, width: nat)
    requires
        valid_json(j),
    ensures
        document(pretty(j, width, 0)) == document(canon(j)),
        document(pretty(j, width, 0)) == Ok::<Json, (SyntaxErrorKind, int)>(j),
{
    let s = pretty(j, width, 0);
    assert(s.subrange(0, s.len() as int) =~= s);
    lemma_read_pretty(s, 0, j, width, 0);
    lemma_canonical_reads_back(j);
}

} // verus!

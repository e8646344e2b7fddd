use vstd::prelude::*;
use crate::dict::entries_map;
use crate::dict::lemma_entries_map_keys;
use crate::errors::ErrView;
use crate::front_matter::body_of;
use crate::front_matter::find_char_spec;
use crate::front_matter::first_close_at;
use crate::front_matter::has_close;
use crate::front_matter::has_open;
use crate::front_matter::header_of;
use crate::front_matter::is_close_at;
use crate::front_matter::leading_spaces_spec;
use crate::front_matter::lemma_find_char;
use crate::front_matter::lemma_first_close_unique;
use crate::front_matter::parse_entries_spec;
use crate::front_matter::parse_spec;
use crate::front_matter::trim_leading_spaces;
use crate::render::resolve_post;

verus! {

/// The parent layout that a layout file declares, given that it parses:
/// the `layout` key of its front matter.
pub open spec fn layout_parent(raw: Seq<char>) -> Option<Seq<char>> {
    match parse_spec(raw) {
        Ok((Some(es), _)) => if entries_map(es).contains_key("layout"@) {
            Some(entries_map(es)["layout"@])
        } else {
            None
        },
        _ => None,
    }
}

/// Layouts that refer back to an already-walked layout are reported as a
/// cycle, never walked forever: with `a` declaring parent `b` and `b`
/// declaring parent `a`, every outcome that resolution starting at `a` can
/// return is either the cycle report carrying the chain `a`, `b`, `a`, or a
/// template failure at one of the two passes made before the revisit.
pub proof fn lemma_cycle_detected(
    store: Seq<(Seq<char>, Seq<char>)>,
    a: Seq<char>,
    b: Seq<char>,
    ctx: Map<Seq<char>, Seq<char>>,
    r: Result<Seq<char>, ErrView>,
)
    requires
        a != b,
        entries_map(store).contains_key(a),
        entries_map(store).contains_key(b),
        parse_spec(entries_map(store)[a]) is Ok,
        parse_spec(entries_map(store)[b]) is Ok,
        layout_parent(entries_map(store)[a]) == Some(b),
        layout_parent(entries_map(store)[b]) == Some(a),
        resolve_post(store, a, ctx, Seq::empty(), r),
    ensures
        r == Err::<Seq<char>, ErrView>(ErrView::LayoutCycle { chain: seq![a, b, a] }) || r
            == Err::<Seq<char>, ErrView>(ErrView::Template),
{
    lemma_entries_map_keys(store, a);
    lemma_entries_map_keys(store, b);
    let ia = choose|i: int| 0 <= i < store.len() && store[i].0 == a;
    let ib = choose|i: int| 0 <= i < store.len() && store[i].0 == b;
    assert(ia != ib);
    assert(store.len() >= 2);
    let v0 = Seq::<Seq<char>>::empty();
    let v1 = v0.push(a);
    let v2 = v1.push(b);
    assert(v0.len() == 0);
    assert(!v0.contains(a));
    assert(!v1.contains(b)) by {
        assert(forall|i: int| 0 <= i < v1.len() ==> v1[i] == a);
    }
    assert(v2[0] == a);
    assert(v2.contains(a));
    if r != Err::<Seq<char>, ErrView>(ErrView::Template) {
        let f1 = choose|frag: Seq<char>|
            resolve_post(store, b, ctx.insert("content"@, frag), v1, r);
        let ctx1 = ctx.insert("content"@, f1);
        assert(resolve_post(store, b, ctx1, v1, r));
        let f2 = choose|frag: Seq<char>|
            resolve_post(store, a, ctx1.insert("content"@, frag), v2, r);
        let ctx2 = ctx1.insert("content"@, f2);
        assert(resolve_post(store, a, ctx2, v2, r));
        assert(r == Err::<Seq<char>, ErrView>(ErrView::LayoutCycle { chain: v2.push(a) }));
        assert(v2.push(a) =~= seq![a, b, a]);
    }
}

/// An acyclic chain is walked to its end: with `a` declaring parent `b`,
/// `b` declaring the terminal `c`, every outcome that resolution starting
/// at `a` can return is either a rendering of the terminal layout or a
/// template failure at one of the three passes — never a cycle, an unknown
/// layout or a header error — and a successful outcome is always among the
/// possible ones.
pub proof fn lemma_layout_chain_resolves(
    store: Seq<(Seq<char>, Seq<char>)>,
    a: Seq<char>,
    b: Seq<char>,
    c: Seq<char>,
    ctx: Map<Seq<char>, Seq<char>>,
    r: Result<Seq<char>, ErrView>,
)
    requires
        a != b,
        b != c,
        a != c,
        entries_map(store).contains_key(a),
        entries_map(store).contains_key(b),
        entries_map(store).contains_key(c),
        parse_spec(entries_map(store)[a]) is Ok,
        parse_spec(entries_map(store)[b]) is Ok,
        parse_spec(entries_map(store)[c]) is Ok,
        layout_parent(entries_map(store)[a]) == Some(b),
        layout_parent(entries_map(store)[b]) == Some(c),
        layout_parent(entries_map(store)[c]) is None,
        resolve_post(store, a, ctx, Seq::empty(), r),
    ensures
        r is Ok || r == Err::<Seq<char>, ErrView>(ErrView::Template),
        exists|out: Seq<char>| resolve_post(store, a, ctx, Seq::empty(), Ok(out)),
{
    lemma_entries_map_keys(store, a);
    lemma_entries_map_keys(store, b);
    lemma_entries_map_keys(store, c);
    let ia = choose|i: int| 0 <= i < store.len() && store[i].0 == a;
    let ib = choose|i: int| 0 <= i < store.len() && store[i].0 == b;
    let ic = choose|i: int| 0 <= i < store.len() && store[i].0 == c;
    assert(ia != ib && ib != ic && ia != ic);
    assert(store.len() >= 3);
    let v0 = Seq::<Seq<char>>::empty();
    let v1 = v0.push(a);
    let v2 = v1.push(b);
    assert(v0.len() == 0);
    assert(!v0.contains(a));
    assert(!v1.contains(b)) by {
        assert(forall|i: int| 0 <= i < v1.len() ==> v1[i] == a);
    }
    assert(!v2.contains(c)) by {
        assert(forall|i: int| 0 <= i < v2.len() ==> (v2[i] == a || v2[i] == b));
    }
    if r != Err::<Seq<char>, ErrView>(ErrView::Template) {
        let f1 = choose|frag: Seq<char>|
            resolve_post(store, b, ctx.insert("content"@, frag), v1, r);
        let ctx1 = ctx.insert("content"@, f1);
        assert(resolve_post(store, b, ctx1, v1, r));
        let f2 = choose|frag: Seq<char>|
            resolve_post(store, c, ctx1.insert("content"@, frag), v2, r);
        let ctx2 = ctx1.insert("content"@, f2);
        assert(resolve_post(store, c, ctx2, v2, r));
        assert(r is Ok);
    }
    let out = Seq::<char>::empty();
    let w1 = ctx.insert("content"@, out);
    let w2 = w1.insert("content"@, out);
    assert(resolve_post(store, c, w2, v2, Ok(out)));
    assert(resolve_post(store, b, w1, v1, Ok(out)));
    assert(resolve_post(store, a, ctx, v0, Ok(out)));
}

/// A key that a header line can carry: non-empty, starting with something
/// other than a dash, and free of newlines and colons.
pub open spec fn wf_key(k: Seq<char>) -> bool {
    k.len() > 0 && k[0] != '-' && !k.contains('\n') && !k.contains(':')
}

/// A value that a header line can carry back unchanged: free of newlines and
/// not starting with a space (leading spaces are trimmed on parsing).
pub open spec fn wf_value(v: Seq<char>) -> bool {
    !v.contains('\n') && (v.len() > 0 ==> v[0] != ' ')
}

pub open spec fn wf_entries(es: Seq<(Seq<char>, Seq<char>)>) -> bool {
    forall|i: int| 0 <= i < es.len() ==> wf_key((#[trigger] es[i]).0) && wf_value(es[i].1)
}

/// One written header line: `key:value` and a newline.
pub open spec fn entry_line(k: Seq<char>, v: Seq<char>) -> Seq<char> {
    k + seq![':'] + v + seq!['\n']
}

pub open spec fn serialize_entries(es: Seq<(Seq<char>, Seq<char>)>) -> Seq<char>
    decreases es.len(),
{
    if es.len() == 0 {
        Seq::empty()
    } else {
        entry_line(es[0].0, es[0].1) + serialize_entries(es.drop_first())
    }
}

/// A document written back from header entries and a body: the opening
/// delimiter line, the header lines, the closing delimiter line, the body.
pub open spec fn unparse(es: Seq<(Seq<char>, Seq<char>)>, body: Seq<char>) -> Seq<char> {
    seq!['-', '-', '-', '\n'] + serialize_entries(es) + seq!['-', '-', '-', '\n'] + body
}

proof fn lemma_find_char_at(s: Seq<char>, c: char, p: int)
    requires
        0 <= p < s.len(),
        s[p] == c,
        forall|j: int| 0 <= j < p ==> s[j] != c,
    ensures
        find_char_spec(s, c) == p,
{
    lemma_find_char(s, c);
}

proof fn lemma_entry_line(k: Seq<char>, v: Seq<char>)
    requires
        wf_key(k),
        wf_value(v),
    ensures
        entry_line(k, v).len() == k.len() + v.len() + 2,
        entry_line(k, v)[0] == k[0],
        entry_line(k, v).last() == '\n',
        forall|i: int| 0 <= i < entry_line(k, v).len() - 1 ==> entry_line(k, v)[i] != '\n',
        forall|i: int| 0 <= i < k.len() ==> entry_line(k, v)[i] == k[i],
        entry_line(k, v)[k.len() as int] == ':',
        forall|i: int|
            k.len() + 1 <= i < entry_line(k, v).len() - 1 ==> entry_line(k, v)[i] == v[i - k.len()
                - 1],
{
    let el = entry_line(k, v);
    assert forall|i: int| 0 <= i < el.len() - 1 implies el[i] != '\n' by {
        if i < k.len() {
            assert(el[i] == k[i]);
            if k[i] == '\n' {
                assert(k.contains('\n'));
            }
        } else if i == k.len() {
            assert(el[i] == ':');
        } else {
            assert(el[i] == v[i - k.len() - 1]);
            if v[i - k.len() - 1] == '\n' {
                assert(v.contains('\n'));
            }
        }
    }
}

proof fn lemma_serialize_shape(es: Seq<(Seq<char>, Seq<char>)>)
    requires
        wf_entries(es),
    ensures
        serialize_entries(es).len() > 0 ==> serialize_entries(es)[0] != '-',
        serialize_entries(es).len() > 0 ==> serialize_entries(es).last() == '\n',
        forall|j: int|
            0 <= j < serialize_entries(es).len() - 1 && (#[trigger] serialize_entries(es)[j])
                == '\n' ==> serialize_entries(es)[j + 1] != '-',
    decreases es.len(),
{
    if es.len() > 0 {
        let k = es[0].0;
        let v = es[0].1;
        let el = entry_line(k, v);
        let rest = serialize_entries(es.drop_first());
        let ser = serialize_entries(es);
        assert(es.drop_first().len() == es.len() - 1);
        assert(wf_entries(es.drop_first())) by {
            assert(forall|i: int|
                0 <= i < es.drop_first().len() ==> #[trigger] es.drop_first()[i] == es[i + 1]);
        }
        lemma_serialize_shape(es.drop_first());
        lemma_entry_line(k, v);
        let m = el.len();
        assert(ser == el + rest);
        assert(ser[0] == el[0]);
        if rest.len() == 0 {
            assert(ser.last() == el.last());
        } else {
            assert(ser.last() == rest.last());
        }
        assert forall|j: int| 0 <= j < ser.len() - 1 && (#[trigger] ser[j]) == '\n' implies ser[j
            + 1] != '-' by {
            if j < m - 1 {
                assert(ser[j] == el[j]);
                assert(el[j] != '\n');
            } else if j == m - 1 {
                assert(rest.len() > 0);
                assert(ser[j + 1] == rest[0]);
            } else {
                assert(ser[j] == rest[j - m]);
                assert(ser[j + 1] == rest[j - m + 1]);
            }
        }
    }
}

proof fn lemma_parse_serialized(es: Seq<(Seq<char>, Seq<char>)>)
    requires
        wf_entries(es),
    ensures
        parse_entries_spec(serialize_entries(es)) == Some(es),
    decreases es.len(),
{
    let ser = serialize_entries(es);
    if es.len() == 0 {
        assert(ser.len() == 0);
        assert(parse_entries_spec(ser) == Some(Seq::<(Seq<char>, Seq<char>)>::empty()));
        assert(Seq::<(Seq<char>, Seq<char>)>::empty() =~= es);
    } else {
        let k = es[0].0;
        let v = es[0].1;
        let el = entry_line(k, v);
        let rest = serialize_entries(es.drop_first());
        let m = el.len();
        assert(wf_entries(es.drop_first())) by {
            assert(forall|i: int|
                0 <= i < es.drop_first().len() ==> #[trigger] es.drop_first()[i] == es[i + 1]);
        }
        lemma_parse_serialized(es.drop_first());
        lemma_entry_line(k, v);
        assert(ser == el + rest);
        // the first newline closes the first written line
        assert(ser[m - 1] == el[m - 1]);
        assert forall|j: int| 0 <= j < m - 1 implies ser[j] != '\n' by {
            assert(ser[j] == el[j]);
        }
        lemma_find_char_at(ser, '\n', m - 1);
        let nl = find_char_spec(ser, '\n') as int;
        assert(nl == m - 1);
        let line = ser.subrange(0, nl);
        assert(line =~= k + seq![':'] + v);
        let tail_in = ser.subrange(nl + 1, ser.len() as int);
        assert(tail_in =~= rest);
        assert(line.len() == k.len() + v.len() + 1);
        // the first colon ends the key
        assert(line[k.len() as int] == ':');
        assert forall|j: int| 0 <= j < k.len() implies line[j] != ':' by {
            assert(line[j] == k[j]);
            if k[j] == ':' {
                assert(k.contains(':'));
            }
        }
        lemma_find_char_at(line, ':', k.len() as int);
        let colon = find_char_spec(line, ':') as int;
        assert(colon == k.len());
        assert(line.subrange(0, colon) =~= k);
        let raw_value = line.subrange(colon + 1, line.len() as int);
        assert(raw_value =~= v);
        assert(leading_spaces_spec(v) == 0);
        assert(trim_leading_spaces(v) =~= v);
        assert(parse_entries_spec(ser) == Some(seq![(k, v)] + es.drop_first()));
        assert(seq![(k, v)] + es.drop_first() =~= es) by {
            assert((k, v) == es[0]);
        }
    }
}

/// Writing a well-formed header and a body back out as one document and
/// parsing it again returns exactly the same entries and the identical body.
pub proof fn lemma_front_matter_round_trip(es: Seq<(Seq<char>, Seq<char>)>, body: Seq<char>)
    requires
        wf_entries(es),
    ensures
        parse_spec(unparse(es, body)) == Ok::<_, ErrView>((Some(es), body)),
{
    let ser = serialize_entries(es);
    let l = ser.len() as int;
    let u = unparse(es, body);
    let q = 4 + l;
    lemma_serialize_shape(es);
    assert(u.len() == 8 + l + body.len());
    assert(u[0] == '-' && u[1] == '-' && u[2] == '-' && u[3] == '\n');
    assert(has_open(u));
    // the written closing line is a closing delimiter
    assert(u[q] == '-' && u[q + 1] == '-' && u[q + 2] == '-' && u[q + 3] == '\n');
    if l == 0 {
        assert(u[q - 1] == '\n');
    } else {
        assert(u[q - 1] == ser[l - 1]);
        assert(ser.last() == '\n');
    }
    assert(is_close_at(u, q));
    // and no earlier position is one
    assert forall|p: int| 4 <= p < q implies !is_close_at(u, p) by {
        assert(l > 0);
        if p == 4 {
            assert(u[4] == ser[0]);
            assert(ser[0] != '-');
        } else if u[p - 1] == '\n' {
            assert(u[p - 1] == ser[p - 5]);
            assert(ser[p - 5] == '\n');
            assert(ser[p - 5 + 1] != '-');
            assert(u[p] == ser[p - 4]);
        }
    }
    assert(first_close_at(u, q));
    assert(has_close(u));
    let cp = crate::front_matter::close_pos(u);
    assert(first_close_at(u, cp));
    lemma_first_close_unique(u, q, cp);
    assert(header_of(u) =~= ser);
    lemma_parse_serialized(es);
    assert(parse_entries_spec(header_of(u)) == Some(es));
    assert(q + 4 <= u.len());
    assert(body_of(u) =~= body);
}

} // verus!

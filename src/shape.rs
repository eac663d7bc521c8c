use crate::laws::lemma_key_pos;
use crate::literal::{all_num, lit_value};
use crate::parser::{p_array, p_object, p_pair, parse_text, start};
use crate::tokenizer::{
    adv, is_delim, is_num, loc_of, next_tok, scan_bare, scan_num, scan_str, skip_ws, white_space,
    Cursor, ParsingError, Tok, TokKind,
};
use crate::value::{entries_insert, Json};
use vstd::prelude::*;

verus! {

/// A literal that can stand alone between delimiters: it has a value, holds
/// no whitespace and no delimiter, and a quoted one holds no quote or
/// backslash between its quotes.
pub open spec fn plain_literal(t: Seq<char>) -> bool {
    &&& t.len() > 0
    &&& lit_value(t) is Some
    &&& forall|k: int| 0 <= k < t.len() ==> !white_space(#[trigger] t[k]) && !is_delim(t[k])
    &&& t[0] == '"' ==> forall|k: int| 1 <= k < t.len() - 1 ==> #[trigger] t[k] != '"' && t[k] != '\\'
}

proof fn lemma_scan_str(s: Seq<char>, x: Cursor, e: int)
    requires
        0 <= x.pos <= e < s.len(),
        s[e] == '"',
        forall|k: int| x.pos <= k < e ==> #[trigger] s[k] != '"' && s[k] != '\\',
    ensures
        scan_str(s, x, false).pos == e,
    decreases e - x.pos,
{
    if x.pos < e {
        lemma_scan_str(s, adv(x), e);
    }
}

proof fn lemma_scan_num(s: Seq<char>, x: Cursor, e: int)
    requires
        0 <= x.pos <= e < s.len(),
        !is_num(s[e]),
        forall|k: int| x.pos <= k < e ==> is_num(#[trigger] s[k]),
    ensures
        scan_num(s, x).pos == e,
    decreases e - x.pos,
{
    if x.pos < e {
        lemma_scan_num(s, adv(x), e);
    }
}

proof fn lemma_scan_bare(s: Seq<char>, x: Cursor, e: int)
    requires
        0 <= x.pos <= e < s.len(),
        is_delim(s[e]),
        forall|k: int| x.pos <= k < e ==> !white_space(#[trigger] s[k]) && !is_delim(s[k]),
    ensures
        scan_bare(s, x).0.pos == e,
        scan_bare(s, x).1 == s.subrange(x.pos, e),
    decreases e - x.pos,
{
    if x.pos < e {
        lemma_scan_bare(s, adv(x), e);
        assert(seq![s[x.pos]] + s.subrange(x.pos + 1, e) =~= s.subrange(x.pos, e));
    } else {
        assert(s.subrange(x.pos, e) =~= Seq::<char>::empty());
    }
}

/// What a literal with a value starts with: a quote that has a partner at
/// the end, a number character, or the first letter of a word.
proof fn lemma_literal_start(t: Seq<char>)
    requires
        lit_value(t) is Some,
    ensures
        t.len() >= 1,
        t[0] == '"' ==> t.len() >= 2 && t[t.len() - 1] == '"',
        t[0] != '"' ==> is_num(t[0]) || t[0] == 't' || t[0] == 'f' || t[0] == 'n',
{
    if t.len() >= 1 && t[0] == '"' {
        assert(all_num(t) ==> is_num(t[0]));
    }
    if t == seq!['t', 'r', 'u', 'e'] {
        assert(t[0] == 't');
    } else if t == seq!['f', 'a', 'l', 's', 'e'] {
        assert(t[0] == 'f');
    } else if t == seq!['n', 'u', 'l', 'l'] {
        assert(t[0] == 'n');
    }
}

/// A plain literal followed by a delimiter is read as one value token.
proof fn lemma_literal_token(s: Seq<char>, c: Cursor, t: Seq<char>)
    requires
        0 <= c.pos,
        c.pos + t.len() < s.len(),
        s.subrange(c.pos, c.pos + t.len()) == t,
        plain_literal(t),
        is_delim(s[c.pos + t.len()]),
    ensures
        next_tok(s, c).0 == Ok::<Tok, ParsingError>(
            Tok { kind: TokKind::Val(t), loc: loc_of(adv(c)) },
        ),
        next_tok(s, c).1.pos == c.pos + t.len(),
{
    let n = t.len() as int;
    let e = c.pos + n;
    lemma_literal_start(t);
    assert forall|k: int| 0 <= k < n implies #[trigger] s[c.pos + k] == t[k] by {
        assert(s.subrange(c.pos, e)[k] == s[c.pos + k]);
    }
    assert(s[c.pos] == t[0]);
    assert(skip_ws(s, c) == c);
    let a = adv(c);
    let ch = t[0];
    if ch == '"' {
        assert forall|k: int| a.pos <= k < e - 1 implies #[trigger] s[k] != '"' && s[k] != '\\' by {
            assert(s[c.pos + (k - c.pos)] == t[k - c.pos]);
        }
        assert(s[e - 1] == t[n - 1]);
        lemma_scan_str(s, a, e - 1);
        assert(seq!['"'] + s.subrange(a.pos, e - 1) + seq!['"'] =~= t);
    } else if '0' <= ch && ch <= '9' {
        assert forall|k: int| a.pos <= k < e implies is_num(#[trigger] s[k]) by {
            assert(s[c.pos + (k - c.pos)] == t[k - c.pos]);
        }
        lemma_scan_num(s, a, e);
    } else {
        assert forall|k: int| a.pos <= k < e implies !white_space(#[trigger] s[k]) && !is_delim(
            s[k],
        ) by {
            assert(s[c.pos + (k - c.pos)] == t[k - c.pos]);
        }
        lemma_scan_bare(s, a, e);
        assert(seq![ch] + s.subrange(a.pos, e) =~= t);
    }
}

/// An object key that can be written between quotes as it is.
pub open spec fn plain_key(k: Seq<char>) -> bool {
    forall|j: int| 0 <= j < k.len() ==> #[trigger] k[j] != '"' && k[j] != '\\'
}

/// A quoted plain key followed by a colon is read as one identifier token.
proof fn lemma_key_token(s: Seq<char>, c: Cursor, k: Seq<char>)
    requires
        0 <= c.pos,
        c.pos + k.len() + 2 < s.len(),
        s[c.pos] == '"',
        s.subrange(c.pos + 1, c.pos + 1 + k.len()) == k,
        s[c.pos + 1 + k.len()] == '"',
        s[c.pos + 2 + k.len()] == ':',
        plain_key(k),
    ensures
        next_tok(s, c).0 == Ok::<Tok, ParsingError>(
            Tok { kind: TokKind::Ident(k), loc: loc_of(adv(c)) },
        ),
        next_tok(s, c).1.pos == c.pos + k.len() + 2,
{
    let a = adv(c);
    let e = c.pos + 1 + k.len();
    assert(skip_ws(s, c) == c);
    assert forall|j: int| a.pos <= j < e implies #[trigger] s[j] != '"' && s[j] != '\\' by {
        assert(s.subrange(c.pos + 1, e)[j - a.pos] == s[j]);
    }
    lemma_scan_str(s, a, e);
    assert(skip_ws(s, adv(scan_str(s, a, false))) == adv(scan_str(s, a, false)));
}

/// A document written without whitespace: a plain literal, an array of
/// documents, or an object of documents under plain keys.
pub enum Doc {
    Lit(Seq<char>),
    Arr(Seq<Doc>),
    Obj(Seq<(Seq<char>, Doc)>),
}

pub open spec fn doc_text(d: Doc) -> Seq<char>
    decreases d, 0int,
{
    match d {
        Doc::Lit(t) => t,
        Doc::Arr(items) => seq!['['] + items_text(items, 0),
        Doc::Obj(ms) => seq!['{'] + mems_text(ms, 0),
    }
}

/// Elements `i..` separated by commas, then a closing bracket.
pub open spec fn items_text(items: Seq<Doc>, i: int) -> Seq<char>
    decreases items, items.len() - i,
{
    if i < 0 || i >= items.len() {
        seq![']']
    } else if i == items.len() - 1 {
        doc_text(items[i]) + seq![']']
    } else {
        doc_text(items[i]) + seq![','] + items_text(items, i + 1)
    }
}

/// Members `i..` written `"key":value`, separated by commas, then a closing
/// brace.
pub open spec fn mems_text(ms: Seq<(Seq<char>, Doc)>, i: int) -> Seq<char>
    decreases ms, ms.len() - i,
{
    if i < 0 || i >= ms.len() {
        seq!['}']
    } else if i == ms.len() - 1 {
        seq!['"'] + ms[i].0 + seq!['"', ':'] + doc_text(ms[i].1) + seq!['}']
    } else {
        seq!['"'] + ms[i].0 + seq!['"', ':'] + doc_text(ms[i].1) + seq![','] + mems_text(ms, i + 1)
    }
}

/// The value a document stands for.
pub open spec fn doc_value(d: Doc) -> Json
    decreases d,
{
    match d {
        Doc::Lit(t) => lit_value(t)->Some_0,
        Doc::Arr(items) => Json::Array(
            Seq::new(
                items.len(),
                |i: int|
                    if 0 <= i < items.len() {
                        doc_value(items[i])
                    } else {
                        Json::Null
                    },
            ),
        ),
        Doc::Obj(ms) => Json::Object(
            Seq::new(
                ms.len(),
                |i: int|
                    if 0 <= i < ms.len() {
                        (ms[i].0, doc_value(ms[i].1))
                    } else {
                        (Seq::empty(), Json::Null)
                    },
            ),
        ),
    }
}

/// Literals are plain, keys are plain and distinct within each object.
pub open spec fn wf_doc(d: Doc) -> bool
    decreases d,
{
    match d {
        Doc::Lit(t) => plain_literal(t),
        Doc::Arr(items) => forall|i: int| 0 <= i < items.len() ==> wf_doc(#[trigger] items[i]),
        Doc::Obj(ms) => {
            &&& forall|i: int| 0 <= i < ms.len() ==> plain_key(#[trigger] ms[i].0)
            &&& forall|i: int| 0 <= i < ms.len() ==> wf_doc(#[trigger] ms[i].1)
            &&& forall|a: int, b: int| 0 <= a < b < ms.len() ==> ms[a].0 != ms[b].0
        },
    }
}

proof fn lemma_at(s: Seq<char>, c0: int, text: Seq<char>, j: int)
    requires
        0 <= c0,
        c0 + text.len() <= s.len(),
        s.subrange(c0, c0 + text.len()) == text,
        0 <= j < text.len(),
    ensures
        s[c0 + j] == text[j],
{
    assert(s.subrange(c0, c0 + text.len())[j] == s[c0 + j]);
}

proof fn lemma_sub(s: Seq<char>, c0: int, text: Seq<char>, off: int, part: Seq<char>)
    requires
        0 <= c0,
        c0 + text.len() <= s.len(),
        s.subrange(c0, c0 + text.len()) == text,
        0 <= off,
        off + part.len() <= text.len(),
        text.subrange(off, off + part.len()) == part,
    ensures
        s.subrange(c0 + off, c0 + off + part.len()) == part,
{
    assert forall|j: int| 0 <= j < part.len() implies s.subrange(c0 + off, c0 + off + part.len())[j]
        == part[j] by {
        lemma_at(s, c0, text, off + j);
        assert(text.subrange(off, off + part.len())[j] == text[off + j]);
    }
    assert(s.subrange(c0 + off, c0 + off + part.len()) =~= part);
}

proof fn lemma_doc_start(d: Doc)
    requires
        wf_doc(d),
    ensures
        doc_text(d).len() >= 1,
        !white_space(doc_text(d)[0]),
        !is_delim(doc_text(d)[0]),
{
    match d {
        Doc::Lit(t) => {
            assert(!white_space(t[0]) && !is_delim(t[0]));
        },
        _ => {},
    }
}

/// An element of an array: after it, the array goes on with its value.
proof fn lemma_array_step(s: Seq<char>, c: Cursor, acc: Seq<Json>, d: Doc) -> (c2: Cursor)
    requires
        wf_doc(d),
        0 <= c.pos,
        c.pos + doc_text(d).len() < s.len(),
        s.subrange(c.pos, c.pos + doc_text(d).len()) == doc_text(d),
        is_delim(s[c.pos + doc_text(d).len()]),
    ensures
        c2.pos == c.pos + doc_text(d).len(),
        p_array(s, c, acc) == p_array(s, c2, acc.push(doc_value(d))),
    decreases d, 1int,
{
    let dt = doc_text(d);
    lemma_at(s, c.pos, dt, 0);
    lemma_doc_start(d);
    assert(skip_ws(s, c) == c);
    match d {
        Doc::Lit(t) => {
            lemma_literal_token(s, c, t);
            next_tok(s, c).1
        },
        Doc::Arr(items) => {
            let inner = items_text(items, 0);
            assert(dt.subrange(1, 1 + inner.len() as int) =~= inner);
            lemma_sub(s, c.pos, dt, 1, inner);
            assert(doc_value(d)->Array_0.subrange(0, 0) =~= Seq::<Json>::empty());
            lemma_items(s, adv(c), Seq::empty(), items, 0);
            p_array(s, adv(c), Seq::empty()).1
        },
        Doc::Obj(ms) => {
            let inner = mems_text(ms, 0);
            assert(dt.subrange(1, 1 + inner.len() as int) =~= inner);
            lemma_sub(s, c.pos, dt, 1, inner);
            assert(doc_value(d)->Object_0.subrange(0, 0) =~= Seq::<(Seq<char>, Json)>::empty());
            lemma_mems(s, adv(c), Seq::empty(), ms, 0);
            p_object(s, adv(c), Seq::empty()).1
        },
    }
}

/// The rest of an array from element `i`: it parses to the array's value
/// and ends right after the closing bracket.
proof fn lemma_items(s: Seq<char>, c: Cursor, acc: Seq<Json>, items: Seq<Doc>, i: int)
    requires
        forall|j: int| 0 <= j < items.len() ==> wf_doc(#[trigger] items[j]),
        0 <= i <= items.len(),
        acc == doc_value(Doc::Arr(items))->Array_0.subrange(0, i),
        0 <= c.pos,
        c.pos + items_text(items, i).len() <= s.len(),
        s.subrange(c.pos, c.pos + items_text(items, i).len()) == items_text(items, i),
    ensures
        p_array(s, c, acc).0 == Ok::<Json, ParsingError>(doc_value(Doc::Arr(items))),
        p_array(s, c, acc).1.pos == c.pos + items_text(items, i).len(),
    decreases items, items.len() - i,
{
    let rest = items_text(items, i);
    let all = doc_value(Doc::Arr(items))->Array_0;
    if i == items.len() {
        lemma_at(s, c.pos, rest, 0);
        assert(skip_ws(s, c) == c);
        assert(acc =~= all);
    } else {
        let d = items[i];
        let dt = doc_text(d);
        let n = dt.len() as int;
        if i == items.len() - 1 {
            assert(rest == dt + seq![']']);
        } else {
            assert(rest == dt + seq![','] + items_text(items, i + 1));
        }
        assert(rest.subrange(0, n) =~= dt);
        lemma_sub(s, c.pos, rest, 0, dt);
        lemma_at(s, c.pos, rest, n);
        let c2 = lemma_array_step(s, c, acc, d);
        let acc1 = acc.push(doc_value(d));
        assert(acc1 =~= all.subrange(0, i + 1));
        assert(skip_ws(s, c2) == c2);
        if i == items.len() - 1 {
            assert(acc1 =~= all);
        } else {
            let more = items_text(items, i + 1);
            let c3 = adv(c2);
            lemma_doc_start(items[i + 1]);
            assert(rest.subrange(n + 1, n + 1 + more.len()) =~= more);
            lemma_sub(s, c.pos, rest, n + 1, more);
            assert(more[0] == doc_text(items[i + 1])[0]) by {
                if i + 1 == items.len() - 1 {
                    assert(more == doc_text(items[i + 1]) + seq![']']);
                } else {
                    assert(more == doc_text(items[i + 1]) + seq![','] + items_text(items, i + 2));
                }
            }
            lemma_at(s, c3.pos, more, 0);
            assert(skip_ws(s, c3) == c3);
            assert(next_tok(s, c2).1 == c3);
            assert(p_array(s, c2, acc1) == p_array(s, c3, acc1));
            lemma_items(s, c3, acc1, items, i + 1);
        }
    }
}

/// The `:value` after a key: it parses to the document's value.
proof fn lemma_pair(s: Seq<char>, c1: Cursor, d: Doc) -> (c2: Cursor)
    requires
        wf_doc(d),
        0 <= c1.pos,
        c1.pos + 1 + doc_text(d).len() < s.len(),
        s[c1.pos] == ':',
        s.subrange(c1.pos + 1, c1.pos + 1 + doc_text(d).len()) == doc_text(d),
        is_delim(s[c1.pos + 1 + doc_text(d).len()]),
    ensures
        c2.pos == c1.pos + 1 + doc_text(d).len(),
        p_pair(s, c1) == (Ok::<Json, ParsingError>(doc_value(d)), c2),
    decreases d, 1int,
{
    let cv = adv(c1);
    let dt = doc_text(d);
    assert(skip_ws(s, c1) == c1);
    lemma_at(s, cv.pos, dt, 0);
    lemma_doc_start(d);
    assert(skip_ws(s, cv) == cv);
    match d {
        Doc::Lit(t) => {
            lemma_literal_token(s, cv, t);
            next_tok(s, cv).1
        },
        Doc::Arr(items) => {
            let inner = items_text(items, 0);
            assert(dt.subrange(1, 1 + inner.len() as int) =~= inner);
            lemma_sub(s, cv.pos, dt, 1, inner);
            assert(doc_value(d)->Array_0.subrange(0, 0) =~= Seq::<Json>::empty());
            lemma_items(s, adv(cv), Seq::empty(), items, 0);
            p_array(s, adv(cv), Seq::empty()).1
        },
        Doc::Obj(ms) => {
            let inner = mems_text(ms, 0);
            assert(dt.subrange(1, 1 + inner.len() as int) =~= inner);
            lemma_sub(s, cv.pos, dt, 1, inner);
            assert(doc_value(d)->Object_0.subrange(0, 0) =~= Seq::<(Seq<char>, Json)>::empty());
            lemma_mems(s, adv(cv), Seq::empty(), ms, 0);
            p_object(s, adv(cv), Seq::empty()).1
        },
    }
}

/// The rest of an object from member `i`: it parses to the object's value
/// and ends right after the closing brace.
proof fn lemma_mems(
    s: Seq<char>,
    c: Cursor,
    acc: Seq<(Seq<char>, Json)>,
    ms: Seq<(Seq<char>, Doc)>,
    i: int,
)
    requires
        wf_doc(Doc::Obj(ms)),
        0 <= i <= ms.len(),
        acc == doc_value(Doc::Obj(ms))->Object_0.subrange(0, i),
        0 <= c.pos,
        c.pos + mems_text(ms, i).len() <= s.len(),
        s.subrange(c.pos, c.pos + mems_text(ms, i).len()) == mems_text(ms, i),
    ensures
        p_object(s, c, acc).0 == Ok::<Json, ParsingError>(doc_value(Doc::Obj(ms))),
        p_object(s, c, acc).1.pos == c.pos + mems_text(ms, i).len(),
    decreases ms, ms.len() - i,
{
    let rest = mems_text(ms, i);
    let all = doc_value(Doc::Obj(ms))->Object_0;
    if i == ms.len() {
        lemma_at(s, c.pos, rest, 0);
        assert(skip_ws(s, c) == c);
        assert(acc =~= all);
    } else {
        let k = ms[i].0;
        let d = ms[i].1;
        assert(plain_key(k));
        assert(wf_doc(d));
        let dt = doc_text(d);
        let kl = k.len() as int;
        let m = seq!['"'] + k + seq!['"', ':'] + dt;
        let n = m.len() as int;
        if i == ms.len() - 1 {
            assert(rest == m + seq!['}']);
        } else {
            assert(rest == m + seq![','] + mems_text(ms, i + 1));
        }
        lemma_at(s, c.pos, rest, 0);
        assert(rest.subrange(1, 1 + kl) =~= k);
        lemma_sub(s, c.pos, rest, 1, k);
        lemma_at(s, c.pos, rest, 1 + kl);
        lemma_at(s, c.pos, rest, 2 + kl);
        lemma_key_token(s, c, k);
        let c1 = next_tok(s, c).1;
        assert(rest.subrange(kl + 3, kl + 3 + dt.len()) =~= dt);
        lemma_sub(s, c.pos, rest, kl + 3, dt);
        lemma_at(s, c.pos, rest, n);
        let c2 = lemma_pair(s, c1, d);
        let v = doc_value(d);
        lemma_key_pos(acc, k);
        assert forall|j: int| 0 <= j < acc.len() implies acc[j].0 != k by {
            assert(acc[j] == all[j]);
        }
        let acc1 = entries_insert(acc, k, v);
        assert(acc1 == acc.push((k, v)));
        assert(acc1 =~= all.subrange(0, i + 1));
        assert(p_object(s, c, acc) == p_object(s, c2, acc1));
        assert(skip_ws(s, c2) == c2);
        if i == ms.len() - 1 {
            assert(acc1 =~= all);
        } else {
            let more = mems_text(ms, i + 1);
            let c3 = adv(c2);
            assert(rest.subrange(n + 1, n + 1 + more.len()) =~= more);
            lemma_sub(s, c.pos, rest, n + 1, more);
            assert(more[0] == '"') by {
                if i + 1 == ms.len() - 1 {
                } else {
                }
            }
            lemma_at(s, c3.pos, more, 0);
            assert(skip_ws(s, c3) == c3);
            assert(next_tok(s, c2).1 == c3);
            assert(p_object(s, c2, acc1) == p_object(s, c3, acc1));
            lemma_mems(s, c3, acc1, ms, i + 1);
        }
    }
}

/// Documents written without whitespace, with plain literals and distinct
/// plain keys in each object, parse to the value they stand for: the same
/// nesting, the same number of elements and members in the same order,
/// and the literals' values.
pub proof fn lemma_document_parses(d: Doc)
    requires
        wf_doc(d),
        !(d is Lit),
    ensures
        parse_text(doc_text(d)) == Ok::<Json, ParsingError>(doc_value(d)),
{
    let s = doc_text(d);
    assert(skip_ws(s, start()) == start());
    let a = adv(start());
    match d {
        Doc::Arr(items) => {
            let inner = items_text(items, 0);
            assert(s.subrange(1, 1 + inner.len() as int) =~= inner);
            assert(doc_value(d)->Array_0.subrange(0, 0) =~= Seq::<Json>::empty());
            lemma_items(s, a, Seq::empty(), items, 0);
        },
        Doc::Obj(ms) => {
            let inner = mems_text(ms, 0);
            assert(s.subrange(1, 1 + inner.len() as int) =~= inner);
            assert(doc_value(d)->Object_0.subrange(0, 0) =~= Seq::<(Seq<char>, Json)>::empty());
            lemma_mems(s, a, Seq::empty(), ms, 0);
        },
        Doc::Lit(_) => {},
    }
}

} // verus!

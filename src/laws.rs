use crate::parser::{parse_text, start};
use crate::print::render;
use crate::tokenizer::{
    adv, adv_ws, cursor_ok, err_at, next_tok, skip_ws, tok_at, white_space, Cursor, ParsingError,
    ParsingErrorKind, Tok, TokKind,
};
use crate::value::{entries_get, entries_insert, key_pos, Json, JsonVal};
use vstd::prelude::*;

verus! {

/// Where `key_pos` points, the key is found; otherwise it is absent.
pub proof fn lemma_key_pos(e: Seq<(Seq<char>, Json)>, k: Seq<char>)
    ensures
        -1 <= key_pos(e, k) < e.len(),
        key_pos(e, k) >= 0 ==> e[key_pos(e, k)].0 == k,
        key_pos(e, k) >= 0 ==> forall|i: int| key_pos(e, k) < i < e.len() ==> e[i].0 != k,
        key_pos(e, k) < 0 ==> forall|i: int| 0 <= i < e.len() ==> e[i].0 != k,
    decreases e.len(),
{
    if e.len() > 0 && e.last().0 != k {
        let d = e.drop_last();
        lemma_key_pos(d, k);
        let p = key_pos(d, k);
        assert(key_pos(e, k) == p);
        assert forall|i: int| p < i < e.len() && 0 <= i implies #[trigger] e[i].0 != k by {
            if i < d.len() {
                assert(d[i] == e[i]);
            }
        }
        if p >= 0 {
            assert(d[p] == e[p]);
        }
    }
}

/// Replacing the value of the key found at `key_pos` leaves it found there.
pub proof fn lemma_key_pos_update(e: Seq<(Seq<char>, Json)>, k: Seq<char>, v: Json)
    requires
        key_pos(e, k) >= 0,
    ensures
        key_pos(e.update(key_pos(e, k), (k, v)), k) == key_pos(e, k),
    decreases e.len(),
{
    let p = key_pos(e, k);
    let u = e.update(p, (k, v));
    lemma_key_pos(e, k);
    if p < e.len() - 1 {
        assert(u.drop_last() =~= e.drop_last().update(p, (k, v)));
        lemma_key_pos_update(e.drop_last(), k, v);
    }
}

/// A key that is new goes last, after all the keys already there.
pub proof fn lemma_key_pos_push(e: Seq<(Seq<char>, Json)>, k: Seq<char>, v: Json)
    ensures
        key_pos(e.push((k, v)), k) == e.len(),
{
    assert(e.push((k, v)).last() == (k, v));
}

/// Duplicate keys: writing a key twice leaves one member with the second
/// value, in the place the first write gave it.
pub proof fn lemma_last_write_wins(
    e: Seq<(Seq<char>, Json)>,
    k: Seq<char>,
    v1: Json,
    v2: Json,
)
    ensures
        entries_insert(entries_insert(e, k, v1), k, v2) == entries_insert(e, k, v2),
{
    let p = key_pos(e, k);
    lemma_key_pos(e, k);
    if p >= 0 {
        lemma_key_pos_update(e, k, v1);
        assert(e.update(p, (k, v1)).update(p, (k, v2)) =~= e.update(p, (k, v2)));
    } else {
        lemma_key_pos_push(e, k, v1);
        assert(e.push((k, v1)).update(e.len() as int, (k, v2)) =~= e.push((k, v2)));
    }
}

/// Key order is kept: inserting never moves or renames the members already
/// there, and a new key is appended after them.
pub proof fn lemma_insert_keeps_order(e: Seq<(Seq<char>, Json)>, k: Seq<char>, v: Json)
    ensures
        entries_insert(e, k, v).len() >= e.len(),
        forall|i: int| 0 <= i < e.len() ==> #[trigger] entries_insert(e, k, v)[i].0 == e[i].0,
        (forall|i: int| 0 <= i < e.len() ==> e[i].0 != k) ==> entries_insert(e, k, v) == e.push(
            (k, v),
        ),
{
    lemma_key_pos(e, k);
    if key_pos(e, k) < 0 {
        assert forall|i: int| 0 <= i < e.len() implies #[trigger] entries_insert(e, k, v)[i].0
            == e[i].0 by {
            assert(e.push((k, v))[i] == e[i]);
        }
    }
}

/// A comma is read as a comma token at its own location; where the next
/// significant character closes an object or an array it is the
/// trailing-comma error at that location instead. Either way the tokenizer
/// stops before that next character.
pub proof fn lemma_comma(s: Seq<char>, c: Cursor)
    requires
        cursor_ok(s, c),
        skip_ws(s, c).pos < s.len(),
        s[skip_ws(s, c).pos] == ',',
    ensures
        ({
            let a = adv(skip_ws(s, c));
            let p = skip_ws(s, a);
            &&& next_tok(s, c).1 == p
            &&& (p.pos < s.len() && (s[p.pos] == '}' || s[p.pos] == ']')) ==> next_tok(s, c).0
                == Err::<Tok, ParsingError>(err_at(ParsingErrorKind::InvalidTrailingComma, a))
            &&& !(p.pos < s.len() && (s[p.pos] == '}' || s[p.pos] == ']')) ==> next_tok(s, c).0
                == Ok::<Tok, ParsingError>(tok_at(TokKind::Comma, a))
        }),
{
    lemma_skip_ws_bounds(s, c);
    lemma_skip_ws_bounds(s, adv(skip_ws(s, c)));
}

pub proof fn lemma_skip_ws_bounds(s: Seq<char>, c: Cursor)
    requires
        0 <= c.pos,
    ensures
        c.pos <= skip_ws(s, c).pos,
        c.pos <= s.len() ==> skip_ws(s, c).pos <= s.len(),
    decreases s.len() - c.pos,
{
    if 0 <= c.pos < s.len() && white_space(s[c.pos]) {
        lemma_skip_ws_bounds(s, adv_ws(s, c));
    }
}

/// A document whose first token opens neither an object nor an array is
/// refused with an invalid starting token at that token.
pub proof fn lemma_invalid_start(s: Seq<char>)
    requires
        next_tok(s, start()).0 is Ok,
        !(next_tok(s, start()).0->Ok_0.kind is OpenBracket),
        !(next_tok(s, start()).0->Ok_0.kind is OpenSqBracket),
    ensures
        parse_text(s) == Err::<Json, ParsingError>(
            ParsingError {
                kind: ParsingErrorKind::InvalidStartingToken,
                loc: next_tok(s, start()).0->Ok_0.loc,
            },
        ),
{
}

/// Printing holds no state: two texts printed from one value are equal.
pub proof fn lemma_print_twice(v: JsonVal, a: String, b: String)
    requires
        a@ == render(v@, Seq::empty()),
        b@ == render(v@, Seq::empty()),
    ensures
        a@ == b@,
{
}

/// The members `ms` inserted into `e` one after the other, as an object is
/// filled while it is parsed.
pub open spec fn insert_all(e: Seq<(Seq<char>, Json)>, ms: Seq<(Seq<char>, Json)>) -> Seq<
    (Seq<char>, Json),
>
    decreases ms.len(),
{
    if ms.len() == 0 {
        e
    } else {
        entries_insert(insert_all(e, ms.drop_last()), ms.last().0, ms.last().1)
    }
}

/// The value of the last member of `ms` with key `k`, if any.
pub open spec fn last_value(ms: Seq<(Seq<char>, Json)>, k: Seq<char>) -> Option<Json>
    decreases ms.len(),
{
    if ms.len() == 0 {
        None
    } else if ms.last().0 == k {
        Some(ms.last().1)
    } else {
        last_value(ms.drop_last(), k)
    }
}

/// Replacing the value of one key leaves where every other key is found.
pub proof fn lemma_key_pos_other(e: Seq<(Seq<char>, Json)>, p: int, k1: Seq<char>, v: Json, k: Seq<char>)
    requires
        0 <= p < e.len(),
        e[p].0 == k1,
        k1 != k,
    ensures
        key_pos(e.update(p, (k1, v)), k) == key_pos(e, k),
    decreases e.len(),
{
    let u = e.update(p, (k1, v));
    if p < e.len() - 1 && e.last().0 != k {
        assert(u.drop_last() =~= e.drop_last().update(p, (k1, v)));
        lemma_key_pos_other(e.drop_last(), p, k1, v, k);
    } else if p == e.len() - 1 {
        assert(u.drop_last() =~= e.drop_last());
    }
}

/// Looking up a key after an insert: the inserted value for that key, the
/// earlier value for any other.
pub proof fn lemma_get_insert(e: Seq<(Seq<char>, Json)>, k1: Seq<char>, v: Json, k: Seq<char>)
    ensures
        entries_get(entries_insert(e, k1, v), k) == (if k == k1 {
            Some(v)
        } else {
            entries_get(e, k)
        }),
{
    lemma_key_pos(e, k1);
    let p = key_pos(e, k1);
    if p >= 0 {
        if k == k1 {
            lemma_key_pos_update(e, k1, v);
        } else {
            lemma_key_pos_other(e, p, k1, v, k);
            lemma_key_pos(e, k);
            if key_pos(e, k) >= 0 {
                assert(key_pos(e, k) != p);
            }
        }
    } else {
        lemma_key_pos_push(e, k1, v);
        if k != k1 {
            assert(e.push((k1, v)).drop_last() =~= e);
            lemma_key_pos(e, k);
        }
    }
}

/// Duplicate keys, over a whole object: after all members are inserted,
/// each key holds the value of its last member, and a key that no member
/// has is absent.
pub proof fn lemma_last_member_wins(ms: Seq<(Seq<char>, Json)>, k: Seq<char>)
    ensures
        entries_get(insert_all(Seq::empty(), ms), k) == last_value(ms, k),
    decreases ms.len(),
{
    if ms.len() > 0 {
        lemma_last_member_wins(ms.drop_last(), k);
        lemma_get_insert(insert_all(Seq::empty(), ms.drop_last()), ms.last().0, ms.last().1, k);
    }
}

/// Key order, over a whole object: with distinct keys the members come
/// out exactly as written, in the same order.
pub proof fn lemma_members_in_order(ms: Seq<(Seq<char>, Json)>)
    requires
        forall|a: int, b: int| 0 <= a < b < ms.len() ==> ms[a].0 != ms[b].0,
    ensures
        insert_all(Seq::empty(), ms) == ms,
    decreases ms.len(),
{
    if ms.len() > 0 {
        let d = ms.drop_last();
        assert forall|a: int, b: int| 0 <= a < b < d.len() implies d[a].0 != d[b].0 by {
            assert(d[a] == ms[a] && d[b] == ms[b]);
        }
        lemma_members_in_order(d);
        assert forall|i: int| 0 <= i < d.len() implies d[i].0 != ms.last().0 by {
            assert(d[i] == ms[i]);
        }
        lemma_insert_keeps_order(d, ms.last().0, ms.last().1);
        assert(d.push((ms.last().0, ms.last().1)) =~= ms);
    }
}

} // verus!

use crate::literal::{lit_value, literal_value};
use crate::tokenizer::{
    expect_tok, next_tok, Cursor, ParsingError, ParsingErrorKind, Tok, TokKind, Token, TokenKind,
    Tokenizer,
};
use crate::value::{elems, entries_insert, Json, JsonVal, ObjectMap};
use vstd::prelude::*;

verus! {

pub open spec fn parsed(r: Result<JsonVal, ParsingError>) -> Result<Json, ParsingError> {
    match r {
        Ok(v) => Ok(v@),
        Err(e) => Err(e),
    }
}

/// The cursor moved forward and stayed within the input.
pub open spec fn advanced(s: Seq<char>, c: Cursor, c1: Cursor) -> bool {
    c.pos < c1.pos <= s.len()
}

pub open spec fn fail(kind: ParsingErrorKind, t: Tok, c: Cursor) -> (
    Result<Json, ParsingError>,
    Cursor,
) {
    (Err(ParsingError { kind, loc: t.loc }), c)
}

/// A value that starts with token `t`, the tokenizer standing at `c`.
pub open spec fn p_value(s: Seq<char>, t: Tok, c: Cursor) -> (Result<Json, ParsingError>, Cursor)
    decreases s.len() - c.pos, 1nat,
{
    match t.kind {
        TokKind::Val(text) => match lit_value(text) {
            Some(v) => (Ok(v), c),
            None => fail(ParsingErrorKind::InvalidToken, t, c),
        },
        TokKind::OpenSqBracket => p_array(s, c, Seq::empty()),
        TokKind::OpenBracket => p_object(s, c, Seq::empty()),
        _ => fail(ParsingErrorKind::InvalidToken, t, c),
    }
}

/// The `: value` that follows an object key.
pub open spec fn p_pair(s: Seq<char>, c: Cursor) -> (Result<Json, ParsingError>, Cursor)
    decreases s.len() - c.pos, 2nat,
{
    let (r1, c1) = expect_tok(s, c, TokKind::Colon);
    match r1 {
        Err(e) => (Err(e), c1),
        Ok(_) => {
            let (r2, c2) = next_tok(s, c1);
            match r2 {
                Err(e) => (Err(e), c2),
                Ok(t2) => if advanced(s, c, c2) {
                    p_value(s, t2, c2)
                } else {
                    fail(ParsingErrorKind::UnexpectedToken, t2, c2)
                },
            }
        },
    }
}

/// The rest of an object whose members so far are `acc`.
pub open spec fn p_object(s: Seq<char>, c: Cursor, acc: Seq<(Seq<char>, Json)>) -> (
    Result<Json, ParsingError>,
    Cursor,
)
    decreases s.len() - c.pos, 0nat,
{
    let (r, c1) = next_tok(s, c);
    match r {
        Err(e) => (Err(e), c1),
        Ok(t) => match t.kind {
            TokKind::ClosedBracket => (Ok(Json::Object(acc)), c1),
            TokKind::Ident(k) => if advanced(s, c, c1) {
                let (rv, c2) = p_pair(s, c1);
                match rv {
                    Err(e) => (Err(e), c2),
                    Ok(v) => if advanced(s, c, c2) {
                        p_object(s, c2, entries_insert(acc, k, v))
                    } else {
                        fail(ParsingErrorKind::UnexpectedToken, t, c2)
                    },
                }
            } else {
                fail(ParsingErrorKind::UnexpectedToken, t, c1)
            },
            TokKind::Comma => if advanced(s, c, c1) {
                p_object(s, c1, acc)
            } else {
                fail(ParsingErrorKind::UnexpectedToken, t, c1)
            },
            _ => fail(ParsingErrorKind::UnexpectedToken, t, c1),
        },
    }
}

/// The rest of an array whose elements so far are `acc`.
pub open spec fn p_array(s: Seq<char>, c: Cursor, acc: Seq<Json>) -> (
    Result<Json, ParsingError>,
    Cursor,
)
    decreases s.len() - c.pos, 0nat,
{
    let (r, c1) = next_tok(s, c);
    match r {
        Err(e) => (Err(e), c1),
        Ok(t) => if !advanced(s, c, c1) {
            match t.kind {
                TokKind::ClosedSqBracket => (Ok(Json::Array(acc)), c1),
                TokKind::Ident(_) => fail(ParsingErrorKind::InvalidIdentInArray, t, c1),
                _ => fail(ParsingErrorKind::UnexpectedToken, t, c1),
            }
        } else {
            match t.kind {
                TokKind::ClosedSqBracket => (Ok(Json::Array(acc)), c1),
                TokKind::OpenBracket => {
                    let (rv, c2) = p_object(s, c1, Seq::empty());
                    match rv {
                        Err(e) => (Err(e), c2),
                        Ok(v) => if advanced(s, c, c2) {
                            p_array(s, c2, acc.push(v))
                        } else {
                            fail(ParsingErrorKind::UnexpectedToken, t, c2)
                        },
                    }
                },
                TokKind::OpenSqBracket => {
                    let (rv, c2) = p_array(s, c1, Seq::empty());
                    match rv {
                        Err(e) => (Err(e), c2),
                        Ok(v) => if advanced(s, c, c2) {
                            p_array(s, c2, acc.push(v))
                        } else {
                            fail(ParsingErrorKind::UnexpectedToken, t, c2)
                        },
                    }
                },
                TokKind::Val(text) => match lit_value(text) {
                    Some(v) => p_array(s, c1, acc.push(v)),
                    None => fail(ParsingErrorKind::InvalidToken, t, c1),
                },
                TokKind::Ident(_) => fail(ParsingErrorKind::InvalidIdentInArray, t, c1),
                TokKind::Comma => p_array(s, c1, acc),
                _ => fail(ParsingErrorKind::UnexpectedToken, t, c1),
            }
        },
    }
}

/// A document: an object or an array.
pub open spec fn parse_from(s: Seq<char>, c: Cursor) -> Result<Json, ParsingError> {
    let (r, c1) = next_tok(s, c);
    match r {
        Err(e) => Err(e),
        Ok(t) => match t.kind {
            TokKind::OpenBracket => p_object(s, c1, Seq::empty()).0,
            TokKind::OpenSqBracket => p_array(s, c1, Seq::empty()).0,
            _ => Err(ParsingError { kind: ParsingErrorKind::InvalidStartingToken, loc: t.loc }),
        },
    }
}

/// The cursor of a fresh tokenizer.
pub open spec fn start() -> Cursor {
    Cursor { pos: 0, line: 1, col: 0 }
}

/// What parsing the text `s` gives.
pub open spec fn parse_text(s: Seq<char>) -> Result<Json, ParsingError> {
    parse_from(s, start())
}

fn parse_object(tokenizer: &mut Tokenizer) -> (r: Result<JsonVal, ParsingError>)
    requires
        old(tokenizer).wf(),
    ensures
        final(tokenizer).wf(),
        final(tokenizer).input() == old(tokenizer).input(),
        final(tokenizer).cursor().pos >= old(tokenizer).cursor().pos,
        p_object(old(tokenizer).input(), old(tokenizer).cursor(), Seq::empty()) == (
            parsed(r),
            final(tokenizer).cursor(),
        ),
    decreases old(tokenizer).input().len() - old(tokenizer).cursor().pos, 0nat,
{
    let ghost s = tokenizer.input();
    let ghost c0 = tokenizer.cursor();
    let mut map = ObjectMap::new();
    loop
        invariant
            tokenizer.wf(),
            tokenizer.input() == s,
            s == old(tokenizer).input(),
            c0 == old(tokenizer).cursor(),
            c0.pos <= tokenizer.cursor().pos,
            p_object(s, tokenizer.cursor(), map@) == p_object(s, c0, Seq::empty()),
        decreases s.len() - tokenizer.cursor().pos,
    {
        let token = match tokenizer.next_token() {
            Ok(t) => t,
            Err(e) => return Err(e),
        };
        match token.kind {
            TokenKind::ClosedBracket => {
                return Ok(JsonVal::Object(map));
            },
            TokenKind::Ident(_) => {
                let (ident, val) = match parse_ident(token, tokenizer) {
                    Ok(pair) => pair,
                    Err(e) => return Err(e),
                };
                map.insert(ident, val);
            },
            TokenKind::Comma => {},
            _ => {
                return Err(ParsingError { kind: ParsingErrorKind::UnexpectedToken, loc: token.loc });
            },
        }
    }
}

fn parse_array(tokenizer: &mut Tokenizer) -> (r: Result<JsonVal, ParsingError>)
    requires
        old(tokenizer).wf(),
    ensures
        final(tokenizer).wf(),
        final(tokenizer).input() == old(tokenizer).input(),
        final(tokenizer).cursor().pos >= old(tokenizer).cursor().pos,
        p_array(old(tokenizer).input(), old(tokenizer).cursor(), Seq::empty()) == (
            parsed(r),
            final(tokenizer).cursor(),
        ),
    decreases old(tokenizer).input().len() - old(tokenizer).cursor().pos, 0nat,
{
    let ghost s = tokenizer.input();
    let ghost c0 = tokenizer.cursor();
    let mut arr: Vec<JsonVal> = Vec::new();
    assert(elems(arr) =~= Seq::<Json>::empty());
    loop
        invariant
            tokenizer.wf(),
            tokenizer.input() == s,
            s == old(tokenizer).input(),
            c0 == old(tokenizer).cursor(),
            c0.pos <= tokenizer.cursor().pos,
            p_array(s, tokenizer.cursor(), elems(arr)) == p_array(s, c0, Seq::empty()),
        decreases s.len() - tokenizer.cursor().pos,
    {
        let ghost before = elems(arr);
        let token = match tokenizer.next_token() {
            Ok(t) => t,
            Err(e) => return Err(e),
        };
        match token.kind {
            TokenKind::ClosedSqBracket => {
                return Ok(JsonVal::Array(arr));
            },
            TokenKind::OpenBracket => {
                let v = match parse_object(tokenizer) {
                    Ok(v) => v,
                    Err(e) => return Err(e),
                };
                arr.push(v);
                assert(elems(arr) =~= before.push(v@));
            },
            TokenKind::OpenSqBracket => {
                let v = match parse_array(tokenizer) {
                    Ok(v) => v,
                    Err(e) => return Err(e),
                };
                arr.push(v);
                assert(elems(arr) =~= before.push(v@));
            },
            TokenKind::Val(_) => {
                let v = match parse_val(token, tokenizer) {
                    Ok(v) => v,
                    Err(e) => return Err(e),
                };
                arr.push(v);
                assert(elems(arr) =~= before.push(v@));
            },
            TokenKind::Ident(_) => {
                return Err(
                    ParsingError { kind: ParsingErrorKind::InvalidIdentInArray, loc: token.loc },
                );
            },
            TokenKind::Comma => {},
            _ => {
                return Err(ParsingError { kind: ParsingErrorKind::UnexpectedToken, loc: token.loc });
            },
        }
    }
}

/// Parses the value that starts with token `val`.
fn parse_val(val: Token, tokenizer: &mut Tokenizer) -> (r: Result<JsonVal, ParsingError>)
    requires
        old(tokenizer).wf(),
    ensures
        final(tokenizer).wf(),
        final(tokenizer).input() == old(tokenizer).input(),
        final(tokenizer).cursor().pos >= old(tokenizer).cursor().pos,
        p_value(old(tokenizer).input(), val@, old(tokenizer).cursor()) == (
            parsed(r),
            final(tokenizer).cursor(),
        ),
    decreases old(tokenizer).input().len() - old(tokenizer).cursor().pos, 1nat,
{
    match val.kind {
        TokenKind::Val(text) => match literal_value(&text) {
            Some(v) => Ok(v),
            None => Err(ParsingError { kind: ParsingErrorKind::InvalidToken, loc: val.loc }),
        },
        TokenKind::OpenSqBracket => parse_array(tokenizer),
        TokenKind::OpenBracket => parse_object(tokenizer),
        _ => Err(ParsingError { kind: ParsingErrorKind::InvalidToken, loc: val.loc }),
    }
}

/// Parses the `: value` after the object key `ident`, giving the member.
pub fn parse_ident(ident: Token, tokenizer: &mut Tokenizer) -> (r: Result<
    (String, JsonVal),
    ParsingError,
>)
    requires
        old(tokenizer).wf(),
        ident.kind is Ident,
    ensures
        final(tokenizer).wf(),
        final(tokenizer).input() == old(tokenizer).input(),
        final(tokenizer).cursor().pos >= old(tokenizer).cursor().pos,
        ({
            let (rv, c2) = p_pair(old(tokenizer).input(), old(tokenizer).cursor());
            &&& c2 == final(tokenizer).cursor()
            &&& match r {
                Ok(pair) => rv == Ok::<Json, ParsingError>(pair.1@) && pair.0@
                    == ident.kind->Ident_0@,
                Err(e) => rv == Err::<Json, ParsingError>(e),
            }
        }),
    decreases old(tokenizer).input().len() - old(tokenizer).cursor().pos, 2nat,
{
    match tokenizer.expect_token(TokenKind::Colon) {
        Ok(_) => {},
        Err(e) => return Err(e),
    }
    let next_token = match tokenizer.next_token() {
        Ok(t) => t,
        Err(e) => return Err(e),
    };
    let val = match parse_val(next_token, tokenizer) {
        Ok(v) => v,
        Err(e) => return Err(e),
    };
    match ident.kind {
        TokenKind::Ident(key) => Ok((key, val)),
        _ => Err(ParsingError { kind: ParsingErrorKind::UnexpectedToken, loc: ident.loc }),
    }
}

/// Parses a whole document: it must be an object or an array.
pub fn parse(tokenizer: Tokenizer) -> (r: Result<JsonVal, ParsingError>)
    requires
        tokenizer.wf(),
    ensures
        parsed(r) == parse_from(tokenizer.input(), tokenizer.cursor()),
{
    let mut tokenizer = tokenizer;
    let token = match tokenizer.next_token() {
        Ok(t) => t,
        Err(e) => return Err(e),
    };
    match token.kind {
        TokenKind::OpenBracket => parse_object(&mut tokenizer),
        TokenKind::OpenSqBracket => parse_array(&mut tokenizer),
        _ => Err(ParsingError { kind: ParsingErrorKind::InvalidStartingToken, loc: token.loc }),
    }
}

} // verus!

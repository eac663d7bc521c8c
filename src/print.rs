use crate::tokenizer::push_char;
use crate::value::{entry_at, Json, JsonVal, Num, Number, ObjectMap};
use vstd::prelude::*;
use vstd::string::StringExecFns;

verus! {

pub open spec fn unit_indent() -> Seq<char> {
    seq![' ', ' ', ' ', ' ']
}

pub open spec fn digit_char(d: nat) -> char {
    seq!['0', '1', '2', '3', '4', '5', '6', '7', '8', '9'][d as int]
}

/// The decimal digits of `n`.
pub open spec fn dec(n: nat) -> Seq<char>
    decreases n,
{
    if n < 10 {
        seq![digit_char(n)]
    } else {
        dec(n / 10).push(digit_char(n % 10))
    }
}

/// A number's text. A signed integer keeps its `-` also when it is zero, so
/// that the text reads back as a signed integer.
pub open spec fn num_text(n: Num) -> Seq<char> {
    match n {
        Num::UnsignedInt(u) => dec(u as nat),
        Num::SignedInt(i) => if i <= 0 {
            seq!['-'] + dec((-i) as nat)
        } else {
            dec(i as nat)
        },
        Num::Float(t) => t,
    }
}

/// The text of a value whose enclosing lines are indented by `pad`.
pub open spec fn render(j: Json, pad: Seq<char>) -> Seq<char>
    decreases j, 0nat,
{
    match j {
        Json::Null => seq!['n', 'u', 'l', 'l'],
        Json::Boolean(b) => if b {
            seq!['t', 'r', 'u', 'e']
        } else {
            seq!['f', 'a', 'l', 's', 'e']
        },
        Json::String(s) => seq!['"'] + s + seq!['"'],
        Json::Number(n) => num_text(n),
        Json::Array(items) => seq!['['] + (if items.len() == 0 {
            Seq::empty()
        } else {
            seq!['\n'] + render_items(items, pad + unit_indent(), items.len()) + pad
        }) + seq![']'],
        Json::Object(e) => seq!['{'] + (if e.len() == 0 {
            Seq::empty()
        } else {
            seq!['\n'] + render_members(e, pad + unit_indent(), e.len())
        }) + pad + seq!['}'],
    }
}

/// The first `n` array elements, one per line, each followed by a comma.
pub open spec fn render_items(items: Seq<Json>, pad: Seq<char>, n: nat) -> Seq<char>
    decreases items, n,
{
    if n == 0 || n > items.len() {
        Seq::empty()
    } else {
        render_items(items, pad, (n - 1) as nat) + pad + render(items[n - 1], pad) + seq![
            ',',
            '\n',
        ]
    }
}

/// The first `n` object members, one per line, commas between them.
pub open spec fn render_members(e: Seq<(Seq<char>, Json)>, pad: Seq<char>, n: nat) -> Seq<char>
    decreases e, n,
{
    if n == 0 || n > e.len() {
        Seq::empty()
    } else {
        render_members(e, pad, (n - 1) as nat) + pad + seq!['"'] + e[n - 1].0 + seq![
            '"',
            ':',
            ' ',
        ] + render(e[n - 1].1, pad) + (if n < e.len() {
            seq![',']
        } else {
            Seq::empty()
        }) + seq!['\n']
    }
}

fn write_u64(out: &mut String, n: u64)
    ensures
        final(out)@ == old(out)@ + dec(n as nat),
    decreases n,
{
    if n >= 10 {
        write_u64(out, n / 10);
    }
    let d = n % 10;
    let c = if d == 0 {
        '0'
    } else if d == 1 {
        '1'
    } else if d == 2 {
        '2'
    } else if d == 3 {
        '3'
    } else if d == 4 {
        '4'
    } else if d == 5 {
        '5'
    } else if d == 6 {
        '6'
    } else if d == 7 {
        '7'
    } else if d == 8 {
        '8'
    } else {
        '9'
    };
    push_char(out, c);
    assert(final(out)@ =~= old(out)@ + dec(n as nat));
}

fn write_str(out: &mut String, chars: &str)
    ensures
        final(out)@ == old(out)@ + chars@,
{
    out.append(chars);
}

fn write_number(out: &mut String, n: &Number)
    ensures
        final(out)@ == old(out)@ + num_text(n@),
{
    match n {
        Number::UnsignedInt(u) => write_u64(out, *u),
        Number::SignedInt(i) => {
            if *i <= 0 {
                push_char(out, '-');
                let m: u64 = if *i == i64::MIN {
                    0x8000_0000_0000_0000
                } else {
                    (-*i) as u64
                };
                write_u64(out, m);
                assert(final(out)@ =~= old(out)@ + num_text(n@));
            } else {
                write_u64(out, *i as u64);
            }
        },
        Number::Float(t) => write_str(out, t.as_str()),
    }
}

fn write_array(out: &mut String, arr: &Vec<JsonVal>, pad: &String, whole: Ghost<Json>)
    requires
        whole@ == (JsonVal::Array(*arr))@,
    ensures
        final(out)@ == old(out)@ + render(whole@, pad@),
    decreases whole@, 1nat,
{
    let ghost items = whole@->Array_0;
    push_char(out, '[');
    if arr.len() > 0 {
        push_char(out, '\n');
        let mut inner = pad.clone();
        inner.append("    ");
        proof {
            reveal_strlit("    ");
            assert("    "@ =~= unit_indent());
        }
        let ghost head = out@;
        let mut i: usize = 0;
        while i < arr.len()
            invariant
                whole@ == (JsonVal::Array(*arr))@,
                items == whole@->Array_0,
                items.len() == arr@.len(),
                inner@ == pad@ + unit_indent(),
                i <= arr.len(),
                out@ == head + render_items(items, inner@, i as nat),
            decreases arr.len() - i,
        {
            write_str(out, inner.as_str());
            assert(items[i as int] == arr[i as int]@);
            assert(decreases_to!(whole@ => items));
            assert(decreases_to!(items => items[i as int]));
            write_json(out, &arr[i], &inner);
            push_char(out, ',');
            push_char(out, '\n');
            assert(out@ =~= head + render_items(items, inner@, (i + 1) as nat));
            i = i + 1;
        }
        write_str(out, pad.as_str());
    }
    push_char(out, ']');
    assert(final(out)@ =~= old(out)@ + render(whole@, pad@));
}

fn write_object(out: &mut String, m: &ObjectMap, pad: &String, whole: Ghost<Json>)
    requires
        whole@ == (JsonVal::Object(*m))@,
    ensures
        final(out)@ == old(out)@ + render(whole@, pad@),
    decreases whole@, 1nat,
{
    let ghost e = whole@->Object_0;
    push_char(out, '{');
    let n = m.len();
    if n > 0 {
        push_char(out, '\n');
        let mut inner = pad.clone();
        inner.append("    ");
        proof {
            reveal_strlit("    ");
            assert("    "@ =~= unit_indent());
        }
        let ghost head = out@;
        let mut i: usize = 0;
        while i < n
            invariant
                whole@ == (JsonVal::Object(*m))@,
                e == whole@->Object_0,
                e == m@,
                n == e.len(),
                inner@ == pad@ + unit_indent(),
                i <= n,
                out@ == head + render_members(e, inner@, i as nat),
            decreases n - i,
        {
            let (k, v) = entry_at(m, i);
            write_str(out, inner.as_str());
            push_char(out, '"');
            write_str(out, k.as_str());
            push_char(out, '"');
            push_char(out, ':');
            push_char(out, ' ');
            assert(decreases_to!(whole@ => e));
            assert(decreases_to!(e => e[i as int]));
            assert(decreases_to!(e[i as int] => e[i as int].1));
            write_json(out, v, &inner);
            if i + 1 < n {
                push_char(out, ',');
            }
            push_char(out, '\n');
            assert(out@ =~= head + render_members(e, inner@, (i + 1) as nat));
            i = i + 1;
        }
    }
    write_str(out, pad.as_str());
    push_char(out, '}');
    assert(final(out)@ =~= old(out)@ + render(whole@, pad@));
}

/// Appends the text of `v` to `out`, nested lines indented by `pad` and more.
fn write_json(out: &mut String, v: &JsonVal, pad: &String)
    ensures
        final(out)@ == old(out)@ + render(v@, pad@),
    decreases v@, 2nat,
{
    match v {
        JsonVal::Null => {
            write_str(out, "null");
            proof {
                reveal_strlit("null");
                assert("null"@ =~= seq!['n', 'u', 'l', 'l']);
            }
        },
        JsonVal::Boolean(b) => {
            if *b {
                write_str(out, "true");
                proof {
                    reveal_strlit("true");
                    assert("true"@ =~= seq!['t', 'r', 'u', 'e']);
                }
            } else {
                write_str(out, "false");
                proof {
                    reveal_strlit("false");
                    assert("false"@ =~= seq!['f', 'a', 'l', 's', 'e']);
                }
            }
        },
        JsonVal::String(s) => {
            push_char(out, '"');
            write_str(out, s.as_str());
            push_char(out, '"');
            assert(final(out)@ =~= old(out)@ + render(v@, pad@));
        },
        JsonVal::Number(n) => write_number(out, n),
        JsonVal::Array(arr) => write_array(out, arr, pad, Ghost(v@)),
        JsonVal::Object(m) => write_object(out, m, pad, Ghost(v@)),
    }
}

impl JsonVal {
    /// The value as indented JSON text: four spaces per level, each array
    /// element followed by `,` and a newline, object members separated by
    /// `,` and a newline.
    pub fn to_string(&self) -> (r: String)
        ensures
            r@ == render(self@, Seq::empty()),
    {
        let mut out = String::new();
        let pad = String::new();
        write_json(&mut out, self, &pad);
        assert(out@ =~= render(self@, Seq::empty()));
        out
    }
}

} // verus!

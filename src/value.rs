use indexmap::IndexMap;
use vstd::prelude::*;

verus! {

pub enum Num {
    UnsignedInt(u64),
    SignedInt(i64),
    Float(Seq<char>),
}

pub enum Json {
    Null,
    Number(Num),
    String(Seq<char>),
    Boolean(bool),
    Array(Seq<Json>),
    Object(Seq<(Seq<char>, Json)>),
}

#[derive(Debug, Clone, PartialEq, Eq)]
pub enum Number {
    UnsignedInt(u64),
    SignedInt(i64),
    Float(String),
}

#[derive(Debug, PartialEq, Eq)]
pub enum JsonVal {
    Null,
    Number(Number),
    String(String),
    Boolean(bool),
    Array(Vec<JsonVal>),
    Object(ObjectMap),
}

#[verifier::external_body]
#[derive(Debug, PartialEq, Eq)]
pub struct ObjectMap {
    map: IndexMap<String, JsonVal>,
}

/// The members of an object map, in insertion order.
pub uninterp spec fn entries_of(m: ObjectMap) -> Seq<(Seq<char>, Json)>;

/// The position of key `k` among the members `e`, or -1.
pub open spec fn key_pos(e: Seq<(Seq<char>, Json)>, k: Seq<char>) -> int
    decreases e.len(),
{
    if e.len() == 0 {
        -1
    } else if e.last().0 == k {
        e.len() - 1
    } else {
        key_pos(e.drop_last(), k)
    }
}

/// Inserting a member: a present key keeps its place and takes the new
/// value; a new key goes last.
pub open spec fn entries_insert(e: Seq<(Seq<char>, Json)>, k: Seq<char>, v: Json) -> Seq<
    (Seq<char>, Json),
> {
    let p = key_pos(e, k);
    if p >= 0 {
        e.update(p, (k, v))
    } else {
        e.push((k, v))
    }
}

pub open spec fn entries_get(e: Seq<(Seq<char>, Json)>, k: Seq<char>) -> Option<Json> {
    let p = key_pos(e, k);
    if p >= 0 {
        Some(e[p].1)
    } else {
        None
    }
}

/// No key occurs twice.
pub open spec fn keys_unique(e: Seq<(Seq<char>, Json)>) -> bool {
    forall|i: int, j: int| 0 <= i < j < e.len() ==> e[i].0 != e[j].0
}

impl Number {
    pub open spec fn view(&self) -> Num {
        match self {
            Number::UnsignedInt(n) => Num::UnsignedInt(*n),
            Number::SignedInt(n) => Num::SignedInt(*n),
            Number::Float(t) => Num::Float(t@),
        }
    }
}

impl JsonVal {
    pub open spec fn view(&self) -> Json
        decreases self,
    {
        match self {
            JsonVal::Null => Json::Null,
            JsonVal::Number(n) => Json::Number(n@),
            JsonVal::String(s) => Json::String(s@),
            JsonVal::Boolean(b) => Json::Boolean(*b),
            JsonVal::Array(v) => Json::Array(
                Seq::new(v.len() as nat, |i: int| if 0 <= i < v.len() { v[i].view() } else { Json::Null }),
            ),
            JsonVal::Object(m) => Json::Object(entries_of(*m)),
        }
    }
}

/// The views of an array's elements.
pub open spec fn elems(v: Vec<JsonVal>) -> Seq<Json> {
    (JsonVal::Array(v))@->Array_0
}

/// Relies on `IndexMap::new`: an empty map.
#[verifier::external_body]
fn new_map() -> (r: ObjectMap)
    ensures
        entries_of(r) == Seq::<(Seq<char>, Json)>::empty(),
{
    ObjectMap { map: IndexMap::new() }
}

/// Relies on `IndexMap::insert`: an equivalent key keeps its place in the
/// order and its value is replaced; otherwise the pair is appended.
#[verifier::external_body]
fn insert_entry(m: &mut ObjectMap, k: String, v: JsonVal)
    ensures
        entries_of(*final(m)) == entries_insert(entries_of(*old(m)), k@, v@),
{
    m.map.insert(k, v);
}

/// Relies on `IndexMap::len`: the number of members.
#[verifier::external_body]
fn map_len(m: &ObjectMap) -> (r: usize)
    ensures
        r == entries_of(*m).len(),
{
    m.map.len()
}

/// Relies on `IndexMap::get_index`: the member at position `i` in order.
#[verifier::external_body]
pub(crate) fn entry_at(m: &ObjectMap, i: usize) -> (r: (&String, &JsonVal))
    requires
        i < entries_of(*m).len(),
    ensures
        r.0@ == entries_of(*m)[i as int].0,
        r.1@ == entries_of(*m)[i as int].1,
{
    m.map.get_index(i).unwrap()
}

/// Relies on `IndexMap::get`: the value stored under `k`, if any.
#[verifier::external_body]
fn lookup<'a>(m: &'a ObjectMap, k: &str) -> (r: Option<&'a JsonVal>)
    ensures
        match r {
            Some(v) => entries_get(entries_of(*m), k@) == Some(v@),
            None => entries_get(entries_of(*m), k@) is None,
        },
{
    m.map.get(k)
}

impl ObjectMap {
    pub open spec fn view(&self) -> Seq<(Seq<char>, Json)> {
        entries_of(*self)
    }

    pub fn new() -> (r: ObjectMap)
        ensures
            r@ == Seq::<(Seq<char>, Json)>::empty(),
    {
        new_map()
    }

    /// Sets the value of `k`: last write wins, first insertion fixes the place.
    pub fn insert(&mut self, k: String, v: JsonVal)
        ensures
            final(self)@ == entries_insert(old(self)@, k@, v@),
    {
        insert_entry(self, k, v)
    }

    pub fn len(&self) -> (r: usize)
        ensures
            r == self@.len(),
    {
        map_len(self)
    }

    pub fn get(&self, k: &str) -> (r: Option<&JsonVal>)
        ensures
            match r {
                Some(v) => entries_get(self@, k@) == Some(v@),
                None => entries_get(self@, k@) is None,
            },
    {
        lookup(self, k)
    }

    /// The key and value at position `i` in insertion order.
    pub fn get_index(&self, i: usize) -> (r: Option<(&String, &JsonVal)>)
        ensures
            i < self@.len() ==> r is Some && r->Some_0.0@ == self@[i as int].0
                && r->Some_0.1@ == self@[i as int].1,
            i >= self@.len() ==> r is None,
    {
        if i < map_len(self) {
            Some(entry_at(self, i))
        } else {
            None
        }
    }

    /// The keys in insertion order.
    pub fn keys(&self) -> (r: Vec<String>)
        ensures
            r@.len() == self@.len(),
            forall|i: int| 0 <= i < r@.len() ==> #[trigger] r@[i]@ == self@[i].0,
    {
        let n = map_len(self);
        let mut out: Vec<String> = Vec::new();
        let mut i: usize = 0;
        while i < n
            invariant
                n == self@.len(),
                i <= n,
                out@.len() == i,
                forall|j: int| 0 <= j < i ==> #[trigger] out@[j]@ == self@[j].0,
            decreases n - i,
        {
            let (k, _) = entry_at(self, i);
            out.push(k.clone());
            i = i + 1;
        }
        out
    }
}

} // verus!

//! JSON documents: what a `serde_json::Value` holds, and how one is built.
//!
//! The LUKS2 header's metadata and the tokens in it are JSON. `serde_json`
//! reads and writes the text; here a value is taken apart and put together,
//! and its contents are given a model, [`JsonTree`], which the contracts of
//! the other modules speak of.

use vstd::prelude::*;

use crate::text::{
    dec, lemma_text_lt_total, lemma_text_lt_transitive, str_eq, text_less, text_lt,
};

verus! {

// ---------------------------------------------------------------------------
// The model
// ---------------------------------------------------------------------------

/// The contents of a JSON value. A number is held by its text, and the members
/// of an object stand in the order of their keys.
#[verifier::ext_equal]
pub ghost enum JsonTree {
    Null,
    Bool(bool),
    Number(Seq<char>),
    Str(Seq<char>),
    Array(Seq<JsonTree>),
    Object(Seq<(Seq<char>, JsonTree)>),
}

/// The members of an object.
pub type Members = Seq<(Seq<char>, JsonTree)>;

/// Whether the keys of `m` come in strictly ascending order.
pub open spec fn ascends(m: Members) -> bool {
    forall|i: int, j: int| 0 <= i < j < m.len() ==> text_lt(#[trigger] m[i].0, #[trigger] m[j].0)
}

/// The position of the first member with the key `key`, or the number of
/// members if there is none.
pub open spec fn key_index(m: Members, key: Seq<char>) -> int
    decreases m.len(),
{
    if m.len() == 0 {
        0
    } else if m[0].0 == key {
        0
    } else {
        1 + key_index(m.skip(1), key)
    }
}

/// The value that an object holds under `key`; none in anything but an object.
pub open spec fn member(t: JsonTree, key: Seq<char>) -> Option<JsonTree> {
    match t {
        JsonTree::Object(m) => if key_index(m, key) < m.len() {
            Some(m[key_index(m, key)].1)
        } else {
            None
        },
        _ => None,
    }
}

/// The text of a string value; none for anything else.
pub open spec fn str_of(t: JsonTree) -> Option<Seq<char>> {
    match t {
        JsonTree::Str(s) => Some(s),
        _ => None,
    }
}

/// The text held under `key`, if it is there and is a string.
pub open spec fn member_str(t: JsonTree, key: Seq<char>) -> Option<Seq<char>> {
    match member(t, key) {
        Some(v) => str_of(v),
        None => None,
    }
}

/// The members of the object held under `key`; none where there is no object.
pub open spec fn member_members(t: JsonTree, key: Seq<char>) -> Members {
    match member(t, key) {
        Some(JsonTree::Object(m)) => m,
        _ => seq![],
    }
}

/// The items of the array held under `key`; none where there is no array.
pub open spec fn member_items(t: JsonTree, key: Seq<char>) -> Seq<JsonTree> {
    match member(t, key) {
        Some(JsonTree::Array(a)) => a,
        _ => seq![],
    }
}

/// `m` with `value` held under `key`, at the place that the order of the keys
/// gives it.
pub open spec fn put(m: Members, key: Seq<char>, value: JsonTree) -> Members
    decreases m.len(),
{
    if m.len() == 0 {
        seq![(key, value)]
    } else if m[0].0 == key {
        seq![(key, value)] + m.skip(1)
    } else if text_lt(key, m[0].0) {
        seq![(key, value)] + m
    } else {
        seq![m[0]] + put(m.skip(1), key, value)
    }
}

// ---------------------------------------------------------------------------
// serde_json
// ---------------------------------------------------------------------------

/// A JSON value of `serde_json`.
#[verifier::external_type_specification]
#[verifier::external_body]
pub struct ExValue(serde_json::Value);

/// What a `serde_json::Value` holds.
pub uninterp spec fn value_tree(v: serde_json::Value) -> JsonTree;

/// The contents of a list of values.
pub open spec fn trees(v: Seq<serde_json::Value>) -> Seq<JsonTree> {
    Seq::new(v.len(), |i: int| value_tree(v[i]))
}

/// A JSON value opened one level deep.
pub enum Shape<'a> {
    Null,
    Bool(bool),
    Number(String),
    Str(&'a str),
    Array(&'a Vec<serde_json::Value>),
    Object(Vec<(&'a str, &'a serde_json::Value)>),
}

/// What the value holds that `s` was opened from.
pub open spec fn shape_tree(s: Shape<'_>) -> JsonTree {
    match s {
        Shape::Null => JsonTree::Null,
        Shape::Bool(b) => JsonTree::Bool(b),
        Shape::Number(n) => JsonTree::Number(n@),
        Shape::Str(t) => JsonTree::Str(t@),
        Shape::Array(a) => JsonTree::Array(trees(a@)),
        Shape::Object(m) => JsonTree::Object(
            Seq::new(m@.len(), |i: int| (m@[i].0@, value_tree(*m@[i].1))),
        ),
    }
}

/// `serde_json::Value` is an enum of six variants. An object is backed by a
/// `BTreeMap<String, Value>`, so it hands out its members in the order of the
/// keys, each key once. A number is handed out by its `Display` text.
#[verifier::external_body]
pub(crate) fn shape(v: &serde_json::Value) -> (s: Shape<'_>)
    ensures
        shape_tree(s) == value_tree(*v),
        shape_tree(s) matches JsonTree::Object(m) ==> ascends(m),
{
    match v {
        serde_json::Value::Null => Shape::Null,
        serde_json::Value::Bool(b) => Shape::Bool(*b),
        serde_json::Value::Number(n) => Shape::Number(n.to_string()),
        serde_json::Value::String(s) => Shape::Str(s.as_str()),
        serde_json::Value::Array(a) => Shape::Array(a),
        serde_json::Value::Object(m) => Shape::Object(
            m.iter().map(|(k, v)| (k.as_str(), v)).collect(),
        ),
    }
}

/// What a JSON value is made of.
pub enum Parts {
    Bool(bool),
    Integer(i64),
    Str(String),
    Array(Vec<serde_json::Value>),
    Object(Vec<(String, serde_json::Value)>),
}

/// The members that `m` stands for.
pub open spec fn members(m: Seq<(String, serde_json::Value)>) -> Members {
    Seq::new(m.len(), |i: int| (m[i].0@, value_tree(m[i].1)))
}

/// What a value made of `p` holds.
pub open spec fn parts_tree(p: Parts) -> JsonTree {
    match p {
        Parts::Bool(b) => JsonTree::Bool(b),
        Parts::Integer(n) => JsonTree::Number(dec(n as int)),
        Parts::Str(s) => JsonTree::Str(s@),
        Parts::Array(a) => JsonTree::Array(trees(a@)),
        Parts::Object(m) => JsonTree::Object(members(m@)),
    }
}

/// The variants of `serde_json::Value` hold what they are given. An integer's
/// text is its decimal form. The members of an object are collected into a
/// `BTreeMap`, which leaves them as they are when their keys ascend.
#[verifier::external_body]
pub(crate) fn assemble(p: Parts) -> (v: serde_json::Value)
    requires
        parts_tree(p) matches JsonTree::Object(m) ==> ascends(m),
    ensures
        value_tree(v) == parts_tree(p),
{
    match p {
        Parts::Bool(b) => serde_json::Value::Bool(b),
        Parts::Integer(n) => serde_json::Value::Number(n.into()),
        Parts::Str(s) => serde_json::Value::String(s),
        Parts::Array(a) => serde_json::Value::Array(a),
        Parts::Object(m) => serde_json::Value::Object(m.into_iter().collect()),
    }
}

/// What `serde_json` reads a text as: the value, or the text of its complaint.
pub uninterp spec fn json_parsed(text: Seq<char>) -> Result<JsonTree, Seq<char>>;

/// A text that was read as `t`.
pub open spec fn read_as(t: JsonTree) -> Result<JsonTree, Seq<char>> {
    Ok(t)
}

/// A text that was refused with the complaint `e`.
pub open spec fn refused(e: Seq<char>) -> Result<JsonTree, Seq<char>> {
    Err(e)
}

/// `serde_json::from_str` into a `Value`; the error is handed out by its
/// `Display` text. What is read depends on the text alone.
#[verifier::external_body]
pub(crate) fn parse(text: &str) -> (r: Result<serde_json::Value, String>)
    ensures
        match r {
            Ok(v) => json_parsed(text@) == read_as(value_tree(v)),
            Err(e) => json_parsed(text@) == refused(e@),
        },
{
    serde_json::from_str(text).map_err(|e| e.to_string())
}

/// The compact text that `serde_json` writes a value as.
pub uninterp spec fn json_text(t: JsonTree) -> Seq<char>;

/// Whether `t` is a truth value, a text or a 64-bit integer.
pub open spec fn scalar(t: JsonTree) -> bool {
    match t {
        JsonTree::Bool(_) => true,
        JsonTree::Str(_) => true,
        JsonTree::Number(n) => exists|k: int| i64::MIN <= k <= i64::MAX && n == #[trigger] dec(k),
        _ => false,
    }
}

/// Whether `t` is built of scalars, with at most `n` arrays and objects inside
/// each other and the keys of each object in order.
pub open spec fn nested(t: JsonTree, n: nat) -> bool
    decreases n,
{
    ||| scalar(t)
    ||| n > 0 && match t {
        JsonTree::Array(a) => forall|i: int|
            0 <= i < a.len() ==> nested(#[trigger] a[i], (n - 1) as nat),
        JsonTree::Object(m) => ascends(m) && forall|i: int|
            0 <= i < m.len() ==> nested((#[trigger] m[i]).1, (n - 1) as nat),
        _ => false,
    }
}

/// Whether `t` is built of scalars nested at most eight deep.
pub open spec fn shallow(t: JsonTree) -> bool {
    exists|n: nat| n <= 8 && #[trigger] nested(t, n)
}

/// Whether `text` is the JSON text of a value, and reads back as that value.
pub open spec fn readable(text: Seq<char>) -> bool {
    exists|t: JsonTree| #[trigger] json_text(t) == text && json_parsed(text) == read_as(t)
}

/// `serde_json::Value::to_string`: compact JSON. Reading the text back gives
/// the value again; this is claimed of values of scalars nested at most eight
/// deep only (the reader gives up at a depth of 128, and may round a fraction).
/// A number is written as its own text.
#[verifier::external_body]
pub(crate) fn text_of(v: &serde_json::Value) -> (r: String)
    ensures
        r@ == json_text(value_tree(*v)),
        shallow(value_tree(*v)) ==> json_parsed(r@) == read_as(value_tree(*v)),
{
    v.to_string()
}

// ---------------------------------------------------------------------------
// Reading
// ---------------------------------------------------------------------------

proof fn lemma_key_index(m: Members, key: Seq<char>, i: int)
    requires
        0 <= i <= m.len(),
        forall|k: int| 0 <= k < i ==> (#[trigger] m[k]).0 != key,
        i < m.len() ==> m[i].0 == key,
    ensures
        key_index(m, key) == i,
    decreases m.len(),
{
    if i > 0 {
        assert forall|k: int| 0 <= k < i - 1 implies (#[trigger] m.skip(1)[k]).0 != key by {
            assert(m.skip(1)[k] == m[k + 1]);
        }
        assert(i < m.len() ==> m.skip(1)[i - 1] == m[i]);
        lemma_key_index(m.skip(1), key, i - 1);
    }
}

/// The value that an object holds under `key`.
pub fn get<'a>(v: &'a serde_json::Value, key: &str) -> (r: Option<&'a serde_json::Value>)
    ensures
        match r {
            Some(x) => member(value_tree(*v), key@) == Some(value_tree(*x)),
            None => member(value_tree(*v), key@) is None,
        },
{
    match shape(v) {
        Shape::Object(m) => {
            let ghost t = value_tree(*v)->Object_0;
            let mut i: usize = 0;
            while i < m.len()
                invariant
                    i <= m@.len(),
                    value_tree(*v) == JsonTree::Object(t),
                    t == Seq::new(m@.len(), |i: int| (m@[i].0@, value_tree(*m@[i].1))),
                    forall|k: int| 0 <= k < i ==> (#[trigger] t[k]).0 != key@,
                decreases m@.len() - i,
            {
                if str_eq(m[i].0, key) {
                    proof {
                        lemma_key_index(t, key@, i as int);
                    }
                    return Some(m[i].1);
                }
                i = i + 1;
            }
            proof {
                lemma_key_index(t, key@, i as int);
            }
            None
        },
        _ => None,
    }
}

/// The text of a string value.
pub fn as_str(v: &serde_json::Value) -> (r: Option<&str>)
    ensures
        match r {
            Some(s) => str_of(value_tree(*v)) == Some(s@),
            None => str_of(value_tree(*v)) is None,
        },
{
    match shape(v) {
        Shape::Str(s) => Some(s),
        _ => None,
    }
}

/// The text held under `key`, if it is there and is a string.
pub fn get_str<'a>(v: &'a serde_json::Value, key: &str) -> (r: Option<&'a str>)
    ensures
        match r {
            Some(s) => member_str(value_tree(*v), key@) == Some(s@),
            None => member_str(value_tree(*v), key@) is None,
        },
{
    match get(v, key) {
        Some(x) => as_str(x),
        None => None,
    }
}

/// The members of the object held under `key`, none where there is no object.
pub fn get_members<'a>(v: &'a serde_json::Value, key: &str) -> (r: Vec<
    (&'a str, &'a serde_json::Value),
>)
    ensures
        member_members(value_tree(*v), key@) == Seq::new(
            r@.len(),
            |i: int| (r@[i].0@, value_tree(*r@[i].1)),
        ),
        ascends(member_members(value_tree(*v), key@)),
{
    match get(v, key) {
        Some(x) => match shape(x) {
            Shape::Object(m) => {
                return m;
            },
            _ => {},
        },
        None => {},
    }
    let r: Vec<(&'a str, &'a serde_json::Value)> = Vec::new();
    assert(member_members(value_tree(*v), key@) =~= Seq::new(
        r@.len(),
        |i: int| (r@[i].0@, value_tree(*r@[i].1)),
    ));
    r
}

/// The items of the array held under `key`.
pub fn get_items<'a>(v: &'a serde_json::Value, key: &str) -> (r: Option<
    &'a Vec<serde_json::Value>,
>)
    ensures
        match r {
            Some(a) => member_items(value_tree(*v), key@) == trees(a@) && member(
                value_tree(*v),
                key@,
            ) is Some,
            None => member_items(value_tree(*v), key@).len() == 0,
        },
{
    match get(v, key) {
        Some(x) => match shape(x) {
            Shape::Array(a) => Some(a),
            _ => None,
        },
        None => None,
    }
}

// ---------------------------------------------------------------------------
// Building
// ---------------------------------------------------------------------------

/// Setting a key keeps the keys in order, and every key that it adds is `key`.
pub(crate) proof fn lemma_put_ascends(m: Members, key: Seq<char>, value: JsonTree)
    requires
        ascends(m),
    ensures
        ascends(put(m, key, value)),
        forall|i: int|
            0 <= i < put(m, key, value).len() ==> (#[trigger] put(m, key, value)[i]).0 == key
                || exists|k: int| 0 <= k < m.len() && #[trigger] m[k] == put(m, key, value)[i],
    decreases m.len(),
{
    let p = put(m, key, value);
    if m.len() == 0 {
    } else if m[0].0 == key {
        assert forall|i: int| 1 <= i < p.len() implies p[i] == m[i] by {}
    } else if text_lt(key, m[0].0) {
        assert forall|i: int| 1 <= i < p.len() implies p[i] == m[i - 1] by {}
        assert forall|j: int| 0 < j < p.len() implies text_lt(key, #[trigger] p[j].0) by {
            if j > 1 {
                assert(text_lt(m[0].0, m[j - 1].0));
                lemma_text_lt_transitive(key, m[0].0, m[j - 1].0);
            }
        }
        assert forall|i: int, j: int| 0 <= i < j < p.len() implies text_lt(
            #[trigger] p[i].0,
            #[trigger] p[j].0,
        ) by {
            if i > 0 {
                assert(text_lt(m[i - 1].0, m[j - 1].0));
            }
        }
    } else {
        let rest = m.skip(1);
        let q = put(rest, key, value);
        assert forall|i: int, j: int| 0 <= i < j < rest.len() implies text_lt(
            #[trigger] rest[i].0,
            #[trigger] rest[j].0,
        ) by {
            assert(text_lt(m[i + 1].0, m[j + 1].0));
        }
        lemma_put_ascends(rest, key, value);
        lemma_text_lt_total(key, m[0].0);
        assert forall|i: int| 0 <= i < q.len() implies text_lt(m[0].0, #[trigger] q[i].0) by {
            if q[i].0 != key {
                let k = choose|k: int| 0 <= k < rest.len() && #[trigger] rest[k] == q[i];
                assert(text_lt(m[0].0, m[k + 1].0));
            }
        }
        assert forall|i: int| 1 <= i < p.len() implies p[i] == q[i - 1] by {}
        assert forall|i: int, j: int| 0 <= i < j < p.len() implies text_lt(
            #[trigger] p[i].0,
            #[trigger] p[j].0,
        ) by {
            if i > 0 {
                assert(text_lt(q[i - 1].0, q[j - 1].0));
            } else {
                assert(p[j] == q[j - 1]);
            }
        }
        assert forall|i: int| 0 <= i < p.len() implies (#[trigger] p[i]).0 == key || exists|k: int|
            0 <= k < m.len() && #[trigger] m[k] == p[i] by {
            if i == 0 {
                assert(m[0] == p[0]);
            } else if q[i - 1].0 != key {
                let k = choose|k: int| 0 <= k < rest.len() && #[trigger] rest[k] == q[i - 1];
                assert(m[k + 1] == p[i]);
            }
        }
    }
}

proof fn lemma_put_member(m: Members, key: Seq<char>, value: JsonTree, other: Seq<char>)
    requires
        ascends(m),
    ensures
        member(JsonTree::Object(put(m, key, value)), other) == if other == key {
            Some(value)
        } else {
            member(JsonTree::Object(m), other)
        },
    decreases m.len(),
{
    if m.len() == 0 {
        lemma_member_cons((key, value), m, other);
        assert(seq![(key, value)] + m =~= put(m, key, value));
    } else {
        let rest = m.skip(1);
        assert(seq![m[0]] + rest =~= m);
        lemma_member_cons(m[0], rest, other);
        if m[0].0 == key {
            lemma_member_cons((key, value), rest, other);
        } else if text_lt(key, m[0].0) {
            lemma_member_cons((key, value), m, other);
        } else {
            assert forall|i: int, j: int| 0 <= i < j < rest.len() implies text_lt(
                #[trigger] rest[i].0,
                #[trigger] rest[j].0,
            ) by {
                assert(text_lt(m[i + 1].0, m[j + 1].0));
            }
            lemma_put_member(rest, key, value, other);
            lemma_member_cons(m[0], put(rest, key, value), other);
        }
    }
}

/// Setting a key keeps the keys in order; the key then gives the value, and
/// every other key what it gave before.
pub proof fn law_put(m: Members, key: Seq<char>, value: JsonTree)
    requires
        ascends(m),
    ensures
        ascends(put(m, key, value)),
        forall|other: Seq<char>| #[trigger]
            member(JsonTree::Object(put(m, key, value)), other) == if other == key {
                Some(value)
            } else {
                member(JsonTree::Object(m), other)
            },
{
    lemma_put_ascends(m, key, value);
    assert forall|other: Seq<char>| #[trigger]
        member(JsonTree::Object(put(m, key, value)), other) == if other == key {
            Some(value)
        } else {
            member(JsonTree::Object(m), other)
        } by {
        lemma_put_member(m, key, value, other);
    }
}

/// Whether `m` are the members of an object of scalars and of arrays of scalars,
/// with the keys in order.
pub open spec fn flat(m: Members) -> bool {
    ascends(m) && forall|i: int| 0 <= i < m.len() ==> nested((#[trigger] m[i]).1, 1)
}

/// Setting a key of a flat object to a scalar, or to an array of scalars, leaves it
/// flat.
pub proof fn law_put_flat(m: Members, key: Seq<char>, value: JsonTree)
    requires
        flat(m),
        nested(value, 1),
    ensures
        flat(put(m, key, value)),
{
    lemma_put_ascends(m, key, value);
    lemma_put_values(m, key, value);
}

proof fn lemma_put_values(m: Members, key: Seq<char>, value: JsonTree)
    ensures
        forall|i: int|
            0 <= i < put(m, key, value).len() ==> (#[trigger] put(m, key, value)[i]).1 == value
                || exists|k: int| 0 <= k < m.len() && #[trigger] m[k] == put(m, key, value)[i],
    decreases m.len(),
{
    let p = put(m, key, value);
    if m.len() == 0 {
    } else if m[0].0 == key {
        assert forall|i: int| 1 <= i < p.len() implies p[i] == m[i] by {}
    } else if text_lt(key, m[0].0) {
        assert forall|i: int| 1 <= i < p.len() implies p[i] == m[i - 1] by {}
    } else {
        let rest = m.skip(1);
        let q = put(rest, key, value);
        lemma_put_values(rest, key, value);
        assert forall|i: int| 0 <= i < p.len() implies (#[trigger] p[i]).1 == value || exists|k: int|
            0 <= k < m.len() && #[trigger] m[k] == p[i] by {
            if i == 0 {
                assert(m[0] == p[0]);
            } else if q[i - 1].1 != value {
                let k = choose|k: int| 0 <= k < rest.len() && #[trigger] rest[k] == q[i - 1];
                assert(m[k + 1] == p[i]);
            }
        }
    }
}

/// The first member of an object hides a later one with the same key.
proof fn lemma_member_cons(head: (Seq<char>, JsonTree), tail: Members, key: Seq<char>)
    ensures
        member(JsonTree::Object(seq![head] + tail), key) == if head.0 == key {
            Some(head.1)
        } else {
            member(JsonTree::Object(tail), key)
        },
{
    let m = seq![head] + tail;
    assert(m.skip(1) =~= tail);
    lemma_key_index_bound(tail, key);
    if head.0 != key && key_index(tail, key) < tail.len() {
        assert(m[1 + key_index(tail, key)] == tail[key_index(tail, key)]);
    }
}

proof fn lemma_key_index_bound(m: Members, key: Seq<char>)
    ensures
        0 <= key_index(m, key) <= m.len(),
    decreases m.len(),
{
    if m.len() > 0 {
        lemma_key_index_bound(m.skip(1), key);
    }
}

proof fn lemma_put_at(m: Members, key: Seq<char>, value: JsonTree, i: int)
    requires
        0 <= i <= m.len(),
        forall|k: int| 0 <= k < i ==> (#[trigger] m[k]).0 != key && !text_lt(key, m[k].0),
        i < m.len() ==> m[i].0 == key || text_lt(key, m[i].0),
    ensures
        i < m.len() && m[i].0 == key ==> put(m, key, value) == m.update(i, (key, value)),
        !(i < m.len() && m[i].0 == key) ==> put(m, key, value) == m.insert(i, (key, value)),
    decreases m.len(),
{
    let p = put(m, key, value);
    if i == 0 {
        if i < m.len() && m[i].0 == key {
            assert(p =~= m.update(i, (key, value)));
        } else {
            assert(p =~= m.insert(i, (key, value)));
        }
    } else {
        let rest = m.skip(1);
        assert forall|k: int| 0 <= k < i - 1 implies (#[trigger] rest[k]).0 != key && !text_lt(
            key,
            rest[k].0,
        ) by {
            assert(rest[k] == m[k + 1]);
        }
        assert(i < m.len() ==> rest[i - 1] == m[i]);
        lemma_put_at(rest, key, value, i - 1);
        if i < m.len() && m[i].0 == key {
            assert(p =~= m.update(i, (key, value)));
        } else {
            assert(p =~= m.insert(i, (key, value)));
        }
    }
}

/// An object under construction: its members, with the keys in order.
pub struct ObjectBuilder {
    members: Vec<(String, serde_json::Value)>,
}

impl View for ObjectBuilder {
    type V = Members;

    closed spec fn view(&self) -> Members {
        members(self.members@)
    }
}

impl ObjectBuilder {
    #[verifier::type_invariant]
    spec fn ordered(self) -> bool {
        ascends(members(self.members@))
    }

    /// An object without members.
    pub fn new() -> (b: ObjectBuilder)
        ensures
            b@ == Members::empty(),
            flat(b@),
    {
        let b = ObjectBuilder { members: Vec::new() };
        assert(b@ =~= Members::empty());
        b
    }

    /// The object with `value` held under `key`.
    pub fn with(self, key: &str, value: serde_json::Value) -> (b: ObjectBuilder)
        ensures
            b@ == put(self@, key@, value_tree(value)),
            flat(self@) && nested(value_tree(value), 1) ==> flat(b@),
    {
        proof {
            use_type_invariant(&self);
        }
        let ghost m = self@;
        let mut v = self.members;
        let mut i: usize = 0;
        while i < v.len() && !str_eq(v[i].0.as_str(), key) && !text_less(key, v[i].0.as_str())
            invariant
                i <= v@.len(),
                m == members(v@),
                forall|k: int| 0 <= k < i ==> (#[trigger] m[k]).0 != key@ && !text_lt(key@, m[k].0),
            decreases v@.len() - i,
        {
            i = i + 1;
        }
        proof {
            lemma_put_at(m, key@, value_tree(value), i as int);
            lemma_put_ascends(m, key@, value_tree(value));
            if flat(m) && nested(value_tree(value), 1) {
                law_put_flat(m, key@, value_tree(value));
            }
        }
        let ghost t = (key@, value_tree(value));
        let ghost old_v = v@;
        if i < v.len() && str_eq(v[i].0.as_str(), key) {
            v.set(i, (key.to_string(), value));
            assert(members(v@) =~= m.update(i as int, t));
        } else {
            v.insert(i, (key.to_string(), value));
            assert(members(v@) =~= m.insert(i as int, t));
        }
        ObjectBuilder { members: v }
    }

    /// The object with the text `value` held under `key`.
    pub fn with_str(self, key: &str, value: &str) -> (b: ObjectBuilder)
        ensures
            b@ == put(self@, key@, JsonTree::Str(value@)),
            flat(self@) ==> flat(b@),
    {
        self.with(key, assemble(Parts::Str(value.to_string())))
    }

    /// The object with the truth value `value` held under `key`.
    pub fn with_bool(self, key: &str, value: bool) -> (b: ObjectBuilder)
        ensures
            b@ == put(self@, key@, JsonTree::Bool(value)),
            flat(self@) ==> flat(b@),
    {
        self.with(key, assemble(Parts::Bool(value)))
    }

    /// The value.
    pub fn build(self) -> (v: serde_json::Value)
        ensures
            value_tree(v) == JsonTree::Object(self@),
    {
        proof {
            use_type_invariant(&self);
        }
        assemble(Parts::Object(self.members))
    }
}

/// A JSON integer.
pub fn integer(n: i64) -> (v: serde_json::Value)
    ensures
        value_tree(v) == JsonTree::Number(dec(n as int)),
{
    assemble(Parts::Integer(n))
}

/// A JSON string.
pub fn string(s: &str) -> (v: serde_json::Value)
    ensures
        value_tree(v) == JsonTree::Str(s@),
{
    assemble(Parts::Str(s.to_string()))
}

/// A JSON array.
pub fn array(items: Vec<serde_json::Value>) -> (v: serde_json::Value)
    ensures
        value_tree(v) == JsonTree::Array(trees(items@)),
{
    assemble(Parts::Array(items))
}

} // verus!

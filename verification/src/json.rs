//! A JSON document model: values, objects as key-ordered member lists, and
//! the lookups and updates that the disc collection and the metadata
//! services perform on them.
//!
//! Object members are kept in the byte order of their keys (the order of a
//! `BTreeMap<String, _>`); a member is found by its first occurrence.
use vstd::prelude::*;
use crate::text::string_of;
use vstd::string::StringSliceAdditionalSpecFns;

verus! {

broadcast use vstd::utf8::encode_utf8_decode_utf8;

/// A JSON number: a non-negative integer, a negative integer, or a float
/// given by its IEEE-754 bit pattern.
#[derive(Debug, Clone, Copy, PartialEq, Eq)]
pub enum JsonNumber {
    PosInt(u64),
    NegInt(i64),
    Float(u64),
}

/// A JSON value.
#[derive(Debug)]
pub enum Json {
    Null,
    Bool(bool),
    Number(JsonNumber),
    Text(String),
    Array(Vec<Json>),
    Object(Vec<(String, Json)>),
}

/// The mathematical value of a [`Json`].
pub enum JsonV {
    Null,
    Bool(bool),
    Number(JsonNumber),
    Text(Seq<char>),
    Array(Seq<JsonV>),
    Object(Seq<(Seq<char>, JsonV)>),
}

pub type Members = Seq<(Seq<char>, JsonV)>;

/// The mathematical value of a JSON document.
pub open spec fn json_view(j: Json) -> JsonV
    decreases j,
{
    match j {
        Json::Null => JsonV::Null,
        Json::Bool(b) => JsonV::Bool(b),
        Json::Number(n) => JsonV::Number(n),
        Json::Text(s) => JsonV::Text(s@),
        Json::Array(v) => JsonV::Array(
            Seq::new(
                v@.len(),
                |i: int|
                    if 0 <= i < v@.len() {
                        json_view(v@[i])
                    } else {
                        JsonV::Null
                    },
            ),
        ),
        Json::Object(es) => JsonV::Object(
            Seq::new(
                es@.len(),
                |i: int|
                    if 0 <= i < es@.len() {
                        (es@[i].0@, json_view(es@[i].1))
                    } else {
                        (Seq::empty(), JsonV::Null)
                    },
            ),
        ),
    }
}

impl View for Json {
    type V = JsonV;

    open spec fn view(&self) -> JsonV {
        json_view(*self)
    }
}

/// Strict lexicographic order of byte strings.
pub open spec fn bytes_lt(a: Seq<u8>, b: Seq<u8>) -> bool
    decreases a.len(),
{
    if a.len() == 0 {
        b.len() > 0
    } else if b.len() == 0 {
        false
    } else if a[0] != b[0] {
        a[0] < b[0]
    } else {
        bytes_lt(a.drop_first(), b.drop_first())
    }
}

/// Order of object keys: byte order of their UTF-8 encodings (that of `String`).
pub open spec fn key_lt(a: Seq<char>, b: Seq<char>) -> bool {
    bytes_lt(vstd::utf8::encode_utf8(a), vstd::utf8::encode_utf8(b))
}

/// Members are in strictly increasing key order.
pub open spec fn keys_sorted(es: Members) -> bool {
    forall|i: int, j: int| 0 <= i < j < es.len() ==> key_lt(es[i].0, es[j].0)
}

/// Value of the first member with key `k`.
pub open spec fn obj_get(es: Members, k: Seq<char>) -> Option<JsonV>
    decreases es.len(),
{
    if es.len() == 0 {
        None
    } else if es[0].0 == k {
        Some(es[0].1)
    } else {
        obj_get(es.drop_first(), k)
    }
}

/// Index of the first member whose key is not below `k`.
pub open spec fn insert_pos(es: Members, k: Seq<char>) -> nat
    decreases es.len(),
{
    if es.len() == 0 || !key_lt(es[0].0, k) {
        0
    } else {
        1 + insert_pos(es.drop_first(), k)
    }
}

/// Sets member `k` to `v`: replaces the member found at its place in key
/// order, or inserts a new one there.
pub open spec fn obj_insert(es: Members, k: Seq<char>, v: JsonV) -> Members {
    let p = insert_pos(es, k) as int;
    if p < es.len() && es[p].0 == k {
        es.update(p, (k, v))
    } else {
        es.insert(p, (k, v))
    }
}

/// Removes the member with key `k` (every one, should the key occur more
/// than once), keeping the others in order.
pub open spec fn obj_remove(es: Members, k: Seq<char>) -> Members
    decreases es.len(),
{
    if es.len() == 0 {
        es
    } else if es[0].0 == k {
        obj_remove(es.drop_first(), k)
    } else {
        seq![es[0]] + obj_remove(es.drop_first(), k)
    }
}

/// The members of an object; none for any other value.
pub open spec fn members_of(v: JsonV) -> Members {
    match v {
        JsonV::Object(es) => es,
        _ => seq![],
    }
}

/// `Value::get` with a key: the member of an object, `None` otherwise.
pub open spec fn jget(v: JsonV, k: Seq<char>) -> Option<JsonV> {
    match v {
        JsonV::Object(es) => obj_get(es, k),
        _ => None,
    }
}

/// `value[key]` for reading: the member, or `null`.
pub open spec fn jindex(v: JsonV, k: Seq<char>) -> JsonV {
    match jget(v, k) {
        Some(x) => x,
        None => JsonV::Null,
    }
}

/// `Value::get` with an index: the element of an array, `None` otherwise.
pub open spec fn jget_index(v: JsonV, i: int) -> Option<JsonV> {
    match v {
        JsonV::Array(xs) => if 0 <= i < xs.len() {
            Some(xs[i])
        } else {
            None
        },
        _ => None,
    }
}

/// A value that `value[key] = ..` may write into: `null` (which becomes an
/// empty object) or an object.
pub open spec fn writable(v: JsonV) -> bool {
    v is Null || v is Object
}

/// Reading along a path of keys, `null` where a member is missing.
pub open spec fn get_path(v: JsonV, path: Seq<Seq<char>>) -> JsonV
    decreases path.len(),
{
    if path.len() == 0 {
        v
    } else {
        get_path(jindex(v, path[0]), path.drop_first())
    }
}

/// `value[k0][k1]..[kn] = x` does not panic: every value it indexes into is
/// writable.
pub open spec fn path_writable(v: JsonV, path: Seq<Seq<char>>) -> bool
    decreases path.len(),
{
    path.len() == 0 || (writable(v) && path_writable(jindex(v, path[0]), path.drop_first()))
}

/// The document after `value[k0][k1]..[kn] = x`.
pub open spec fn set_path(v: JsonV, path: Seq<Seq<char>>, x: JsonV) -> JsonV
    decreases path.len(),
{
    if path.len() == 0 {
        x
    } else {
        JsonV::Object(
            obj_insert(members_of(v), path[0], set_path(jindex(v, path[0]), path.drop_first(), x)),
        )
    }
}

/// The keys of a path of strings.
pub open spec fn path_keys(path: Seq<String>) -> Seq<Seq<char>> {
    Seq::new(path.len(), |i: int| path[i]@)
}

// ----- order lemmas -----

pub proof fn lemma_bytes_lt_irreflexive(a: Seq<u8>)
    ensures
        !bytes_lt(a, a),
    decreases a.len(),
{
    if a.len() > 0 {
        lemma_bytes_lt_irreflexive(a.drop_first());
    }
}

pub proof fn lemma_bytes_lt_asymmetric(a: Seq<u8>, b: Seq<u8>)
    ensures
        !(bytes_lt(a, b) && bytes_lt(b, a)),
    decreases a.len(),
{
    if a.len() > 0 && b.len() > 0 && a[0] == b[0] {
        lemma_bytes_lt_asymmetric(a.drop_first(), b.drop_first());
    }
}

pub proof fn lemma_bytes_lt_transitive(a: Seq<u8>, b: Seq<u8>, c: Seq<u8>)
    requires
        bytes_lt(a, b),
        bytes_lt(b, c),
    ensures
        bytes_lt(a, c),
    decreases a.len(),
{
    if a.len() > 0 && b.len() > 0 && c.len() > 0 && a[0] == b[0] && b[0] == c[0] {
        lemma_bytes_lt_transitive(a.drop_first(), b.drop_first(), c.drop_first());
    }
}

pub proof fn lemma_bytes_lt_total(a: Seq<u8>, b: Seq<u8>)
    requires
        a != b,
    ensures
        bytes_lt(a, b) || bytes_lt(b, a),
    decreases a.len(),
{
    if a.len() > 0 && b.len() > 0 && a[0] == b[0] {
        if a.drop_first() == b.drop_first() {
            assert(a =~= seq![a[0]] + a.drop_first());
            assert(b =~= seq![b[0]] + b.drop_first());
        }
        lemma_bytes_lt_total(a.drop_first(), b.drop_first());
    } else if a.len() == 0 && b.len() == 0 {
        assert(a =~= b);
    }
}

pub proof fn lemma_key_lt_irreflexive(a: Seq<char>)
    ensures
        !key_lt(a, a),
{
    lemma_bytes_lt_irreflexive(vstd::utf8::encode_utf8(a));
}

pub proof fn lemma_key_lt_total(a: Seq<char>, b: Seq<char>)
    requires
        a != b,
    ensures
        key_lt(a, b) || key_lt(b, a),
{
    let ea = vstd::utf8::encode_utf8(a);
    let eb = vstd::utf8::encode_utf8(b);
    if ea == eb {
        assert(vstd::utf8::decode_utf8(ea) == a);
        assert(vstd::utf8::decode_utf8(eb) == b);
    }
    lemma_bytes_lt_total(ea, eb);
}

pub proof fn lemma_key_lt_transitive(a: Seq<char>, b: Seq<char>, c: Seq<char>)
    requires
        key_lt(a, b),
        key_lt(b, c),
    ensures
        key_lt(a, c),
{
    lemma_bytes_lt_transitive(
        vstd::utf8::encode_utf8(a),
        vstd::utf8::encode_utf8(b),
        vstd::utf8::encode_utf8(c),
    );
}

pub proof fn lemma_key_lt_asymmetric(a: Seq<char>, b: Seq<char>)
    ensures
        !(key_lt(a, b) && key_lt(b, a)),
{
    lemma_bytes_lt_asymmetric(vstd::utf8::encode_utf8(a), vstd::utf8::encode_utf8(b));
}

// ----- exec helpers -----

/// Three-way comparison of byte strings: -1, 0 or 1.
fn compare_bytes(a: &[u8], b: &[u8]) -> (r: i8)
    ensures
        r == -1 <==> bytes_lt(a@, b@),
        r == 0 <==> a@ == b@,
        r == 1 <==> bytes_lt(b@, a@),
        -1 <= r <= 1,
{
    let n = a.len();
    let m = b.len();
    let mut i: usize = 0;
    proof {
        assert(a@.skip(0) =~= a@);
        assert(b@.skip(0) =~= b@);
    }
    while i < n && i < m
        invariant
            n == a@.len(),
            m == b@.len(),
            i <= n,
            i <= m,
            a@.take(i as int) == b@.take(i as int),
            bytes_lt(a@, b@) == bytes_lt(a@.skip(i as int), b@.skip(i as int)),
            bytes_lt(b@, a@) == bytes_lt(b@.skip(i as int), a@.skip(i as int)),
        decreases n - i,
    {
        if a[i] != b[i] {
            let ghost sa = a@.skip(i as int);
            let ghost sb = b@.skip(i as int);
            assert(sa[0] == a@[i as int] && sb[0] == b@[i as int]);
            if a[i] < b[i] {
                proof {
                    lemma_bytes_lt_asymmetric(a@, b@);
                }
                assert(a@[i as int] != b@[i as int]);
                return -1;
            } else {
                proof {
                    lemma_bytes_lt_asymmetric(a@, b@);
                }
                assert(a@[i as int] != b@[i as int]);
                return 1;
            }
        }
        proof {
            assert(a@.skip(i as int).drop_first() =~= a@.skip(i + 1));
            assert(b@.skip(i as int).drop_first() =~= b@.skip(i + 1));
            assert(a@.take(i + 1) =~= a@.take(i as int).push(a@[i as int]));
            assert(b@.take(i + 1) =~= b@.take(i as int).push(b@[i as int]));
        }
        i = i + 1;
    }
    if n == m {
        assert(a@ =~= a@.take(n as int));
        assert(b@ =~= b@.take(m as int));
        proof {
            lemma_bytes_lt_irreflexive(a@);
        }
        0
    } else if n < m {
        assert(a@.skip(i as int).len() == 0);
        assert(b@.skip(i as int).len() > 0);
        assert(a@.len() != b@.len());
        -1
    } else {
        assert(b@.skip(i as int).len() == 0);
        assert(a@.skip(i as int).len() > 0);
        assert(a@.len() != b@.len());
        1
    }
}

/// Whether key `a` comes before key `b`.
pub fn key_less(a: &str, b: &str) -> (r: bool)
    ensures
        r == key_lt(a@, b@),
{
    compare_bytes(a.as_bytes(), b.as_bytes()) == -1
}

/// Whether two keys are equal.
pub fn key_eq(a: &str, b: &str) -> (r: bool)
    ensures
        r == (a@ == b@),
{
    let r = compare_bytes(a.as_bytes(), b.as_bytes()) == 0;
    proof {
        if a.spec_bytes() == b.spec_bytes() {
            assert(vstd::utf8::decode_utf8(vstd::utf8::encode_utf8(a@)) == a@);
            assert(vstd::utf8::decode_utf8(vstd::utf8::encode_utf8(b@)) == b@);
        }
    }
    r
}

/// View of a member list.
pub open spec fn members_view(es: Seq<(String, Json)>) -> Members {
    Seq::new(es.len(), |i: int| (es[i].0@, es[i].1@))
}

proof fn lemma_object_view(es: Vec<(String, Json)>)
    ensures
        Json::Object(es)@ == JsonV::Object(members_view(es@)),
{
    let j = Json::Object(es);
    let m = members_of(j@);
    assert(j@ is Object);
    assert forall|i: int| 0 <= i < m.len() implies m[i] == members_view(es@)[i] by {}
    assert(m =~= members_view(es@));
}

proof fn lemma_array_view(xs: Vec<Json>)
    ensures
        Json::Array(xs)@ == JsonV::Array(Seq::new(xs@.len(), |i: int| xs@[i]@)),
{
    let j = Json::Array(xs);
    let m = match j@ {
        JsonV::Array(m) => m,
        _ => seq![],
    };
    assert(j@ is Array);
    assert forall|i: int| 0 <= i < m.len() implies m[i] == xs@[i]@ by {}
    assert(m =~= Seq::new(xs@.len(), |i: int| xs@[i]@));
}

pub proof fn lemma_insert_pos_bound(es: Members, k: Seq<char>)
    ensures
        insert_pos(es, k) <= es.len(),
    decreases es.len(),
{
    if es.len() > 0 {
        lemma_insert_pos_bound(es.drop_first(), k);
    }
}

/// Position of the first member whose key is not below `k`, and whether that
/// member's key is `k`.
fn find_pos(es: &Vec<(String, Json)>, k: &str) -> (r: (usize, bool))
    ensures
        r.0 == insert_pos(members_view(es@), k@),
        r.0 <= es@.len(),
        r.1 == (r.0 < es@.len() && es@[r.0 as int].0@ == k@),
{
    let ghost mv = members_view(es@);
    let n = es.len();
    let mut i: usize = 0;
    assert(mv.skip(0) =~= mv);
    proof {
        lemma_insert_pos_bound(mv, k@);
    }
    while i < n && key_less(es[i].0.as_str(), k)
        invariant
            n == es@.len(),
            mv == members_view(es@),
            i <= n,
            insert_pos(mv, k@) == i + insert_pos(mv.skip(i as int), k@),
        decreases n - i,
    {
        assert(mv.skip(i as int)[0] == mv[i as int]);
        assert(mv.skip(i as int).drop_first() =~= mv.skip(i + 1));
        i = i + 1;
    }
    if i < n {
        assert(mv.skip(i as int)[0] == mv[i as int]);
        let eq = key_eq(es[i].0.as_str(), k);
        (i, eq)
    } else {
        (i, false)
    }
}

/// Index of the first member with key `k`, or the length if none.
fn find_key(es: &Vec<(String, Json)>, k: &str) -> (r: usize)
    ensures
        r <= es@.len(),
        r < es@.len() ==> es@[r as int].0@ == k@ && obj_get(members_view(es@), k@) == Some(
            es@[r as int].1@,
        ),
        r == es@.len() ==> obj_get(members_view(es@), k@) is None,
        forall|j: int| 0 <= j < r ==> es@[j].0@ != k@,
{
    let ghost mv = members_view(es@);
    let n = es.len();
    let mut i: usize = 0;
    assert(mv.skip(0) =~= mv);
    while i < n && !key_eq(es[i].0.as_str(), k)
        invariant
            n == es@.len(),
            mv == members_view(es@),
            i <= n,
            obj_get(mv, k@) == obj_get(mv.skip(i as int), k@),
            forall|j: int| 0 <= j < i ==> es@[j].0@ != k@,
        decreases n - i,
    {
        assert(mv.skip(i as int)[0] == mv[i as int]);
        assert(mv.skip(i as int).drop_first() =~= mv.skip(i + 1));
        i = i + 1;
    }
    if i < n {
        assert(mv.skip(i as int)[0] == mv[i as int]);
    }
    i
}

impl Json {
    /// A deep copy.
    pub fn deep_clone(&self) -> (r: Json)
        ensures
            r@ == self@,
        decreases self,
    {
        match self {
            Json::Null => Json::Null,
            Json::Bool(b) => Json::Bool(*b),
            Json::Number(n) => Json::Number(*n),
            Json::Text(s) => Json::Text(s.clone()),
            Json::Array(xs) => {
                let mut out: Vec<Json> = Vec::new();
                let n = xs.len();
                let mut i: usize = 0;
                while i < n
                    invariant
                        n == xs@.len(),
                        *self == Json::Array(*xs),
                        i <= n,
                        out@.len() == i,
                        forall|j: int| 0 <= j < i ==> out@[j]@ == xs@[j]@,
                    decreases n - i,
                {
                    proof {
                        assert(decreases_to!(*self => (*self)->Array_0));
                        assert(decreases_to!(*xs => xs@));
                        assert(decreases_to!(xs@ => xs@[i as int]));
                    }
                    let c = xs[i].deep_clone();
                    out.push(c);
                    i = i + 1;
                }
                proof {
                    lemma_array_view(*xs);
                    lemma_array_view(out);
                    assert(Seq::new(out@.len(), |j: int| out@[j]@) =~= Seq::new(
                        xs@.len(),
                        |j: int| xs@[j]@,
                    ));
                }
                Json::Array(out)
            },
            Json::Object(es) => {
                let mut out: Vec<(String, Json)> = Vec::new();
                let n = es.len();
                let mut i: usize = 0;
                while i < n
                    invariant
                        n == es@.len(),
                        *self == Json::Object(*es),
                        i <= n,
                        out@.len() == i,
                        forall|j: int|
                            0 <= j < i ==> out@[j].0@ == es@[j].0@ && out@[j].1@ == es@[j].1@,
                    decreases n - i,
                {
                    let k = es[i].0.clone();
                    proof {
                        assert(decreases_to!(*self => (*self)->Object_0));
                        assert(decreases_to!(*es => es@));
                        assert(decreases_to!(es@ => es@[i as int]));
                        assert(decreases_to!(es@[i as int] => es@[i as int].1));
                    }
                    let c = es[i].1.deep_clone();
                    out.push((k, c));
                    i = i + 1;
                }
                proof {
                    lemma_object_view(*es);
                    lemma_object_view(out);
                    assert(members_view(out@) =~= members_view(es@));
                }
                Json::Object(out)
            },
        }
    }

    /// `Value::get` with a key.
    pub fn get(&self, k: &str) -> (r: Option<&Json>)
        ensures
            r matches Some(x) ==> jget(self@, k@) == Some(x@),
            r is None ==> jget(self@, k@) is None,
    {
        match self {
            Json::Object(es) => {
                proof {
                    lemma_object_view(*es);
                }
                let i = find_key(es, k);
                if i < es.len() {
                    Some(&es[i].1)
                } else {
                    None
                }
            },
            _ => None,
        }
    }

    /// `Value::get` with an array index.
    pub fn get_index(&self, i: usize) -> (r: Option<&Json>)
        ensures
            r matches Some(x) ==> jget_index(self@, i as int) == Some(x@),
            r is None ==> jget_index(self@, i as int) is None,
    {
        match self {
            Json::Array(xs) => {
                proof {
                    lemma_array_view(*xs);
                }
                if i < xs.len() {
                    Some(&xs[i])
                } else {
                    None
                }
            },
            _ => None,
        }
    }

    /// `Value::as_str`.
    pub fn as_str(&self) -> (r: Option<&str>)
        ensures
            r matches Some(s) ==> self@ == JsonV::Text(s@),
            r is None ==> !(self@ is Text),
    {
        match self {
            Json::Text(s) => Some(s.as_str()),
            _ => None,
        }
    }

    /// `Value::as_u64`: the value of a non-negative integer.
    pub fn as_u64(&self) -> (r: Option<u64>)
        ensures
            r == (match self@ {
                JsonV::Number(JsonNumber::PosInt(n)) => Some(n),
                _ => None::<u64>,
            }),
    {
        match self {
            Json::Number(JsonNumber::PosInt(n)) => Some(*n),
            _ => None,
        }
    }

    /// Whether the value is `null`.
    pub fn is_null(&self) -> (r: bool)
        ensures
            r == (self@ is Null),
    {
        match self {
            Json::Null => true,
            _ => false,
        }
    }

    /// Whether the value is null or an object (may be written into by key).
    pub fn is_writable(&self) -> (r: bool)
        ensures
            r == writable(self@),
    {
        match self {
            Json::Null => true,
            Json::Object(_) => true,
            _ => false,
        }
    }

    /// An empty object.
    pub fn empty_object() -> (r: Json)
        ensures
            r@ == JsonV::Object(seq![]),
    {
        let v: Vec<(String, Json)> = Vec::new();
        assert(members_view(v@) =~= seq![]);
        proof {
            lemma_object_view(v);
        }
        Json::Object(v)
    }

    /// A text value.
    pub fn text(s: &str) -> (r: Json)
        ensures
            r@ == JsonV::Text(s@),
    {
        Json::Text(string_of(s))
    }

    /// `value[key] = member`: `null` becomes an empty object first.
    pub fn with_member(self, k: &str, member: Json) -> (r: Json)
        requires
            writable(self@),
        ensures
            r@ == JsonV::Object(obj_insert(members_of(self@), k@, member@)),
    {
        let mut es = match self {
            Json::Object(es) => {
                proof {
                    lemma_object_view(es);
                }
                es
            },
            _ => {
                let v: Vec<(String, Json)> = Vec::new();
                assert(members_view(v@) =~= seq![]);
                v
            },
        };
        let ghost old_mv = members_view(es@);
        assert(old_mv == members_of(self@));
        let (pos, found) = find_pos(&es, k);
        let ghost mv_view = member@;
        if found {
            let _old = es.remove(pos);
            es.insert(pos, (string_of(k), member));
            proof {
                assert(members_view(es@) =~= old_mv.update(pos as int, (k@, mv_view)));
            }
        } else {
            es.insert(pos, (string_of(k), member));
            proof {
                assert(members_view(es@) =~= old_mv.insert(pos as int, (k@, mv_view)));
            }
        }
        proof {
            lemma_object_view(es);
        }
        Json::Object(es)
    }

    /// Removes member `k` of an object; other values are left as they are.
    pub fn without_member(self, k: &str) -> (r: Json)
        ensures
            r@ == (match self@ {
                JsonV::Object(es) => JsonV::Object(obj_remove(es, k@)),
                other => other,
            }),
    {
        match self {
            Json::Object(es) => {
                proof {
                    lemma_object_view(es);
                }
                let ghost mv = members_view(es@);
                let mut out: Vec<(String, Json)> = Vec::new();
                let n = es.len();
                let mut i: usize = 0;
                assert(mv.take(0) =~= Seq::<(Seq<char>, JsonV)>::empty());
                while i < n
                    invariant
                        n == es@.len(),
                        mv == members_view(es@),
                        i <= n,
                        members_view(out@) == obj_remove(mv.take(i as int), k@),
                    decreases n - i,
                {
                    proof {
                        lemma_obj_remove_push(mv.take(i as int), mv[i as int], k@);
                        assert(mv.take(i + 1) =~= mv.take(i as int).push(mv[i as int]));
                    }
                    let ghost before = members_view(out@);
                    if !key_eq(es[i].0.as_str(), k) {
                        out.push((es[i].0.clone(), es[i].1.deep_clone()));
                        assert(members_view(out@) =~= before + seq![mv[i as int]]);
                    } else {
                        assert(before + Seq::<(Seq<char>, JsonV)>::empty() =~= before);
                    }
                    i = i + 1;
                }
                assert(mv.take(n as int) =~= mv);
                proof {
                    lemma_object_view(out);
                }
                Json::Object(out)
            },
            other => other,
        }
    }

    /// `value[k0]..[kn] = x` for the keys of `path` from position `i` on.
    pub fn set_path(self, path: &Vec<String>, i: usize, x: Json) -> (r: Json)
        requires
            i <= path@.len(),
            path_writable(self@, path_keys(path@).skip(i as int)),
        ensures
            r@ == set_path(self@, path_keys(path@).skip(i as int), x@),
        decreases path@.len() - i,
    {
        let ghost keys = path_keys(path@).skip(i as int);
        if i >= path.len() {
            return x;
        }
        assert(keys[0] == path@[i as int]@);
        assert(keys.drop_first() =~= path_keys(path@).skip(i + 1));
        let key = path[i].as_str();
        let child = match self.get(key) {
            Some(c) => c.deep_clone(),
            None => Json::Null,
        };
        assert(child@ == jindex(self@, key@));
        let new_child = child.set_path(path, i + 1, x);
        self.with_member(key, new_child)
    }
}

proof fn lemma_obj_remove_push(s: Members, x: (Seq<char>, JsonV), k: Seq<char>)
    ensures
        obj_remove(s.push(x), k) == obj_remove(s, k) + (if x.0 == k {
            Seq::<(Seq<char>, JsonV)>::empty()
        } else {
            seq![x]
        }),
    decreases s.len(),
{
    if s.len() == 0 {
        assert(s.push(x).drop_first() =~= s);
        assert(obj_remove(s, k) =~= s);
        assert(seq![x] + s =~= seq![x]);
    } else {
        assert(s.push(x)[0] == s[0]);
        assert(s.push(x).drop_first() =~= s.drop_first().push(x));
        lemma_obj_remove_push(s.drop_first(), x, k);
        if s[0].0 != k {
            let t = if x.0 == k {
                Seq::<(Seq<char>, JsonV)>::empty()
            } else {
                seq![x]
            };
            assert(seq![s[0]] + (obj_remove(s.drop_first(), k) + t) =~= (seq![s[0]]
                + obj_remove(s.drop_first(), k)) + t);
        }
    }
}

/// Every key left after removing is above `b` when every key before was.
proof fn lemma_obj_remove_above(es: Members, k: Seq<char>, b: Seq<char>)
    requires
        forall|i: int| 0 <= i < es.len() ==> key_lt(b, #[trigger] es[i].0),
    ensures
        forall|j: int| 0 <= j < obj_remove(es, k).len() ==> key_lt(b, #[trigger] obj_remove(es, k)[j].0),
    decreases es.len(),
{
    if es.len() > 0 {
        let t = es.drop_first();
        assert forall|i: int| 0 <= i < t.len() implies key_lt(b, #[trigger] t[i].0) by {
            assert(t[i] == es[i + 1]);
        }
        lemma_obj_remove_above(t, k, b);
        let r = obj_remove(t, k);
        if es[0].0 != k {
            assert forall|j: int| 0 <= j < (seq![es[0]] + r).len() implies key_lt(
                b,
                #[trigger] (seq![es[0]] + r)[j].0,
            ) by {
                if j > 0 {
                    assert((seq![es[0]] + r)[j] == r[j - 1]);
                }
            }
        }
    }
}

proof fn lemma_obj_remove_sorted(es: Members, k: Seq<char>)
    requires
        keys_sorted(es),
    ensures
        keys_sorted(obj_remove(es, k)),
    decreases es.len(),
{
    if es.len() > 0 {
        let t = es.drop_first();
        assert forall|i: int, j: int| 0 <= i < j < t.len() implies key_lt(t[i].0, t[j].0) by {
            assert(t[i] == es[i + 1] && t[j] == es[j + 1]);
        }
        lemma_obj_remove_sorted(t, k);
        let r = obj_remove(t, k);
        if es[0].0 != k {
            assert forall|i: int| 0 <= i < t.len() implies key_lt(es[0].0, #[trigger] t[i].0) by {
                assert(t[i] == es[i + 1]);
            }
            lemma_obj_remove_above(t, k, es[0].0);
            let ns = seq![es[0]] + r;
            assert forall|i: int, j: int| 0 <= i < j < ns.len() implies key_lt(ns[i].0, ns[j].0) by {
                assert(ns[j] == r[j - 1]);
                if i > 0 {
                    assert(ns[i] == r[i - 1]);
                }
            }
        }
    }
}

/// Removing a key a second time changes nothing.
pub proof fn law_obj_remove_idempotent(es: Members, k: Seq<char>)
    ensures
        obj_remove(obj_remove(es, k), k) == obj_remove(es, k),
    decreases es.len(),
{
    if es.len() > 0 {
        law_obj_remove_idempotent(es.drop_first(), k);
        if es[0].0 != k {
            let r = obj_remove(es.drop_first(), k);
            let ns = seq![es[0]] + r;
            assert(ns[0] == es[0]);
            assert(ns.drop_first() =~= r);
        }
    }
}

// ----- lookup after update -----

proof fn lemma_get_first(es: Members, k: Seq<char>, i: int)
    requires
        0 <= i < es.len(),
        es[i].0 == k,
        forall|j: int| 0 <= j < i ==> es[j].0 != k,
    ensures
        obj_get(es, k) == Some(es[i].1),
    decreases i,
{
    if i > 0 {
        assert forall|j: int| 0 <= j < i - 1 implies es.drop_first()[j].0 != k by {
            assert(es.drop_first()[j] == es[j + 1]);
        }
        lemma_get_first(es.drop_first(), k, i - 1);
    }
}

proof fn lemma_get_none(es: Members, k: Seq<char>)
    requires
        forall|j: int| 0 <= j < es.len() ==> es[j].0 != k,
    ensures
        obj_get(es, k) is None,
    decreases es.len(),
{
    if es.len() > 0 {
        assert forall|j: int| 0 <= j < es.len() - 1 implies es.drop_first()[j].0 != k by {
            assert(es.drop_first()[j] == es[j + 1]);
        }
        lemma_get_none(es.drop_first(), k);
    }
}

/// The index of the first member with key `k`, when there is one.
pub open spec fn first_index(es: Members, k: Seq<char>) -> int
    decreases es.len(),
{
    if es.len() == 0 {
        0
    } else if es[0].0 == k {
        0
    } else {
        1 + first_index(es.drop_first(), k)
    }
}

proof fn lemma_first_index(es: Members, k: Seq<char>)
    ensures
        obj_get(es, k) is Some ==> {
            let i = first_index(es, k);
            &&& 0 <= i < es.len()
            &&& es[i].0 == k
            &&& obj_get(es, k) == Some(es[i].1)
            &&& forall|j: int| 0 <= j < i ==> es[j].0 != k
        },
        obj_get(es, k) is None ==> forall|j: int| 0 <= j < es.len() ==> es[j].0 != k,
    decreases es.len(),
{
    if es.len() > 0 {
        lemma_first_index(es.drop_first(), k);
        if es[0].0 != k {
            if obj_get(es, k) is Some {
                let i = first_index(es, k);
                assert forall|j: int| 0 <= j < i implies es[j].0 != k by {
                    if j > 0 {
                        assert(es[j] == es.drop_first()[j - 1]);
                    }
                }
            } else {
                assert forall|j: int| 0 <= j < es.len() implies es[j].0 != k by {
                    if j > 0 {
                        assert(es[j] == es.drop_first()[j - 1]);
                    }
                }
            }
        }
    }
}

proof fn lemma_insert_pos_facts(es: Members, k: Seq<char>)
    ensures
        insert_pos(es, k) <= es.len(),
        forall|j: int| 0 <= j < insert_pos(es, k) ==> key_lt(#[trigger] es[j].0, k),
        insert_pos(es, k) < es.len() ==> !key_lt(es[insert_pos(es, k) as int].0, k),
    decreases es.len(),
{
    if es.len() > 0 && key_lt(es[0].0, k) {
        lemma_insert_pos_facts(es.drop_first(), k);
        let p = insert_pos(es, k) as int;
        assert forall|j: int| 0 <= j < p implies key_lt(#[trigger] es[j].0, k) by {
            if j > 0 {
                assert(es[j] == es.drop_first()[j - 1]);
            }
        }
        if p < es.len() {
            assert(es[p] == es.drop_first()[p - 1]);
        }
    }
}

/// Reading a member after setting one: the member just set, or what was
/// there before for any other key.
pub proof fn law_obj_insert_get(es: Members, k: Seq<char>, v: JsonV, k2: Seq<char>)
    ensures
        obj_get(obj_insert(es, k, v), k2) == (if k2 == k {
            Some(v)
        } else {
            obj_get(es, k2)
        }),
{
    lemma_insert_pos_facts(es, k);
    let p = insert_pos(es, k) as int;
    let ns = obj_insert(es, k, v);
    let replaced = p < es.len() && es[p].0 == k;
    assert forall|j: int| 0 <= j < p implies es[j].0 != k by {
        lemma_key_lt_irreflexive(k);
    }
    if k2 == k {
        assert forall|j: int| 0 <= j < p implies ns[j].0 != k by {
            assert(ns[j] == es[j]);
        }
        lemma_get_first(ns, k, p);
    } else {
        lemma_first_index(es, k2);
        if obj_get(es, k2) is Some {
            let i = first_index(es, k2);
            let i2 = if replaced || i < p {
                i
            } else {
                i + 1
            };
            assert(i != p || !replaced);
            assert(ns[i2] == es[i]);
            assert forall|j: int| 0 <= j < i2 implies ns[j].0 != k2 by {
                if j < p {
                    assert(ns[j] == es[j]);
                } else if j == p {
                } else if replaced {
                    assert(ns[j] == es[j]);
                } else {
                    assert(ns[j] == es[j - 1]);
                }
            }
            lemma_get_first(ns, k2, i2);
        } else {
            assert forall|j: int| 0 <= j < ns.len() implies ns[j].0 != k2 by {
                if j < p {
                    assert(ns[j] == es[j]);
                } else if j == p {
                } else if replaced {
                    assert(ns[j] == es[j]);
                } else {
                    assert(ns[j] == es[j - 1]);
                }
            }
            lemma_get_none(ns, k2);
        }
    }
}

/// Setting a member keeps the members in key order.
pub proof fn law_obj_insert_sorted(es: Members, k: Seq<char>, v: JsonV)
    requires
        keys_sorted(es),
    ensures
        keys_sorted(obj_insert(es, k, v)),
{
    lemma_insert_pos_facts(es, k);
    let p = insert_pos(es, k) as int;
    let ns = obj_insert(es, k, v);
    if p < es.len() && es[p].0 == k {
        assert forall|i: int, j: int| 0 <= i < j < ns.len() implies key_lt(ns[i].0, ns[j].0) by {
            assert(ns[i].0 == es[i].0);
            assert(ns[j].0 == es[j].0);
        }
    } else {
        if p < es.len() {
            lemma_key_lt_total(es[p].0, k);
        }
        assert forall|i: int, j: int| 0 <= i < j < ns.len() implies key_lt(ns[i].0, ns[j].0) by {
            if j < p {
                assert(ns[i] == es[i] && ns[j] == es[j]);
            } else if j == p {
                assert(ns[i] == es[i]);
            } else if i == p {
                assert(ns[j] == es[j - 1]);
                if j - 1 > p {
                    lemma_key_lt_transitive(k, es[p].0, es[j - 1].0);
                }
            } else if i < p {
                assert(ns[i] == es[i] && ns[j] == es[j - 1]);
            } else {
                assert(ns[i] == es[i - 1] && ns[j] == es[j - 1]);
            }
        }
    }
}

/// Removing a member: that key is gone, every other key reads as before,
/// and members in key order stay in key order.
pub proof fn law_obj_remove_get(es: Members, k: Seq<char>, k2: Seq<char>)
    ensures
        obj_get(obj_remove(es, k), k2) == (if k2 == k {
            None
        } else {
            obj_get(es, k2)
        }),
        keys_sorted(es) ==> keys_sorted(obj_remove(es, k)),
    decreases es.len(),
{
    if keys_sorted(es) {
        lemma_obj_remove_sorted(es, k);
    }
    if es.len() > 0 {
        law_obj_remove_get(es.drop_first(), k, k2);
        if es[0].0 != k {
            let r = obj_remove(es.drop_first(), k);
            let ns = seq![es[0]] + r;
            assert(ns[0] == es[0]);
            assert(ns.drop_first() =~= r);
        }
    }
}

/// Reading back a path just written gives the value written.
pub proof fn law_set_path_get_path(v: JsonV, path: Seq<Seq<char>>, x: JsonV)
    ensures
        get_path(set_path(v, path, x), path) == x,
    decreases path.len(),
{
    if path.len() > 0 {
        let child = set_path(jindex(v, path[0]), path.drop_first(), x);
        law_obj_insert_get(members_of(v), path[0], child, path[0]);
        law_set_path_get_path(jindex(v, path[0]), path.drop_first(), x);
    }
}

/// Writing a path leaves every member whose key differs from the path's
/// first key as it was.
pub proof fn law_set_path_other(v: JsonV, path: Seq<Seq<char>>, x: JsonV, k: Seq<char>)
    requires
        path.len() > 0,
        path[0] != k,
        writable(v),
    ensures
        jget(set_path(v, path, x), k) == jget(v, k),
{
    let child = set_path(jindex(v, path[0]), path.drop_first(), x);
    law_obj_insert_get(members_of(v), path[0], child, k);
    if v is Null {
        assert(obj_get(members_of(v), k) is None);
    }
}

/// After writing a path, each value along it is an object, so a longer path
/// through it can be written exactly when the rest can be written into the
/// value written.
pub proof fn lemma_path_writable_after_set(
    v: JsonV,
    path: Seq<Seq<char>>,
    x: JsonV,
    rest: Seq<Seq<char>>,
)
    ensures
        path_writable(set_path(v, path, x), path + rest) == path_writable(x, rest),
        get_path(set_path(v, path, x), path + rest) == get_path(x, rest),
    decreases path.len(),
{
    if path.len() == 0 {
        assert(path + rest =~= rest);
    } else {
        let child = set_path(jindex(v, path[0]), path.drop_first(), x);
        law_obj_insert_get(members_of(v), path[0], child, path[0]);
        assert((path + rest).drop_first() =~= path.drop_first() + rest);
        assert((path + rest)[0] == path[0]);
        lemma_path_writable_after_set(jindex(v, path[0]), path.drop_first(), x, rest);
    }
}

impl Json {
    /// The value at a path of keys from position `i` on (a copy), or `null`.
    pub fn lookup_path(&self, path: &Vec<String>, i: usize) -> (r: Json)
        requires
            i <= path@.len(),
        ensures
            r@ == get_path(self@, path_keys(path@).skip(i as int)),
        decreases path@.len() - i,
    {
        let ghost keys = path_keys(path@).skip(i as int);
        if i >= path.len() {
            return self.deep_clone();
        }
        assert(keys[0] == path@[i as int]@);
        assert(keys.drop_first() =~= path_keys(path@).skip(i + 1));
        match self.get(path[i].as_str()) {
            Some(c) => c.lookup_path(path, i + 1),
            None => {
                let n = Json::Null;
                n.lookup_path(path, i + 1)
            },
        }
    }

    /// Whether `value[k0]..[kn] = x` may be performed for the keys of `path`
    /// from position `i` on.
    pub fn path_is_writable(&self, path: &Vec<String>, i: usize) -> (r: bool)
        requires
            i <= path@.len(),
        ensures
            r == path_writable(self@, path_keys(path@).skip(i as int)),
        decreases path@.len() - i,
    {
        let ghost keys = path_keys(path@).skip(i as int);
        if i >= path.len() {
            return true;
        }
        assert(keys[0] == path@[i as int]@);
        assert(keys.drop_first() =~= path_keys(path@).skip(i + 1));
        if !self.is_writable() {
            return false;
        }
        match self.get(path[i].as_str()) {
            Some(c) => c.path_is_writable(path, i + 1),
            None => {
                let n = Json::Null;
                n.path_is_writable(path, i + 1)
            },
        }
    }
}


pub proof fn lemma_object_view_pub(es: Vec<(String, Json)>)
    ensures
        Json::Object(es)@ == JsonV::Object(members_view(es@)),
{
    lemma_object_view(es);
}

pub proof fn lemma_array_view_pub(xs: Vec<Json>)
    ensures
        Json::Array(xs)@ == JsonV::Array(Seq::new(xs@.len(), |i: int| xs@[i]@)),
{
    lemma_array_view(xs);
}

/// A copy of a member list.
pub fn clone_members(es: &Vec<(String, Json)>) -> (r: Vec<(String, Json)>)
    ensures
        members_view(r@) == members_view(es@),
{
    let mut out: Vec<(String, Json)> = Vec::new();
    let n = es.len();
    let mut i: usize = 0;
    while i < n
        invariant
            n == es@.len(),
            i <= n,
            out@.len() == i,
            forall|j: int| 0 <= j < i ==> out@[j].0@ == es@[j].0@ && out@[j].1@ == es@[j].1@,
        decreases n - i,
    {
        out.push((es[i].0.clone(), es[i].1.deep_clone()));
        i = i + 1;
    }
    assert(members_view(out@) =~= members_view(es@));
    out
}

} // verus!

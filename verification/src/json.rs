//! JSON values: the library's own tree, read and built by plain calls, and
//! its way to and from text, which `serde_json` provides.

use vstd::prelude::*;
use crate::num::int_text;
use crate::text::{lemma_trim_around, owned, same, trimmed, white};

verus! {

// ---------------------------------------------------------------------------
// The mathematical value
// ---------------------------------------------------------------------------

/// What a JSON value is. An object is a map: its keys have no order.
pub enum Doc {
    Null,
    Bool(bool),
    Int(int),
    Real(serde_json::Number),
    Str(Seq<char>),
    Arr(Seq<Doc>),
    Obj(Map<Seq<char>, Doc>),
}

impl Doc {
    /// An object that has the key.
    pub open spec fn has(self, key: Seq<char>) -> bool {
        self matches Doc::Obj(m) && m.contains_key(key)
    }

    /// The value under a key; `Null` where there is none.
    pub open spec fn at(self, key: Seq<char>) -> Doc {
        match self {
            Doc::Obj(m) => if m.contains_key(key) {
                m[key]
            } else {
                Doc::Null
            },
            _ => Doc::Null,
        }
    }

    /// The object with the key set; a value that is no object becomes one.
    pub open spec fn with(self, key: Seq<char>, v: Doc) -> Doc {
        match self {
            Doc::Obj(m) => Doc::Obj(m.insert(key, v)),
            _ => Doc::Obj(Map::empty().insert(key, v)),
        }
    }

    pub open spec fn text(self) -> Option<Seq<char>> {
        match self {
            Doc::Str(s) => Some(s),
            _ => None,
        }
    }

    pub open spec fn text_or(self, default: Seq<char>) -> Seq<char> {
        match self {
            Doc::Str(s) => s,
            _ => default,
        }
    }

    /// The 64-bit signed integer that the value is.
    pub open spec fn int64(self) -> Option<int> {
        match self {
            Doc::Int(n) => if i64::MIN <= n <= i64::MAX {
                Some(n)
            } else {
                None
            },
            _ => None,
        }
    }

    pub open spec fn int_or(self, default: int) -> int {
        match self.int64() {
            Some(n) => n,
            None => default,
        }
    }

    /// The 64-bit natural number that the value is, or zero.
    pub open spec fn nat_or_zero(self) -> int {
        match self {
            Doc::Int(n) => if 0 <= n <= u64::MAX {
                n
            } else {
                0
            },
            _ => 0,
        }
    }

    pub open spec fn boolean(self) -> Option<bool> {
        match self {
            Doc::Bool(b) => Some(b),
            _ => None,
        }
    }

    pub open spec fn bool_or(self, default: bool) -> bool {
        match self {
            Doc::Bool(b) => b,
            _ => default,
        }
    }

    /// The elements of an array; none where the value is no array.
    pub open spec fn items(self) -> Seq<Doc> {
        match self {
            Doc::Arr(a) => a,
            _ => Seq::empty(),
        }
    }

    /// Built of whole numbers, strings, booleans and nulls, in at most
    /// `levels` levels of arrays and objects.
    pub open spec fn within(self, levels: nat) -> bool
        decreases levels,
    {
        match self {
            Doc::Real(_) => false,
            Doc::Int(n) => i64::MIN <= n <= u64::MAX,
            Doc::Arr(a) => levels > 0 && forall|i: int|
                0 <= i < a.len() ==> (#[trigger] a[i]).within((levels - 1) as nat),
            Doc::Obj(m) => levels > 0 && m.dom().finite() && forall|k: Seq<char>|
                m.contains_key(k) ==> (#[trigger] m[k]).within((levels - 1) as nat),
            _ => true,
        }
    }
}

/// An object without keys.
pub open spec fn no_keys() -> Doc {
    Doc::Obj(Map::empty())
}

// ---------------------------------------------------------------------------
// The outside types
// ---------------------------------------------------------------------------

/// `serde_json::Number`.
#[verifier::external_type_specification]
#[verifier::external_body]
pub struct ExNumber(serde_json::Number);

/// `serde_json::Value`.
#[verifier::external_type_specification]
#[verifier::external_body]
pub struct ExValue(serde_json::Value);

/// The whole number that a `serde_json::Number` holds; `None` for one that
/// holds a floating-point number.
pub uninterp spec fn whole(n: serde_json::Number) -> Option<int>;

/// The tree that a `serde_json::Value` holds.
pub uninterp spec fn value_doc(v: serde_json::Value) -> Doc;

pub open spec fn number_doc(n: serde_json::Number) -> Doc {
    match whole(n) {
        Some(k) => Doc::Int(k),
        None => Doc::Real(n),
    }
}

/// `serde_json::Number::as_i64`: the whole number that is held, where it lies
/// in the range of `i64`.
#[verifier::external_body]
fn number_i64(n: &serde_json::Number) -> (r: Option<i64>)
    ensures
        match r {
            Some(k) => whole(*n) == Some(k as int),
            None => whole(*n) matches Some(k) ==> !(i64::MIN <= k <= i64::MAX),
        },
{
    n.as_i64()
}

/// `serde_json::Number::as_u64`: the whole number that is held, where it lies
/// in the range of `u64`.
#[verifier::external_body]
fn number_u64(n: &serde_json::Number) -> (r: Option<u64>)
    ensures
        match r {
            Some(k) => whole(*n) == Some(k as int),
            None => whole(*n) matches Some(k) ==> !(0 <= k <= u64::MAX),
        },
{
    n.as_u64()
}

/// `serde_json::Number::from` an `i64`: the number that holds it.
#[verifier::external_body]
fn number_of_int(k: i64) -> (n: serde_json::Number)
    ensures
        whole(n) == Some(k as int),
{
    serde_json::Number::from(k)
}

/// `serde_json::Number::from` a `u64`: the number that holds it.
#[verifier::external_body]
fn number_of_nat(k: u64) -> (n: serde_json::Number)
    ensures
        whole(n) == Some(k as int),
{
    serde_json::Number::from(k)
}

/// `<serde_json::Number as Clone>::clone`: the same number.
#[verifier::external_body]
fn number_copy(n: &serde_json::Number) -> (r: serde_json::Number)
    ensures
        r == *n,
{
    n.clone()
}

/// One level of a JSON tree whose children are values of type `V`.
enum Node<V> {
    Null,
    Bool(bool),
    Num(serde_json::Number),
    Str(String),
    Array(Vec<V>),
    Object(Vec<(String, V)>),
}

spec fn value_entries(v: Seq<(String, serde_json::Value)>) -> Map<Seq<char>, Doc>
    decreases v.len(),
{
    if v.len() == 0 {
        Map::empty()
    } else {
        value_entries(v.drop_last()).insert(v.last().0@, value_doc(v.last().1))
    }
}

spec fn open_entries(v: Seq<(String, &serde_json::Value)>) -> Map<Seq<char>, Doc>
    decreases v.len(),
{
    if v.len() == 0 {
        Map::empty()
    } else {
        open_entries(v.drop_last()).insert(v.last().0@, value_doc(*v.last().1))
    }
}

spec fn shut_doc(n: Node<serde_json::Value>) -> Doc {
    match n {
        Node::Null => Doc::Null,
        Node::Bool(b) => Doc::Bool(b),
        Node::Num(k) => number_doc(k),
        Node::Str(s) => Doc::Str(s@),
        Node::Array(a) => Doc::Arr(Seq::new(a@.len(), |i: int| value_doc(a@[i]))),
        Node::Object(es) => Doc::Obj(value_entries(es@)),
    }
}

spec fn open_doc(n: Node<&serde_json::Value>) -> Doc {
    match n {
        Node::Null => Doc::Null,
        Node::Bool(b) => Doc::Bool(b),
        Node::Num(k) => number_doc(k),
        Node::Str(s) => Doc::Str(s@),
        Node::Array(a) => Doc::Arr(Seq::new(a@.len(), |i: int| value_doc(*a@[i]))),
        Node::Object(es) => Doc::Obj(open_entries(es@)),
    }
}

/// The variant of a `serde_json::Value` and what it holds; the entries of an
/// object come from its map, so no key comes twice.
#[verifier::external_body]
fn open_value<'a>(v: &'a serde_json::Value) -> (n: Node<&'a serde_json::Value>)
    ensures
        open_doc(n) == value_doc(*v),
        n matches Node::Object(es) ==> forall|i: int, j: int|
            0 <= i < j < es.len() ==> (#[trigger] es@[i]).0@ != (#[trigger] es@[j]).0@,
{
    match v {
        serde_json::Value::Null => Node::Null,
        serde_json::Value::Bool(b) => Node::Bool(*b),
        serde_json::Value::Number(n) => Node::Num(n.clone()),
        serde_json::Value::String(s) => Node::Str(s.clone()),
        serde_json::Value::Array(a) => Node::Array(a.iter().collect()),
        serde_json::Value::Object(m) => Node::Object(m.iter().map(|e| (e.0.clone(), e.1)).collect()),
    }
}

/// The `serde_json::Value` of one variant; an object takes its entries in
/// order, so the last of those with one key stays.
#[verifier::external_body]
fn shut_value(n: Node<serde_json::Value>) -> (v: serde_json::Value)
    ensures
        value_doc(v) == shut_doc(n),
{
    match n {
        Node::Null => serde_json::Value::Null,
        Node::Bool(b) => serde_json::Value::Bool(b),
        Node::Num(k) => serde_json::Value::Number(k),
        Node::Str(s) => serde_json::Value::String(s),
        Node::Array(a) => serde_json::Value::Array(a),
        Node::Object(es) => serde_json::Value::Object(es.into_iter().collect()),
    }
}

/// What `serde_json::from_str` reads from a text: a value, or `None` where
/// the text is not JSON.
pub uninterp spec fn parsed(text: Seq<char>) -> Option<Doc>;

/// What `serde_json::from_slice` reads from bytes: a value, or `None` where
/// the bytes are not JSON.
pub uninterp spec fn parsed_bytes(bytes: Seq<u8>) -> Option<Doc>;

/// The compact text that `serde_json` writes for a value.
pub uninterp spec fn json_text(d: Doc) -> Seq<char>;

/// The indented text that `serde_json::to_string_pretty` writes for a value.
pub uninterp spec fn json_pretty(d: Doc) -> Seq<char>;

pub open spec fn opt_doc(v: Option<serde_json::Value>) -> Option<Doc> {
    match v {
        Some(v) => Some(value_doc(v)),
        None => None,
    }
}

/// Where `text` is the compact text of a value of whole numbers of at most
/// 127 levels, `r` is that value.
pub open spec fn reads_back(text: Seq<char>, r: Option<Doc>) -> bool {
    forall|d: Doc| text == #[trigger] json_text(d) && d.within(127) ==> r == Some(d)
}

/// Where `bytes` are those of the compact text of a value of whole numbers of
/// at most 127 levels, `r` is that value.
pub open spec fn bytes_read_back(bytes: Seq<u8>, r: Option<Doc>) -> bool {
    forall|d: Doc|
        bytes == vstd::utf8::encode_utf8(#[trigger] json_text(d)) && d.within(127) ==> r == Some(d)
}

/// A text that stands on one line, without white space around it.
pub open spec fn one_line(s: Seq<char>) -> bool {
    &&& s.len() > 0
    &&& !white(s[0])
    &&& !white(s.last())
    &&& !s.contains('\n')
}

/// A text on one line, and the line feed that ends it.
pub open spec fn is_line(s: Seq<char>) -> bool {
    s.len() > 0 && s.last() == '\n' && one_line(s.drop_last())
}

/// `serde_json::from_str` into a `Value`. A text that `serde_json` wrote for a
/// value of whole numbers, nested less deep than the parser's limit of 128,
/// reads back as that value.
#[verifier::external_body]
fn value_from_str(text: &str) -> (r: Option<serde_json::Value>)
    ensures
        opt_doc(r) == parsed(text@),
        reads_back(text@, opt_doc(r)),
{
    serde_json::from_str(text).ok()
}

/// `serde_json::from_slice` into a `Value`. The UTF-8 bytes of a text that
/// `serde_json` wrote for a value of whole numbers, nested less deep than the
/// parser's limit of 128, read back as that value.
#[verifier::external_body]
fn value_from_slice(bytes: &[u8]) -> (r: Option<serde_json::Value>)
    ensures
        opt_doc(r) == parsed_bytes(bytes@),
        bytes_read_back(bytes@, opt_doc(r)),
{
    serde_json::from_slice(bytes).ok()
}

/// `serde_json::to_string` of a `Value`, which cannot fail: every key is a
/// string. A whole number is written as its decimal digits. The text is never
/// empty, begins and ends with a character of the value, and holds no line
/// feed: one inside of a string is written as an escape.
#[verifier::external_body]
fn value_to_string(v: &serde_json::Value) -> (r: String)
    ensures
        r@ == json_text(value_doc(*v)),
        value_doc(*v) matches Doc::Int(n) ==> r@ == int_text(n),
        one_line(r@),
{
    serde_json::to_string(v).unwrap()
}

/// `serde_json::to_vec` of a `Value`: the UTF-8 bytes of its compact text.
#[verifier::external_body]
fn value_to_vec(v: &serde_json::Value) -> (r: Vec<u8>)
    ensures
        r@ == vstd::utf8::encode_utf8(json_text(value_doc(*v))),
{
    serde_json::to_vec(v).unwrap()
}

/// `serde_json::to_string_pretty` of a `Value`, which cannot fail.
#[verifier::external_body]
fn value_to_pretty(v: &serde_json::Value) -> (r: String)
    ensures
        r@ == json_pretty(value_doc(*v)),
{
    serde_json::to_string_pretty(v).unwrap()
}

// ---------------------------------------------------------------------------
// The library's tree
// ---------------------------------------------------------------------------

/// A JSON value. Of the entries of an object with one key, the last counts.
pub enum Json {
    Null,
    Bool(bool),
    Num(serde_json::Number),
    Str(String),
    Array(Vec<Json>),
    Object(Vec<(String, Json)>),
}

pub open spec fn doc_of(j: Json) -> Doc
    decreases j,
{
    match j {
        Json::Null => Doc::Null,
        Json::Bool(b) => Doc::Bool(b),
        Json::Num(n) => number_doc(n),
        Json::Str(s) => Doc::Str(s@),
        Json::Array(v) => Doc::Arr(
            Seq::new(
                v@.len(),
                |i: int|
                    if 0 <= i < v@.len() {
                        doc_of(v@[i])
                    } else {
                        Doc::Null
                    },
            ),
        ),
        Json::Object(es) => Doc::Obj(entries(es@)),
    }
}

pub open spec fn entries(v: Seq<(String, Json)>) -> Map<Seq<char>, Doc>
    decreases v,
{
    if v.len() == 0 {
        Map::empty()
    } else {
        entries(v.drop_last()).insert(v.last().0@, doc_of(v.last().1))
    }
}

impl View for Json {
    type V = Doc;

    open spec fn view(&self) -> Doc {
        doc_of(*self)
    }
}

/// The value that an optional JSON value holds.
pub open spec fn opt_view(v: Option<Json>) -> Option<Doc> {
    match v {
        Some(j) => Some(j@),
        None => None,
    }
}

/// The values that a list of JSON values holds.
pub open spec fn docs(v: Seq<Json>) -> Seq<Doc> {
    Seq::new(v.len(), |i: int| v[i]@)
}

/// Strings as JSON values.
pub open spec fn str_docs(v: Seq<Seq<char>>) -> Seq<Doc> {
    v.map_values(|s: Seq<char>| Doc::Str(s))
}

/// The strings among JSON values.
pub open spec fn texts_in(v: Seq<Doc>) -> Seq<Seq<char>>
    decreases v.len(),
{
    if v.len() == 0 {
        Seq::empty()
    } else {
        match v.last() {
            Doc::Str(s) => texts_in(v.drop_last()).push(s),
            _ => texts_in(v.drop_last()),
        }
    }
}

pub fn null_ref() -> (r: &'static Json)
    ensures
        r@ == Doc::Null,
{
    &Json::Null
}

impl Json {
    // -- reading ------------------------------------------------------------

    /// The value under a key of an object.
    pub fn get(&self, key: &str) -> (r: Option<&Json>)
        ensures
            match r {
                Some(j) => self@.has(key@) && j@ == self@.at(key@),
                None => !self@.has(key@),
            },
    {
        match self {
            Json::Object(es) => {
                let mut i: usize = es.len();
                proof {
                    reveal_with_fuel(doc_of, 2);
                    reveal_with_fuel(entries, 2);
                }
                assert(es@.take(es@.len() as int) =~= es@);
                while i > 0
                    invariant
                        i <= es.len(),
                        self@ == Doc::Obj(entries(es@)),
                        entries(es@).contains_key(key@) == entries(
                            es@.take(i as int),
                        ).contains_key(key@),
                        entries(es@).contains_key(key@) ==> entries(es@)[key@] == entries(
                            es@.take(i as int),
                        )[key@],
                    decreases i,
                {
                    proof {
                        reveal_with_fuel(doc_of, 2);
                        reveal_with_fuel(entries, 2);
                    }
                    assert(es@.take(i as int).drop_last() =~= es@.take(i - 1));
                    if same(es[i - 1].0.as_str(), key) {
                        return Some(&es[i - 1].1);
                    }
                    i -= 1;
                }
                None
            },
            _ => None,
        }
    }

    /// The value under a key of an object; null where there is none.
    pub fn at(&self, key: &str) -> (r: &Json)
        ensures
            r@ == self@.at(key@),
    {
        match self.get(key) {
            Some(j) => j,
            None => null_ref(),
        }
    }

    pub fn as_str(&self) -> (r: Option<&str>)
        ensures
            match r {
                Some(s) => self@.text() == Some(s@),
                None => self@.text() is None,
            },
    {
        match self {
            Json::Str(s) => Some(s.as_str()),
            _ => None,
        }
    }

    /// The string that the value is, or the default.
    pub fn str_or(&self, default: &str) -> (r: String)
        ensures
            r@ == self@.text_or(default@),
    {
        match self {
            Json::Str(s) => owned(s.as_str()),
            _ => owned(default),
        }
    }

    pub fn as_i64(&self) -> (r: Option<i64>)
        ensures
            match r {
                Some(n) => self@.int64() == Some(n as int),
                None => self@.int64() is None,
            },
    {
        match self {
            Json::Num(n) => number_i64(n),
            _ => None,
        }
    }

    pub fn int_or(&self, default: i64) -> (r: i64)
        ensures
            r == self@.int_or(default as int),
    {
        match self.as_i64() {
            Some(n) => n,
            None => default,
        }
    }

    /// The natural number that the value is, or zero.
    pub fn nat_or_zero(&self) -> (r: u64)
        ensures
            r == self@.nat_or_zero(),
    {
        match self {
            Json::Num(n) => match number_u64(n) {
                Some(k) => k,
                None => 0,
            },
            _ => 0,
        }
    }

    pub fn as_bool(&self) -> (r: Option<bool>)
        ensures
            r == self@.boolean(),
    {
        match self {
            Json::Bool(b) => Some(*b),
            _ => None,
        }
    }

    pub fn bool_or(&self, default: bool) -> (r: bool)
        ensures
            r == self@.bool_or(default),
    {
        match self {
            Json::Bool(b) => *b,
            _ => default,
        }
    }

    pub fn as_array(&self) -> (r: Option<&Vec<Json>>)
        ensures
            match r {
                Some(v) => self@ == Doc::Arr(docs(v@)) && self@.items() == docs(v@),
                None => !(self@ is Arr) && self@.items() == Seq::<Doc>::empty(),
            },
    {
        match self {
            Json::Array(v) => {
                assert(self@->Arr_0 =~= docs(v@));
                Some(v)
            },
            _ => None,
        }
    }

    pub fn is_null(&self) -> (r: bool)
        ensures
            r == (self@ is Null),
    {
        match self {
            Json::Null => true,
            _ => false,
        }
    }

    pub fn is_object(&self) -> (r: bool)
        ensures
            r == (self@ is Obj),
    {
        match self {
            Json::Object(_) => true,
            _ => false,
        }
    }

    // -- building -----------------------------------------------------------

    /// An object without keys.
    pub fn obj() -> (r: Json)
        ensures
            r@ == no_keys(),
    {
        let es: Vec<(String, Json)> = Vec::new();
        proof {
            reveal_with_fuel(entries, 2);
            reveal_with_fuel(doc_of, 2);
        }
        assert(entries(es@) == Map::<Seq<char>, Doc>::empty());
        assert(doc_of(Json::Object(es)) == Doc::Obj(entries(es@)));
        Json::Object(es)
    }

    /// The object with the key set.
    pub fn with(self, key: &str, v: Json) -> (r: Json)
        ensures
            r@ == self@.with(key@, v@),
    {
        let mut es: Vec<(String, Json)> = match self {
            Json::Object(es) => es,
            _ => Vec::new(),
        };
        let ghost before = es@;
        proof {
            reveal_with_fuel(doc_of, 2);
            reveal_with_fuel(entries, 2);
        }
        assert(Doc::Obj(entries(before)).with(key@, v@) == self@.with(key@, v@));
        es.push((owned(key), v));
        assert(es@.drop_last() =~= before);
        assert(entries(es@) == entries(before).insert(key@, v@));
        assert(doc_of(Json::Object(es)) == Doc::Obj(entries(es@)));
        Json::Object(es)
    }

    pub fn text(s: &str) -> (r: Json)
        ensures
            r@ == Doc::Str(s@),
    {
        Json::Str(owned(s))
    }

    pub fn number(n: i64) -> (r: Json)
        ensures
            r@ == Doc::Int(n as int),
    {
        Json::Num(number_of_int(n))
    }

    pub fn count(n: usize) -> (r: Json)
        ensures
            r@ == Doc::Int(n as int),
    {
        Json::Num(number_of_nat(n as u64))
    }

    pub fn boolean(b: bool) -> (r: Json)
        ensures
            r@ == Doc::Bool(b),
    {
        Json::Bool(b)
    }

    pub fn list(v: Vec<Json>) -> (r: Json)
        ensures
            r@ == Doc::Arr(docs(v@)),
    {
        let r = Json::Array(v);
        assert(r@->Arr_0 =~= docs(v@));
        r
    }

    /// An array of strings.
    pub fn strings(v: &Vec<String>) -> (r: Json)
        ensures
            r@ == Doc::Arr(str_docs(crate::text::views(v@))),
    {
        Json::list(text_list(v))
    }

    /// A copy of the value.
    pub fn copy(&self) -> (r: Json)
        ensures
            r@ == self@,
        decreases self,
    {
        match self {
            Json::Null => Json::Null,
            Json::Bool(b) => Json::Bool(*b),
            Json::Num(n) => Json::Num(number_copy(n)),
            Json::Str(s) => Json::Str(owned(s.as_str())),
            Json::Array(v) => {
                let mut a: Vec<Json> = Vec::new();
                let mut i: usize = 0;
                while i < v.len()
                    invariant
                        *self == Json::Array(*v),
                        i <= v.len(),
                        a.len() == i,
                        forall|k: int| 0 <= k < i ==> (#[trigger] a@[k])@ == v@[k]@,
                    decreases v.len() - i,
                {
                    proof {
                        assert(decreases_to!(*self => self->Array_0));
                        assert(decreases_to!(v => v@));
                        assert(decreases_to!(v@ => v@[i as int]));
                    }
                    a.push(v[i].copy());
                    i += 1;
                }
                assert(doc_of(Json::Array(a))->Arr_0 =~= self@->Arr_0);
                Json::Array(a)
            },
            Json::Object(es) => {
                let mut a: Vec<(String, Json)> = Vec::new();
                let mut i: usize = 0;
                assert(es@.take(0) =~= Seq::empty());
                while i < es.len()
                    invariant
                        *self == Json::Object(*es),
                        i <= es.len(),
                        entries(a@) == entries(es@.take(i as int)),
                    decreases es.len() - i,
                {
                    proof {
                        assert(decreases_to!(*self => self->Object_0));
                        assert(decreases_to!(es => es@));
                        assert(decreases_to!(es@ => es@[i as int]));
                        assert(decreases_to!(es@[i as int] => es@[i as int].1));
                    }
                    let ghost before = a@;
                    a.push((owned(es[i].0.as_str()), es[i].1.copy()));
                    assert(a@.drop_last() =~= before);
                    assert(es@.take(i + 1).drop_last() =~= es@.take(i as int));
                    i += 1;
                }
                assert(es@.take(es@.len() as int) =~= es@);
                Json::Object(a)
            },
        }
    }

    // -- text ---------------------------------------------------------------

    fn to_value(&self) -> (r: serde_json::Value)
        ensures
            value_doc(r) == self@,
        decreases self,
    {
        match self {
            Json::Null => shut_value(Node::Null),
            Json::Bool(b) => shut_value(Node::Bool(*b)),
            Json::Num(n) => shut_value(Node::Num(number_copy(n))),
            Json::Str(s) => shut_value(Node::Str(owned(s.as_str()))),
            Json::Array(v) => {
                let mut a: Vec<serde_json::Value> = Vec::new();
                let mut i: usize = 0;
                while i < v.len()
                    invariant
                        *self == Json::Array(*v),
                        i <= v.len(),
                        a.len() == i,
                        forall|k: int| 0 <= k < i ==> value_doc(#[trigger] a@[k]) == v@[k]@,
                    decreases v.len() - i,
                {
                    proof {
                        assert(decreases_to!(*self => self->Array_0));
                        assert(decreases_to!(v => v@));
                        assert(decreases_to!(v@ => v@[i as int]));
                    }
                    a.push(v[i].to_value());
                    i += 1;
                }
                assert(shut_doc(Node::Array(a))->Arr_0 =~= self@->Arr_0);
                shut_value(Node::Array(a))
            },
            Json::Object(es) => {
                let mut a: Vec<(String, serde_json::Value)> = Vec::new();
                let mut i: usize = 0;
                assert(es@.take(0) =~= Seq::empty());
                while i < es.len()
                    invariant
                        *self == Json::Object(*es),
                        i <= es.len(),
                        value_entries(a@) == entries(es@.take(i as int)),
                    decreases es.len() - i,
                {
                    proof {
                        assert(decreases_to!(*self => self->Object_0));
                        assert(decreases_to!(es => es@));
                        assert(decreases_to!(es@ => es@[i as int]));
                        assert(decreases_to!(es@[i as int] => es@[i as int].1));
                    }
                    let ghost before = a@;
                    a.push((owned(es[i].0.as_str()), es[i].1.to_value()));
                    assert(a@.drop_last() =~= before);
                    assert(es@.take(i + 1).drop_last() =~= es@.take(i as int));
                    i += 1;
                }
                assert(es@.take(es@.len() as int) =~= es@);
                shut_value(Node::Object(a))
            },
        }
    }

    fn from_value(v: &serde_json::Value) -> (r: Json)
        ensures
            r@ == value_doc(*v),
        decreases value_doc(*v),
    {
        match open_value(v) {
            Node::Null => Json::Null,
            Node::Bool(b) => Json::Bool(b),
            Node::Num(n) => Json::Num(n),
            Node::Str(s) => Json::Str(s),
            Node::Array(vs) => {
                let mut a: Vec<Json> = Vec::new();
                let mut i: usize = 0;
                while i < vs.len()
                    invariant
                        value_doc(*v) == open_doc(Node::Array(vs)),
                        i <= vs.len(),
                        a.len() == i,
                        forall|k: int| 0 <= k < i ==> (#[trigger] a@[k])@ == value_doc(*vs@[k]),
                    decreases vs.len() - i,
                {
                    proof {
                        let elems = value_doc(*v)->Arr_0;
                        assert(elems[i as int] == value_doc(*vs@[i as int]));
                        assert(decreases_to!(value_doc(*v) => elems));
                        assert(decreases_to!(elems => elems[i as int]));
                    }
                    a.push(Json::from_value(vs[i]));
                    i += 1;
                }
                assert(doc_of(Json::Array(a))->Arr_0 =~= value_doc(*v)->Arr_0);
                Json::Array(a)
            },
            Node::Object(es) => {
                let mut a: Vec<(String, Json)> = Vec::new();
                let mut i: usize = 0;
                assert(es@.take(0) =~= Seq::empty());
                while i < es.len()
                    invariant
                        value_doc(*v) == open_doc(Node::Object(es)),
                        forall|i: int, j: int|
                            0 <= i < j < es.len() ==> (#[trigger] es@[i]).0@ != (
                            #[trigger] es@[j]).0@,
                        i <= es.len(),
                        entries(a@) == open_entries(es@.take(i as int)),
                    decreases es.len() - i,
                {
                    proof {
                        let m = value_doc(*v)->Obj_0;
                        lemma_open_entries(es@, i as int);
                        assert(decreases_to!(value_doc(*v) => m));
                        assert(decreases_to!(m => m[es@[i as int].0@]));
                    }
                    let ghost before = a@;
                    a.push((owned(es[i].0.as_str()), Json::from_value(es[i].1)));
                    assert(a@.drop_last() =~= before);
                    assert(es@.take(i + 1).drop_last() =~= es@.take(i as int));
                    i += 1;
                }
                assert(es@.take(es@.len() as int) =~= es@);
                Json::Object(a)
            },
        }
    }

    /// Reads a JSON text. What [`Json::render`] wrote reads back as it was,
    /// for a value of whole numbers of at most 127 levels.
    pub fn parse(text: &str) -> (r: Option<Json>)
        ensures
            opt_view(r) == parsed(text@),
            reads_back(text@, opt_view(r)),
    {
        match value_from_str(text) {
            Some(v) => Some(Json::from_value(&v)),
            None => None,
        }
    }

    /// Reads JSON from bytes. What [`Json::render_bytes`] wrote reads back as
    /// it was, for a value of whole numbers of at most 127 levels.
    pub fn parse_bytes(bytes: &[u8]) -> (r: Option<Json>)
        ensures
            opt_view(r) == parsed_bytes(bytes@),
            bytes_read_back(bytes@, opt_view(r)),
    {
        match value_from_slice(bytes) {
            Some(v) => Some(Json::from_value(&v)),
            None => None,
        }
    }

    /// The compact text of the value, on one line.
    pub fn render(&self) -> (r: String)
        ensures
            r@ == json_text(self@),
            self@ matches Doc::Int(n) ==> r@ == int_text(n),
            one_line(r@),
    {
        value_to_string(&self.to_value())
    }

    /// The compact text of the value, as a line.
    pub fn render_line(&self) -> (r: String)
        ensures
            r@ == json_text(self@) + "\n"@,
            is_line(r@),
    {
        let mut r = self.render();
        let ghost text = r@;
        r.append("\n");
        proof {
            reveal_strlit("\n");
        }
        assert(r@.drop_last() =~= text);
        r
    }

    /// The bytes of the compact text of the value.
    pub fn render_bytes(&self) -> (r: Vec<u8>)
        ensures
            r@ == vstd::utf8::encode_utf8(json_text(self@)),
    {
        value_to_vec(&self.to_value())
    }

    /// The indented text of the value.
    pub fn render_pretty(&self) -> (r: String)
        ensures
            r@ == json_pretty(self@),
    {
        value_to_pretty(&self.to_value())
    }
}

proof fn lemma_open_entries_keys(v: Seq<(String, &serde_json::Value)>)
    ensures
        open_entries(v).dom().finite(),
        forall|k: Seq<char>| #[trigger]
            open_entries(v).contains_key(k) ==> exists|j: int|
                0 <= j < v.len() && (#[trigger] v[j]).0@ == k,
    decreases v.len(),
{
    if v.len() > 0 {
        let u = v.drop_last();
        lemma_open_entries_keys(u);
        assert forall|k: Seq<char>| #[trigger] open_entries(v).contains_key(k) implies exists|
            j: int,
        | 0 <= j < v.len() && (#[trigger] v[j]).0@ == k by {
            if k == v.last().0@ {
                assert(v[v.len() - 1].0@ == k);
            } else {
                assert(open_entries(u).contains_key(k));
                let j = choose|j: int| 0 <= j < u.len() && (#[trigger] u[j]).0@ == k;
                assert(v[j].0@ == k);
            }
        }
    }
}

proof fn lemma_open_entries(v: Seq<(String, &serde_json::Value)>, i: int)
    requires
        0 <= i < v.len(),
        forall|i: int, j: int|
            0 <= i < j < v.len() ==> (#[trigger] v[i]).0@ != (#[trigger] v[j]).0@,
    ensures
        open_entries(v).contains_key(v[i].0@),
        open_entries(v)[v[i].0@] == value_doc(*v[i].1),
        open_entries(v).dom().finite(),
    decreases v.len(),
{
    lemma_open_entries_keys(v);
    if i < v.len() - 1 {
        let u = v.drop_last();
        assert forall|i: int, j: int| 0 <= i < j < u.len() implies (#[trigger] u[i]).0@ != (
        #[trigger] u[j]).0@ by {
            assert(v[i].0@ != v[j].0@);
        }
        lemma_open_entries(u, i);
        assert(v[i].0@ != v[v.len() - 1].0@);
    }
}

/// Strings as JSON values.
pub fn text_list(v: &Vec<String>) -> (r: Vec<Json>)
    ensures
        docs(r@) == str_docs(crate::text::views(v@)),
{
    let mut r: Vec<Json> = Vec::new();
    let mut i: usize = 0;
    while i < v.len()
        invariant
            i <= v.len(),
            r.len() == i,
            forall|k: int| 0 <= k < i ==> (#[trigger] r@[k])@ == Doc::Str(v@[k]@),
        decreases v.len() - i,
    {
        r.push(Json::text(v[i].as_str()));
        i += 1;
    }
    assert(docs(r@) =~= str_docs(crate::text::views(v@)));
    r
}

/// The elements of a JSON array; none of another value.
pub fn items_of(j: &Json) -> (r: Vec<Json>)
    ensures
        docs(r@) == j@.items(),
{
    let mut r: Vec<Json> = Vec::new();
    if let Some(v) = j.as_array() {
        let mut i: usize = 0;
        while i < v.len()
            invariant
                i <= v.len(),
                r.len() == i,
                forall|k: int| 0 <= k < i ==> (#[trigger] r@[k])@ == v@[k]@,
            decreases v.len() - i,
        {
            r.push(v[i].copy());
            i += 1;
        }
        assert(docs(r@) =~= docs(v@));
    } else {
        assert(docs(r@) =~= Seq::empty());
    }
    r
}

/// The strings among the elements of a JSON array.
pub fn strings_in(v: &Vec<Json>) -> (r: Vec<String>)
    ensures
        crate::text::views(r@) == texts_in(docs(v@)),
{
    let mut r: Vec<String> = Vec::new();
    let mut i: usize = 0;
    assert(docs(v@).take(0) =~= Seq::empty());
    assert(crate::text::views(r@) =~= Seq::empty());
    while i < v.len()
        invariant
            i <= v.len(),
            crate::text::views(r@) == texts_in(docs(v@).take(i as int)),
        decreases v.len() - i,
    {
        let ghost before = crate::text::views(r@);
        assert(docs(v@).take(i + 1).drop_last() =~= docs(v@).take(i as int));
        assert(docs(v@).take(i + 1).last() == v@[i as int]@);
        match v[i].as_str() {
            Some(s) => {
                r.push(owned(s));
                assert(crate::text::views(r@) =~= before.push(s@));
            },
            None => {},
        }
        i += 1;
    }
    assert(docs(v@).take(v@.len() as int) =~= docs(v@));
    r
}

/// A value that is written as a line reads back from it: the line holds no
/// other line feed than the one that ends it, and what stands before that is
/// the value's text, for every value of whole numbers of at most 127 levels.
pub proof fn lines_read_back(d: Doc, line: Seq<char>, r: Option<Doc>)
    requires
        d.within(127),
        line == json_text(d) + "\n"@,
        is_line(line),
        reads_back(trimmed(line), r),
    ensures
        !json_text(d).contains('\n'),
        trimmed(line) == json_text(d),
        r == Some(d),
{
    let text = json_text(d);
    reveal_strlit("\n");
    assert(line.drop_last() =~= text);
    lemma_trim_around(Seq::empty(), text, "\n"@);
    assert(Seq::<char>::empty() + text + "\n"@ =~= line);
}

/// The texts of a list are its strings, in order; what is no string is passed
/// over.
pub proof fn the_texts_of_a_list_are_its_strings(v: Seq<Doc>, d: Doc)
    ensures
        d matches Doc::Str(s) ==> texts_in(v.push(d)) == texts_in(v).push(s),
        d !is Str ==> texts_in(v.push(d)) == texts_in(v),
        texts_in(Seq::empty()).len() == 0,
{
    assert(v.push(d).drop_last() =~= v);
}

/// What an object holds under a key is what was put there last, and what is
/// under its other keys stays.
pub proof fn objects_hold_what_is_put_in(d: Doc, k: Seq<char>, v: Doc, other: Seq<char>)
    requires
        d is Obj,
    ensures
        d.with(k, v).at(k) == v,
        d.with(k, v).has(k),
        other != k ==> d.with(k, v).at(other) == d.at(other) && d.with(k, v).has(other) == d.has(
            other,
        ),
        no_keys().at(k) is Null,
        !no_keys().has(k),
{
}

/// A list is seen item by item, in its order.
pub proof fn values_are_seen_one_by_one(v: Seq<Json>, i: int)
    ensures
        docs(v).len() == v.len(),
        0 <= i < v.len() ==> docs(v)[i] == v[i]@,
{
}

} // verus!

//! JSON values. Reading and printing JSON text is serde_json's work; what the
//! library decides on is a value of its own, with a mathematical model.
use vstd::prelude::*;
use crate::text;

verus! {

/// A number that is not a whole one of 64 bits, as serde_json holds it. One is
/// made only where such a number is read.
#[derive(Debug, PartialEq, Eq)]
pub struct OtherNumber {
    number: serde_json::Number,
}

/// A JSON value.
#[derive(Debug, PartialEq, Eq)]
pub enum Json {
    Null,
    Bool(bool),
    /// A whole number that fits in 64 bits with a sign.
    Int(i64),
    /// One that fits in 64 bits without a sign.
    Big(u64),
    /// Any other number.
    Real(OtherNumber),
    Str(String),
    Array(Vec<Json>),
    /// The members in order; of two with the same key the later one counts.
    Object(Vec<(String, Json)>),
}

/// The model of a JSON value: an object is the map from its keys.
pub enum JsonModel {
    Null,
    Bool(bool),
    /// A whole number of 64 bits, with or without a sign.
    Int(int),
    Real(OtherNumber),
    Str(Seq<char>),
    Array(Seq<JsonModel>),
    Object(Map<Seq<char>, JsonModel>),
}

// ---------------------------------------------------------------------------
// Trusted: serde_json
// ---------------------------------------------------------------------------

/// serde_json's own value.
#[verifier::external_type_specification]
#[verifier::external_body]
pub struct ExValue(serde_json::Value);

/// serde_json's number.
#[verifier::external_type_specification]
#[verifier::external_body]
pub struct ExNumber(serde_json::Number);

/// What a serde_json value holds.
pub uninterp spec fn value_model(v: serde_json::Value) -> JsonModel;

/// The value that a JSON text denotes, `None` for a text that is no JSON.
pub uninterp spec fn parsed_text(s: Seq<char>) -> Option<JsonModel>;

/// The compact JSON text of a value. serde_json, without its `preserve_order`
/// feature, keeps the members of an object by their keys, so the map alone
/// decides the text.
pub uninterp spec fn compact_text(m: JsonModel) -> Seq<char>;

/// `serde_json::from_str` into a `Value`. Whether it succeeds, and with what
/// value, is a function of the text.
#[verifier::external_body]
fn serde_read(s: &str) -> (r: Option<serde_json::Value>)
    ensures
        match r {
            Some(v) => parsed_text(s@) == Some(value_model(v)),
            None => parsed_text(s@) is None,
        },
{
    serde_json::from_str(s).ok()
}

/// `serde_json::Value::to_string`. The text is a function of the value, holds
/// no line feed, neither begins nor ends with white space, and reads back as
/// the value where that has no `Real` and is nested no deeper than a hundred
/// levels.
#[verifier::external_body]
fn serde_print(v: &serde_json::Value) -> (r: String)
    ensures
        r@ == compact_text(value_model(*v)),
        text::free_of(r@, '\n'),
        r@.len() > 0 && !text::is_space(r@[0]) && !text::is_space(r@.last()),
        shallow(value_model(*v), 100) ==> parsed_text(r@) == Some(value_model(*v)),
{
    v.to_string()
}

/// A serde_json value with its outermost layer told apart.
enum Layer {
    Null,
    Bool(bool),
    Int(i64),
    Big(u64),
    Real(OtherNumber),
    Str(String),
    Array(Vec<serde_json::Value>),
    Object(Vec<(String, serde_json::Value)>),
}

/// What the values of a list hold.
spec fn value_models(a: Seq<serde_json::Value>) -> Seq<JsonModel> {
    a.map_values(|v: serde_json::Value| value_model(v))
}

/// The map that a list of members makes.
spec fn value_members(o: Seq<(String, serde_json::Value)>) -> Map<Seq<char>, JsonModel>
    decreases o.len(),
{
    if o.len() == 0 {
        Map::empty()
    } else {
        value_members(o.drop_last()).insert(o.last().0@, value_model(o.last().1))
    }
}

/// What a value in that form holds.
spec fn layer_model(l: Layer) -> JsonModel {
    match l {
        Layer::Null => JsonModel::Null,
        Layer::Bool(b) => JsonModel::Bool(b),
        Layer::Int(n) => JsonModel::Int(n as int),
        Layer::Big(n) => JsonModel::Int(n as int),
        Layer::Real(n) => JsonModel::Real(n),
        Layer::Str(s) => JsonModel::Str(s@),
        Layer::Array(a) => JsonModel::Array(value_models(a@)),
        Layer::Object(o) => JsonModel::Object(value_members(o@)),
    }
}

/// The variants of `serde_json::Value` told apart, a number by the first of
/// `Number::as_i64` and `Number::as_u64` that gives one. It is the same value,
/// and no two members of an object have the same key.
#[verifier::external_body]
fn open_layer(v: serde_json::Value) -> (r: Layer)
    ensures
        layer_model(r) == value_model(v),
        r matches Layer::Object(o) ==> forall|i: int, k: int|
            0 <= i < k < o@.len() ==> (#[trigger] o@[i]).0@ != (#[trigger] o@[k]).0@,
{
    match v {
        serde_json::Value::Null => Layer::Null,
        serde_json::Value::Bool(b) => Layer::Bool(b),
        serde_json::Value::Number(n) => match (n.as_i64(), n.as_u64()) {
            (Some(i), _) => Layer::Int(i),
            (None, Some(u)) => Layer::Big(u),
            (None, None) => Layer::Real(OtherNumber { number: n }),
        },
        serde_json::Value::String(s) => Layer::Str(s),
        serde_json::Value::Array(a) => Layer::Array(a),
        serde_json::Value::Object(o) => Layer::Object(o.into_iter().collect()),
    }
}

/// The variants of `serde_json::Value` made, whole numbers by `Value::from`, which
/// keeps their value: the same value. `Map::from_iter` puts a later member in place of an earlier one
/// with the same key.
#[verifier::external_body]
fn close_layer(l: Layer) -> (r: serde_json::Value)
    ensures
        value_model(r) == layer_model(l),
{
    match l {
        Layer::Null => serde_json::Value::Null,
        Layer::Bool(b) => serde_json::Value::Bool(b),
        Layer::Int(n) => serde_json::Value::from(n),
        Layer::Big(n) => serde_json::Value::from(n),
        Layer::Real(n) => serde_json::Value::Number(n.number),
        Layer::Str(s) => serde_json::Value::String(s),
        Layer::Array(a) => serde_json::Value::Array(a),
        Layer::Object(o) => serde_json::Value::Object(o.into_iter().collect()),
    }
}

/// `serde_json::Number::clone`: the same number.
#[verifier::external_body]
fn copy_number(n: &OtherNumber) -> (r: OtherNumber)
    ensures
        r == *n,
{
    OtherNumber { number: n.number.clone() }
}

// ---------------------------------------------------------------------------
// The model
// ---------------------------------------------------------------------------

impl Json {
    /// The value.
    pub open spec fn model(self) -> JsonModel
        decreases self,
    {
        match self {
            Json::Null => JsonModel::Null,
            Json::Bool(b) => JsonModel::Bool(b),
            Json::Int(n) => JsonModel::Int(n as int),
            Json::Big(n) => JsonModel::Int(n as int),
            Json::Real(n) => JsonModel::Real(n),
            Json::Str(s) => JsonModel::Str(s@),
            Json::Array(a) => JsonModel::Array(models(a@)),
            Json::Object(o) => JsonModel::Object(members(o@)),
        }
    }
}

/// The values of a list.
pub open spec fn models(a: Seq<Json>) -> Seq<JsonModel>
    decreases a,
{
    if a.len() == 0 {
        Seq::empty()
    } else {
        models(a.drop_last()).push(a.last().model())
    }
}

/// The map that a list of members makes.
pub open spec fn members(o: Seq<(String, Json)>) -> Map<Seq<char>, JsonModel>
    decreases o,
{
    if o.len() == 0 {
        Map::empty()
    } else {
        members(o.drop_last()).insert(o.last().0@, o.last().1.model())
    }
}

/// The value holds no `Real`, and is nested at most `depth` deep.
pub open spec fn shallow(m: JsonModel, depth: nat) -> bool
    decreases depth,
{
    match m {
        JsonModel::Real(_) => false,
        JsonModel::Array(a) => depth > 0 && (forall|i: int|
            0 <= i < a.len() ==> shallow(#[trigger] a[i], (depth - 1) as nat)),
        JsonModel::Object(o) => depth > 0 && (forall|k: Seq<char>| #[trigger]
            o.contains_key(k) ==> shallow(o[k], (depth - 1) as nat)),
        _ => true,
    }
}

/// The member of that name, if the value is an object that has one.
pub open spec fn member(m: JsonModel, key: Seq<char>) -> Option<JsonModel> {
    match m {
        JsonModel::Object(o) => if o.contains_key(key) {
            Some(o[key])
        } else {
            None
        },
        _ => None,
    }
}

/// The whole number, if the value is one that is not negative.
pub open spec fn natural(m: JsonModel) -> Option<int> {
    match m {
        JsonModel::Int(n) => if n >= 0 {
            Some(n)
        } else {
            None
        },
        _ => None,
    }
}

/// The whole number, if the value is one that fits in 64 bits with a sign.
pub open spec fn signed(m: JsonModel) -> Option<int> {
    match m {
        JsonModel::Int(n) => if i64::MIN <= n <= i64::MAX {
            Some(n)
        } else {
            None
        },
        _ => None,
    }
}

/// The text, if the value is one.
pub open spec fn as_text(m: JsonModel) -> Option<Seq<char>> {
    match m {
        JsonModel::Str(s) => Some(s),
        _ => None,
    }
}

/// The member of that name, if it is a text.
pub open spec fn text_member(m: JsonModel, key: Seq<char>) -> Option<Seq<char>> {
    match member(m, key) {
        Some(v) => as_text(v),
        None => None,
    }
}

/// One more shallow member leaves an object shallow.
pub proof fn lemma_shallow_insert(
    o: Map<Seq<char>, JsonModel>,
    key: Seq<char>,
    value: JsonModel,
    depth: nat,
)
    requires
        depth > 0,
        shallow(JsonModel::Object(o), depth),
        shallow(value, (depth - 1) as nat),
    ensures
        shallow(JsonModel::Object(o.insert(key, value)), depth),
{
    let n = o.insert(key, value);
    let m = JsonModel::Object(o);
    assert(m->Object_0 == o);
    assert forall|k: Seq<char>| n.contains_key(k) implies shallow(
        #[trigger] n[k],
        (depth - 1) as nat,
    ) by {
        if k != key {
            assert(o.contains_key(k));
            assert(shallow(o[k], (depth - 1) as nat));
        }
    }
}

/// An object without members is shallow.
pub proof fn lemma_shallow_empty(depth: nat)
    requires
        depth > 0,
    ensures
        shallow(JsonModel::Object(Map::empty()), depth),
{
}

/// A list of one shallow value is shallow.
pub proof fn lemma_shallow_array1(value: JsonModel, depth: nat)
    requires
        depth > 0,
        shallow(value, (depth - 1) as nat),
    ensures
        shallow(JsonModel::Array(seq![value]), depth),
{
}

/// The optional number as an integer.
pub open spec fn opt_int(o: Option<u64>) -> Option<int> {
    match o {
        Some(n) => Some(n as int),
        None => None,
    }
}

/// The optional number with a sign as an integer.
pub open spec fn opt_signed(o: Option<i64>) -> Option<int> {
    match o {
        Some(n) => Some(n as int),
        None => None,
    }
}

/// The optional value's model.
pub open spec fn opt_model(o: Option<Json>) -> Option<JsonModel> {
    match o {
        Some(j) => Some(j.model()),
        None => None,
    }
}

/// The optional borrowed value's model.
pub open spec fn opt_ref_model(o: Option<&Json>) -> Option<JsonModel> {
    match o {
        Some(j) => Some(j.model()),
        None => None,
    }
}

/// One value more in a list is one model more.
pub proof fn lemma_models_push(a: Seq<Json>, j: Json)
    ensures
        models(a.push(j)) == models(a).push(j.model()),
{
    assert(a.push(j).drop_last() =~= a);
}

/// The models of a list, one by one.
pub proof fn lemma_models_index(a: Seq<Json>)
    ensures
        models(a).len() == a.len(),
        forall|i: int| 0 <= i < a.len() ==> #[trigger] models(a)[i] == a[i].model(),
    decreases a.len(),
{
    if a.len() > 0 {
        lemma_models_index(a.drop_last());
        assert forall|i: int| 0 <= i < a.len() implies #[trigger] models(a)[i] == a[i].model() by {
            if i < a.len() - 1 {
                assert(models(a)[i] == models(a.drop_last())[i]);
                assert(a.drop_last()[i] == a[i]);
            }
        }
    }
}

/// One member more in a list is one insertion more.
pub proof fn lemma_members_push(o: Seq<(String, Json)>, p: (String, Json))
    ensures
        members(o.push(p)) == members(o).insert(p.0@, p.1.model()),
{
    assert(o.push(p).drop_last() =~= o);
}

/// The last member with a key is the one that counts.
proof fn lemma_members_last(o: Seq<(String, Json)>, key: Seq<char>, i: int)
    requires
        0 <= i < o.len(),
        o[i].0@ == key,
        forall|k: int| i < k < o.len() ==> (#[trigger] o[k]).0@ != key,
    ensures
        members(o).contains_key(key),
        members(o)[key] == o[i].1.model(),
    decreases o.len(),
{
    if i < o.len() - 1 {
        assert(o[o.len() - 1].0@ != key);
        lemma_members_last(o.drop_last(), key, i);
    }
}

/// No member has the key.
proof fn lemma_members_none(o: Seq<(String, Json)>, key: Seq<char>)
    requires
        forall|k: int| 0 <= k < o.len() ==> (#[trigger] o[k]).0@ != key,
    ensures
        !members(o).contains_key(key),
    decreases o.len(),
{
    if o.len() > 0 {
        assert(o[o.len() - 1].0@ != key);
        lemma_members_none(o.drop_last(), key);
    }
}

// ---------------------------------------------------------------------------
// Reading
// ---------------------------------------------------------------------------

/// The value that a JSON text denotes.
pub fn parse(s: &str) -> (r: Option<Json>)
    ensures
        opt_model(r) == parsed_text(s@),
{
    match serde_read(s) {
        Some(v) => Some(from_serde(v)),
        None => None,
    }
}

/// The compact JSON text of a value, which holds no line feed.
pub fn print(j: &Json) -> (r: String)
    ensures
        r@ == compact_text(j.model()),
        text::free_of(r@, '\n'),
        r@.len() > 0 && !text::is_space(r@[0]) && !text::is_space(r@.last()),
        shallow(j.model(), 100) ==> parsed_text(r@) == Some(j.model()),
{
    let v = to_serde(j);
    serde_print(&v)
}

impl Json {
    /// The member of that name.
    pub fn get(&self, key: &str) -> (r: Option<&Json>)
        ensures
            opt_ref_model(r) == member(self.model(), key@),
    {
        match self {
            Json::Object(o) => {
                let mut i: usize = o.len();
                while i > 0
                    invariant
                        i <= o.len(),
                        *self == Json::Object(*o),
                        forall|k: int| i <= k < o.len() ==> (#[trigger] o@[k]).0@ != key@,
                    decreases i,
                {
                    if text::same(o[i - 1].0.as_str(), key) {
                        proof {
                            lemma_members_last(o@, key@, i - 1);
                        }
                        return Some(&o[i - 1].1);
                    }
                    i -= 1;
                }
                proof {
                    lemma_members_none(o@, key@);
                }
                None
            },
            _ => None,
        }
    }

    /// The text, if the value is one.
    pub fn as_str(&self) -> (r: Option<&str>)
        ensures
            text::opt_str(r) == as_text(self.model()),
    {
        match self {
            Json::Str(s) => Some(s.as_str()),
            _ => None,
        }
    }

    /// The whole number, if the value is one that fits in 64 bits with a sign.
    pub fn as_i64(&self) -> (r: Option<i64>)
        ensures
            opt_signed(r) == signed(self.model()),
    {
        match self {
            Json::Int(n) => Some(*n),
            Json::Big(n) => if *n <= i64::MAX as u64 {
                Some(*n as i64)
            } else {
                None
            },
            _ => None,
        }
    }

    /// The whole number, if the value is one that is not negative.
    pub fn as_u64(&self) -> (r: Option<u64>)
        ensures
            opt_int(r) == natural(self.model()),
    {
        match self {
            Json::Int(n) => if *n >= 0 {
                Some(*n as u64)
            } else {
                None
            },
            Json::Big(n) => Some(*n),
            _ => None,
        }
    }

    /// The list, if the value is one.
    pub fn as_array(&self) -> (r: Option<&Vec<Json>>)
        ensures
            match r {
                Some(a) => self.model() == JsonModel::Array(models(a@)),
                None => !(self.model() is Array),
            },
    {
        match self {
            Json::Array(a) => Some(a),
            _ => None,
        }
    }

    /// The member of that name, if it is a text.
    pub fn get_str(&self, key: &str) -> (r: Option<&str>)
        ensures
            text::opt_str(r) == text_member(self.model(), key@),
    {
        match self.get(key) {
            Some(v) => v.as_str(),
            None => None,
        }
    }
}

impl Clone for Json {
    fn clone(&self) -> (r: Json)
        ensures
            r.model() == self.model(),
        decreases self,
    {
        match self {
            Json::Null => Json::Null,
            Json::Bool(b) => Json::Bool(*b),
            Json::Int(n) => Json::Int(*n),
            Json::Big(n) => Json::Big(*n),
            Json::Real(n) => Json::Real(copy_number(n)),
            Json::Str(s) => Json::Str(s.clone()),
            Json::Array(a) => {
                let mut out: Vec<Json> = Vec::new();
                let mut i: usize = 0;
                assert(a@.take(0) =~= Seq::<Json>::empty());
                assert(models(out@) =~= models(a@.take(0)));
                while i < a.len()
                    invariant
                        i <= a.len(),
                        *self == Json::Array(*a),
                        models(out@) == models(a@.take(i as int)),
                    decreases a.len() - i,
                {
                    proof {
                        assert(decreases_to!(*self => self->Array_0));
                        assert(decreases_to!(*a => a@));
                        assert(decreases_to!(a@ => a@[i as int]));
                    }
                    let c = (&a[i]).clone();
                    proof {
                        lemma_models_push(out@, c);
                        lemma_models_push(a@.take(i as int), a@[i as int]);
                        assert(a@.take(i + 1) =~= a@.take(i as int).push(a@[i as int]));
                    }
                    out.push(c);
                    i += 1;
                }
                assert(a@.take(i as int) =~= a@);
                Json::Array(out)
            },
            Json::Object(o) => {
                let mut out: Vec<(String, Json)> = Vec::new();
                let mut i: usize = 0;
                assert(o@.take(0) =~= Seq::<(String, Json)>::empty());
                assert(members(out@) =~= members(o@.take(0)));
                while i < o.len()
                    invariant
                        i <= o.len(),
                        *self == Json::Object(*o),
                        members(out@) == members(o@.take(i as int)),
                    decreases o.len() - i,
                {
                    let k = o[i].0.clone();
                    proof {
                        assert(decreases_to!(*self => self->Object_0));
                        assert(decreases_to!(*o => o@));
                        assert(decreases_to!(o@ => o@[i as int]));
                        assert(decreases_to!(o@[i as int] => o@[i as int].1));
                    }
                    let c = (&o[i].1).clone();
                    let p = (k, c);
                    proof {
                        lemma_members_push(out@, p);
                        lemma_members_push(o@.take(i as int), o@[i as int]);
                        assert(o@.take(i + 1) =~= o@.take(i as int).push(o@[i as int]));
                    }
                    out.push(p);
                    i += 1;
                }
                assert(o@.take(i as int) =~= o@);
                Json::Object(out)
            },
        }
    }
}

// ---------------------------------------------------------------------------
// Building
// ---------------------------------------------------------------------------

/// A text as a JSON value.
pub fn string(s: &str) -> (r: Json)
    ensures
        r.model() == JsonModel::Str(s@),
{
    Json::Str(s.to_owned())
}

/// The members of an object under construction, with one more.
pub fn with(o: Vec<(String, Json)>, key: &str, value: Json) -> (r: Vec<(String, Json)>)
    ensures
        members(r@) == members(o@).insert(key@, value.model()),
{
    let mut out = o;
    let p = (key.to_owned(), value);
    proof {
        lemma_members_push(out@, p);
    }
    out.push(p);
    out
}

/// An object with one member.
pub fn object1(key: &str, value: Json) -> (r: Json)
    ensures
        r.model() == JsonModel::Object(Map::empty().insert(key@, value.model())),
{
    let none: Vec<(String, Json)> = Vec::new();
    assert(members(none@) =~= Map::empty());
    Json::Object(with(none, key, value))
}

/// An object with two members.
pub fn object2(k1: &str, v1: Json, k2: &str, v2: Json) -> (r: Json)
    ensures
        r.model() == JsonModel::Object(
            Map::empty().insert(k1@, v1.model()).insert(k2@, v2.model()),
        ),
{
    let none: Vec<(String, Json)> = Vec::new();
    assert(members(none@) =~= Map::empty());
    Json::Object(with(with(none, k1, v1), k2, v2))
}

/// An object with three members.
pub fn object3(k1: &str, v1: Json, k2: &str, v2: Json, k3: &str, v3: Json) -> (r: Json)
    ensures
        r.model() == JsonModel::Object(
            Map::empty().insert(k1@, v1.model()).insert(k2@, v2.model()).insert(k3@, v3.model()),
        ),
{
    let none: Vec<(String, Json)> = Vec::new();
    assert(members(none@) =~= Map::empty());
    Json::Object(with(with(with(none, k1, v1), k2, v2), k3, v3))
}

/// A list of one value.
pub fn array1(value: Json) -> (r: Json)
    ensures
        r.model() == JsonModel::Array(seq![value.model()]),
{
    let mut out: Vec<Json> = Vec::new();
    proof {
        lemma_models_push(out@, value);
        assert(models(out@) =~= Seq::<JsonModel>::empty());
        assert(Seq::<JsonModel>::empty().push(value.model()) =~= seq![value.model()]);
    }
    out.push(value);
    Json::Array(out)
}

/// The empty list.
pub fn array0() -> (r: Json)
    ensures
        r.model() == JsonModel::Array(Seq::empty()),
{
    let out: Vec<Json> = Vec::new();
    assert(models(out@) =~= Seq::<JsonModel>::empty());
    Json::Array(out)
}

/// A list of texts.
pub fn strings(list: &Vec<&'static str>) -> (r: Json)
    ensures
        r.model() == JsonModel::Array(list@.map_values(|s: &'static str| JsonModel::Str(s@))),
{
    let mut out: Vec<Json> = Vec::new();
    let ghost all = list@.map_values(|s: &'static str| JsonModel::Str(s@));
    let mut i: usize = 0;
    assert(models(out@) =~= all.take(0));
    while i < list.len()
        invariant
            i <= list.len(),
            all == list@.map_values(|s: &'static str| JsonModel::Str(s@)),
            models(out@) == all.take(i as int),
        decreases list.len() - i,
    {
        let j = string(list[i]);
        proof {
            lemma_models_push(out@, j);
            assert(all.take(i + 1) =~= all.take(i as int).push(all[i as int]));
        }
        out.push(j);
        i += 1;
    }
    assert(all.take(i as int) =~= all);
    Json::Array(out)
}

/// A text, or null.
pub fn opt_string(o: Option<&str>) -> (r: Json)
    ensures
        r.model() == opt_text_model(text::opt_str(o)),
{
    match o {
        Some(s) => string(s),
        None => Json::Null,
    }
}

/// A text, or null.
pub open spec fn opt_text_model(o: Option<Seq<char>>) -> JsonModel {
    match o {
        Some(s) => JsonModel::Str(s),
        None => JsonModel::Null,
    }
}

// ---------------------------------------------------------------------------
// To and from serde_json's own form
// ---------------------------------------------------------------------------

/// One value more in a list is one model more.
proof fn lemma_value_models_push(a: Seq<serde_json::Value>, v: serde_json::Value)
    ensures
        value_models(a.push(v)) == value_models(a).push(value_model(v)),
{
    assert(value_models(a.push(v)) =~= value_models(a).push(value_model(v)));
}

/// One member more in a list is one insertion more.
proof fn lemma_value_members_push(
    o: Seq<(String, serde_json::Value)>,
    p: (String, serde_json::Value),
)
    ensures
        value_members(o.push(p)) == value_members(o).insert(p.0@, value_model(p.1)),
{
    assert(o.push(p).drop_last() =~= o);
}

/// A list of members makes a finite map, which holds each member whose key no
/// later one has.
proof fn lemma_value_members_at(o: Seq<(String, serde_json::Value)>, i: int)
    requires
        0 <= i < o.len(),
        forall|k: int| i < k < o.len() ==> (#[trigger] o[k]).0@ != o[i].0@,
    ensures
        value_members(o).dom().finite(),
        value_members(o).contains_key(o[i].0@),
        value_members(o)[o[i].0@] == value_model(o[i].1),
    decreases o.len(),
{
    lemma_value_members_finite(o);
    if i < o.len() - 1 {
        assert(o[o.len() - 1].0@ != o[i].0@);
        lemma_value_members_at(o.drop_last(), i);
    }
}

proof fn lemma_value_members_finite(o: Seq<(String, serde_json::Value)>)
    ensures
        value_members(o).dom().finite(),
    decreases o.len(),
{
    if o.len() > 0 {
        lemma_value_members_finite(o.drop_last());
    }
}

/// The value in serde_json's own form.
pub fn to_serde(j: &Json) -> (r: serde_json::Value)
    ensures
        value_model(r) == j.model(),
    decreases j,
{
    let layer = match j {
        Json::Null => Layer::Null,
        Json::Bool(b) => Layer::Bool(*b),
        Json::Int(n) => Layer::Int(*n),
        Json::Big(n) => Layer::Big(*n),
        Json::Real(n) => Layer::Real(copy_number(n)),
        Json::Str(s) => Layer::Str(s.clone()),
        Json::Array(a) => {
            let mut out: Vec<serde_json::Value> = Vec::new();
            let mut i: usize = 0;
            assert(a@.take(0) =~= Seq::<Json>::empty());
            assert(value_models(out@) =~= models(a@.take(0)));
            while i < a.len()
                invariant
                    i <= a.len(),
                    *j == Json::Array(*a),
                    value_models(out@) == models(a@.take(i as int)),
                decreases a.len() - i,
            {
                proof {
                    assert(decreases_to!(*j => j->Array_0));
                    assert(decreases_to!(*a => a@));
                    assert(decreases_to!(a@ => a@[i as int]));
                }
                let v = to_serde(&a[i]);
                proof {
                    lemma_value_models_push(out@, v);
                    lemma_models_push(a@.take(i as int), a@[i as int]);
                    assert(a@.take(i + 1) =~= a@.take(i as int).push(a@[i as int]));
                }
                out.push(v);
                i += 1;
            }
            assert(a@.take(i as int) =~= a@);
            Layer::Array(out)
        },
        Json::Object(o) => {
            let mut out: Vec<(String, serde_json::Value)> = Vec::new();
            let mut i: usize = 0;
            assert(o@.take(0) =~= Seq::<(String, Json)>::empty());
            assert(value_members(out@) =~= members(o@.take(0)));
            while i < o.len()
                invariant
                    i <= o.len(),
                    *j == Json::Object(*o),
                    value_members(out@) == members(o@.take(i as int)),
                decreases o.len() - i,
            {
                proof {
                    assert(decreases_to!(*j => j->Object_0));
                    assert(decreases_to!(*o => o@));
                    assert(decreases_to!(o@ => o@[i as int]));
                    assert(decreases_to!(o@[i as int] => o@[i as int].1));
                }
                let p = (o[i].0.clone(), to_serde(&o[i].1));
                proof {
                    lemma_value_members_push(out@, p);
                    lemma_members_push(o@.take(i as int), o@[i as int]);
                    assert(o@.take(i + 1) =~= o@.take(i as int).push(o@[i as int]));
                }
                out.push(p);
                i += 1;
            }
            assert(o@.take(i as int) =~= o@);
            Layer::Object(out)
        },
    };
    close_layer(layer)
}

/// The value that serde_json holds.
pub fn from_serde(v: serde_json::Value) -> (r: Json)
    ensures
        r.model() == value_model(v),
    decreases value_model(v),
{
    let ghost whole = value_model(v);
    match open_layer(v) {
        Layer::Null => Json::Null,
        Layer::Bool(b) => Json::Bool(b),
        Layer::Int(n) => Json::Int(n),
        Layer::Big(n) => Json::Big(n),
        Layer::Real(n) => Json::Real(n),
        Layer::Str(s) => Json::Str(s),
        Layer::Array(a) => {
            let ghost all = a@;
            let ghost list = value_models(all);
            let ghost mut done: int = 0;
            let mut rest = a;
            let mut out: Vec<Json> = Vec::new();
            assert(models(out@) =~= list.take(0));
            assert(all.skip(0) =~= all);
            while rest.len() > 0
                invariant
                    whole == value_model(v),
                    whole == JsonModel::Array(list),
                    list == value_models(all),
                    0 <= done <= all.len(),
                    rest@ == all.skip(done),
                    models(out@) == list.take(done),
                decreases rest.len(),
            {
                let x = rest.remove(0);
                proof {
                    assert(x == all[done]);
                    assert(list[done] == value_model(x));
                    assert(decreases_to!(whole => whole->Array_0));
                    assert(decreases_to!(list => list[done]));
                }
                let c = from_serde(x);
                proof {
                    lemma_models_push(out@, c);
                    assert(list.take(done + 1) =~= list.take(done).push(list[done]));
                    assert(rest@ =~= all.skip(done + 1));
                    done = done + 1;
                }
                out.push(c);
            }
            assert(list.take(done) =~= list);
            Json::Array(out)
        },
        Layer::Object(o) => {
            let ghost all = o@;
            let ghost map = value_members(all);
            let ghost mut done: int = 0;
            let mut rest = o;
            let mut out: Vec<(String, Json)> = Vec::new();
            assert(all.take(0) =~= Seq::<(String, serde_json::Value)>::empty());
            assert(members(out@) =~= value_members(all.take(0)));
            assert(all.skip(0) =~= all);
            while rest.len() > 0
                invariant
                    whole == value_model(v),
                    whole == JsonModel::Object(map),
                    map == value_members(all),
                    forall|i: int, k: int|
                        0 <= i < k < all.len() ==> (#[trigger] all[i]).0@ != (#[trigger] all[k]).0@,
                    0 <= done <= all.len(),
                    rest@ == all.skip(done),
                    members(out@) == value_members(all.take(done)),
                decreases rest.len(),
            {
                let (key, x) = rest.remove(0);
                proof {
                    assert((key, x) == all[done]);
                    lemma_value_members_at(all, done);
                    assert(decreases_to!(whole => whole->Object_0));
                    assert(decreases_to!(map => map[key@]));
                }
                let p = (key, from_serde(x));
                proof {
                    lemma_members_push(out@, p);
                    lemma_value_members_push(all.take(done), all[done]);
                    assert(all.take(done + 1) =~= all.take(done).push(all[done]));
                    assert(rest@ =~= all.skip(done + 1));
                    done = done + 1;
                }
                out.push(p);
            }
            assert(all.take(done) =~= all);
            Json::Object(out)
        },
    }
}

/// Of two members with the same key the later one counts, and a member leaves those of
/// other keys as they are.
pub proof fn law_later_members_count(o: Seq<(String, Json)>, p: (String, Json), key: Seq<char>)
    ensures
        member(JsonModel::Object(members(o.push(p))), p.0@) == Some(p.1.model()),
        key != p.0@ ==> member(JsonModel::Object(members(o.push(p))), key) == member(
            JsonModel::Object(members(o)),
            key,
        ),
        member(JsonModel::Object(members(Seq::empty())), key) is None,
{
    lemma_members_push(o, p);
}

/// A whole number is read where it fits, as what it is; a text is no number and a number
/// no text.
pub proof fn law_values_are_read_as_what_they_are(n: int, s: Seq<char>)
    ensures
        natural(JsonModel::Int(n)) == (if n >= 0 {
            Some(n)
        } else {
            None
        }),
        i64::MIN <= n <= i64::MAX ==> signed(JsonModel::Int(n)) == Some(n),
        n > i64::MAX ==> signed(JsonModel::Int(n)) is None,
        as_text(JsonModel::Str(s)) == Some(s),
        as_text(JsonModel::Int(n)) is None && signed(JsonModel::Str(s)) is None,
        member(JsonModel::Str(s), s) is None,
{
}

} // verus!

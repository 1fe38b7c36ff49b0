//! The JSON document model that the data sources deliver and the renderers
//! read: values, their mathematical view, and the accessors the logic uses
//! (`get`, `as_str`, `as_array`, ...), each with the semantics of the
//! corresponding `serde_json::Value` operation.
use vstd::prelude::*;
use crate::text::{owned, str_eq, views};

verus! {

/// What the logic reads of a JSON number: its value as `u64` and as `i64`
/// where it is one, and, for its value as a float, the text that `f64`'s
/// `Display` gives and whether it is greater than zero.
#[derive(Debug, PartialEq)]
pub struct JsonNumber {
    pub as_u64: Option<u64>,
    pub as_i64: Option<i64>,
    pub float_text: String,
    pub float_positive: bool,
}

/// A JSON value. An object keeps its members in order; a key is looked up at
/// its first occurrence.
#[derive(Debug, PartialEq)]
pub enum JsonValue {
    Null,
    Bool(bool),
    Number(JsonNumber),
    Str(String),
    Array(Vec<JsonValue>),
    Object(Vec<(String, JsonValue)>),
}

/// The mathematical view of a JSON number.
pub struct NumberData {
    pub as_u64: Option<u64>,
    pub as_i64: Option<i64>,
    pub float_text: Seq<char>,
    pub float_positive: bool,
}

/// The mathematical view of a JSON value.
pub enum JsonData {
    Null,
    Bool(bool),
    Number(NumberData),
    Text(Seq<char>),
    List(Seq<JsonData>),
    Members(Seq<(Seq<char>, JsonData)>),
}

impl JsonNumber {
    pub open spec fn data(&self) -> NumberData {
        NumberData {
            as_u64: self.as_u64,
            as_i64: self.as_i64,
            float_text: self.float_text@,
            float_positive: self.float_positive,
        }
    }
}

impl JsonValue {
    pub open spec fn data(&self) -> JsonData
        decreases self,
    {
        match self {
            JsonValue::Null => JsonData::Null,
            JsonValue::Bool(b) => JsonData::Bool(*b),
            JsonValue::Number(n) => JsonData::Number(n.data()),
            JsonValue::Str(s) => JsonData::Text(s@),
            JsonValue::Array(items) => JsonData::List(
                Seq::new(
                    items@.len(),
                    |i: int|
                        if 0 <= i < items@.len() {
                            items@[i].data()
                        } else {
                            JsonData::Null
                        },
                ),
            ),
            JsonValue::Object(members) => JsonData::Members(
                Seq::new(
                    members@.len(),
                    |i: int|
                        if 0 <= i < members@.len() {
                            (members@[i].0@, members@[i].1.data())
                        } else {
                            (Seq::empty(), JsonData::Null)
                        },
                ),
            ),
        }
    }
}

impl View for JsonValue {
    type V = JsonData;

    open spec fn view(&self) -> JsonData {
        self.data()
    }
}

// ───────── spec-level reading ─────────

/// The index of the first member at or after `start` whose key is `k`.
pub open spec fn member_index(ms: Seq<(Seq<char>, JsonData)>, k: Seq<char>, start: int) -> Option<int>
    decreases ms.len() - start,
{
    if start < 0 || start >= ms.len() {
        None
    } else if ms[start].0 == k {
        Some(start)
    } else {
        member_index(ms, k, start + 1)
    }
}

/// `value.get(k)`: the value of the member `k` of an object.
pub open spec fn field(d: JsonData, k: Seq<char>) -> Option<JsonData> {
    match d {
        JsonData::Members(ms) => match member_index(ms, k, 0) {
            Some(i) => Some(ms[i].1),
            None => None,
        },
        _ => None,
    }
}

/// `value.as_str()`.
pub open spec fn text_of(d: JsonData) -> Option<Seq<char>> {
    match d {
        JsonData::Text(t) => Some(t),
        _ => None,
    }
}

/// `value.get(k).and_then(|v| v.as_str())`.
pub open spec fn text_field(d: JsonData, k: Seq<char>) -> Option<Seq<char>> {
    match field(d, k) {
        Some(JsonData::Text(t)) => Some(t),
        _ => None,
    }
}

/// `value.get(k).and_then(|v| v.as_str()).unwrap_or("")`.
pub open spec fn text_or_empty(d: JsonData, k: Seq<char>) -> Seq<char> {
    match text_field(d, k) {
        Some(t) => t,
        None => Seq::empty(),
    }
}

/// `value.get(k).and_then(|v| v.as_array())`.
pub open spec fn list_field(d: JsonData, k: Seq<char>) -> Option<Seq<JsonData>> {
    match field(d, k) {
        Some(JsonData::List(l)) => Some(l),
        _ => None,
    }
}

/// `value.get(k).and_then(|v| v.as_bool())`.
pub open spec fn bool_field(d: JsonData, k: Seq<char>) -> Option<bool> {
    match field(d, k) {
        Some(JsonData::Bool(b)) => Some(b),
        _ => None,
    }
}

/// `value.as_u64()`.
pub open spec fn u64_of(d: JsonData) -> Option<u64> {
    match d {
        JsonData::Number(n) => n.as_u64,
        _ => None,
    }
}

/// `value.get(k).and_then(|v| v.as_u64())`.
pub open spec fn u64_field(d: JsonData, k: Seq<char>) -> Option<u64> {
    match field(d, k) {
        Some(v) => u64_of(v),
        None => None,
    }
}

/// The string elements of a list, in order (other elements are skipped).
pub open spec fn texts_of(items: Seq<JsonData>) -> Seq<Seq<char>>
    decreases items.len(),
{
    if items.len() == 0 {
        Seq::empty()
    } else {
        let rest = texts_of(items.drop_last());
        match items.last() {
            JsonData::Text(t) => rest.push(t),
            _ => rest,
        }
    }
}

/// The string elements of the list member `k` (empty when there is none).
pub open spec fn text_list_field(d: JsonData, k: Seq<char>) -> Seq<Seq<char>> {
    match list_field(d, k) {
        Some(l) => texts_of(l),
        None => Seq::empty(),
    }
}

/// The object with member `k` set to `v`: replaced where it is, appended
/// otherwise (`Map::insert`); a value that is not an object is unchanged.
pub open spec fn with_member(d: JsonData, k: Seq<char>, v: JsonData) -> JsonData {
    match d {
        JsonData::Members(ms) => JsonData::Members(
            match member_index(ms, k, 0) {
                Some(i) => ms.update(i, (k, v)),
                None => ms.push((k, v)),
            },
        ),
        _ => d,
    }
}

/// An object.
pub open spec fn is_object(d: JsonData) -> bool {
    d is Members
}

/// A string value.
pub open spec fn text(t: Seq<char>) -> JsonData {
    JsonData::Text(t)
}

/// A list of string values.
pub open spec fn text_list(ts: Seq<Seq<char>>) -> JsonData {
    JsonData::List(ts.map_values(|t: Seq<char>| JsonData::Text(t)))
}

pub proof fn lemma_member_index_bounds(ms: Seq<(Seq<char>, JsonData)>, k: Seq<char>, start: int)
    ensures
        member_index(ms, k, start) matches Some(i) ==> 0 <= start <= i < ms.len() && ms[i].0 == k,
    decreases ms.len() - start,
{
    if 0 <= start < ms.len() && ms[start].0 != k {
        lemma_member_index_bounds(ms, k, start + 1);
    }
}

/// Keys are found at the same place after the value at a key's own index
/// changes.
pub proof fn lemma_member_index_update(
    ms: Seq<(Seq<char>, JsonData)>,
    i: int,
    v: JsonData,
    k2: Seq<char>,
    start: int,
)
    requires
        0 <= i < ms.len(),
    ensures
        member_index(ms.update(i, (ms[i].0, v)), k2, start) == member_index(ms, k2, start),
    decreases ms.len() - start,
{
    if 0 <= start < ms.len() && ms[start].0 != k2 {
        lemma_member_index_update(ms, i, v, k2, start + 1);
    }
}

/// Appending a member does not move the keys that are already there.
pub proof fn lemma_member_index_push(
    ms: Seq<(Seq<char>, JsonData)>,
    x: (Seq<char>, JsonData),
    k2: Seq<char>,
    start: int,
)
    requires
        0 <= start <= ms.len(),
    ensures
        member_index(ms.push(x), k2, start) == match member_index(ms, k2, start) {
            Some(j) => Some(j),
            None => if x.0 == k2 {
                Some(ms.len() as int)
            } else {
                None
            },
        },
    decreases ms.len() - start,
{
    let ps = ms.push(x);
    if start < ms.len() {
        assert(ps[start] == ms[start]);
        if ms[start].0 != k2 {
            lemma_member_index_push(ms, x, k2, start + 1);
        }
    } else {
        assert(ps[start] == x);
        assert(member_index(ps, k2, start + 1) is None);
    }
}

/// Setting a member gives it the new value and leaves every other member's
/// value as it was.
pub proof fn lemma_field_with_member(d: JsonData, k: Seq<char>, v: JsonData, k2: Seq<char>)
    requires
        is_object(d),
    ensures
        is_object(with_member(d, k, v)),
        field(with_member(d, k, v), k2) == if k2 == k {
            Some(v)
        } else {
            field(d, k2)
        },
{
    let ms = d->Members_0;
    lemma_member_index_bounds(ms, k, 0);
    lemma_member_index_bounds(ms, k2, 0);
    match member_index(ms, k, 0) {
        Some(i) => {
            assert(ms.update(i, (k, v)) == ms.update(i, (ms[i].0, v)));
            lemma_member_index_update(ms, i, v, k2, 0);
        },
        None => {
            lemma_member_index_push(ms, (k, v), k2, 0);
        },
    }
}

proof fn lemma_texts_of_push(items: Seq<JsonData>, x: JsonData)
    ensures
        texts_of(items.push(x)) == match x {
            JsonData::Text(t) => texts_of(items).push(t),
            _ => texts_of(items),
        },
{
    assert(items.push(x).drop_last() =~= items);
}

// ───────── exec reading ─────────

impl JsonValue {
    /// `Value::get`: the member `key` of an object.
    pub fn get(&self, key: &str) -> (r: Option<&JsonValue>)
        ensures
            match r {
                Some(v) => field(self@, key@) == Some(v@),
                None => field(self@, key@) is None,
            },
    {
        match self {
            JsonValue::Object(ms) => {
                let ghost dms = self@->Members_0;
                assert(dms.len() == ms@.len());
                let mut i: usize = 0;
                while i < ms.len()
                    invariant
                        i <= ms@.len(),
                        dms.len() == ms@.len(),
                        forall|j: int| 0 <= j < ms@.len() ==> #[trigger] dms[j] == (ms@[j].0@, ms@[j].1@),
                        field(self@, key@) == match member_index(dms, key@, i as int) {
                            Some(j) => Some(dms[j].1),
                            None => None,
                        },
                    decreases ms@.len() - i,
                {
                    if str_eq(ms[i].0.as_str(), key) {
                        assert(dms[i as int] == (ms@[i as int].0@, ms@[i as int].1@));
                        assert(member_index(dms, key@, i as int) == Some(i as int));
                        return Some(&ms[i].1);
                    }
                    i = i + 1;
                }
                None
            },
            _ => None,
        }
    }

    /// `Value::as_str`.
    pub fn as_str(&self) -> (r: Option<&str>)
        ensures
            match r {
                Some(s) => text_of(self@) == Some(s@),
                None => text_of(self@) is None,
            },
    {
        match self {
            JsonValue::Str(s) => Some(s.as_str()),
            _ => None,
        }
    }

    /// `Value::as_array`.
    pub fn as_array(&self) -> (r: Option<&Vec<JsonValue>>)
        ensures
            match r {
                Some(v) => self@ == JsonData::List(v@.map_values(|x: JsonValue| x@)),
                None => !(self@ is List),
            },
    {
        match self {
            JsonValue::Array(v) => {
                assert(self@->List_0 =~= v@.map_values(|x: JsonValue| x@));
                Some(v)
            },
            _ => None,
        }
    }

    /// `Value::as_bool`.
    pub fn as_bool(&self) -> (r: Option<bool>)
        ensures
            r == match self@ {
                JsonData::Bool(b) => Some(b),
                _ => None::<bool>,
            },
    {
        match self {
            JsonValue::Bool(b) => Some(*b),
            _ => None,
        }
    }

    /// `Value::as_u64`.
    pub fn as_u64(&self) -> (r: Option<u64>)
        ensures
            r == u64_of(self@),
    {
        match self {
            JsonValue::Number(n) => n.as_u64,
            _ => None,
        }
    }

    /// `Value::is_object`.
    pub fn is_object(&self) -> (r: bool)
        ensures
            r == is_object(self@),
    {
        match self {
            JsonValue::Object(_) => true,
            _ => false,
        }
    }

    /// `Value::is_null`.
    pub fn is_null(&self) -> (r: bool)
        ensures
            r == (self@ is Null),
    {
        match self {
            JsonValue::Null => true,
            _ => false,
        }
    }

    /// `value.get(key).and_then(|v| v.as_str())`.
    pub fn get_str(&self, key: &str) -> (r: Option<&str>)
        ensures
            match r {
                Some(s) => text_field(self@, key@) == Some(s@),
                None => text_field(self@, key@) is None,
            },
    {
        match self.get(key) {
            Some(v) => v.as_str(),
            None => None,
        }
    }

    /// `value.get(key).and_then(|v| v.as_str()).unwrap_or("").to_string()`.
    pub fn str_or_empty(&self, key: &str) -> (r: String)
        ensures
            r@ == text_or_empty(self@, key@),
    {
        match self.get_str(key) {
            Some(s) => owned(s),
            None => String::new(),
        }
    }

    /// `value.get(key).and_then(|v| v.as_array())`.
    pub fn get_array(&self, key: &str) -> (r: Option<&Vec<JsonValue>>)
        ensures
            match r {
                Some(v) => list_field(self@, key@) == Some(v@.map_values(|x: JsonValue| x@)),
                None => list_field(self@, key@) is None,
            },
    {
        match self.get(key) {
            Some(v) => v.as_array(),
            None => None,
        }
    }

    /// `value.get(key).and_then(|v| v.as_bool())`.
    pub fn get_bool(&self, key: &str) -> (r: Option<bool>)
        ensures
            r == bool_field(self@, key@),
    {
        match self.get(key) {
            Some(v) => v.as_bool(),
            None => None,
        }
    }

    /// `value.get(key).and_then(|v| v.as_u64())`.
    pub fn get_u64(&self, key: &str) -> (r: Option<u64>)
        ensures
            r == u64_field(self@, key@),
    {
        match self.get(key) {
            Some(v) => v.as_u64(),
            None => None,
        }
    }

    /// The string elements of the list member `key`, in order.
    pub fn str_array(&self, key: &str) -> (r: Vec<String>)
        ensures
            views(r@) == text_list_field(self@, key@),
    {
        match self.get_array(key) {
            Some(items) => texts_in(items),
            None => {
                let r: Vec<String> = Vec::new();
                assert(views(r@) =~= Seq::<Seq<char>>::empty());
                r
            },
        }
    }

    /// A copy of the value.
    pub fn copy(&self) -> (r: JsonValue)
        ensures
            r@ == self@,
        decreases self,
    {
        match self {
            JsonValue::Null => JsonValue::Null,
            JsonValue::Bool(b) => JsonValue::Bool(*b),
            JsonValue::Number(n) => JsonValue::Number(
                JsonNumber {
                    as_u64: n.as_u64,
                    as_i64: n.as_i64,
                    float_text: n.float_text.clone(),
                    float_positive: n.float_positive,
                },
            ),
            JsonValue::Str(s) => JsonValue::Str(s.clone()),
            JsonValue::Array(items) => {
                let mut out: Vec<JsonValue> = Vec::new();
                let mut i: usize = 0;
                while i < items.len()
                    invariant
                        *self == JsonValue::Array(*items),
                        i <= items@.len(),
                        out@.len() == i,
                        forall|j: int| 0 <= j < i ==> #[trigger] out@[j]@ == items@[j]@,
                    decreases items@.len() - i,
                {
                    proof {
                        assert(decreases_to!(*self => self->Array_0));
                        assert(decreases_to!(self->Array_0 => self->Array_0@));
                        assert(decreases_to!(self->Array_0@ => self->Array_0@[i as int]));
                    }
                    out.push(items[i].copy());
                    i = i + 1;
                }
                let r = JsonValue::Array(out);
                assert forall|j: int| 0 <= j < items@.len() implies r@->List_0[j] == self@->List_0[j] by {
                    assert(out@[j]@ == items@[j]@);
                }
                assert(r@->List_0 =~= self@->List_0);
                r
            },
            JsonValue::Object(ms) => {
                let mut out: Vec<(String, JsonValue)> = Vec::new();
                let mut i: usize = 0;
                while i < ms.len()
                    invariant
                        *self == JsonValue::Object(*ms),
                        i <= ms@.len(),
                        out@.len() == i,
                        forall|j: int|
                            #![trigger out@[j]]
                            0 <= j < i ==> out@[j].0@ == ms@[j].0@ && out@[j].1@ == ms@[j].1@,
                    decreases ms@.len() - i,
                {
                    proof {
                        assert(decreases_to!(*self => self->Object_0));
                        assert(decreases_to!(self->Object_0 => self->Object_0@));
                        assert(decreases_to!(self->Object_0@ => self->Object_0@[i as int]));
                        assert(decreases_to!(self->Object_0@[i as int] => self->Object_0@[i as int].1));
                    }
                    out.push((ms[i].0.clone(), ms[i].1.copy()));
                    i = i + 1;
                }
                let r = JsonValue::Object(out);
                assert forall|j: int| 0 <= j < ms@.len() implies r@->Members_0[j] == self@->Members_0[j] by {
                    assert(out@[j].0@ == ms@[j].0@ && out@[j].1@ == ms@[j].1@);
                }
                assert(r@->Members_0 =~= self@->Members_0);
                r
            },
        }
    }
}

/// The string elements of a list of values, in order.
pub fn texts_in(items: &Vec<JsonValue>) -> (r: Vec<String>)
    ensures
        views(r@) == texts_of(items@.map_values(|x: JsonValue| x@)),
{
    let ghost all = items@.map_values(|x: JsonValue| x@);
    let mut r: Vec<String> = Vec::new();
    let mut i: usize = 0;
    while i < items.len()
        invariant
            i <= items@.len(),
            all == items@.map_values(|x: JsonValue| x@),
            views(r@) == texts_of(all.take(i as int)),
        decreases items@.len() - i,
    {
        proof {
            assert(all.take(i + 1) =~= all.take(i as int).push(all[i as int]));
            lemma_texts_of_push(all.take(i as int), all[i as int]);
        }
        match items[i].as_str() {
            Some(s) => {
                let ghost before = r@;
                r.push(owned(s));
                assert(views(r@) =~= views(before).push(s@));
            },
            None => {},
        }
        i = i + 1;
    }
    assert(all.take(items@.len() as int) =~= all);
    r
}

// ───────── exec building ─────────

impl JsonValue {
    /// A string value.
    pub fn from_str(s: &str) -> (r: JsonValue)
        ensures
            r@ == text(s@),
    {
        JsonValue::Str(owned(s))
    }

    /// A string value owning `s`.
    pub fn from_string(s: String) -> (r: JsonValue)
        ensures
            r@ == text(s@),
    {
        JsonValue::Str(s)
    }

    /// A list of string values (`json!(strings)`).
    pub fn from_strings(v: &Vec<String>) -> (r: JsonValue)
        ensures
            r@ == text_list(views(v@)),
    {
        let mut out: Vec<JsonValue> = Vec::new();
        let mut i: usize = 0;
        while i < v.len()
            invariant
                i <= v@.len(),
                out@.len() == i,
                forall|j: int| 0 <= j < i ==> #[trigger] out@[j]@ == text(v@[j]@),
            decreases v@.len() - i,
        {
            out.push(JsonValue::Str(v[i].clone()));
            i = i + 1;
        }
        let r = JsonValue::Array(out);
        assert forall|j: int| 0 <= j < v@.len() implies r@->List_0[j] == views(v@).map_values(|t: Seq<char>| JsonData::Text(t))[j] by {
            assert(out@[j]@ == text(v@[j]@));
        }
        assert(r@->List_0 =~= views(v@).map_values(|t: Seq<char>| JsonData::Text(t)));
        r
    }

    /// An empty object.
    pub fn empty_object() -> (r: JsonValue)
        ensures
            r@ == JsonData::Members(Seq::empty()),
    {
        let r = JsonValue::Object(Vec::new());
        assert(r@->Members_0 =~= Seq::<(Seq<char>, JsonData)>::empty());
        r
    }

    /// Sets the member `key` of an object to `v` (`Map::insert`); a value that
    /// is not an object is returned unchanged.
    pub fn with_member(self, key: &str, v: JsonValue) -> (r: JsonValue)
        ensures
            r@ == with_member(self@, key@, v@),
    {
        match self {
            JsonValue::Object(ms) => {
                let ghost d = JsonValue::Object(ms)@;
                let ghost dms = d->Members_0;
                let mut ms = ms;
                let mut i: usize = 0;
                while i < ms.len()
                    invariant
                        i <= ms@.len(),
                        dms.len() == ms@.len(),
                        forall|j: int| 0 <= j < ms@.len() ==> #[trigger] dms[j] == (ms@[j].0@, ms@[j].1@),
                        member_index(dms, key@, 0) == member_index(dms, key@, i as int),
                        with_member(self@, key@, v@) == with_member(JsonData::Members(dms), key@, v@),
                    decreases ms@.len() - i,
                {
                    if str_eq(ms[i].0.as_str(), key) {
                        assert(dms[i as int] == (ms@[i as int].0@, ms@[i as int].1@));
                        assert(member_index(dms, key@, i as int) == Some(i as int));
                        let ghost vd = v@;
                        ms.set(i, (owned(key), v));
                        let r = JsonValue::Object(ms);
                        assert(r@->Members_0 =~= dms.update(i as int, (key@, vd)));
                        return r;
                    }
                    i = i + 1;
                }
                let ghost vd = v@;
                ms.push((owned(key), v));
                let r = JsonValue::Object(ms);
                assert(r@->Members_0 =~= dms.push((key@, vd)));
                r
            },
            other => other,
        }
    }
}

/// The views of an object's members.
pub open spec fn members_view(ms: Seq<(String, JsonValue)>) -> Seq<(Seq<char>, JsonData)> {
    ms.map_values(|m: (String, JsonValue)| (m.0@, m.1@))
}

/// Appends a member to a list of members.
pub fn push_member(ms: &mut Vec<(String, JsonValue)>, key: &str, v: JsonValue)
    ensures
        members_view(final(ms)@) == members_view(old(ms)@).push((key@, v@)),
{
    let ghost before = ms@;
    let ghost vd = v@;
    ms.push((owned(key), v));
    assert(members_view(ms@) =~= members_view(before).push((key@, vd)));
}

/// An object of the given members.
pub fn object_of(ms: Vec<(String, JsonValue)>) -> (r: JsonValue)
    ensures
        r@ == JsonData::Members(members_view(ms@)),
{
    let ghost mv = members_view(ms@);
    let r = JsonValue::Object(ms);
    assert(r@->Members_0 =~= mv);
    r
}

} // verus!

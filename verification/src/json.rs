//! JSON values.
//!
//! [`Json`] is the library's own JSON type. Its model, [`JsonV`], keeps the
//! members of an object in ascending key order. Printing goes through
//! `serde_json`.

use crate::digest::hex_digit;
use crate::text::{integer, join, le, same, text_le};
use vstd::prelude::*;

verus! {

// ---------------------------------------------------------------------------
// The model
// ---------------------------------------------------------------------------

/// The model of a JSON value.
#[verifier::ext_equal]
pub enum JsonV {
    Null,
    Bool(bool),
    Int(int),
    /// A number that is no integer of 64 bits, by its printed form.
    Float(Seq<char>),
    Text(Seq<char>),
    Array(Seq<JsonV>),
    /// Members in ascending key order.
    Object(Seq<(Seq<char>, JsonV)>),
}

/// The value of the member `key`.
pub open spec fn lookup(members: Seq<(Seq<char>, JsonV)>, key: Seq<char>) -> Option<JsonV>
    decreases members.len(),
{
    if members.len() == 0 {
        None
    } else if members[0].0 == key {
        Some(members[0].1)
    } else {
        lookup(members.drop_first(), key)
    }
}

/// The member `key` of an object; nothing for any other value.
pub open spec fn member(j: Option<JsonV>, key: Seq<char>) -> Option<JsonV> {
    match j {
        Some(JsonV::Object(members)) => lookup(members, key),
        _ => None,
    }
}

/// The text of a JSON string; nothing for any other value.
pub open spec fn text_of_json(j: Option<JsonV>) -> Option<Seq<char>> {
    match j {
        Some(JsonV::Text(s)) => Some(s),
        _ => None,
    }
}

/// The member `key` of an object where it is a string.
pub open spec fn text_member(j: Option<JsonV>, key: Seq<char>) -> Option<Seq<char>> {
    text_of_json(member(j, key))
}

/// The member `key` of an object where it is a string, else `default`.
pub open spec fn text_member_or(
    j: Option<JsonV>,
    key: Seq<char>,
    default: Seq<char>,
) -> Seq<char> {
    match text_member(j, key) {
        Some(s) => s,
        None => default,
    }
}

/// The member `key` of an object where it is a boolean.
pub open spec fn bool_member(j: Option<JsonV>, key: Seq<char>) -> Option<bool> {
    match member(j, key) {
        Some(JsonV::Bool(b)) => Some(b),
        _ => None,
    }
}

/// The integer of a JSON number that is one and fits an `i64`.
pub open spec fn i64_of_json(j: Option<JsonV>) -> Option<i64> {
    match j {
        Some(JsonV::Int(i)) if i64::MIN <= i <= i64::MAX => Some(i as i64),
        _ => None,
    }
}

/// The integer of a JSON number that is one and fits a `u64`.
pub open spec fn u64_of_json(j: Option<JsonV>) -> Option<u64> {
    match j {
        Some(JsonV::Int(i)) if 0 <= i <= u64::MAX => Some(i as u64),
        _ => None,
    }
}

/// The items of a JSON array; nothing for any other value.
pub open spec fn items_of_json(j: Option<JsonV>) -> Seq<JsonV> {
    match j {
        Some(JsonV::Array(xs)) => xs,
        _ => Seq::empty(),
    }
}

/// The members of a JSON object; nothing for any other value.
pub open spec fn members_of_json(j: Option<JsonV>) -> Seq<(Seq<char>, JsonV)> {
    match j {
        Some(JsonV::Object(ms)) => ms,
        _ => Seq::empty(),
    }
}

/// The keys ascend, so none occurs twice.
pub open spec fn keys_ascend<V>(members: Seq<(Seq<char>, V)>) -> bool {
    forall|i: int, j: int|
        0 <= i < j < members.len() ==> text_le(
            (#[trigger] members[i]).0,
            (#[trigger] members[j]).0,
        ) && members[i].0 != members[j].0
}

// ---------------------------------------------------------------------------
// Numbers
// ---------------------------------------------------------------------------

/// A character of a printed number.
pub open spec fn number_char(c: char) -> bool {
    '0' <= c <= '9' || c == '-' || c == '+' || c == '.' || c == 'e'
}

/// A printed number that is no integer: it has a fraction or an exponent.
pub open spec fn is_float_text(s: Seq<char>) -> bool {
    &&& s.contains('.') || s.contains('e')
    &&& forall|i: int| 0 <= i < s.len() ==> number_char(#[trigger] s[i])
}

/// Every number in the value that is no integer is given by a printed form of
/// such a number.
pub open spec fn sound(j: JsonV) -> bool
    decreases j,
{
    match j {
        JsonV::Float(t) => is_float_text(t),
        JsonV::Array(xs) => all_sound(xs),
        JsonV::Object(ms) => members_sound(ms),
        _ => true,
    }
}

pub open spec fn all_sound(xs: Seq<JsonV>) -> bool
    decreases xs,
{
    forall|i: int| 0 <= i < xs.len() ==> sound(#[trigger] xs[i])
}

pub open spec fn members_sound(ms: Seq<(Seq<char>, JsonV)>) -> bool
    decreases ms,
{
    forall|i: int| 0 <= i < ms.len() ==> sound((#[trigger] ms[i]).1)
}

// ---------------------------------------------------------------------------
// The type
// ---------------------------------------------------------------------------

#[verifier::external_type_specification]
#[verifier::external_body]
pub struct ExNumber(serde_json::Number);

/// What `Number::as_u64` returns.
pub uninterp spec fn number_u64(n: serde_json::Number) -> Option<u64>;

/// `Number::as_u64`: the number as a `u64`, where it is such an integer.
#[verifier::external_body]
fn number_as_u64(n: &serde_json::Number) -> (r: Option<u64>)
    ensures
        r == number_u64(*n),
{
    n.as_u64()
}

/// What `Number::as_i64` returns.
pub uninterp spec fn number_i64(n: serde_json::Number) -> Option<i64>;

/// `Number::as_i64`: the number as an `i64`, where it is such an integer.
#[verifier::external_body]
fn number_as_i64(n: &serde_json::Number) -> (r: Option<i64>)
    ensures
        r == number_i64(*n),
{
    n.as_i64()
}

/// What printing a number gives.
pub uninterp spec fn number_text(n: serde_json::Number) -> Seq<char>;

/// `Number::to_string`: the printed form. That of a number that is no integer of
/// 64 bits has a fraction or an exponent.
#[verifier::external_body]
fn print_number(n: &serde_json::Number) -> (r: String)
    ensures
        r@ == number_text(*n),
        number_u64(*n) is None && number_i64(*n) is None ==> is_float_text(r@),
{
    n.to_string()
}

/// A JSON number that is not an integer of 64 bits, with its printed form.
#[derive(Debug, PartialEq, Eq)]
pub struct Float {
    number: serde_json::Number,
    text: String,
}

impl Float {
    #[verifier::type_invariant]
    spec fn printed(self) -> bool {
        self.text@ == number_text(self.number) && is_float_text(self.text@)
    }

    pub closed spec fn view(&self) -> Seq<char> {
        self.text@
    }

    /// The printed form.
    pub fn text(&self) -> (r: &str)
        ensures
            r@ == self.view(),
            is_float_text(r@),
    {
        proof {
            use_type_invariant(self);
        }
        self.text.as_str()
    }
}

/// A JSON number.
#[derive(Debug, PartialEq, Eq)]
pub enum Num {
    Unsigned(u64),
    Signed(i64),
    Float(Float),
}

impl View for Num {
    type V = JsonV;

    open spec fn view(&self) -> JsonV {
        match *self {
            Num::Unsigned(u) => JsonV::Int(u as int),
            Num::Signed(i) => JsonV::Int(i as int),
            Num::Float(f) => JsonV::Float(f.view()),
        }
    }
}

impl Num {
    /// Sort a `serde_json` number into the integers and the rest.
    pub fn from_number(number: serde_json::Number) -> (r: Num)
        ensures
            match (number_u64(number), number_i64(number)) {
                (Some(u), _) => r == Num::Unsigned(u),
                (None, Some(i)) => r == Num::Signed(i),
                (None, None) => r@ == JsonV::Float(number_text(number)),
            },
    {
        match number_as_u64(&number) {
            Some(u) => Num::Unsigned(u),
            None => match number_as_i64(&number) {
                Some(i) => Num::Signed(i),
                None => {
                    let text = print_number(&number);
                    Num::Float(Float { number, text })
                },
            },
        }
    }
}

/// A JSON value.
#[derive(Debug, PartialEq, Eq)]
pub enum Json {
    Null,
    Bool(bool),
    Number(Num),
    Text(String),
    Array(Vec<Json>),
    Object(JsonMap),
}

/// The members of a JSON object, in ascending key order.
#[derive(Debug, PartialEq, Eq)]
pub struct JsonMap {
    entries: Vec<(String, Json)>,
}

/// The model of a list of values.
pub open spec fn array_view(xs: Seq<Json>) -> Seq<JsonV>
    decreases xs,
{
    Seq::new(
        xs.len(),
        |i: int|
            if 0 <= i < xs.len() {
                json_view(xs[i])
            } else {
                JsonV::Null
            },
    )
}

/// The model of the members of an object.
pub closed spec fn object_view(m: JsonMap) -> Seq<(Seq<char>, JsonV)>
    decreases m,
{
    Seq::new(
        m.entries@.len(),
        |i: int|
            if 0 <= i < m.entries@.len() {
                (m.entries@[i].0@, json_view(m.entries@[i].1))
            } else {
                (Seq::empty(), JsonV::Null)
            },
    )
}

/// The model of a value.
pub open spec fn json_view(j: Json) -> JsonV
    decreases j,
{
    match j {
        Json::Null => JsonV::Null,
        Json::Bool(b) => JsonV::Bool(b),
        Json::Number(n) => n@,
        Json::Text(s) => JsonV::Text(s@),
        Json::Array(xs) => JsonV::Array(array_view(xs@)),
        Json::Object(m) => JsonV::Object(object_view(m)),
    }
}

impl View for Json {
    type V = JsonV;

    open spec fn view(&self) -> JsonV {
        json_view(*self)
    }
}

impl DeepView for Json {
    type V = JsonV;

    open spec fn deep_view(&self) -> JsonV {
        json_view(*self)
    }
}

impl View for JsonMap {
    type V = Seq<(Seq<char>, JsonV)>;

    open spec fn view(&self) -> Seq<(Seq<char>, JsonV)> {
        object_view(*self)
    }
}

/// The model of an optional reference to a value.
pub open spec fn opt_view(j: Option<&Json>) -> Option<JsonV> {
    match j {
        Some(v) => Some(v@),
        None => None,
    }
}

/// The model of a list of references to values.
pub open spec fn ref_views(xs: Seq<&Json>) -> Seq<JsonV> {
    xs.map_values(|j: &Json| j@)
}

impl JsonMap {
    #[verifier::type_invariant]
    spec fn sorted(self) -> bool {
        keys_ascend(self.entries@.map_values(|e: (String, Json)| (e.0@, e.1)))
    }

    /// An object without members.
    pub fn new() -> (r: JsonMap)
        ensures
            r@ == Seq::<(Seq<char>, JsonV)>::empty(),
    {
        let r = JsonMap { entries: Vec::new() };
        assert(r@ =~= Seq::<(Seq<char>, JsonV)>::empty());
        r
    }

    /// How many members there are; their keys ascend.
    pub fn len(&self) -> (n: usize)
        ensures
            n == self@.len(),
            keys_ascend(self@),
    {
        proof {
            use_type_invariant(self);
            let plain = self.entries@.map_values(|e: (String, Json)| (e.0@, e.1));
            assert forall|i: int, j: int| 0 <= i < j < self@.len() implies text_le(
                (#[trigger] self@[i]).0,
                (#[trigger] self@[j]).0,
            ) && self@[i].0 != self@[j].0 by {
                assert(plain[i].0 == self@[i].0);
                assert(plain[j].0 == self@[j].0);
            }
        }
        self.entries.len()
    }

    pub fn key(&self, i: usize) -> (k: &String)
        requires
            i < self@.len(),
        ensures
            k@ == self@[i as int].0,
    {
        &self.entries[i].0
    }

    pub fn value(&self, i: usize) -> (v: &Json)
        requires
            i < self@.len(),
        ensures
            v@ == self@[i as int].1,
    {
        &self.entries[i].1
    }

    /// The value of the member `key`.
    pub fn get(&self, key: &str) -> (r: Option<&Json>)
        ensures
            opt_view(r) == lookup(self@, key@),
    {
        let mut i: usize = 0;
        assert(self@.skip(0) =~= self@);
        while i < self.entries.len()
            invariant
                i <= self.entries@.len(),
                self@.len() == self.entries@.len(),
                lookup(self@, key@) == lookup(self@.skip(i as int), key@),
            decreases self.entries@.len() - i,
        {
            if same(self.entries[i].0.as_str(), key) {
                return Some(&self.entries[i].1);
            }
            assert(self@.skip(i as int).drop_first() =~= self@.skip(i + 1));
            i = i + 1;
        }
        None
    }
}


// ---------------------------------------------------------------------------
// Building
// ---------------------------------------------------------------------------

/// `members` with `key` set to `value`, in key order.
pub open spec fn with_member<V>(
    members: Seq<(Seq<char>, V)>,
    key: Seq<char>,
    value: V,
) -> Seq<(Seq<char>, V)>
    decreases members.len(),
{
    if members.len() == 0 || (text_le(members.last().0, key) && members.last().0 != key) {
        members.push((key, value))
    } else if members.last().0 == key {
        members.drop_last().push((key, value))
    } else {
        with_member(members.drop_last(), key, value).push(members.last())
    }
}

pub proof fn lemma_with_member<V>(members: Seq<(Seq<char>, V)>, key: Seq<char>, value: V, j: int)
    requires
        keys_ascend(members),
        0 <= j <= members.len(),
        forall|k: int| j <= k < members.len() ==> !text_le((#[trigger] members[k]).0, key),
        j > 0 ==> text_le(members[j - 1].0, key),
    ensures
        with_member(members, key, value) == (if j > 0 && members[j - 1].0 == key {
            members.update(j - 1, (key, value))
        } else {
            members.insert(j, (key, value))
        }),
        keys_ascend(with_member(members, key, value)),
    decreases members.len(),
{
    let out = with_member(members, key, value);
    crate::text::lemma_text_le_reflexive(key);
    if j < members.len() {
        let init = members.drop_last();
        let last = members.last();
        assert(!text_le(members[members.len() - 1].0, key));
        assert(keys_ascend(init)) by {
            assert forall|a: int, b: int| 0 <= a < b < init.len() implies text_le(
                (#[trigger] init[a]).0,
                (#[trigger] init[b]).0,
            ) && init[a].0 != init[b].0 by {
                assert(text_le(members[a].0, members[b].0));
            }
        }
        lemma_with_member(init, key, value, j);
        let rest = with_member(init, key, value);
        if j > 0 && members[j - 1].0 == key {
            assert(members.update(j - 1, (key, value)) =~= init.update(j - 1, (key, value)).push(
                last,
            ));
        } else {
            assert(members.insert(j, (key, value)) =~= init.insert(j, (key, value)).push(last));
        }
        assert(text_le(key, last.0)) by {
            crate::text::lemma_text_le_total(key, last.0);
        }
        assert forall|a: int, b: int| 0 <= a < b < out.len() implies text_le(
            (#[trigger] out[a]).0,
            (#[trigger] out[b]).0,
        ) && out[a].0 != out[b].0 by {
            if b < rest.len() {
                assert(out[a] == rest[a] && out[b] == rest[b]);
            } else {
                assert(out[b] == members[members.len() - 1]);
                assert(out[a] == rest[a]);
                if j > 0 && members[j - 1].0 == key {
                    assert(rest[a].0 == members[a].0);
                } else if a < j {
                    assert(rest[a] == members[a]);
                } else if a > j {
                    assert(rest[a] == members[a - 1]);
                }
            }
        }
    } else if j > 0 && members[j - 1].0 == key {
        assert(members.drop_last().push((key, value)) =~= members.update(j - 1, (key, value)));
        assert forall|a: int, b: int| 0 <= a < b < out.len() implies text_le(
            (#[trigger] out[a]).0,
            (#[trigger] out[b]).0,
        ) && out[a].0 != out[b].0 by {
            assert(out[a].0 == members[a].0 && out[b].0 == members[b].0);
        }
    } else {
        assert(members.push((key, value)) =~= members.insert(j, (key, value)));
        assert forall|a: int, b: int| 0 <= a < b < out.len() implies text_le(
            (#[trigger] out[a]).0,
            (#[trigger] out[b]).0,
        ) && out[a].0 != out[b].0 by {
            if b == members.len() {
                if a < members.len() - 1 {
                    assert(text_le(members[a].0, members[members.len() - 1].0));
                    crate::text::lemma_text_le_transitive(
                        members[a].0,
                        members[members.len() - 1].0,
                        key,
                    );
                    if members[a].0 == key {
                        crate::text::lemma_text_le_antisymmetric(
                            members[members.len() - 1].0,
                            key,
                        );
                    }
                }
            } else {
                assert(out[a] == members[a] && out[b] == members[b]);
            }
        }
    }
}

/// What a write puts under a key, a read gives back; other keys are untouched.
pub proof fn law_with_member_reads_back(
    members: Seq<(Seq<char>, JsonV)>,
    key: Seq<char>,
    value: JsonV,
    other: Seq<char>,
)
    requires
        keys_ascend(members),
    ensures
        lookup(with_member(members, key, value), key) == Some(value),
        other != key ==> lookup(with_member(members, key, value), other) == lookup(members, other),
    decreases members.len(),
{
    let out = with_member(members, key, value);
    if members.len() == 0 || (text_le(members.last().0, key) && members.last().0 != key) {
        lemma_lookup_push(members, (key, value), key);
        lemma_lookup_push(members, (key, value), other);
        assert forall|k: int| 0 <= k < members.len() implies (#[trigger] members[k]).0 != key by {
            if members[k].0 == key && k < members.len() - 1 {
                assert(text_le(members[k].0, members[members.len() - 1].0));
                crate::text::lemma_text_le_antisymmetric(members.last().0, key);
            }
        }
        lemma_lookup_absent(members, key);
    } else {
        let init = members.drop_last();
        assert(keys_ascend(init)) by {
            assert forall|a: int, b: int| 0 <= a < b < init.len() implies text_le(
                (#[trigger] init[a]).0,
                (#[trigger] init[b]).0,
            ) && init[a].0 != init[b].0 by {
                assert(text_le(members[a].0, members[b].0));
            }
        }
        assert(members =~= init.push(members.last()));
        lemma_lookup_push(init, members.last(), other);
        if members.last().0 == key {
            lemma_lookup_push(init, (key, value), key);
            lemma_lookup_push(init, (key, value), other);
            assert forall|k: int| 0 <= k < init.len() implies (#[trigger] init[k]).0 != key by {
                assert(members[k].0 != members[members.len() - 1].0);
            }
            lemma_lookup_absent(init, key);
        } else {
            law_with_member_reads_back(init, key, value, other);
            lemma_lookup_push(with_member(init, key, value), members.last(), key);
            lemma_lookup_push(with_member(init, key, value), members.last(), other);
        }
    }
}

proof fn lemma_lookup_push(
    members: Seq<(Seq<char>, JsonV)>,
    last: (Seq<char>, JsonV),
    key: Seq<char>,
)
    ensures
        lookup(members.push(last), key) == (match lookup(members, key) {
            Some(v) => Some(v),
            None => if last.0 == key {
                Some(last.1)
            } else {
                None
            },
        }),
    decreases members.len(),
{
    if members.len() > 0 {
        lemma_lookup_push(members.drop_first(), last, key);
        assert(members.push(last).drop_first() =~= members.drop_first().push(last));
    } else {
        assert(members.push(last).drop_first() =~= members);
    }
}

proof fn lemma_lookup_absent(members: Seq<(Seq<char>, JsonV)>, key: Seq<char>)
    requires
        forall|k: int| 0 <= k < members.len() ==> (#[trigger] members[k]).0 != key,
    ensures
        lookup(members, key) is None,
    decreases members.len(),
{
    if members.len() > 0 {
        assert(members[0].0 != key);
        lemma_lookup_absent(members.drop_first(), key);
    }
}

/// `Number::clone` gives an equal number.
pub assume_specification[ <serde_json::Number as Clone>::clone ](
    n: &serde_json::Number,
) -> (r: serde_json::Number)
    ensures
        r == *n,
;

impl JsonMap {
    /// Set the member `key` to `value`.
    pub fn insert(&mut self, key: String, value: Json)
        ensures
            final(self)@ == with_member(old(self)@, key@, value@),
    {
        proof {
            use_type_invariant(&*self);
        }
        let ghost plain = self.entries@.map_values(|e: (String, Json)| (e.0@, e.1));
        let ghost members = self@;
        let mut entries: Vec<(String, Json)> = Vec::new();
        std::mem::swap(&mut entries, &mut self.entries);
        let mut j: usize = entries.len();
        while j > 0 && !le(entries[j - 1].0.as_str(), key.as_str())
            invariant
                j <= entries@.len(),
                plain == entries@.map_values(|e: (String, Json)| (e.0@, e.1)),
                forall|k: int| j <= k < plain.len() ==> !text_le((#[trigger] plain[k]).0, key@),
            decreases j,
        {
            j = j - 1;
        }
        proof {
            assert(forall|k: int| 0 <= k < plain.len() ==> plain[k].0 == members[k].0);
            lemma_with_member(plain, key@, value, j as int);
            assert(keys_ascend(members)) by {
                assert forall|a: int, b: int| 0 <= a < b < members.len() implies text_le(
                    (#[trigger] members[a]).0,
                    (#[trigger] members[b]).0,
                ) && members[a].0 != members[b].0 by {
                    assert(text_le(plain[a].0, plain[b].0));
                }
            }
            lemma_with_member(members, key@, value@, j as int);
        }
        if j > 0 && same(entries[j - 1].0.as_str(), key.as_str()) {
            entries.set(j - 1, (key, value));
        } else {
            entries.insert(j, (key, value));
        }
        assert(entries@.map_values(|e: (String, Json)| (e.0@, e.1)) =~= with_member(
            plain,
            key@,
            value,
        ));
        self.entries = entries;
        assert(self@ =~= with_member(members, key@, value@));
    }

    /// A copy of the members.
    fn copy(&self) -> (r: JsonMap)
        ensures
            r@ == self@,
            members_sound(r@),
        decreases self,
    {
        proof {
            use_type_invariant(self);
        }
        let mut entries: Vec<(String, Json)> = Vec::new();
        for i in 0..self.entries.len()
            invariant
                entries@.len() == i,
                forall|k: int|
                    0 <= k < i ==> (#[trigger] entries@[k]).0 == self.entries@[k].0 && entries@[k].1@
                        == self.entries@[k].1@ && sound(entries@[k].1@),
        {
            let value = self.entries[i].1.copy();
            entries.push((self.entries[i].0.clone(), value));
        }
        proof {
            let a = self.entries@.map_values(|e: (String, Json)| (e.0@, e.1));
            let b = entries@.map_values(|e: (String, Json)| (e.0@, e.1));
            assert forall|i: int, j: int| 0 <= i < j < b.len() implies text_le(
                (#[trigger] b[i]).0,
                (#[trigger] b[j]).0,
            ) && b[i].0 != b[j].0 by {
                assert(a[i].0 == b[i].0 && a[j].0 == b[j].0);
            }
        }
        let r = JsonMap { entries };
        assert(r@ =~= self@);
        r
    }
}

fn copy_items(xs: &Vec<Json>) -> (ys: Vec<Json>)
    ensures
        array_view(ys@) == array_view(xs@),
        all_sound(array_view(ys@)),
    decreases xs,
{
    let mut ys: Vec<Json> = Vec::new();
    for i in 0..xs.len()
        invariant
            ys@.len() == i,
            forall|k: int|
                0 <= k < i ==> (#[trigger] ys@[k])@ == xs@[k]@ && sound(ys@[k]@),
    {
        let y = xs[i].copy();
        ys.push(y);
    }
    assert(array_view(ys@) =~= array_view(xs@));
    ys
}

impl Json {
    /// A copy of the value, which is sound.
    pub fn copy(&self) -> (r: Json)
        ensures
            r@ == self@,
            sound(r@),
        decreases self,
    {
        match self {
            Json::Null => Json::Null,
            Json::Bool(b) => Json::Bool(*b),
            Json::Number(n) => Json::Number(n.clone()),
            Json::Text(s) => Json::Text(s.clone()),
            Json::Array(xs) => {
                let ys = copy_items(xs);
                Json::Array(ys)
            },
            Json::Object(m) => Json::Object(m.copy()),
        }
    }
}

impl Clone for Float {
    fn clone(&self) -> (r: Float)
        ensures
            r.view() == self.view(),
            is_float_text(r.view()),
    {
        proof {
            use_type_invariant(self);
        }
        Float { number: self.number.clone(), text: self.text.clone() }
    }
}

impl Clone for Num {
    fn clone(&self) -> (r: Num)
        ensures
            r@ == self@,
            sound(r@),
    {
        match self {
            Num::Unsigned(u) => Num::Unsigned(*u),
            Num::Signed(i) => Num::Signed(*i),
            Num::Float(f) => Num::Float(f.clone()),
        }
    }
}

impl Clone for Json {
    fn clone(&self) -> (r: Json)
        ensures
            r@ == self@,
    {
        self.copy()
    }
}

impl Clone for JsonMap {
    fn clone(&self) -> (r: JsonMap)
        ensures
            r@ == self@,
    {
        self.copy()
    }
}

// ---------------------------------------------------------------------------
// Reading
// ---------------------------------------------------------------------------

/// The model of an optional text.
pub open spec fn opt_text(s: Option<&str>) -> Option<Seq<char>> {
    match s {
        Some(t) => Some(t@),
        None => None,
    }
}

impl Json {
    /// The member `key` of an object.
    pub fn get(&self, key: &str) -> (r: Option<&Json>)
        ensures
            opt_view(r) == member(Some(self@), key@),
    {
        match self {
            Json::Object(m) => m.get(key),
            _ => None,
        }
    }

    pub fn as_str(&self) -> (r: Option<&str>)
        ensures
            opt_text(r) == text_of_json(Some(self@)),
    {
        match self {
            Json::Text(s) => Some(s.as_str()),
            _ => None,
        }
    }

    pub fn as_bool(&self) -> (r: Option<bool>)
        ensures
            r == (match self@ {
                JsonV::Bool(b) => Some(b),
                _ => None,
            }),
    {
        match self {
            Json::Bool(b) => Some(*b),
            _ => None,
        }
    }

    pub fn as_i64(&self) -> (r: Option<i64>)
        ensures
            r == i64_of_json(Some(self@)),
    {
        match self {
            Json::Number(Num::Signed(i)) => Some(*i),
            Json::Number(Num::Unsigned(u)) => if *u <= 9223372036854775807u64 {
                Some(*u as i64)
            } else {
                None
            },
            _ => None,
        }
    }

    pub fn as_u64(&self) -> (r: Option<u64>)
        ensures
            r == u64_of_json(Some(self@)),
    {
        match self {
            Json::Number(Num::Signed(i)) => if *i >= 0 {
                Some(*i as u64)
            } else {
                None
            },
            Json::Number(Num::Unsigned(u)) => Some(*u),
            _ => None,
        }
    }

    pub fn as_array(&self) -> (r: Option<&Vec<Json>>)
        ensures
            match r {
                Some(xs) => self@ == JsonV::Array(array_view(xs@)),
                None => !(self@ is Array),
            },
    {
        match self {
            Json::Array(xs) => Some(xs),
            _ => None,
        }
    }

    pub fn as_object(&self) -> (r: Option<&JsonMap>)
        ensures
            match r {
                Some(m) => self@ == JsonV::Object(m@),
                None => !(self@ is Object),
            },
    {
        match self {
            Json::Object(m) => Some(m),
            _ => None,
        }
    }

    pub fn is_null(&self) -> (r: bool)
        ensures
            r == (self@ is Null),
    {
        match self {
            Json::Null => true,
            _ => false,
        }
    }
}

/// The member `key` of an optional value.
pub(crate) fn get_member<'a>(j: Option<&'a Json>, key: &str) -> (r: Option<&'a Json>)
    ensures
        opt_view(r) == member(opt_view(j), key@),
{
    match j {
        Some(v) => v.get(key),
        None => None,
    }
}

/// The member `key` where it is a string.
pub(crate) fn get_text(j: Option<&Json>, key: &str) -> (r: Option<String>)
    ensures
        r.deep_view() == text_member(opt_view(j), key@),
{
    match get_member(j, key) {
        Some(v) => match v.as_str() {
            Some(s) => Some(s.to_owned()),
            None => None,
        },
        None => None,
    }
}

/// The member `key` where it is a string, else `default`.
pub(crate) fn get_text_or(j: Option<&Json>, key: &str, default: &str) -> (r: String)
    ensures
        r@ == text_member_or(opt_view(j), key@, default@),
{
    match get_text(j, key) {
        Some(s) => s,
        None => default.to_owned(),
    }
}

/// The member `key` where it is a boolean.
pub(crate) fn get_bool(j: Option<&Json>, key: &str) -> (r: Option<bool>)
    ensures
        r == bool_member(opt_view(j), key@),
{
    match get_member(j, key) {
        Some(v) => v.as_bool(),
        None => None,
    }
}

/// The member `key` where it is an integer.
pub(crate) fn get_i64(j: Option<&Json>, key: &str) -> (r: Option<i64>)
    ensures
        r == i64_of_json(member(opt_view(j), key@)),
{
    match get_member(j, key) {
        Some(v) => v.as_i64(),
        None => None,
    }
}

/// The items of an array; nothing for any other value.
pub(crate) fn items_of<'a>(j: Option<&'a Json>) -> (r: Vec<&'a Json>)
    ensures
        ref_views(r@) == items_of_json(opt_view(j)),
{
    let mut r: Vec<&'a Json> = Vec::new();
    if let Some(v) = j {
        if let Some(xs) = v.as_array() {
            for i in 0..xs.len()
                invariant
                    r@.len() == i,
                    forall|k: int| 0 <= k < i ==> (#[trigger] r@[k])@ == xs@[k]@,
            {
                r.push(&xs[i]);
            }
            assert(ref_views(r@) =~= array_view(xs@));
        }
    }
    assert(ref_views(r@) =~= items_of_json(opt_view(j)));
    r
}

// ---------------------------------------------------------------------------
// Printing
// ---------------------------------------------------------------------------

#[verifier::external_type_specification]
#[verifier::external_body]
pub struct ExValue(serde_json::Value);

/// What a `serde_json` value holds, a number that is no integer of 64 bits by its
/// printed form.
pub uninterp spec fn value_model(v: serde_json::Value) -> JsonV;

/// Turns a value, variant by variant, into the `serde_json` value that holds
/// the same.
#[verifier::external_body]
fn to_value(j: &Json) -> (v: serde_json::Value)
    ensures
        value_model(v) == j@,
{
    match j {
        Json::Null => serde_json::Value::Null,
        Json::Bool(b) => serde_json::Value::Bool(*b),
        Json::Number(Num::Unsigned(u)) => serde_json::Value::from(*u),
        Json::Number(Num::Signed(i)) => serde_json::Value::from(*i),
        Json::Number(Num::Float(f)) => serde_json::Value::Number(f.number.clone()),
        Json::Text(s) => serde_json::Value::String(s.clone()),
        Json::Array(xs) => xs.iter().map(to_value).collect(),
        Json::Object(m) => m.entries.iter().map(|e| (e.0.clone(), to_value(&e.1))).collect(),
    }
}

/// A character as it stands in a JSON string: quotes, backslashes and control
/// characters are escaped.
pub open spec fn escaped_char(c: char) -> Seq<char> {
    if c == '"' || c == '\\' {
        seq!['\\', c]
    } else if c as int == 8 {
        seq!['\\', 'b']
    } else if c == '\t' {
        seq!['\\', 't']
    } else if c == '\n' {
        seq!['\\', 'n']
    } else if c as int == 12 {
        seq!['\\', 'f']
    } else if c == '\r' {
        seq!['\\', 'r']
    } else if (c as int) < 32 {
        seq!['\\', 'u', '0', '0', hex_digit(c as int / 16), hex_digit(c as int % 16)]
    } else {
        seq![c]
    }
}

/// A text as it stands in a JSON string.
pub open spec fn escaped(s: Seq<char>) -> Seq<char>
    decreases s.len(),
{
    if s.len() == 0 {
        Seq::empty()
    } else {
        escaped_char(s[0]) + escaped(s.drop_first())
    }
}

/// A text as a JSON string.
pub open spec fn quoted(s: Seq<char>) -> Seq<char> {
    seq!['"'] + escaped(s) + seq!['"']
}

/// The compact JSON form of a value.
pub open spec fn json_text(j: JsonV) -> Seq<char>
    decreases j,
{
    match j {
        JsonV::Null => "null"@,
        JsonV::Bool(b) => if b {
            "true"@
        } else {
            "false"@
        },
        JsonV::Int(i) => integer(i),
        JsonV::Float(t) => t,
        JsonV::Text(t) => quoted(t),
        JsonV::Array(xs) => "["@ + join(array_texts(xs), ","@) + "]"@,
        JsonV::Object(ms) => "{"@ + join(member_texts(ms), ","@) + "}"@,
    }
}

/// The compact JSON form of each item of an array.
pub open spec fn array_texts(xs: Seq<JsonV>) -> Seq<Seq<char>>
    decreases xs,
{
    Seq::new(
        xs.len(),
        |i: int|
            if 0 <= i < xs.len() {
                json_text(xs[i])
            } else {
                Seq::empty()
            },
    )
}

/// The compact JSON form of each member of an object.
pub open spec fn member_texts(ms: Seq<(Seq<char>, JsonV)>) -> Seq<Seq<char>>
    decreases ms,
{
    Seq::new(
        ms.len(),
        |i: int|
            if 0 <= i < ms.len() {
                quoted(ms[i].0) + ":"@ + json_text(ms[i].1)
            } else {
                Seq::empty()
            },
    )
}

/// `Value::to_string`: the compact form, without white space between tokens,
/// members in key order, and a number as it is printed alone.
#[verifier::external_body]
fn print_compact(v: &serde_json::Value) -> (s: String)
    ensures
        s@ == json_text(value_model(*v)),
{
    v.to_string()
}

/// The white space that stands before an item `depth` levels down.
pub open spec fn indent(depth: nat) -> Seq<char> {
    Seq::new(2 * depth, |i: int| ' ')
}

/// A list in brackets, one item per line; without items, the brackets alone.
pub open spec fn bracketed(
    opening: Seq<char>,
    items: Seq<Seq<char>>,
    closing: Seq<char>,
    depth: nat,
) -> Seq<char> {
    if items.len() == 0 {
        opening + closing
    } else {
        opening + "\n"@ + indent(depth + 1) + join(items, ",\n"@ + indent(depth + 1)) + "\n"@
            + indent(depth) + closing
    }
}

/// The indented JSON form of a value that stands `depth` levels down.
pub open spec fn pretty_at(j: JsonV, depth: nat) -> Seq<char>
    decreases j,
{
    match j {
        JsonV::Array(xs) => bracketed("["@, pretty_items(xs, depth + 1), "]"@, depth),
        JsonV::Object(ms) => bracketed("{"@, pretty_members(ms, depth + 1), "}"@, depth),
        _ => json_text(j),
    }
}

/// The indented JSON form of each item of an array.
pub open spec fn pretty_items(xs: Seq<JsonV>, depth: nat) -> Seq<Seq<char>>
    decreases xs,
{
    Seq::new(
        xs.len(),
        |i: int|
            if 0 <= i < xs.len() {
                pretty_at(xs[i], depth)
            } else {
                Seq::empty()
            },
    )
}

/// The indented JSON form of each member of an object.
pub open spec fn pretty_members(ms: Seq<(Seq<char>, JsonV)>, depth: nat) -> Seq<Seq<char>>
    decreases ms,
{
    Seq::new(
        ms.len(),
        |i: int|
            if 0 <= i < ms.len() {
                quoted(ms[i].0) + ": "@ + pretty_at(ms[i].1, depth)
            } else {
                Seq::empty()
            },
    )
}

/// The indented JSON form of a value.
pub open spec fn pretty_text(j: JsonV) -> Seq<char> {
    pretty_at(j, 0)
}

/// `serde_json::to_string_pretty`: the indented form of a value, by two blanks a
/// level. It succeeds on every value: a value holds no map with other keys than
/// strings.
#[verifier::external_body]
fn print_pretty(v: &serde_json::Value) -> (s: Option<String>)
    ensures
        s.deep_view() == Some(pretty_text(value_model(*v))),
{
    serde_json::to_string_pretty(v).ok()
}

impl Json {
    /// The compact JSON form.
    pub fn to_text(&self) -> (s: String)
        ensures
            s@ == json_text(self@),
    {
        print_compact(&to_value(self))
    }

    /// The indented JSON form.
    pub fn to_pretty_text(&self) -> (s: String)
        ensures
            s@ == pretty_text(self@),
    {
        let v = to_value(self);
        match print_pretty(&v) {
            Some(p) => p,
            None => print_compact(&v),
        }
    }
}

} // verus!

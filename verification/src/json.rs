//! Structured records: the JSON values that the record stages read and write.

use vstd::prelude::*;

verus! {

/// A JSON number: a whole number, or any other number as JSON writes it.
#[derive(Debug, PartialEq, Eq)]
pub enum Numeral {
    PosInt(u64),
    NegInt(i64),
    /// The text of the number, such as `2.5` or `1e-7`. Decoding puts the
    /// text here that JSON writes. Nothing checks a text that a program puts
    /// here: one that writes no JSON number is written out as `null`.
    Float(String),
}

/// Model of a [`Numeral`].
pub enum NumeralModel {
    PosInt(u64),
    NegInt(i64),
    Float(Seq<char>),
}

impl View for Numeral {
    type V = NumeralModel;

    open spec fn view(&self) -> NumeralModel {
        match *self {
            Numeral::PosInt(n) => NumeralModel::PosInt(n),
            Numeral::NegInt(n) => NumeralModel::NegInt(n),
            Numeral::Float(text) => NumeralModel::Float(text@),
        }
    }
}

/// A JSON value. The members of an object are kept in a list; where a key
/// occurs more than once, the last occurrence is the one that counts. `==`
/// compares the lists as they are: two objects that stand for the same map
/// may differ under it.
#[derive(Debug, PartialEq)]
pub enum Json {
    Null,
    Bool(bool),
    Number(Numeral),
    Text(String),
    Array(Vec<Json>),
    Object(Vec<(String, Json)>),
}

/// Model of a [`Json`] value: an object is a finite map from keys to values.
pub enum JsonValue {
    Null,
    Bool(bool),
    Number(NumeralModel),
    Text(Seq<char>),
    Array(Seq<JsonValue>),
    Object(Map<Seq<char>, JsonValue>),
}

/// The model of a JSON value.
pub open spec fn value_of(json: Json) -> JsonValue
    decreases json, 1nat, 0nat,
{
    match json {
        Json::Null => JsonValue::Null,
        Json::Bool(b) => JsonValue::Bool(b),
        Json::Number(n) => JsonValue::Number(n@),
        Json::Text(s) => JsonValue::Text(s@),
        Json::Array(items) => JsonValue::Array(items_of(json, items@.len())),
        Json::Object(members) => JsonValue::Object(members_of(json, members@.len())),
    }
}

/// The models of the first `n` items of an array.
pub open spec fn items_of(json: Json, n: nat) -> Seq<JsonValue>
    decreases json, 0nat, n,
{
    match json {
        Json::Array(items) => if 0 < n <= items@.len() {
            items_of(json, (n - 1) as nat).push(value_of(items@[n - 1]))
        } else {
            Seq::empty()
        },
        _ => Seq::empty(),
    }
}

/// The map that the first `n` members of an object make: a later member
/// replaces an earlier one of the same key.
pub open spec fn members_of(json: Json, n: nat) -> Map<Seq<char>, JsonValue>
    decreases json, 0nat, n,
{
    match json {
        Json::Object(members) => if 0 < n <= members@.len() {
            members_of(json, (n - 1) as nat).insert(
                members@[n - 1].0@,
                value_of(members@[n - 1].1),
            )
        } else {
            Map::empty()
        },
        _ => Map::empty(),
    }
}

/// The models of a run of records.
pub open spec fn values_of(records: Seq<Json>) -> Seq<JsonValue> {
    Seq::new(records.len(), |i: int| value_of(records[i]))
}

impl Clone for Numeral {
    fn clone(&self) -> (out: Numeral)
        ensures
            out@ == self@,
    {
        match self {
            Numeral::PosInt(n) => Numeral::PosInt(*n),
            Numeral::NegInt(n) => Numeral::NegInt(*n),
            Numeral::Float(text) => Numeral::Float(text.clone()),
        }
    }
}

impl Clone for Json {
    /// A copy of the value, node by node.
    fn clone(&self) -> (out: Json)
        ensures
            out@ == self@,
        decreases self,
    {
        match self {
            Json::Null => Json::Null,
            Json::Bool(b) => Json::Bool(*b),
            Json::Number(n) => Json::Number(n.clone()),
            Json::Text(s) => Json::Text(s.clone()),
            Json::Array(items) => {
                let mut copy: Vec<Json> = Vec::new();
                let mut i: usize = 0;
                while i < items.len()
                    invariant
                        i <= items.len(),
                        copy.len() == i,
                        *self == Json::Array(*items),
                        forall|k: int| 0 <= k < i ==> (#[trigger] copy@[k])@ == items@[k]@,
                    decreases items.len() - i,
                {
                    assert(decreases_to!(*self => self->Array_0));
                    assert(decreases_to!(self->Array_0 => self->Array_0@[i as int]));
                    copy.push(items[i].clone());
                    i += 1;
                }
                proof {
                    lemma_items_of(*self, items@.len());
                    lemma_items_of(Json::Array(copy), copy@.len());
                    assert(items_of(Json::Array(copy), copy@.len()) =~= items_of(*self, items@.len()));
                }
                Json::Array(copy)
            },
            Json::Object(members) => {
                let mut copy: Vec<(String, Json)> = Vec::new();
                let mut i: usize = 0;
                while i < members.len()
                    invariant
                        i <= members.len(),
                        copy.len() == i,
                        *self == Json::Object(*members),
                        members_of(Json::Object(copy), i as nat) == members_of(*self, i as nat),
                    decreases members.len() - i,
                {
                    let ghost before = Json::Object(copy);
                    copy.push((members[i].0.clone(), members[i].1.clone()));
                    proof {
                        lemma_members_same(before, Json::Object(copy), i as nat);
                    }
                    i += 1;
                }
                Json::Object(copy)
            },
        }
    }
}

impl View for Json {
    type V = JsonValue;

    open spec fn view(&self) -> JsonValue {
        value_of(*self)
    }
}

impl JsonValue {
    /// The member of an object under `key`; `None` where the value is no
    /// object or has no such member.
    pub open spec fn member(self, key: Seq<char>) -> Option<JsonValue> {
        match self {
            JsonValue::Object(members) => if members.dom().contains(key) {
                Some(members[key])
            } else {
                None
            },
            _ => None,
        }
    }

    /// The characters of a string value; `None` for any other value.
    pub open spec fn text(self) -> Option<Seq<char>> {
        match self {
            JsonValue::Text(chars) => Some(chars),
            _ => None,
        }
    }

    /// The value with the member under `key` set to `value`, where the value
    /// is an object; any other value as it is.
    pub open spec fn with_member(self, key: Seq<char>, value: JsonValue) -> JsonValue {
        match self {
            JsonValue::Object(members) => JsonValue::Object(members.insert(key, value)),
            _ => self,
        }
    }
}

/// The first `n` items of an array are modelled one by one.
pub proof fn lemma_items_of(json: Json, n: nat)
    requires
        json is Array,
        n <= json->Array_0@.len(),
    ensures
        items_of(json, n).len() == n,
        forall|k: int| 0 <= k < n ==> #[trigger] items_of(json, n)[k] == value_of(json->Array_0@[k]),
    decreases n,
{
    if n > 0 {
        lemma_items_of(json, (n - 1) as nat);
    }
}

/// Among the first `n` members of an object, the last one under a key is
/// the one that the model holds.
pub proof fn lemma_members_found(json: Json, n: nat, at: int)
    requires
        json is Object,
        n <= json->Object_0@.len(),
        0 <= at < n,
        forall|k: int| at < k < n ==> json->Object_0@[k].0@ != json->Object_0@[at].0@,
    ensures
        members_of(json, n).dom().contains(json->Object_0@[at].0@),
        members_of(json, n)[json->Object_0@[at].0@] == value_of(json->Object_0@[at].1),
    decreases n,
{
    if at < n - 1 {
        lemma_members_found(json, (n - 1) as nat, at);
    }
}

/// A key that none of the first `n` members has is not in the model.
pub proof fn lemma_members_absent(json: Json, n: nat, key: Seq<char>)
    requires
        json is Object,
        n <= json->Object_0@.len(),
        forall|k: int| 0 <= k < n ==> json->Object_0@[k].0@ != key,
    ensures
        !members_of(json, n).dom().contains(key),
    decreases n,
{
    if n > 0 {
        lemma_members_absent(json, (n - 1) as nat, key);
    }
}

/// Two objects that agree on their first `n` members agree on what those
/// members make.
pub proof fn lemma_members_same(left: Json, right: Json, n: nat)
    requires
        left is Object,
        right is Object,
        n <= left->Object_0@.len(),
        n <= right->Object_0@.len(),
        forall|k: int| 0 <= k < n ==> left->Object_0@[k] == right->Object_0@[k],
    ensures
        members_of(left, n) == members_of(right, n),
    decreases n,
{
    if n > 0 {
        lemma_members_same(left, right, (n - 1) as nat);
    }
}

/// Replacing the last member under a key, among the first `n` members, sets
/// that key in the model and leaves the other keys alone.
pub proof fn lemma_members_replaced(old: Json, new: Json, n: nat, at: int)
    requires
        old is Object,
        new is Object,
        old->Object_0@.len() == new->Object_0@.len(),
        n <= old->Object_0@.len(),
        0 <= at < old->Object_0@.len(),
        new->Object_0@[at].0@ == old->Object_0@[at].0@,
        forall|k: int| 0 <= k < n && k != at ==> old->Object_0@[k] == new->Object_0@[k],
        forall|k: int| at < k < n ==> old->Object_0@[k].0@ != old->Object_0@[at].0@,
    ensures
        at < n ==> members_of(new, n) == members_of(old, n).insert(
            new->Object_0@[at].0@,
            value_of(new->Object_0@[at].1),
        ),
        at >= n ==> members_of(new, n) == members_of(old, n),
    decreases n,
{
    if n > 0 {
        lemma_members_replaced(old, new, (n - 1) as nat, at);
        let key = new->Object_0@[at].0@;
        let value = value_of(new->Object_0@[at].1);
        if at < n - 1 {
            let last = old->Object_0@[n - 1];
            assert(members_of(old, (n - 1) as nat).insert(key, value).insert(
                last.0@,
                value_of(last.1),
            ) =~= members_of(old, (n - 1) as nat).insert(last.0@, value_of(last.1)).insert(
                key,
                value,
            ));
        } else if at == n - 1 {
            assert(members_of(old, (n - 1) as nat).insert(key, value) =~= members_of(
                old,
                (n - 1) as nat,
            ).insert(key, value_of(old->Object_0@[at].1)).insert(key, value));
        }
    }
}

impl Json {
    /// This value with the member under `key` set to `value`: an object
    /// gets the member, replacing the one it had; any other value is handed
    /// back as it is.
    pub fn with_member(self, key: String, value: Json) -> (out: Json)
        ensures
            out@ == self@.with_member(key@, value@),
    {
        match self {
            Json::Object(mut members) => {
                let ghost old = Json::Object(members);
                let mut i: usize = members.len();
                while i > 0
                    invariant
                        i <= members.len(),
                        old == self,
                        old == Json::Object(members),
                        forall|k: int| i <= k < members.len() ==> members@[k].0@ != key@,
                    decreases i,
                {
                    i -= 1;
                    if crate::text::same_text(members[i].0.as_str(), key.as_str()) {
                        members.set(i, (key, value));
                        proof {
                            lemma_members_replaced(
                                old,
                                Json::Object(members),
                                members@.len(),
                                i as int,
                            );
                        }
                        return Json::Object(members);
                    }
                }
                members.push((key, value));
                proof {
                    lemma_members_same(old, Json::Object(members), old->Object_0@.len());
                }
                Json::Object(members)
            },
            other => other,
        }
    }

    /// The member of an object under `key`.
    pub fn get(&self, key: &str) -> (found: Option<&Json>)
        ensures
            match found {
                Some(value) => self@.member(key@) == Some(value@),
                None => self@.member(key@) is None,
            },
    {
        match self {
            Json::Object(members) => {
                let mut i: usize = members.len();
                while i > 0
                    invariant
                        i <= members.len(),
                        *self == Json::Object(*members),
                        forall|k: int| i <= k < members.len() ==> members@[k].0@ != key@,
                    decreases i,
                {
                    i -= 1;
                    if crate::text::same_text(members[i].0.as_str(), key) {
                        proof {
                            lemma_members_found(*self, members@.len(), i as int);
                        }
                        return Some(&members[i].1);
                    }
                }
                proof {
                    lemma_members_absent(*self, members@.len(), key@);
                }
                None
            },
            _ => None,
        }
    }

    /// The text of a string value.
    pub fn as_text(&self) -> (text: Option<&str>)
        ensures
            match text {
                Some(chars) => self@.text() == Some(chars@),
                None => self@.text() is None,
            },
    {
        match self {
            Json::Text(chars) => Some(chars.as_str()),
            _ => None,
        }
    }
}

/// `serde_json::Value`, which the decoding of a line hands over.
#[verifier::external_type_specification]
#[verifier::external_body]
pub struct ExValue(serde_json::Value);

/// What `serde_json::from_str` reads a text as: the value that the text
/// writes in JSON, or `None` where the text is not one JSON value.
pub uninterp spec fn decoded(text: Seq<char>) -> Option<JsonValue>;

/// `serde_json::Number`, the number that a `serde_json::Value` holds.
#[verifier::external_type_specification]
#[verifier::external_body]
pub struct ExNumber(serde_json::Number);

/// Converts a `serde_json::Number`: what `as_u64` gives, else what `as_i64`
/// gives, else the number as its `Display` writes it, which is how JSON
/// writes it.
#[verifier::external_body]
fn number_from_outside(number: &serde_json::Number) -> Numeral {
    match (number.as_u64(), number.as_i64()) {
        (Some(u), _) => Numeral::PosInt(u),
        (None, Some(i)) => Numeral::NegInt(i),
        (None, None) => Numeral::Float(number.to_string()),
    }
}

/// Converts a `serde_json::Value` node by node: each variant to the variant
/// of the same kind, the members of an object in the order in which its map
/// yields them.
#[verifier::external_body]
fn from_outside(value: &serde_json::Value) -> Json {
    match value {
        serde_json::Value::Null => Json::Null,
        serde_json::Value::Bool(b) => Json::Bool(*b),
        serde_json::Value::Number(n) => Json::Number(number_from_outside(n)),
        serde_json::Value::String(s) => Json::Text(s.clone()),
        serde_json::Value::Array(items) => Json::Array(items.iter().map(from_outside).collect()),
        serde_json::Value::Object(members) => Json::Object(
            members.iter().map(|(key, member)| (key.clone(), from_outside(member))).collect(),
        ),
    }
}

/// Converts a [`Numeral`] back: a whole number by `Number::from`, any other
/// by parsing its text as a `serde_json::Number`; a text that writes no
/// number gives null.
#[verifier::external_body]
fn number_to_outside(number: &Numeral) -> serde_json::Value {
    match number {
        Numeral::PosInt(u) => serde_json::Value::Number(serde_json::Number::from(*u)),
        Numeral::NegInt(i) => serde_json::Value::Number(serde_json::Number::from(*i)),
        Numeral::Float(text) => match text.parse::<serde_json::Number>() {
            Ok(number) => serde_json::Value::Number(number),
            Err(_) => serde_json::Value::Null,
        },
    }
}

/// Converts the members of an object: each is put into a `serde_json::Map`
/// in its turn by `Map::insert`, which replaces what the map held under the
/// key, so that the last member of a key is the one that stays.
#[verifier::external_body]
fn members_to_outside(members: &Vec<(String, Json)>) -> serde_json::Value {
    let mut map = serde_json::Map::new();
    for (key, member) in members {
        map.insert(key.clone(), to_outside(member));
    }
    serde_json::Value::Object(map)
}

/// Converts a [`Json`] into a `serde_json::Value` node by node: each variant
/// to the variant of the same kind.
#[verifier::external_body]
fn to_outside(json: &Json) -> serde_json::Value {
    match json {
        Json::Null => serde_json::Value::Null,
        Json::Bool(b) => serde_json::Value::Bool(*b),
        Json::Number(n) => number_to_outside(n),
        Json::Text(s) => serde_json::Value::String(s.clone()),
        Json::Array(items) => serde_json::Value::Array(items.iter().map(to_outside).collect()),
        Json::Object(members) => members_to_outside(members),
    }
}

/// What `Value::pointer` finds in a value by a JSON pointer: the pointer is
/// cut at each `/` into keys, in which `~1` stands for `/` and `~0` for `~`;
/// each key in turn names a member of an object or, as a decimal number,
/// an item of an array; `None` where a key names nothing.
pub uninterp spec fn pointed(value: JsonValue, pointer: Seq<char>) -> Option<JsonValue>;

/// `Value::pointer` on the `serde_json::Value` that a [`Json`] converts to,
/// with what it finds converted back: the result is the value that the name
/// [`pointed`] stands for.
#[verifier::external_body]
pub(crate) fn find_pointed(json: &Json, pointer: &str) -> (found: Option<Json>)
    ensures
        match found {
            Some(value) => pointed(json@, pointer@) == Some(value@),
            None => pointed(json@, pointer@) is None,
        },
{
    match to_outside(json).pointer(pointer) {
        Some(value) => Some(from_outside(value)),
        None => None,
    }
}

/// What `serde_json::to_string` writes of a value: its compact JSON text,
/// the members of an object in the order of their keys.
pub uninterp spec fn encoded(value: JsonValue) -> Seq<char>;

/// `serde_json::to_string` of the `serde_json::Value` that a [`Json`]
/// converts to: the result is the text that the name [`encoded`] stands
/// for.
#[verifier::external_body]
fn encode_json(json: &Json) -> (text: String)
    ensures
        text@ == encoded(json@),
{
    serde_json::to_string(&to_outside(json)).unwrap_or_default()
}

/// `serde_json::from_str` into a `serde_json::Value`, converted to a
/// [`Json`]: the result is the value that the name [`decoded`] stands for.
#[verifier::external_body]
fn decode_text(text: &str) -> (json: Option<Json>)
    ensures
        match json {
            Some(value) => decoded(text@) == Some(value@),
            None => decoded(text@) is None,
        },
{
    match serde_json::from_str::<serde_json::Value>(text) {
        Ok(value) => Some(from_outside(&value)),
        Err(_) => None,
    }
}

impl Json {
    /// Writes the value as compact JSON text, the members of an object in
    /// the order of their keys. A number whose text writes no JSON number
    /// is written as `null`.
    pub fn encode(&self) -> (text: String)
        ensures
            text@ == encoded(self@),
    {
        encode_json(self)
    }

    /// Reads one line as a record; `None` where the line is not JSON.
    pub fn decode(line: &str) -> (json: Option<Json>)
        ensures
            match json {
                Some(value) => decoded(line@) == Some(value@),
                None => decoded(line@) is None,
            },
    {
        decode_text(line)
    }
}

} // verus!

//! Counting by group: the stage that consumes every record before it yields
//! any.
//!
//! The groups are kept in a list, each where its first record put it, so
//! that the order in which they come out is that of their first records and
//! not that of a hash.

use vstd::prelude::*;
use crate::json::{Json, JsonValue, Numeral, NumeralModel, values_of};
use crate::text::{optional_texts, same_text, strings_model};

verus! {

/// The key by which a record is grouped: for each field, the string that the
/// record holds under it at top level, or `None` where it holds no string.
pub open spec fn group_key(record: JsonValue, fields: Seq<Seq<char>>) -> Seq<Option<Seq<char>>> {
    Seq::new(
        fields.len(),
        |i: int|
            match record.member(fields[i]) {
                Some(value) => value.text(),
                None => None,
            },
    )
}

/// How many of the records have the key.
pub open spec fn occurrences(
    records: Seq<JsonValue>,
    fields: Seq<Seq<char>>,
    key: Seq<Option<Seq<char>>>,
) -> nat
    decreases records.len(),
{
    if records.len() == 0 {
        0
    } else {
        occurrences(records.drop_last(), fields, key) + if group_key(records.last(), fields)
            == key {
            1nat
        } else {
            0nat
        }
    }
}

/// The distinct keys of the records, each where it first occurs.
pub open spec fn keys_seen(records: Seq<JsonValue>, fields: Seq<Seq<char>>) -> Seq<
    Seq<Option<Seq<char>>>,
>
    decreases records.len(),
{
    if records.len() == 0 {
        Seq::empty()
    } else {
        let before = keys_seen(records.drop_last(), fields);
        let key = group_key(records.last(), fields);
        if before.contains(key) {
            before
        } else {
            before.push(key)
        }
    }
}

/// What a key holds for one field, as a value: the string, or null.
pub open spec fn key_value(part: Option<Seq<char>>) -> JsonValue {
    match part {
        Some(text) => JsonValue::Text(text),
        None => JsonValue::Null,
    }
}

/// An empty object with the first `n` fields of a key written into it, in
/// order.
pub open spec fn keyed(fields: Seq<Seq<char>>, key: Seq<Option<Seq<char>>>, n: nat) -> JsonValue
    decreases n,
{
    if n == 0 {
        JsonValue::Object(Map::empty())
    } else {
        keyed(fields, key, (n - 1) as nat).with_member(fields[n - 1], key_value(key[n - 1]))
    }
}

/// The record that stands for a group: each field with what the key holds
/// for it, then `_count` with the size of the group.
pub open spec fn count_record(
    fields: Seq<Seq<char>>,
    key: Seq<Option<Seq<char>>>,
    count: nat,
) -> JsonValue {
    keyed(fields, key, fields.len()).with_member(
        "_count"@,
        JsonValue::Number(NumeralModel::PosInt(count as u64)),
    )
}

/// The result of counting by the fields: one record for each distinct key,
/// in the order in which the keys first occur.
pub open spec fn counted(records: Seq<JsonValue>, fields: Seq<Seq<char>>) -> Seq<JsonValue> {
    let keys = keys_seen(records, fields);
    Seq::new(
        keys.len(),
        |i: int| count_record(fields, keys[i], occurrences(records, fields, keys[i])),
    )
}

/// Whether one of the records has the key.
pub open spec fn has_key(
    records: Seq<JsonValue>,
    fields: Seq<Seq<char>>,
    key: Seq<Option<Seq<char>>>,
) -> bool {
    exists|i: int| 0 <= i < records.len() && #[trigger] group_key(records[i], fields) == key
}

/// No key is counted more often than there are records.
pub proof fn lemma_occurrences_bounded(
    records: Seq<JsonValue>,
    fields: Seq<Seq<char>>,
    key: Seq<Option<Seq<char>>>,
)
    ensures
        occurrences(records, fields, key) <= records.len(),
    decreases records.len(),
{
    if records.len() > 0 {
        lemma_occurrences_bounded(records.drop_last(), fields, key);
    }
}

/// The keys seen are those of the records, and each is there once.
pub proof fn lemma_keys_seen(records: Seq<JsonValue>, fields: Seq<Seq<char>>)
    ensures
        forall|i: int, j: int|
            0 <= i < j < keys_seen(records, fields).len() ==> keys_seen(records, fields)[i]
                != keys_seen(records, fields)[j],
        forall|i: int|
            0 <= i < records.len() ==> keys_seen(records, fields).contains(
                #[trigger] group_key(records[i], fields),
            ),
        forall|k: int|
            0 <= k < keys_seen(records, fields).len() ==> has_key(
                records,
                fields,
                #[trigger] keys_seen(records, fields)[k],
            ),
    decreases records.len(),
{
    if records.len() > 0 {
        let shorter = records.drop_last();
        lemma_keys_seen(shorter, fields);
        let before = keys_seen(shorter, fields);
        let key = group_key(records.last(), fields);
        let after = keys_seen(records, fields);
        assert forall|i: int| 0 <= i < records.len() implies after.contains(
            #[trigger] group_key(records[i], fields),
        ) by {
            if i < records.len() - 1 {
                assert(records[i] == shorter[i]);
                let at = choose|at: int|
                    0 <= at < before.len() && before[at] == group_key(shorter[i], fields);
                assert(after[at] == group_key(records[i], fields));
            } else {
                if before.contains(key) {
                } else {
                    assert(after[after.len() - 1] == key);
                }
            }
        }
        assert forall|k: int| 0 <= k < after.len() implies has_key(
            records,
            fields,
            #[trigger] after[k],
        ) by {
            if k < before.len() {
                assert(has_key(shorter, fields, before[k]));
                let i = choose|i: int|
                    0 <= i < shorter.len() && #[trigger] group_key(shorter[i], fields)
                        == before[k];
                assert(records[i] == shorter[i]);
                assert(group_key(records[i], fields) == after[k]);
            } else {
                assert(group_key(records[records.len() - 1], fields) == after[k]);
            }
        }
    }
}

/// A key that no record has is counted zero times.
pub proof fn lemma_occurrences_none(
    records: Seq<JsonValue>,
    fields: Seq<Seq<char>>,
    key: Seq<Option<Seq<char>>>,
)
    requires
        !has_key(records, fields, key),
    ensures
        occurrences(records, fields, key) == 0,
    decreases records.len(),
{
    if records.len() > 0 {
        let shorter = records.drop_last();
        assert forall|i: int| 0 <= i < shorter.len() implies #[trigger] group_key(
            shorter[i],
            fields,
        ) != key by {
            assert(shorter[i] == records[i]);
            assert(group_key(records[i], fields) != key);
        }
        lemma_occurrences_none(shorter, fields, key);
        assert(group_key(records[records.len() - 1], fields) != key);
    }
}

/// The models of a list of keys.
pub open spec fn keys_model(keys: Seq<Vec<Option<String>>>) -> Seq<Seq<Option<Seq<char>>>> {
    Seq::new(keys.len(), |i: int| optional_texts(keys[i]@))
}

fn key_of(record: &Json, fields: &Vec<String>) -> (key: Vec<Option<String>>)
    ensures
        optional_texts(key@) == group_key(record@, strings_model(fields@)),
{
    let mut key: Vec<Option<String>> = Vec::new();
    let mut i: usize = 0;
    while i < fields.len()
        invariant
            i <= fields.len(),
            key.len() == i,
            forall|k: int|
                0 <= k < i ==> optional_texts(seq![#[trigger] key@[k]])[0] == group_key(
                    record@,
                    strings_model(fields@),
                )[k],
        decreases fields.len() - i,
    {
        let part = match record.get(fields[i].as_str()) {
            Some(value) => match value.as_text() {
                Some(text) => Some(text.to_owned()),
                None => None,
            },
            None => None,
        };
        key.push(part);
        i += 1;
    }
    assert(optional_texts(key@) =~= group_key(record@, strings_model(fields@)));
    key
}

fn same_key(left: &Vec<Option<String>>, right: &Vec<Option<String>>) -> (same: bool)
    ensures
        same == (optional_texts(left@) == optional_texts(right@)),
{
    if left.len() != right.len() {
        assert(optional_texts(left@).len() != optional_texts(right@).len());
        return false;
    }
    let mut i: usize = 0;
    while i < left.len()
        invariant
            i <= left.len(),
            left.len() == right.len(),
            forall|k: int|
                0 <= k < i ==> (#[trigger] optional_texts(left@)[k]) == optional_texts(right@)[k],
        decreases left.len() - i,
    {
        let agree = match (&left[i], &right[i]) {
            (Some(a), Some(b)) => same_text(a.as_str(), b.as_str()),
            (None, None) => true,
            _ => false,
        };
        if !agree {
            assert(optional_texts(left@)[i as int] != optional_texts(right@)[i as int]);
            return false;
        }
        i += 1;
    }
    assert(optional_texts(left@) =~= optional_texts(right@));
    true
}

fn position(keys: &Vec<Vec<Option<String>>>, key: &Vec<Option<String>>) -> (found: Option<usize>)
    ensures
        match found {
            Some(at) => at < keys.len() && keys_model(keys@)[at as int] == optional_texts(key@),
            None => !keys_model(keys@).contains(optional_texts(key@)),
        },
{
    let mut i: usize = 0;
    while i < keys.len()
        invariant
            i <= keys.len(),
            forall|k: int| 0 <= k < i ==> (#[trigger] keys_model(keys@)[k]) != optional_texts(key@),
        decreases keys.len() - i,
    {
        if same_key(&keys[i], key) {
            return Some(i);
        }
        i += 1;
    }
    None
}

fn group_record(fields: &Vec<String>, key: &Vec<Option<String>>, count: usize) -> (record: Json)
    requires
        key.len() == fields.len(),
    ensures
        record@ == count_record(strings_model(fields@), optional_texts(key@), count as nat),
{
    let mut record = Json::Object(Vec::new());
    assert(record@ == JsonValue::Object(Map::<Seq<char>, JsonValue>::empty())) by {
        assert(crate::json::members_of(record, 0) =~= Map::<Seq<char>, JsonValue>::empty());
    }
    let mut i: usize = 0;
    while i < fields.len()
        invariant
            i <= fields.len(),
            key.len() == fields.len(),
            record@ == keyed(strings_model(fields@), optional_texts(key@), i as nat),
        decreases fields.len() - i,
    {
        let value = match &key[i] {
            Some(text) => Json::Text(text.clone()),
            None => Json::Null,
        };
        record = record.with_member(fields[i].clone(), value);
        i += 1;
    }
    record.with_member("_count".to_owned(), Json::Number(Numeral::PosInt(count as u64)))
}

/// Counts the records by the fields: one record comes out for each distinct
/// key, in the order in which the keys first occur, with the fields of the
/// key and the size of the group under `_count`.
pub fn count_by(records: &Vec<Json>, fields: &Vec<String>) -> (out: Vec<Json>)
    ensures
        values_of(out@) == counted(values_of(records@), strings_model(fields@)),
{
    let ghost all = values_of(records@);
    let ghost names = strings_model(fields@);
    let mut keys: Vec<Vec<Option<String>>> = Vec::new();
    let mut counts: Vec<usize> = Vec::new();
    let mut i: usize = 0;
    assert(keys_model(keys@) =~= keys_seen(all.take(0), names));
    while i < records.len()
        invariant
            i <= records.len(),
            all == values_of(records@),
            names == strings_model(fields@),
            keys.len() == counts.len(),
            keys_model(keys@) == keys_seen(all.take(i as int), names),
            forall|k: int|
                0 <= k < keys.len() ==> (#[trigger] counts@[k]) == occurrences(
                    all.take(i as int),
                    names,
                    keys_model(keys@)[k],
                ),
            forall|k: int| 0 <= k < keys.len() ==> (#[trigger] keys@[k]).len() == fields.len(),
        decreases records.len() - i,
    {
        let key = key_of(&records[i], fields);
        let ghost seen = all.take(i as int);
        let ghost next = all.take(i + 1);
        let ghost model = optional_texts(key@);
        let ghost before = keys_model(keys@);
        proof {
            assert(next.drop_last() =~= seen);
            assert(next.last() == records@[i as int]@);
            assert(model.len() == names.len());
            lemma_keys_seen(seen, names);
        }
        match position(&keys, &key) {
            Some(at) => {
                proof {
                    lemma_occurrences_bounded(seen, names, model);
                }
                let count = counts[at];
                counts.set(at, count + 1);
                assert(keys_model(keys@) == keys_seen(next, names));
                assert forall|k: int| 0 <= k < keys.len() implies (#[trigger] counts@[k])
                    == occurrences(next, names, keys_model(keys@)[k]) by {
                    if k != at {
                        assert(before[k] != before[at as int]);
                    }
                }
            },
            None => {
                proof {
                    if has_key(seen, names, model) {
                        let at = choose|at: int|
                            0 <= at < seen.len() && #[trigger] group_key(seen[at], names) == model;
                        assert(keys_seen(seen, names).contains(group_key(seen[at], names)));
                    }
                    lemma_occurrences_none(seen, names, model);
                }
                keys.push(key);
                counts.push(1);
                assert(keys_model(keys@) =~= before.push(model));
                assert forall|k: int| 0 <= k < keys.len() implies (#[trigger] counts@[k])
                    == occurrences(next, names, keys_model(keys@)[k]) by {
                    if k < before.len() {
                        assert(before.contains(before[k]));
                        assert(before[k] != model);
                    }
                }
            },
        }
        i += 1;
    }
    assert(all.take(i as int) =~= all);
    let mut out: Vec<Json> = Vec::new();
    let mut k: usize = 0;
    while k < keys.len()
        invariant
            k <= keys.len(),
            keys.len() == counts.len(),
            out.len() == k,
            names == strings_model(fields@),
            keys_model(keys@) == keys_seen(all, names),
            forall|j: int|
                0 <= j < keys.len() ==> (#[trigger] counts@[j]) == occurrences(
                    all,
                    names,
                    keys_model(keys@)[j],
                ),
            forall|j: int| 0 <= j < keys.len() ==> (#[trigger] keys@[j]).len() == fields.len(),
            forall|j: int| 0 <= j < k ==> (#[trigger] out@[j])@ == counted(all, names)[j],
        decreases keys.len() - k,
    {
        let record = group_record(fields, &keys[k], counts[k]);
        assert(keys_model(keys@)[k as int] == optional_texts(keys@[k as int]@));
        out.push(record);
        k += 1;
    }
    assert(values_of(out@) =~= counted(all, names));
    out
}

} // verus!

//! The descending sort: a last step that a caller may take on the records
//! that a query yields. It is no stage of a plan.
//!
//! Records are ordered by the JSON text of what they hold under one
//! top-level field, compared as strings, the greater text first. There is
//! no ascending sort.

use vstd::prelude::*;
use crate::json::{Json, JsonValue, encoded, values_of};
use crate::text::{comes_before, lemma_precedes_irreflexive, lemma_precedes_transitive, precedes};

verus! {

/// The text by which a record is sorted: the JSON text of what it holds
/// under the field, or of null where it holds nothing there.
pub open spec fn sort_key(record: JsonValue, field: Seq<char>) -> Seq<char> {
    match record.member(field) {
        Some(value) => encoded(value),
        None => encoded(JsonValue::Null),
    }
}

/// Where a record with the given key goes into sorted records: before the
/// first record whose key comes before its own, and so behind every record
/// of the same key.
pub open spec fn place(sorted: Seq<JsonValue>, field: Seq<char>, key: Seq<char>) -> int
    decreases sorted.len(),
{
    if sorted.len() == 0 {
        0
    } else if precedes(sort_key(sorted[0], field), key) {
        0
    } else {
        1 + place(sorted.skip(1), field, key)
    }
}

/// The records sorted: each record, in the order of the input, is put into
/// the sorted records before it at its place.
pub open spec fn sorted_descending(records: Seq<JsonValue>, field: Seq<char>) -> Seq<JsonValue>
    decreases records.len(),
{
    if records.len() == 0 {
        Seq::empty()
    } else {
        let before = sorted_descending(records.drop_last(), field);
        before.insert(place(before, field, sort_key(records.last(), field)), records.last())
    }
}

/// The place of a key is the first position whose record has a key that
/// comes before it.
pub proof fn lemma_place(sorted: Seq<JsonValue>, field: Seq<char>, key: Seq<char>, at: int)
    requires
        0 <= at <= sorted.len(),
        forall|k: int| 0 <= k < at ==> !precedes(sort_key(#[trigger] sorted[k], field), key),
        at == sorted.len() || precedes(sort_key(sorted[at], field), key),
    ensures
        place(sorted, field, key) == at,
    decreases at,
{
    if at > 0 {
        let rest = sorted.skip(1);
        assert(!precedes(sort_key(sorted[0], field), key));
        assert forall|k: int| 0 <= k < at - 1 implies !precedes(
            sort_key(#[trigger] rest[k], field),
            key,
        ) by {
            assert(rest[k] == sorted[k + 1]);
        }
        lemma_place(rest, field, key, at - 1);
    }
}

/// The place of a key lies in the sorted records or at their end; no record
/// before it has a key that comes before the key, and the record at it has
/// one.
pub proof fn lemma_place_found(sorted: Seq<JsonValue>, field: Seq<char>, key: Seq<char>)
    ensures
        0 <= place(sorted, field, key) <= sorted.len(),
        forall|k: int|
            0 <= k < place(sorted, field, key) ==> !precedes(
                sort_key(#[trigger] sorted[k], field),
                key,
            ),
        place(sorted, field, key) < sorted.len() ==> precedes(
            sort_key(sorted[place(sorted, field, key)], field),
            key,
        ),
    decreases sorted.len(),
{
    if sorted.len() > 0 && !precedes(sort_key(sorted[0], field), key) {
        let rest = sorted.skip(1);
        lemma_place_found(rest, field, key);
        assert forall|k: int| 0 <= k < place(sorted, field, key) implies !precedes(
            sort_key(#[trigger] sorted[k], field),
            key,
        ) by {
            if k > 0 {
                assert(rest[k - 1] == sorted[k]);
            }
        }
        if place(sorted, field, key) < sorted.len() {
            assert(rest[place(rest, field, key)] == sorted[place(sorted, field, key)]);
        }
    }
}

/// Sorting keeps every record, as often as it was there.
pub proof fn law_sorted_permutes(records: Seq<JsonValue>, field: Seq<char>)
    ensures
        sorted_descending(records, field).to_multiset() == records.to_multiset(),
        sorted_descending(records, field).len() == records.len(),
    decreases records.len(),
{
    if records.len() > 0 {
        let shorter = records.drop_last();
        let before = sorted_descending(shorter, field);
        let at = place(before, field, sort_key(records.last(), field));
        law_sorted_permutes(shorter, field);
        lemma_place_found(before, field, sort_key(records.last(), field));
        vstd::seq_lib::to_multiset_insert(before, at, records.last());
        vstd::seq_lib::to_multiset_build(shorter, records.last());
        assert(shorter.push(records.last()) =~= records);
    } else {
        assert(records =~= sorted_descending(records, field));
    }
}

/// In the sorted records no record stands before one of a greater key.
pub proof fn law_sorted_descends(records: Seq<JsonValue>, field: Seq<char>, i: int, j: int)
    requires
        0 <= i < j < sorted_descending(records, field).len(),
    ensures
        !precedes(
            sort_key(sorted_descending(records, field)[i], field),
            sort_key(sorted_descending(records, field)[j], field),
        ),
    decreases records.len(),
{
    if records.len() > 0 {
        let before = sorted_descending(records.drop_last(), field);
        let key = sort_key(records.last(), field);
        let at = place(before, field, key);
        let after = sorted_descending(records, field);
        lemma_place_found(before, field, key);
        if j < at {
            law_sorted_descends(records.drop_last(), field, i, j);
        } else if j == at {
            assert(after[i] == before[i]);
        } else if i > at {
            law_sorted_descends(records.drop_last(), field, i - 1, j - 1);
        } else if i < at {
            law_sorted_descends(records.drop_last(), field, i, j - 1);
        } else {
            let other = sort_key(before[j - 1], field);
            let first = sort_key(before[at], field);
            if precedes(key, other) {
                lemma_precedes_transitive(first, key, other);
                if j - 1 > at {
                    law_sorted_descends(records.drop_last(), field, at, j - 1);
                } else {
                    lemma_precedes_irreflexive(first);
                }
            }
        }
    }
}

/// Sorts records by what they hold under a top-level field, the greater
/// first: the keys are the JSON texts of the values, null for a record
/// without the field, and they are compared as strings. A record goes
/// behind the records of the same key that came before it.
pub fn sort_descending(records: Vec<Json>, field: &str) -> (out: Vec<Json>)
    ensures
        values_of(out@) == sorted_descending(values_of(records@), field@),
{
    let ghost all = values_of(records@);
    let mut out: Vec<Json> = Vec::new();
    let mut keys: Vec<String> = Vec::new();
    assert(values_of(out@) =~= sorted_descending(all.take(0), field@));
    for record in it: records
        invariant
            values_of(it.seq()) == all,
            keys.len() == out.len(),
            forall|k: int| 0 <= k < out.len() ==> (#[trigger] keys@[k])@ == sort_key(out@[k]@, field@),
            values_of(out@) == sorted_descending(all.take(it.index() as int), field@),
    {
        let ghost before = values_of(out@);
        proof {
            let next = all.take(it.index() + 1);
            assert(next.drop_last() =~= all.take(it.index() as int));
            assert(next.last() == record@);
        }
        let key = match record.get(field) {
            Some(value) => value.encode(),
            None => Json::Null.encode(),
        };
        let mut at: usize = 0;
        while at < out.len() && !comes_before(keys[at].as_str(), key.as_str())
            invariant
                at <= out.len(),
                keys.len() == out.len(),
                before == values_of(out@),
                forall|k: int|
                    0 <= k < out.len() ==> (#[trigger] keys@[k])@ == sort_key(out@[k]@, field@),
                forall|k: int| 0 <= k < at ==> !precedes(sort_key(#[trigger] before[k], field@), key@),
            decreases out.len() - at,
        {
            assert(before[at as int] == out@[at as int]@);
            at += 1;
        }
        proof {
            if at < out.len() {
                assert(before[at as int] == out@[at as int]@);
            }
            lemma_place(before, field@, key@, at as int);
        }
        out.insert(at, record);
        keys.insert(at, key);
        assert(values_of(out@) =~= before.insert(at as int, record@));
    }
    assert(all.take(all.len() as int) =~= all);
    out
}

} // verus!

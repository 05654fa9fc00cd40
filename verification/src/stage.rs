//! What each record stage does to a record or to a run of records.

use vstd::prelude::*;
use crate::ast::Comparison;
use crate::json::{Json, JsonValue};
use crate::pattern::{Pattern, captures_of};
use crate::text::{contains, occurs_in, optional_texts, same_text, strings_model};

verus! {

/// Whether a filter keeps a record. A field that is missing or holds no
/// string equals nothing: `Eq` and `Match` drop the record, `Ne` keeps it.
pub open spec fn filter_keeps(
    record: JsonValue,
    field: Seq<char>,
    comparison: Comparison,
    value: Seq<char>,
) -> bool {
    match comparison {
        Comparison::Eq => record.text_at(field) == Some(value),
        Comparison::Ne => record.text_at(field) != Some(value),
        Comparison::Match => record.text_at(field) matches Some(text) && occurs_in(value, text),
    }
}

/// The capture group bound to the binding at `index`: group `index + 1`.
pub open spec fn captured(groups: Seq<Option<Seq<char>>>, index: int) -> Option<Seq<char>> {
    if 0 <= index && index + 1 < groups.len() {
        groups[index + 1]
    } else {
        None
    }
}

/// Whether every binding has a group that took part in the match.
pub open spec fn all_captured(names: Seq<Seq<char>>, groups: Seq<Option<Seq<char>>>) -> bool {
    forall|i: int| 0 <= i < names.len() ==> (#[trigger] captured(groups, i)) is Some
}

/// A record after its first `n` bindings were written, in order, as
/// top-level string fields.
pub open spec fn bound_upto(
    record: JsonValue,
    names: Seq<Seq<char>>,
    groups: Seq<Option<Seq<char>>>,
    n: nat,
) -> JsonValue
    decreases n,
{
    if n == 0 {
        record
    } else {
        bound_upto(record, names, groups, (n - 1) as nat).with_member(
            names[n - 1],
            JsonValue::Text(captured(groups, n - 1)->0),
        )
    }
}

/// What binding the groups of a match does to a record. The record is
/// dropped where a binding has no group, or where there is a binding to
/// write and the record is no object.
pub open spec fn bind(
    record: JsonValue,
    names: Seq<Seq<char>>,
    groups: Seq<Option<Seq<char>>>,
) -> Option<JsonValue> {
    if !all_captured(names, groups) {
        None
    } else if names.len() > 0 && !(record is Object) {
        None
    } else {
        Some(bound_upto(record, names, groups, names.len()))
    }
}

/// What a parse stage does to a record: it is dropped where the field holds
/// no string or the pattern does not match it, else the groups are bound.
pub open spec fn parse_record(
    record: JsonValue,
    field: Seq<char>,
    pattern: Seq<char>,
    names: Seq<Seq<char>>,
) -> Option<JsonValue> {
    match record.text_at(field) {
        None => None,
        Some(text) => match captures_of(pattern, text) {
            None => None,
            Some(groups) => bind(record, names, groups),
        },
    }
}

/// Decides whether a filter keeps a record.
pub fn keeps(record: &Json, field: &str, comparison: Comparison, value: &str) -> (kept: bool)
    ensures
        kept == filter_keeps(record@, field@, comparison, value@),
{
    let found = record.text_at(field);
    match comparison {
        Comparison::Eq => match found {
            Some(text) => same_text(text.as_str(), value),
            None => false,
        },
        Comparison::Ne => match found {
            Some(text) => !same_text(text.as_str(), value),
            None => true,
        },
        Comparison::Match => match found {
            Some(text) => contains(text.as_str(), value),
            None => false,
        },
    }
}

/// Writes the groups of a match into a record, one top-level string field
/// for each binding.
pub fn bind_groups(record: Json, names: &Vec<String>, groups: &Vec<Option<String>>) -> (out:
    Option<Json>)
    ensures
        match out {
            Some(bound) => bind(record@, strings_model(names@), optional_texts(groups@)) == Some(
                bound@,
            ),
            None => bind(record@, strings_model(names@), optional_texts(groups@)) is None,
        },
{
    let ghost model = strings_model(names@);
    let ghost found = optional_texts(groups@);
    let mut i: usize = 0;
    while i < names.len()
        invariant
            i <= names.len(),
            forall|k: int| 0 <= k < i ==> (#[trigger] captured(found, k)) is Some,
            found == optional_texts(groups@),
        decreases names.len() - i,
    {
        if i + 1 >= groups.len() || groups[i + 1].is_none() {
            assert(captured(found, i as int) is None);
            return None;
        }
        i += 1;
    }
    if names.len() > 0 {
        match record {
            Json::Object(_) => {},
            _ => {
                return None;
            },
        }
    }
    let ghost start = record@;
    let mut bound = record;
    let mut j: usize = 0;
    while j < names.len()
        invariant
            j <= names.len(),
            model == strings_model(names@),
            found == optional_texts(groups@),
            all_captured(model, found),
            bound@ == bound_upto(start, model, found, j as nat),
        decreases names.len() - j,
    {
        assert(captured(found, j as int) is Some);
        let text = match &groups[j + 1] {
            Some(text) => text.clone(),
            None => String::new(),
        };
        bound = bound.with_member(names[j].clone(), Json::Text(text));
        j += 1;
    }
    Some(bound)
}

/// Applies a parse stage to a record.
pub fn extract(record: Json, field: &str, pattern: &Pattern, names: &Vec<String>) -> (out: Option<
    Json,
>)
    ensures
        match out {
            Some(bound) => parse_record(record@, field@, pattern.source(), strings_model(names@))
                == Some(bound@),
            None => parse_record(record@, field@, pattern.source(), strings_model(names@)) is None,
        },
{
    let found = match record.text_at(field) {
        Some(text) => pattern.captures(text.as_str()),
        None => None,
    };
    match found {
        Some(groups) => bind_groups(record, names, &groups),
        None => None,
    }
}

} // verus!

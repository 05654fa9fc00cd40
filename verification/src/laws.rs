//! What holds of every query, every line and every record.

use vstd::prelude::*;
use crate::ast::{Comparison, SearchModel, TermModel};
use crate::count::{
    count_record, counted, group_key, has_key, key_value, keyed, keys_seen, lemma_keys_seen,
    occurrences,
};
use crate::engine::results;
use crate::json::{JsonValue, NumeralModel};
use crate::pattern::captures_of;
use crate::plan::{decoded_all, line_survives, surviving, term_keeps};
use crate::stage::{all_captured, bind, bound_upto, captured, filter_keeps, parse_record};
use crate::text::occurs_in;

verus! {

/// White space gives no token.
pub proof fn lemma_blanks_lex(input: Seq<char>, from: int)
    requires
        0 <= from <= input.len(),
        forall|i: int| 0 <= i < input.len() ==> crate::lexer::is_blank(#[trigger] input[i]),
    ensures
        crate::lexer::lex_from(input, from, Seq::empty()) == Ok::<Seq<crate::lexer::Lexeme>, int>(
            Seq::empty(),
        ),
    decreases input.len() - from,
{
    if from < input.len() {
        lemma_blanks_lex(input, from + 1);
    }
}

/// A query of white space alone, the empty text among them, is the query
/// without terms, transforms and sort.
pub proof fn law_blank_query(input: Seq<char>)
    requires
        forall|i: int| 0 <= i < input.len() ==> crate::lexer::is_blank(#[trigger] input[i]),
    ensures
        crate::grammar::parse_query(input) == Ok::<SearchModel, int>(
            SearchModel { terms: Seq::empty(), transforms: Seq::empty(), sort: None },
        ),
{
    lemma_blanks_lex(input, 0);
}

/// Without search terms every line survives.
pub proof fn lemma_no_terms(lines: Seq<Seq<char>>)
    ensures
        surviving(Seq::empty(), lines) == lines,
    decreases lines.len(),
{
    if lines.len() > 0 {
        lemma_no_terms(lines.drop_last());
        assert(lines.drop_last().push(lines.last()) =~= lines);
    } else {
        assert(lines =~= Seq::<Seq<char>>::empty());
    }
}

/// A query without search terms and without transforms yields the records
/// that its lines decode to, unchanged and in the order of the lines,
/// whatever its sort.
pub proof fn law_empty_query_is_identity(search: SearchModel, lines: Seq<Seq<char>>)
    requires
        search.terms.len() == 0,
        search.transforms.len() == 0,
    ensures
        results(search, lines) == decoded_all(lines),
{
    assert(search.terms =~= Seq::<TermModel>::empty());
    lemma_no_terms(lines);
}

/// A line survives an including term exactly when it contains the text of
/// the term, and an excluding term exactly when it does not.
pub proof fn law_one_term(text: Seq<char>, line: Seq<char>)
    ensures
        line_survives(seq![TermModel::Include(text)], line) <==> occurs_in(text, line),
        line_survives(seq![TermModel::Exclude(text)], line) <==> !occurs_in(text, line),
{
    let keep = seq![TermModel::Include(text)];
    let drop = seq![TermModel::Exclude(text)];
    assert(keep[0] == TermModel::Include(text));
    assert(drop[0] == TermModel::Exclude(text));
    if occurs_in(text, line) {
        assert(!term_keeps(drop[0], line));
    } else {
        assert(!term_keeps(keep[0], line));
    }
}

/// Search terms combine by "and": a line survives two lists of terms, one
/// after the other, exactly when it survives each.
pub proof fn law_terms_conjoin(first: Seq<TermModel>, second: Seq<TermModel>, line: Seq<char>)
    ensures
        line_survives(first + second, line) <==> line_survives(first, line) && line_survives(
            second,
            line,
        ),
{
    let both = first + second;
    if line_survives(both, line) {
        assert forall|i: int| 0 <= i < first.len() implies term_keeps(#[trigger] first[i], line) by {
            assert(both[i] == first[i]);
        }
        assert forall|i: int| 0 <= i < second.len() implies term_keeps(
            #[trigger] second[i],
            line,
        ) by {
            assert(both[first.len() + i] == second[i]);
        }
    }
    if line_survives(first, line) && line_survives(second, line) {
        assert forall|i: int| 0 <= i < both.len() implies term_keeps(#[trigger] both[i], line) by {
            if i < first.len() {
                assert(both[i] == first[i]);
            } else {
                assert(both[i] == second[i - first.len()]);
            }
        }
    }
}

/// The lines that survive are lines that every term lets through.
pub proof fn law_survivors_pass(terms: Seq<TermModel>, lines: Seq<Seq<char>>, i: int)
    requires
        0 <= i < surviving(terms, lines).len(),
    ensures
        line_survives(terms, surviving(terms, lines)[i]),
    decreases lines.len(),
{
    if lines.len() > 0 {
        let before = surviving(terms, lines.drop_last());
        if i < before.len() {
            law_survivors_pass(terms, lines.drop_last(), i);
        }
    }
}

/// `Eq` and `Ne` on one field and one value are opposites. A record whose
/// field holds exactly the value passes `Eq` and fails `Ne`; a record whose
/// field is missing or holds no string passes `Ne` and fails `Eq`.
pub proof fn law_eq_and_ne(record: JsonValue, field: Seq<char>, value: Seq<char>)
    ensures
        filter_keeps(record, field, Comparison::Eq, value) != filter_keeps(
            record,
            field,
            Comparison::Ne,
            value,
        ),
        record.text_at(field) == Some(value) ==> filter_keeps(
            record,
            field,
            Comparison::Eq,
            value,
        ) && !filter_keeps(record, field, Comparison::Ne, value),
        record.text_at(field) is None ==> filter_keeps(record, field, Comparison::Ne, value)
            && !filter_keeps(record, field, Comparison::Eq, value),
{
}

/// Whether none of the first `n` bindings after the one at `i` has its
/// name.
pub open spec fn last_of_name(names: Seq<Seq<char>>, i: int, n: int) -> bool {
    forall|j: int| i < j < n ==> names[j] != names[i]
}

/// Writing bindings into an object gives an object, in which a key that is
/// no binding holds what it held, and a binding that no later binding
/// repeats holds its group.
pub proof fn lemma_bound_upto(
    record: JsonValue,
    names: Seq<Seq<char>>,
    groups: Seq<Option<Seq<char>>>,
    n: nat,
)
    requires
        record is Object,
        n <= names.len(),
    ensures
        bound_upto(record, names, groups, n) is Object,
        forall|key: Seq<char>|
            !names.take(n as int).contains(key) ==> #[trigger] bound_upto(
                record,
                names,
                groups,
                n,
            ).member(key) == record.member(key),
        forall|i: int|
            0 <= i < n && #[trigger] last_of_name(names, i, n as int) ==> bound_upto(
                record,
                names,
                groups,
                n,
            ).member(names[i]) == Some(JsonValue::Text(captured(groups, i)->0)),
    decreases n,
{
    if n > 0 {
        let before = bound_upto(record, names, groups, (n - 1) as nat);
        let after = bound_upto(record, names, groups, n);
        let shorter = names.take((n - 1) as int);
        lemma_bound_upto(record, names, groups, (n - 1) as nat);
        assert(after == before.with_member(
            names[n - 1],
            JsonValue::Text(captured(groups, n - 1)->0),
        ));
        assert forall|key: Seq<char>| !names.take(n as int).contains(key) implies #[trigger] after.member(
            key,
        ) == record.member(key) by {
            assert(names.take(n as int)[n - 1] == names[n - 1]);
            assert(key != names[n - 1]);
            if shorter.contains(key) {
                let at = choose|at: int| 0 <= at < shorter.len() && shorter[at] == key;
                assert(names.take(n as int)[at] == key);
            }
            assert(before.member(key) == record.member(key));
        }
        assert forall|i: int| 0 <= i < n && #[trigger] last_of_name(names, i, n as int) implies after.member(
            names[i],
        ) == Some(JsonValue::Text(captured(groups, i)->0)) by {
            if i < n - 1 {
                assert(names[n - 1] != names[i]);
                assert(last_of_name(names, i, n - 1));
            }
        }
    }
}

/// The capture group that a parse stage binds to its binding at `index`:
/// group `index + 1` of the match of the pattern on the text of the field.
pub open spec fn bound_group(
    record: JsonValue,
    field: Seq<char>,
    pattern: Seq<char>,
    index: int,
) -> Option<Seq<char>> {
    match record.text_at(field) {
        Some(text) => match captures_of(pattern, text) {
            Some(groups) => captured(groups, index),
            None => None,
        },
        None => None,
    }
}

/// A record that survives a parse stage is the record it was, but for its
/// bindings: a key that is no binding holds what it held, and each binding
/// that no later binding repeats holds, as a string, the capture group of
/// its place, counted from 1, in the match of the pattern on the text of
/// the field.
pub proof fn law_parse_binds(
    record: JsonValue,
    field: Seq<char>,
    pattern: Seq<char>,
    names: Seq<Seq<char>>,
    out: JsonValue,
)
    requires
        parse_record(record, field, pattern, names) == Some(out),
    ensures
        forall|key: Seq<char>| !names.contains(key) ==> #[trigger] out.member(key) == record.member(key),
        forall|i: int|
            0 <= i < names.len() && #[trigger] last_of_name(names, i, names.len() as int)
                ==> bound_group(record, field, pattern, i) is Some && out.member(names[i]) == Some(
                JsonValue::Text(bound_group(record, field, pattern, i)->0),
            ),
{
    let text = record.text_at(field)->0;
    let groups = captures_of(pattern, text)->0;
    assert(bind(record, names, groups) == Some(out));
    assert(names.take(names.len() as int) =~= names);
    if names.len() > 0 {
        lemma_bound_upto(record, names, groups, names.len());
        assert forall|i: int|
            0 <= i < names.len() && #[trigger] last_of_name(names, i, names.len() as int) implies
            bound_group(record, field, pattern, i) is Some && out.member(names[i]) == Some(
            JsonValue::Text(bound_group(record, field, pattern, i)->0),
        ) by {
            assert(captured(groups, i) is Some);
        }
    }
}

/// The count that a record of a counting stage holds: the number under
/// `_count`, or 0 where there is none.
pub open spec fn count_in(record: JsonValue) -> nat {
    match record.member("_count"@) {
        Some(JsonValue::Number(NumeralModel::PosInt(n))) => n as nat,
        _ => 0,
    }
}

/// The sum of the counts that the records hold.
pub open spec fn total_count(records: Seq<JsonValue>) -> nat
    decreases records.len(),
{
    if records.len() == 0 {
        0
    } else {
        total_count(records.drop_last()) + count_in(records.last())
    }
}

/// The sum, over a list of keys, of how often each occurs in the records.
pub open spec fn tally(
    keys: Seq<Seq<Option<Seq<char>>>>,
    records: Seq<JsonValue>,
    fields: Seq<Seq<char>>,
) -> nat
    decreases keys.len(),
{
    if keys.len() == 0 {
        0
    } else {
        tally(keys.drop_last(), records, fields) + occurrences(records, fields, keys.last())
    }
}

/// The fields of a key, written into an empty object, give an object.
pub proof fn lemma_keyed_object(fields: Seq<Seq<char>>, key: Seq<Option<Seq<char>>>, n: nat)
    ensures
        keyed(fields, key, n) is Object,
    decreases n,
{
    if n > 0 {
        lemma_keyed_object(fields, key, (n - 1) as nat);
    }
}

/// One more record adds one to the tally of a list of distinct keys that
/// holds its key, and nothing to the tally of a list that does not.
pub proof fn lemma_tally_step(
    keys: Seq<Seq<Option<Seq<char>>>>,
    records: Seq<JsonValue>,
    fields: Seq<Seq<char>>,
)
    requires
        records.len() > 0,
        forall|i: int, j: int| 0 <= i < j < keys.len() ==> keys[i] != keys[j],
    ensures
        tally(keys, records, fields) == tally(keys, records.drop_last(), fields) + if keys.contains(
            group_key(records.last(), fields),
        ) {
            1nat
        } else {
            0nat
        },
    decreases keys.len(),
{
    let key = group_key(records.last(), fields);
    if keys.len() > 0 {
        let shorter = keys.drop_last();
        lemma_tally_step(shorter, records, fields);
        if shorter.contains(key) {
            let at = choose|at: int| 0 <= at < shorter.len() && shorter[at] == key;
            assert(keys[at] == key);
            assert(keys.last() != key);
            assert(keys.contains(key));
        } else if keys.last() == key {
            assert(keys[keys.len() - 1] == key);
        } else {
            if keys.contains(key) {
                let at = choose|at: int| 0 <= at < keys.len() && keys[at] == key;
                assert(shorter[at] == key);
            }
        }
    }
}

/// The tally of the keys seen is the number of records.
pub proof fn lemma_tally_all(records: Seq<JsonValue>, fields: Seq<Seq<char>>)
    ensures
        tally(keys_seen(records, fields), records, fields) == records.len(),
    decreases records.len(),
{
    if records.len() > 0 {
        let shorter = records.drop_last();
        let key = group_key(records.last(), fields);
        let before = keys_seen(shorter, fields);
        let after = keys_seen(records, fields);
        lemma_tally_all(shorter, fields);
        lemma_keys_seen(records, fields);
        lemma_keys_seen(shorter, fields);
        lemma_tally_step(after, records, fields);
        assert(after.contains(group_key(records[records.len() - 1], fields)));
        if !before.contains(key) {
            assert(after.drop_last() =~= before);
            if has_key(shorter, fields, key) {
                let at = choose|at: int|
                    0 <= at < shorter.len() && #[trigger] group_key(shorter[at], fields) == key;
                assert(before.contains(group_key(shorter[at], fields)));
            }
            crate::count::lemma_occurrences_none(shorter, fields, key);
        }
    }
}

/// The records of a counting stage hold, in sum, the tally of their keys.
pub proof fn lemma_total_is_tally(
    keys: Seq<Seq<Option<Seq<char>>>>,
    records: Seq<JsonValue>,
    fields: Seq<Seq<char>>,
)
    requires
        records.len() <= u64::MAX,
    ensures
        total_count(
            Seq::new(
                keys.len(),
                |i: int| count_record(fields, keys[i], occurrences(records, fields, keys[i])),
            ),
        ) == tally(keys, records, fields),
    decreases keys.len(),
{
    let out = Seq::new(
        keys.len(),
        |i: int| count_record(fields, keys[i], occurrences(records, fields, keys[i])),
    );
    if keys.len() > 0 {
        let shorter = keys.drop_last();
        lemma_total_is_tally(shorter, records, fields);
        assert(out.drop_last() =~= Seq::new(
            shorter.len(),
            |i: int| count_record(fields, shorter[i], occurrences(records, fields, shorter[i])),
        ));
        crate::count::lemma_occurrences_bounded(records, fields, keys.last());
        lemma_keyed_object(fields, keys.last(), fields.len());
    }
}

/// The counts that a counting stage gives out add up to the number of
/// records that went in.
pub proof fn law_counts_add_up(records: Seq<JsonValue>, fields: Seq<Seq<char>>)
    requires
        records.len() <= u64::MAX,
    ensures
        total_count(counted(records, fields)) == records.len(),
{
    lemma_total_is_tally(keys_seen(records, fields), records, fields);
    lemma_tally_all(records, fields);
}

/// Under each field, the object made of a key holds what the key holds for
/// that field, provided the key holds the same for a field that is listed
/// twice.
pub proof fn lemma_keyed_member(fields: Seq<Seq<char>>, key: Seq<Option<Seq<char>>>, n: nat)
    requires
        n <= fields.len(),
        forall|i: int, j: int|
            0 <= i < fields.len() && 0 <= j < fields.len() && fields[i] == fields[j] ==> key[i]
                == key[j],
    ensures
        forall|i: int|
            0 <= i < n ==> keyed(fields, key, n).member(#[trigger] fields[i]) == Some(
                key_value(key[i]),
            ),
    decreases n,
{
    if n > 0 {
        lemma_keyed_member(fields, key, (n - 1) as nat);
        lemma_keyed_object(fields, key, (n - 1) as nat);
    }
}

/// The record that stands for a group has the key of the group, unless
/// `_count` is itself one of the fields.
pub proof fn lemma_count_record_key(
    record: JsonValue,
    fields: Seq<Seq<char>>,
    count: nat,
)
    requires
        !fields.contains("_count"@),
    ensures
        group_key(count_record(fields, group_key(record, fields), count), fields) == group_key(
            record,
            fields,
        ),
{
    let key = group_key(record, fields);
    let out = count_record(fields, key, count);
    lemma_keyed_member(fields, key, fields.len());
    lemma_keyed_object(fields, key, fields.len());
    assert forall|i: int| 0 <= i < fields.len() implies group_key(out, fields)[i] == key[i] by {
        assert(fields.contains(fields[i]));
        assert(keyed(fields, key, fields.len()).member(fields[i]) == Some(key_value(key[i])));
    }
    assert(group_key(out, fields) =~= key);
}

/// No two records that a counting stage gives out agree on every field,
/// unless `_count` is itself one of the fields.
pub proof fn law_groups_differ(records: Seq<JsonValue>, fields: Seq<Seq<char>>, i: int, j: int)
    requires
        !fields.contains("_count"@),
        0 <= i < j < counted(records, fields).len(),
    ensures
        group_key(counted(records, fields)[i], fields) != group_key(
            counted(records, fields)[j],
            fields,
        ),
{
    let keys = keys_seen(records, fields);
    lemma_keys_seen(records, fields);
    assert(has_key(records, fields, keys[i]));
    assert(has_key(records, fields, keys[j]));
    let a = choose|a: int| 0 <= a < records.len() && #[trigger] group_key(records[a], fields) == keys[i];
    let b = choose|b: int| 0 <= b < records.len() && #[trigger] group_key(records[b], fields) == keys[j];
    lemma_count_record_key(records[a], fields, occurrences(records, fields, keys[i]));
    lemma_count_record_key(records[b], fields, occurrences(records, fields, keys[j]));
}

} // verus!

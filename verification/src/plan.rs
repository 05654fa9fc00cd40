//! Compiled stages, and what a pipeline of them makes of its input.
//!
//! A line stage decides on a raw line. A record stage turns a run of records
//! into another: a filter and a parse stage work record by record, a count
//! stage needs every record before it yields one.

use vstd::prelude::*;
use crate::ast::{AggregationModel, Comparison, TermModel, TransformModel};
use crate::count::{count_by, counted};
use crate::json::{Json, JsonValue, decoded, values_of};
use crate::pattern::Pattern;
use crate::stage::{extract, filter_keeps, keeps, parse_record};
use crate::text::{contains, occurs_in, strings_model};

verus! {

/// A compiled search term. It owns the text it looks for.
#[derive(Debug, PartialEq)]
pub enum LineStage {
    Include(String),
    Exclude(String),
}

/// A compiled transform. It owns its literals and its compiled pattern.
#[derive(Debug)]
pub enum RecordStage {
    Filter { field: String, comparison: Comparison, value: String },
    Parse { field: String, pattern: Pattern, bindings: Vec<String> },
    Count { fields: Vec<String> },
}

impl View for LineStage {
    type V = TermModel;

    open spec fn view(&self) -> TermModel {
        match *self {
            LineStage::Include(text) => TermModel::Include(text@),
            LineStage::Exclude(text) => TermModel::Exclude(text@),
        }
    }
}

impl View for RecordStage {
    type V = TransformModel;

    open spec fn view(&self) -> TransformModel {
        match *self {
            RecordStage::Filter { field, comparison, value } => TransformModel::Filter {
                field: field@,
                comparison,
                value: value@,
            },
            RecordStage::Parse { field, pattern, bindings } => TransformModel::Parse {
                field: field@,
                parser: pattern.source(),
                bindings: strings_model(bindings@),
            },
            RecordStage::Count { fields } => TransformModel::Aggregate(
                AggregationModel::Count(strings_model(fields@)),
            ),
        }
    }
}

/// The models of a list of line stages.
pub open spec fn line_stages_model(stages: Seq<LineStage>) -> Seq<TermModel> {
    Seq::new(stages.len(), |i: int| stages[i]@)
}

/// The models of a list of record stages.
pub open spec fn record_stages_model(stages: Seq<RecordStage>) -> Seq<TransformModel> {
    Seq::new(stages.len(), |i: int| stages[i]@)
}

/// Whether one search term lets a line through.
pub open spec fn term_keeps(term: TermModel, line: Seq<char>) -> bool {
    match term {
        TermModel::Include(text) => occurs_in(text, line),
        TermModel::Exclude(text) => !occurs_in(text, line),
        TermModel::Any => true,
    }
}

/// Whether every search term lets a line through.
pub open spec fn line_survives(terms: Seq<TermModel>, line: Seq<char>) -> bool {
    forall|i: int| 0 <= i < terms.len() ==> term_keeps(#[trigger] terms[i], line)
}

/// The lines that every search term lets through, in their order.
pub open spec fn surviving(terms: Seq<TermModel>, lines: Seq<Seq<char>>) -> Seq<Seq<char>>
    decreases lines.len(),
{
    if lines.len() == 0 {
        Seq::empty()
    } else if line_survives(terms, lines.last()) {
        surviving(terms, lines.drop_last()).push(lines.last())
    } else {
        surviving(terms, lines.drop_last())
    }
}

/// The records that the lines decode to, in their order; a line that is not
/// JSON gives none.
pub open spec fn decoded_all(lines: Seq<Seq<char>>) -> Seq<JsonValue>
    decreases lines.len(),
{
    if lines.len() == 0 {
        Seq::empty()
    } else {
        match decoded(lines.last()) {
            Some(record) => decoded_all(lines.drop_last()).push(record),
            None => decoded_all(lines.drop_last()),
        }
    }
}

/// The records that a filter keeps, in their order.
pub open spec fn filtered(
    records: Seq<JsonValue>,
    field: Seq<char>,
    comparison: Comparison,
    value: Seq<char>,
) -> Seq<JsonValue>
    decreases records.len(),
{
    if records.len() == 0 {
        Seq::empty()
    } else if filter_keeps(records.last(), field, comparison, value) {
        filtered(records.drop_last(), field, comparison, value).push(records.last())
    } else {
        filtered(records.drop_last(), field, comparison, value)
    }
}

/// The records that a parse stage yields, in their order.
pub open spec fn parsed(
    records: Seq<JsonValue>,
    field: Seq<char>,
    pattern: Seq<char>,
    names: Seq<Seq<char>>,
) -> Seq<JsonValue>
    decreases records.len(),
{
    if records.len() == 0 {
        Seq::empty()
    } else {
        match parse_record(records.last(), field, pattern, names) {
            Some(record) => parsed(records.drop_last(), field, pattern, names).push(record),
            None => parsed(records.drop_last(), field, pattern, names),
        }
    }
}

/// What one record stage makes of a run of records.
pub open spec fn stage_output(stage: TransformModel, records: Seq<JsonValue>) -> Seq<JsonValue> {
    match stage {
        TransformModel::Filter { field, comparison, value } => filtered(
            records,
            field,
            comparison,
            value,
        ),
        TransformModel::Parse { field, parser, bindings } => parsed(
            records,
            field,
            parser,
            bindings,
        ),
        TransformModel::Aggregate(AggregationModel::Count(fields)) => counted(records, fields),
    }
}

/// What the record stages, applied in their order, make of a run of records.
pub open spec fn pipeline_output(stages: Seq<TransformModel>, records: Seq<JsonValue>) -> Seq<
    JsonValue,
>
    decreases stages.len(),
{
    if stages.len() == 0 {
        records
    } else {
        stage_output(stages.last(), pipeline_output(stages.drop_last(), records))
    }
}

impl LineStage {
    /// Decides whether the stage lets a line through.
    pub fn keeps(&self, line: &str) -> (kept: bool)
        ensures
            kept == term_keeps(self@, line@),
    {
        match self {
            LineStage::Include(text) => contains(line, text.as_str()),
            LineStage::Exclude(text) => !contains(line, text.as_str()),
        }
    }
}

impl RecordStage {
    /// Whether the stage needs every record before it yields one.
    pub open spec fn barrier(&self) -> bool {
        *self is Count
    }

    /// Whether the stage needs every record before it yields one.
    #[verifier::when_used_as_spec(barrier)]
    pub fn is_barrier(&self) -> (barrier: bool)
        ensures
            barrier == self.barrier(),
    {
        match self {
            RecordStage::Count { .. } => true,
            _ => false,
        }
    }

    /// Applies the stage to a run of records.
    pub fn apply(&self, records: Vec<Json>) -> (out: Vec<Json>)
        ensures
            values_of(out@) == stage_output(self@, values_of(records@)),
    {
        let ghost all = values_of(records@);
        match self {
            RecordStage::Filter { field, comparison, value } => {
                let mut out: Vec<Json> = Vec::new();
                for record in it: records
                    invariant
                        values_of(it.seq()) == all,
                        values_of(out@) == filtered(
                            all.take(it.index() as int),
                            field@,
                            *comparison,
                            value@,
                        ),
                {
                    let ghost before = values_of(out@);
                    proof {
                        let next = all.take(it.index() + 1);
                        assert(next.drop_last() =~= all.take(it.index() as int));
                        assert(next.last() == record@);
                    }
                    if keeps(&record, field.as_str(), *comparison, value.as_str()) {
                        out.push(record);
                        assert(values_of(out@) =~= before.push(record@));
                    }
                }
                assert(all.take(all.len() as int) =~= all);
                out
            },
            RecordStage::Parse { field, pattern, bindings } => {
                let mut out: Vec<Json> = Vec::new();
                for record in it: records
                    invariant
                        values_of(it.seq()) == all,
                        values_of(out@) == parsed(
                            all.take(it.index() as int),
                            field@,
                            pattern.source(),
                            strings_model(bindings@),
                        ),
                {
                    let ghost before = values_of(out@);
                    proof {
                        let next = all.take(it.index() + 1);
                        assert(next.drop_last() =~= all.take(it.index() as int));
                        assert(next.last() == record@);
                    }
                    match extract(record, field.as_str(), pattern, bindings) {
                        Some(bound) => {
                            out.push(bound);
                            assert(values_of(out@) =~= before.push(bound@));
                        },
                        None => {},
                    }
                }
                assert(all.take(all.len() as int) =~= all);
                out
            },
            RecordStage::Count { fields } => count_by(&records, fields),
        }
    }
}

/// Decides whether every line stage lets a line through. The stages are
/// tried in order, and the first that refuses the line settles it.
pub fn survives(stages: &Vec<LineStage>, line: &str) -> (kept: bool)
    ensures
        kept == line_survives(line_stages_model(stages@), line@),
{
    let mut i: usize = 0;
    while i < stages.len()
        invariant
            i <= stages.len(),
            forall|k: int|
                0 <= k < i ==> term_keeps(#[trigger] line_stages_model(stages@)[k], line@),
        decreases stages.len() - i,
    {
        if !stages[i].keeps(line) {
            assert(!term_keeps(line_stages_model(stages@)[i as int], line@));
            return false;
        }
        i += 1;
    }
    true
}

/// Applies the record stages, in their order, to a run of records.
pub fn run_stages(stages: &Vec<RecordStage>, records: Vec<Json>) -> (out: Vec<Json>)
    ensures
        values_of(out@) == pipeline_output(record_stages_model(stages@), values_of(records@)),
{
    let ghost all = values_of(records@);
    let ghost model = record_stages_model(stages@);
    let mut current = records;
    let mut i: usize = 0;
    assert(model.take(0) =~= Seq::<TransformModel>::empty());
    while i < stages.len()
        invariant
            i <= stages.len(),
            model == record_stages_model(stages@),
            values_of(current@) == pipeline_output(model.take(i as int), all),
        decreases stages.len() - i,
    {
        proof {
            let next = model.take(i + 1);
            assert(next.drop_last() =~= model.take(i as int));
            assert(next.last() == stages@[i as int]@);
        }
        current = stages[i].apply(current);
        i += 1;
    }
    assert(model.take(i as int) =~= model);
    current
}

} // verus!

//! Running a query over a sequence of lines.

use vstd::prelude::*;
use crate::ast::{Search, SearchModel, TermModel, search_model};
use crate::builder::{
    SearchBuilder, first_failing, lemma_all_compiled, lemma_compiled, lemma_line_terms,
    lemma_walk_builds, line_terms,
};
use crate::json::{Json, JsonValue, values_of};
use crate::grammar::parse_query;
use crate::pattern::PatternError;
use crate::plan::{
    LineStage, RecordStage, decoded_all, line_stages_model, pipeline_output, record_stages_model,
    run_stages, surviving, survives,
};
use crate::search::{SearchParser, SyntaxError};
use crate::text::strings_model;
use crate::visitor::{Visitable, search_visits};

verus! {

/// Why a query could not be run. Both kinds of error are found before any
/// line is looked at.
#[derive(Debug, PartialEq)]
pub enum QueryError {
    /// The text is no query.
    Syntax(SyntaxError),
    /// A parse clause holds a pattern that does not compile.
    Pattern(PatternError),
}

/// What a query yields over a sequence of lines: the lines that every search
/// term lets through are decoded, those that are no JSON fall away, and the
/// transforms are applied in their order. The sort takes no part.
pub open spec fn results(search: SearchModel, lines: Seq<Seq<char>>) -> Seq<JsonValue> {
    pipeline_output(search.transforms, decoded_all(surviving(search.terms, lines)))
}

/// The line stages of a query let through what its search terms let
/// through.
pub proof fn lemma_surviving_terms(terms: Seq<TermModel>, lines: Seq<Seq<char>>)
    ensures
        surviving(line_terms(terms), lines) == surviving(terms, lines),
    decreases lines.len(),
{
    if lines.len() > 0 {
        lemma_surviving_terms(terms, lines.drop_last());
        lemma_line_terms(terms, lines.last());
    }
}

/// Filters the lines by the line stages and decodes those that are left.
pub fn decode_surviving(stages: &Vec<LineStage>, lines: &Vec<String>) -> (records: Vec<Json>)
    ensures
        values_of(records@) == decoded_all(
            surviving(line_stages_model(stages@), strings_model(lines@)),
        ),
{
    let ghost terms = line_stages_model(stages@);
    let ghost all = strings_model(lines@);
    let mut records: Vec<Json> = Vec::new();
    let mut i: usize = 0;
    assert(values_of(records@) =~= decoded_all(surviving(terms, all.take(0))));
    while i < lines.len()
        invariant
            i <= lines.len(),
            terms == line_stages_model(stages@),
            all == strings_model(lines@),
            values_of(records@) == decoded_all(surviving(terms, all.take(i as int))),
        decreases lines.len() - i,
    {
        let ghost before = values_of(records@);
        let ghost kept = surviving(terms, all.take(i as int));
        proof {
            let next = all.take(i + 1);
            assert(next.drop_last() =~= all.take(i as int));
            assert(next.last() == lines@[i as int]@);
            assert(kept.push(next.last()).drop_last() =~= kept);
        }
        if survives(stages, lines[i].as_str()) {
            match Json::decode(lines[i].as_str()) {
                Some(record) => {
                    records.push(record);
                    assert(values_of(records@) =~= before.push(record@));
                },
                None => {},
            }
        }
        i += 1;
    }
    assert(all.take(i as int) =~= all);
    records
}

/// A compiled query: its line stages and its record stages, each list in
/// the order of the query.
#[derive(Debug)]
pub struct Plan {
    pub line_stages: Vec<LineStage>,
    pub record_stages: Vec<RecordStage>,
}

impl Plan {
    /// What the plan yields over a sequence of lines: the lines that every
    /// line stage lets through are decoded, and the record stages are
    /// applied in their order.
    pub open spec fn yields(&self, lines: Seq<Seq<char>>) -> Seq<JsonValue> {
        pipeline_output(
            record_stages_model(self.record_stages@),
            decoded_all(surviving(line_stages_model(self.line_stages@), lines)),
        )
    }

    /// Runs the plan over a sequence of lines.
    pub fn run(&self, lines: &Vec<String>) -> (out: Vec<Json>)
        ensures
            values_of(out@) == self.yields(strings_model(lines@)),
    {
        let records = decode_surviving(&self.line_stages, lines);
        run_stages(&self.record_stages, records)
    }
}

/// Compiles a query into a plan. It fails exactly where a parse clause
/// holds a pattern that does not compile, with the first such pattern. The
/// plan has a line stage for each search term that is no wildcard and a
/// record stage for each transform, and it yields over any lines what
/// [`results`] says of the query.
pub fn compile<'ast>(search: &'ast Search<'ast>) -> (out: Result<Plan, PatternError>)
    ensures
        match out {
            Ok(plan) => {
                &&& first_failing(search_model(*search).transforms) is None
                &&& line_stages_model(plan.line_stages@) == line_terms(search_model(*search).terms)
                &&& record_stages_model(plan.record_stages@) == search_model(*search).transforms
                &&& forall|lines: Seq<Seq<char>>| #[trigger]
                    plan.yields(lines) == results(search_model(*search), lines)
            },
            Err(error) => first_failing(search_model(*search).transforms) == Some(error.pattern@),
        },
{
    let ghost model = search_model(*search);
    let mut builder = SearchBuilder::new();
    let ghost empty = builder;
    search.accept(&mut builder);
    proof {
        lemma_walk_builds(empty, search_visits(model), builder);
        lemma_compiled(model);
    }
    let SearchBuilder { search_stage, transform_stage, failure } = builder;
    match failure {
        Some(error) => Err(error),
        None => {
            let plan = Plan { line_stages: search_stage, record_stages: transform_stage };
            proof {
                lemma_all_compiled(model.transforms);
                assert forall|lines: Seq<Seq<char>>| #[trigger]
                    plan.yields(lines) == results(model, lines) by {
                    lemma_surviving_terms(model.terms, lines);
                }
            }
            Ok(plan)
        },
    }
}

/// Runs a query over a sequence of lines.
///
/// The query is compiled first: where a parse clause holds a pattern that
/// does not compile, the first such pattern comes back as the error and no
/// line is looked at. Else the result is what [`results`] says.
pub fn execute<'ast>(search: &'ast Search<'ast>, lines: &Vec<String>) -> (out: Result<
    Vec<Json>,
    PatternError,
>)
    ensures
        match out {
            Ok(records) => first_failing(search_model(*search).transforms) is None && values_of(
                records@,
            ) == results(search_model(*search), strings_model(lines@)),
            Err(error) => first_failing(search_model(*search).transforms) == Some(error.pattern@),
        },
{
    match compile(search) {
        Ok(plan) => {
            assert(plan.yields(strings_model(lines@)) == results(
                search_model(*search),
                strings_model(lines@),
            ));
            Ok(plan.run(lines))
        },
        Err(error) => Err(error),
    }
}

/// Parses the text of a query and runs the query over a sequence of lines.
///
/// A text that is no query fails with the position of its first error; a
/// query with a pattern that does not compile fails with the first such
/// pattern; any other query yields what [`results`] says.
pub fn search(query: &str, lines: &Vec<String>) -> (out: Result<Vec<Json>, QueryError>)
    ensures
        match out {
            Ok(records) => parse_query(query@) matches Ok(model) && first_failing(model.transforms)
                is None && values_of(records@) == results(model, strings_model(lines@)),
            Err(QueryError::Syntax(error)) => parse_query(query@) == Err::<SearchModel, int>(
                error.position as int,
            ),
            Err(QueryError::Pattern(error)) => parse_query(query@) matches Ok(model)
                && first_failing(model.transforms) == Some(error.pattern@),
        },
{
    let parsed = match SearchParser::new().parse(query) {
        Ok(parsed) => parsed,
        Err(error) => {
            return Err(QueryError::Syntax(error));
        },
    };
    match execute(&parsed, lines) {
        Ok(records) => Ok(records),
        Err(error) => Err(QueryError::Pattern(error)),
    }
}

} // verus!

//! Compiling a query: a visitor that turns the nodes it is shown into the
//! stages of a plan.

use vstd::prelude::*;
use crate::ast::{
    Aggregation, AggregationModel, Search, SearchModel, SearchTerm, Sort, TermModel, Transform,
    TransformModel, search_model, texts,
};
use crate::pattern::{Pattern, PatternError, compiles};
use crate::plan::{LineStage, RecordStage, line_stages_model, record_stages_model};
use crate::text::strings_model;
use crate::visitor::{Visit, Visitor, drives, search_visits, terms_visits, transforms_visits,
    transform_visits, sort_visits};

verus! {

/// Collects the stages of a plan while it walks a query: the line stages
/// from the search terms, the record stages from the transforms. A pattern
/// that does not compile gives no stage; the first such pattern is kept as
/// the failure of the build.
#[derive(Debug)]
pub struct SearchBuilder {
    pub search_stage: Vec<LineStage>,
    pub transform_stage: Vec<RecordStage>,
    pub failure: Option<PatternError>,
}

/// Model of a plan under construction.
pub struct PlanModel {
    pub lines: Seq<TermModel>,
    pub records: Seq<TransformModel>,
    pub failed: Option<Seq<char>>,
}

impl View for SearchBuilder {
    type V = PlanModel;

    open spec fn view(&self) -> PlanModel {
        PlanModel {
            lines: line_stages_model(self.search_stage@),
            records: record_stages_model(self.transform_stage@),
            failed: match self.failure {
                Some(error) => Some(error.pattern@),
                None => None,
            },
        }
    }
}

/// Whether a transform can be compiled: any but a parse whose pattern the
/// regex engine refuses.
pub open spec fn compilable(transform: TransformModel) -> bool {
    transform matches TransformModel::Parse { parser, .. } ==> compiles(parser)
}

/// What one callback does to the plan.
pub open spec fn advance(plan: PlanModel, visit: Visit) -> PlanModel {
    match visit {
        Visit::Term(TermModel::Any) => plan,
        Visit::Term(term) => PlanModel { lines: plan.lines.push(term), ..plan },
        Visit::Transform(TransformModel::Aggregate(_)) => plan,
        Visit::Transform(transform) => if compilable(transform) {
            PlanModel { records: plan.records.push(transform), ..plan }
        } else if plan.failed is None {
            PlanModel { failed: Some(transform->parser), ..plan }
        } else {
            plan
        },
        Visit::Aggregation(aggregation) => PlanModel {
            records: plan.records.push(TransformModel::Aggregate(aggregation)),
            ..plan
        },
        Visit::Search(_) => plan,
        Visit::Sort(_) => plan,
    }
}

/// What a run of callbacks does to the plan.
pub open spec fn advance_all(plan: PlanModel, visits: Seq<Visit>) -> PlanModel
    decreases visits.len(),
{
    if visits.len() == 0 {
        plan
    } else {
        advance(advance_all(plan, visits.drop_last()), visits.last())
    }
}

/// The plan with nothing in it.
pub open spec fn empty_plan() -> PlanModel {
    PlanModel { lines: Seq::empty(), records: Seq::empty(), failed: None }
}

/// The plan that a walk over a query builds.
pub open spec fn compiled(search: SearchModel) -> PlanModel {
    advance_all(empty_plan(), search_visits(search))
}

impl SearchBuilder {
    /// A builder with no stage yet.
    pub fn new() -> (builder: SearchBuilder)
        ensures
            builder@ == empty_plan(),
    {
        let builder = SearchBuilder {
            search_stage: Vec::new(),
            transform_stage: Vec::new(),
            failure: None,
        };
        assert(builder@.lines =~= Seq::<TermModel>::empty());
        assert(builder@.records =~= Seq::<TransformModel>::empty());
        builder
    }
}

/// Copies a list of names into strings of their own.
pub fn owned_names(names: &Vec<&str>) -> (owned: Vec<String>)
    ensures
        strings_model(owned@) == texts(names@),
{
    let mut owned: Vec<String> = Vec::new();
    let mut i: usize = 0;
    while i < names.len()
        invariant
            i <= names.len(),
            owned.len() == i,
            forall|k: int| 0 <= k < i ==> (#[trigger] owned@[k])@ == names@[k]@,
        decreases names.len() - i,
    {
        owned.push(names[i].to_owned());
        i += 1;
    }
    assert(strings_model(owned@) =~= texts(names@));
    owned
}

impl<'ast> Visitor<'ast> for SearchBuilder {
    open spec fn step(&self, visit: Visit, next: &Self) -> bool {
        next@ == advance(self@, visit)
    }

    fn visit_search(&mut self, _search: &Search) {
    }

    fn visit_search_term(&mut self, search_term: &'ast SearchTerm<'ast>) {
        let ghost before = self@;
        match search_term {
            SearchTerm::Include(term) => {
                self.search_stage.push(LineStage::Include((*term).to_owned()));
                assert(self@.lines =~= before.lines.push(search_term@));
            },
            SearchTerm::Exclude(term) => {
                self.search_stage.push(LineStage::Exclude((*term).to_owned()));
                assert(self@.lines =~= before.lines.push(search_term@));
            },
            SearchTerm::Any() => {},
        }
    }

    fn visit_transform(&mut self, transform: &Transform) {
        let ghost before = self@;
        match transform {
            Transform::Filter { field, comparison, value } => {
                self.transform_stage.push(
                    RecordStage::Filter {
                        field: (*field).to_owned(),
                        comparison: *comparison,
                        value: (*value).to_owned(),
                    },
                );
                assert(self@.records =~= before.records.push(transform@));
            },
            Transform::Parse { field, parser, bindings } => {
                match Pattern::compile(parser) {
                    Ok(pattern) => {
                        self.transform_stage.push(
                            RecordStage::Parse {
                                field: (*field).to_owned(),
                                pattern,
                                bindings: owned_names(bindings),
                            },
                        );
                        assert(self@.records =~= before.records.push(transform@));
                    },
                    Err(error) => {
                        if self.failure.is_none() {
                            self.failure = Some(error);
                        }
                    },
                }
            },
            Transform::Aggregate(_) => {},
        }
    }

    fn visit_aggregation(&mut self, aggregation: &Aggregation) {
        let ghost before = self@;
        match aggregation {
            Aggregation::Count(fields) => {
                self.transform_stage.push(RecordStage::Count { fields: owned_names(fields) });
                assert(self@.records =~= before.records.push(
                    TransformModel::Aggregate(aggregation@),
                ));
            },
        }
    }

    fn visit_sort(&mut self, _sort: &Sort) {
    }
}

/// The search terms that give a line stage: all but the wildcards.
pub open spec fn line_terms(terms: Seq<TermModel>) -> Seq<TermModel>
    decreases terms.len(),
{
    if terms.len() == 0 {
        Seq::empty()
    } else if terms.last() is Any {
        line_terms(terms.drop_last())
    } else {
        line_terms(terms.drop_last()).push(terms.last())
    }
}

/// The transforms that give a record stage: all but the parses whose
/// pattern does not compile.
pub open spec fn record_transforms(transforms: Seq<TransformModel>) -> Seq<TransformModel>
    decreases transforms.len(),
{
    if transforms.len() == 0 {
        Seq::empty()
    } else if compilable(transforms.last()) {
        record_transforms(transforms.drop_last()).push(transforms.last())
    } else {
        record_transforms(transforms.drop_last())
    }
}

/// The pattern of the first parse that does not compile, if there is one.
pub open spec fn first_failing(transforms: Seq<TransformModel>) -> Option<Seq<char>>
    decreases transforms.len(),
{
    if transforms.len() == 0 {
        None
    } else {
        match first_failing(transforms.drop_last()) {
            Some(pattern) => Some(pattern),
            None => if compilable(transforms.last()) {
                None
            } else {
                Some(transforms.last()->parser)
            },
        }
    }
}

/// A builder that a run of callbacks was made on holds what the callbacks,
/// one after the other, make of its plan.
pub proof fn lemma_walk_builds(from: SearchBuilder, visits: Seq<Visit>, to: SearchBuilder)
    requires
        drives(from, visits, to),
    ensures
        to@ == advance_all(from@, visits),
    decreases visits.len(),
{
    if visits.len() > 0 {
        let mid = choose|mid: SearchBuilder|
            #![trigger mid.step(visits.last(), &to)]
            drives(from, visits.drop_last(), mid) && mid.step(visits.last(), &to);
        lemma_walk_builds(from, visits.drop_last(), mid);
    }
}

/// A run of one callback does what the callback does.
pub proof fn lemma_advance_one(plan: PlanModel, visit: Visit)
    ensures
        advance_all(plan, seq![visit]) == advance(plan, visit),
{
    assert(seq![visit].drop_last() =~= Seq::<Visit>::empty());
    assert(advance_all(plan, Seq::<Visit>::empty()) == plan);
}

/// Two runs of callbacks, one after the other, do what the one long run
/// does.
pub proof fn lemma_advance_then(plan: PlanModel, first: Seq<Visit>, second: Seq<Visit>)
    ensures
        advance_all(plan, first + second) == advance_all(advance_all(plan, first), second),
    decreases second.len(),
{
    if second.len() == 0 {
        assert(first + second =~= first);
    } else {
        lemma_advance_then(plan, first, second.drop_last());
        assert((first + second).drop_last() =~= first + second.drop_last());
    }
}

/// The callbacks of the search terms add a line stage for each term that is
/// no wildcard, and change nothing else.
pub proof fn lemma_terms_build(plan: PlanModel, terms: Seq<TermModel>)
    ensures
        advance_all(plan, terms_visits(terms)) == (PlanModel {
            lines: plan.lines + line_terms(terms),
            ..plan
        }),
    decreases terms.len(),
{
    if terms.len() == 0 {
        assert(plan.lines + line_terms(terms) =~= plan.lines);
    } else {
        lemma_terms_build(plan, terms.drop_last());
        assert(terms_visits(terms).drop_last() =~= terms_visits(terms.drop_last()));
        let before = plan.lines + line_terms(terms.drop_last());
        if terms.last() is Any {
        } else {
            assert(before.push(terms.last()) =~= plan.lines + line_terms(terms));
        }
    }
}

/// The callbacks of the transforms add a record stage for each transform
/// that can be compiled, keep the first pattern that cannot, and change
/// nothing else.
pub proof fn lemma_transforms_build(plan: PlanModel, transforms: Seq<TransformModel>)
    ensures
        advance_all(plan, transforms_visits(transforms)) == (PlanModel {
            records: plan.records + record_transforms(transforms),
            failed: match plan.failed {
                Some(pattern) => Some(pattern),
                None => first_failing(transforms),
            },
            ..plan
        }),
    decreases transforms.len(),
{
    if transforms.len() == 0 {
        assert(plan.records + record_transforms(transforms) =~= plan.records);
    } else {
        let last = transforms.last();
        let shorter = transforms.drop_last();
        lemma_transforms_build(plan, shorter);
        lemma_advance_then(plan, transforms_visits(shorter), transform_visits(last));
        let mid = advance_all(plan, transforms_visits(shorter));
        match last {
            TransformModel::Aggregate(aggregation) => {
                lemma_advance_then(
                    mid,
                    seq![Visit::Transform(last)],
                    seq![Visit::Aggregation(aggregation)],
                );
                assert(seq![Visit::Transform(last)] + seq![Visit::Aggregation(aggregation)]
                    =~= transform_visits(last));
                lemma_advance_one(mid, Visit::Transform(last));
                lemma_advance_one(mid, Visit::Aggregation(aggregation));
                assert(mid.records.push(last) =~= plan.records + record_transforms(transforms));
            },
            _ => {
                lemma_advance_one(mid, Visit::Transform(last));
                if compilable(last) {
                    assert(mid.records.push(last) =~= plan.records + record_transforms(
                        transforms,
                    ));
                }
            },
        }
    }
}

/// The plan of a query: a line stage for each search term that is no
/// wildcard, a record stage for each transform that can be compiled, both in
/// the order of the query, and the first pattern that does not compile. The
/// sort gives no stage.
pub proof fn lemma_compiled(search: SearchModel)
    ensures
        compiled(search) == (PlanModel {
            lines: line_terms(search.terms),
            records: record_transforms(search.transforms),
            failed: first_failing(search.transforms),
        }),
{
    let head = seq![Visit::Search(search)];
    let terms = terms_visits(search.terms);
    let transforms = transforms_visits(search.transforms);
    let sort = sort_visits(search.sort);
    let start = empty_plan();
    lemma_advance_then(start, head + terms + transforms, sort);
    lemma_advance_then(start, head + terms, transforms);
    lemma_advance_then(start, head, terms);
    lemma_advance_one(start, Visit::Search(search));
    lemma_terms_build(start, search.terms);
    let with_terms = advance_all(start, head + terms);
    assert(start.lines + line_terms(search.terms) =~= line_terms(search.terms));
    lemma_transforms_build(with_terms, search.transforms);
    let with_transforms = advance_all(start, head + terms + transforms);
    assert(with_terms.records + record_transforms(search.transforms) =~= record_transforms(
        search.transforms,
    ));
    match search.sort {
        Some(by) => {
            lemma_advance_one(with_transforms, Visit::Sort(by));
        },
        None => {},
    }
}

/// Where every pattern compiles, every transform gives a record stage.
pub proof fn lemma_all_compiled(transforms: Seq<TransformModel>)
    requires
        first_failing(transforms) is None,
    ensures
        record_transforms(transforms) == transforms,
    decreases transforms.len(),
{
    if transforms.len() > 0 {
        lemma_all_compiled(transforms.drop_last());
        assert(transforms.drop_last().push(transforms.last()) =~= transforms);
    } else {
        assert(transforms =~= Seq::<TransformModel>::empty());
    }
}

/// A wildcard decides nothing: the line stages let a line through exactly
/// when all the search terms do.
pub proof fn lemma_line_terms(terms: Seq<TermModel>, line: Seq<char>)
    ensures
        crate::plan::line_survives(line_terms(terms), line) == crate::plan::line_survives(
            terms,
            line,
        ),
    decreases terms.len(),
{
    if terms.len() > 0 {
        let shorter = terms.drop_last();
        lemma_line_terms(shorter, line);
        let stages = line_terms(terms);
        if crate::plan::line_survives(terms, line) {
            assert forall|i: int| 0 <= i < shorter.len() implies crate::plan::term_keeps(
                #[trigger] shorter[i],
                line,
            ) by {
                assert(shorter[i] == terms[i]);
            }
            assert forall|i: int| 0 <= i < stages.len() implies crate::plan::term_keeps(
                #[trigger] stages[i],
                line,
            ) by {
                if i < line_terms(shorter).len() {
                    assert(stages[i] == line_terms(shorter)[i]);
                } else {
                    assert(stages[i] == terms[terms.len() - 1]);
                }
            }
        }
        if crate::plan::line_survives(stages, line) {
            assert forall|i: int| 0 <= i < line_terms(shorter).len() implies crate::plan::term_keeps(
                #[trigger] line_terms(shorter)[i],
                line,
            ) by {
                assert(stages[i] == line_terms(shorter)[i]);
            }
            assert forall|i: int| 0 <= i < terms.len() implies crate::plan::term_keeps(
                #[trigger] terms[i],
                line,
            ) by {
                if i < shorter.len() {
                    assert(shorter[i] == terms[i]);
                } else if !(terms[i] is Any) {
                    assert(stages[stages.len() - 1] == terms[i]);
                }
            }
        }
    }
}

} // verus!

//! Walking a query: one callback per kind of node, driven in a fixed order.

use vstd::prelude::*;
use crate::ast::{
    Aggregation, AggregationModel, Search, SearchModel, SearchTerm, Sort, SortModel, TermModel,
    Transform, TransformModel, search_model,
};

verus! {

/// One callback of a walk, with the model of the node that it was given.
pub enum Visit {
    Search(SearchModel),
    Term(TermModel),
    Transform(TransformModel),
    Aggregation(AggregationModel),
    Sort(SortModel),
}

/// A consumer of a walk over a query. Each callback is handed one node; what
/// it does to the visitor is what [`Visitor::step`] allows.
pub trait Visitor<'ast>: Sized {
    /// Whether one callback may take the visitor from `self` to `next`. A
    /// visitor that does not say otherwise allows every change.
    open spec fn step(&self, visit: Visit, next: &Self) -> bool {
        true
    }

    /// Called once, first, with the whole query.
    fn visit_search(&mut self, search: &Search)
        ensures
            old(self).step(Visit::Search(search_model(*search)), final(self)),
    ;

    /// Called with each search term.
    fn visit_search_term(&mut self, search_term: &'ast SearchTerm<'ast>)
        ensures
            old(self).step(Visit::Term(search_term@), final(self)),
    ;

    /// Called with each transform, an aggregate among them.
    fn visit_transform(&mut self, transform: &Transform)
        ensures
            old(self).step(Visit::Transform(transform@), final(self)),
    ;

    /// Called with the aggregation of an aggregate, after the aggregate
    /// itself.
    fn visit_aggregation(&mut self, aggregation: &Aggregation)
        ensures
            old(self).step(Visit::Aggregation(aggregation@), final(self)),
    ;

    /// Called last, with the sort, where the query has one.
    fn visit_sort(&mut self, sort: &Sort)
        ensures
            old(self).step(Visit::Sort(sort@), final(self)),
    ;
}

/// Whether a run of callbacks, made in the order of `visits`, may take a
/// visitor from `from` to `to`.
pub open spec fn drives<'ast, V: Visitor<'ast>>(from: V, visits: Seq<Visit>, to: V) -> bool
    decreases visits.len(),
{
    if visits.len() == 0 {
        from == to
    } else {
        exists|mid: V|
            #![trigger mid.step(visits.last(), &to)]
            drives(from, visits.drop_last(), mid) && mid.step(visits.last(), &to)
    }
}

/// A run of no callback leaves the visitor as it is.
pub proof fn lemma_drives_none<'ast, V: Visitor<'ast>>(at: V)
    ensures
        drives(at, Seq::<Visit>::empty(), at),
{
}

/// One callback is a run of one.
pub proof fn lemma_drives_one<'ast, V: Visitor<'ast>>(from: V, visit: Visit, to: V)
    requires
        from.step(visit, &to),
    ensures
        drives(from, seq![visit], to),
{
    lemma_drives_none(from);
    assert(seq![visit].drop_last() =~= Seq::<Visit>::empty());
    assert(seq![visit].last() == visit);
    assert(drives(from, seq![visit].drop_last(), from) && from.step(seq![visit].last(), &to));
}

/// Two runs, the second starting where the first ended, make one run.
pub proof fn lemma_drives_then<'ast, V: Visitor<'ast>>(
    from: V,
    first: Seq<Visit>,
    mid: V,
    second: Seq<Visit>,
    to: V,
)
    requires
        drives(from, first, mid),
        drives(mid, second, to),
    ensures
        drives(from, first + second, to),
    decreases second.len(),
{
    if second.len() == 0 {
        assert(first + second =~= first);
    } else {
        let before: V = choose|before: V|
            #![trigger before.step(second.last(), &to)]
            drives(mid, second.drop_last(), before) && before.step(second.last(), &to);
        lemma_drives_then(from, first, mid, second.drop_last(), before);
        assert((first + second).drop_last() =~= first + second.drop_last());
        assert((first + second).last() == second.last());
    }
}

/// The callbacks of a walk over one transform: the transform itself, then,
/// for an aggregate, the aggregation inside it.
pub open spec fn transform_visits(transform: TransformModel) -> Seq<Visit> {
    match transform {
        TransformModel::Aggregate(aggregation) => seq![
            Visit::Transform(transform),
            Visit::Aggregation(aggregation),
        ],
        _ => seq![Visit::Transform(transform)],
    }
}

/// The callbacks of a walk over search terms, in their order.
pub open spec fn terms_visits(terms: Seq<TermModel>) -> Seq<Visit> {
    Seq::new(terms.len(), |i: int| Visit::Term(terms[i]))
}

/// The callbacks of a walk over transforms, in their order.
pub open spec fn transforms_visits(transforms: Seq<TransformModel>) -> Seq<Visit>
    decreases transforms.len(),
{
    if transforms.len() == 0 {
        Seq::empty()
    } else {
        transforms_visits(transforms.drop_last()) + transform_visits(transforms.last())
    }
}

/// The callbacks of a walk over the closing sort.
pub open spec fn sort_visits(sort: Option<SortModel>) -> Seq<Visit> {
    match sort {
        Some(sort) => seq![Visit::Sort(sort)],
        None => Seq::empty(),
    }
}

/// The callbacks of a walk over a whole query: the query itself, its terms,
/// its transforms, its sort.
pub open spec fn search_visits(search: SearchModel) -> Seq<Visit> {
    seq![Visit::Search(search)] + terms_visits(search.terms) + transforms_visits(
        search.transforms,
    ) + sort_visits(search.sort)
}

/// A node that a visitor can walk.
pub trait Visitable<'ast, V: Visitor<'ast>> {
    /// The callbacks that a walk over this node makes, in order.
    spec fn visits(&self) -> Seq<Visit>;

    /// Walks the node: calls the visitor on it, then on what it holds.
    fn accept(&'ast self, visitor: &mut V)
        ensures
            drives(*old(visitor), self.visits(), *final(visitor)),
    ;
}

impl<'ast, V: Visitor<'ast>> Visitable<'ast, V> for SearchTerm<'ast> {
    open spec fn visits(&self) -> Seq<Visit> {
        seq![Visit::Term(self@)]
    }

    fn accept(&'ast self, visitor: &mut V) {
        let ghost before = *visitor;
        visitor.visit_search_term(self);
        proof {
            lemma_drives_one(before, Visit::Term(self@), *visitor);
        }
    }
}

impl<'ast, V: Visitor<'ast>> Visitable<'ast, V> for Aggregation<'ast> {
    open spec fn visits(&self) -> Seq<Visit> {
        seq![Visit::Aggregation(self@)]
    }

    fn accept(&'ast self, visitor: &mut V) {
        let ghost before = *visitor;
        visitor.visit_aggregation(self);
        proof {
            lemma_drives_one(before, Visit::Aggregation(self@), *visitor);
        }
    }
}

impl<'ast, V: Visitor<'ast>> Visitable<'ast, V> for Sort<'ast> {
    open spec fn visits(&self) -> Seq<Visit> {
        seq![Visit::Sort(self@)]
    }

    fn accept(&'ast self, visitor: &mut V) {
        let ghost before = *visitor;
        visitor.visit_sort(self);
        proof {
            lemma_drives_one(before, Visit::Sort(self@), *visitor);
        }
    }
}

impl<'ast, V: Visitor<'ast>> Visitable<'ast, V> for Transform<'ast> {
    open spec fn visits(&self) -> Seq<Visit> {
        transform_visits(self@)
    }

    fn accept(&'ast self, visitor: &mut V) {
        let ghost before = *visitor;
        visitor.visit_transform(self);
        let ghost mid = *visitor;
        proof {
            lemma_drives_one(before, Visit::Transform(self@), mid);
        }
        match self {
            Transform::Aggregate(aggregation) => {
                aggregation.accept(visitor);
                proof {
                    lemma_drives_then(
                        before,
                        seq![Visit::Transform(self@)],
                        mid,
                        seq![Visit::Aggregation(aggregation@)],
                        *visitor,
                    );
                    assert(seq![Visit::Transform(self@)] + seq![Visit::Aggregation(aggregation@)]
                        =~= transform_visits(self@));
                }
            },
            _ => (),
        }
    }
}

impl<'ast, V: Visitor<'ast>> Visitable<'ast, V> for Search<'ast> {
    open spec fn visits(&self) -> Seq<Visit> {
        search_visits(search_model(*self))
    }

    fn accept(&'ast self, visitor: &mut V) {
        let ghost model = search_model(*self);
        let ghost start = *visitor;
        visitor.visit_search(self);
        proof {
            lemma_drives_one(start, Visit::Search(model), *visitor);
        }
        let ghost head = seq![Visit::Search(model)];
        let (search_terms, transforms, sort) = self;

        let mut i: usize = 0;
        while i < search_terms.len()
            invariant
                i <= search_terms.len(),
                model.terms.len() == search_terms.len(),
                forall|k: int| 0 <= k < search_terms.len() ==> model.terms[k] == search_terms@[k]@,
                drives(start, head + terms_visits(model.terms).take(i as int), *visitor),
            decreases search_terms.len() - i,
        {
            let ghost seen = head + terms_visits(model.terms).take(i as int);
            let ghost at = *visitor;
            search_terms[i].accept(visitor);
            proof {
                lemma_drives_then(start, seen, at, seq![Visit::Term(model.terms[i as int])], *visitor);
                assert(seen + seq![Visit::Term(model.terms[i as int])] =~= head + terms_visits(
                    model.terms,
                ).take(i + 1));
            }
            i += 1;
        }
        let ghost with_terms = head + terms_visits(model.terms);
        assert(terms_visits(model.terms).take(i as int) =~= terms_visits(model.terms));

        let mut j: usize = 0;
        while j < transforms.len()
            invariant
                j <= transforms.len(),
                model.transforms.len() == transforms.len(),
                forall|k: int| 0 <= k < transforms.len() ==> model.transforms[k] == transforms@[k]@,
                drives(
                    start,
                    with_terms + transforms_visits(model.transforms.take(j as int)),
                    *visitor,
                ),
            decreases transforms.len() - j,
        {
            let ghost seen = with_terms + transforms_visits(model.transforms.take(j as int));
            let ghost at = *visitor;
            transforms[j].accept(visitor);
            proof {
                let next = model.transforms.take(j + 1);
                assert(next.drop_last() =~= model.transforms.take(j as int));
                assert(next.last() == model.transforms[j as int]);
                lemma_drives_then(start, seen, at, transform_visits(next.last()), *visitor);
                assert(seen + transform_visits(next.last()) =~= with_terms + transforms_visits(next));
            }
            j += 1;
        }
        assert(model.transforms.take(j as int) =~= model.transforms);
        let ghost with_transforms = with_terms + transforms_visits(model.transforms);

        match sort {
            Some(sor) => {
                let ghost at = *visitor;
                sor.accept(visitor);
                proof {
                    lemma_drives_then(start, with_transforms, at, seq![Visit::Sort(sor@)], *visitor);
                }
            },
            None => {
                assert(with_transforms + sort_visits(model.sort) =~= with_transforms);
            },
        }
    }
}

} // verus!

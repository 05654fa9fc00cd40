//! The syntax tree of a query, with the mathematical model of each node.

use vstd::prelude::*;
use vstd::string::StringExecFns;

verus! {

/// A parsed query: its search terms, its transforms in pipeline order, and
/// the sort that closes it, if any.
pub type Search<'input> = (Vec<SearchTerm<'input>>, Vec<Transform<'input>>, Option<Sort<'input>>);

/// A predicate on a raw line, applied before the line is read as a record.
#[derive(PartialEq, Debug)]
pub enum SearchTerm<'input> {
    /// Keep the lines that contain the text.
    Include(&'input str),
    /// Keep the lines that do not contain the text.
    Exclude(&'input str),
    /// Keep every line.
    Any(),
}

/// One step of the record pipeline.
#[derive(PartialEq, Debug)]
pub enum Transform<'input> {
    Aggregate(Aggregation<'input>),
    Filter { field: &'input str, comparison: Comparison, value: &'input str },
    Parse { field: &'input str, parser: &'input str, bindings: Vec<&'input str> },
}

/// How a filter compares the value found at its field with its literal.
#[derive(PartialEq, Debug, Clone, Copy)]
pub enum Comparison {
    Ne,
    Eq,
    Match,
}

/// An operation that consumes every record before it yields any.
#[derive(PartialEq, Debug)]
pub enum Aggregation<'input> {
    /// Count the records of each group, a group being the records that agree
    /// on every listed field.
    Count(Vec<&'input str>),
}

/// The closing sort of a query.
#[derive(PartialEq, Debug)]
pub enum Sort<'input> {
    Desc(Vec<&'input str>),
    Asc(Vec<&'input str>),
}

/// The texts of a list of string slices.
pub open spec fn texts(names: Seq<&str>) -> Seq<Seq<char>> {
    Seq::new(names.len(), |i: int| names[i]@)
}

/// Model of a [`SearchTerm`].
pub enum TermModel {
    Include(Seq<char>),
    Exclude(Seq<char>),
    Any,
}

/// Model of an [`Aggregation`].
pub enum AggregationModel {
    Count(Seq<Seq<char>>),
}

/// Model of a [`Transform`].
pub enum TransformModel {
    Aggregate(AggregationModel),
    Filter { field: Seq<char>, comparison: Comparison, value: Seq<char> },
    Parse { field: Seq<char>, parser: Seq<char>, bindings: Seq<Seq<char>> },
}

/// Model of a [`Sort`].
pub enum SortModel {
    Desc(Seq<Seq<char>>),
    Asc(Seq<Seq<char>>),
}

/// Model of a [`Search`].
pub struct SearchModel {
    pub terms: Seq<TermModel>,
    pub transforms: Seq<TransformModel>,
    pub sort: Option<SortModel>,
}

impl<'input> View for SearchTerm<'input> {
    type V = TermModel;

    open spec fn view(&self) -> TermModel {
        match *self {
            SearchTerm::Include(text) => TermModel::Include(text@),
            SearchTerm::Exclude(text) => TermModel::Exclude(text@),
            SearchTerm::Any() => TermModel::Any,
        }
    }
}

impl<'input> View for Aggregation<'input> {
    type V = AggregationModel;

    open spec fn view(&self) -> AggregationModel {
        match *self {
            Aggregation::Count(fields) => AggregationModel::Count(texts(fields@)),
        }
    }
}

impl<'input> View for Transform<'input> {
    type V = TransformModel;

    open spec fn view(&self) -> TransformModel {
        match *self {
            Transform::Aggregate(aggregation) => TransformModel::Aggregate(aggregation@),
            Transform::Filter { field, comparison, value } => TransformModel::Filter {
                field: field@,
                comparison,
                value: value@,
            },
            Transform::Parse { field, parser, bindings } => TransformModel::Parse {
                field: field@,
                parser: parser@,
                bindings: texts(bindings@),
            },
        }
    }
}

impl<'input> View for Sort<'input> {
    type V = SortModel;

    open spec fn view(&self) -> SortModel {
        match *self {
            Sort::Desc(fields) => SortModel::Desc(texts(fields@)),
            Sort::Asc(fields) => SortModel::Asc(texts(fields@)),
        }
    }
}

/// The models of a list of search terms.
pub open spec fn terms_model(terms: Seq<SearchTerm>) -> Seq<TermModel> {
    Seq::new(terms.len(), |i: int| terms[i]@)
}

/// The models of a list of transforms.
pub open spec fn transforms_model(transforms: Seq<Transform>) -> Seq<TransformModel> {
    Seq::new(transforms.len(), |i: int| transforms[i]@)
}

/// The model of a sort that may be missing.
pub open spec fn sort_model(sort: Option<Sort>) -> Option<SortModel> {
    match sort {
        Some(sort) => Some(sort@),
        None => None,
    }
}

/// The model of a whole query.
pub open spec fn search_model(search: Search) -> SearchModel {
    SearchModel {
        terms: terms_model(search.0@),
        transforms: transforms_model(search.1@),
        sort: sort_model(search.2),
    }
}

/// How `{:?}` writes a text: between double quotes, with the escapes of a
/// Rust string literal.
pub uninterp spec fn quoted(text: Seq<char>) -> Seq<char>;

/// Texts written as [`quoted`] says, with a comma and a space between each
/// two.
pub open spec fn quoted_items(texts: Seq<Seq<char>>) -> Seq<char>
    decreases texts.len(),
{
    if texts.len() == 0 {
        Seq::empty()
    } else if texts.len() == 1 {
        quoted(texts[0])
    } else {
        quoted_items(texts.drop_last()) + ", "@ + quoted(texts.last())
    }
}

/// How `{:?}` writes a list of texts: the texts as [`quoted_items`] says, in
/// square brackets.
pub open spec fn quoted_list(texts: Seq<Seq<char>>) -> Seq<char> {
    "["@ + quoted_items(texts) + "]"@
}

/// The `Debug` form of a string slice.
#[verifier::external_body]
fn debug_text(text: &str) -> (out: String)
    ensures
        out@ == quoted(text@),
{
    format!("{:?}", text)
}

/// The `Debug` form of a list of string slices: the `Debug` forms of the
/// slices, `, ` between them, in square brackets.
#[verifier::external_body]
fn debug_texts(names: &Vec<&str>) -> (out: String)
    ensures
        out@ == quoted_list(texts(names@)),
{
    format!("{:?}", names)
}

impl Comparison {
    /// The operator as a query writes it; `match` for the comparison that
    /// no query writes.
    pub open spec fn shown(self) -> Seq<char> {
        match self {
            Comparison::Ne => "!="@,
            Comparison::Eq => "="@,
            Comparison::Match => "match"@,
        }
    }

    /// Writes the comparison out.
    pub fn show(&self) -> (out: String)
        ensures
            out@ == self.shown(),
    {
        match self {
            Comparison::Ne => "!=".to_owned(),
            Comparison::Eq => "=".to_owned(),
            Comparison::Match => "match".to_owned(),
        }
    }
}

impl TermModel {
    /// The written form of a search term.
    pub open spec fn shown(self) -> Seq<char> {
        match self {
            TermModel::Include(text) => quoted(text),
            TermModel::Exclude(text) => "! "@ + quoted(text),
            TermModel::Any => "*"@,
        }
    }
}

impl AggregationModel {
    /// The written form of an aggregation.
    pub open spec fn shown(self) -> Seq<char> {
        match self {
            AggregationModel::Count(fields) => "! count by "@ + quoted_list(fields),
        }
    }
}

impl TransformModel {
    /// The written form of a transform.
    pub open spec fn shown(self) -> Seq<char> {
        match self {
            TransformModel::Aggregate(aggregation) => "! "@ + aggregation.shown(),
            TransformModel::Filter { field, comparison, value } => "! where "@ + quoted(field)
                + " "@ + comparison.shown() + " "@ + quoted(value),
            TransformModel::Parse { field, parser, bindings } => "! parse "@ + quoted(field) + " "@
                + quoted(parser) + " "@ + quoted_list(bindings),
        }
    }
}

impl SortModel {
    /// The written form of a sort.
    pub open spec fn shown(self) -> Seq<char> {
        match self {
            SortModel::Asc(fields) => "! sort by "@ + quoted_list(fields) + " asc"@,
            SortModel::Desc(fields) => "! sort by "@ + quoted_list(fields),
        }
    }
}

impl<'input> SearchTerm<'input> {
    /// Writes the term out: its text in quotes, behind `! ` where the term
    /// excludes, and `*` for the wildcard.
    pub fn show(&self) -> (out: String)
        ensures
            out@ == self@.shown(),
    {
        match self {
            SearchTerm::Include(term) => debug_text(term),
            SearchTerm::Exclude(term) => "! ".to_owned().concat(debug_text(term).as_str()),
            SearchTerm::Any() => "*".to_owned(),
        }
    }
}

impl<'input> Aggregation<'input> {
    /// Writes the aggregation out.
    pub fn show(&self) -> (out: String)
        ensures
            out@ == self@.shown(),
    {
        match self {
            Aggregation::Count(fields) => "! count by ".to_owned().concat(
                debug_texts(fields).as_str(),
            ),
        }
    }
}

impl<'input> Transform<'input> {
    /// Writes the transform out.
    pub fn show(&self) -> (out: String)
        ensures
            out@ == self@.shown(),
    {
        match self {
            Transform::Aggregate(aggregation) => "! ".to_owned().concat(
                aggregation.show().as_str(),
            ),
            Transform::Filter { field, comparison, value } => "! where ".to_owned().concat(
                debug_text(field).as_str(),
            ).concat(" ").concat(comparison.show().as_str()).concat(" ").concat(
                debug_text(value).as_str(),
            ),
            Transform::Parse { field, parser, bindings } => "! parse ".to_owned().concat(
                debug_text(field).as_str(),
            ).concat(" ").concat(debug_text(parser).as_str()).concat(" ").concat(
                debug_texts(bindings).as_str(),
            ),
        }
    }
}

impl<'input> Sort<'input> {
    /// Writes the sort out; `asc` follows an ascending sort only.
    pub fn show(&self) -> (out: String)
        ensures
            out@ == self@.shown(),
    {
        match self {
            Sort::Asc(field) => "! sort by ".to_owned().concat(debug_texts(field).as_str()).concat(
                " asc",
            ),
            Sort::Desc(field) => "! sort by ".to_owned().concat(debug_texts(field).as_str()),
        }
    }
}

} // verus!

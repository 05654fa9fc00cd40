//! A small query language for exploring line-delimited JSON logs.
//!
//! A query names texts that a line must or must not contain, then, behind
//! pipes, steps that work on the records that the lines decode to: filters
//! on a field, the extraction of new fields by a regular expression, a count
//! by group, and a closing sort.
//!
//! ```text
//! ingress !feedme | where stream != "stderr" | parse log with '(\d{3})' as code | count by code
//! ```
//!
//! [`search::SearchParser`] turns the text of a query into a [`ast::Search`].
//! [`engine::compile`] makes a plan of it, with a [`builder::SearchBuilder`]
//! that walks the tree as a [`visitor::Visitor`]: line stages and record
//! stages, which [`engine::Plan::run`] applies to a sequence of lines.
//! [`engine::execute`] does both, and [`engine::search`] parses as well. The
//! sort of a query gives no stage: [`order::sort_descending`] is a step of
//! its own.
//!
//! Every function states what it returns over the models of its arguments,
//! and [`laws`] holds what follows for all queries, lines and records.

pub mod ast;
pub mod builder;
pub mod count;
pub mod engine;
pub mod grammar;
pub mod json;
pub mod laws;
pub mod lexer;
pub mod order;
pub mod path;
pub mod pattern;
pub mod plan;
pub mod search;
pub mod stage;
pub mod text;
pub mod visitor;

//! The grammar of a query, over its tokens.
//!
//! ```text
//! search    ::= term* ('|' transform)* ('|' sort)?
//! term      ::= '!'? (word | quoted)
//! transform ::= 'where' field ('=' | '!=') (word | quoted)
//!             | 'parse' field 'with' quoted 'as' field (',' field)*
//!             | 'count' 'by' field (',' field)*
//! sort      ::= 'sort' 'by' field 'asc'?
//! field     ::= identifier ('.' identifier)*
//! ```
//!
//! The words of the grammar are keywords only where the grammar asks for
//! them: among the search terms they are words like any other. No query
//! writes the wildcard term or the comparison `match`: they are for trees
//! that a program builds. An error is the position of the first token that
//! the grammar cannot take, or the length of the query where it ends too
//! early.

use vstd::prelude::*;
use crate::ast::{AggregationModel, Comparison, SearchModel, SortModel, TermModel, TransformModel};
use crate::lexer::{Lexeme, TokenKind, lexemes};

verus! {

/// Whether a character can start an identifier.
pub open spec fn is_ident_start(c: char) -> bool {
    ('a' <= c <= 'z') || ('A' <= c <= 'Z') || c == '_'
}

/// Whether a character can stand in an identifier.
pub open spec fn is_ident_char(c: char) -> bool {
    is_ident_start(c) || ('0' <= c <= '9')
}

/// Whether the character at `i` fits a field path: an identifier starts at
/// the start of the path and after each dot, and no dot ends the path.
pub open spec fn field_char_ok(text: Seq<char>, i: int) -> bool {
    if i == 0 || text[i - 1] == '.' {
        is_ident_start(text[i])
    } else {
        is_ident_char(text[i]) || (text[i] == '.' && i + 1 < text.len())
    }
}

/// Whether a text is a field path: identifiers, at least one, with a dot
/// between each two.
pub open spec fn is_field(text: Seq<char>) -> bool {
    text.len() > 0 && forall|i: int| 0 <= i < text.len() ==> field_char_ok(text, i)
}

/// The kind of the token at `at`, if there is one.
pub open spec fn kind_at(tokens: Seq<Lexeme>, at: int) -> Option<TokenKind> {
    if 0 <= at < tokens.len() {
        Some(tokens[at].kind)
    } else {
        None
    }
}

/// Where the token at `at` starts; the end of the query where there is no
/// such token.
pub open spec fn position(tokens: Seq<Lexeme>, at: int, end: int) -> int {
    if 0 <= at < tokens.len() {
        tokens[at].at
    } else {
        end
    }
}

/// Whether the token at `at` is a word or a quoted string.
pub open spec fn is_text(tokens: Seq<Lexeme>, at: int) -> bool {
    kind_at(tokens, at) == Some(TokenKind::Word) || kind_at(tokens, at) == Some(TokenKind::Quoted)
}

/// Whether the token at `at` is the given word.
pub open spec fn is_keyword(tokens: Seq<Lexeme>, at: int, word: Seq<char>) -> bool {
    kind_at(tokens, at) == Some(TokenKind::Word) && tokens[at].text == word
}

/// Whether the token at `at` is a word that is a field path.
pub open spec fn is_field_at(tokens: Seq<Lexeme>, at: int) -> bool {
    kind_at(tokens, at) == Some(TokenKind::Word) && is_field(tokens[at].text)
}

/// The search terms from `from` on, after the terms `seen`, and where they
/// end: at a pipe or at the end of the query.
pub open spec fn parse_terms(tokens: Seq<Lexeme>, from: int, end: int, seen: Seq<TermModel>)
    -> Result<(Seq<TermModel>, int), int>
    decreases tokens.len() - from,
{
    if !(0 <= from < tokens.len()) || tokens[from].kind == TokenKind::Pipe {
        Ok((seen, from))
    } else if is_text(tokens, from) {
        parse_terms(tokens, from + 1, end, seen.push(TermModel::Include(tokens[from].text)))
    } else if tokens[from].kind == TokenKind::Bang {
        if is_text(tokens, from + 1) {
            parse_terms(
                tokens,
                from + 2,
                end,
                seen.push(TermModel::Exclude(tokens[from + 1].text)),
            )
        } else {
            Err(position(tokens, from + 1, end))
        }
    } else {
        Err(tokens[from].at)
    }
}

/// A list of fields with commas between them, from `from` on and after the
/// fields `seen`, and where the list ends.
pub open spec fn parse_fields(tokens: Seq<Lexeme>, from: int, end: int, seen: Seq<Seq<char>>)
    -> Result<(Seq<Seq<char>>, int), int>
    decreases tokens.len() - from,
{
    if !is_field_at(tokens, from) {
        Err(position(tokens, from, end))
    } else if kind_at(tokens, from + 1) == Some(TokenKind::Comma) {
        parse_fields(tokens, from + 2, end, seen.push(tokens[from].text))
    } else {
        Ok((seen.push(tokens[from].text), from + 1))
    }
}

/// What follows `where`: a field, `=` or `!=`, and a value.
pub open spec fn parse_filter(tokens: Seq<Lexeme>, from: int, end: int) -> Result<
    (TransformModel, int),
    int,
> {
    if !is_field_at(tokens, from) {
        Err(position(tokens, from, end))
    } else if kind_at(tokens, from + 1) != Some(TokenKind::Equal) && kind_at(tokens, from + 1)
        != Some(TokenKind::NotEqual) {
        Err(position(tokens, from + 1, end))
    } else if !is_text(tokens, from + 2) {
        Err(position(tokens, from + 2, end))
    } else {
        Ok(
            (
                TransformModel::Filter {
                    field: tokens[from].text,
                    comparison: if tokens[from + 1].kind == TokenKind::Equal {
                        Comparison::Eq
                    } else {
                        Comparison::Ne
                    },
                    value: tokens[from + 2].text,
                },
                from + 3,
            ),
        )
    }
}

/// What follows `parse`: a field, `with`, a quoted pattern, `as`, and the
/// bindings.
pub open spec fn parse_extract(tokens: Seq<Lexeme>, from: int, end: int) -> Result<
    (TransformModel, int),
    int,
> {
    if !is_field_at(tokens, from) {
        Err(position(tokens, from, end))
    } else if !is_keyword(tokens, from + 1, "with"@) {
        Err(position(tokens, from + 1, end))
    } else if kind_at(tokens, from + 2) != Some(TokenKind::Quoted) {
        Err(position(tokens, from + 2, end))
    } else if !is_keyword(tokens, from + 3, "as"@) {
        Err(position(tokens, from + 3, end))
    } else {
        match parse_fields(tokens, from + 4, end, Seq::empty()) {
            Ok((bindings, next)) => Ok(
                (
                    TransformModel::Parse {
                        field: tokens[from].text,
                        parser: tokens[from + 2].text,
                        bindings,
                    },
                    next,
                ),
            ),
            Err(at) => Err(at),
        }
    }
}

/// What follows `count`: `by` and the fields of the group.
pub open spec fn parse_count(tokens: Seq<Lexeme>, from: int, end: int) -> Result<
    (TransformModel, int),
    int,
> {
    if !is_keyword(tokens, from, "by"@) {
        Err(position(tokens, from, end))
    } else {
        match parse_fields(tokens, from + 1, end, Seq::empty()) {
            Ok((fields, next)) => Ok(
                (TransformModel::Aggregate(AggregationModel::Count(fields)), next),
            ),
            Err(at) => Err(at),
        }
    }
}

/// What follows `sort`: `by`, a field, and `asc` or nothing. Without `asc`
/// the sort is descending.
pub open spec fn parse_sort(tokens: Seq<Lexeme>, from: int, end: int) -> Result<
    (SortModel, int),
    int,
> {
    if !is_keyword(tokens, from, "by"@) {
        Err(position(tokens, from, end))
    } else if !is_field_at(tokens, from + 1) {
        Err(position(tokens, from + 1, end))
    } else if is_keyword(tokens, from + 2, "asc"@) {
        Ok((SortModel::Asc(seq![tokens[from + 1].text]), from + 3))
    } else {
        Ok((SortModel::Desc(seq![tokens[from + 1].text]), from + 2))
    }
}

/// A list of fields ends after where it starts.
pub proof fn lemma_fields_advance(tokens: Seq<Lexeme>, from: int, end: int, seen: Seq<Seq<char>>)
    ensures
        parse_fields(tokens, from, end, seen) matches Ok((fields, next)) ==> from < next
            <= tokens.len(),
    decreases tokens.len() - from,
{
    if is_field_at(tokens, from) && kind_at(tokens, from + 1) == Some(TokenKind::Comma) {
        lemma_fields_advance(tokens, from + 2, end, seen.push(tokens[from].text));
    }
}

/// The clauses from `from` on, each behind its pipe, after the transforms
/// `seen`. A sort ends the query.
pub open spec fn parse_clauses(
    tokens: Seq<Lexeme>,
    from: int,
    end: int,
    seen: Seq<TransformModel>,
) -> Result<(Seq<TransformModel>, Option<SortModel>), int>
    decreases tokens.len() - from,
{
    if !(0 <= from < tokens.len()) {
        Ok((seen, None))
    } else if tokens[from].kind != TokenKind::Pipe {
        Err(tokens[from].at)
    } else if is_keyword(tokens, from + 1, "sort"@) {
        match parse_sort(tokens, from + 2, end) {
            Ok((sort, next)) => if next >= tokens.len() {
                Ok((seen, Some(sort)))
            } else {
                Err(position(tokens, next, end))
            },
            Err(at) => Err(at),
        }
    } else {
        let clause = if is_keyword(tokens, from + 1, "where"@) {
            parse_filter(tokens, from + 2, end)
        } else if is_keyword(tokens, from + 1, "parse"@) {
            parse_extract(tokens, from + 2, end)
        } else if is_keyword(tokens, from + 1, "count"@) {
            parse_count(tokens, from + 2, end)
        } else {
            Err(position(tokens, from + 1, end))
        };
        match clause {
            Ok((transform, next)) => {
                proof {
                    // The list of fields of a parse clause starts six tokens
                    // behind the pipe, that of a count clause three.
                    lemma_fields_advance(tokens, from + 6, end, Seq::empty());
                    lemma_fields_advance(tokens, from + 3, end, Seq::empty());
                }
                parse_clauses(tokens, next, end, seen.push(transform))
            },
            Err(at) => Err(at),
        }
    }
}

/// The query that the tokens write; `end` is the length of the text.
pub open spec fn parse_tokens(tokens: Seq<Lexeme>, end: int) -> Result<SearchModel, int> {
    match parse_terms(tokens, 0, end, Seq::empty()) {
        Ok((terms, next)) => match parse_clauses(tokens, next, end, Seq::empty()) {
            Ok((transforms, sort)) => Ok(SearchModel { terms, transforms, sort }),
            Err(at) => Err(at),
        },
        Err(at) => Err(at),
    }
}

/// The query that a text writes, or the position of its first error.
pub open spec fn parse_query(input: Seq<char>) -> Result<SearchModel, int> {
    match lexemes(input) {
        Ok(tokens) => parse_tokens(tokens, input.len() as int),
        Err(at) => Err(at),
    }
}

} // verus!

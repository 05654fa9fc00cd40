//! The parser: from the text of a query to its syntax tree.

use vstd::prelude::*;
use vstd::string::StrSliceExecFns;
use crate::ast::{
    Aggregation, Comparison, Search, SearchTerm, Sort, Transform, search_model, terms_model, texts,
    transforms_model,
};
use crate::grammar::{
    field_char_ok, is_field, is_field_at, is_ident_char, is_ident_start, is_keyword, is_text,
    kind_at, lemma_fields_advance, parse_clauses, parse_count, parse_extract, parse_fields,
    parse_filter, parse_query, parse_sort, parse_terms, position,
};
use crate::lexer::{Lexeme, Token, TokenKind, lex, lexemes_of};
use crate::text::chars_of;

verus! {

/// A query that the grammar does not accept.
#[derive(Clone, Copy, Debug, PartialEq, Eq)]
pub struct SyntaxError {
    /// Where the error is: the position, counted in characters, of the token
    /// that cannot stand there, of an opening quote that is never closed, or
    /// the length of the query where it ends too early.
    pub position: usize,
}

/// A query under parsing: its text, the characters of the text, and its
/// tokens.
struct Source<'input, 'a> {
    input: &'input str,
    chars: &'a Vec<char>,
    tokens: &'a Vec<Token>,
}

fn ident_start(c: char) -> (b: bool)
    ensures
        b == is_ident_start(c),
{
    ('a' <= c && c <= 'z') || ('A' <= c && c <= 'Z') || c == '_'
}

fn ident_char(c: char) -> (b: bool)
    ensures
        b == is_ident_char(c),
{
    ident_start(c) || ('0' <= c && c <= '9')
}

impl<'input, 'a> Source<'input, 'a> {
    spec fn wf(&self) -> bool {
        &&& self.chars@ == self.input@
        &&& forall|i: int|
            0 <= i < self.tokens.len() ==> (#[trigger] self.tokens@[i]).within(self.chars@)
    }

    spec fn model(&self) -> Seq<Lexeme> {
        lexemes_of(self.tokens@, self.chars@)
    }

    spec fn end(&self) -> int {
        self.chars.len() as int
    }

    fn kind(&self, at: usize) -> (kind: Option<TokenKind>)
        ensures
            kind == kind_at(self.model(), at as int),
    {
        if at < self.tokens.len() {
            Some(self.tokens[at].kind)
        } else {
            None
        }
    }

    fn fail<T>(&self, at: usize) -> (out: Result<T, SyntaxError>)
        requires
            self.wf(),
        ensures
            out matches Err(error) && error.position == position(self.model(), at as int, self.end()),
    {
        if at < self.tokens.len() {
            Err(SyntaxError { position: self.tokens[at].at })
        } else {
            Err(SyntaxError { position: self.chars.len() })
        }
    }

    fn text(&self, at: usize) -> (text: &'input str)
        requires
            self.wf(),
            at < self.tokens.len(),
        ensures
            text@ == self.model()[at as int].text,
    {
        let token = &self.tokens[at];
        assert(token.within(self.chars@));
        self.input.substring_char(token.start, token.end)
    }

    fn has_text(&self, at: usize) -> (b: bool)
        ensures
            b == is_text(self.model(), at as int),
    {
        match self.kind(at) {
            Some(TokenKind::Word) => true,
            Some(TokenKind::Quoted) => true,
            _ => false,
        }
    }

    fn has_kind(&self, at: usize, kind: TokenKind) -> (b: bool)
        ensures
            b == (kind_at(self.model(), at as int) == Some(kind)),
    {
        match self.kind(at) {
            Some(found) => found == kind,
            None => false,
        }
    }

    fn has_keyword(&self, at: usize, word: &str) -> (b: bool)
        requires
            self.wf(),
        ensures
            b == is_keyword(self.model(), at as int, word@),
    {
        if !self.has_kind(at, TokenKind::Word) {
            return false;
        }
        let token = &self.tokens[at];
        assert(token.within(self.chars@));
        let ghost text = self.chars@.subrange(token.start as int, token.end as int);
        let letters = chars_of(word);
        if token.end - token.start != letters.len() {
            assert(text.len() != word@.len());
            return false;
        }
        let mut i: usize = 0;
        while i < letters.len()
            invariant
                i <= letters.len(),
                token.start + letters.len() == token.end,
                token.end <= self.chars.len(),
                text == self.chars@.subrange(token.start as int, token.end as int),
                letters@ == word@,
                is_keyword(self.model(), at as int, word@) == (text == word@),
                forall|k: int| 0 <= k < i ==> #[trigger] text[k] == word@[k],
            decreases letters.len() - i,
        {
            if self.chars[token.start + i] != letters[i] {
                assert(text[i as int] != word@[i as int]);
                return false;
            }
            i += 1;
        }
        assert(text =~= word@);
        true
    }

    fn has_field(&self, at: usize) -> (b: bool)
        requires
            self.wf(),
        ensures
            b == is_field_at(self.model(), at as int),
    {
        if !self.has_kind(at, TokenKind::Word) {
            return false;
        }
        let token = &self.tokens[at];
        assert(token.within(self.chars@));
        let ghost text = self.chars@.subrange(token.start as int, token.end as int);
        if token.start == token.end {
            return false;
        }
        let mut i: usize = token.start;
        let mut fresh = true;
        while i < token.end
            invariant
                token.start <= i <= token.end <= self.chars.len(),
                text == self.chars@.subrange(token.start as int, token.end as int),
                is_field_at(self.model(), at as int) == is_field(text),
                fresh == (i == token.start || self.chars@[i - 1] == '.'),
                forall|k: int| 0 <= k < i - token.start ==> field_char_ok(text, k),
            decreases token.end - i,
        {
            let c = self.chars[i];
            let ghost k = i - token.start;
            assert(text[k] == c);
            assert(k > 0 ==> text[k - 1] == self.chars@[i - 1]);
            let ok = if fresh {
                ident_start(c)
            } else {
                ident_char(c) || (c == '.' && i + 1 < token.end)
            };
            if !ok {
                assert(!field_char_ok(text, k));
                return false;
            }
            fresh = c == '.';
            i += 1;
        }
        true
    }

    fn terms(&self) -> (out: Result<(Vec<SearchTerm<'input>>, usize), SyntaxError>)
        requires
            self.wf(),
        ensures
            match out {
                Ok((terms, next)) => parse_terms(self.model(), 0, self.end(), Seq::empty()) == Ok::<
                    _,
                    int,
                >((terms_model(terms@), next as int)) && next <= self.tokens.len(),
                Err(error) => parse_terms(self.model(), 0, self.end(), Seq::empty()) == Err::<
                    (Seq<crate::ast::TermModel>, int),
                    int,
                >(error.position as int),
            },
    {
        let mut terms: Vec<SearchTerm<'input>> = Vec::new();
        let mut from: usize = 0;
        assert(terms_model(terms@) =~= Seq::empty());
        loop
            invariant
                self.wf(),
                from <= self.tokens.len(),
                parse_terms(self.model(), 0, self.end(), Seq::empty()) == parse_terms(
                    self.model(),
                    from as int,
                    self.end(),
                    terms_model(terms@),
                ),
            decreases self.tokens.len() - from,
        {
            let ghost seen = terms_model(terms@);
            if from >= self.tokens.len() || self.has_kind(from, TokenKind::Pipe) {
                return Ok((terms, from));
            } else if self.has_text(from) {
                let term = SearchTerm::Include(self.text(from));
                terms.push(term);
                assert(terms_model(terms@) =~= seen.push(term@));
                from += 1;
            } else if self.has_kind(from, TokenKind::Bang) {
                if self.has_text(from + 1) {
                    let term = SearchTerm::Exclude(self.text(from + 1));
                    terms.push(term);
                    assert(terms_model(terms@) =~= seen.push(term@));
                    from += 2;
                } else {
                    return self.fail(from + 1);
                }
            } else {
                return self.fail(from);
            }
        }
    }

    fn fields(&self, start: usize) -> (out: Result<(Vec<&'input str>, usize), SyntaxError>)
        requires
            self.wf(),
            start <= self.tokens.len(),
        ensures
            match out {
                Ok((fields, next)) => parse_fields(
                    self.model(),
                    start as int,
                    self.end(),
                    Seq::empty(),
                ) == Ok::<_, int>((texts(fields@), next as int)) && start < next
                    <= self.tokens.len(),
                Err(error) => parse_fields(self.model(), start as int, self.end(), Seq::empty())
                    == Err::<(Seq<Seq<char>>, int), int>(error.position as int),
            },
    {
        let mut fields: Vec<&'input str> = Vec::new();
        let mut from: usize = start;
        assert(texts(fields@) =~= Seq::empty());
        loop
            invariant
                self.wf(),
                start <= from <= self.tokens.len(),
                parse_fields(self.model(), start as int, self.end(), Seq::empty()) == parse_fields(
                    self.model(),
                    from as int,
                    self.end(),
                    texts(fields@),
                ),
            decreases self.tokens.len() - from,
        {
            let ghost seen = texts(fields@);
            if !self.has_field(from) {
                return self.fail(from);
            }
            let field = self.text(from);
            fields.push(field);
            assert(texts(fields@) =~= seen.push(field@));
            if self.has_kind(from + 1, TokenKind::Comma) {
                from += 2;
            } else {
                return Ok((fields, from + 1));
            }
        }
    }

    fn filter(&self, from: usize) -> (out: Result<(Transform<'input>, usize), SyntaxError>)
        requires
            self.wf(),
            from <= self.tokens.len(),
        ensures
            match out {
                Ok((transform, next)) => parse_filter(self.model(), from as int, self.end()) == Ok::<
                    _,
                    int,
                >((transform@, next as int)) && from < next <= self.tokens.len(),
                Err(error) => parse_filter(self.model(), from as int, self.end()) == Err::<
                    (crate::ast::TransformModel, int),
                    int,
                >(error.position as int),
            },
    {
        if !self.has_field(from) {
            return self.fail(from);
        }
        let comparison = match self.kind(from + 1) {
            Some(TokenKind::Equal) => Comparison::Eq,
            Some(TokenKind::NotEqual) => Comparison::Ne,
            _ => {
                return self.fail(from + 1);
            },
        };
        if !self.has_text(from + 2) {
            return self.fail(from + 2);
        }
        Ok(
            (
                Transform::Filter {
                    field: self.text(from),
                    comparison,
                    value: self.text(from + 2),
                },
                from + 3,
            ),
        )
    }

    fn extract(&self, from: usize) -> (out: Result<(Transform<'input>, usize), SyntaxError>)
        requires
            self.wf(),
            from <= self.tokens.len(),
        ensures
            match out {
                Ok((transform, next)) => parse_extract(self.model(), from as int, self.end())
                    == Ok::<_, int>((transform@, next as int)) && from < next <= self.tokens.len(),
                Err(error) => parse_extract(self.model(), from as int, self.end()) == Err::<
                    (crate::ast::TransformModel, int),
                    int,
                >(error.position as int),
            },
    {
        if !self.has_field(from) {
            return self.fail(from);
        }
        if !self.has_keyword(from + 1, "with") {
            return self.fail(from + 1);
        }
        if !self.has_kind(from + 2, TokenKind::Quoted) {
            return self.fail(from + 2);
        }
        if !self.has_keyword(from + 3, "as") {
            return self.fail(from + 3);
        }
        match self.fields(from + 4) {
            Ok((bindings, next)) => Ok(
                (
                    Transform::Parse {
                        field: self.text(from),
                        parser: self.text(from + 2),
                        bindings,
                    },
                    next,
                ),
            ),
            Err(error) => Err(error),
        }
    }

    fn count(&self, from: usize) -> (out: Result<(Transform<'input>, usize), SyntaxError>)
        requires
            self.wf(),
            from <= self.tokens.len(),
        ensures
            match out {
                Ok((transform, next)) => parse_count(self.model(), from as int, self.end()) == Ok::<
                    _,
                    int,
                >((transform@, next as int)) && from < next <= self.tokens.len(),
                Err(error) => parse_count(self.model(), from as int, self.end()) == Err::<
                    (crate::ast::TransformModel, int),
                    int,
                >(error.position as int),
            },
    {
        if !self.has_keyword(from, "by") {
            return self.fail(from);
        }
        match self.fields(from + 1) {
            Ok((fields, next)) => Ok((Transform::Aggregate(Aggregation::Count(fields)), next)),
            Err(error) => Err(error),
        }
    }

    fn sort(&self, from: usize) -> (out: Result<(Sort<'input>, usize), SyntaxError>)
        requires
            self.wf(),
            from <= self.tokens.len(),
        ensures
            match out {
                Ok((sort, next)) => parse_sort(self.model(), from as int, self.end()) == Ok::<
                    _,
                    int,
                >((sort@, next as int)) && from < next,
                Err(error) => parse_sort(self.model(), from as int, self.end()) == Err::<
                    (crate::ast::SortModel, int),
                    int,
                >(error.position as int),
            },
    {
        if !self.has_keyword(from, "by") {
            return self.fail(from);
        }
        if !self.has_field(from + 1) {
            return self.fail(from + 1);
        }
        let mut fields: Vec<&'input str> = Vec::new();
        let field = self.text(from + 1);
        fields.push(field);
        assert(texts(fields@) =~= seq![field@]);
        if self.has_keyword(from + 2, "asc") {
            Ok((Sort::Asc(fields), from + 3))
        } else {
            Ok((Sort::Desc(fields), from + 2))
        }
    }
}

impl<'input, 'a> Source<'input, 'a> {
    fn clauses(&self, start: usize) -> (out: Result<
        (Vec<Transform<'input>>, Option<Sort<'input>>),
        SyntaxError,
    >)
        requires
            self.wf(),
            start <= self.tokens.len(),
        ensures
            match out {
                Ok((transforms, sort)) => parse_clauses(
                    self.model(),
                    start as int,
                    self.end(),
                    Seq::empty(),
                ) == Ok::<_, int>((transforms_model(transforms@), crate::ast::sort_model(sort))),
                Err(error) => parse_clauses(self.model(), start as int, self.end(), Seq::empty())
                    == Err::<
                    (Seq<crate::ast::TransformModel>, Option<crate::ast::SortModel>),
                    int,
                >(error.position as int),
            },
    {
        let mut transforms: Vec<Transform<'input>> = Vec::new();
        let mut from: usize = start;
        assert(transforms_model(transforms@) =~= Seq::empty());
        loop
            invariant
                self.wf(),
                from <= self.tokens.len(),
                parse_clauses(self.model(), start as int, self.end(), Seq::empty())
                    == parse_clauses(
                    self.model(),
                    from as int,
                    self.end(),
                    transforms_model(transforms@),
                ),
            decreases self.tokens.len() - from,
        {
            let ghost seen = transforms_model(transforms@);
            if from >= self.tokens.len() {
                return Ok((transforms, None));
            }
            if !self.has_kind(from, TokenKind::Pipe) {
                return self.fail(from);
            }
            if self.has_keyword(from + 1, "sort") {
                match self.sort(from + 2) {
                    Ok((sort, next)) => {
                        if next >= self.tokens.len() {
                            return Ok((transforms, Some(sort)));
                        } else {
                            return self.fail(next);
                        }
                    },
                    Err(error) => {
                        return Err(error);
                    },
                }
            }
            let clause = if self.has_keyword(from + 1, "where") {
                self.filter(from + 2)
            } else if self.has_keyword(from + 1, "parse") {
                self.extract(from + 2)
            } else if self.has_keyword(from + 1, "count") {
                self.count(from + 2)
            } else {
                self.fail(from + 1)
            };
            match clause {
                Ok((transform, next)) => {
                    transforms.push(transform);
                    assert(transforms_model(transforms@) =~= seen.push(transform@));
                    from = next;
                },
                Err(error) => {
                    return Err(error);
                },
            }
        }
    }
}

/// The parser of queries.
#[derive(Clone, Copy, Debug, Default)]
pub struct SearchParser;

impl SearchParser {
    /// A parser.
    pub fn new() -> SearchParser {
        SearchParser
    }

    /// Parses a query. The tree that comes back borrows its texts from the
    /// query; the text of a quoted string is what stands between its quotes,
    /// character for character. A pattern that holds double quotes is best
    /// written in single quotes; in double quotes each of them needs a
    /// backslash before it, which stays in the text and which the regex
    /// engine reads as an escape. A query of white space alone is the query
    /// without terms, transforms and sort.
    pub fn parse<'input>(&self, input: &'input str) -> (out: Result<Search<'input>, SyntaxError>)
        ensures
            match out {
                Ok(search) => parse_query(input@) == Ok::<_, int>(search_model(search)),
                Err(error) => parse_query(input@) == Err::<crate::ast::SearchModel, int>(
                    error.position as int,
                ),
            },
    {
        let chars = chars_of(input);
        let tokens = match lex(&chars) {
            Ok(tokens) => tokens,
            Err(at) => {
                return Err(SyntaxError { position: at });
            },
        };
        let source = Source { input, chars: &chars, tokens: &tokens };
        let (terms, next) = match source.terms() {
            Ok(found) => found,
            Err(error) => {
                return Err(error);
            },
        };
        match source.clauses(next) {
            Ok((transforms, sort)) => Ok((terms, transforms, sort)),
            Err(error) => Err(error),
        }
    }
}

} // verus!

//! Cutting the text of a query into tokens.
//!
//! White space separates tokens. `|`, `,`, `=`, `!` and `!=` are tokens of
//! their own. A string in double or in single quotes is one token, whose
//! text is what stands between the quotes, character for character. In
//! double quotes a backslash takes the next character with it, so that `\"`
//! does not close the string; both characters stay in the text. In single
//! quotes a backslash is a character like any other. Any other run of
//! characters is a word.

use vstd::prelude::*;

verus! {

/// The kinds of token.
#[derive(Clone, Copy, PartialEq, Eq, Debug, Structural)]
pub enum TokenKind {
    Word,
    Quoted,
    Pipe,
    Bang,
    Equal,
    NotEqual,
    Comma,
}

/// A token: its kind, where its text starts and ends in the query, and
/// where the token itself starts (for a quoted string, at its opening
/// quote). Positions count characters.
#[derive(Clone, Copy, Debug)]
pub struct Token {
    pub kind: TokenKind,
    pub start: usize,
    pub end: usize,
    pub at: usize,
}

/// Model of a token: its kind, its text, and where it starts.
pub struct Lexeme {
    pub kind: TokenKind,
    pub text: Seq<char>,
    pub at: int,
}

impl Token {
    /// The model of a token of `input`.
    pub open spec fn lexeme(self, input: Seq<char>) -> Lexeme {
        Lexeme {
            kind: self.kind,
            text: input.subrange(self.start as int, self.end as int),
            at: self.at as int,
        }
    }

    /// Whether the positions of the token lie inside `input`.
    pub open spec fn within(self, input: Seq<char>) -> bool {
        self.at <= self.start <= self.end <= input.len() && self.at < input.len()
    }
}

/// The models of the tokens of `input`.
pub open spec fn lexemes_of(tokens: Seq<Token>, input: Seq<char>) -> Seq<Lexeme> {
    Seq::new(tokens.len(), |i: int| tokens[i].lexeme(input))
}

/// Whether a character is white space: one of the characters with the
/// Unicode property `White_Space`.
pub open spec fn is_blank(c: char) -> bool {
    ('\u{9}' <= c <= '\u{d}') || c == ' ' || c == '\u{85}' || c == '\u{a0}' || c == '\u{1680}' || (
    '\u{2000}' <= c <= '\u{200a}') || c == '\u{2028}' || c == '\u{2029}' || c == '\u{202f}' || c
        == '\u{205f}' || c == '\u{3000}'
}

/// Whether a character can stand in a word.
pub open spec fn is_word_char(c: char) -> bool {
    !is_blank(c) && c != '|' && c != ',' && c != '=' && c != '!' && c != '"' && c != '\''
}

/// Where the word that starts at `from` ends.
pub open spec fn word_end(input: Seq<char>, from: int) -> int
    decreases input.len() - from,
{
    if 0 <= from < input.len() && is_word_char(input[from]) {
        word_end(input, from + 1)
    } else {
        from
    }
}

/// Where the quote that closes a string stands, the text of the string
/// going on at `from`; the length of the input where there is none. In
/// double quotes a backslash and the character behind it are passed over
/// together.
pub open spec fn quote_end(input: Seq<char>, from: int, quote: char) -> int
    decreases input.len() - from,
{
    if !(0 <= from < input.len()) || input[from] == quote {
        from
    } else if quote == '"' && input[from] == '\\' && from + 1 < input.len() {
        quote_end(input, from + 2, quote)
    } else {
        quote_end(input, from + 1, quote)
    }
}

/// A word ends after its first character, inside the input.
pub proof fn lemma_word_end_bounds(input: Seq<char>, from: int)
    requires
        0 <= from <= input.len(),
    ensures
        from <= word_end(input, from) <= input.len(),
        from < input.len() && is_word_char(input[from]) ==> from < word_end(input, from),
    decreases input.len() - from,
{
    if from < input.len() && is_word_char(input[from]) {
        lemma_word_end_bounds(input, from + 1);
    }
}

/// A closing quote is looked for from the start of the string to the end
/// of the input.
pub proof fn lemma_quote_end_bounds(input: Seq<char>, from: int, quote: char)
    requires
        0 <= from <= input.len(),
    ensures
        from <= quote_end(input, from, quote) <= input.len(),
    decreases input.len() - from,
{
    if from < input.len() && input[from] != quote {
        if quote == '"' && input[from] == '\\' && from + 1 < input.len() {
            lemma_quote_end_bounds(input, from + 2, quote);
        } else {
            lemma_quote_end_bounds(input, from + 1, quote);
        }
    }
}

/// The tokens of `input` from `from` on, after the tokens `seen`. An
/// opening quote that is never closed is an error at that quote.
pub open spec fn lex_from(input: Seq<char>, from: int, seen: Seq<Lexeme>) -> Result<
    Seq<Lexeme>,
    int,
>
    decreases input.len() - from,
{
    if !(0 <= from < input.len()) {
        Ok(seen)
    } else {
        let c = input[from];
        if is_blank(c) {
            lex_from(input, from + 1, seen)
        } else if c == '"' || c == '\'' {
            let end = quote_end(input, from + 1, c);
            if end >= input.len() {
                Err(from)
            } else {
                proof {
                    lemma_quote_end_bounds(input, from + 1, c);
                }
                lex_from(
                    input,
                    end + 1,
                    seen.push(
                        Lexeme {
                            kind: TokenKind::Quoted,
                            text: input.subrange(from + 1, end),
                            at: from,
                        },
                    ),
                )
            }
        } else if is_word_char(c) {
            let end = word_end(input, from);
            proof {
                lemma_word_end_bounds(input, from);
            }
            lex_from(
                input,
                end,
                seen.push(
                    Lexeme { kind: TokenKind::Word, text: input.subrange(from, end), at: from },
                ),
            )
        } else {
            let two = c == '!' && from + 1 < input.len() && input[from + 1] == '=';
            let kind = if c == '|' {
                TokenKind::Pipe
            } else if c == ',' {
                TokenKind::Comma
            } else if c == '=' {
                TokenKind::Equal
            } else if two {
                TokenKind::NotEqual
            } else {
                TokenKind::Bang
            };
            let end = if two {
                from + 2
            } else {
                from + 1
            };
            lex_from(
                input,
                end,
                seen.push(Lexeme { kind, text: input.subrange(from, end), at: from }),
            )
        }
    }
}

/// The tokens of a query.
pub open spec fn lexemes(input: Seq<char>) -> Result<Seq<Lexeme>, int> {
    lex_from(input, 0, Seq::empty())
}

/// A word goes on to the first character that cannot stand in a word.
pub proof fn lemma_word_end(input: Seq<char>, from: int, end: int)
    requires
        0 <= from <= end <= input.len(),
        forall|k: int| from <= k < end ==> is_word_char(#[trigger] input[k]),
        end == input.len() || !is_word_char(input[end]),
    ensures
        word_end(input, from) == end,
    decreases end - from,
{
    if from < end {
        lemma_word_end(input, from + 1, end);
    }
}

fn blank(c: char) -> (b: bool)
    ensures
        b == is_blank(c),
{
    ('\u{9}' <= c && c <= '\u{d}') || c == ' ' || c == '\u{85}' || c == '\u{a0}' || c
        == '\u{1680}' || ('\u{2000}' <= c && c <= '\u{200a}') || c == '\u{2028}' || c
        == '\u{2029}' || c == '\u{202f}' || c == '\u{205f}' || c == '\u{3000}'
}

fn word_char(c: char) -> (b: bool)
    ensures
        b == is_word_char(c),
{
    !blank(c) && c != '|' && c != ',' && c != '=' && c != '!' && c != '"' && c != '\''
}

/// Cuts a query into tokens; the error is the position of an opening quote
/// that is never closed.
pub fn lex(input: &Vec<char>) -> (out: Result<Vec<Token>, usize>)
    ensures
        match out {
            Ok(tokens) => lexemes(input@) == Ok::<Seq<Lexeme>, int>(lexemes_of(tokens@, input@))
                && forall|i: int| 0 <= i < tokens.len() ==> (#[trigger] tokens@[i]).within(input@),
            Err(at) => lexemes(input@) == Err::<Seq<Lexeme>, int>(at as int) && at < input.len(),
        },
{
    let mut tokens: Vec<Token> = Vec::new();
    let mut from: usize = 0;
    assert(lexemes_of(tokens@, input@) =~= Seq::<Lexeme>::empty());
    while from < input.len()
        invariant
            from <= input.len(),
            lexemes(input@) == lex_from(input@, from as int, lexemes_of(tokens@, input@)),
            forall|i: int| 0 <= i < tokens.len() ==> (#[trigger] tokens@[i]).within(input@),
        decreases input.len() - from,
    {
        let c = input[from];
        let ghost seen = lexemes_of(tokens@, input@);
        if blank(c) {
            from += 1;
        } else if c == '"' || c == '\'' {
            let mut end: usize = from + 1;
            while end < input.len() && input[end] != c
                invariant
                    from < end <= input.len(),
                    quote_end(input@, from + 1, c) == quote_end(input@, end as int, c),
                decreases input.len() - end,
            {
                if c == '"' && input[end] == '\\' && end + 1 < input.len() {
                    end += 2;
                } else {
                    end += 1;
                }
            }
            if end >= input.len() {
                return Err(from);
            }
            let token = Token { kind: TokenKind::Quoted, start: from + 1, end, at: from };
            tokens.push(token);
            assert(lexemes_of(tokens@, input@) =~= seen.push(token.lexeme(input@)));
            from = end + 1;
        } else if word_char(c) {
            let mut end: usize = from + 1;
            while end < input.len() && word_char(input[end])
                invariant
                    from < end <= input.len(),
                    forall|k: int| from <= k < end ==> is_word_char(#[trigger] input@[k]),
                decreases input.len() - end,
            {
                end += 1;
            }
            proof {
                lemma_word_end(input@, from as int, end as int);
            }
            let token = Token { kind: TokenKind::Word, start: from, end, at: from };
            tokens.push(token);
            assert(lexemes_of(tokens@, input@) =~= seen.push(token.lexeme(input@)));
            from = end;
        } else {
            let two = c == '!' && from + 1 < input.len() && input[from + 1] == '=';
            let kind = if c == '|' {
                TokenKind::Pipe
            } else if c == ',' {
                TokenKind::Comma
            } else if c == '=' {
                TokenKind::Equal
            } else if two {
                TokenKind::NotEqual
            } else {
                TokenKind::Bang
            };
            let end: usize = if two {
                from + 2
            } else {
                from + 1
            };
            let token = Token { kind, start: from, end, at: from };
            tokens.push(token);
            assert(lexemes_of(tokens@, input@) =~= seen.push(token.lexeme(input@)));
            from = end;
        }
    }
    Ok(tokens)
}

} // verus!

//! The lexer: source text to an ordered token stream, or a single lexical
//! error with its position.
//!
//! The whole behavior is pinned by the recursive specification
//! [`lex_from`]; [`tokenize`] is proved to return exactly what it says.

use vstd::prelude::*;

use crate::token::{keyword_from, keyword_of, Token, TokenKind, TokenView};

verus! {

/// Why lexing failed.
#[derive(Clone, Copy, Debug, PartialEq, Eq, Structural)]
pub enum LexErrorKind {
    InvalidCharacter,
    UnterminatedString,
}

/// A lexical error with the line and column (both 1-based, in characters)
/// where it was found.
#[derive(Clone, Copy, Debug, PartialEq, Eq, Structural)]
pub struct LexError {
    pub kind: LexErrorKind,
    pub line: usize,
    pub col: usize,
}

/// A token of the specification-level lexer: its kind and position.
#[verifier::ext_equal]
pub ghost struct SpecToken {
    pub kind: TokenView,
    pub line: int,
    pub col: int,
}

/// What lexing a text yields: the full token sequence, or the kind and
/// position of the first error.
#[verifier::ext_equal]
pub ghost enum LexOut {
    Tokens(Seq<SpecToken>),
    Failure(LexErrorKind, int, int),
}

/// Whitespace other than a line break.
pub open spec fn is_space(c: char) -> bool {
    c == ' ' || c == '\t' || c == '\r'
}

/// A character that may open an identifier.
pub open spec fn is_ident_start(c: char) -> bool {
    ('a' <= c && c <= 'z') || ('A' <= c && c <= 'Z') || c == '_'
}

/// A character that may continue an identifier.
pub open spec fn is_ident_char(c: char) -> bool {
    is_ident_start(c) || ('0' <= c && c <= '9')
}

/// The first position at or after `i` that no longer belongs to an
/// identifier.
pub open spec fn ident_end(s: Seq<char>, i: int) -> int
    recommends
        0 <= i <= s.len(),
    decreases s.len() - i,
{
    if 0 <= i < s.len() && is_ident_char(s[i]) {
        ident_end(s, i + 1)
    } else {
        i
    }
}

/// The first position at or after `i` that ends a string literal: a
/// closing quote, a line break, or the end of the text.
pub open spec fn str_end(s: Seq<char>, i: int) -> int
    recommends
        0 <= i <= s.len(),
    decreases s.len() - i,
{
    if 0 <= i < s.len() && s[i] != '"' && s[i] != '\n' {
        str_end(s, i + 1)
    } else {
        i
    }
}

/// The first position at or after `i` that ends a comment line: a line
/// break or the end of the text.
pub open spec fn line_end(s: Seq<char>, i: int) -> int
    recommends
        0 <= i <= s.len(),
    decreases s.len() - i,
{
    if 0 <= i < s.len() && s[i] != '\n' {
        line_end(s, i + 1)
    } else {
        i
    }
}

/// A doc comment's text: the characters after `///`, with one leading
/// space dropped if present.
pub open spec fn trim_doc(content: Seq<char>) -> Seq<char> {
    if content.len() > 0 && content[0] == ' ' {
        content.skip(1)
    } else {
        content
    }
}

/// Prepends a token to a lexing outcome; a failure swallows it.
pub open spec fn lex_cons(t: SpecToken, rest: LexOut) -> LexOut {
    match rest {
        LexOut::Tokens(ts) => LexOut::Tokens(seq![t] + ts),
        LexOut::Failure(k, l, c) => LexOut::Failure(k, l, c),
    }
}

/// The lexer, specified: the tokens of `s` from position `i` on, at the
/// given line and column, or its first error. Ordinary `//` comments are
/// discarded; `///` comments become doc-comment tokens.
pub open spec fn lex_from(s: Seq<char>, i: int, line: int, col: int) -> LexOut
    recommends
        0 <= i <= s.len(),
    decreases s.len() - i,
    when 0 <= i
    via lex_from_dec
{
    if i >= s.len() {
        LexOut::Tokens(Seq::empty())
    } else {
        let c = s[i];
        if c == '\n' {
            lex_from(s, i + 1, line + 1, 1)
        } else if is_space(c) {
            lex_from(s, i + 1, line, col + 1)
        } else if is_ident_start(c) {
            let j = ident_end(s, i);
            let word = s.subrange(i, j);
            let kind = match keyword_of(word) {
                Option::Some(k) => TokenView::Keyword(k),
                Option::None => TokenView::Identifier(word),
            };
            lex_cons(SpecToken { kind, line, col }, lex_from(s, j, line, col + (j - i)))
        } else if c == '"' {
            let j = str_end(s, i + 1);
            if j >= s.len() || s[j] == '\n' {
                LexOut::Failure(LexErrorKind::UnterminatedString, line, col)
            } else {
                lex_cons(
                    SpecToken { kind: TokenView::StringLiteral(s.subrange(i + 1, j)), line, col },
                    lex_from(s, j + 1, line, col + (j + 1 - i)),
                )
            }
        } else if c == '/' {
            if i + 2 < s.len() && s[i + 1] == '/' && s[i + 2] == '/' {
                let j = line_end(s, i + 3);
                lex_cons(
                    SpecToken {
                        kind: TokenView::DocComment(trim_doc(s.subrange(i + 3, j))),
                        line,
                        col,
                    },
                    lex_from(s, j, line, col + (j - i)),
                )
            } else if i + 1 < s.len() && s[i + 1] == '/' {
                let j = line_end(s, i + 2);
                lex_from(s, j, line, col + (j - i))
            } else {
                LexOut::Failure(LexErrorKind::InvalidCharacter, line, col)
            }
        } else if c == '{' {
            lex_cons(
                SpecToken { kind: TokenView::LBrace, line, col },
                lex_from(s, i + 1, line, col + 1),
            )
        } else if c == '}' {
            lex_cons(
                SpecToken { kind: TokenView::RBrace, line, col },
                lex_from(s, i + 1, line, col + 1),
            )
        } else if c == ',' {
            lex_cons(
                SpecToken { kind: TokenView::Comma, line, col },
                lex_from(s, i + 1, line, col + 1),
            )
        } else if c == ':' {
            lex_cons(
                SpecToken { kind: TokenView::Colon, line, col },
                lex_from(s, i + 1, line, col + 1),
            )
        } else if c == '(' {
            lex_cons(
                SpecToken { kind: TokenView::LParen, line, col },
                lex_from(s, i + 1, line, col + 1),
            )
        } else if c == ')' {
            lex_cons(
                SpecToken { kind: TokenView::RParen, line, col },
                lex_from(s, i + 1, line, col + 1),
            )
        } else {
            LexOut::Failure(LexErrorKind::InvalidCharacter, line, col)
        }
    }
}

#[via_fn]
proof fn lex_from_dec(s: Seq<char>, i: int, line: int, col: int) {
    if 0 <= i < s.len() {
        lemma_ident_end(s, i);
        lemma_str_end(s, i + 1);
        if i + 2 <= s.len() {
            lemma_line_end(s, i + 2);
        }
        if i + 3 <= s.len() {
            lemma_line_end(s, i + 3);
        }
    }
}

/// What lexing a whole text yields.
pub open spec fn lex_spec(s: Seq<char>) -> LexOut {
    lex_from(s, 0, 1, 1)
}

/// Where an identifier ends: at or after its start, within the text, with
/// identifier characters up to it and none at it.
pub proof fn lemma_ident_end(s: Seq<char>, i: int)
    requires
        0 <= i <= s.len(),
    ensures
        i <= ident_end(s, i) <= s.len(),
        forall|j: int| i <= j < ident_end(s, i) ==> is_ident_char(#[trigger] s[j]),
        ident_end(s, i) == s.len() || !is_ident_char(s[ident_end(s, i)]),
    decreases s.len() - i,
{
    if i < s.len() && is_ident_char(s[i]) {
        lemma_ident_end(s, i + 1);
    }
}

/// Where a string literal's scan ends: at the closing quote, a line
/// break, or the end of the text, with neither before it.
pub proof fn lemma_str_end(s: Seq<char>, i: int)
    requires
        0 <= i <= s.len(),
    ensures
        i <= str_end(s, i) <= s.len(),
        forall|j: int|
            i <= j < str_end(s, i) ==> #[trigger] s[j] != '"' && s[j] != '\n',
        str_end(s, i) == s.len() || s[str_end(s, i)] == '"' || s[str_end(s, i)] == '\n',
    decreases s.len() - i,
{
    if i < s.len() && s[i] != '"' && s[i] != '\n' {
        lemma_str_end(s, i + 1);
    }
}

/// Where a comment line ends: at a line break or the end of the text,
/// with no line break before it.
pub proof fn lemma_line_end(s: Seq<char>, i: int)
    requires
        0 <= i <= s.len(),
    ensures
        i <= line_end(s, i) <= s.len(),
        forall|j: int| i <= j < line_end(s, i) ==> #[trigger] s[j] != '\n',
        line_end(s, i) == s.len() || s[line_end(s, i)] == '\n',
    decreases s.len() - i,
{
    if i < s.len() && s[i] != '\n' {
        lemma_line_end(s, i + 1);
    }
}

/// A position with identifier characters up to it and none at it is where
/// the identifier ends.
proof fn lemma_ident_end_unique(s: Seq<char>, i: int, j: int)
    requires
        0 <= i <= j <= s.len(),
        forall|k: int| i <= k < j ==> is_ident_char(#[trigger] s[k]),
        j == s.len() || !is_ident_char(s[j]),
    ensures
        ident_end(s, i) == j,
    decreases j - i,
{
    if i < j {
        lemma_ident_end_unique(s, i + 1, j);
    }
}

/// A position with no quote or line break before it, holding one or
/// ending the text, is where a string literal's scan ends.
proof fn lemma_str_end_unique(s: Seq<char>, i: int, j: int)
    requires
        0 <= i <= j <= s.len(),
        forall|k: int| i <= k < j ==> #[trigger] s[k] != '"' && s[k] != '\n',
        j == s.len() || s[j] == '"' || s[j] == '\n',
    ensures
        str_end(s, i) == j,
    decreases j - i,
{
    if i < j {
        lemma_str_end_unique(s, i + 1, j);
    }
}

/// A position with no line break before it, holding one or ending the
/// text, is where a comment line ends.
proof fn lemma_line_end_unique(s: Seq<char>, i: int, j: int)
    requires
        0 <= i <= j <= s.len(),
        forall|k: int| i <= k < j ==> #[trigger] s[k] != '\n',
        j == s.len() || s[j] == '\n',
    ensures
        line_end(s, i) == j,
    decreases j - i,
{
    if i < j {
        lemma_line_end_unique(s, i + 1, j);
    }
}

/// A text of `n` characters lexes to at most `n` tokens: every token
/// consumes at least one character.
pub proof fn lemma_lex_count(s: Seq<char>, i: int, line: int, col: int)
    requires
        0 <= i <= s.len(),
    ensures
        match lex_from(s, i, line, col) {
            LexOut::Tokens(ts) => ts.len() <= s.len() - i,
            LexOut::Failure(..) => true,
        },
    decreases s.len() - i,
{
    if i < s.len() {
        let c = s[i];
        if c == '\n' {
            lemma_lex_count(s, i + 1, line + 1, 1);
        } else if is_space(c) {
            lemma_lex_count(s, i + 1, line, col + 1);
        } else if is_ident_start(c) {
            lemma_ident_end(s, i);
            let j = ident_end(s, i);
            lemma_lex_count(s, j, line, col + (j - i));
        } else if c == '"' {
            lemma_str_end(s, i + 1);
            let j = str_end(s, i + 1);
            if !(j >= s.len() || s[j] == '\n') {
                lemma_lex_count(s, j + 1, line, col + (j + 1 - i));
            }
        } else if c == '/' {
            if i + 2 < s.len() && s[i + 1] == '/' && s[i + 2] == '/' {
                lemma_line_end(s, i + 3);
                let j = line_end(s, i + 3);
                lemma_lex_count(s, j, line, col + (j - i));
            } else if i + 1 < s.len() && s[i + 1] == '/' {
                lemma_line_end(s, i + 2);
                let j = line_end(s, i + 2);
                lemma_lex_count(s, j, line, col + (j - i));
            }
        } else if c == '{' || c == '}' || c == ',' || c == ':' || c == '(' || c == ')' {
            lemma_lex_count(s, i + 1, line, col + 1);
        }
    }
}

/// A character that may continue an identifier, computed.
fn ident_char(c: char) -> (r: bool)
    ensures
        r == is_ident_char(c),
{
    ('a' <= c && c <= 'z') || ('A' <= c && c <= 'Z') || c == '_' || ('0' <= c && c <= '9')
}

/// The specification-level tokens that a token vector stands for.
pub open spec fn tokens_view(toks: Seq<Token>) -> Seq<SpecToken> {
    toks.map_values(
        |t: Token| SpecToken { kind: t@, line: t.line as int, col: t.col as int },
    )
}

/// Appends an already-lexed prefix in front of a lexing outcome; a failure
/// swallows it.
pub open spec fn lex_cat(done: Seq<SpecToken>, rest: LexOut) -> LexOut {
    match rest {
        LexOut::Tokens(ts) => LexOut::Tokens(done + ts),
        LexOut::Failure(k, l, c) => LexOut::Failure(k, l, c),
    }
}

/// Catenation absorbs one prepended token.
proof fn lemma_lex_cat_cons(done: Seq<SpecToken>, t: SpecToken, rest: LexOut)
    ensures
        lex_cat(done, lex_cons(t, rest)) == lex_cat(done.push(t), rest),
{
    match rest {
        LexOut::Tokens(ts) => {
            assert(done + (seq![t] + ts) =~= done.push(t) + ts);
        },
        LexOut::Failure(..) => {},
    }
}

/// The lexer. Turns source text into its token stream, or reports the
/// first lexical error with its position; the outcome is exactly what
/// [`lex_spec`] says of the text.
pub fn tokenize(s: &str) -> (r: Result<Vec<Token>, LexError>)
    requires
        s@.len() < usize::MAX,
    ensures
        match r {
            Result::Ok(toks) => lex_spec(s@) == LexOut::Tokens(tokens_view(toks@)),
            Result::Err(e) => lex_spec(s@) == LexOut::Failure(
                e.kind,
                e.line as int,
                e.col as int,
            ),
        },
{
    let n = s.unicode_len();
    let mut toks: Vec<Token> = Vec::new();
    let mut i: usize = 0;
    let mut line: usize = 1;
    let mut col: usize = 1;
    proof {
        assert(tokens_view(toks@) =~= Seq::<SpecToken>::empty());
    }
    while i < n
        invariant
            n == s@.len(),
            n < usize::MAX,
            0 <= i <= n,
            1 <= line <= i + 1,
            1 <= col <= i + 1,
            lex_spec(s@) == lex_cat(
                tokens_view(toks@),
                lex_from(s@, i as int, line as int, col as int),
            ),
        decreases n - i,
    {
        let ghost done = tokens_view(toks@);
        let ghost rest = lex_from(s@, i as int, line as int, col as int);
        let c = s.get_char(i);
        if c == '\n' {
            i += 1;
            line += 1;
            col = 1;
        } else if c == ' ' || c == '\t' || c == '\r' {
            i += 1;
            col += 1;
        } else if ('a' <= c && c <= 'z') || ('A' <= c && c <= 'Z') || c == '_' {
            let mut j: usize = i + 1;
            while j < n && ident_char(s.get_char(j))
                invariant
                    n == s@.len(),
                    i < j <= n,
                    forall|k: int| i <= k < j ==> is_ident_char(#[trigger] s@[k]),
                decreases n - j,
            {
                j += 1;
            }
            proof {
                lemma_ident_end_unique(s@, i as int, j as int);
            }
            let word = s.substring_char(i, j).to_owned();
            let kind = match keyword_from(word.as_str()) {
                Option::Some(k) => TokenKind::Keyword(k),
                Option::None => TokenKind::Identifier(word),
            };
            let t = Token { kind, line, col };
            proof {
                let st = SpecToken { kind: t@, line: line as int, col: col as int };
                let rest2 = lex_from(s@, j as int, line as int, (col + (j - i)) as int);
                assert(rest == lex_cons(st, rest2));
                lemma_lex_cat_cons(done, st, rest2);
                assert(tokens_view(toks@.push(t)) =~= done.push(st));
            }
            toks.push(t);
            col += j - i;
            i = j;
        } else if c == '"' {
            let mut j: usize = i + 1;
            while j < n && s.get_char(j) != '"' && s.get_char(j) != '\n'
                invariant
                    n == s@.len(),
                    i < j <= n,
                    forall|k: int| i + 1 <= k < j ==> #[trigger] s@[k] != '"' && s@[k] != '\n',
                decreases n - j,
            {
                j += 1;
            }
            proof {
                lemma_str_end_unique(s@, i as int + 1, j as int);
            }
            if j >= n || s.get_char(j) == '\n' {
                return Result::Err(
                    LexError { kind: LexErrorKind::UnterminatedString, line, col },
                );
            }
            let text = s.substring_char(i + 1, j).to_owned();
            let t = Token { kind: TokenKind::StringLiteral(text), line, col };
            proof {
                let st = SpecToken { kind: t@, line: line as int, col: col as int };
                let rest2 = lex_from(s@, j as int + 1, line as int, (col + (j + 1 - i)) as int);
                assert(rest == lex_cons(st, rest2));
                lemma_lex_cat_cons(done, st, rest2);
                assert(tokens_view(toks@.push(t)) =~= done.push(st));
            }
            toks.push(t);
            col += j + 1 - i;
            i = j + 1;
        } else if c == '/' {
            let doc = i + 2 < n && s.get_char(i + 1) == '/' && s.get_char(i + 2) == '/';
            let ordinary = !doc && i + 1 < n && s.get_char(i + 1) == '/';
            if doc {
                let mut j: usize = i + 3;
                while j < n && s.get_char(j) != '\n'
                    invariant
                        n == s@.len(),
                        i + 3 <= j <= n,
                        forall|k: int| i + 3 <= k < j ==> #[trigger] s@[k] != '\n',
                    decreases n - j,
                {
                    j += 1;
                }
                proof {
                    lemma_line_end_unique(s@, i as int + 3, j as int);
                }
                let raw = s.substring_char(i + 3, j);
                let content = if raw.unicode_len() > 0 && raw.get_char(0) == ' ' {
                    raw.substring_char(1, raw.unicode_len()).to_owned()
                } else {
                    raw.to_owned()
                };
                proof {
                    assert(content@ =~= trim_doc(s@.subrange(i as int + 3, j as int)));
                }
                let t = Token { kind: TokenKind::DocComment(content), line, col };
                proof {
                    let st = SpecToken { kind: t@, line: line as int, col: col as int };
                    let rest2 = lex_from(s@, j as int, line as int, (col + (j - i)) as int);
                    assert(rest == lex_cons(st, rest2));
                    lemma_lex_cat_cons(done, st, rest2);
                    assert(tokens_view(toks@.push(t)) =~= done.push(st));
                }
                toks.push(t);
                col += j - i;
                i = j;
            } else if ordinary {
                let mut j: usize = i + 2;
                while j < n && s.get_char(j) != '\n'
                    invariant
                        n == s@.len(),
                        i + 2 <= j <= n,
                        forall|k: int| i + 2 <= k < j ==> #[trigger] s@[k] != '\n',
                    decreases n - j,
                {
                    j += 1;
                }
                proof {
                    lemma_line_end_unique(s@, i as int + 2, j as int);
                }
                col += j - i;
                i = j;
            } else {
                return Result::Err(
                    LexError { kind: LexErrorKind::InvalidCharacter, line, col },
                );
            }
        } else if c == '{' || c == '}' || c == ',' || c == ':' || c == '(' || c == ')' {
            let kind = if c == '{' {
                TokenKind::LBrace
            } else if c == '}' {
                TokenKind::RBrace
            } else if c == ',' {
                TokenKind::Comma
            } else if c == ':' {
                TokenKind::Colon
            } else if c == '(' {
                TokenKind::LParen
            } else {
                TokenKind::RParen
            };
            let t = Token { kind, line, col };
            proof {
                let st = SpecToken { kind: t@, line: line as int, col: col as int };
                let rest2 = lex_from(s@, i as int + 1, line as int, col as int + 1);
                assert(rest == lex_cons(st, rest2));
                lemma_lex_cat_cons(done, st, rest2);
                assert(tokens_view(toks@.push(t)) =~= done.push(st));
            }
            toks.push(t);
            i += 1;
            col += 1;
        } else {
            return Result::Err(LexError { kind: LexErrorKind::InvalidCharacter, line, col });
        }
    }
    proof {
        assert(lex_from(s@, i as int, line as int, col as int) == LexOut::Tokens(
            Seq::<SpecToken>::empty(),
        ));
        assert(tokens_view(toks@) + Seq::<SpecToken>::empty() =~= tokens_view(toks@));
    }
    Result::Ok(toks)
}

} // verus!

use vstd::prelude::*;

verus! {

broadcast use vstd::string::group_string_axioms;

#[derive(Debug, Clone, Copy, PartialEq, Eq, Structural)]
pub enum TokenKind {
    Word,
    Number,
    CharLit,
    Punct,
}

/// A token and the span `start..end` of source characters it was read from.
#[derive(Debug)]
pub struct Token {
    pub kind: TokenKind,
    pub text: String,
    pub start: usize,
    pub end: usize,
}

/// Where the source stops following the grammar, and what was expected there.
#[derive(Debug)]
pub struct SyntaxError {
    pub position: usize,
    pub expected: String,
}

pub open spec fn is_letter(c: char) -> bool {
    ('a' <= c <= 'z') || ('A' <= c <= 'Z')
}

pub open spec fn is_word_char(c: char) -> bool {
    is_letter(c) || ('0' <= c <= '9') || c == '_'
}

pub open spec fn is_space(c: char) -> bool {
    c == ' ' || c == '\t' || c == '\n' || c == '\r'
}

pub open spec fn is_punct_char(c: char) -> bool {
    c == '(' || c == ')' || c == ';' || c == ':' || c == ',' || c == '+' || c == '-' || c == '*'
        || c == '/' || c == '=' || c == '<' || c == '>'
}

/// Whether a token, a space or a comment may start at character `i`: a
/// quote only where a character literal `'x'` starts.
pub open spec fn starts_lexeme(src: Seq<char>, i: int) -> bool {
    let c = src[i];
    ||| is_space(c)
    ||| is_letter(c)
    ||| '0' <= c <= '9'
    ||| is_punct_char(c)
    ||| (c == '\'' && i + 2 < src.len() && src[i + 2] == '\'')
}

/// Every token holds exactly the source text of its span.
pub open spec fn tokens_of(toks: Seq<Token>, src: Seq<char>) -> bool {
    forall|i: int|
        0 <= i < toks.len() ==> {
            let t = #[trigger] toks[i];
            &&& t.start < t.end <= src.len()
            &&& t.text@ == src.subrange(t.start as int, t.end as int)
        }
}

/// Tokens come in source order and do not overlap.
pub open spec fn in_order(toks: Seq<Token>) -> bool {
    forall|a: int, b: int| 0 <= a < b < toks.len() ==> #[trigger] toks[a].end <= #[trigger] toks[b].start
}

pub open spec fn token_covers(toks: Seq<Token>, k: int, p: int) -> bool {
    0 <= k < toks.len() && toks[k].start <= p < toks[k].end
}

/// A `--` comment that starts at `j` runs at least to character `p`.
pub open spec fn comment_from(src: Seq<char>, j: int, p: int) -> bool {
    &&& 0 <= j <= p
    &&& j + 1 < src.len()
    &&& src[j] == '-' && src[j + 1] == '-'
    &&& forall|m: int| j <= m <= p ==> src[m] != '\n'
}

/// Character `p` lies in a token, is a space, or lies in a comment.
pub open spec fn covered(src: Seq<char>, toks: Seq<Token>, p: int) -> bool {
    ||| is_space(src[p])
    ||| exists|j: int| #[trigger] comment_from(src, j, p)
    ||| exists|k: int| #[trigger] token_covers(toks, k, p)
}

/// A token as the grammar sees it: its kind and its span of characters.
pub struct Lexeme {
    pub kind: TokenKind,
    pub start: int,
    pub end: int,
}

pub open spec fn lexeme_of(t: Token) -> Lexeme {
    Lexeme { kind: t.kind, start: t.start as int, end: t.end as int }
}

pub open spec fn lexemes(toks: Seq<Token>) -> Seq<Lexeme> {
    Seq::new(toks.len(), |i: int| lexeme_of(toks[i]))
}

/// The end of the run of word characters that starts at `i`.
pub open spec fn word_end(src: Seq<char>, i: int) -> int
    decreases src.len() - i,
{
    if 0 <= i < src.len() && is_word_char(src[i]) {
        word_end(src, i + 1)
    } else {
        i
    }
}

/// The end of the run of digits that starts at `i`.
pub open spec fn digits_end(src: Seq<char>, i: int) -> int
    decreases src.len() - i,
{
    if 0 <= i < src.len() && '0' <= src[i] <= '9' {
        digits_end(src, i + 1)
    } else {
        i
    }
}

/// The position of the first line break at or after `i`, or the end.
pub open spec fn line_end(src: Seq<char>, i: int) -> int
    decreases src.len() - i,
{
    if 0 <= i < src.len() && src[i] != '\n' {
        line_end(src, i + 1)
    } else {
        i
    }
}

pub open spec fn prepend(x: Lexeme, rest: Option<Seq<Lexeme>>) -> Option<Seq<Lexeme>> {
    match rest {
        Some(r) => Some(seq![x] + r),
        None => None,
    }
}

pub open spec fn join(a: Seq<Lexeme>, rest: Option<Seq<Lexeme>>) -> Option<Seq<Lexeme>> {
    match rest {
        Some(r) => Some(a + r),
        None => None,
    }
}

/// The tokens of the source from character `i` on: white space and `--`
/// comments are skipped, a word or a number runs as far as it can, `:=`,
/// `/=`, `<=`, `>=` and `=>` are single tokens; `None` at a character that
/// starts no token.
pub open spec fn lex_from(src: Seq<char>, i: int) -> Option<Seq<Lexeme>>
    decreases src.len() - i,
{
    if i < 0 || i >= src.len() {
        Some(Seq::empty())
    } else {
        let c = src[i];
        let n = src.len();
        if is_space(c) {
            lex_from(src, i + 1)
        } else if c == '-' && i + 1 < n && src[i + 1] == '-' {
            let e = line_end(src, i);
            if i < e <= n {
                lex_from(src, e)
            } else {
                None
            }
        } else if is_letter(c) {
            let e = word_end(src, i + 1);
            if i < e <= n {
                prepend(Lexeme { kind: TokenKind::Word, start: i, end: e }, lex_from(src, e))
            } else {
                None
            }
        } else if '0' <= c <= '9' {
            let e = digits_end(src, i + 1);
            if i < e <= n {
                prepend(Lexeme { kind: TokenKind::Number, start: i, end: e }, lex_from(src, e))
            } else {
                None
            }
        } else if c == '\'' {
            if i + 2 < n && src[i + 2] == '\'' {
                prepend(
                    Lexeme { kind: TokenKind::CharLit, start: i, end: i + 3 },
                    lex_from(src, i + 3),
                )
            } else {
                None
            }
        } else if (c == ':' || c == '/' || c == '<' || c == '>') && i + 1 < n && src[i + 1] == '=' {
            prepend(Lexeme { kind: TokenKind::Punct, start: i, end: i + 2 }, lex_from(src, i + 2))
        } else if c == '=' && i + 1 < n && src[i + 1] == '>' {
            prepend(Lexeme { kind: TokenKind::Punct, start: i, end: i + 2 }, lex_from(src, i + 2))
        } else if is_punct_char(c) {
            prepend(Lexeme { kind: TokenKind::Punct, start: i, end: i + 1 }, lex_from(src, i + 1))
        } else {
            None
        }
    }
}

/// The tokens of a whole source text.
pub open spec fn lex_spec(src: Seq<char>) -> Option<Seq<Lexeme>> {
    lex_from(src, 0)
}

proof fn lemma_join_push(a: Seq<Lexeme>, x: Lexeme, rest: Option<Seq<Lexeme>>)
    ensures
        join(a.push(x), rest) == join(a, prepend(x, rest)),
{
    if let Some(r) = rest {
        assert(a.push(x) + r =~= a + (seq![x] + r));
    }
}

fn error(position: usize, expected: &str) -> (r: SyntaxError)
    ensures
        r.position == position,
        r.expected@ == expected@,
{
    SyntaxError { position, expected: expected.to_string() }
}

fn token(src: &str, kind: TokenKind, start: usize, end: usize) -> (t: Token)
    requires
        start < end <= src@.len(),
    ensures
        t.kind == kind,
        t.start == start,
        t.end == end,
        t.text@ == src@.subrange(start as int, end as int),
{
    let text = src.substring_char(start, end).to_string();
    Token { kind, text, start, end }
}

fn word_char_at(src: &str, i: usize) -> (r: bool)
    requires
        i < src@.len(),
    ensures
        r == is_word_char(src@[i as int]),
{
    let d = src.get_char(i);
    ('a' <= d && d <= 'z') || ('A' <= d && d <= 'Z') || ('0' <= d && d <= '9') || d == '_'
}

fn digit_at(src: &str, i: usize) -> (r: bool)
    requires
        i < src@.len(),
    ensures
        r == ('0' <= src@[i as int] <= '9'),
{
    let d = src.get_char(i);
    '0' <= d && d <= '9'
}

fn push_token(toks: &mut Vec<Token>, src: &str, kind: TokenKind, start: usize, end: usize)
    requires
        start < end <= src@.len(),
        tokens_of(old(toks)@, src@),
        in_order(old(toks)@),
        forall|k: int| 0 <= k < old(toks)@.len() ==> #[trigger] old(toks)@[k].end <= start,
        forall|p: int| 0 <= p < start ==> covered(src@, old(toks)@, p),
    ensures
        lexemes(final(toks)@) == lexemes(old(toks)@).push(
            Lexeme { kind, start: start as int, end: end as int },
        ),
        tokens_of(final(toks)@, src@),
        in_order(final(toks)@),
        forall|k: int| 0 <= k < final(toks)@.len() ==> #[trigger] final(toks)@[k].end <= end,
        forall|p: int| 0 <= p < end ==> covered(src@, final(toks)@, p),
{
    let ghost old_toks = toks@;
    let t = token(src, kind, start, end);
    toks.push(t);
    proof {
        let nt = toks@;
        assert(lexemes(nt) =~= lexemes(old_toks).push(
            Lexeme { kind, start: start as int, end: end as int },
        ));
        assert forall|k: int| 0 <= k < old_toks.len() implies nt[k] == old_toks[k] by {}
        assert forall|p: int| 0 <= p < end implies covered(src@, nt, p) by {
            if p >= start {
                assert(token_covers(nt, old_toks.len() as int, p));
            } else {
                assert(covered(src@, old_toks, p));
                if exists|k: int| #[trigger] token_covers(old_toks, k, p) {
                    let k = choose|k: int| #[trigger] token_covers(old_toks, k, p);
                    assert(token_covers(nt, k, p));
                }
            }
        }
    }
}

/// Splits source text into words, numbers, character literals and
/// punctuation, skipping white space and `--` comments.
pub fn lex(src: &str) -> (r: Result<Vec<Token>, SyntaxError>)
    ensures
        match r {
            Ok(toks) => lex_spec(src@) == Some(lexemes(toks@)),
            Err(_) => lex_spec(src@) is None,
        },
        r matches Ok(toks) ==> tokens_of(toks@, src@) && in_order(toks@) && forall|p: int|
            0 <= p < src@.len() ==> covered(src@, toks@, p),
        r matches Err(e) ==> e.position < src@.len() && !starts_lexeme(src@, e.position as int),
{
    let n = src.unicode_len();
    let mut toks: Vec<Token> = Vec::new();
    let mut i: usize = 0;
    while i < n
        invariant
            n == src@.len(),
            i <= n,
            tokens_of(toks@, src@),
            in_order(toks@),
            forall|k: int| 0 <= k < toks@.len() ==> #[trigger] toks@[k].end <= i,
            forall|p: int| 0 <= p < i ==> covered(src@, toks@, p),
            lex_spec(src@) == join(lexemes(toks@), lex_from(src@, i as int)),
        decreases n - i,
    {
        let c = src.get_char(i);
        let start = i;
        let ghost before = lexemes(toks@);
        if c == ' ' || c == '\t' || c == '\n' || c == '\r' {
            i = i + 1;
        } else if c == '-' && i + 1 < n && src.get_char(i + 1) == '-' {
            while i < n && src.get_char(i) != '\n'
                invariant
                    n == src@.len(),
                    start <= i <= n,
                    start + 1 < n,
                    src@[start as int] == '-' && src@[start + 1] == '-',
                    forall|m: int| start <= m < i ==> src@[m] != '\n',
                    forall|p: int| 0 <= p < start ==> covered(src@, toks@, p),
                    forall|p: int| start <= p < i ==> covered(src@, toks@, p),
                    line_end(src@, start as int) == line_end(src@, i as int),
                decreases n - i,
            {
                proof {
                    assert(comment_from(src@, start as int, i as int));
                }
                i = i + 1;
            }
        } else if ('a' <= c && c <= 'z') || ('A' <= c && c <= 'Z') {
            i = i + 1;
            while i < n && word_char_at(src, i)
                invariant
                    n == src@.len(),
                    start < i <= n,
                    word_end(src@, start + 1) == word_end(src@, i as int),
                decreases n - i,
            {
                i = i + 1;
            }
            push_token(&mut toks, src, TokenKind::Word, start, i);
            proof {
                lemma_join_push(
                    before,
                    Lexeme { kind: TokenKind::Word, start: start as int, end: i as int },
                    lex_from(src@, i as int),
                );
            }
        } else if '0' <= c && c <= '9' {
            i = i + 1;
            while i < n && digit_at(src, i)
                invariant
                    n == src@.len(),
                    start < i <= n,
                    digits_end(src@, start + 1) == digits_end(src@, i as int),
                decreases n - i,
            {
                i = i + 1;
            }
            push_token(&mut toks, src, TokenKind::Number, start, i);
            proof {
                lemma_join_push(
                    before,
                    Lexeme { kind: TokenKind::Number, start: start as int, end: i as int },
                    lex_from(src@, i as int),
                );
            }
        } else if c == '\'' {
            if n - i > 2 && src.get_char(i + 2) == '\'' {
                i = i + 3;
                push_token(&mut toks, src, TokenKind::CharLit, start, i);
                proof {
                    lemma_join_push(
                        before,
                        Lexeme { kind: TokenKind::CharLit, start: start as int, end: i as int },
                        lex_from(src@, i as int),
                    );
                }
            } else {
                return Err(error(i, "a character literal"));
            }
        } else if (c == ':' || c == '/' || c == '<' || c == '>') && i + 1 < n && src.get_char(i + 1)
            == '=' {
            i = i + 2;
            push_token(&mut toks, src, TokenKind::Punct, start, i);
            proof {
                lemma_join_push(
                    before,
                    Lexeme { kind: TokenKind::Punct, start: start as int, end: i as int },
                    lex_from(src@, i as int),
                );
            }
        } else if c == '=' && i + 1 < n && src.get_char(i + 1) == '>' {
            i = i + 2;
            push_token(&mut toks, src, TokenKind::Punct, start, i);
            proof {
                lemma_join_push(
                    before,
                    Lexeme { kind: TokenKind::Punct, start: start as int, end: i as int },
                    lex_from(src@, i as int),
                );
            }
        } else if c == '(' || c == ')' || c == ';' || c == ':' || c == ',' || c == '+' || c == '-'
            || c == '*' || c == '/' || c == '=' || c == '<' || c == '>' {
            i = i + 1;
            push_token(&mut toks, src, TokenKind::Punct, start, i);
            proof {
                lemma_join_push(
                    before,
                    Lexeme { kind: TokenKind::Punct, start: start as int, end: i as int },
                    lex_from(src@, i as int),
                );
            }
        } else {
            return Err(error(i, "a word, a number or punctuation"));
        }
    }
    Ok(toks)
}

} // verus!

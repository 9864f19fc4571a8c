//! The lexer: source characters to tokens, and the table of lines.
use vstd::prelude::*;
use crate::lines::{closed_lines, line_spans, line_start_at, lemma_no_newline, LineInfo, LineTable};

verus! {

/// The kinds of tokens.
#[derive(Debug, Clone, Copy, PartialEq, Eq, Structural)]
pub enum TokenType {
    Symbol,
    Number,
    Hash,
    Colon,
    ParenthesisOpen,
    ParenthesisClose,
    Invalid,
    NewLine,
    End,
}

/// A token: its kind and the span `start..end` of character offsets that it
/// covers.
#[derive(Debug, Clone, Copy, PartialEq, Eq, Structural)]
pub struct Token {
    pub token_type: TokenType,
    pub start: usize,
    pub end: usize,
}

/// Whether a character has Unicode's Alphabetic property.
pub uninterp spec fn alphabetic(c: char) -> bool;

/// Relies on char::is_alphabetic: whether `c` has the Alphabetic property.
#[verifier::external_body]
fn unicode_alphabetic(c: char) -> (r: bool)
    ensures
        r == alphabetic(c),
{
    c.is_alphabetic()
}

pub open spec fn is_digit(c: char) -> bool {
    '0' <= c <= '9'
}

/// A letter: an ASCII letter, or a character beyond ASCII that is alphabetic.
pub open spec fn is_letter(c: char) -> bool {
    if (c as u32) < 128 {
        ('a' <= c <= 'z') || ('A' <= c <= 'Z')
    } else {
        alphabetic(c)
    }
}

/// A character that continues a symbol: a letter or `_`.
pub open spec fn is_symbol_char(c: char) -> bool {
    is_letter(c) || c == '_'
}

/// A character beyond ASCII with Unicode's White_Space property.
pub open spec fn wide_white_space(c: char) -> bool {
    let u = c as u32;
    u == 0x85 || u == 0xA0 || u == 0x1680 || (0x2000 <= u <= 0x200A) || u == 0x2028 || u
        == 0x2029 || u == 0x202F || u == 0x205F || u == 0x3000
}

/// White space other than the newline, which the lexer skips.
pub open spec fn is_blank(c: char) -> bool {
    if (c as u32) < 128 {
        c == ' ' || c == '\t' || c == '\r' || c == '\x0B' || c == '\x0C'
    } else {
        wide_white_space(c)
    }
}

/// The end of the run of digits that starts at `i`.
pub open spec fn digit_run_end(s: Seq<char>, i: int) -> int
    decreases s.len() - i,
{
    if 0 <= i < s.len() && is_digit(s[i]) {
        digit_run_end(s, i + 1)
    } else {
        i
    }
}

/// The end of the run of symbol characters that starts at `i`.
pub open spec fn symbol_run_end(s: Seq<char>, i: int) -> int
    decreases s.len() - i,
{
    if 0 <= i < s.len() && is_symbol_char(s[i]) {
        symbol_run_end(s, i + 1)
    } else {
        i
    }
}

/// The offset of the first newline at or after `i`, or the text's length.
pub open spec fn newline_at_or_after(s: Seq<char>, i: int) -> int
    decreases s.len() - i,
{
    if 0 <= i < s.len() && s[i] != '\n' {
        newline_at_or_after(s, i + 1)
    } else {
        i
    }
}

/// Each run ends at or after the offset where it starts.
pub proof fn lemma_runs_advance(s: Seq<char>, i: int)
    ensures
        digit_run_end(s, i) >= i,
        symbol_run_end(s, i) >= i,
        newline_at_or_after(s, i) >= i,
        i <= s.len() ==> digit_run_end(s, i) <= s.len(),
        i <= s.len() ==> symbol_run_end(s, i) <= s.len(),
        i <= s.len() ==> newline_at_or_after(s, i) <= s.len(),
        forall|q: int| i <= q < digit_run_end(s, i) ==> is_digit(#[trigger] s[q]),
        forall|q: int| i <= q < symbol_run_end(s, i) ==> is_symbol_char(#[trigger] s[q]),
    decreases s.len() - i,
{
    if 0 <= i < s.len() {
        lemma_runs_advance(s, i + 1);
    }
}

pub open spec fn single(token_type: TokenType, position: int) -> Token {
    Token { token_type, start: position as usize, end: (position + 1) as usize }
}

/// The tokens of `s` from offset `i` on, the closing `End` included.
pub open spec fn lex_from(s: Seq<char>, i: int) -> Seq<Token>
    decreases s.len() - i,
{
    if i < 0 || i >= s.len() {
        seq![single(TokenType::End, s.len() as int)]
    } else {
        let c = s[i];
        if c == '#' {
            seq![single(TokenType::Hash, i)] + lex_from(s, i + 1)
        } else if c == '(' {
            seq![single(TokenType::ParenthesisOpen, i)] + lex_from(s, i + 1)
        } else if c == ')' {
            seq![single(TokenType::ParenthesisClose, i)] + lex_from(s, i + 1)
        } else if c == ':' {
            seq![single(TokenType::Colon, i)] + lex_from(s, i + 1)
        } else if c == '\n' {
            seq![single(TokenType::NewLine, i)] + lex_from(s, i + 1)
        } else if c == '/' {
            if i + 1 < s.len() && s[i + 1] == '/' {
                // a comment ends a line as a newline does
                let j = newline_at_or_after(s, i + 2);
                proof {
                    lemma_runs_advance(s, i + 2);
                }
                if j < s.len() {
                    seq![single(TokenType::NewLine, j)] + lex_from(s, j + 1)
                } else {
                    seq![single(TokenType::NewLine, s.len() - 1)] + lex_from(s, s.len() as int)
                }
            } else {
                seq![single(TokenType::Invalid, i)] + lex_from(s, i + 1)
            }
        } else if is_digit(c) {
            let j = digit_run_end(s, i + 1);
            proof {
                lemma_runs_advance(s, i + 1);
            }
            seq![Token { token_type: TokenType::Number, start: i as usize, end: j as usize }]
                + lex_from(s, j)
        } else if is_letter(c) {
            let j = symbol_run_end(s, i + 1);
            proof {
                lemma_runs_advance(s, i + 1);
            }
            seq![Token { token_type: TokenType::Symbol, start: i as usize, end: j as usize }]
                + lex_from(s, j)
        } else if is_blank(c) {
            lex_from(s, i + 1)
        } else {
            seq![single(TokenType::Invalid, i)] + lex_from(s, i + 1)
        }
    }
}

/// The tokens of a whole text.
pub open spec fn lex(s: Seq<char>) -> Seq<Token> {
    lex_from(s, 0)
}

/// Tokens as the lexer leaves them: the last is the only `End`, at the
/// text's length; every other token lies within the text.
pub open spec fn tokens_wf(s: Seq<char>, toks: Seq<Token>) -> bool {
    &&& ends_with_end(toks)
    &&& toks.last().start == s.len()
    &&& toks.last().end == s.len() + 1
    &&& forall|k: int|
        0 <= k < toks.len() - 1 ==> toks[k].token_type != TokenType::End && toks[k].start
            < toks[k].end <= s.len()
}

/// The tokens end with an `End` token.
pub open spec fn ends_with_end(toks: Seq<Token>) -> bool {
    &&& toks.len() > 0
    &&& toks.last().token_type == TokenType::End
}

/// From any offset on, the tokens are well formed: only the last is `End`,
/// and every other one lies within the text, at or after the offset.
pub proof fn lemma_lex_from_wf(s: Seq<char>, i: int)
    requires
        0 <= i <= s.len(),
        s.len() < usize::MAX,
    ensures
        ends_with_end(lex_from(s, i)),
        lex_from(s, i).last().start == s.len(),
        lex_from(s, i).last().end == s.len() + 1,
        forall|k: int|
            0 <= k < lex_from(s, i).len() - 1 ==> lex_from(s, i)[k].token_type != TokenType::End
                && i <= lex_from(s, i)[k].start < lex_from(s, i)[k].end <= s.len(),
    decreases s.len() - i,
{
    if i < s.len() {
        lemma_runs_advance(s, i + 1);
        lemma_runs_advance(s, i + 2);
        let c = s[i];
        let next = if c == '/' && i + 1 < s.len() && s[i + 1] == '/' {
            let j = newline_at_or_after(s, i + 2);
            if j < s.len() {
                j + 1
            } else {
                s.len() as int
            }
        } else if is_digit(c) && c != '#' && c != '(' && c != ')' && c != ':' && c != '\n' {
            digit_run_end(s, i + 1)
        } else if is_letter(c) && c != '#' && c != '(' && c != ')' && c != ':' && c != '\n' && c
            != '/' {
            symbol_run_end(s, i + 1)
        } else {
            i + 1
        };
        lemma_lex_from_wf(s, next);
        let rest = lex_from(s, next);
        if lex_from(s, i) != rest {
            assert forall|k: int|
                0 <= k < lex_from(s, i).len() - 1 implies lex_from(s, i)[k].token_type
                != TokenType::End && i <= lex_from(s, i)[k].start < lex_from(s, i)[k].end
                <= s.len() by {
                if k > 0 {
                    assert(lex_from(s, i)[k] == rest[k - 1]);
                }
            }
        }
    }
}

/// Tokens stand in the order of the text, and a newline token that some
/// token other than `End` follows stands on a newline character (only a
/// comment at the very end of the text has no newline after it).
pub open spec fn tokens_ordered(s: Seq<char>, toks: Seq<Token>) -> bool {
    &&& forall|a: int, b: int| 0 <= a < b < toks.len() ==> toks[a].start < toks[b].start
    &&& forall|k: int|
        0 <= k < toks.len() - 1 && toks[k].token_type == TokenType::NewLine && toks[k + 1].token_type
            != TokenType::End ==> s[toks[k].start as int] == '\n'
}

/// The token read at offset `i` (none for a blank) and the offset after it.
pub open spec fn lex_step(s: Seq<char>, i: int) -> (Option<Token>, int) {
    let c = s[i];
    if c == '#' || c == '(' || c == ')' || c == ':' || c == '\n' {
        (Some(lex_from(s, i)[0]), i + 1)
    } else if c == '/' {
        if i + 1 < s.len() && s[i + 1] == '/' {
            let j = newline_at_or_after(s, i + 2);
            if j < s.len() {
                (Some(single(TokenType::NewLine, j)), j + 1)
            } else {
                (Some(single(TokenType::NewLine, s.len() - 1)), s.len() as int)
            }
        } else {
            (Some(single(TokenType::Invalid, i)), i + 1)
        }
    } else if is_digit(c) {
        let j = digit_run_end(s, i + 1);
        (Some(Token { token_type: TokenType::Number, start: i as usize, end: j as usize }), j)
    } else if is_letter(c) {
        let j = symbol_run_end(s, i + 1);
        (Some(Token { token_type: TokenType::Symbol, start: i as usize, end: j as usize }), j)
    } else if is_blank(c) {
        (None, i + 1)
    } else {
        (Some(single(TokenType::Invalid, i)), i + 1)
    }
}

/// One step of the lexer: the tokens from `i` are the token read there, if
/// any, then the tokens from the offset after it. The token starts within
/// what the step reads, and a newline token stands on a newline character
/// unless the step reaches the end of the text.
pub proof fn lemma_lex_step(s: Seq<char>, i: int)
    requires
        0 <= i < s.len(),
        s.len() < usize::MAX,
    ensures
        i < lex_step(s, i).1 <= s.len(),
        lex_from(s, i) == match lex_step(s, i).0 {
            Some(t) => seq![t] + lex_from(s, lex_step(s, i).1),
            None => lex_from(s, lex_step(s, i).1),
        },
        lex_step(s, i).0 matches Some(t) ==> i <= t.start < lex_step(s, i).1,
        lex_step(s, i).0 matches Some(t) ==> (t.token_type == TokenType::NewLine ==> s[t.start as int]
            == '\n' || lex_step(s, i).1 == s.len()),
        forall|q: int|
            i <= q < lex_step(s, i).1 && s[q] == '\n' ==> (lex_step(s, i).0 matches Some(t)
                && t.start == q && t.token_type == TokenType::NewLine),
{
    lemma_runs_advance(s, i + 1);
    lemma_runs_advance(s, i + 2);
    if i + 2 <= s.len() {
        crate::lines::lemma_newline_scan(s, i + 2);
    }
}

/// Every newline character of the text has a newline token that starts on it.
pub open spec fn newlines_tokenized(s: Seq<char>, toks: Seq<Token>, from: int) -> bool {
    forall|q: int|
        from <= q < s.len() && s[q] == '\n' ==> exists|k: int|
            0 <= k < toks.len() && #[trigger] toks[k].start == q && toks[k].token_type
                == TokenType::NewLine
}

/// From any offset on, each newline character has its newline token.
pub proof fn lemma_lex_from_newlines(s: Seq<char>, i: int)
    requires
        0 <= i <= s.len(),
        s.len() < usize::MAX,
    ensures
        newlines_tokenized(s, lex_from(s, i), i),
    decreases s.len() - i,
{
    if i < s.len() {
        lemma_lex_step(s, i);
        let next = lex_step(s, i).1;
        lemma_lex_from_newlines(s, next);
        let t = lex_from(s, i);
        let rest = lex_from(s, next);
        assert forall|q: int| i <= q < s.len() && s[q] == '\n' implies exists|k: int|
            0 <= k < t.len() && #[trigger] t[k].start == q && t[k].token_type
                == TokenType::NewLine by {
            if q < next {
                assert(t[0].start == q);
            } else {
                let k = choose|k: int|
                    0 <= k < rest.len() && #[trigger] rest[k].start == q && rest[k].token_type
                        == TokenType::NewLine;
                match lex_step(s, i).0 {
                    Some(head) => {
                        assert(t[k + 1] == rest[k]);
                    },
                    None => {
                        assert(t[k] == rest[k]);
                    },
                }
            }
        }
    }
}

/// A token put before ordered tokens that start after it keeps them ordered.
proof fn lemma_ordered_cons(s: Seq<char>, head: Token, rest: Seq<Token>, i: int, next: int)
    requires
        tokens_ordered(s, rest),
        rest.len() > 0,
        forall|k: int| 0 <= k < rest.len() ==> next <= #[trigger] rest[k].start,
        i <= head.start < next,
        head.token_type == TokenType::NewLine ==> s[head.start as int] == '\n' || rest[0].token_type
            == TokenType::End,
    ensures
        tokens_ordered(s, seq![head] + rest),
        forall|k: int| 0 <= k < (seq![head] + rest).len() ==> i <= #[trigger] (seq![head] + rest)[k].start,
{
    let t = seq![head] + rest;
    assert forall|a: int, b: int| 0 <= a < b < t.len() implies t[a].start < t[b].start by {
        assert(t[b] == rest[b - 1]);
        if a > 0 {
            assert(t[a] == rest[a - 1]);
        }
    }
    assert forall|k: int|
        0 <= k < t.len() - 1 && t[k].token_type == TokenType::NewLine && t[k + 1].token_type
            != TokenType::End implies s[t[k].start as int] == '\n' by {
        assert(t[k + 1] == rest[k]);
        if k > 0 {
            assert(t[k] == rest[k - 1]);
        }
    }
    assert forall|k: int| 0 <= k < t.len() implies i <= #[trigger] t[k].start by {
        if k > 0 {
            assert(t[k] == rest[k - 1]);
        }
    }
}

/// From any offset on, the tokens are ordered, and start at or after the offset.
#[verifier::spinoff_prover]
#[verifier::rlimit(60)]
pub proof fn lemma_lex_from_ordered(s: Seq<char>, i: int)
    requires
        0 <= i <= s.len(),
        s.len() < usize::MAX,
    ensures
        tokens_ordered(s, lex_from(s, i)),
        forall|k: int| 0 <= k < lex_from(s, i).len() ==> i <= #[trigger] lex_from(s, i)[k].start,
    decreases s.len() - i,
{
    if i < s.len() {
        lemma_lex_step(s, i);
        let next = lex_step(s, i).1;
        lemma_lex_from_ordered(s, next);
        lemma_lex_from_wf(s, next);
        let rest = lex_from(s, next);
        if next == s.len() {
            assert(rest[0].token_type == TokenType::End);
        }
        match lex_step(s, i).0 {
            Some(head) => {
                lemma_ordered_cons(s, head, rest, i, next);
            },
            None => {},
        }
    } else {
        assert(lex_from(s, i) == seq![single(TokenType::End, s.len() as int)]);
    }
}

/// The tokens of a text are ordered.
pub proof fn lemma_lex_ordered(s: Seq<char>)
    requires
        s.len() < usize::MAX,
    ensures
        tokens_ordered(s, lex(s)),
{
    lemma_lex_from_ordered(s, 0);
}

/// The tokens of a text are well formed.
pub proof fn lemma_lex_wf(s: Seq<char>)
    requires
        s.len() < usize::MAX,
    ensures
        tokens_wf(s, lex(s)),
{
    lemma_lex_from_wf(s, 0);
}

impl Token {
    pub fn new_single(token_type: TokenType, position: usize) -> (r: Token)
        requires
            position < usize::MAX,
        ensures
            r == single(token_type, position as int),
    {
        Token { token_type, start: position, end: position + 1 }
    }

    pub fn new_multi(token_type: TokenType, start: usize, end: usize) -> (r: Token)
        ensures
            r == (Token { token_type, start, end }),
    {
        Token { token_type, start, end }
    }

    /// The token, if it is of the given kind.
    pub fn ensure_type(&self, token_type: TokenType) -> (r: Option<Token>)
        ensures
            r == (if self.token_type == token_type {
                Some(*self)
            } else {
                None::<Token>
            }),
    {
        if self.token_type == token_type {
            Some(*self)
        } else {
            None
        }
    }

    /// The characters of `text` that the token covers.
    pub fn resolve<'a>(&self, text: &'a [char]) -> (r: &'a [char])
        requires
            self.start <= self.end <= text@.len(),
        ensures
            r@ == text@.subrange(self.start as int, self.end as int),
    {
        &text[self.start..self.end]
    }
}

fn is_letter_char(c: char) -> (r: bool)
    ensures
        r == is_letter(c),
{
    if (c as u32) < 128 {
        ('a' <= c && c <= 'z') || ('A' <= c && c <= 'Z')
    } else {
        unicode_alphabetic(c)
    }
}

fn is_blank_char(c: char) -> (r: bool)
    ensures
        r == is_blank(c),
{
    if (c as u32) < 128 {
        c == ' ' || c == '\t' || c == '\r' || c == '\x0B' || c == '\x0C'
    } else {
        let u = c as u32;
        u == 0x85 || u == 0xA0 || u == 0x1680 || (0x2000 <= u && u <= 0x200A) || u == 0x2028
            || u == 0x2029 || u == 0x202F || u == 0x205F || u == 0x3000
    }
}

/// Reads a comment that starts at the `/` at `position`: returns the token
/// and the offset after what it consumed. A lone `/` is an invalid token.
fn check_for_comment(text: &[char], position: usize) -> (r: (Token, usize))
    requires
        position < text@.len() < usize::MAX,
        text@[position as int] == '/',
    ensures
        position < r.1 <= text@.len(),
        seq![r.0] + lex_from(text@, r.1 as int) == lex_from(text@, position as int),
        r.1 == r.0.start + 1,
        forall|k: int| position <= k < r.0.start ==> text@[k] != '\n',
{
    if position + 1 < text.len() && text[position + 1] == '/' {
        let mut index = position + 2;
        while index < text.len() && text[index] != '\n'
            invariant
                position + 2 <= index <= text@.len(),
                newline_at_or_after(text@, index as int) == newline_at_or_after(
                    text@,
                    position + 2,
                ),
                forall|k: int| position <= k < index ==> text@[k] != '\n',
            decreases text@.len() - index,
        {
            index = index + 1;
        }
        if index < text.len() {
            (Token::new_single(TokenType::NewLine, index), index + 1)
        } else {
            (Token::new_single(TokenType::NewLine, text.len() - 1), text.len())
        }
    } else {
        (Token::new_single(TokenType::Invalid, position), position + 1)
    }
}

/// Reads the symbol that starts at `start`.
fn get_symbol(text: &[char], start: usize) -> (r: Token)
    requires
        start < text@.len() < usize::MAX,
    ensures
        r == (Token {
            token_type: TokenType::Symbol,
            start,
            end: symbol_run_end(text@, start + 1) as usize,
        }),
        start < r.end <= text@.len(),
        forall|k: int| start <= k < r.end ==> is_symbol_char(text@[k]) || k == start,
{
    let mut end = start + 1;
    while end < text.len() && (is_letter_char(text[end]) || text[end] == '_')
        invariant
            start < end <= text@.len(),
            symbol_run_end(text@, end as int) == symbol_run_end(text@, start + 1),
            forall|k: int| start < k < end ==> is_symbol_char(text@[k]),
        decreases text@.len() - end,
    {
        end = end + 1;
    }
    Token::new_multi(TokenType::Symbol, start, end)
}

/// Reads the number that starts at `start`.
fn get_number(text: &[char], start: usize) -> (r: Token)
    requires
        start < text@.len() < usize::MAX,
    ensures
        r == (Token {
            token_type: TokenType::Number,
            start,
            end: digit_run_end(text@, start + 1) as usize,
        }),
        start < r.end <= text@.len(),
        forall|k: int| start < k < r.end ==> is_digit(text@[k]),
{
    let mut end = start + 1;
    while end < text.len() && '0' <= text[end] && text[end] <= '9'
        invariant
            start < end <= text@.len(),
            digit_run_end(text@, end as int) == digit_run_end(text@, start + 1),
            forall|k: int| start < k < end ==> is_digit(text@[k]),
        decreases text@.len() - end,
    {
        end = end + 1;
    }
    Token::new_multi(TokenType::Number, start, end)
}

/// Splits `text` into tokens, ending with one `End` token, and records its
/// lines in `line_table`.
pub fn tokenize(text: &[char], line_table: &mut LineTable) -> (r: Vec<Token>)
    requires
        text@.len() < usize::MAX,
    ensures
        r@ == lex(text@),
        final(line_table)@ == old(line_table)@ + line_spans(text@),
{
    let ghost s = text@;
    let ghost base = line_table@;
    let mut tokens: Vec<Token> = Vec::new();
    let mut line_start: usize = 0;
    let mut i: usize = 0;
    while i < text.len()
        invariant
            s == text@,
            s.len() < usize::MAX,
            i <= s.len(),
            lex(s) == tokens@ + lex_from(s, i as int),
            line_table@ == base + closed_lines(s, i as int),
            line_start == line_start_at(s, i as int),
        decreases s.len() - i,
    {
        let c = text[i];
        // the token read at `i`, if any, and the offset after it
        let (token, next): (Option<Token>, usize) = if c == '\n' {
            (Some(Token::new_single(TokenType::NewLine, i)), i + 1)
        } else if c == '#' {
            (Some(Token::new_single(TokenType::Hash, i)), i + 1)
        } else if c == '(' {
            (Some(Token::new_single(TokenType::ParenthesisOpen, i)), i + 1)
        } else if c == ')' {
            (Some(Token::new_single(TokenType::ParenthesisClose, i)), i + 1)
        } else if c == ':' {
            (Some(Token::new_single(TokenType::Colon, i)), i + 1)
        } else if c == '/' {
            let (token, after) = check_for_comment(text, i);
            (Some(token), after)
        } else if '0' <= c && c <= '9' {
            let token = get_number(text, i);
            proof {
                lemma_runs_advance(s, i + 1);
            }
            (Some(token), token.end)
        } else if is_letter_char(c) {
            let token = get_symbol(text, i);
            proof {
                lemma_runs_advance(s, i + 1);
            }
            (Some(token), token.end)
        } else if is_blank_char(c) {
            (None, i + 1)
        } else {
            (Some(Token::new_single(TokenType::Invalid, i)), i + 1)
        };
        proof {
            match token {
                Some(t) => {
                    assert(lex_from(s, i as int) == seq![t] + lex_from(s, next as int));
                    assert(lex(s) == tokens@.push(t) + lex_from(s, next as int));
                },
                None => {
                    assert(lex_from(s, i as int) == lex_from(s, next as int));
                },
            }
        }
        if let Some(t) = token {
            tokens.push(t);
        }
        // a newline, written out or closing a comment, ends the current line
        if text[next - 1] == '\n' {
            let newline = next - 1;
            proof {
                assert(forall|k: int| i <= k < newline ==> s[k] != '\n');
                lemma_no_newline(s, i as int, newline as int);
            }
            line_table.push(LineInfo { start: line_start, end: newline });
            line_start = next;
        } else {
            proof {
                assert(forall|k: int| i <= k < next ==> s[k] != '\n');
                lemma_no_newline(s, i as int, next as int);
            }
        }
        i = next;
    }
    line_table.push(LineInfo { start: line_start, end: text.len() });
    tokens.push(Token::new_single(TokenType::End, text.len()));
    tokens
}

} // verus!

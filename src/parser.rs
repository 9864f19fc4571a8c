//! The parser: tokens to unresolved commands, line by line, with recovery
//! at line ends so that every malformed line is reported.
use vstd::prelude::*;
use crate::commands::{attribute_bits, get_instruction_attribute, mnemonic_of, upper_of, InstructionAttribute};
use crate::error::{ParseErrorBuilder, ParseErrorReportBuilder, ParseErrorType};
use crate::lexer::{ends_with_end, newlines_tokenized, tokens_ordered, tokens_wf, Token, TokenType};
use crate::lines::{lemma_closed_lines_prefix, lemma_no_newline, line_index};
use crate::operant::{Operant, OperantKind};

verus! {

/// A parsed line before resolution: its optional label, the mnemonic's token
/// and the optional operand.
#[derive(Debug, Clone, Copy, PartialEq, Eq, Structural)]
pub struct CommandBuilder {
    pub label: Option<Token>,
    pub instruction: Token,
    pub operant: Option<Operant>,
}

impl CommandBuilder {
    pub fn new(label: Option<Token>, instruction: Token, operant: Option<Operant>) -> (r: CommandBuilder)
        ensures
            r == (CommandBuilder { label, instruction, operant }),
    {
        CommandBuilder { label, instruction, operant }
    }
}

pub open spec fn ends_line(t: Token) -> bool {
    t.token_type == TokenType::NewLine || t.token_type == TokenType::End
}

pub open spec fn site(kind: ParseErrorType, t: Token) -> ParseErrorBuilder {
    ParseErrorBuilder { kind, start: t.start, end: t.end }
}

/// The characters that a token covers.
pub open spec fn text_of(s: Seq<char>, t: Token) -> Seq<char> {
    s.subrange(t.start as int, t.end as int)
}

/// The first token at or after `i` that is not a newline.
pub open spec fn skip_newlines(toks: Seq<Token>, i: int) -> int
    decreases toks.len() - i,
{
    if 0 <= i < toks.len() && toks[i].token_type == TokenType::NewLine {
        skip_newlines(toks, i + 1)
    } else {
        i
    }
}

/// The first token at or after `i` that ends a line.
pub open spec fn line_end(toks: Seq<Token>, i: int) -> int
    decreases toks.len() - i,
{
    if 0 <= i < toks.len() && !ends_line(toks[i]) {
        line_end(toks, i + 1)
    } else {
        i
    }
}

/// One `InvalidToken` error for each token from `i` to the end of the line.
pub open spec fn trailing_errors(toks: Seq<Token>, i: int) -> Seq<ParseErrorBuilder>
    decreases toks.len() - i,
{
    if 0 <= i < toks.len() && !ends_line(toks[i]) {
        seq![site(ParseErrorType::InvalidToken, toks[i])] + trailing_errors(toks, i + 1)
    } else {
        Seq::empty()
    }
}

/// The outcome of parsing a piece of a line: what was read and the index
/// after it, or the error and the index of the offending token.
pub enum Parsed<T> {
    Done(T, int),
    Failed(ParseErrorBuilder, int),
}

/// The operand at `k` for a mnemonic with attribute `attr`.
pub open spec fn operant_at(toks: Seq<Token>, attr: InstructionAttribute, k: int) -> Parsed<
    Operant,
> {
    let t = toks[k];
    match t.token_type {
        TokenType::ParenthesisOpen => {
            if !attr.allows(Some(OperantKind::Address)) {
                Parsed::Failed(site(ParseErrorType::NotAllowedAddress, t), k)
            } else if toks[k + 1].token_type != TokenType::Number {
                Parsed::Failed(site(ParseErrorType::InvalidAddress, toks[k + 1]), k + 1)
            } else if toks[k + 2].token_type != TokenType::ParenthesisClose {
                Parsed::Failed(site(ParseErrorType::MissingParenthesisClose, toks[k + 2]), k + 2)
            } else {
                Parsed::Done(Operant { kind: OperantKind::Address, value: toks[k + 1] }, k + 3)
            }
        },
        TokenType::Number => {
            if !attr.allows(Some(OperantKind::Fixed)) {
                Parsed::Failed(site(ParseErrorType::NotAllowedFixNumber, t), k)
            } else {
                Parsed::Done(Operant { kind: OperantKind::Fixed, value: t }, k + 1)
            }
        },
        TokenType::Hash => {
            if !attr.allows(Some(OperantKind::Fixed)) {
                Parsed::Failed(site(ParseErrorType::NotAllowedFixNumber, t), k)
            } else if toks[k + 1].token_type != TokenType::Number {
                Parsed::Failed(site(ParseErrorType::InvalidFixNumber, toks[k + 1]), k + 1)
            } else {
                Parsed::Done(Operant { kind: OperantKind::Fixed, value: toks[k + 1] }, k + 2)
            }
        },
        TokenType::Symbol => {
            if !attr.allows(Some(OperantKind::Label)) {
                Parsed::Failed(site(ParseErrorType::NotAllowedLabel, t), k)
            } else {
                Parsed::Done(Operant { kind: OperantKind::Label, value: t }, k + 1)
            }
        },
        _ => Parsed::Failed(site(ParseErrorType::MissingOperant, t), k),
    }
}

/// The command whose mnemonic is the symbol at `n`, with its operand.
pub open spec fn command_at(s: Seq<char>, toks: Seq<Token>, label: Option<Token>, n: int) -> Parsed<
    CommandBuilder,
> {
    let instruction = toks[n];
    match mnemonic_of(upper_of(text_of(s, instruction))) {
        None => Parsed::Failed(site(ParseErrorType::InvalidInstruction, instruction), n),
        Some(m) => {
            let attr = InstructionAttribute { mnemonic: m, bits: attribute_bits(m) };
            if attr.allows(None) {
                Parsed::Done(CommandBuilder { label, instruction, operant: None }, n + 1)
            } else {
                match operant_at(toks, attr, n + 1) {
                    Parsed::Done(op, k) => Parsed::Done(
                        CommandBuilder { label, instruction, operant: Some(op) },
                        k,
                    ),
                    Parsed::Failed(e, p) => Parsed::Failed(e, p),
                }
            }
        },
    }
}

/// The line that starts at token `i`: an optional `label:` (blank lines may
/// follow the colon), then a command.
pub open spec fn line_at(s: Seq<char>, toks: Seq<Token>, i: int) -> Parsed<CommandBuilder> {
    let first = toks[i];
    if first.token_type != TokenType::Symbol {
        Parsed::Failed(site(ParseErrorType::MissingInstruction, first), i)
    } else if toks[i + 1].token_type == TokenType::Colon {
        let j = skip_newlines(toks, i + 2);
        if toks[j].token_type != TokenType::Symbol {
            Parsed::Failed(site(ParseErrorType::MissingInstruction, toks[j]), j)
        } else {
            command_at(s, toks, Some(first), j)
        }
    } else {
        command_at(s, toks, None, i)
    }
}

/// The index where parsing goes on after the line at `i`: the end of the
/// line, past the command or past the offending token.
pub open spec fn after_line(s: Seq<char>, toks: Seq<Token>, i: int) -> int {
    match line_at(s, toks, i) {
        Parsed::Done(_, k) => line_end(toks, k),
        Parsed::Failed(_, p) => line_end(toks, p),
    }
}

/// Each index of a scan ends at or after where it starts, and within the tokens.
pub proof fn lemma_scans_advance(toks: Seq<Token>, i: int)
    requires
        0 <= i <= toks.len(),
    ensures
        i <= skip_newlines(toks, i) <= toks.len(),
        i <= line_end(toks, i) <= toks.len(),
        i < toks.len() && !ends_line(toks[i]) ==> i < line_end(toks, i),
        skip_newlines(toks, i) < toks.len() ==> toks[skip_newlines(toks, i)].token_type
            != TokenType::NewLine,
        line_end(toks, i) < toks.len() ==> ends_line(toks[line_end(toks, i)]),
        i < toks.len() && toks.last().token_type != TokenType::NewLine ==> skip_newlines(toks, i)
            < toks.len(),
        i < toks.len() && ends_line(toks.last()) ==> line_end(toks, i) < toks.len(),
    decreases toks.len() - i,
{
    if i < toks.len() {
        lemma_scans_advance(toks, i + 1);
    }
}

/// A token other than `End` is not the last.
pub proof fn lemma_before_end(toks: Seq<Token>, x: int)
    requires
        ends_with_end(toks),
        0 <= x < toks.len(),
        toks[x].token_type != TokenType::End,
    ensures
        x < toks.len() - 1,
{
    assert(toks.last() == toks[toks.len() - 1]);
}

/// Reading an operand at `k` ends within the tokens.
pub proof fn lemma_operant_bounds(
    s: Seq<char>,
    toks: Seq<Token>,
    attr: InstructionAttribute,
    k: int,
)
    requires
        tokens_wf(s, toks),
        0 <= k < toks.len(),
    ensures
        match operant_at(toks, attr, k) {
            Parsed::Done(_, q) => k < q < toks.len(),
            Parsed::Failed(_, p) => k <= p < toks.len(),
        },
{
    if toks[k].token_type != TokenType::End {
        lemma_before_end(toks, k);
        if toks[k + 1].token_type != TokenType::End {
            lemma_before_end(toks, k + 1);
            if toks[k + 2].token_type != TokenType::End {
                lemma_before_end(toks, k + 2);
            }
        }
    }
}

/// Reading a command at the symbol at `n` ends within the tokens.
pub proof fn lemma_command_bounds(s: Seq<char>, toks: Seq<Token>, label: Option<Token>, n: int)
    requires
        tokens_wf(s, toks),
        0 <= n < toks.len(),
        toks[n].token_type == TokenType::Symbol,
    ensures
        match command_at(s, toks, label, n) {
            Parsed::Done(_, q) => n < q < toks.len(),
            Parsed::Failed(_, p) => n <= p < toks.len(),
        },
{
    lemma_before_end(toks, n);
    match mnemonic_of(upper_of(text_of(s, toks[n]))) {
        None => {},
        Some(m) => {
            let attr = InstructionAttribute { mnemonic: m, bits: attribute_bits(m) };
            lemma_operant_bounds(s, toks, attr, n + 1);
        },
    }
}

/// Parsing a line that starts at a token that neither ends a line nor
/// follows the end moves forward, and stays within the tokens.
pub proof fn lemma_line_advances(s: Seq<char>, toks: Seq<Token>, i: int)
    requires
        tokens_wf(s, toks),
        0 <= i < toks.len(),
        !ends_line(toks[i]),
    ensures
        i < after_line(s, toks, i) < toks.len(),
        ends_line(toks[after_line(s, toks, i)]),
        match line_at(s, toks, i) {
            Parsed::Done(_, k) => i < k < toks.len(),
            Parsed::Failed(_, p) => i <= p < toks.len(),
        },
{
    lemma_before_end(toks, i);
    if toks[i].token_type == TokenType::Symbol {
        if toks[i + 1].token_type == TokenType::Colon {
            lemma_before_end(toks, i + 1);
            lemma_scans_advance(toks, i + 2);
            let j = skip_newlines(toks, i + 2);
            if toks[j].token_type == TokenType::Symbol {
                lemma_command_bounds(s, toks, Some(toks[i]), j);
            }
        } else {
            lemma_command_bounds(s, toks, None, i);
        }
    }
    match line_at(s, toks, i) {
        Parsed::Done(_, k) => {
            lemma_scans_advance(toks, k);
        },
        Parsed::Failed(_, p) => {
            lemma_scans_advance(toks, p);
        },
    }
}

/// The commands and errors of the lines from token `i` on.
pub open spec fn parse_from(s: Seq<char>, toks: Seq<Token>, i: int) -> (
    Seq<CommandBuilder>,
    Seq<ParseErrorBuilder>,
)
    decreases toks.len() - i,
{
    if !(0 <= i < toks.len() && tokens_wf(s, toks)) {
        (Seq::empty(), Seq::empty())
    } else {
        let j = skip_newlines(toks, i);
        proof {
            lemma_scans_advance(toks, i);
        }
        if j >= toks.len() || toks[j].token_type == TokenType::End {
            (Seq::empty(), Seq::empty())
        } else {
            proof {
                lemma_line_advances(s, toks, j);
            }
            let rest = parse_from(s, toks, after_line(s, toks, j));
            match line_at(s, toks, j) {
                Parsed::Done(c, k) => (seq![c] + rest.0, trailing_errors(toks, k) + rest.1),
                Parsed::Failed(e, _) => (rest.0, seq![e] + rest.1),
            }
        }
    }
}

/// The commands and errors of all lines.
pub open spec fn parse(
    s: Seq<char>,
    toks: Seq<Token>,
) -> (Seq<CommandBuilder>, Seq<ParseErrorBuilder>) {
    parse_from(s, toks, 0)
}

pub open spec fn token_within(s: Seq<char>, t: Token) -> bool {
    t.start <= t.end <= s.len()
}

/// Every token of an unresolved command lies within the text.
pub open spec fn builder_wf(s: Seq<char>, c: CommandBuilder) -> bool {
    &&& token_within(s, c.instruction)
    &&& (c.label matches Some(l) ==> token_within(s, l))
    &&& (c.operant matches Some(o) ==> token_within(s, o.value))
}

/// An error's span starts within the text and does not end before it starts.
pub open spec fn site_wf(s: Seq<char>, e: ParseErrorBuilder) -> bool {
    e.start <= e.end && e.start <= s.len()
}

/// Every token starts within the text (the `End` token at its length), and
/// every token but `End` lies within it.
pub proof fn lemma_token_facts(s: Seq<char>, toks: Seq<Token>, x: int)
    requires
        tokens_wf(s, toks),
        0 <= x < toks.len(),
    ensures
        toks[x].start <= toks[x].end,
        toks[x].start <= s.len(),
        toks[x].token_type != TokenType::End ==> token_within(s, toks[x]) && x < toks.len() - 1,
{
    assert(toks.last() == toks[toks.len() - 1]);
}

/// The errors for trailing tokens point into the text.
pub proof fn lemma_trailing_wf(s: Seq<char>, toks: Seq<Token>, i: int)
    requires
        tokens_wf(s, toks),
        0 <= i,
    ensures
        forall|k: int|
            0 <= k < trailing_errors(toks, i).len() ==> site_wf(s, #[trigger] trailing_errors(toks, i)[k]),
    decreases toks.len() - i,
{
    if 0 <= i < toks.len() && !ends_line(toks[i]) {
        lemma_token_facts(s, toks, i);
        lemma_trailing_wf(s, toks, i + 1);
        let rest = trailing_errors(toks, i + 1);
        assert forall|k: int|
            0 <= k < trailing_errors(toks, i).len() implies site_wf(
            s,
            #[trigger] trailing_errors(toks, i)[k],
        ) by {
            if k > 0 {
                assert(trailing_errors(toks, i)[k] == rest[k - 1]);
            }
        }
    }
}

/// A parsed line holds tokens within the text, and an error on it points
/// into the text.
pub proof fn lemma_line_wf(s: Seq<char>, toks: Seq<Token>, i: int)
    requires
        tokens_wf(s, toks),
        0 <= i < toks.len(),
        !ends_line(toks[i]),
    ensures
        match line_at(s, toks, i) {
            Parsed::Done(c, _) => builder_wf(s, c),
            Parsed::Failed(e, _) => site_wf(s, e),
        },
{
    lemma_token_facts(s, toks, i);
    lemma_token_facts(s, toks, i + 1);
    let n = if toks[i + 1].token_type == TokenType::Colon {
        lemma_token_facts(s, toks, i + 2);
        lemma_scans_advance(toks, i + 2);
        skip_newlines(toks, i + 2)
    } else {
        i
    };
    lemma_token_facts(s, toks, n);
    if toks[n].token_type == TokenType::Symbol {
        lemma_token_facts(s, toks, n + 1);
        if toks[n + 1].token_type != TokenType::End {
            lemma_token_facts(s, toks, n + 2);
            if toks[n + 2].token_type != TokenType::End {
                lemma_token_facts(s, toks, n + 3);
            }
        }
    }
}

/// What the parser returns points into the text: the tokens of each command
/// and the span of each error.
pub proof fn lemma_parse_from_wf(s: Seq<char>, toks: Seq<Token>, i: int)
    requires
        tokens_wf(s, toks),
        0 <= i,
    ensures
        forall|k: int|
            0 <= k < parse_from(s, toks, i).0.len() ==> builder_wf(s, #[trigger] parse_from(s, toks, i).0[k]),
        forall|k: int|
            0 <= k < parse_from(s, toks, i).1.len() ==> site_wf(s, #[trigger] parse_from(s, toks, i).1[k]),
    decreases toks.len() - i,
{
    if i < toks.len() {
        lemma_scans_advance(toks, i);
        let j = skip_newlines(toks, i);
        if j < toks.len() && toks[j].token_type != TokenType::End {
            lemma_line_advances(s, toks, j);
            lemma_line_wf(s, toks, j);
            let next = after_line(s, toks, j);
            lemma_parse_from_wf(s, toks, next);
            let rest = parse_from(s, toks, next);
            let all = parse_from(s, toks, i);
            match line_at(s, toks, j) {
                Parsed::Done(c, k) => {
                    lemma_trailing_wf(s, toks, k);
                    let trailing = trailing_errors(toks, k);
                    assert forall|m: int| 0 <= m < all.0.len() implies builder_wf(
                        s,
                        #[trigger] all.0[m],
                    ) by {
                        if m > 0 {
                            assert(all.0[m] == rest.0[m - 1]);
                        }
                    }
                    assert forall|m: int| 0 <= m < all.1.len() implies site_wf(
                        s,
                        #[trigger] all.1[m],
                    ) by {
                        if m >= trailing.len() {
                            assert(all.1[m] == rest.1[m - trailing.len()]);
                        } else {
                            assert(all.1[m] == trailing[m]);
                        }
                    }
                },
                Parsed::Failed(e, _) => {
                    assert forall|m: int| 0 <= m < all.1.len() implies site_wf(
                        s,
                        #[trigger] all.1[m],
                    ) by {
                        if m > 0 {
                            assert(all.1[m] == rest.1[m - 1]);
                        }
                    }
                },
            }
        }
    }
}

/// The index of the mnemonic of the line that starts at token `i`.
pub open spec fn instruction_index(toks: Seq<Token>, i: int) -> int {
    if toks[i + 1].token_type == TokenType::Colon {
        skip_newlines(toks, i + 2)
    } else {
        i
    }
}

/// A parsed line's mnemonic is the symbol at its instruction index, which
/// comes before the index where the line's parse ends.
pub proof fn lemma_line_instruction(s: Seq<char>, toks: Seq<Token>, i: int)
    requires
        tokens_wf(s, toks),
        0 <= i < toks.len(),
        !ends_line(toks[i]),
    ensures
        line_at(s, toks, i) matches Parsed::Done(c, k) ==> i <= instruction_index(toks, i) < k
            && c.instruction == toks[instruction_index(toks, i)] && c.instruction.token_type
            == TokenType::Symbol,
{
    lemma_before_end(toks, i);
    if toks[i].token_type == TokenType::Symbol {
        if toks[i + 1].token_type == TokenType::Colon {
            lemma_before_end(toks, i + 1);
            lemma_scans_advance(toks, i + 2);
            let j = skip_newlines(toks, i + 2);
            if toks[j].token_type == TokenType::Symbol {
                lemma_command_bounds(s, toks, Some(toks[i]), j);
            }
        } else {
            lemma_command_bounds(s, toks, None, i);
        }
    }
}

/// The mnemonic of every command parsed from token `i` on is a symbol at an
/// index at or after `i`.
pub proof fn lemma_parse_from_members(s: Seq<char>, toks: Seq<Token>, i: int)
    requires
        tokens_wf(s, toks),
        0 <= i,
    ensures
        forall|m: int|
            0 <= m < parse_from(s, toks, i).0.len() ==> (#[trigger] parse_from(s, toks, i).0[m]).instruction.token_type
                == TokenType::Symbol && exists|x: int|
                i <= x < toks.len() && toks[x] == parse_from(s, toks, i).0[m].instruction,
    decreases toks.len() - i,
{
    if i < toks.len() {
        lemma_scans_advance(toks, i);
        let j = skip_newlines(toks, i);
        if j < toks.len() && toks[j].token_type != TokenType::End {
            lemma_line_advances(s, toks, j);
            lemma_line_instruction(s, toks, j);
            let next = after_line(s, toks, j);
            lemma_parse_from_members(s, toks, next);
            let rest = parse_from(s, toks, next).0;
            let all = parse_from(s, toks, i).0;
            if let Parsed::Done(c, k) = line_at(s, toks, j) {
                assert forall|m: int| 0 <= m < all.len() implies (#[trigger] all[m]).instruction.token_type
                    == TokenType::Symbol && exists|x: int|
                    i <= x < toks.len() && toks[x] == all[m].instruction by {
                    if m > 0 {
                        assert(all[m] == rest[m - 1]);
                    } else {
                        assert(toks[instruction_index(toks, j)] == all[m].instruction);
                    }
                }
            }
        }
    }
}

/// A newline character moves the next offset to the next line; a later
/// offset is on the same line or a later one.
pub proof fn lemma_line_index_steps(s: Seq<char>, p: int, q: int)
    requires
        0 <= p < q <= s.len(),
        s.len() <= usize::MAX,
    ensures
        line_index(s, p) <= line_index(s, q),
        s[p] == '\n' ==> line_index(s, p) < line_index(s, q),
{
    lemma_closed_lines_prefix(s, p + 1, q);
    lemma_closed_lines_prefix(s, p, p + 1);
}

/// When no line has an error, each command stands on a later line than the
/// one before it.
pub proof fn lemma_parse_lines_increase(s: Seq<char>, toks: Seq<Token>, i: int)
    requires
        tokens_wf(s, toks),
        tokens_ordered(s, toks),
        s.len() < usize::MAX,
        0 <= i,
        parse_from(s, toks, i).1.len() == 0,
    ensures
        forall|a: int, b: int|
            0 <= a < b < parse_from(s, toks, i).0.len() ==> line_index(
                s,
                parse_from(s, toks, i).0[a].instruction.start as int,
            ) < line_index(s, parse_from(s, toks, i).0[b].instruction.start as int),
    decreases toks.len() - i,
{
    if i < toks.len() {
        lemma_scans_advance(toks, i);
        let j = skip_newlines(toks, i);
        if j < toks.len() && toks[j].token_type != TokenType::End {
            lemma_line_advances(s, toks, j);
            lemma_line_instruction(s, toks, j);
            let e = after_line(s, toks, j);
            let rest = parse_from(s, toks, e);
            let all = parse_from(s, toks, i);
            if let Parsed::Done(c, k) = line_at(s, toks, j) {
                assert(rest.1.len() == 0);
                lemma_parse_lines_increase(s, toks, e);
                lemma_parse_from_members(s, toks, e);
                let n = instruction_index(toks, j);
                lemma_scans_advance(toks, k);
                assert forall|a: int, b: int| 0 <= a < b < all.0.len() implies line_index(
                    s,
                    all.0[a].instruction.start as int,
                ) < line_index(s, all.0[b].instruction.start as int) by {
                    assert(all.0[b] == rest.0[b - 1]);
                    if a > 0 {
                        assert(all.0[a] == rest.0[a - 1]);
                    } else {
                        let x = choose|x: int| e <= x < toks.len() && toks[x] == rest.0[b - 1].instruction;
                        lemma_token_facts(s, toks, x);
                        lemma_token_facts(s, toks, e + 1);
                        lemma_token_facts(s, toks, n);
                        assert(e < x);
                        assert(toks[e].token_type == TokenType::NewLine);
                        let p = toks[e].start as int;
                        assert(s[p] == '\n');
                        lemma_line_index_steps(s, toks[n].start as int, p);
                        lemma_line_index_steps(s, p, toks[x].start as int);
                    }
                }
            }
        }
    }
}

/// A parsed line without label starts with its mnemonic, and none of its
/// tokens ends a line.
pub proof fn lemma_unlabelled_line(s: Seq<char>, toks: Seq<Token>, j: int)
    requires
        tokens_wf(s, toks),
        0 <= j < toks.len(),
        !ends_line(toks[j]),
    ensures
        match line_at(s, toks, j) {
            Parsed::Done(c, k) => c.label is None ==> instruction_index(toks, j) == j && forall|
                x: int,
            | j <= x < k ==> !ends_line(#[trigger] toks[x]),
            Parsed::Failed(_, _) => true,
        },
{
    lemma_line_instruction(s, toks, j);
}

/// When no line has an error and no command has a label, every token other
/// than a line end stands on the line of some command parsed from `i` on.
pub proof fn lemma_parse_lines_complete(s: Seq<char>, toks: Seq<Token>, i: int)
    requires
        tokens_wf(s, toks),
        tokens_ordered(s, toks),
        newlines_tokenized(s, toks, 0),
        s.len() < usize::MAX,
        0 <= i,
        parse_from(s, toks, i).1.len() == 0,
        forall|m: int| 0 <= m < parse_from(s, toks, i).0.len() ==> (#[trigger] parse_from(s, toks, i).0[m]).label is None,
    ensures
        forall|x: int|
            i <= x < toks.len() && !ends_line(toks[x]) ==> exists|m: int|
                0 <= m < parse_from(s, toks, i).0.len() && line_index(
                    s,
                    (#[trigger] parse_from(s, toks, i).0[m]).instruction.start as int,
                ) == line_index(s, toks[x].start as int),
    decreases toks.len() - i,
{
    if i < toks.len() {
        lemma_scans_advance(toks, i);
        let j = skip_newlines(toks, i);
        let all = parse_from(s, toks, i).0;
        if j < toks.len() && toks[j].token_type != TokenType::End {
            lemma_line_advances(s, toks, j);
            lemma_line_instruction(s, toks, j);
            lemma_unlabelled_line(s, toks, j);
            let e = after_line(s, toks, j);
            let rest = parse_from(s, toks, e);
            if let Parsed::Done(c, k) = line_at(s, toks, j) {
                assert(all[0] == c);
                assert(rest.1.len() == 0);
                assert forall|m: int| 0 <= m < rest.0.len() implies (#[trigger] rest.0[m]).label is None by {
                    assert(all[m + 1] == rest.0[m]);
                }
                lemma_parse_lines_complete(s, toks, e);
                lemma_scans_advance(toks, k);
                assert forall|x: int| i <= x < toks.len() && !ends_line(toks[x]) implies exists|m: int|
                    0 <= m < all.len() && line_index(s, (#[trigger] all[m]).instruction.start as int)
                        == line_index(s, toks[x].start as int) by {
                    if x < j {
                        lemma_skipped_are_newlines(toks, i, x);
                    } else if x < k {
                        lemma_same_line(s, toks, j, x);
                        assert(line_index(s, all[0].instruction.start as int) == line_index(
                            s,
                            toks[x].start as int,
                        ));
                    } else {
                        assert(e == k);
                        let m = choose|m: int|
                            0 <= m < rest.0.len() && line_index(
                                s,
                                (#[trigger] rest.0[m]).instruction.start as int,
                            ) == line_index(s, toks[x].start as int);
                        assert(all[m + 1] == rest.0[m]);
                    }
                }
            }
        } else {
            assert forall|x: int| i <= x < toks.len() && !ends_line(toks[x]) implies false by {
                if x < j {
                    lemma_skipped_are_newlines(toks, i, x);
                } else {
                    lemma_token_facts(s, toks, x);
                }
            }
        }
    }
}

/// The tokens that skipping newlines passes over are newlines.
proof fn lemma_skipped_are_newlines(toks: Seq<Token>, i: int, x: int)
    requires
        0 <= i <= x < skip_newlines(toks, i),
    ensures
        toks[x].token_type == TokenType::NewLine,
    decreases x - i,
{
    if x > i {
        lemma_skipped_are_newlines(toks, i + 1, x);
    }
}

/// Tokens with no line end between them stand on one line.
proof fn lemma_same_line(s: Seq<char>, toks: Seq<Token>, j: int, x: int)
    requires
        tokens_wf(s, toks),
        tokens_ordered(s, toks),
        newlines_tokenized(s, toks, 0),
        s.len() < usize::MAX,
        0 <= j <= x < toks.len(),
        forall|y: int| j <= y <= x ==> !ends_line(#[trigger] toks[y]),
    ensures
        line_index(s, toks[j].start as int) == line_index(s, toks[x].start as int),
{
    lemma_token_facts(s, toks, j);
    lemma_token_facts(s, toks, x);
    if j < x {
        assert(toks[j].start < toks[x].start);
    }
    assert forall|q: int| toks[j].start <= q < toks[x].start implies s[q] != '\n' by {
        if s[q] == '\n' {
            let y = choose|y: int|
                0 <= y < toks.len() && #[trigger] toks[y].start == q && toks[y].token_type
                    == TokenType::NewLine;
            if y < j {
                assert(toks[y].start < toks[j].start);
            }
            if y >= x {
                assert(y == x || toks[x].start < toks[y].start);
            }
            assert(!ends_line(toks[y]));
        }
    }
    lemma_no_newline(s, toks[j].start as int, toks[x].start as int);
}

/// An executable outcome agrees with the outcome that the specification gives.
pub open spec fn agrees<T>(
    r: Result<(T, usize), (ParseErrorBuilder, usize)>,
    p: Parsed<T>,
) -> bool {
    match (r, p) {
        (Ok((v, k)), Parsed::Done(w, q)) => v == w && k == q,
        (Err((e, x)), Parsed::Failed(f, y)) => e == f && x == y,
        _ => false,
    }
}

fn error_at(kind: ParseErrorType, t: &Token) -> (r: ParseErrorBuilder)
    ensures
        r == site(kind, *t),
{
    ParseErrorBuilder::new(kind, t.start, t.end)
}

/// Skips newline tokens from `i` on.
fn skip_empty_lines(tokens: &Vec<Token>, i: usize) -> (r: usize)
    requires
        i < tokens@.len(),
        ends_with_end(tokens@),
    ensures
        r == skip_newlines(tokens@, i as int),
        r < tokens@.len(),
{
    proof {
        lemma_scans_advance(tokens@, i as int);
    }
    let mut index = i;
    while tokens[index].token_type == TokenType::NewLine
        invariant
            i <= index < tokens.len(),
            ends_with_end(tokens@),
            skip_newlines(tokens@, index as int) == skip_newlines(tokens@, i as int),
        decreases tokens@.len() - index,
    {
        proof {
            if index == tokens@.len() - 1 {
                assert(tokens@.last() == tokens@[index as int]);
            }
        }
        index = index + 1;
    }
    index
}

/// Moves to the token that ends the line, to recover from an error.
fn recover_to_next_line(tokens: &Vec<Token>, i: usize) -> (r: usize)
    requires
        i < tokens@.len(),
        ends_with_end(tokens@),
    ensures
        r == line_end(tokens@, i as int),
        r < tokens@.len(),
{
    let mut index = i;
    while !(tokens[index].token_type == TokenType::NewLine || tokens[index].token_type
        == TokenType::End)
        invariant
            i <= index < tokens.len(),
            ends_with_end(tokens@),
            line_end(tokens@, index as int) == line_end(tokens@, i as int),
        decreases tokens@.len() - index,
    {
        proof {
            if index == tokens@.len() - 1 {
                assert(tokens@.last() == tokens@[index as int]);
            }
        }
        index = index + 1;
    }
    index
}

/// Moves to the token that ends the line, reporting each token on the way
/// as an `InvalidToken` error.
fn finish_line(tokens: &Vec<Token>, i: usize, errors: &mut ParseErrorReportBuilder) -> (r: usize)
    requires
        i < tokens@.len(),
        ends_with_end(tokens@),
    ensures
        r == line_end(tokens@, i as int),
        r < tokens@.len(),
        final(errors).error@ == old(errors).error@ + trailing_errors(tokens@, i as int),
{
    let mut index = i;
    while !(tokens[index].token_type == TokenType::NewLine || tokens[index].token_type
        == TokenType::End)
        invariant
            i <= index < tokens.len(),
            ends_with_end(tokens@),
            line_end(tokens@, index as int) == line_end(tokens@, i as int),
            errors.error@ + trailing_errors(tokens@, index as int) == old(errors).error@
                + trailing_errors(tokens@, i as int),
        decreases tokens@.len() - index,
    {
        let ghost before = errors.error@;
        errors.add(error_at(ParseErrorType::InvalidToken, &tokens[index]));
        proof {
            assert(before + trailing_errors(tokens@, index as int) == errors.error@
                + trailing_errors(tokens@, index + 1));
        }
        proof {
            if index == tokens@.len() - 1 {
                assert(tokens@.last() == tokens@[index as int]);
            }
        }
        index = index + 1;
    }
    index
}

/// Reads the number after a `#` at `k`.
fn parse_operant_fixed(tokens: &Vec<Token>, k: usize) -> (r: Result<
    (Operant, usize),
    (ParseErrorBuilder, usize),
>)
    requires
        k + 1 < tokens.len(),
    ensures
        r == (if tokens@[k + 1].token_type != TokenType::Number {
            Err((site(ParseErrorType::InvalidFixNumber, tokens@[k + 1]), (k + 1) as usize))
        } else {
            Ok((Operant { kind: OperantKind::Fixed, value: tokens@[k + 1] }, (k + 2) as usize))
        }),
{
    match tokens[k + 1].ensure_type(TokenType::Number) {
        Some(number) => Ok((Operant { kind: OperantKind::Fixed, value: number }, k + 2)),
        None => Err((error_at(ParseErrorType::InvalidFixNumber, &tokens[k + 1]), k + 1)),
    }
}

/// Reads the number and the closing parenthesis after a `(` at `k`.
fn parse_operant_address(tokens: &Vec<Token>, k: usize) -> (r: Result<
    (Operant, usize),
    (ParseErrorBuilder, usize),
>)
    requires
        ends_with_end(tokens@),
        k + 1 < tokens.len(),
    ensures
        r == (if tokens@[k + 1].token_type != TokenType::Number {
            Err((site(ParseErrorType::InvalidAddress, tokens@[k + 1]), (k + 1) as usize))
        } else if tokens@[k + 2].token_type != TokenType::ParenthesisClose {
            Err((site(ParseErrorType::MissingParenthesisClose, tokens@[k + 2]), (k + 2) as usize))
        } else {
            Ok((Operant { kind: OperantKind::Address, value: tokens@[k + 1] }, (k + 3) as usize))
        }),
{
    let number = match tokens[k + 1].ensure_type(TokenType::Number) {
        Some(number) => number,
        None => {
            return Err((error_at(ParseErrorType::InvalidAddress, &tokens[k + 1]), k + 1));
        },
    };
    proof {
        lemma_before_end(tokens@, k + 1);
    }
    match tokens[k + 2].ensure_type(TokenType::ParenthesisClose) {
        Some(_) => Ok((Operant { kind: OperantKind::Address, value: number }, k + 3)),
        None => Err((error_at(ParseErrorType::MissingParenthesisClose, &tokens[k + 2]), k + 2)),
    }
}

/// Reads the operand at `k` for a mnemonic with attribute `attr`.
fn parse_operant(tokens: &Vec<Token>, attr: &InstructionAttribute, k: usize) -> (r: Result<
    (Operant, usize),
    (ParseErrorBuilder, usize),
>)
    requires
        ends_with_end(tokens@),
        k < tokens.len(),
    ensures
        agrees(r, operant_at(tokens@, *attr, k as int)),
{
    let first = &tokens[k];
    if first.token_type != TokenType::End {
        proof {
            lemma_before_end(tokens@, k as int);
        }
    }
    match first.token_type {
        TokenType::ParenthesisOpen => {
            if !attr.allow_address() {
                return Err((error_at(ParseErrorType::NotAllowedAddress, first), k));
            }
            parse_operant_address(tokens, k)
        },
        TokenType::Number => {
            if !attr.allow_fixed_number() {
                return Err((error_at(ParseErrorType::NotAllowedFixNumber, first), k));
            }
            Ok((Operant { kind: OperantKind::Fixed, value: *first }, k + 1))
        },
        TokenType::Hash => {
            if !attr.allow_fixed_number() {
                return Err((error_at(ParseErrorType::NotAllowedFixNumber, first), k));
            }
            parse_operant_fixed(tokens, k)
        },
        TokenType::Symbol => {
            if !attr.allow_label() {
                return Err((error_at(ParseErrorType::NotAllowedLabel, first), k));
            }
            Ok((Operant { kind: OperantKind::Label, value: *first }, k + 1))
        },
        _ => Err((error_at(ParseErrorType::MissingOperant, first), k)),
    }
}

/// Reads the command whose mnemonic is the symbol at `n`.
fn parse_command(text: &[char], tokens: &Vec<Token>, label: Option<Token>, n: usize) -> (r: Result<
    (CommandBuilder, usize),
    (ParseErrorBuilder, usize),
>)
    requires
        tokens_wf(text@, tokens@),
        n < tokens.len(),
        tokens@[n as int].token_type == TokenType::Symbol,
    ensures
        agrees(r, command_at(text@, tokens@, label, n as int)),
{
    proof {
        lemma_before_end(tokens@, n as int);
    }
    let instruction = tokens[n];
    let attributes = match get_instruction_attribute(instruction.resolve(text)) {
        Some(attr) => attr,
        None => {
            return Err((error_at(ParseErrorType::InvalidInstruction, &instruction), n));
        },
    };
    if attributes.allow_no_operant() {
        return Ok((CommandBuilder::new(label, instruction, None), n + 1));
    }
    match parse_operant(tokens, &attributes, n + 1) {
        Ok((operant, next)) => Ok((CommandBuilder::new(label, instruction, Some(operant)), next)),
        Err(e) => Err(e),
    }
}

/// Reads the line that starts at token `i`: an optional `label:`, blank
/// lines after the colon, then a command.
fn parse_line(text: &[char], tokens: &Vec<Token>, i: usize) -> (r: Result<
    (CommandBuilder, usize),
    (ParseErrorBuilder, usize),
>)
    requires
        tokens_wf(text@, tokens@),
        i < tokens.len(),
        !ends_line(tokens@[i as int]),
    ensures
        agrees(r, line_at(text@, tokens@, i as int)),
{
    proof {
        lemma_before_end(tokens@, i as int);
    }
    let first = &tokens[i];
    if first.token_type != TokenType::Symbol {
        return Err((error_at(ParseErrorType::MissingInstruction, first), i));
    }
    if tokens[i + 1].token_type == TokenType::Colon {
        proof {
            lemma_before_end(tokens@, i + 1);
        }
        let j = skip_empty_lines(tokens, i + 2);
        let instruction = &tokens[j];
        if instruction.token_type != TokenType::Symbol {
            return Err((error_at(ParseErrorType::MissingInstruction, instruction), j));
        }
        parse_command(text, tokens, Some(*first), j)
    } else {
        parse_command(text, tokens, None, i)
    }
}

/// Parses all lines into unresolved commands. The errors are added to
/// `errors` in the order of the text; a line with an error is skipped up
/// to its end, and parsing goes on with the next line.
pub fn parse_token(text: &[char], tokens: &Vec<Token>, errors: &mut ParseErrorReportBuilder) -> (r: Vec<CommandBuilder>)
    requires
        tokens_wf(text@, tokens@),
    ensures
        r@ == parse(text@, tokens@).0,
        final(errors).error@ == old(errors).error@ + parse(text@, tokens@).1,
{
    let mut commands: Vec<CommandBuilder> = Vec::new();
    let mut i: usize = 0;
    while i < tokens.len()
        invariant
            tokens_wf(text@, tokens@),
            i < tokens.len(),
            parse(text@, tokens@).0 == commands@ + parse_from(text@, tokens@, i as int).0,
            old(errors).error@ + parse(text@, tokens@).1 == errors.error@ + parse_from(
                text@,
                tokens@,
                i as int,
            ).1,
        decreases tokens.len() - i,
    {
        let ghost s = text@;
        let ghost toks = tokens@;
        let j = skip_empty_lines(tokens, i);
        if tokens[j].token_type == TokenType::End {
            proof {
                assert(parse_from(s, toks, i as int) == (
                    Seq::<CommandBuilder>::empty(),
                    Seq::<ParseErrorBuilder>::empty(),
                ));
                assert(commands@ + Seq::<CommandBuilder>::empty() == commands@);
                assert(errors.error@ + Seq::<ParseErrorBuilder>::empty() == errors.error@);
            }
            return commands;
        }
        proof {
            lemma_scans_advance(toks, i as int);
            lemma_line_advances(s, toks, j as int);
        }
        let ghost rest = parse_from(s, toks, after_line(s, toks, j as int));
        let ghost before_commands = commands@;
        let ghost before_errors = errors.error@;
        match parse_line(text, tokens, j) {
            Ok((command, next)) => {
                commands.push(command);
                i = finish_line(tokens, next, errors);
                proof {
                    assert(before_commands + (seq![command] + rest.0) == commands@ + rest.0);
                    assert(before_errors + (trailing_errors(toks, next as int) + rest.1)
                        == errors.error@ + rest.1);
                }
            },
            Err((error, at)) => {
                errors.add(error);
                i = recover_to_next_line(tokens, at);
                proof {
                    assert(before_errors + (seq![error] + rest.1) == errors.error@ + rest.1);
                }
            },
        }
    }
    commands
}

} // verus!

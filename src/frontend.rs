//! Compilation: text to tokens, to unresolved commands, to commands.
use vstd::prelude::*;
use vstd::std_specs::iter::IteratorSpec;
use crate::commands::Command;
use crate::error::{reports, ParseErrorBuilder, ParseErrorReport, ParseErrorReportBuilder};
use crate::lexer::{lemma_lex_from_newlines, lemma_lex_ordered, lemma_lex_wf, lex, tokenize};
use crate::lines::{lemma_line_index_le, line_index, line_spans, LineTable};
use crate::parser::{
    builder_wf, ends_line, lemma_parse_from_wf, lemma_parse_lines_complete,
    lemma_parse_lines_increase, parse, parse_token, site_wf, CommandBuilder,
};
use crate::error::ParseErrorType;
use crate::parser::{site, text_of};
use crate::resolver::{
    convert_prefix, label_pass, lemma_convert_all_ok, lemma_label_reassign, lemma_resolution_wf,
    resolution, resolve,
};

verus! {

/// The unresolved commands of a text, and the errors of parsing it.
pub open spec fn parsed(s: Seq<char>) -> (Seq<CommandBuilder>, Seq<ParseErrorBuilder>) {
    parse(s, lex(s))
}

/// The commands of a text, as the resolver makes them from its unresolved
/// commands.
pub open spec fn compiled(s: Seq<char>) -> Seq<Command> {
    resolution(s, parsed(s).0).0
}

/// All errors of a text: those of the parser, then those of the resolver.
pub open spec fn compile_errors(s: Seq<char>) -> Seq<ParseErrorBuilder> {
    parsed(s).1 + resolution(s, parsed(s).0).1
}

/// The state of one compilation: the errors found so far and the table of
/// lines.
pub struct ParseContext {
    pub errors: ParseErrorReportBuilder,
    pub line_table: LineTable,
}

impl ParseContext {
    pub fn new_empty() -> (r: ParseContext)
        ensures
            r.errors.error@ == Seq::<ParseErrorBuilder>::empty(),
            r.line_table@ == Seq::<crate::lines::LineInfo>::empty(),
    {
        ParseContext { errors: ParseErrorReportBuilder::new(), line_table: LineTable::new() }
    }
}

/// The characters of a string.
fn chars_of(text: &str) -> (r: Vec<char>)
    ensures
        r@ == text@,
{
    broadcast use vstd::string::axiom_spec_iter, vstd::string::next_postcondition;

    let mut chars = text.chars();
    let mut r: Vec<char> = Vec::new();
    loop
        invariant
            r@ + chars.remaining() == text@,
            chars.obeys_prophetic_iter_laws(),
            chars.decrease() is Some,
        decreases chars.decrease()->0,
    {
        let ghost before = chars.remaining();
        match chars.next() {
            Some(c) => {
                r.push(c);
                assert(r@ + chars.remaining() == text@) by {
                    assert(before == seq![c] + chars.remaining());
                }
            },
            None => {
                assert(r@ + Seq::<char>::empty() == r@);
                return r;
            },
        }
    }
}

/// Compiles a program into commands. Every line is checked: the result is
/// the commands when no line has an error, and otherwise the report of all
/// errors, those of parsing first, in the order of the text.
pub fn compile(text: &str) -> (r: Result<Vec<Command>, ParseErrorReport>)
    requires
        text@.len() < usize::MAX,
    ensures
        match r {
            Ok(commands) => compile_errors(text@).len() == 0 && commands@ == compiled(text@),
            Err(report) => compile_errors(text@).len() > 0 && reports(
                text@,
                report,
                compile_errors(text@),
            ),
        },
{
    let chars = chars_of(text);
    let source = chars.as_slice();
    let mut context = ParseContext::new_empty();
    proof {
        lemma_lex_wf(source@);
    }
    let tokens = tokenize(source, &mut context.line_table);
    assert(context.line_table@ == line_spans(source@));
    let command_builder = parse_token(source, &tokens, &mut context.errors);
    proof {
        lemma_parse_from_wf(source@, tokens@, 0);
    }
    let commands = resolve(source, &context.line_table, &command_builder, &mut context.errors);
    proof {
        let s = source@;
        lemma_resolution_wf(s, command_builder@);
        let parse_errors = parsed(s).1;
        let resolve_errors = resolution(s, parsed(s).0).1;
        assert(context.errors.error@ == compile_errors(s));
        assert forall|k: int|
            0 <= k < compile_errors(s).len() implies site_wf(s, #[trigger] compile_errors(s)[k]) by {
            if k < parse_errors.len() {
                assert(compile_errors(s)[k] == parse_errors[k]);
            } else {
                assert(compile_errors(s)[k] == resolve_errors[k - parse_errors.len()]);
            }
        }
    }
    if context.errors.is_successful() {
        Ok(commands)
    } else {
        Err(context.errors.build(source, &context.line_table))
    }
}

/// Two commands of a program that define the same label make its
/// compilation fail, with a `LabelReassign` error at the later definition.
pub proof fn lemma_compile_label_reassign(s: Seq<char>, a: int, b: int)
    requires
        0 <= a < b < parsed(s).0.len(),
        parsed(s).0[a].label is Some,
        parsed(s).0[b].label is Some,
        text_of(s, parsed(s).0[a].label->0) == text_of(s, parsed(s).0[b].label->0),
    ensures
        compile_errors(s).contains(site(ParseErrorType::LabelReassign, parsed(s).0[b].label->0)),
        compile_errors(s).len() > 0,
{
    let cmds = parsed(s).0;
    lemma_label_reassign(s, cmds, a, b);
    let error = site(ParseErrorType::LabelReassign, cmds[b].label->0);
    let label_errors = label_pass(s, cmds, cmds.len() as int).1;
    let w = choose|w: int| 0 <= w < label_errors.len() && label_errors[w] == error;
    assert(compile_errors(s)[parsed(s).1.len() + w] == error);
}

/// A program that compiles gives one command for each line that holds an
/// instruction, in the order of the lines: as many commands as parsed
/// lines, each with the 0-based index of the line where its mnemonic stands,
/// and each on a later line than the one before. Without labels, every line
/// that holds a token (anything but blanks and comments) holds a command, so
/// a program of N such lines gives exactly N commands.
pub proof fn lemma_one_command_per_line(s: Seq<char>)
    requires
        s.len() < usize::MAX,
        compile_errors(s).len() == 0,
    ensures
        compiled(s).len() == parsed(s).0.len(),
        forall|i: int|
            0 <= i < compiled(s).len() ==> compiled(s)[i].line == line_index(
                s,
                parsed(s).0[i].instruction.start as int,
            ),
        forall|a: int, b: int|
            0 <= a < b < compiled(s).len() ==> compiled(s)[a].line < compiled(s)[b].line,
        (forall|k: int| 0 <= k < parsed(s).0.len() ==> (#[trigger] parsed(s).0[k]).label is None)
            ==> forall|x: int|
            0 <= x < lex(s).len() && !ends_line(lex(s)[x]) ==> exists|i: int|
                0 <= i < compiled(s).len() && #[trigger] compiled(s)[i].line == line_index(
                    s,
                    lex(s)[x].start as int,
                ),
{
    let cmds = parsed(s).0;
    let (entries, label_errors) = label_pass(s, cmds, cmds.len() as int);
    lemma_lex_wf(s);
    lemma_lex_ordered(s);
    lemma_parse_from_wf(s, lex(s), 0);
    assert(parsed(s).1.len() == 0);
    lemma_parse_lines_increase(s, lex(s), 0);
    assert(convert_prefix(s, entries, cmds, cmds.len() as int).1.len() == 0);
    lemma_convert_all_ok(s, entries, cmds, cmds.len() as int);
    assert forall|i: int|
        0 <= i < compiled(s).len() implies compiled(s)[i].line == line_index(
        s,
        parsed(s).0[i].instruction.start as int,
    ) by {
        assert(builder_wf(s, cmds[i]));
        lemma_line_index_le(s, cmds[i].instruction.start as int);
        assert(crate::resolver::command_of(s, entries, cmds[i]) == Ok::<
            Command,
            ParseErrorBuilder,
        >(compiled(s)[i]));
    }
    if forall|k: int| 0 <= k < parsed(s).0.len() ==> (#[trigger] parsed(s).0[k]).label is None {
        lemma_lex_from_newlines(s, 0);
        lemma_parse_lines_complete(s, lex(s), 0);
        assert forall|x: int| 0 <= x < lex(s).len() && !ends_line(lex(s)[x]) implies exists|i: int|
            0 <= i < compiled(s).len() && #[trigger] compiled(s)[i].line == line_index(
                s,
                lex(s)[x].start as int,
            ) by {
            let i = choose|i: int|
                0 <= i < parsed(s).0.len() && line_index(
                    s,
                    (#[trigger] parsed(s).0[i]).instruction.start as int,
                ) == line_index(s, lex(s)[x].start as int);
            assert(compiled(s)[i].line == line_index(s, parsed(s).0[i].instruction.start as int));
        }
    }
}

} // verus!

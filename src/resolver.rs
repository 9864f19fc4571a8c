//! The resolver: unresolved commands to executable commands, in two passes.
//! The first builds the table of labels; the second picks each opcode and
//! resolves each operand.
use vstd::prelude::*;
use crate::commands::{
    get_instruction_attribute, instruction_for, mnemonic_of, upper_of, Command, Instruction,
    InstructionAttribute,
};
use crate::error::{ParseErrorBuilder, ParseErrorReportBuilder, ParseErrorType};
use crate::lexer::{is_digit, Token};
use crate::lines::{lemma_line_lookup, line_index, line_spans, LineTable};
use crate::operant::{Operant, OperantKind};
use crate::parser::{builder_wf, site, site_wf, text_of, token_within, CommandBuilder};

verus! {

/// A defined label: the token that names it and the index of the command
/// it marks.
#[derive(Debug, Clone, Copy, PartialEq, Eq, Structural)]
pub struct LabelEntry {
    pub name: Token,
    pub index: usize,
}

/// The index that the first entry named `name` holds, if any.
pub open spec fn find_label(
    s: Seq<char>,
    entries: Seq<LabelEntry>,
    name: Seq<char>,
) -> Option<usize>
    decreases entries.len(),
{
    if entries.len() == 0 {
        None
    } else if text_of(s, entries[0].name) == name {
        Some(entries[0].index)
    } else {
        find_label(s, entries.drop_first(), name)
    }
}

/// The label table that the first `n` commands give, and the errors for
/// labels defined again (the first definition stays).
pub open spec fn label_pass(s: Seq<char>, cmds: Seq<CommandBuilder>, n: int) -> (
    Seq<LabelEntry>,
    Seq<ParseErrorBuilder>,
)
    decreases n,
{
    if n <= 0 {
        (Seq::empty(), Seq::empty())
    } else {
        let (entries, errors) = label_pass(s, cmds, n - 1);
        match cmds[n - 1].label {
            None => (entries, errors),
            Some(l) => {
                if find_label(s, entries, text_of(s, l)) is Some {
                    (entries, errors.push(site(ParseErrorType::LabelReassign, l)))
                } else {
                    (entries.push(LabelEntry { name: l, index: (n - 1) as usize }), errors)
                }
            },
        }
    }
}

/// The number that a string of decimal digits spells.
pub open spec fn digits_value(d: Seq<char>) -> nat
    decreases d.len(),
{
    if d.len() == 0 {
        0
    } else {
        digits_value(d.drop_last()) * 10 + (d.last() as nat - '0' as nat) as nat
    }
}

/// A non-negative decimal number that fits in a `usize`, as `str::parse`
/// reads one: at least one digit, and digits only.
pub open spec fn parse_decimal(d: Seq<char>) -> Option<usize> {
    if d.len() > 0 && (forall|k: int| 0 <= k < d.len() ==> is_digit(d[k])) && digits_value(d)
        <= usize::MAX {
        Some(digits_value(d) as usize)
    } else {
        None
    }
}

/// The value of an operand: its number, or the index that its label marks.
pub open spec fn operand_value(
    s: Seq<char>,
    entries: Seq<LabelEntry>,
    op: Option<Operant>,
) -> Result<usize, ParseErrorBuilder> {
    match op {
        None => Ok(0),
        Some(o) => match o.kind {
            OperantKind::Label => match find_label(s, entries, text_of(s, o.value)) {
                Some(i) => Ok(i),
                None => Err(site(ParseErrorType::MissingLabel, o.value)),
            },
            _ => match parse_decimal(text_of(s, o.value)) {
                Some(v) => Ok(v),
                None => Err(site(ParseErrorType::InvalidOperant, o.value)),
            },
        },
    }
}

/// The error for an operand form that a mnemonic does not take.
pub open spec fn not_allowed(c: CommandBuilder) -> ParseErrorBuilder {
    match c.operant {
        None => site(ParseErrorType::MissingOperant, c.instruction),
        Some(o) => match o.kind {
            OperantKind::Fixed => site(ParseErrorType::NotAllowedFixNumber, o.value),
            OperantKind::Address => site(ParseErrorType::NotAllowedAddress, o.value),
            OperantKind::Label => site(ParseErrorType::NotAllowedLabel, o.value),
        },
    }
}

/// The executable command for one unresolved command, or its error.
pub open spec fn command_of(s: Seq<char>, entries: Seq<LabelEntry>, c: CommandBuilder) -> Result<
    Command,
    ParseErrorBuilder,
> {
    match mnemonic_of(upper_of(text_of(s, c.instruction))) {
        None => Err(site(ParseErrorType::InvalidInstruction, c.instruction)),
        Some(m) => match instruction_for(m, kind_of(c.operant)) {
            None => Err(not_allowed(c)),
            Some(instruction) => match operand_value(s, entries, c.operant) {
                Err(e) => Err(e),
                Ok(v) => Ok(
                    Command {
                        instruction,
                        operant: v,
                        line: line_index(s, c.instruction.start as int) as usize,
                    },
                ),
            },
        },
    }
}

pub open spec fn kind_of(op: Option<Operant>) -> Option<OperantKind> {
    match op {
        None => None,
        Some(o) => Some(o.kind),
    }
}

/// The commands and errors of the first `n` unresolved commands.
pub open spec fn convert_prefix(
    s: Seq<char>,
    entries: Seq<LabelEntry>,
    cmds: Seq<CommandBuilder>,
    n: int,
) -> (Seq<Command>, Seq<ParseErrorBuilder>)
    decreases n,
{
    if n <= 0 {
        (Seq::empty(), Seq::empty())
    } else {
        let (out, errors) = convert_prefix(s, entries, cmds, n - 1);
        match command_of(s, entries, cmds[n - 1]) {
            Ok(c) => (out.push(c), errors),
            Err(e) => (out, errors.push(e)),
        }
    }
}

/// Both passes: the commands, then the errors of the label pass followed by
/// those of the conversion.
pub open spec fn resolution(s: Seq<char>, cmds: Seq<CommandBuilder>) -> (
    Seq<Command>,
    Seq<ParseErrorBuilder>,
) {
    let (entries, label_errors) = label_pass(s, cmds, cmds.len() as int);
    let (out, errors) = convert_prefix(s, entries, cmds, cmds.len() as int);
    (out, label_errors + errors)
}

/// The errors of the label pass point into the text.
pub proof fn lemma_label_pass_wf(s: Seq<char>, cmds: Seq<CommandBuilder>, n: int)
    requires
        0 <= n <= cmds.len(),
        forall|k: int| 0 <= k < cmds.len() ==> builder_wf(s, #[trigger] cmds[k]),
    ensures
        forall|k: int|
            0 <= k < label_pass(s, cmds, n).1.len() ==> site_wf(s, #[trigger] label_pass(s, cmds, n).1[k]),
    decreases n,
{
    if n > 0 {
        lemma_label_pass_wf(s, cmds, n - 1);
        assert(builder_wf(s, cmds[n - 1]));
        let prev = label_pass(s, cmds, n - 1).1;
        assert forall|k: int|
            0 <= k < label_pass(s, cmds, n).1.len() implies site_wf(
            s,
            #[trigger] label_pass(s, cmds, n).1[k],
        ) by {
            if k < prev.len() {
                assert(label_pass(s, cmds, n).1[k] == prev[k]);
            }
        }
    }
}

/// The errors of the conversion point into the text.
pub proof fn lemma_convert_wf(
    s: Seq<char>,
    entries: Seq<LabelEntry>,
    cmds: Seq<CommandBuilder>,
    n: int,
)
    requires
        0 <= n <= cmds.len(),
        forall|k: int| 0 <= k < cmds.len() ==> builder_wf(s, #[trigger] cmds[k]),
    ensures
        forall|k: int|
            0 <= k < convert_prefix(s, entries, cmds, n).1.len() ==> site_wf(
                s,
                #[trigger] convert_prefix(s, entries, cmds, n).1[k],
            ),
    decreases n,
{
    if n > 0 {
        lemma_convert_wf(s, entries, cmds, n - 1);
        assert(builder_wf(s, cmds[n - 1]));
        let prev = convert_prefix(s, entries, cmds, n - 1).1;
        assert forall|k: int|
            0 <= k < convert_prefix(s, entries, cmds, n).1.len() implies site_wf(
            s,
            #[trigger] convert_prefix(s, entries, cmds, n).1[k],
        ) by {
            if k < prev.len() {
                assert(convert_prefix(s, entries, cmds, n).1[k] == prev[k]);
            }
        }
    }
}

/// The errors of both passes point into the text.
pub proof fn lemma_resolution_wf(s: Seq<char>, cmds: Seq<CommandBuilder>)
    requires
        forall|k: int| 0 <= k < cmds.len() ==> builder_wf(s, #[trigger] cmds[k]),
    ensures
        forall|k: int|
            0 <= k < resolution(s, cmds).1.len() ==> site_wf(s, #[trigger] resolution(s, cmds).1[k]),
{
    let (entries, label_errors) = label_pass(s, cmds, cmds.len() as int);
    let errors = convert_prefix(s, entries, cmds, cmds.len() as int).1;
    lemma_label_pass_wf(s, cmds, cmds.len() as int);
    lemma_convert_wf(s, entries, cmds, cmds.len() as int);
    assert forall|k: int|
        0 <= k < resolution(s, cmds).1.len() implies site_wf(s, #[trigger] resolution(s, cmds).1[k]) by {
        if k < label_errors.len() {
            assert(resolution(s, cmds).1[k] == label_errors[k]);
        } else {
            assert(resolution(s, cmds).1[k] == errors[k - label_errors.len()]);
        }
    }
}

/// The index of the first of the first `n` commands whose label spells
/// `name`.
pub open spec fn first_definition(
    s: Seq<char>,
    cmds: Seq<CommandBuilder>,
    name: Seq<char>,
    n: int,
) -> Option<usize>
    decreases n,
{
    if n <= 0 {
        None
    } else {
        match first_definition(s, cmds, name, n - 1) {
            Some(d) => Some(d),
            None => match cmds[n - 1].label {
                Some(l) => if text_of(s, l) == name {
                    Some((n - 1) as usize)
                } else {
                    None
                },
                None => None,
            },
        }
    }
}

/// Looking a name up after appending an entry finds what it found before,
/// or else the new entry if that is the name.
pub proof fn lemma_find_label_push(
    s: Seq<char>,
    entries: Seq<LabelEntry>,
    e: LabelEntry,
    name: Seq<char>,
)
    ensures
        find_label(s, entries.push(e), name) == match find_label(s, entries, name) {
            Some(i) => Some(i),
            None => if text_of(s, e.name) == name {
                Some(e.index)
            } else {
                None
            },
        },
    decreases entries.len(),
{
    if entries.len() > 0 {
        assert(entries.push(e).drop_first() == entries.drop_first().push(e));
        assert(entries.push(e)[0] == entries[0]);
        lemma_find_label_push(s, entries.drop_first(), e, name);
    } else {
        assert(entries.push(e)[0] == e);
        assert(entries.push(e).drop_first() == Seq::<LabelEntry>::empty());
        assert(find_label(s, Seq::<LabelEntry>::empty(), name) is None);
        assert(find_label(s, entries, name) is None);
    }
}

/// The label table maps each name to the first command that defines it.
pub proof fn lemma_label_pass_finds(
    s: Seq<char>,
    cmds: Seq<CommandBuilder>,
    name: Seq<char>,
    n: int,
)
    requires
        0 <= n <= cmds.len(),
    ensures
        find_label(s, label_pass(s, cmds, n).0, name) == first_definition(s, cmds, name, n),
    decreases n,
{
    if n > 0 {
        lemma_label_pass_finds(s, cmds, name, n - 1);
        let entries = label_pass(s, cmds, n - 1).0;
        if let Some(l) = cmds[n - 1].label {
            lemma_label_pass_finds(s, cmds, text_of(s, l), n - 1);
            if find_label(s, entries, text_of(s, l)) is None {
                lemma_find_label_push(s, entries, LabelEntry { name: l, index: (n - 1) as usize }, name);
            }
        }
    }
}

/// A command that defines `name`, after no other did, is its first definition.
pub proof fn lemma_first_definition_at(
    s: Seq<char>,
    cmds: Seq<CommandBuilder>,
    name: Seq<char>,
    d: int,
    n: int,
)
    requires
        0 <= d < n <= cmds.len(),
        cmds[d].label matches Some(l) && text_of(s, l) == name,
        forall|k: int| 0 <= k < d ==> !(#[trigger] cmds[k].label matches Some(l) && text_of(s, l) == name),
    ensures
        first_definition(s, cmds, name, n) == Some(d as usize),
    decreases n,
{
    if n > d + 1 {
        lemma_first_definition_at(s, cmds, name, d, n - 1);
    } else {
        lemma_no_definition_before(s, cmds, name, d);
    }
}

proof fn lemma_no_definition_before(
    s: Seq<char>,
    cmds: Seq<CommandBuilder>,
    name: Seq<char>,
    n: int,
)
    requires
        0 <= n <= cmds.len(),
        forall|k: int| 0 <= k < n ==> !(#[trigger] cmds[k].label matches Some(l) && text_of(s, l) == name),
    ensures
        first_definition(s, cmds, name, n) is None,
    decreases n,
{
    if n > 0 {
        lemma_no_definition_before(s, cmds, name, n - 1);
    }
}

/// A label operand resolves to the index of the command that the label
/// marks (its first definition), whether the reference comes before that
/// command or after it: the table is complete before any operand is read.
pub proof fn lemma_label_reference(s: Seq<char>, cmds: Seq<CommandBuilder>, j: int, d: int)
    requires
        cmds.len() <= usize::MAX,
        0 <= j < cmds.len(),
        0 <= d < cmds.len(),
        cmds[j].operant matches Some(o) && o.kind == OperantKind::Label,
        cmds[d].label matches Some(l) && text_of(s, l) == text_of(s, cmds[j].operant->0.value),
        forall|k: int|
            0 <= k < d ==> !(#[trigger] cmds[k].label matches Some(l) && text_of(s, l) == text_of(
                s,
                cmds[j].operant->0.value,
            )),
    ensures
        operand_value(s, label_pass(s, cmds, cmds.len() as int).0, cmds[j].operant) == Ok::<
            usize,
            ParseErrorBuilder,
        >(d as usize),
        command_of(s, label_pass(s, cmds, cmds.len() as int).0, cmds[j]) matches Ok(c) ==> c.operant
            == d,
{
    let name = text_of(s, cmds[j].operant->0.value);
    lemma_label_pass_finds(s, cmds, name, cmds.len() as int);
    lemma_first_definition_at(s, cmds, name, d, cmds.len() as int);
}

/// A name defined by two commands gives a `LabelReassign` error at the
/// label of the later one, so the resolution has errors; the first
/// definition stays the one that references reach; and the label pass
/// reports nothing but such redefinitions, so the other lines get no error
/// from it.
pub proof fn lemma_label_reassign(s: Seq<char>, cmds: Seq<CommandBuilder>, a: int, b: int)
    requires
        0 <= a < b < cmds.len(),
        cmds[a].label is Some,
        cmds[b].label is Some,
        text_of(s, cmds[a].label->0) == text_of(s, cmds[b].label->0),
    ensures
        label_pass(s, cmds, cmds.len() as int).1.contains(
            site(ParseErrorType::LabelReassign, cmds[b].label->0),
        ),
        resolution(s, cmds).1.len() > 0,
        find_label(s, label_pass(s, cmds, cmds.len() as int).0, text_of(s, cmds[b].label->0))
            matches Some(d) && d <= a,
        forall|e: int|
            0 <= e < label_pass(s, cmds, cmds.len() as int).1.len() ==> explained_by_redefinition(
                s,
                cmds,
                cmds.len() as int,
                #[trigger] label_pass(s, cmds, cmds.len() as int).1[e],
            ),
{
    lemma_label_errors_are_redefinitions(s, cmds, cmds.len() as int);
    let name = text_of(s, cmds[b].label->0);
    lemma_label_pass_finds(s, cmds, name, b);
    lemma_first_defined_somewhere(s, cmds, name, a, b);
    let errors_b = label_pass(s, cmds, b + 1).1;
    assert(errors_b.last() == site(ParseErrorType::LabelReassign, cmds[b].label->0));
    lemma_label_errors_grow(s, cmds, b + 1, cmds.len() as int);
    let all = label_pass(s, cmds, cmds.len() as int).1;
    assert(all[errors_b.len() - 1] == site(ParseErrorType::LabelReassign, cmds[b].label->0));
    let (entries, label_errors) = label_pass(s, cmds, cmds.len() as int);
    let rest = convert_prefix(s, entries, cmds, cmds.len() as int).1;
    assert((label_errors + rest).len() >= label_errors.len());
    lemma_label_pass_finds(s, cmds, name, cmds.len() as int);
    lemma_first_defined_somewhere(s, cmds, name, a, cmds.len() as int);
}

/// `err` is the error for command `k`, whose label redefines a name that an
/// earlier command defined.
pub open spec fn reports_redefinition(
    s: Seq<char>,
    cmds: Seq<CommandBuilder>,
    k: int,
    err: ParseErrorBuilder,
) -> bool {
    match cmds[k].label {
        Some(l) => err == site(ParseErrorType::LabelReassign, l) && first_definition(
            s,
            cmds,
            text_of(s, l),
            k,
        ) is Some,
        None => false,
    }
}

/// `err` reports a redefinition by one of the first `n` commands.
pub open spec fn explained_by_redefinition(
    s: Seq<char>,
    cmds: Seq<CommandBuilder>,
    n: int,
    err: ParseErrorBuilder,
) -> bool {
    exists|k: int| 0 <= k < n && reports_redefinition(s, cmds, k, err)
}

/// The label pass reports nothing but redefinitions: each of its errors is
/// a `LabelReassign` at the label of a command whose name an earlier command
/// already defined, so lines without such a label get no error from it.
pub proof fn lemma_label_errors_are_redefinitions(s: Seq<char>, cmds: Seq<CommandBuilder>, n: int)
    requires
        0 <= n <= cmds.len(),
    ensures
        forall|e: int|
            0 <= e < label_pass(s, cmds, n).1.len() ==> explained_by_redefinition(
                s,
                cmds,
                n,
                #[trigger] label_pass(s, cmds, n).1[e],
            ),
    decreases n,
{
    if n > 0 {
        lemma_label_errors_are_redefinitions(s, cmds, n - 1);
        lemma_label_pass_finds(s, cmds, name_of_label(s, cmds[n - 1]), n - 1);
        let prev = label_pass(s, cmds, n - 1).1;
        let all = label_pass(s, cmds, n).1;
        assert forall|e: int| 0 <= e < all.len() implies explained_by_redefinition(
            s,
            cmds,
            n,
            #[trigger] all[e],
        ) by {
            if e < prev.len() {
                assert(all[e] == prev[e]);
                assert(explained_by_redefinition(s, cmds, n - 1, prev[e]));
                let k = choose|k: int| 0 <= k < n - 1 && reports_redefinition(s, cmds, k, prev[e]);
                assert(reports_redefinition(s, cmds, k, all[e]));
            } else {
                assert(reports_redefinition(s, cmds, n - 1, all[e]));
            }
        }
    }
}

/// The name that a command's label spells, or nothing.
pub open spec fn name_of_label(s: Seq<char>, c: CommandBuilder) -> Seq<char> {
    match c.label {
        Some(l) => text_of(s, l),
        None => Seq::empty(),
    }
}

proof fn lemma_first_defined_somewhere(
    s: Seq<char>,
    cmds: Seq<CommandBuilder>,
    name: Seq<char>,
    a: int,
    n: int,
)
    requires
        0 <= a < n <= cmds.len(),
        cmds[a].label matches Some(l) && text_of(s, l) == name,
    ensures
        first_definition(s, cmds, name, n) matches Some(d) && d <= a,
    decreases n,
{
    if n > a + 1 {
        lemma_first_defined_somewhere(s, cmds, name, a, n - 1);
    } else {
        lemma_first_definition_below(s, cmds, name, a);
    }
}

proof fn lemma_first_definition_below(
    s: Seq<char>,
    cmds: Seq<CommandBuilder>,
    name: Seq<char>,
    n: int,
)
    requires
        0 <= n <= cmds.len(),
    ensures
        first_definition(s, cmds, name, n) matches Some(d) ==> d < n,
    decreases n,
{
    if n > 0 {
        lemma_first_definition_below(s, cmds, name, n - 1);
    }
}

proof fn lemma_label_errors_grow(s: Seq<char>, cmds: Seq<CommandBuilder>, m: int, n: int)
    requires
        0 <= m <= n <= cmds.len(),
    ensures
        label_pass(s, cmds, m).1.len() <= label_pass(s, cmds, n).1.len(),
        forall|k: int|
            0 <= k < label_pass(s, cmds, m).1.len() ==> label_pass(s, cmds, n).1[k] == label_pass(
                s,
                cmds,
                m,
            ).1[k],
    decreases n - m,
{
    if n > m {
        lemma_label_errors_grow(s, cmds, m, n - 1);
    }
}

/// When no command fails, the conversion gives one command for each, in order.
pub proof fn lemma_convert_all_ok(
    s: Seq<char>,
    entries: Seq<LabelEntry>,
    cmds: Seq<CommandBuilder>,
    n: int,
)
    requires
        0 <= n <= cmds.len(),
        convert_prefix(s, entries, cmds, n).1.len() == 0,
    ensures
        convert_prefix(s, entries, cmds, n).0.len() == n,
        forall|k: int|
            0 <= k < n ==> command_of(s, entries, #[trigger] cmds[k]) == Ok::<
                Command,
                ParseErrorBuilder,
            >(convert_prefix(s, entries, cmds, n).0[k]),
    decreases n,
{
    if n > 0 {
        let prev = convert_prefix(s, entries, cmds, n - 1);
        assert(prev.1.len() == 0);
        lemma_convert_all_ok(s, entries, cmds, n - 1);
        assert forall|k: int| 0 <= k < n implies command_of(s, entries, #[trigger] cmds[k]) == Ok::<
            Command,
            ParseErrorBuilder,
        >(convert_prefix(s, entries, cmds, n).0[k]) by {
            if k < n - 1 {
                assert(convert_prefix(s, entries, cmds, n).0[k] == prev.0[k]);
            }
        }
    }
}

/// A prefix of a string of digits is worth no more than the whole.
pub proof fn lemma_digits_monotone(d: Seq<char>, k: int)
    requires
        0 <= k <= d.len(),
    ensures
        digits_value(d.take(k)) <= digits_value(d),
    decreases d.len(),
{
    if k < d.len() {
        assert(d.drop_last().take(k) == d.take(k));
        lemma_digits_monotone(d.drop_last(), k);
    } else {
        assert(d.take(k) == d);
    }
}

/// Whether two tokens cover the same text.
fn same_text(text: &[char], a: &Token, b: &Token) -> (r: bool)
    requires
        token_within(text@, *a),
        token_within(text@, *b),
    ensures
        r == (text_of(text@, *a) == text_of(text@, *b)),
{
    if a.end - a.start != b.end - b.start {
        proof {
            assert(text_of(text@, *a).len() != text_of(text@, *b).len());
        }
        return false;
    }
    let mut k: usize = 0;
    while k < a.end - a.start
        invariant
            token_within(text@, *a),
            token_within(text@, *b),
            a.end - a.start == b.end - b.start,
            k <= a.end - a.start,
            forall|m: int| 0 <= m < k ==> #[trigger] text_of(text@, *a)[m] == text_of(text@, *b)[m],
        decreases a.end - a.start - k,
    {
        if text[a.start + k] != text[b.start + k] {
            proof {
                assert(text_of(text@, *a)[k as int] != text_of(text@, *b)[k as int]);
            }
            return false;
        }
        k = k + 1;
    }
    proof {
        assert(text_of(text@, *a) =~= text_of(text@, *b));
    }
    true
}

/// Looks up the label that `name` spells.
fn lookup_label(text: &[char], entries: &Vec<LabelEntry>, name: &Token) -> (r: Option<usize>)
    requires
        token_within(text@, *name),
        forall|k: int| 0 <= k < entries@.len() ==> token_within(text@, #[trigger] entries@[k].name),
    ensures
        r == find_label(text@, entries@, text_of(text@, *name)),
{
    let ghost target = text_of(text@, *name);
    let mut k: usize = 0;
    proof {
        assert(entries@.subrange(0, entries@.len() as int) == entries@);
    }
    while k < entries.len()
        invariant
            token_within(text@, *name),
            target == text_of(text@, *name),
            forall|m: int| 0 <= m < entries@.len() ==> token_within(text@, #[trigger] entries@[m].name),
            k <= entries@.len(),
            find_label(text@, entries@, target) == find_label(
                text@,
                entries@.subrange(k as int, entries@.len() as int),
                target,
            ),
        decreases entries@.len() - k,
    {
        proof {
            let rest = entries@.subrange(k as int, entries@.len() as int);
            assert(rest.drop_first() == entries@.subrange(k + 1, entries@.len() as int));
            assert(rest[0] == entries@[k as int]);
        }
        if same_text(text, &entries[k].name, name) {
            return Some(entries[k].index);
        }
        k = k + 1;
    }
    None
}

/// The first pass: the table of labels, with a `LabelReassign` error for
/// each label defined again.
fn get_label_table(
    text: &[char],
    commands: &Vec<CommandBuilder>,
    errors: &mut ParseErrorReportBuilder,
) -> (r: Vec<LabelEntry>)
    requires
        forall|k: int| 0 <= k < commands@.len() ==> builder_wf(text@, #[trigger] commands@[k]),
    ensures
        r@ == label_pass(text@, commands@, commands@.len() as int).0,
        final(errors).error@ == old(errors).error@ + label_pass(
            text@,
            commands@,
            commands@.len() as int,
        ).1,
        forall|k: int| 0 <= k < r@.len() ==> token_within(text@, #[trigger] r@[k].name),
{
    let mut entries: Vec<LabelEntry> = Vec::new();
    let mut index: usize = 0;
    proof {
        assert(old(errors).error@ + Seq::<ParseErrorBuilder>::empty() == errors.error@);
    }
    while index < commands.len()
        invariant
            forall|k: int| 0 <= k < commands@.len() ==> builder_wf(text@, #[trigger] commands@[k]),
            index <= commands@.len(),
            entries@ == label_pass(text@, commands@, index as int).0,
            errors.error@ == old(errors).error@ + label_pass(text@, commands@, index as int).1,
            forall|k: int| 0 <= k < entries@.len() ==> token_within(text@, #[trigger] entries@[k].name),
        decreases commands@.len() - index,
    {
        if let Some(label) = commands[index].label {
            assert(builder_wf(text@, commands@[index as int]));
            if lookup_label(text, &entries, &label).is_some() {
                errors.add(ParseErrorBuilder::new(ParseErrorType::LabelReassign, label.start, label.end));
                proof {
                    assert(errors.error@ == old(errors).error@ + label_pass(text@, commands@, index + 1).1);
                }
            } else {
                entries.push(LabelEntry { name: label, index });
            }
        }
        index = index + 1;
    }
    entries
}

/// Reads the decimal number that a token spells; `None` when it is not one
/// or does not fit in a `usize`.
fn parse_number(text: &[char], token: &Token) -> (r: Option<usize>)
    requires
        token_within(text@, *token),
    ensures
        r == parse_decimal(text_of(text@, *token)),
{
    let ghost d = text_of(text@, *token);
    if token.start == token.end {
        return None;
    }
    let mut value: usize = 0;
    let mut k: usize = token.start;
    while k < token.end
        invariant
            token_within(text@, *token),
            d == text_of(text@, *token),
            token.start <= k <= token.end,
            value == digits_value(d.take(k - token.start)),
            forall|m: int| 0 <= m < k - token.start ==> is_digit(d[m]),
        decreases token.end - k,
    {
        let c = text[k];
        let ghost n = k - token.start;
        proof {
            assert(d.take(n + 1).drop_last() == d.take(n));
            assert(d[n] == c);
        }
        if !('0' <= c && c <= '9') {
            return None;
        }
        let digit = (c as u32 - '0' as u32) as usize;
        let next = match value.checked_mul(10) {
            Some(v) => v.checked_add(digit),
            None => None,
        };
        match next {
            Some(v) => {
                value = v;
            },
            None => {
                proof {
                    lemma_digits_monotone(d, n + 1);
                    assert(d.take(n + 1).take(n + 1) == d.take(n + 1));
                }
                return None;
            },
        }
        k = k + 1;
    }
    proof {
        assert(d.take(d.len() as int) == d);
    }
    Some(value)
}

/// The value of an operand: its number, or the index of the command that
/// its label marks.
fn resolve_operant(text: &[char], entries: &Vec<LabelEntry>, operant: &Operant) -> (r: Result<
    usize,
    ParseErrorBuilder,
>)
    requires
        token_within(text@, operant.value),
        forall|k: int| 0 <= k < entries@.len() ==> token_within(text@, #[trigger] entries@[k].name),
    ensures
        r == operand_value(text@, entries@, Some(*operant)),
{
    match operant.kind {
        OperantKind::Label => match lookup_label(text, entries, &operant.value) {
            Some(index) => Ok(index),
            None => Err(
                ParseErrorBuilder::new(
                    ParseErrorType::MissingLabel,
                    operant.value.start,
                    operant.value.end,
                ),
            ),
        },
        _ => match parse_number(text, &operant.value) {
            Some(value) => Ok(value),
            None => Err(
                ParseErrorBuilder::new(
                    ParseErrorType::InvalidOperant,
                    operant.value.start,
                    operant.value.end,
                ),
            ),
        },
    }
}

/// The instruction for a mnemonic with an operand, or the error for an
/// operand that the mnemonic does not take.
fn resolve_instruction_with_operant(attributes: &InstructionAttribute, operant: &Operant) -> (r: Result<Instruction, ParseErrorBuilder>)
    requires
        attributes.wf(),
    ensures
        r == (match instruction_for(attributes.mnemonic, Some(operant.kind)) {
            Some(i) => Ok(i),
            None => Err(
                not_allowed(
                    CommandBuilder { label: None, instruction: operant.value, operant: Some(*operant) },
                ),
            ),
        }),
{
    match attributes.select_instruction(Some(operant.kind)) {
        Some(instruction) => Ok(instruction),
        None => {
            let kind = match operant.kind {
                OperantKind::Fixed => ParseErrorType::NotAllowedFixNumber,
                OperantKind::Address => ParseErrorType::NotAllowedAddress,
                OperantKind::Label => ParseErrorType::NotAllowedLabel,
            };
            Err(ParseErrorBuilder::new(kind, operant.value.start, operant.value.end))
        },
    }
}

/// The instruction for a mnemonic without operand, or `MissingOperant`
/// when the mnemonic needs one.
fn resolve_instruction_without_operant(
    attributes: &InstructionAttribute,
    instruction: &Token,
) -> (r: Result<Instruction, ParseErrorBuilder>)
    requires
        attributes.wf(),
    ensures
        r == (match instruction_for(attributes.mnemonic, None) {
            Some(i) => Ok(i),
            None => Err(site(ParseErrorType::MissingOperant, *instruction)),
        }),
{
    match attributes.select_instruction(None) {
        Some(i) => Ok(i),
        None => Err(
            ParseErrorBuilder::new(ParseErrorType::MissingOperant, instruction.start, instruction.end),
        ),
    }
}

/// The executable command for one unresolved command, or its error.
fn resolve_command(
    text: &[char],
    line_table: &LineTable,
    entries: &Vec<LabelEntry>,
    command: &CommandBuilder,
) -> (r: Result<Command, ParseErrorBuilder>)
    requires
        text@.len() <= usize::MAX,
        line_table@ == line_spans(text@),
        builder_wf(text@, *command),
        forall|k: int| 0 <= k < entries@.len() ==> token_within(text@, #[trigger] entries@[k].name),
    ensures
        r == command_of(text@, entries@, *command),
{
    let attributes = match get_instruction_attribute(command.instruction.resolve(text)) {
        Some(attr) => attr,
        None => {
            return Err(
                ParseErrorBuilder::new(
                    ParseErrorType::InvalidInstruction,
                    command.instruction.start,
                    command.instruction.end,
                ),
            );
        },
    };
    let instruction = match &command.operant {
        Some(operant) => resolve_instruction_with_operant(&attributes, operant),
        None => resolve_instruction_without_operant(&attributes, &command.instruction),
    };
    let instruction = match instruction {
        Ok(i) => i,
        Err(e) => {
            return Err(e);
        },
    };
    let operant: usize = match &command.operant {
        Some(operant) => match resolve_operant(text, entries, operant) {
            Ok(v) => v,
            Err(e) => {
                return Err(e);
            },
        },
        None => 0,
    };
    proof {
        lemma_line_lookup(text@, command.instruction.start as int);
    }
    let line = line_table.get_line_index_of(command.instruction.start);
    Ok(Command::new(instruction, operant, line))
}

/// The second pass: each unresolved command in order becomes a command, or
/// an error added to `errors`.
fn convert_to_commands(
    text: &[char],
    line_table: &LineTable,
    entries: &Vec<LabelEntry>,
    commands: &Vec<CommandBuilder>,
    errors: &mut ParseErrorReportBuilder,
) -> (r: Vec<Command>)
    requires
        text@.len() <= usize::MAX,
        line_table@ == line_spans(text@),
        forall|k: int| 0 <= k < commands@.len() ==> builder_wf(text@, #[trigger] commands@[k]),
        forall|k: int| 0 <= k < entries@.len() ==> token_within(text@, #[trigger] entries@[k].name),
    ensures
        r@ == convert_prefix(text@, entries@, commands@, commands@.len() as int).0,
        final(errors).error@ == old(errors).error@ + convert_prefix(
            text@,
            entries@,
            commands@,
            commands@.len() as int,
        ).1,
{
    let mut out: Vec<Command> = Vec::new();
    let mut index: usize = 0;
    proof {
        assert(old(errors).error@ + Seq::<ParseErrorBuilder>::empty() == errors.error@);
    }
    while index < commands.len()
        invariant
            text@.len() <= usize::MAX,
            line_table@ == line_spans(text@),
            forall|k: int| 0 <= k < commands@.len() ==> builder_wf(text@, #[trigger] commands@[k]),
            forall|k: int| 0 <= k < entries@.len() ==> token_within(text@, #[trigger] entries@[k].name),
            index <= commands@.len(),
            out@ == convert_prefix(text@, entries@, commands@, index as int).0,
            errors.error@ == old(errors).error@ + convert_prefix(
                text@,
                entries@,
                commands@,
                index as int,
            ).1,
        decreases commands@.len() - index,
    {
        assert(builder_wf(text@, commands@[index as int]));
        match resolve_command(text, line_table, entries, &commands[index]) {
            Ok(command) => out.push(command),
            Err(error) => {
                errors.add(error);
                proof {
                    assert(errors.error@ == old(errors).error@ + convert_prefix(
                        text@,
                        entries@,
                        commands@,
                        index + 1,
                    ).1);
                }
            },
        }
        index = index + 1;
    }
    out
}

/// Resolves unresolved commands: builds the label table, then converts each
/// command. The errors of both passes are added to `errors`.
pub fn resolve(
    text: &[char],
    line_table: &LineTable,
    commands: &Vec<CommandBuilder>,
    errors: &mut ParseErrorReportBuilder,
) -> (r: Vec<Command>)
    requires
        text@.len() <= usize::MAX,
        line_table@ == line_spans(text@),
        forall|k: int| 0 <= k < commands@.len() ==> builder_wf(text@, #[trigger] commands@[k]),
    ensures
        r@ == resolution(text@, commands@).0,
        final(errors).error@ == old(errors).error@ + resolution(text@, commands@).1,
{
    let entries = get_label_table(text, commands, errors);
    let r = convert_to_commands(text, line_table, &entries, commands, errors);
    proof {
        let label_errors = label_pass(text@, commands@, commands@.len() as int).1;
        let conversion_errors = convert_prefix(
            text@,
            entries@,
            commands@,
            commands@.len() as int,
        ).1;
        assert(old(errors).error@ + label_errors + conversion_errors == old(errors).error@ + (
        label_errors + conversion_errors));
    }
    r
}

} // verus!

//! Executable commands and the table of mnemonics with their operand forms.
use vstd::prelude::*;
use crate::operant::OperantKind;

verus! {

/// The operation of an executable command.
#[derive(Debug, Clone, Copy, PartialEq, Eq, Structural)]
pub enum Instruction {
    NOP,
    LoadFix,
    LoadFromRegister,
    SaveToRegister,
    AddFix,
    AddFromRegister,
    SubFix,
    SubFromRegister,
    JMP,
    BRZ,
    BRC,
    BRN,
}

/// An executable command: an instruction, its operand, and the 0-based index
/// of the source line it came from.
#[derive(Debug, Clone, Copy, PartialEq, Eq, Structural)]
pub struct Command {
    pub instruction: Instruction,
    pub operant: usize,
    pub line: usize,
}

impl Command {
    /// The command in source form, as `command_text` gives it.
    pub fn text(&self) -> (r: String)
        ensures
            r@ == command_text(*self),
    {
        let (name, form) = match self.instruction {
            Instruction::NOP => (['N', 'O', 'P'], OperandForm::Absent),
            Instruction::LoadFix => (['L', 'D', 'A'], OperandForm::Fixed),
            Instruction::LoadFromRegister => (['L', 'D', 'A'], OperandForm::Address),
            Instruction::SaveToRegister => (['S', 'T', 'A'], OperandForm::Address),
            Instruction::AddFix => (['A', 'D', 'D'], OperandForm::Fixed),
            Instruction::AddFromRegister => (['A', 'D', 'D'], OperandForm::Address),
            Instruction::SubFix => (['S', 'U', 'B'], OperandForm::Fixed),
            Instruction::SubFromRegister => (['S', 'U', 'B'], OperandForm::Address),
            Instruction::JMP => (['J', 'M', 'P'], OperandForm::Target),
            Instruction::BRZ => (['B', 'R', 'Z'], OperandForm::Fixed),
            Instruction::BRC => (['B', 'R', 'C'], OperandForm::Fixed),
            Instruction::BRN => (['B', 'R', 'N'], OperandForm::Fixed),
        };
        let ghost expected = source_form(self.instruction);
        assert(name@ == expected.0);
        let mut out: Vec<char> = Vec::new();
        out.push(name[0]);
        out.push(name[1]);
        out.push(name[2]);
        assert(out@ == expected.0);
        match form {
            OperandForm::Absent => {},
            OperandForm::Fixed => {
                out.push(' ');
                out.push('#');
                push_decimal(self.operant, &mut out);
            },
            OperandForm::Address => {
                out.push(' ');
                out.push('(');
                push_decimal(self.operant, &mut out);
                out.push(')');
            },
            OperandForm::Target => {
                out.push(' ');
                push_decimal(self.operant, &mut out);
            },
        }
        assert(out@ == command_text(*self));
        string_of(out.as_slice())
    }

    pub fn new(instruction: Instruction, operant: usize, line: usize) -> (r: Command)
        ensures
            r == (Command { instruction, operant, line }),
    {
        Command { instruction, operant, line }
    }
}

/// The character of a decimal digit.
pub open spec fn digit_char(d: nat) -> char {
    seq!['0', '1', '2', '3', '4', '5', '6', '7', '8', '9'][(d % 10) as int]
}

/// The decimal digits of `n`, without leading zeros.
pub open spec fn decimal(n: nat) -> Seq<char>
    decreases n,
{
    if n < 10 {
        seq![digit_char(n)]
    } else {
        decimal(n / 10).push(digit_char(n % 10))
    }
}

/// How an operand is written after a mnemonic.
pub enum OperandForm {
    /// No operand.
    Absent,
    /// `#n`
    Fixed,
    /// `(n)`
    Address,
    /// `n`
    Target,
}

/// The mnemonic and operand form in which a command is written.
pub open spec fn source_form(i: Instruction) -> (Seq<char>, OperandForm) {
    match i {
        Instruction::NOP => (seq!['N', 'O', 'P'], OperandForm::Absent),
        Instruction::LoadFix => (seq!['L', 'D', 'A'], OperandForm::Fixed),
        Instruction::LoadFromRegister => (seq!['L', 'D', 'A'], OperandForm::Address),
        Instruction::SaveToRegister => (seq!['S', 'T', 'A'], OperandForm::Address),
        Instruction::AddFix => (seq!['A', 'D', 'D'], OperandForm::Fixed),
        Instruction::AddFromRegister => (seq!['A', 'D', 'D'], OperandForm::Address),
        Instruction::SubFix => (seq!['S', 'U', 'B'], OperandForm::Fixed),
        Instruction::SubFromRegister => (seq!['S', 'U', 'B'], OperandForm::Address),
        Instruction::JMP => (seq!['J', 'M', 'P'], OperandForm::Target),
        Instruction::BRZ => (seq!['B', 'R', 'Z'], OperandForm::Fixed),
        Instruction::BRC => (seq!['B', 'R', 'C'], OperandForm::Fixed),
        Instruction::BRN => (seq!['B', 'R', 'N'], OperandForm::Fixed),
    }
}

/// A command in source form: `NOP`, `LDA #3`, `STA (15)`, `JMP 4`.
pub open spec fn command_text(c: Command) -> Seq<char> {
    let (name, form) = source_form(c.instruction);
    let n = decimal(c.operant as nat);
    match form {
        OperandForm::Absent => name,
        OperandForm::Fixed => name + seq![' ', '#'] + n,
        OperandForm::Address => name + seq![' ', '('] + n + seq![')'],
        OperandForm::Target => name + seq![' '] + n,
    }
}

/// Relies on `FromIterator<&char>` for `String`: the string holds the
/// characters in order.
#[verifier::external_body]
pub(crate) fn string_of(chars: &[char]) -> (r: String)
    ensures
        r@ == chars@,
{
    chars.iter().collect()
}

fn digit_to_char(d: usize) -> (r: char)
    requires
        d < 10,
    ensures
        r == digit_char(d as nat),
{
    let digits = ['0', '1', '2', '3', '4', '5', '6', '7', '8', '9'];
    proof {
        assert(digits@ == seq!['0', '1', '2', '3', '4', '5', '6', '7', '8', '9']);
    }
    digits[d]
}

/// Appends the decimal digits of `n`.
fn push_decimal(n: usize, out: &mut Vec<char>)
    ensures
        final(out)@ == old(out)@ + decimal(n as nat),
    decreases n,
{
    if n >= 10 {
        push_decimal(n / 10, out);
    }
    out.push(digit_to_char(n % 10));
    proof {
        if n < 10 {
            assert(old(out)@.push(digit_char(n as nat)) == old(out)@ + seq![digit_char(n as nat)]);
        } else {
            assert(decimal(n as nat) == decimal((n / 10) as nat).push(digit_char((n % 10) as nat)));
        }
    }
}

/// The mnemonics of the assembly language.
#[derive(Debug, Clone, Copy, PartialEq, Eq, Structural)]
pub enum Mnemonic {
    Nop,
    Lda,
    Sta,
    Add,
    Sub,
    Jmp,
    Brz,
    Brc,
    Brn,
}

/// Bit 0 of an attribute: fixed numbers are allowed.
pub const FIXED_BIT: u8 = 0b001;

/// Bit 1 of an attribute: addresses are allowed.
pub const ADDRESS_BIT: u8 = 0b010;

/// Bit 2 of an attribute: labels are allowed.
pub const LABEL_BIT: u8 = 0b100;

/// What Unicode's upper-case mapping makes of a string.
pub uninterp spec fn upper_of(s: Seq<char>) -> Seq<char>;

/// The ASCII upper case of a character: `a` to `z` become `A` to `Z`,
/// every other character stays.
pub open spec fn ascii_upper(c: char) -> char {
    if 'a' <= c <= 'z' {
        seq![
            'A', 'B', 'C', 'D', 'E', 'F', 'G', 'H', 'I', 'J', 'K', 'L', 'M',
            'N', 'O', 'P', 'Q', 'R', 'S', 'T', 'U', 'V', 'W', 'X', 'Y', 'Z',
        ][c as u32 - 'a' as u32]
    } else {
        c
    }
}

/// Relies on str::to_uppercase: the upper case of the characters, which
/// depends on them alone; on ASCII text it maps `a` to `z` to `A` to `Z` and
/// keeps every other character.
#[verifier::external_body]
fn to_upper(name: &[char]) -> (r: Vec<char>)
    ensures
        r@ == upper_of(name@),
        (forall|k: int| 0 <= k < name@.len() ==> (name@[k] as u32) < 128) ==> r@.len()
            == name@.len() && forall|k: int|
            0 <= k < name@.len() ==> r@[k] == ascii_upper(#[trigger] name@[k]),
{
    name.iter().collect::<String>().to_uppercase().chars().collect()
}

/// `name` is the three characters `a`, `b`, `c`.
pub open spec fn spells(name: Seq<char>, a: char, b: char, c: char) -> bool {
    name == seq![a, b, c]
}

/// The mnemonic that the upper-case name `name` spells.
pub open spec fn mnemonic_of(name: Seq<char>) -> Option<Mnemonic> {
    if spells(name, 'N', 'O', 'P') {
        Some(Mnemonic::Nop)
    } else if spells(name, 'L', 'D', 'A') {
        Some(Mnemonic::Lda)
    } else if spells(name, 'S', 'T', 'A') {
        Some(Mnemonic::Sta)
    } else if spells(name, 'A', 'D', 'D') {
        Some(Mnemonic::Add)
    } else if spells(name, 'S', 'U', 'B') {
        Some(Mnemonic::Sub)
    } else if spells(name, 'J', 'M', 'P') {
        Some(Mnemonic::Jmp)
    } else if spells(name, 'B', 'R', 'Z') {
        Some(Mnemonic::Brz)
    } else if spells(name, 'B', 'R', 'C') {
        Some(Mnemonic::Brc)
    } else if spells(name, 'B', 'R', 'N') {
        Some(Mnemonic::Brn)
    } else {
        None
    }
}

/// The operand kinds that each mnemonic accepts, as a bitset.
pub open spec fn attribute_bits(m: Mnemonic) -> u8 {
    match m {
        Mnemonic::Nop => 0,
        Mnemonic::Lda => FIXED_BIT | ADDRESS_BIT,
        Mnemonic::Sta => ADDRESS_BIT,
        Mnemonic::Add => FIXED_BIT | ADDRESS_BIT,
        Mnemonic::Sub => FIXED_BIT | ADDRESS_BIT,
        Mnemonic::Jmp => FIXED_BIT | LABEL_BIT,
        Mnemonic::Brz => FIXED_BIT,
        Mnemonic::Brc => FIXED_BIT,
        Mnemonic::Brn => FIXED_BIT,
    }
}

/// The compatibility matrix: the instruction that a mnemonic with an operand
/// of the given kind (or with none) stands for, if that form is legal.
pub open spec fn instruction_for(m: Mnemonic, kind: Option<OperantKind>) -> Option<Instruction> {
    match (m, kind) {
        (Mnemonic::Nop, None) => Some(Instruction::NOP),
        (Mnemonic::Lda, Some(OperantKind::Fixed)) => Some(Instruction::LoadFix),
        (Mnemonic::Lda, Some(OperantKind::Address)) => Some(Instruction::LoadFromRegister),
        (Mnemonic::Sta, Some(OperantKind::Address)) => Some(Instruction::SaveToRegister),
        (Mnemonic::Add, Some(OperantKind::Fixed)) => Some(Instruction::AddFix),
        (Mnemonic::Add, Some(OperantKind::Address)) => Some(Instruction::AddFromRegister),
        (Mnemonic::Sub, Some(OperantKind::Fixed)) => Some(Instruction::SubFix),
        (Mnemonic::Sub, Some(OperantKind::Address)) => Some(Instruction::SubFromRegister),
        (Mnemonic::Jmp, Some(OperantKind::Fixed)) => Some(Instruction::JMP),
        (Mnemonic::Jmp, Some(OperantKind::Label)) => Some(Instruction::JMP),
        (Mnemonic::Brz, Some(OperantKind::Fixed)) => Some(Instruction::BRZ),
        (Mnemonic::Brc, Some(OperantKind::Fixed)) => Some(Instruction::BRC),
        (Mnemonic::Brn, Some(OperantKind::Fixed)) => Some(Instruction::BRN),
        _ => None,
    }
}

/// What a mnemonic accepts: its allowed operand kinds as a bitset (bit 0
/// fixed numbers, bit 1 addresses, bit 2 labels; none set means that it
/// takes no operand).
#[derive(Debug, Clone, Copy, PartialEq, Eq, Structural)]
pub struct InstructionAttribute {
    pub mnemonic: Mnemonic,
    pub bits: u8,
}

impl InstructionAttribute {
    /// The attribute is the table's entry for its mnemonic.
    pub open spec fn wf(self) -> bool {
        self.bits == attribute_bits(self.mnemonic)
    }

    /// The operand form `kind` (or no operand) is legal for this mnemonic.
    pub open spec fn allows(self, kind: Option<OperantKind>) -> bool {
        match kind {
            None => self.bits == 0,
            Some(OperantKind::Fixed) => self.bits & FIXED_BIT != 0,
            Some(OperantKind::Address) => self.bits & ADDRESS_BIT != 0,
            Some(OperantKind::Label) => self.bits & LABEL_BIT != 0,
        }
    }

    pub fn allow_no_operant(&self) -> (r: bool)
        ensures
            r == self.allows(None),
    {
        self.bits == 0
    }

    pub fn allow_fixed_number(&self) -> (r: bool)
        ensures
            r == self.allows(Some(OperantKind::Fixed)),
    {
        (self.bits & FIXED_BIT) != 0
    }

    pub fn allow_address(&self) -> (r: bool)
        ensures
            r == self.allows(Some(OperantKind::Address)),
    {
        (self.bits & ADDRESS_BIT) != 0
    }

    pub fn allow_label(&self) -> (r: bool)
        ensures
            r == self.allows(Some(OperantKind::Label)),
    {
        (self.bits & LABEL_BIT) != 0
    }

    /// The instruction for an operand of the given kind (or none): present
    /// exactly when the bitset allows that form.
    pub fn select_instruction(&self, kind: Option<OperantKind>) -> (r: Option<Instruction>)
        requires
            self.wf(),
        ensures
            r == instruction_for(self.mnemonic, kind),
            r is Some <==> self.allows(kind),
    {
        let allowed = match kind {
            None => self.allow_no_operant(),
            Some(OperantKind::Fixed) => self.allow_fixed_number(),
            Some(OperantKind::Address) => self.allow_address(),
            Some(OperantKind::Label) => self.allow_label(),
        };
        assert(FIXED_BIT | ADDRESS_BIT == 3u8 && FIXED_BIT | LABEL_BIT == 5u8) by (bit_vector);
        assert(3u8 & 1 != 0 && 3u8 & 2 != 0 && 3u8 & 4 == 0) by (bit_vector);
        assert(5u8 & 1 != 0 && 5u8 & 2 == 0 && 5u8 & 4 != 0) by (bit_vector);
        assert(2u8 & 1 == 0 && 2u8 & 2 != 0 && 2u8 & 4 == 0) by (bit_vector);
        assert(1u8 & 1 != 0 && 1u8 & 2 == 0 && 1u8 & 4 == 0) by (bit_vector);
        assert(0u8 & 1 == 0 && 0u8 & 2 == 0 && 0u8 & 4 == 0) by (bit_vector);
        if !allowed {
            return None;
        }
        match (self.mnemonic, kind) {
            (Mnemonic::Nop, _) => Some(Instruction::NOP),
            (Mnemonic::Lda, Some(OperantKind::Address)) => Some(Instruction::LoadFromRegister),
            (Mnemonic::Lda, _) => Some(Instruction::LoadFix),
            (Mnemonic::Sta, _) => Some(Instruction::SaveToRegister),
            (Mnemonic::Add, Some(OperantKind::Address)) => Some(Instruction::AddFromRegister),
            (Mnemonic::Add, _) => Some(Instruction::AddFix),
            (Mnemonic::Sub, Some(OperantKind::Address)) => Some(Instruction::SubFromRegister),
            (Mnemonic::Sub, _) => Some(Instruction::SubFix),
            (Mnemonic::Jmp, _) => Some(Instruction::JMP),
            (Mnemonic::Brz, _) => Some(Instruction::BRZ),
            (Mnemonic::Brc, _) => Some(Instruction::BRC),
            (Mnemonic::Brn, _) => Some(Instruction::BRN),
        }
    }
}

fn spells_word(name: &Vec<char>, a: char, b: char, c: char) -> (r: bool)
    ensures
        r == spells(name@, a, b, c),
{
    let r = name.len() == 3 && name[0] == a && name[1] == b && name[2] == c;
    proof {
        if r {
            assert(name@ == seq![a, b, c]);
        }
    }
    r
}

/// Looks up a mnemonic, ignoring case, in the table of instructions: the
/// name is upper-cased first. For an ASCII name, the upper case is the name
/// with `a` to `z` made `A` to `Z`.
pub fn get_instruction_attribute(name: &[char]) -> (r: Option<InstructionAttribute>)
    ensures
        match mnemonic_of(upper_of(name@)) {
            Some(m) => r == Some(InstructionAttribute { mnemonic: m, bits: attribute_bits(m) }),
            None => r is None,
        },
        (forall|k: int| 0 <= k < name@.len() ==> (name@[k] as u32) < 128) ==> upper_of(name@).len()
            == name@.len() && forall|k: int|
            0 <= k < name@.len() ==> upper_of(name@)[k] == ascii_upper(#[trigger] name@[k]),
{
    let upper = to_upper(name);
    lookup_mnemonic(&upper)
}

/// Looks up an upper-case name in the table of instructions.
pub fn lookup_mnemonic(name: &Vec<char>) -> (r: Option<InstructionAttribute>)
    ensures
        match mnemonic_of(name@) {
            Some(m) => r == Some(InstructionAttribute { mnemonic: m, bits: attribute_bits(m) }),
            None => r is None,
        },
{
    let m = if spells_word(name, 'N', 'O', 'P') {
        Mnemonic::Nop
    } else if spells_word(name, 'L', 'D', 'A') {
        Mnemonic::Lda
    } else if spells_word(name, 'S', 'T', 'A') {
        Mnemonic::Sta
    } else if spells_word(name, 'A', 'D', 'D') {
        Mnemonic::Add
    } else if spells_word(name, 'S', 'U', 'B') {
        Mnemonic::Sub
    } else if spells_word(name, 'J', 'M', 'P') {
        Mnemonic::Jmp
    } else if spells_word(name, 'B', 'R', 'Z') {
        Mnemonic::Brz
    } else if spells_word(name, 'B', 'R', 'C') {
        Mnemonic::Brc
    } else if spells_word(name, 'B', 'R', 'N') {
        Mnemonic::Brn
    } else {
        return None;
    };
    let bits = match m {
        Mnemonic::Nop => 0,
        Mnemonic::Lda => FIXED_BIT | ADDRESS_BIT,
        Mnemonic::Sta => ADDRESS_BIT,
        Mnemonic::Add => FIXED_BIT | ADDRESS_BIT,
        Mnemonic::Sub => FIXED_BIT | ADDRESS_BIT,
        Mnemonic::Jmp => FIXED_BIT | LABEL_BIT,
        Mnemonic::Brz => FIXED_BIT,
        Mnemonic::Brc => FIXED_BIT,
        Mnemonic::Brn => FIXED_BIT,
    };
    Some(InstructionAttribute { mnemonic: m, bits })
}

} // verus!

//! The execution engine: an accumulator machine that runs commands one at
//! a time over a register file of nibbles.
use vstd::prelude::*;
use crate::commands::{Command, Instruction};
use crate::nibble::{difference_raw, sum_raw, Nibble};

verus! {

broadcast use crate::nibble::Nibble::lemma_from_raw;

/// The flags of the accumulator.
#[derive(Debug, Clone, Copy, PartialEq, Eq, Structural)]
pub struct StatusBits {
    pub carry: bool,
    pub negative: bool,
    pub zero: bool,
}

/// The nibble that an operand loads: the operand's low byte.
pub open spec fn nibble_of(value: usize) -> Nibble {
    Nibble::from_raw((value % 256) as u8)
}

pub open spec fn plus(a: Nibble, b: Nibble) -> Nibble {
    Nibble::from_raw(sum_raw(a, b))
}

pub open spec fn minus(a: Nibble, b: Nibble) -> Nibble {
    Nibble::from_raw(difference_raw(a, b))
}

/// The command `c` can run: a register it reads or writes exists, and a
/// jump forward by its operand stays within `usize`.
pub open spec fn runnable(c: Command, register_count: int, counter: int) -> bool {
    match c.instruction {
        Instruction::LoadFromRegister | Instruction::SaveToRegister
        | Instruction::AddFromRegister | Instruction::SubFromRegister => c.operant < register_count,
        Instruction::BRZ | Instruction::BRC | Instruction::BRN => counter + c.operant
            <= usize::MAX,
        _ => true,
    }
}

/// The state after running `c` on accumulator `acc`, registers `regs` and
/// program counter `pc`: the accumulator, the registers and the counter.
pub open spec fn step(acc: Nibble, regs: Seq<Nibble>, pc: int, c: Command) -> (
    Nibble,
    Seq<Nibble>,
    int,
) {
    let v = c.operant as int;
    match c.instruction {
        Instruction::NOP => (acc, regs, pc + 1),
        Instruction::LoadFix => (nibble_of(c.operant), regs, pc + 1),
        Instruction::LoadFromRegister => (regs[v], regs, pc + 1),
        Instruction::SaveToRegister => (acc, regs.update(v, acc), pc + 1),
        Instruction::AddFix => (plus(acc, nibble_of(c.operant)), regs, pc + 1),
        Instruction::AddFromRegister => (plus(acc, regs[v]), regs, pc + 1),
        Instruction::SubFix => (minus(acc, nibble_of(c.operant)), regs, pc + 1),
        Instruction::SubFromRegister => (minus(acc, regs[v]), regs, pc + 1),
        Instruction::JMP => (acc, regs, v),
        Instruction::BRZ => (acc, regs, if acc.zero() { pc + v } else { pc + 1 }),
        Instruction::BRC => (acc, regs, if acc.carry() { pc + v } else { pc + 1 }),
        Instruction::BRN => (acc, regs, if acc.negative() { pc + v } else { pc + 1 }),
    }
}

/// The machine: an accumulator, a register file of fixed size, the program
/// and the index of the next command to run.
#[derive(Clone, Debug)]
pub struct Runtime {
    accumulator: Nibble,
    register: Vec<Nibble>,
    ram: Vec<Command>,
    instruction_counter: usize,
}

impl Runtime {
    pub closed spec fn accumulator(&self) -> Nibble {
        self.accumulator
    }

    pub closed spec fn registers(&self) -> Seq<Nibble> {
        self.register@
    }

    pub closed spec fn program(&self) -> Seq<Command> {
        self.ram@
    }

    pub closed spec fn counter(&self) -> int {
        self.instruction_counter as int
    }

    /// The source line of the next command, or the number of commands once
    /// the counter has run past the end.
    pub open spec fn next_line(&self) -> int {
        if self.counter() >= self.program().len() {
            self.program().len() as int
        } else {
            self.program()[self.counter()].line as int
        }
    }

    /// `after` is `before` after one tick that returned `running`.
    pub open spec fn ticked(before: Runtime, after: Runtime, running: bool) -> bool {
        &&& (after.accumulator(), after.registers(), after.counter()) == step(
            before.accumulator(),
            before.registers(),
            before.counter(),
            before.program()[before.counter()],
        )
        &&& after.program() == before.program()
        &&& running == (after.counter() < after.program().len())
    }

    /// The next command exists and can run.
    pub open spec fn can_step(&self) -> bool {
        &&& 0 <= self.counter() < self.program().len()
        &&& runnable(self.program()[self.counter()], self.registers().len() as int, self.counter())
    }

    /// A machine with the accumulator and `register_size` registers at 0,
    /// ready to run `ram` from its first command.
    pub fn new(register_size: usize, ram: Vec<Command>) -> (r: Runtime)
        ensures
            r.accumulator() == Nibble::from_raw(0),
            r.registers() == Seq::new(register_size as nat, |i: int| Nibble::from_raw(0)),
            r.program() == ram@,
            r.counter() == 0,
    {
        let register = vec![Nibble::from(0u8); register_size];
        Runtime { accumulator: Nibble::from(0u8), register, ram, instruction_counter: 0 }
    }

    /// The source line of the next command, or the number of commands once
    /// the counter has run past the end.
    pub fn get_next_line(&self) -> (r: usize)
        ensures
            r == self.next_line(),
    {
        if self.instruction_counter >= self.ram.len() {
            self.ram.len()
        } else {
            self.ram[self.instruction_counter].line
        }
    }

    fn load_into_accumulator(&mut self, value: Nibble)
        ensures
            final(self).accumulator() == value,
            final(self).registers() == old(self).registers(),
            final(self).program() == old(self).program(),
            final(self).counter() == old(self).counter(),
    {
        self.accumulator = value;
    }

    pub fn get_accumulator(&self) -> (r: Nibble)
        ensures
            r == self.accumulator(),
    {
        self.accumulator
    }

    /// Copies the accumulator into register `index`.
    fn store_into_register(&mut self, index: usize)
        requires
            index < old(self).registers().len(),
        ensures
            final(self).registers() == old(self).registers().update(
                index as int,
                old(self).accumulator(),
            ),
            final(self).accumulator() == old(self).accumulator(),
            final(self).program() == old(self).program(),
            final(self).counter() == old(self).counter(),
    {
        self.register.set(index, self.accumulator);
    }

    pub fn get_register_value(&self, index: usize) -> (r: Nibble)
        requires
            index < self.registers().len(),
        ensures
            r == self.registers()[index as int],
    {
        self.register[index]
    }

    fn increase_instruction_counter(&mut self, steps: usize)
        requires
            old(self).counter() + steps <= usize::MAX,
        ensures
            final(self).counter() == old(self).counter() + steps,
            final(self).accumulator() == old(self).accumulator(),
            final(self).registers() == old(self).registers(),
            final(self).program() == old(self).program(),
    {
        self.instruction_counter = self.instruction_counter + steps;
    }

    fn set_instruction_counter(&mut self, value: usize)
        ensures
            final(self).counter() == value,
            final(self).accumulator() == old(self).accumulator(),
            final(self).registers() == old(self).registers(),
            final(self).program() == old(self).program(),
    {
        self.instruction_counter = value;
    }

    fn get_instruction_counter(&self) -> (r: usize)
        ensures
            r == self.counter(),
    {
        self.instruction_counter
    }

    /// The register file.
    pub fn get_register(&self) -> (r: &Vec<Nibble>)
        ensures
            r@ == self.registers(),
    {
        &self.register
    }

    /// The flags of the accumulator.
    pub fn get_status_bits(&self) -> (r: StatusBits)
        ensures
            r == (StatusBits {
                carry: self.accumulator().carry(),
                negative: self.accumulator().negative(),
                zero: self.accumulator().zero(),
            }),
    {
        StatusBits {
            carry: self.accumulator.has_carry(),
            negative: self.accumulator.has_negative(),
            zero: self.accumulator.is_zero(),
        }
    }

    /// Whether the next command exists and can run.
    pub fn can_tick(&self) -> (r: bool)
        ensures
            r == self.can_step(),
    {
        if self.instruction_counter >= self.ram.len() {
            return false;
        }
        let command = self.ram[self.instruction_counter];
        match command.instruction {
            Instruction::LoadFromRegister | Instruction::SaveToRegister
            | Instruction::AddFromRegister | Instruction::SubFromRegister => command.operant
                < self.register.len(),
            Instruction::BRZ | Instruction::BRC | Instruction::BRN => command.operant
                <= usize::MAX - self.instruction_counter,
            _ => true,
        }
    }

    /// Runs the command at the program counter.
    fn execute_command(&mut self)
        requires
            old(self).can_step(),
        ensures
            (final(self).accumulator(), final(self).registers(), final(self).counter()) == step(
                old(self).accumulator(),
                old(self).registers(),
                old(self).counter(),
                old(self).program()[old(self).counter()],
            ),
            final(self).program() == old(self).program(),
    {
        let command = self.ram[self.get_instruction_counter()];
        assert(self.ram@.len() == self.ram.len());
        match command.instruction {
            Instruction::NOP => {},
            Instruction::LoadFix => self.load_into_accumulator(Nibble::from(command.operant)),
            Instruction::LoadFromRegister => {
                let value = self.get_register_value(command.operant);
                self.load_into_accumulator(value)
            },
            Instruction::SaveToRegister => self.store_into_register(command.operant),
            Instruction::AddFix => {
                let value = self.get_accumulator() + Nibble::from(command.operant);
                self.load_into_accumulator(value)
            },
            Instruction::AddFromRegister => {
                let value = self.get_accumulator() + self.get_register_value(command.operant);
                self.load_into_accumulator(value)
            },
            Instruction::SubFix => {
                let value = self.get_accumulator() - Nibble::from(command.operant);
                self.load_into_accumulator(value)
            },
            Instruction::SubFromRegister => {
                let value = self.get_accumulator() - self.get_register_value(command.operant);
                self.load_into_accumulator(value)
            },
            Instruction::JMP => {
                self.set_instruction_counter(command.operant);
                return ;
            },
            Instruction::BRZ => {
                if self.accumulator.is_zero() {
                    self.increase_instruction_counter(command.operant);
                } else {
                    self.increase_instruction_counter(1);
                }
                return ;
            },
            Instruction::BRC => {
                if self.accumulator.has_carry() {
                    self.increase_instruction_counter(command.operant);
                } else {
                    self.increase_instruction_counter(1);
                }
                return ;
            },
            Instruction::BRN => {
                if self.accumulator.has_negative() {
                    self.increase_instruction_counter(command.operant);
                } else {
                    self.increase_instruction_counter(1);
                }
                return ;
            },
        }
        self.increase_instruction_counter(1);
    }

    /// Runs the command at the program counter; true while the counter
    /// still points at a command.
    pub fn tick(&mut self) -> (r: bool)
        requires
            old(self).can_step(),
        ensures
            Runtime::ticked(*old(self), *final(self), r),
    {
        self.execute_command();
        self.instruction_counter < self.ram.len()
    }
}

/// An empty machine: no registers, no commands, the accumulator and the
/// counter at 0.
impl Default for Runtime {
    fn default() -> (r: Runtime)
        ensures
            r.accumulator() == Nibble::from_raw(0),
            r.registers() == Seq::<Nibble>::empty(),
            r.program() == Seq::<Command>::empty(),
            r.counter() == 0,
    {
        Runtime::new(0, Vec::new())
    }
}

/// A tick returns false exactly when the counter has reached or passed the
/// end of the program; the next line is then the number of commands, and no
/// further tick can run.
pub proof fn lemma_tick_stops_at_end(before: Runtime, after: Runtime, running: bool)
    requires
        before.can_step(),
        Runtime::ticked(before, after, running),
    ensures
        !running <==> after.counter() >= after.program().len(),
        !running ==> after.next_line() == after.program().len(),
        !running ==> !after.can_step(),
{
}

} // verus!

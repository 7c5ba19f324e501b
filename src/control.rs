//! Control lines, instruction encodings and the microcode table.
use vstd::prelude::*;

verus! {

// Control lines: one bit each in a control word.
/// Latch the zero and carry flags from the ALU.
pub const FI: u16 = 1u16 << 0u16;
/// Jump: load the program counter from the bus.
pub const J: u16 = 1u16 << 1u16;
/// Program counter out onto the bus.
pub const CO: u16 = 1u16 << 2u16;
/// Program counter increment.
pub const CE: u16 = 1u16 << 3u16;
/// Output latch in from the bus.
pub const OI: u16 = 1u16 << 4u16;
/// Register B in from the bus.
pub const BI: u16 = 1u16 << 5u16;
/// ALU subtract.
pub const SU: u16 = 1u16 << 6u16;
/// ALU result out onto the bus.
pub const EO: u16 = 1u16 << 7u16;
/// Accumulator out onto the bus.
pub const AO: u16 = 1u16 << 8u16;
/// Accumulator in from the bus.
pub const AI: u16 = 1u16 << 9u16;
/// Instruction register in from the bus.
pub const II: u16 = 1u16 << 10u16;
/// Instruction register operand (low nibble) out onto the bus.
pub const IO: u16 = 1u16 << 11u16;
/// Memory out onto the bus.
pub const RO: u16 = 1u16 << 12u16;
/// Memory in from the bus.
pub const RI: u16 = 1u16 << 13u16;
/// Memory address register in from the bus.
pub const MI: u16 = 1u16 << 14u16;
/// Halt the clock.
pub const HLT: u16 = 1u16 << 15u16;

// Opcodes: the high nibble of an instruction byte.
pub const NOP: u8 = 0b0000;
pub const LDA: u8 = 0b0001;
pub const ADD: u8 = 0b0010;
pub const SUB: u8 = 0b0011;
pub const STA: u8 = 0b0100;
pub const LDI: u8 = 0b0101;
pub const JMP: u8 = 0b0110;
pub const JC: u8 = 0b0111;
pub const JZ: u8 = 0b1000;
pub const OUT: u8 = 0b1110;
pub const HALT: u8 = 0b1111;

/// Number of entries in the microcode table: 2 zero-flag values, 2 carry-flag
/// values, 16 opcodes and 8 micro-step slots.
pub const TABLE_LEN: usize = 512;

/// Whether the control word `w` asserts the control line `line`.
pub open spec fn asserts(w: u16, line: u16) -> bool {
    w & line != 0
}

/// The instruction whose micro-steps run for `op` under the given flags:
/// a conditional jump whose condition holds runs as JMP, one whose condition
/// fails runs as NOP, and unassigned opcodes run as NOP.
pub open spec fn effective_op(op: u8, zf: bool, cf: bool) -> u8 {
    if op == JC {
        if cf { JMP } else { NOP }
    } else if op == JZ {
        if zf { JMP } else { NOP }
    } else if op == LDA || op == ADD || op == SUB || op == STA || op == LDI || op == JMP
        || op == OUT || op == HALT {
        op
    } else {
        NOP
    }
}

/// The control word of micro-step slot `step` of instruction `inst`.
/// Slots 0 and 1 are the fetch shared by all instructions.
pub open spec fn micro_word(inst: u8, step: int) -> u16 {
    if step == 0 {
        MI | CO
    } else if step == 1 {
        RO | II | CE
    } else if inst == LDA {
        if step == 2 { IO | MI } else if step == 3 { RO | AI } else { 0 }
    } else if inst == ADD {
        if step == 2 { IO | MI } else if step == 3 { RO | BI } else if step == 4 { EO | AI | FI } else { 0 }
    } else if inst == SUB {
        if step == 2 {
            IO | MI
        } else if step == 3 {
            RO | BI
        } else if step == 4 {
            EO | AI | SU | FI
        } else {
            0
        }
    } else if inst == STA {
        if step == 2 { IO | MI } else if step == 3 { AO | RI } else { 0 }
    } else if inst == LDI {
        if step == 2 { IO | AI } else { 0 }
    } else if inst == JMP {
        if step == 2 { IO | J } else { 0 }
    } else if inst == OUT {
        if step == 2 { AO | OI } else { 0 }
    } else if inst == HALT {
        if step == 2 { HLT } else { 0 }
    } else {
        0
    }
}

/// The control word for the given flags, opcode and micro-step slot.
pub open spec fn control_word_spec(zf: bool, cf: bool, op: u8, step: int) -> u16 {
    micro_word(effective_op(op, zf, cf), step)
}

/// Table position of (zero flag, carry flag, opcode, slot):
/// zero flag in bit 8, carry flag in bit 7, opcode in bits 3..7, slot in bits 0..3.
pub open spec fn table_index(zf: bool, cf: bool, op: int, slot: int) -> int {
    (if zf { 256int } else { 0int }) + (if cf { 128int } else { 0int }) + op * 8 + slot
}

/// The entry at position `i` of the microcode table.
pub open spec fn table_entry(i: int) -> u16 {
    control_word_spec((i / 256) % 2 == 1, (i / 128) % 2 == 1, ((i / 8) % 16) as u8, i % 8)
}

/// The whole microcode table.
pub open spec fn microcode_table() -> Seq<u16> {
    Seq::new(TABLE_LEN as nat, |i: int| table_entry(i))
}

/// A control word read as the set of control lines it asserts.
#[derive(Clone, Copy)]
pub struct ControlWord {
    pub bits: u16,
}

impl ControlWord {
    /// Whether this word asserts `line`.
    pub open spec fn has(self, line: u16) -> bool {
        asserts(self.bits, line)
    }

    /// Whether this word latches the flags.
    pub fn flag_latch(self) -> (r: bool)
        ensures
            r == self.has(FI),
    {
        self.bits & FI != 0
    }

    /// Whether this word loads the program counter from the bus.
    pub fn jump(self) -> (r: bool)
        ensures
            r == self.has(J),
    {
        self.bits & J != 0
    }

    /// Whether this word puts the program counter on the bus.
    pub fn counter_out(self) -> (r: bool)
        ensures
            r == self.has(CO),
    {
        self.bits & CO != 0
    }

    /// Whether this word increments the program counter.
    pub fn counter_increment(self) -> (r: bool)
        ensures
            r == self.has(CE),
    {
        self.bits & CE != 0
    }

    /// Whether this word loads the output latch.
    pub fn output_in(self) -> (r: bool)
        ensures
            r == self.has(OI),
    {
        self.bits & OI != 0
    }

    /// Whether this word loads register B.
    pub fn b_in(self) -> (r: bool)
        ensures
            r == self.has(BI),
    {
        self.bits & BI != 0
    }

    /// Whether this word makes the ALU subtract.
    pub fn subtract(self) -> (r: bool)
        ensures
            r == self.has(SU),
    {
        self.bits & SU != 0
    }

    /// Whether this word puts the ALU result on the bus.
    pub fn alu_out(self) -> (r: bool)
        ensures
            r == self.has(EO),
    {
        self.bits & EO != 0
    }

    /// Whether this word puts the accumulator on the bus.
    pub fn a_out(self) -> (r: bool)
        ensures
            r == self.has(AO),
    {
        self.bits & AO != 0
    }

    /// Whether this word loads the accumulator.
    pub fn a_in(self) -> (r: bool)
        ensures
            r == self.has(AI),
    {
        self.bits & AI != 0
    }

    /// Whether this word loads the instruction register.
    pub fn instruction_in(self) -> (r: bool)
        ensures
            r == self.has(II),
    {
        self.bits & II != 0
    }

    /// Whether this word puts the instruction's operand on the bus.
    pub fn operand_out(self) -> (r: bool)
        ensures
            r == self.has(IO),
    {
        self.bits & IO != 0
    }

    /// Whether this word puts the addressed memory cell on the bus.
    pub fn memory_out(self) -> (r: bool)
        ensures
            r == self.has(RO),
    {
        self.bits & RO != 0
    }

    /// Whether this word stores the bus into the addressed memory cell.
    pub fn memory_in(self) -> (r: bool)
        ensures
            r == self.has(RI),
    {
        self.bits & RI != 0
    }

    /// Whether this word loads the memory address register.
    pub fn address_in(self) -> (r: bool)
        ensures
            r == self.has(MI),
    {
        self.bits & MI != 0
    }

    /// Whether this word halts the machine.
    pub fn halt(self) -> (r: bool)
        ensures
            r == self.has(HLT),
    {
        self.bits & HLT != 0
    }
}

/// Computes the control word of slot `step` for opcode `op` under the given flags.
pub fn control_word(zf: bool, cf: bool, op: u8, step: usize) -> (w: u16)
    ensures
        w == control_word_spec(zf, cf, op, step as int),
{
    let inst: u8 = if op == JC {
        if cf { JMP } else { NOP }
    } else if op == JZ {
        if zf { JMP } else { NOP }
    } else if op == LDA || op == ADD || op == SUB || op == STA || op == LDI || op == JMP
        || op == OUT || op == HALT {
        op
    } else {
        NOP
    };
    if step == 0 {
        MI | CO
    } else if step == 1 {
        RO | II | CE
    } else if inst == LDA {
        if step == 2 { IO | MI } else if step == 3 { RO | AI } else { 0 }
    } else if inst == ADD {
        if step == 2 { IO | MI } else if step == 3 { RO | BI } else if step == 4 { EO | AI | FI } else { 0 }
    } else if inst == SUB {
        if step == 2 {
            IO | MI
        } else if step == 3 {
            RO | BI
        } else if step == 4 {
            EO | AI | SU | FI
        } else {
            0
        }
    } else if inst == STA {
        if step == 2 { IO | MI } else if step == 3 { AO | RI } else { 0 }
    } else if inst == LDI {
        if step == 2 { IO | AI } else { 0 }
    } else if inst == JMP {
        if step == 2 { IO | J } else { 0 }
    } else if inst == OUT {
        if step == 2 { AO | OI } else { 0 }
    } else if inst == HALT {
        if step == 2 { HLT } else { 0 }
    } else {
        0
    }
}

/// Builds the microcode table.
pub fn build_microcode() -> (t: Vec<u16>)
    ensures
        t@ == microcode_table(),
{
    let mut t: Vec<u16> = Vec::new();
    let mut i: usize = 0;
    while i < TABLE_LEN
        invariant
            i <= TABLE_LEN,
            t@.len() == i,
            forall|k: int| 0 <= k < i ==> t@[k] == table_entry(k),
        decreases TABLE_LEN - i,
    {
        let zf = (i / 256) % 2 == 1;
        let cf = (i / 128) % 2 == 1;
        let op = ((i / 8) % 16) as u8;
        let w = control_word(zf, cf, op, i % 8);
        t.push(w);
        i = i + 1;
    }
    assert(t@ =~= microcode_table());
    t
}

/// A conditional jump whose condition fails runs exactly the micro-steps of NOP.
pub proof fn lemma_untaken_jump_is_nop(zf: bool, cf: bool, step: int)
    ensures
        !zf ==> control_word_spec(zf, cf, JZ, step) == control_word_spec(zf, cf, NOP, step),
        !cf ==> control_word_spec(zf, cf, JC, step) == control_word_spec(zf, cf, NOP, step),
        zf ==> control_word_spec(zf, cf, JZ, step) == control_word_spec(zf, cf, JMP, step),
        cf ==> control_word_spec(zf, cf, JC, step) == control_word_spec(zf, cf, JMP, step),
{
}

} // verus!

//! The machine state and the micro-step engine.
use vstd::prelude::*;
use crate::control::{
    asserts, build_microcode, ControlWord, control_word_spec, microcode_table, table_index, AO, CE, CO, EO, FI, HLT, II,
    IO, J, MI, OI, RI, RO, SU, AI, BI, TABLE_LEN,
};

use crate::assembler::{assemble_image, program_image};

verus! {

/// Result of the ALU: `a + b` modulo 256, or `a - b` modulo 256 when subtracting.
pub open spec fn alu_value(a: u8, b: u8, subtract: bool) -> u8 {
    if subtract {
        ((a - b) % 256) as u8
    } else {
        ((a + b) % 256) as u8
    }
}

/// The breadboard computer: registers, memory, flags, micro-step counter and bus.
pub struct Cpu {
    /// Accumulator.
    pub a: u8,
    /// Second ALU operand.
    pub b: u8,
    /// Output latch.
    pub output: u8,
    /// Program counter, within the 16-byte address space.
    pub pc: u8,
    /// Instruction register: opcode in the high nibble, operand in the low one.
    pub ir: u8,
    /// Memory, shared by code and data.
    pub ram: [u8; 16],
    /// Memory address register, within the 16-byte address space.
    pub mar: usize,
    /// Carry flag.
    pub cf: bool,
    /// Zero flag.
    pub zf: bool,
    /// Microcode table, indexed as `table_index` lays out.
    pub microcode: Vec<u16>,
    /// Micro-step counter, in 0..5.
    pub step: usize,
    /// Value on the bus during the last pulse.
    pub bus: u8,
    /// Set by HLT; pulses do nothing while it is set.
    pub halted: bool,
}

impl Cpu {
    /// The machine is well formed: the table is the microcode table and the
    /// counters are in range.
    pub open spec fn wf(&self) -> bool {
        &&& self.microcode@ == microcode_table()
        &&& self.pc < 16
        &&& self.mar < 16
        &&& self.step < 5
    }

    /// Position in the microcode table of the current control word.
    pub open spec fn micro_loc(&self) -> int {
        table_index(self.zf, self.cf, (self.ir / 16) as int, (self.step % 8) as int)
    }

    /// The current control word.
    pub open spec fn control(&self) -> u16 {
        control_word_spec(self.zf, self.cf, self.ir / 16, (self.step % 8) as int)
    }

    /// What the ALU currently computes.
    pub open spec fn alu_spec(&self) -> u8 {
        alu_value(self.a, self.b, asserts(self.control(), SU))
    }

    /// The bus value of the next pulse: the last asserted source in the order
    /// program counter, ALU, accumulator, operand, memory; 0 if none.
    pub open spec fn bus_spec(&self) -> u8 {
        let w = self.control();
        if asserts(w, RO) {
            self.ram@[self.mar as int]
        } else if asserts(w, IO) {
            self.ir & 0xF
        } else if asserts(w, AO) {
            self.a
        } else if asserts(w, EO) {
            self.alu_spec()
        } else if asserts(w, CO) {
            self.pc
        } else {
            0
        }
    }

    /// Registers, flags, counters, bus and halt all cleared.
    pub open spec fn is_cleared(&self) -> bool {
        &&& self.a == 0 && self.b == 0 && self.output == 0 && self.pc == 0 && self.ir == 0
        &&& self.mar == 0 && self.step == 0 && self.bus == 0
        &&& !self.cf && !self.zf && !self.halted
    }

    /// Cleared, with memory and table kept from `prev`.
    pub open spec fn is_reset_of(&self, prev: &Cpu) -> bool {
        &&& self.is_cleared()
        &&& self.ram == prev.ram
        &&& self.microcode == prev.microcode
    }

    /// The state after one pulse of a machine that is not halted. Addresses
    /// loaded from the bus into the program counter or the memory address
    /// register are masked to their low 4 bits.
    pub open spec fn pulsed(&self, prev: &Cpu) -> bool {
        let w = prev.control();
        let bus = prev.bus_spec();
        let jumped: u8 = if asserts(w, J) { bus & 0xF } else { prev.pc };
        &&& self.bus == bus
        &&& self.zf == if asserts(w, FI) { prev.alu_spec() == 0 } else { prev.zf }
        &&& self.cf == if asserts(w, FI) { prev.alu_spec() < prev.a } else { prev.cf }
        &&& self.pc == if asserts(w, CE) { ((jumped + 1) % 16) as u8 } else { jumped }
        &&& self.output == if asserts(w, OI) { bus } else { prev.output }
        &&& self.b == if asserts(w, BI) { bus } else { prev.b }
        &&& self.a == if asserts(w, AI) { bus } else { prev.a }
        &&& self.ir == if asserts(w, II) { bus } else { prev.ir }
        &&& self.ram@ == if asserts(w, RI) {
            prev.ram@.update(prev.mar as int, bus)
        } else {
            prev.ram@
        }
        &&& self.mar == if asserts(w, MI) { (bus & 0xF) as usize } else { prev.mar }
        &&& self.halted == asserts(w, HLT)
        &&& self.step == (prev.step + 1) % 5
        &&& self.microcode == prev.microcode
    }

    /// A machine with zeroed registers and memory and the microcode table built.
    pub fn new() -> (r: Cpu)
        ensures
            r.wf(),
            r.is_cleared(),
            forall|i: int| 0 <= i < 16 ==> r.ram@[i] == 0,
    {
        let microcode = build_microcode();
        Cpu {
            a: 0,
            b: 0,
            output: 0,
            pc: 0,
            ir: 0,
            ram: [0u8; 16],
            mar: 0,
            cf: false,
            zf: false,
            microcode,
            step: 0,
            bus: 0,
            halted: false,
        }
    }

    /// Clears registers, flags, counters and the halt; keeps memory.
    pub fn reset(&mut self)
        ensures
            final(self).is_reset_of(old(self)),
    {
        self.a = 0;
        self.b = 0;
        self.pc = 0;
        self.mar = 0;
        self.bus = 0;
        self.halted = false;
        self.output = 0;
        self.step = 0;
        self.cf = false;
        self.zf = false;
        self.ir = 0;
    }

    /// Loads the program text `code` into memory and resets the machine.
    /// If any of its first 16 lines is invalid, nothing changes and the result is false.
    pub fn assemble(&mut self, code: &String) -> (ok: bool)
        ensures
            ok == program_image(code@) is Some,
            ok ==> final(self).ram@ == program_image(code@)->0,
            ok ==> final(self).is_cleared(),
            ok ==> final(self).microcode == old(self).microcode,
            !ok ==> *final(self) == *old(self),
    {
        match assemble_image(code.as_str()) {
            Some(image) => {
                self.ram = image;
                self.reset();
                true
            },
            None => false,
        }
    }

    /// Position in the microcode table of the current control word.
    pub fn get_micro_loc(&self) -> (r: usize)
        ensures
            r == self.micro_loc(),
            r < TABLE_LEN,
    {
        let zf: usize = if self.zf { 1 } else { 0 };
        let cf: usize = if self.cf { 1 } else { 0 };
        let ir = self.ir;
        let st = self.step;
        let flags: usize = (zf << 8usize) | (cf << 7usize);
        let opcode: usize = ((ir & 0xF0u8) >> 1u8) as usize;
        let step: usize = st & 0b111usize;
        assert((ir & 0xF0u8) >> 1u8 == (ir / 16) * 8) by (bit_vector);
        assert(st & 0b111usize == st % 8) by (bit_vector);
        assert(flags == zf * 256 + cf * 128) by (bit_vector)
            requires
                zf < 2 && cf < 2 && flags == (zf << 8usize) | (cf << 7usize),
        ;
        let ghost o: usize = (ir / 16) as usize;
        assert(flags | opcode | step == flags + opcode + step) by (bit_vector)
            requires
                zf < 2 && cf < 2 && flags == zf * 256 + cf * 128,
                o < 16 && opcode == o * 8,
                step < 8,
        ;
        flags | opcode | step
    }

    /// What the ALU computes now: register B added to the accumulator, or
    /// subtracted from it when the current control word asserts the subtract line.
    pub fn alu(&mut self) -> (r: u8)
        requires
            old(self).wf(),
        ensures
            *final(self) == *old(self),
            r == old(self).alu_spec(),
            r as int == if asserts(old(self).control(), SU) {
                (old(self).a - old(self).b) % 256
            } else {
                (old(self).a + old(self).b) % 256
            },
    {
        proof {
            lemma_control_at_loc(self);
        }
        let w = ControlWord { bits: self.microcode[self.get_micro_loc()] };
        let b = self.b;
        let rhs = if w.subtract() {
            assert(b ^ 0xFFu8 == 255u8 - b) by (bit_vector);
            (b ^ 0xFFu8).wrapping_add(1)
        } else {
            b
        };
        self.a.wrapping_add(rhs)
    }

    /// Advances the machine by one micro-step; does nothing while halted.
    pub fn pulse(&mut self)
        requires
            old(self).wf(),
        ensures
            final(self).wf(),
            old(self).halted ==> *final(self) == *old(self),
            !old(self).halted ==> final(self).pulsed(old(self)),
    {
        if !self.halted {
            proof {
                lemma_control_at_loc(self);
            }
            let alu_out = self.alu();
            let w = ControlWord { bits: self.microcode[self.get_micro_loc()] };
            let bus = self.bus_value(w, alu_out);
            let latch = w.flag_latch();
            let zf = if latch { alu_out == 0 } else { self.zf };
            let cf = if latch { alu_out < self.a } else { self.cf };
            let jumped: u8 = if w.jump() {
                assert(bus & 0xFu8 < 16) by (bit_vector);
                bus & 0xF
            } else {
                self.pc
            };
            let pc: u8 = if w.counter_increment() {
                assert((jumped + 1) as u8 & 0xFu8 == (jumped + 1) % 16) by (bit_vector)
                    requires
                        jumped < 16,
                ;
                (jumped + 1) & 0xF
            } else {
                jumped
            };
            let output = if w.output_in() { bus } else { self.output };
            let b = if w.b_in() { bus } else { self.b };
            let a = if w.a_in() { bus } else { self.a };
            let ir = if w.instruction_in() { bus } else { self.ir };
            if w.memory_in() {
                self.ram[self.mar] = bus;
            }
            let mar: usize = if w.address_in() {
                assert(bus & 0xFu8 < 16) by (bit_vector);
                (bus & 0xF) as usize
            } else {
                self.mar
            };
            let halted = w.halt();
            self.bus = bus;
            self.zf = zf;
            self.cf = cf;
            self.pc = pc;
            self.output = output;
            self.b = b;
            self.a = a;
            self.ir = ir;
            self.mar = mar;
            self.halted = halted;
            self.step = (self.step + 1) % 5;
        }
    }

    /// The bus value for control word `w`, given the ALU's output: the last
    /// asserted source in the order program counter, ALU, accumulator, operand, memory.
    fn bus_value(&self, w: ControlWord, alu_out: u8) -> (r: u8)
        requires
            self.wf(),
            w.bits == self.control(),
            alu_out == self.alu_spec(),
        ensures
            r == self.bus_spec(),
    {
        let mut bus: u8 = 0;
        if w.counter_out() {
            bus = self.pc;
        }
        if w.alu_out() {
            bus = alu_out;
        }
        if w.a_out() {
            bus = self.a;
        }
        if w.operand_out() {
            bus = self.ir & 0xF;
        }
        if w.memory_out() {
            bus = self.ram[self.mar];
        }
        bus
    }
}

/// The table entry that the engine reads is the current control word, and
/// since the step counter stays below 5 the slots 5, 6 and 7 of a row are never read.
pub proof fn lemma_control_at_loc(cpu: &Cpu)
    requires
        cpu.wf(),
    ensures
        0 <= cpu.micro_loc() < TABLE_LEN,
        cpu.micro_loc() % 8 == cpu.step,
        cpu.step < 5,
        microcode_table()[cpu.micro_loc()] == cpu.control(),
{
    let op = (cpu.ir / 16) as int;
    assert(0 <= op < 16);
    let loc = cpu.micro_loc();
    assert(loc % 8 == cpu.step);
    assert((loc / 8) % 16 == op);
    assert(((loc / 128) % 2 == 1) == cpu.cf);
    assert(((loc / 256) % 2 == 1) == cpu.zf);
}

} // verus!

use breadboard_cpu::control::{ControlWord, AI, CE, CO, EO, FI, II, IO, J, MI, RO, SU};
use breadboard_cpu::cpu::Cpu;

fn loaded(program: &str) -> Cpu {
    let mut cpu = Cpu::new();
    assert!(cpu.assemble(&program.to_string()));
    cpu
}

fn pulses(cpu: &mut Cpu, n: usize) {
    for _ in 0..n {
        cpu.pulse();
    }
}

#[test]
fn new_machine_is_zeroed() {
    let cpu = Cpu::new();
    assert_eq!(cpu.a, 0);
    assert_eq!(cpu.b, 0);
    assert_eq!(cpu.output, 0);
    assert_eq!(cpu.pc, 0);
    assert_eq!(cpu.ir, 0);
    assert_eq!(cpu.mar, 0);
    assert_eq!(cpu.step, 0);
    assert_eq!(cpu.bus, 0);
    assert!(!cpu.cf && !cpu.zf && !cpu.halted);
    assert_eq!(cpu.ram, [0u8; 16]);
    assert_eq!(cpu.microcode.len(), 512);
}

#[test]
fn alu_adds_with_wraparound() {
    let mut cpu = Cpu::new();
    cpu.a = 250;
    cpu.b = 10;
    assert_eq!(cpu.alu(), 4);
    cpu.a = 3;
    cpu.b = 4;
    assert_eq!(cpu.alu(), 7);
    // evaluating the ALU changes nothing
    assert_eq!(cpu.a, 3);
    assert_eq!(cpu.b, 4);
}

#[test]
fn alu_subtracts_during_sub_execute_step() {
    let mut cpu = Cpu::new();
    cpu.ir = 0x30;
    cpu.step = 4;
    cpu.a = 5;
    cpu.b = 10;
    assert_eq!(cpu.alu(), 251);
    cpu.a = 10;
    cpu.b = 3;
    assert_eq!(cpu.alu(), 7);
    cpu.b = 0;
    assert_eq!(cpu.alu(), 10);
}

#[test]
fn add_latches_carry_when_result_below_accumulator() {
    let mut cpu = loaded("LDA 3\nADD 4\nHLT\n250\n10");
    pulses(&mut cpu, 5);
    assert_eq!(cpu.a, 250);
    pulses(&mut cpu, 5);
    assert_eq!(cpu.b, 10);
    assert_eq!(cpu.a, 4);
    assert!(cpu.cf);
    assert!(!cpu.zf);
}

#[test]
fn add_without_carry_clears_flags() {
    let mut cpu = loaded("LDI 3\nADD 3\nHLT\n4");
    pulses(&mut cpu, 10);
    assert_eq!(cpu.a, 7);
    assert!(!cpu.cf);
    assert!(!cpu.zf);
}

#[test]
fn sub_to_zero_sets_zero_flag_and_jz_jumps() {
    let mut cpu = loaded("LDI 1\nSUB 4\nJZ 0\nHLT\n1");
    pulses(&mut cpu, 10);
    assert_eq!(cpu.a, 0);
    assert!(cpu.zf);
    assert!(cpu.cf);
    pulses(&mut cpu, 5);
    assert_eq!(cpu.pc, 0);
    assert!(!cpu.halted);
}

#[test]
fn ldi_then_untaken_jz_falls_through() {
    let mut cpu = loaded("LDI 5\nJZ 0");
    assert_eq!(cpu.ram[0], 0x55);
    assert_eq!(cpu.ram[1], 0x80);
    pulses(&mut cpu, 5);
    assert_eq!(cpu.a, 5);
    assert!(!cpu.zf);
    assert!(!cpu.cf);
    assert_eq!(cpu.pc, 1);
    pulses(&mut cpu, 5);
    assert_eq!(cpu.pc, 2);
    assert_eq!(cpu.a, 5);
}

#[test]
fn untaken_jc_behaves_like_nop() {
    let mut with_jc = loaded("JC 9\nLDI 1");
    let mut with_nop = loaded("0\nLDI 1");
    for _ in 0..10 {
        with_jc.pulse();
        with_nop.pulse();
        assert_eq!(with_jc.pc, with_nop.pc);
        assert_eq!(with_jc.a, with_nop.a);
        assert_eq!(with_jc.mar, with_nop.mar);
        assert_eq!(with_jc.step, with_nop.step);
    }
    assert_eq!(with_jc.a, 1);
}

#[test]
fn jc_jumps_after_carry() {
    let mut cpu = loaded("LDA 4\nADD 4\nJC 9\nHLT\n200");
    pulses(&mut cpu, 15);
    assert!(cpu.cf);
    assert_eq!(cpu.a, 144);
    assert_eq!(cpu.pc, 9);
}

#[test]
fn jmp_jumps_unconditionally() {
    let mut cpu = loaded("JMP 7");
    pulses(&mut cpu, 5);
    assert_eq!(cpu.pc, 7);
}

#[test]
fn out_copies_accumulator_to_output() {
    let mut cpu = loaded("LDI 7\nOUT\nHLT");
    pulses(&mut cpu, 10);
    assert_eq!(cpu.output, 7);
}

#[test]
fn sta_writes_memory() {
    let mut cpu = loaded("LDI 9\nSTA 15\nHLT");
    pulses(&mut cpu, 10);
    assert_eq!(cpu.ram[15], 9);
}

#[test]
fn halted_machine_ignores_pulses_until_reset() {
    let mut cpu = loaded("LDI 3\nHLT");
    pulses(&mut cpu, 8);
    assert!(cpu.halted);
    let (a, pc, step, bus, mar, ir) = (cpu.a, cpu.pc, cpu.step, cpu.bus, cpu.mar, cpu.ir);
    let ram = cpu.ram;
    pulses(&mut cpu, 20);
    assert!(cpu.halted);
    assert_eq!((cpu.a, cpu.pc, cpu.step, cpu.bus, cpu.mar, cpu.ir), (a, pc, step, bus, mar, ir));
    assert_eq!(cpu.ram, ram);
    cpu.reset();
    assert!(!cpu.halted);
    assert_eq!(cpu.a, 0);
    assert_eq!(cpu.pc, 0);
    assert_eq!(cpu.step, 0);
    assert_eq!(cpu.ram[0], 0x53);
    cpu.pulse();
    assert_eq!(cpu.step, 1);
}

#[test]
fn step_counter_cycles_through_five_slots() {
    let mut cpu = loaded("LDA 1\nADD 1\nJMP 0");
    let mut seen = Vec::new();
    for _ in 0..12 {
        assert!(cpu.get_micro_loc() % 8 < 5);
        cpu.pulse();
        seen.push(cpu.step);
    }
    assert_eq!(seen, vec![1, 2, 3, 4, 0, 1, 2, 3, 4, 0, 1, 2]);
}

#[test]
fn micro_loc_packs_flags_opcode_and_step() {
    let mut cpu = Cpu::new();
    assert_eq!(cpu.get_micro_loc(), 0);
    cpu.zf = true;
    cpu.cf = true;
    cpu.ir = 0x83;
    cpu.step = 3;
    assert_eq!(cpu.get_micro_loc(), 256 + 128 + 8 * 8 + 3);
    cpu.zf = false;
    cpu.ir = 0xF0;
    cpu.step = 2;
    assert_eq!(cpu.get_micro_loc(), 128 + 15 * 8 + 2);
}

#[test]
fn reset_clears_registers_and_keeps_memory() {
    let mut cpu = loaded("LDI 4\nOUT");
    pulses(&mut cpu, 8);
    assert_eq!(cpu.output, 4);
    cpu.reset();
    assert_eq!(cpu.a, 0);
    assert_eq!(cpu.output, 0);
    assert_eq!(cpu.pc, 0);
    assert_eq!(cpu.ir, 0);
    assert_eq!(cpu.bus, 0);
    assert_eq!(cpu.mar, 0);
    assert_eq!(cpu.ram[0], 0x54);
    assert_eq!(cpu.ram[1], 0xE0);
}

#[test]
fn microcode_layout() {
    let cpu = Cpu::new();
    // fetch slots of every row
    for row in 0..64 {
        assert_eq!(cpu.microcode[row * 8], MI | CO);
        assert_eq!(cpu.microcode[row * 8 + 1], RO | II | CE);
        for slot in 5..8 {
            assert_eq!(cpu.microcode[row * 8 + slot], 0);
        }
    }
    // ADD and SUB execute slots, flags clear
    assert_eq!(cpu.microcode[2 * 8 + 4], EO | AI | FI);
    assert_eq!(cpu.microcode[3 * 8 + 4], EO | AI | SU | FI);
    // JC: taken only with the carry flag, JZ only with the zero flag
    assert_eq!(cpu.microcode[7 * 8 + 2], 0);
    assert_eq!(cpu.microcode[128 + 7 * 8 + 2], IO | J);
    assert_eq!(cpu.microcode[8 * 8 + 2], 0);
    assert_eq!(cpu.microcode[256 + 8 * 8 + 2], IO | J);
    assert_eq!(cpu.microcode[128 + 8 * 8 + 2], 0);
    let w = ControlWord { bits: cpu.microcode[cpu.get_micro_loc()] };
    assert!(w.address_in() && w.counter_out());
    assert!(!w.memory_out() && !w.jump() && !w.halt() && !w.flag_latch());
}

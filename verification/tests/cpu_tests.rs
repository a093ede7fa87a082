use actionkv::cpu::{CPU, RunOutcome};

#[test]
fn new_cpu_is_zeroed() {
    let cpu = CPU::new();
    for i in 0..16 {
        assert_eq!(cpu.register(i), 0);
    }
    assert_eq!(cpu.read_memory(0), 0);
    assert_eq!(cpu.read_memory(4095), 0);
}

#[test]
fn ld_and_register_round_trip() {
    let mut cpu = CPU::new();
    cpu.ld(3, 0xAB);
    assert_eq!(cpu.register(3), 0xAB);
    assert_eq!(cpu.register(4), 0);
}

#[test]
fn add_wraps_at_256() {
    let mut cpu = CPU::new();
    cpu.set_register(0, 250);
    cpu.add(0, 10);
    assert_eq!(cpu.register(0), 4);
}

#[test]
fn add_xy_sets_and_clears_carry() {
    let mut cpu = CPU::new();
    cpu.set_register(0, 200);
    cpu.set_register(1, 100);
    cpu.add_xy(0, 1);
    assert_eq!(cpu.register(0), 44);
    assert_eq!(cpu.register(0xF), 1);

    let mut cpu2 = CPU::new();
    cpu2.set_register(0, 5);
    cpu2.set_register(1, 10);
    cpu2.add_xy(0, 1);
    assert_eq!(cpu2.register(0), 15);
    assert_eq!(cpu2.register(0xF), 0);
}

#[test]
fn bitwise_ops() {
    let mut cpu = CPU::new();
    cpu.set_register(0, 0b1100);
    cpu.set_register(1, 0b1010);
    cpu.and_xy(0, 1);
    assert_eq!(cpu.register(0), 0b1000);

    cpu.set_register(2, 0b1100);
    cpu.set_register(3, 0b1010);
    cpu.or_xy(2, 3);
    assert_eq!(cpu.register(2), 0b1110);

    cpu.set_register(4, 0b1100);
    cpu.set_register(5, 0b1010);
    cpu.xor_xy(4, 5);
    assert_eq!(cpu.register(4), 0b0110);
}

#[test]
fn run_adds_through_two_subroutine_calls() {
    // 5 + (5 + 10) via two calls of a subroutine that adds register 1 into
    // register 0 twice and returns.
    let mut cpu = CPU::new();
    cpu.set_register(0, 5);
    cpu.set_register(1, 10);

    cpu.write_memory(0x000, 0x21);
    cpu.write_memory(0x001, 0x00);
    cpu.write_memory(0x002, 0x21);
    cpu.write_memory(0x003, 0x00);

    cpu.write_memory(0x100, 0x80);
    cpu.write_memory(0x101, 0x14);
    cpu.write_memory(0x102, 0x80);
    cpu.write_memory(0x103, 0x14);
    cpu.write_memory(0x104, 0x00);
    cpu.write_memory(0x105, 0xEE);

    let outcome = cpu.run(1_000);
    assert_eq!(outcome, RunOutcome::Halted);
    assert_eq!(cpu.register(0), 45);
}

#[test]
fn run_halts_immediately_on_zero_opcode() {
    let mut cpu = CPU::new();
    assert_eq!(cpu.run(10), RunOutcome::Halted);
}

#[test]
fn run_faults_on_unknown_opcode() {
    let mut cpu = CPU::new();
    cpu.write_memory(0, 0x90);
    assert_eq!(cpu.run(10), RunOutcome::Fault);
}

#[test]
fn run_out_of_steps_on_tight_loop() {
    let mut cpu = CPU::new();
    // Jump to address 0 forever.
    cpu.write_memory(0, 0x10);
    cpu.write_memory(1, 0x00);
    assert_eq!(cpu.run(100), RunOutcome::OutOfSteps);
}

#[test]
fn run_faults_on_return_with_empty_stack() {
    let mut cpu = CPU::new();
    cpu.write_memory(0, 0x00);
    cpu.write_memory(1, 0xEE);
    assert_eq!(cpu.run(10), RunOutcome::Fault);
}

#[test]
fn skip_if_equal_compares_its_operands() {
    // Opcode 0x3505 hands the dispatcher x == 5 and kk == 5: equal, so the
    // following load is skipped and register 0 keeps its value.
    let mut cpu = CPU::new();
    cpu.write_memory(0, 0x35);
    cpu.write_memory(1, 0x05);
    cpu.write_memory(2, 0x60);
    cpu.write_memory(3, 0x77);
    assert_eq!(cpu.run(10), RunOutcome::Halted);
    assert_eq!(cpu.register(0), 0);

    // With kk == 4 the operands differ, the load runs.
    let mut cpu2 = CPU::new();
    cpu2.write_memory(0, 0x35);
    cpu2.write_memory(1, 0x04);
    cpu2.write_memory(2, 0x60);
    cpu2.write_memory(3, 0x77);
    assert_eq!(cpu2.run(10), RunOutcome::Halted);
    assert_eq!(cpu2.register(0), 0x77);
}

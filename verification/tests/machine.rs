use hardware::alu::alu;
use hardware::computer::Computer;
use hardware::cpu::CPU;
use hardware::dff::Clock;
use hardware::logic::bit::{I, O};
use hardware::logic::{bit, Word};
use hardware::util::ParseError;

#[test]
fn for_alu() {
    assert_eq!(
        alu(
            Word::new([O, O, O, O, O, O, O, O, O, O, O, O, O, O, O, O]),
            Word::new([I, I, I, I, I, I, I, I, I, I, I, I, I, I, I, I]),
            I,
            O,
            I,
            O,
            I,
            O
        ),
        (Word::new([O, O, O, O, O, O, O, O, O, O, O, O, O, O, O, O]), I, O)
    );
    assert_eq!(
        alu(
            Word::new([O, O, O, O, O, O, O, O, O, O, O, O, O, O, O, O]),
            Word::new([I, I, I, I, I, I, I, I, I, I, I, I, I, I, I, I]),
            I,
            I,
            I,
            I,
            I,
            I
        ),
        (Word::new([O, O, O, O, O, O, O, O, O, O, O, O, O, O, O, I]), O, O)
    );
    assert_eq!(
        alu(
            Word::new([O, O, O, O, O, O, O, O, O, O, O, O, O, O, O, O]),
            Word::new([I, I, I, I, I, I, I, I, I, I, I, I, I, I, I, I]),
            O,
            I,
            O,
            O,
            I,
            I
        ),
        (Word::new([O, O, O, O, O, O, O, O, O, O, O, O, O, O, O, I]), O, O)
    );
    assert_eq!(
        alu(
            Word::new([O, O, O, O, O, O, O, O, O, O, O, I, O, O, O, I]),
            Word::new([O, O, O, O, O, O, O, O, O, O, O, O, O, O, I, I]),
            I,
            O,
            I,
            O,
            I,
            O
        ),
        (Word::new([O, O, O, O, O, O, O, O, O, O, O, O, O, O, O, O]), I, O)
    );
    assert_eq!(
        alu(
            Word::new([O, O, O, O, O, O, O, O, O, O, O, I, O, O, O, I]),
            Word::new([O, O, O, O, O, O, O, O, O, O, O, O, O, O, I, I]),
            O,
            O,
            I,
            I,
            O,
            O
        ),
        (Word::new([O, O, O, O, O, O, O, O, O, O, O, I, O, O, O, I]), O, O)
    );
    assert_eq!(
        alu(
            Word::new([O, O, O, O, O, O, O, O, O, O, O, I, O, O, O, I]),
            Word::new([O, O, O, O, O, O, O, O, O, O, O, O, O, O, I, I]),
            O,
            O,
            I,
            I,
            I,
            I
        ),
        (Word::new([I, I, I, I, I, I, I, I, I, I, I, O, I, I, I, I]), O, I)
    );
    assert_eq!(
        alu(
            Word::new([O, O, O, O, O, O, O, O, O, O, O, I, O, O, O, I]),
            Word::new([O, O, O, O, O, O, O, O, O, O, O, O, O, O, I, I]),
            O,
            O,
            I,
            I,
            I,
            O
        ),
        (Word::new([O, O, O, O, O, O, O, O, O, O, O, I, O, O, O, O]), O, O)
    );
    assert_eq!(
        alu(
            Word::new([O, O, O, O, O, O, O, O, O, O, O, I, O, O, O, I]),
            Word::new([O, O, O, O, O, O, O, O, O, O, O, O, O, O, I, I]),
            I,
            I,
            O,
            O,
            O,
            O
        ),
        (Word::new([O, O, O, O, O, O, O, O, O, O, O, O, O, O, I, I]), O, O)
    );
}

/// The eighteen canonical control settings compute the documented function
/// list, with the right zero and negative flags.
#[test]
fn alu_control_table() {
    let x: u16 = 5;
    let y: u16 = 3;
    let cases: [([bit; 6], u16); 18] = [
        ([I, O, I, O, I, O], 0),
        ([I, I, I, I, I, I], 1),
        ([I, I, I, O, I, O], 0xFFFF),
        ([O, O, I, I, O, O], x),
        ([I, I, O, O, O, O], y),
        ([O, O, I, I, O, I], !x),
        ([I, I, O, O, O, I], !y),
        ([O, O, I, I, I, I], x.wrapping_neg()),
        ([I, I, O, O, I, I], y.wrapping_neg()),
        ([O, I, I, I, I, I], x.wrapping_add(1)),
        ([I, I, O, I, I, I], y.wrapping_add(1)),
        ([O, O, I, I, I, O], x.wrapping_sub(1)),
        ([I, I, O, O, I, O], y.wrapping_sub(1)),
        ([O, O, O, O, I, O], x.wrapping_add(y)),
        ([O, I, O, O, I, I], x.wrapping_sub(y)),
        ([O, O, O, I, I, I], y.wrapping_sub(x)),
        ([O, O, O, O, O, O], x & y),
        ([O, I, O, I, O, I], x | y),
    ];
    for (c, expected) in cases {
        let (out, zr, ng) = alu(
            Word::from_value(x),
            Word::from_value(y),
            c[0],
            c[1],
            c[2],
            c[3],
            c[4],
            c[5],
        );
        assert_eq!(out.value(), expected);
        assert_eq!(zr, if expected == 0 { I } else { O });
        assert_eq!(ng, if expected >= 0x8000 { I } else { O });
    }
}

#[test]
fn for_cpu() {
    let mut clock = Clock::new();
    let mut cpu = CPU::new();

    let word0 = Word::new([O, O, O, O, O, O, O, O, O, O, O, O, O, O, O, O]);
    let word1 = Word::new([I, I, I, I, I, I, I, I, I, I, I, I, I, I, I, I]);

    let (out_m, write_m, address_m, pc) = cpu.run(
        &clock,
        word0,
        Word::new([O, O, I, I, O, O, O, O, O, O, I, I, I, O, O, I]),
        O,
    );
    assert_eq!(out_m, word0);
    assert_eq!(write_m, O);
    assert_eq!(address_m, [O, I, I, O, O, O, O, O, O, I, I, I, O, O, I]);
    assert_eq!(pc, [O, O, O, O, O, O, O, O, O, O, O, O, O, O, I]);

    clock.next();
    clock.next();

    let (out_m, write_m, address_m, pc) = cpu.run(
        &clock,
        word0,
        Word::new([I, I, I, O, I, I, O, O, O, O, O, I, O, O, O, O]),
        O,
    );
    assert_eq!(out_m, Word::new([O, O, I, I, O, O, O, O, O, O, I, I, I, O, O, I]));
    assert_eq!(write_m, O);
    assert_eq!(address_m, [O, I, I, O, O, O, O, O, O, I, I, I, O, O, I]);
    assert_eq!(pc, [O, O, O, O, O, O, O, O, O, O, O, O, O, I, O]);
    assert_eq!(
        cpu.a_register.output(&clock),
        Word::new([O, O, I, I, O, O, O, O, O, O, I, I, I, O, O, I])
    );

    clock.next();
    clock.next();

    let (out_m, write_m, address_m, pc) = cpu.run(
        &clock,
        word0,
        Word::new([I, I, I, O, I, I, O, O, O, O, O, I, O, O, O, O]),
        O,
    );
    assert_eq!(out_m, Word::new([O, O, I, I, O, O, O, O, O, O, I, I, I, O, O, I]));
    assert_eq!(write_m, O);
    assert_eq!(address_m, [O, I, I, O, O, O, O, O, O, I, I, I, O, O, I]);
    assert_eq!(pc, [O, O, O, O, O, O, O, O, O, O, O, O, O, I, I]);
    assert_eq!(
        cpu.a_register.output(&clock),
        Word::new([O, O, I, I, O, O, O, O, O, O, I, I, I, O, O, I])
    );

    clock.next();
    clock.next();

    let (out_m, write_m, address_m, pc) = cpu.run(
        &clock,
        word1,
        Word::new([I, I, I, I, O, I, O, O, I, I, O, I, O, O, O, O]),
        O,
    );
    assert_eq!(out_m, Word::new([O, O, I, I, O, O, O, O, O, O, I, I, I, O, I, O]));
    assert_eq!(write_m, O);
    assert_eq!(address_m, [O, I, I, O, O, O, O, O, O, I, I, I, O, O, I]);
    assert_eq!(pc, [O, O, O, O, O, O, O, O, O, O, O, O, I, O, O]);
    assert_eq!(
        cpu.a_register.output(&clock),
        Word::new([O, O, I, I, O, O, O, O, O, O, I, I, I, O, O, I])
    );

    clock.next();
    clock.next();

    let (out_m, write_m, address_m, pc) = cpu.run(
        &clock,
        word1,
        Word::new([I, I, I, I, O, I, O, O, I, I, O, I, O, O, O, O]),
        I,
    );
    assert_eq!(out_m, Word::new([O, O, I, I, O, O, O, O, O, O, I, I, I, O, I, I]));
    assert_eq!(write_m, O);
    assert_eq!(address_m, [O, I, I, O, O, O, O, O, O, I, I, I, O, O, I]);
    assert_eq!(pc, [O, O, O, O, O, O, O, O, O, O, O, O, O, O, O]);
    assert_eq!(
        cpu.a_register.output(&clock),
        Word::new([O, O, I, I, O, O, O, O, O, O, I, I, I, O, O, I])
    );
}

/// With the flags reporting a negative result, a jump requested on
/// "negative" loads the counter from the A register, while the same state
/// with a jump requested only on "positive" merely increments it.
#[test]
fn cpu_jump_priority_scenario() {
    let at_5 = Word::from_binary("0000000000000101").unwrap();
    let d_minus_one = Word::from_binary("1110111010010000").unwrap();
    let jump_if_negative = Word::from_binary("1110001100000100").unwrap();
    let jump_if_positive = Word::from_binary("1110001100000001").unwrap();
    let zero = Word::new([O; 16]);

    let mut clock = Clock::new();
    let mut cpu = CPU::new();
    cpu.run(&clock, zero, at_5, O);
    clock.next();
    clock.next();
    cpu.run(&clock, zero, d_minus_one, O);
    clock.next();
    clock.next();
    let (_, _, _, pc) = cpu.run(&clock, zero, jump_if_negative, O);
    assert_eq!(pc, [O, O, O, O, O, O, O, O, O, O, O, O, I, O, I]);

    let mut clock = Clock::new();
    let mut cpu = CPU::new();
    cpu.run(&clock, zero, at_5, O);
    clock.next();
    clock.next();
    cpu.run(&clock, zero, d_minus_one, O);
    clock.next();
    clock.next();
    let (_, _, _, pc) = cpu.run(&clock, zero, jump_if_positive, O);
    assert_eq!(pc, [O, O, O, O, O, O, O, O, O, O, O, O, O, I, I]);
}

fn assemble(lines: &[&str]) -> Vec<Word> {
    let mut program: Vec<Word> = Vec::new();
    for line in lines {
        program.push(Word::from_binary(line).unwrap());
    }
    program
}

#[test]
fn for_computer_add() {
    // R0 = 2 + 3.
    let program = assemble(&[
        "0000000000000010", // value 2 into A
        "1110110000010000", // D = A
        "0000000000000011", // value 3 into A
        "1110000010010000", // D = D + A
        "0000000000000000", // address 0 into A
        "1110001100001000", // M[0] = D
    ]);
    let mut computer = Computer::new();
    let cycles = computer.run(&program, false, 64);
    assert_eq!(cycles, Some(6));
    let r0 = computer.memory_out("000000000000000").unwrap();
    assert_eq!(r0, Word::from_binary("0000000000000101").unwrap());
}

#[test]
fn for_computer_max() {
    // R0 = 67, R1 = 3, then R2 = max(R0, R1).
    let program = assemble(&[
        "0000000001000011", // value 67 into A
        "1110110000010000", // D = A
        "0000000000000000", // address 0 into A
        "1110001100001000", // M[0] = D
        "0000000000000011", // value 3 into A
        "1110110000010000", // D = A
        "0000000000000001", // address 1 into A
        "1110001100001000", // M[1] = D
        "0000000000000000", // address 0 into A
        "1111110000010000", // D = M[0]
        "0000000000000001", // address 1 into A
        "1111010011010000", // D = D - M[1]
        "0000000000010010", // address 18 into A
        "1110001100000001", // jump there if D > 0
        "0000000000000001", // address 1 into A
        "1111110000010000", // D = M[1]
        "0000000000010100", // address 20 into A
        "1110101010000111", // jump there
        "0000000000000000", // address 0 into A
        "1111110000010000", // D = M[0]
        "0000000000000010", // address 2 into A
        "1110001100001000", // M[2] = D
    ]);
    let mut computer = Computer::new();
    let cycles = computer.run(&program, false, 64);
    assert!(cycles.is_some());
    let r2 = computer.memory_out("000000000000010").unwrap();
    assert_eq!(r2, Word::from_binary("0000000001000011").unwrap());
}

#[test]
fn for_computer_max2() {
    // R0 = 3, R1 = 195, then R2 = max(R0, R1): the other branch is taken.
    let program = assemble(&[
        "0000000000000011", // value 3 into A
        "1110110000010000", // D = A
        "0000000000000000", // address 0 into A
        "1110001100001000", // M[0] = D
        "0000000011000011", // value 195 into A
        "1110110000010000", // D = A
        "0000000000000001", // address 1 into A
        "1110001100001000", // M[1] = D
        "0000000000000000", // address 0 into A
        "1111110000010000", // D = M[0]
        "0000000000000001", // address 1 into A
        "1111010011010000", // D = D - M[1]
        "0000000000010010", // address 18 into A
        "1110001100000001", // jump there if D > 0
        "0000000000000001", // address 1 into A
        "1111110000010000", // D = M[1]
        "0000000000010100", // address 20 into A
        "1110101010000111", // jump there
        "0000000000000000", // address 0 into A
        "1111110000010000", // D = M[0]
        "0000000000000010", // address 2 into A
        "1110001100001000", // M[2] = D
    ]);
    let mut computer = Computer::new();
    let cycles = computer.run(&program, false, 64);
    assert!(cycles.is_some());
    let r2 = computer.memory_out("000000000000010").unwrap();
    assert_eq!(r2, Word::from_binary("0000000011000011").unwrap());
}

/// With the reset line held, the counter is forced to zero at every latch:
/// only the instruction at address zero ever executes, whatever the program
/// encodes, so the store into R0 never runs and the cycle budget is the only
/// way out.
#[test]
fn for_computer_reset() {
    let program = assemble(&[
        "0000000000000111", // value 7 into A
        "1110110000010000", // D = A
        "0000000000000000", // address 0 into A
        "1110001100001000", // M[0] = D
    ]);
    let mut computer = Computer::new();
    let cycles = computer.run(&program, true, 8);
    assert_eq!(cycles, None);
    assert_eq!(computer.memory_out("000000000000000").unwrap(), Word::new([O; 16]));

    let mut computer = Computer::new();
    let cycles = computer.run(&program, false, 8);
    assert_eq!(cycles, Some(4));
    assert_eq!(
        computer.memory_out("000000000000000").unwrap(),
        Word::from_binary("0000000000000111").unwrap()
    );
}

#[test]
fn memory_out_rejects_bad_address() {
    let computer = Computer::new();
    assert_eq!(computer.memory_out("0101"), Err(ParseError::WrongLength));
    assert_eq!(computer.memory_out("00000000000000a"), Err(ParseError::BadCharacter));
    assert!(computer.memory_out("000000000000000").is_ok());
}

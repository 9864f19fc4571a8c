use asim::{compile, Command, Instruction, Runtime};

fn run(runtime: &mut Runtime, budget: usize) {
    let mut counter = 0;
    loop {
        if counter >= budget {
            panic!("To many interations. Infinit loop fail save actived; {:#?}", runtime);
        }
        assert!(runtime.can_tick(), "{:#?}", runtime);
        let running = runtime.tick();
        counter += 1;
        if !running {
            break;
        }
    }
}

fn multiplication(a: usize, b: usize, c: usize, d: usize) -> Vec<Command> {
    vec![
        // Prepare the registers
        Command::new(Instruction::LoadFix, a, 0),           // 0
        Command::new(Instruction::SaveToRegister, 12, 1),   // 1
        Command::new(Instruction::LoadFix, b, 2),           // 2
        Command::new(Instruction::SaveToRegister, 13, 3),   // 3
        Command::new(Instruction::LoadFix, c, 4),           // 4
        Command::new(Instruction::SaveToRegister, 14, 5),   // 5
        Command::new(Instruction::LoadFix, d, 6),           // 6
        Command::new(Instruction::SaveToRegister, 15, 7),   // 7
        //
        Command::new(Instruction::LoadFromRegister, 13, 8), // 8
        Command::new(Instruction::AddFromRegister, 15, 9),  // 9
        Command::new(Instruction::BRC, 4, 10),              // 10
        Command::new(Instruction::SaveToRegister, 15, 1),   // 11
        Command::new(Instruction::LoadFix, 0, 2),           // 12
        Command::new(Instruction::JMP, 16, 3),              // 13
        Command::new(Instruction::SaveToRegister, 15, 4),   // 14
        Command::new(Instruction::LoadFix, 1, 5),           // 15
        Command::new(Instruction::AddFromRegister, 12, 6),  // 16
        Command::new(Instruction::AddFromRegister, 14, 7),  // 17
        Command::new(Instruction::SaveToRegister, 14, 8),   // 18
        Command::new(Instruction::NOP, 0, 9),               // 19
    ]
}

#[test]
fn test_processor_01() {
    let ram = multiplication(2, 3, 4, 5);

    let mut runtime = Runtime::new(16, ram.clone());
    run(&mut runtime, 100);

    assert!(runtime.get_register_value(14) == 6, "{:#?}", runtime);
    assert!(runtime.get_register_value(15) == 8, "{:#?}", runtime);
}

#[test]
fn test_processor_02() {
    let ram = multiplication(2, 8, 1, 9);

    let mut runtime = Runtime::new(16, ram.clone());
    run(&mut runtime, 100);

    assert!(runtime.get_register_value(14) == 4, "{:#?}", runtime);
    assert!(runtime.get_register_value(15) == 1, "{:#?}", runtime);
}

#[test]
fn tick_reports_the_end_and_next_line_becomes_the_length() {
    let ram = vec![
        Command::new(Instruction::LoadFix, 1, 3),
        Command::new(Instruction::NOP, 0, 5),
    ];
    let mut runtime = Runtime::new(2, ram);
    assert_eq!(runtime.get_next_line(), 3);
    assert!(runtime.tick());
    assert_eq!(runtime.get_next_line(), 5);
    assert!(!runtime.tick());
    assert_eq!(runtime.get_next_line(), 2);
    assert!(!runtime.can_tick());
}

#[test]
fn jump_past_the_end_stops_the_machine() {
    let mut runtime = Runtime::new(1, vec![Command::new(Instruction::JMP, 7, 0)]);
    assert!(!runtime.tick());
    assert_eq!(runtime.get_next_line(), 1);
}

#[test]
fn branches_follow_the_flags_of_the_accumulator() {
    let ram = vec![
        Command::new(Instruction::LoadFix, 0, 0),
        Command::new(Instruction::BRZ, 2, 1),
        Command::new(Instruction::NOP, 0, 2),
        Command::new(Instruction::SubFix, 1, 3),
        Command::new(Instruction::BRN, 2, 4),
        Command::new(Instruction::NOP, 0, 5),
        Command::new(Instruction::BRC, 2, 6),
        Command::new(Instruction::SaveToRegister, 0, 7),
    ];
    let mut runtime = Runtime::new(1, ram);
    let mut lines = vec![runtime.get_next_line()];
    while runtime.tick() {
        lines.push(runtime.get_next_line());
    }
    // BRZ jumps over line 2, BRN over line 5, BRC does not jump after 0 - 1
    assert_eq!(lines, vec![0, 1, 3, 4, 6, 7]);
    assert_eq!(runtime.get_accumulator().get_value(), 15);
    assert!(runtime.get_register_value(0) == 15);
    let bits = runtime.get_status_bits();
    assert!(!bits.carry);
    assert!(bits.negative);
    assert!(!bits.zero);
}

#[test]
fn registers_start_at_zero_and_take_stored_values() {
    let ram = vec![
        Command::new(Instruction::LoadFix, 9, 0),
        Command::new(Instruction::SaveToRegister, 2, 1),
        Command::new(Instruction::AddFromRegister, 2, 2),
        Command::new(Instruction::SubFromRegister, 0, 3),
        Command::new(Instruction::LoadFromRegister, 2, 4),
    ];
    let mut runtime = Runtime::new(3, ram);
    assert_eq!(runtime.get_register().len(), 3);
    assert!(runtime.get_register().iter().all(|n| *n == 0));
    run(&mut runtime, 10);
    let registers: Vec<u8> = runtime.get_register().iter().map(|n| n.get_value()).collect();
    assert_eq!(registers, vec![0, 0, 9]);
    assert_eq!(runtime.get_accumulator().get_value(), 9);
}

#[test]
fn compiled_program_runs_to_completion() {
    let code = "
    LDA #3
start:
    BRZ 4
    STA (1)
    SUB #1
    JMP start
    NOP
";
    let commands = compile(code).unwrap();
    let mut runtime = Runtime::new(16, commands);
    run(&mut runtime, 100);
    assert!(runtime.get_register_value(1) == 1);
    assert!(runtime.get_accumulator().is_zero());
    assert_eq!(runtime.get_next_line(), 6);
}

#[test]
fn default_machine_is_empty_and_stopped() {
    let runtime = Runtime::default();
    assert!(runtime.get_register().is_empty());
    assert_eq!(runtime.get_next_line(), 0);
    assert!(!runtime.can_tick());
    assert_eq!(runtime.get_accumulator().get_value(), 0);
}

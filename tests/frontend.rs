use asim::commands::{get_instruction_attribute, lookup_mnemonic, Mnemonic};
use asim::{compile, Command, Instruction, ParseErrorReport, ParseErrorType};

fn kinds(report: &ParseErrorReport) -> Vec<ParseErrorType> {
    report.errors.iter().map(|e| e.kind).collect()
}

fn errors_of(code: &str) -> ParseErrorReport {
    match compile(code) {
        Ok(commands) => panic!("expected errors, got {:?}", commands),
        Err(report) => report,
    }
}

#[test]
fn test_single_line_compile() {
    let code = "
low: 
     ADD (2)
     ADD (15) // test
     BRC 1
up:  STA (15)
     LDA #2
     JMP 0
";

    let expected_commands = vec![
        Command::new(Instruction::AddFromRegister, 2, 2),
        Command::new(Instruction::AddFromRegister, 15, 3),
        Command::new(Instruction::BRC, 1, 4),
        Command::new(Instruction::SaveToRegister, 15, 5),
        Command::new(Instruction::LoadFix, 2, 6),
        Command::new(Instruction::JMP, 0, 7),
    ];

    let result = compile(&code);

    match result {
        Ok(commands) => {
            assert_eq!(expected_commands, commands)
        }
        Err(err) => panic!("{:#?}", err),
    }
}

#[test]
fn test_compile_single_line() {
    let code = "ADD #1";
    let expected_command = vec![Command::new(Instruction::AddFix, 1, 0)];

    let result = compile(&code);

    match result {
        Ok(commands) => {
            assert_eq!(expected_command, commands)
        }
        Err(err) => panic!("{:#?}", err),
    }
}

#[test]
fn test_empty_line_compile() {
    let code = "";
    let expected_command: Vec<Command> = vec![];

    let result = compile(&code);

    match result {
        Ok(commands) => {
            assert_eq!(expected_command, commands)
        }
        Err(err) => panic!("{:#?}", err),
    }
}

#[test]
fn test_compile_invalid_multi_line_code() {
    let code = "
ADD #2 ADD #3
";

    assert!(
        compile(&code).is_err(),
        "Expected compilation to fail for multi-line instructions"
    );
}

#[test]
fn test_compile_optional_operant() {
    let code = "
ADD #1
NOP";
    // one command for each of the two instruction lines
    let expected_commands = vec![
        Command::new(Instruction::AddFix, 1, 1),
        Command::new(Instruction::NOP, 0, 2),
    ];

    let result = compile(code);

    match result {
        Ok(commands) => {
            assert_eq!(expected_commands, commands)
        }
        Err(err) => panic!("{:#?}", err),
    }
}

#[test]
fn add_then_store_compiles_to_two_commands() {
    let commands = compile("ADD #1\nSTA (1)\n").unwrap();
    assert_eq!(
        commands,
        vec![
            Command::new(Instruction::AddFix, 1, 0),
            Command::new(Instruction::SaveToRegister, 1, 1),
        ]
    );
}

#[test]
fn each_plain_line_gives_one_command_on_its_line() {
    let commands = compile("LDA #3\nSUB (4)\nBRN 2\nBRZ #1\nNOP\n").unwrap();
    assert_eq!(commands.len(), 5);
    for (i, c) in commands.iter().enumerate() {
        assert_eq!(c.line, i);
    }
    assert_eq!(commands[1], Command::new(Instruction::SubFromRegister, 4, 1));
    assert_eq!(commands[2], Command::new(Instruction::BRN, 2, 2));
}

#[test]
fn labels_resolve_forward_and_backward_to_the_same_index() {
    let code = "JMP target\nNOP\ntarget: LDA #1\nJMP target\n";
    let commands = compile(code).unwrap();
    assert_eq!(commands[0], Command::new(Instruction::JMP, 2, 0));
    assert_eq!(commands[3], Command::new(Instruction::JMP, 2, 3));
}

#[test]
fn label_on_its_own_line_marks_the_next_command() {
    let code = "start:\n\n  SUB #1\n  JMP start\n";
    let commands = compile(code).unwrap();
    assert_eq!(commands[0], Command::new(Instruction::SubFix, 1, 2));
    assert_eq!(commands[1], Command::new(Instruction::JMP, 0, 3));
}

#[test]
fn redefined_label_is_reported_once_and_other_lines_stay_clean() {
    let code = "a: NOP\nADD #1\na: NOP\nSTA (2)\n";
    let report = errors_of(code);
    assert_eq!(kinds(&report), vec![ParseErrorType::LabelReassign]);
    let error = &report.errors[0];
    assert_eq!(error.line.number, 2);
    assert_eq!(error.line.value, "a: NOP");
    assert_eq!((error.start, error.end), (0, 1));
}

#[test]
fn fixed_operand_on_store_is_not_allowed() {
    let report = errors_of("STA #5");
    assert_eq!(kinds(&report), vec![ParseErrorType::NotAllowedFixNumber]);
    assert_eq!((report.errors[0].start, report.errors[0].end), (4, 5));
    assert_eq!(report.errors[0].line.value, "STA #5");
}

#[test]
fn each_error_kind_of_the_parser() {
    assert_eq!(kinds(&errors_of("ADD\n")), vec![ParseErrorType::MissingOperant]);
    assert_eq!(kinds(&errors_of("#1\n")), vec![ParseErrorType::MissingInstruction]);
    assert_eq!(kinds(&errors_of("x:\n")), vec![ParseErrorType::MissingInstruction]);
    assert_eq!(kinds(&errors_of("ADD (2\n")), vec![ParseErrorType::MissingParenthesisClose]);
    assert_eq!(kinds(&errors_of("ADD #x\n")), vec![ParseErrorType::InvalidFixNumber]);
    assert_eq!(kinds(&errors_of("ADD ()\n")), vec![ParseErrorType::InvalidAddress]);
    assert_eq!(kinds(&errors_of("FOO 1\n")), vec![ParseErrorType::InvalidInstruction]);
    assert_eq!(kinds(&errors_of("NOP 1\n")), vec![ParseErrorType::InvalidToken]);
    assert_eq!(kinds(&errors_of("JMP (1)\n")), vec![ParseErrorType::NotAllowedAddress]);
    assert_eq!(kinds(&errors_of("STA 1\n")), vec![ParseErrorType::NotAllowedFixNumber]);
    assert_eq!(kinds(&errors_of("BRZ here\n")), vec![ParseErrorType::NotAllowedLabel]);
}

#[test]
fn each_error_kind_of_the_resolver() {
    assert_eq!(kinds(&errors_of("JMP nowhere\n")), vec![ParseErrorType::MissingLabel]);
    assert_eq!(
        kinds(&errors_of("LDA #99999999999999999999999\n")),
        vec![ParseErrorType::InvalidOperant]
    );
}

#[test]
fn every_malformed_line_is_reported_in_order() {
    let report = errors_of("ADD\nLDA #1\nFOO\nSTA #2 3\n");
    assert_eq!(
        kinds(&report),
        vec![
            ParseErrorType::MissingOperant,
            ParseErrorType::InvalidInstruction,
            ParseErrorType::NotAllowedFixNumber,
        ]
    );
    let lines: Vec<usize> = report.errors.iter().map(|e| e.line.number).collect();
    assert_eq!(lines, vec![0, 2, 3]);
    assert_eq!(report.errors[1].line.value, "FOO");
}

#[test]
fn trailing_tokens_are_each_reported() {
    let report = errors_of("  ADD #2 ADD #3\n");
    assert_eq!(kinds(&report), vec![ParseErrorType::InvalidToken; 3]);
    assert_eq!(report.errors[0].line.value, "  ADD #2 ADD #3");
    assert_eq!((report.errors[0].start, report.errors[0].end), (9, 12));
}

#[test]
fn mnemonics_ignore_case_and_comments_end_lines() {
    let commands = compile("lda #4 // four\nAdD (3)\n").unwrap();
    assert_eq!(
        commands,
        vec![
            Command::new(Instruction::LoadFix, 4, 0),
            Command::new(Instruction::AddFromRegister, 3, 1),
        ]
    );
}

#[test]
fn commands_print_in_source_form() {
    let texts: Vec<String> = vec![
        Command::new(Instruction::NOP, 0, 0),
        Command::new(Instruction::LoadFix, 3, 0),
        Command::new(Instruction::LoadFromRegister, 12, 0),
        Command::new(Instruction::SaveToRegister, 15, 0),
        Command::new(Instruction::SubFix, 0, 0),
        Command::new(Instruction::JMP, 107, 0),
        Command::new(Instruction::BRC, 4, 0),
    ]
    .iter()
    .map(|c| c.text())
    .collect();
    assert_eq!(texts, vec!["NOP", "LDA #3", "LDA (12)", "STA (15)", "SUB #0", "JMP 107", "BRC #4"]);
}

#[test]
fn printed_commands_compile_back() {
    let commands = compile("LDA #3\nADD (2)\nBRN 2\nJMP 0\n").unwrap();
    let text: Vec<String> = commands.iter().map(|c| c.text()).collect();
    assert_eq!(compile(&text.join("\n")).unwrap(), commands);
}

#[test]
fn error_kinds_have_messages() {
    assert_eq!(ParseErrorType::MissingOperant.message(), "Missing operand.");
    assert_eq!(ParseErrorType::LabelReassign.message(), "Label reassignment not allowed.");
    let report = errors_of("STA #5");
    assert_eq!(report.errors[0].kind.message(), "Not allowed fix number.");
}

#[test]
fn mnemonics_follow_unicode_upper_case() {
    // U+017F, the long s, upper-cases to S
    let commands = compile("\u{17f}ta (1)\n").unwrap();
    assert_eq!(commands, vec![Command::new(Instruction::SaveToRegister, 1, 0)]);
}

#[test]
fn table_lookup_takes_upper_case_names() {
    let upper: Vec<char> = "JMP".chars().collect();
    let lower: Vec<char> = "jmp".chars().collect();
    let attr = lookup_mnemonic(&upper).unwrap();
    assert_eq!(attr.mnemonic, Mnemonic::Jmp);
    assert!(attr.allow_fixed_number() && attr.allow_label() && !attr.allow_address());
    assert!(lookup_mnemonic(&lower).is_none());
    assert_eq!(get_instruction_attribute(&lower), Some(attr));
    let nop: Vec<char> = "nop".chars().collect();
    assert!(get_instruction_attribute(&nop).unwrap().allow_no_operant());
}

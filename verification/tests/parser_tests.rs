use masm::ir;
use masm::lexer::Keyword;
use masm::parser::{parser, ParserError};

#[test]
fn parse_all_instructions() {
    let lexed = vec![
        Keyword::mmenonic("ldc", 0),
        Keyword::register_address("reg0", 0),
        Keyword::constant("0x00", 0, 0),
        Keyword::mmenonic("ldc", 1),
        Keyword::register_address("reg7", 1),
        Keyword::constant("-0x01", 1u16.wrapping_neg(), 1),
        Keyword::mmenonic("ldc", 2),
        Keyword::register_address("regA", 2),
        Keyword::constant("42", 42, 2),
        Keyword::mmenonic("ldc", 3),
        Keyword::register_address("regH", 3),
        Keyword::constant("-1337", 1337u16.wrapping_neg(), 3),
        Keyword::mmenonic("add", 4),
        Keyword::register_address("reg0", 4),
        Keyword::register_address("reg1", 4),
        Keyword::register_address("reg2", 4),
        Keyword::mmenonic("add3", 5),
        Keyword::register_address("reg3", 5),
        Keyword::register_address("reg4", 5),
        Keyword::register_address("reg5", 5),
        Keyword::register_address("reg6", 5),
        Keyword::mmenonic("addc", 6),
        Keyword::register_address("regB", 6),
        Keyword::register_address("regC", 6),
        Keyword::register_address("regD", 6),
        Keyword::mmenonic("sub", 7),
        Keyword::register_address("regE", 7),
        Keyword::register_address("regF", 7),
        Keyword::register_address("regG", 7),
        Keyword::mmenonic("subc", 8),
        Keyword::register_address("reg0", 8),
        Keyword::register_address("reg0", 8),
        Keyword::register_address("reg0", 8),
        Keyword::mmenonic("inc", 9),
        Keyword::register_address("reg0", 9),
        Keyword::mmenonic("dec", 10),
        Keyword::register_address("reg0", 10),
        Keyword::mmenonic("mul", 11),
        Keyword::register_address("reg0", 11),
        Keyword::register_address("reg0", 11),
        Keyword::register_address("reg0", 11),
        Keyword::mmenonic("and", 12),
        Keyword::register_address("reg0", 12),
        Keyword::register_address("reg0", 12),
        Keyword::register_address("reg0", 12),
        Keyword::mmenonic("or", 13),
        Keyword::register_address("reg0", 13),
        Keyword::register_address("reg0", 13),
        Keyword::register_address("reg0", 13),
        Keyword::mmenonic("not", 14),
        Keyword::register_address("reg0", 14),
        Keyword::register_address("reg0", 14),
        Keyword::mmenonic("neg", 15),
        Keyword::register_address("reg0", 15),
        Keyword::register_address("reg0", 15),
        Keyword::mmenonic("xor", 16),
        Keyword::register_address("reg0", 16),
        Keyword::register_address("reg0", 16),
        Keyword::register_address("reg0", 16),
        Keyword::mmenonic("xnor", 17),
        Keyword::register_address("reg0", 17),
        Keyword::register_address("reg0", 17),
        Keyword::register_address("reg0", 17),
        Keyword::mmenonic("shl", 18),
        Keyword::register_address("reg0", 18),
        Keyword::register_address("reg0", 18),
        Keyword::register_address("reg0", 18),
        Keyword::mmenonic("shr", 19),
        Keyword::register_address("reg0", 19),
        Keyword::register_address("reg0", 19),
        Keyword::register_address("reg0", 19),
        Keyword::mmenonic("tst", 20),
        Keyword::register_address("reg0", 20),
        Keyword::register_address("reg0", 20),
        Keyword::mmenonic("mov", 21),
        Keyword::register_address("reg0", 21),
        Keyword::register_address("reg0", 21),
        Keyword::mmenonic("jmp", 22),
        Keyword::register_address("reg0", 22),
        Keyword::mmenonic("jz", 23),
        Keyword::register_address("reg0", 23),
        Keyword::mmenonic("jnz", 24),
        Keyword::register_address("reg0", 24),
        Keyword::mmenonic("jc", 25),
        Keyword::register_address("reg0", 25),
        Keyword::mmenonic("jrcon", 26),
        Keyword::constant("2047", 2047, 26),
        Keyword::mmenonic("jr", 27),
        Keyword::constant("-2047", 2047u16.wrapping_neg(), 27),
        Keyword::label("jump", 28),
        Keyword::mmenonic("jzr", 29),
        Keyword::label("jump", 29),
        Keyword::mmenonic("jnzr", 30),
        Keyword::constant("5", 5, 30),
        Keyword::mmenonic("jcr", 31),
        Keyword::constant("5", 5, 31),
        Keyword::mmenonic("st", 32),
        Keyword::register_address("reg0", 32),
        Keyword::register_address("reg1", 32),
        Keyword::mmenonic("ld", 33),
        Keyword::register_address("reg5", 33),
        Keyword::register_address("reg4", 33),
        Keyword::mmenonic("nop", 34),
        Keyword::mmenonic("hlt", 35),
    ];

    let expected_instructions = vec![
        (
            ir::LabelReference::new("main"),
            vec![
                ir::Instruction::Load {
                    address: ir::RegisterAddress(0),
                    source: ir::LoadSource::Constant(0x00),
                },
                ir::Instruction::Load {
                    address: ir::RegisterAddress(7),
                    source: ir::LoadSource::Constant(0x01u16.wrapping_neg()),
                },
                ir::Instruction::Load {
                    address: ir::RegisterAddress(0),
                    source: ir::LoadSource::Constant(42),
                },
                ir::Instruction::Load {
                    address: ir::RegisterAddress(7),
                    source: ir::LoadSource::Constant(1337u16.wrapping_neg()),
                },
                ir::Instruction::Add(ir::BinaryExpression {
                    target: ir::Register::new(ir::RegisterAddress(0)),
                    source_a: ir::Register::new(ir::RegisterAddress(1)),
                    source_b: ir::Register::new(ir::RegisterAddress(2)),
                }),
                ir::Instruction::Add3(ir::TernaryExpression {
                    target: ir::Register::new(ir::RegisterAddress(3)),
                    source_a: ir::Register::new(ir::RegisterAddress(4)),
                    source_b: ir::Register::new(ir::RegisterAddress(5)),
                    source_c: ir::Register::new(ir::RegisterAddress(6)),
                }),
                ir::Instruction::AddWithCarry(ir::BinaryExpression {
                    target: ir::Register::new(ir::RegisterAddress(1)),
                    source_a: ir::Register::new(ir::RegisterAddress(2)),
                    source_b: ir::Register::new(ir::RegisterAddress(3)),
                }),
                ir::Instruction::Subtract(ir::BinaryExpression {
                    target: ir::Register::new(ir::RegisterAddress(4)),
                    source_a: ir::Register::new(ir::RegisterAddress(5)),
                    source_b: ir::Register::new(ir::RegisterAddress(6)),
                }),
                ir::Instruction::SubtractWithCarry(ir::BinaryExpression {
                    target: ir::Register::new(ir::RegisterAddress(0)),
                    source_a: ir::Register::new(ir::RegisterAddress(0)),
                    source_b: ir::Register::new(ir::RegisterAddress(0)),
                }),
                ir::Instruction::Increment(ir::UnaryExpression {
                    source_a: ir::Register::new(ir::RegisterAddress(0)),
                    target: ir::Register::new(ir::RegisterAddress(0)),
                }),
                ir::Instruction::Decrement(ir::UnaryExpression {
                    source_a: ir::Register::new(ir::RegisterAddress(0)),
                    target: ir::Register::new(ir::RegisterAddress(0)),
                }),
                ir::Instruction::Multiply(ir::BinaryExpression {
                    target: ir::Register::new(ir::RegisterAddress(0)),
                    source_a: ir::Register::new(ir::RegisterAddress(0)),
                    source_b: ir::Register::new(ir::RegisterAddress(0)),
                }),
                ir::Instruction::AND(ir::BinaryExpression {
                    target: ir::Register::new(ir::RegisterAddress(0)),
                    source_a: ir::Register::new(ir::RegisterAddress(0)),
                    source_b: ir::Register::new(ir::RegisterAddress(0)),
                }),
                ir::Instruction::OR(ir::BinaryExpression {
                    target: ir::Register::new(ir::RegisterAddress(0)),
                    source_a: ir::Register::new(ir::RegisterAddress(0)),
                    source_b: ir::Register::new(ir::RegisterAddress(0)),
                }),
                ir::Instruction::NOT(ir::UnaryExpression {
                    target: ir::Register::new(ir::RegisterAddress(0)),
                    source_a: ir::Register::new(ir::RegisterAddress(0)),
                }),
                ir::Instruction::Negate(ir::UnaryExpression {
                    target: ir::Register::new(ir::RegisterAddress(0)),
                    source_a: ir::Register::new(ir::RegisterAddress(0)),
                }),
                ir::Instruction::XOR(ir::BinaryExpression {
                    target: ir::Register::new(ir::RegisterAddress(0)),
                    source_a: ir::Register::new(ir::RegisterAddress(0)),
                    source_b: ir::Register::new(ir::RegisterAddress(0)),
                }),
                ir::Instruction::XNOR(ir::BinaryExpression {
                    target: ir::Register::new(ir::RegisterAddress(0)),
                    source_a: ir::Register::new(ir::RegisterAddress(0)),
                    source_b: ir::Register::new(ir::RegisterAddress(0)),
                }),
                ir::Instruction::ShiftLeft(ir::BinaryExpression {
                    target: ir::Register::new(ir::RegisterAddress(0)),
                    source_a: ir::Register::new(ir::RegisterAddress(0)),
                    source_b: ir::Register::new(ir::RegisterAddress(0)),
                }),
                ir::Instruction::ShiftRight(ir::BinaryExpression {
                    target: ir::Register::new(ir::RegisterAddress(0)),
                    source_a: ir::Register::new(ir::RegisterAddress(0)),
                    source_b: ir::Register::new(ir::RegisterAddress(0)),
                }),
                ir::Instruction::Test(ir::BinaryStatement {
                    source_a: ir::Register::new(ir::RegisterAddress(0)),
                    source_b: ir::Register::new(ir::RegisterAddress(0)),
                }),
                ir::Instruction::Move(ir::UnaryExpression {
                    target: ir::Register::new(ir::RegisterAddress(0)),
                    source_a: ir::Register::new(ir::RegisterAddress(0)),
                }),
                ir::Instruction::Jump {
                    target: ir::JumpTarget::Register(ir::Register::new(ir::RegisterAddress(0))),
                    condition: ir::JumpCondition::True,
                },
                ir::Instruction::Jump {
                    target: ir::JumpTarget::Register(ir::Register::new(ir::RegisterAddress(0))),
                    condition: ir::JumpCondition::Zero,
                },
                ir::Instruction::Jump {
                    target: ir::JumpTarget::Register(ir::Register::new(ir::RegisterAddress(0))),
                    condition: ir::JumpCondition::NotZero,
                },
                ir::Instruction::Jump {
                    target: ir::JumpTarget::Register(ir::Register::new(ir::RegisterAddress(0))),
                    condition: ir::JumpCondition::Less,
                },
                ir::Instruction::Jump {
                    target: ir::JumpTarget::Constant(2047),
                    condition: ir::JumpCondition::True,
                },
                ir::Instruction::Jump {
                    target: ir::JumpTarget::Constant(2047u16.wrapping_neg()),
                    condition: ir::JumpCondition::True,
                },
            ],
        ),
        (
            ir::LabelReference::new("jump"),
            vec![
                ir::Instruction::Jump {
                    target: ir::JumpTarget::Label(ir::LabelReference::new("jump")),
                    condition: ir::JumpCondition::Zero,
                },
                ir::Instruction::Jump {
                    target: ir::JumpTarget::Constant(5),
                    condition: ir::JumpCondition::NotZero,
                },
                ir::Instruction::Jump {
                    target: ir::JumpTarget::Constant(5),
                    condition: ir::JumpCondition::Less,
                },
                ir::Instruction::StoreRAM {
                    address_register: ir::RegisterAddress(0),
                    data_register: ir::RegisterAddress(1),
                },
                ir::Instruction::Load {
                    address: ir::RegisterAddress(5),
                    source: ir::LoadSource::RAM {
                        address_register: ir::Register::new(ir::RegisterAddress(4)),
                    },
                },
                ir::Instruction::Noop,
                ir::Instruction::Halt,
            ],
        ),
    ];
    let expected_label_definitions = vec![
        (
            ir::LabelReference::new("main"),
            ir::LabelDefinition::new("main", 0),
        ),
        (
            ir::LabelReference::new("jump"),
            ir::LabelDefinition::new("jump", 28),
        ),
    ];

    let found = parser(lexed).unwrap();

    assert_eq!(
        expected_label_definitions.len(),
        found.label_definitions.0.len(),
        "found too few label definitions",
    );

    let mut exp_ld_vec: Vec<&(ir::LabelReference, ir::LabelDefinition)> =
        expected_label_definitions.iter().collect();
    let mut found_ld_vec: Vec<&ir::LabelDefinition> = found.label_definitions.0.iter().collect();

    found_ld_vec.sort_by(|a, b| a.address.cmp(&b.address));
    exp_ld_vec.sort_by(|a, b| a.1.address.cmp(&b.1.address));

    for (expected_label_definition, found_label_definition) in
        exp_ld_vec.iter().zip(found_ld_vec.iter())
    {
        assert_eq!(
            expected_label_definition.0,
            ir::LabelReference::new(&found_label_definition.name)
        );
        assert_eq!(
            expected_label_definition.1.address, found_label_definition.address,
            "label definitions addresses do not match",
        );
    }

    assert_eq!(
        expected_instructions.len(),
        found.instructions.len(),
        "found too few label references in instructions",
    );

    let mut exp_blocks: Vec<&(ir::LabelReference, Vec<ir::Instruction>)> =
        expected_instructions.iter().collect();
    let mut found_blocks: Vec<&ir::InstructionBlock> = found.instructions.iter().collect();

    exp_blocks.sort_by(|a, b| a.0.name().cmp(b.0.name()));
    found_blocks.sort_by(|a, b| a.label.name().cmp(b.label.name()));

    for (expected_block, found_block) in exp_blocks.iter().zip(found_blocks.iter()) {
        assert_eq!(expected_block.0, found_block.label);
        for (expected_instruction, found_instruction) in
            expected_block.1.iter().zip(found_block.instructions.iter())
        {
            assert_eq!(
                expected_instruction, found_instruction,
                "instructions do not match"
            );
        }
    }

    assert_eq!(
        found.start_label,
        ir::LabelReference::new("main"),
        "start label do not match"
    );
}

#[test]
fn register_spellings_are_equivalent() {
    // Digit and letter spellings of the same ordinal parse identically.
    let digits = ["reg0", "reg1", "reg2", "reg3", "reg4", "reg5", "reg6", "reg7"];
    let letters = ["regA", "regB", "regC", "regD", "regE", "regF", "regG", "regH"];
    for k in 0..8 {
        let by_digit = parser(vec![
            Keyword::mmenonic("inc", 0),
            Keyword::register_address(digits[k], 0),
        ])
        .unwrap();
        let by_letter = parser(vec![
            Keyword::mmenonic("inc", 0),
            Keyword::register_address(letters[k], 0),
        ])
        .unwrap();
        assert_eq!(
            by_digit.instructions[0].instructions[0],
            by_letter.instructions[0].instructions[0]
        );
        match &by_digit.instructions[0].instructions[0] {
            ir::Instruction::Increment(e) => assert_eq!(e.source_a.addr(), k as u8),
            other => panic!("expected an increment, got {:?}", other),
        }
    }
}

#[test]
fn bad_register_suffix_is_rejected() {
    let r = parser(vec![
        Keyword::mmenonic("inc", 4),
        Keyword::register_address("reg8", 4),
    ]);
    match r {
        Err(ParserError::ExpectedFound { expected, found, line_number }) => {
            assert_eq!(expected, "valid register number (0..7 | A..H)");
            assert_eq!(found, "8");
            assert_eq!(line_number, 4);
        }
        other => panic!("expected a register-number error, got {:?}", other),
    }
    let r = parser(vec![
        Keyword::mmenonic("inc", 5),
        Keyword::register_address("rex0", 5),
    ]);
    match r {
        Err(ParserError::ExpectedFound { expected, found, .. }) => {
            assert_eq!(expected, "valid register identifier");
            assert_eq!(found, "rex0");
        }
        other => panic!("expected a register-identifier error, got {:?}", other),
    }
}

#[test]
fn parser_error_taxonomy() {
    // An empty stream.
    assert!(matches!(parser(vec![]), Err(ParserError::EmptyStream)));

    // An unknown mnemonic.
    match parser(vec![Keyword::mmenonic("frobnicate", 2)]) {
        Err(ParserError::UnknownCommand { command, line_number }) => {
            assert_eq!(command, "frobnicate");
            assert_eq!(line_number, 2);
        }
        other => panic!("expected an unknown-command error, got {:?}", other),
    }

    // A missing operand.
    match parser(vec![
        Keyword::mmenonic("add", 3),
        Keyword::register_address("reg0", 3),
    ]) {
        Err(ParserError::MissingArgument { command, arg_name, line_number }) => {
            assert_eq!(command, "add");
            assert_eq!(arg_name, "SourceRegisterA");
            assert_eq!(line_number, 3);
        }
        other => panic!("expected a missing-argument error, got {:?}", other),
    }

    // An operand of the wrong shape where a jump target was expected.
    match parser(vec![
        Keyword::mmenonic("jmp", 6),
        Keyword::constant("5", 5, 6),
    ]) {
        Err(ParserError::CouldNotParseArgument { command, arg_name, arg_value, .. }) => {
            assert_eq!(command, "jmp");
            assert_eq!(arg_name, "DestinationRegister");
            assert_eq!(arg_value, "5");
        }
        other => panic!("expected a could-not-parse error, got {:?}", other),
    }

    // A token-kind mismatch against an operand parser's expectation.
    match parser(vec![
        Keyword::mmenonic("ldc", 7),
        Keyword::register_address("reg0", 7),
        Keyword::label("oops", 7),
    ]) {
        Err(ParserError::ExpectedFound { expected, found, .. }) => {
            assert_eq!(expected, "Keyword::Constant");
            assert_eq!(found, ".oops");
        }
        other => panic!("expected an expected-found error, got {:?}", other),
    }

    // A boolean operand that is not a boolean token.
    match parser(vec![
        Keyword::mmenonic("s32b", 8),
        Keyword::constant("1", 1, 8),
    ]) {
        Err(ParserError::CouldNotParseArgument { command, arg_name, .. }) => {
            assert_eq!(command, "s32b");
            assert_eq!(arg_name, "EnableBoolean");
        }
        other => panic!("expected a could-not-parse error, got {:?}", other),
    }
}

#[test]
fn label_addresses_accumulate() {
    // Three instructions under the first label put the second at address 3.
    let tokens = vec![
        Keyword::label("first", 0),
        Keyword::mmenonic("nop", 1),
        Keyword::mmenonic("nop", 2),
        Keyword::mmenonic("nop", 3),
        Keyword::label("second", 4),
        Keyword::mmenonic("hlt", 5),
    ];
    let found = parser(tokens).unwrap();
    assert_eq!(found.label_definitions.0.len(), 2);
    assert_eq!(found.label_definitions.0[0].name, "first");
    assert_eq!(found.label_definitions.0[0].address.0, 0);
    assert_eq!(found.label_definitions.0[1].name, "second");
    assert_eq!(found.label_definitions.0[1].address.0, 3);
}

use masm::generator::{generator, GeneratorError, InstructionWord};
use masm::ir;
use masm::lexer::lexer;
use masm::parser::parser;

fn assemble(lines: &[&str]) -> Vec<InstructionWord> {
    let lines: Vec<String> = lines.iter().map(|s| s.to_string()).collect();
    let tokens = lexer(&lines).unwrap();
    let parsed = parser(tokens).unwrap();
    generator(parsed).unwrap()
}

#[test]
fn end_to_end_minimal_program() {
    // `main:` / `ldc %reg0 0x05` / `hlt` assembles to exactly two words: the
    // immediate load with bit 7 set, target register 0, low nibble 5 and
    // high twelve bits 0; then the halt word 0x0007F.
    let words = assemble(&["main:", "    ldc %reg0 0x05", "    hlt"]);
    assert_eq!(words.len(), 2);

    let load = &words[0];
    assert!(load.is_load());
    assert_eq!(load.load_target(), 0);
    assert_eq!(load.constant16(), 5);
    assert_eq!(load.value(), 0x00085);
    assert_eq!(load.hex(), "00085");

    let halt = &words[1];
    assert_eq!(halt.value(), 0x0007F);
    assert_eq!(halt.hex(), "0007f");
}

#[test]
fn second_label_starts_after_first_block() {
    // Three instructions under the first label place the second label's
    // instructions exactly three words after the first label's start.
    let words = assemble(&[
        "main:",
        "    mov %reg1 %reg0",
        "    mov %reg2 %reg0",
        "    mov %reg3 %reg0",
        "after:",
        "    hlt",
    ]);
    assert_eq!(words.len(), 4);
    // Words 0..3 are the moves (opcode 0x48); word 3 is the halt.
    for k in 0..3 {
        assert_eq!(words[k].opcode(), 0x48);
    }
    assert_eq!(words[3].value(), 0x0007F);
}

#[test]
fn relative_jump_offsets_wrap() {
    // A backward jump from the instruction at address 12 (block at address
    // 10, index 2) to a label at address 5: offset = (5 - 13) mod 2^16,
    // truncated to twelve bits = 0xFF8.
    let words = assemble(&[
        "main:",
        "    nop",
        "    nop",
        "    nop",
        "    nop",
        "    nop",
        "tgt:",
        "    nop",
        "    nop",
        "    nop",
        "    nop",
        "    nop",
        "blk:",
        "    nop",
        "    nop",
        "    jr tgt",
        "    hlt",
    ]);
    let jump = &words[12];
    assert_eq!(jump.opcode(), 0x58);
    assert_eq!(jump.constant12(), 0xFF8);

    // A forward jump: from address 0 to a label at address 2, the offset is
    // 2 - (0 + 0 + 1) = 1.
    let words = assemble(&["    jr fwd", "    nop", "fwd:", "    hlt"]);
    assert_eq!(words[0].opcode(), 0x58);
    assert_eq!(words[0].constant12(), 1);

    // A literal displacement is encoded minus one; zero wraps to 0xFFF.
    let words = assemble(&["    jr 0x0", "    hlt"]);
    assert_eq!(words[0].constant12(), 0xFFF);
    let words = assemble(&["    jzr 5", "    hlt"]);
    assert_eq!(words[0].opcode(), 0x59);
    assert_eq!(words[0].constant12(), 4);
}

#[test]
fn undefined_label_fails_generation() {
    // Generation fails with the undefined label's text, and never silently
    // emits a word for it.
    let lines: Vec<String> = ["    jzr nowhere", "    hlt"].iter().map(|s| s.to_string()).collect();
    let parsed = parser(lexer(&lines).unwrap()).unwrap();
    match generator(parsed) {
        Err(GeneratorError::UndefinedLabel { label_name }) => {
            assert_eq!(label_name, "nowhere");
        }
        Ok(words) => panic!("expected an undefined-label error, got {} words", words.len()),
    }

    // The same jump with the label defined succeeds.
    let words = assemble(&["here:", "    jzr here", "    hlt"]);
    assert_eq!(words.len(), 2);
}

#[test]
fn load_immediate_round_trip() {
    // Decoding an encoded load recovers the register and constant exactly.
    let constants =
        [0u16, 1, 5, 15, 16, 255, 256, 0x0FFF, 0x1000, 0x7FFF, 0x8000, 0xABCD, 0xFFFE, 0xFFFF];
    for target in 0..8u8 {
        for &c in constants.iter() {
            let w = InstructionWord::encode_load(target, c);
            assert!(w.is_load());
            assert_eq!(w.load_target(), target);
            assert_eq!(w.constant16(), c);
        }
    }
}

#[test]
fn alu_word_field_layout() {
    // add %reg1 %reg2 %reg3: opcode 0x0, source A 2, source B 3, target 1.
    let words = assemble(&["    add %reg1 %reg2 %reg3", "    hlt"]);
    let w = &words[0];
    assert_eq!(w.opcode(), 0x00);
    assert_eq!(w.op_a(), 2);
    assert_eq!(w.op_b(), 3);
    assert_eq!(w.target(), 1);
    assert!(!w.is_load());
    assert_eq!(w.value(), 0x21A00);
    assert_eq!(w.hex(), "21a00");

    // add3 %reg3 %reg4 %reg5 %reg6 uses the ternary field too.
    let words = assemble(&["    add3 %reg3 %reg4 %reg5 %reg6", "    hlt"]);
    let w = &words[0];
    assert_eq!(w.opcode(), 0x01);
    assert_eq!(w.op_a(), 4);
    assert_eq!(w.op_b(), 5);
    assert_eq!(w.op_c(), 6);
    assert_eq!(w.target(), 3);
}

#[test]
fn opcode_table() {
    // One instruction of each ALU/control kind, against the opcode table.
    let cases: &[(&str, u8)] = &[
        ("    add %reg0 %reg0 %reg0", 0x00),
        ("    add3 %reg0 %reg0 %reg0 %reg0", 0x01),
        ("    addc %reg0 %reg0 %reg0", 0x02),
        ("    sub %reg0 %reg0 %reg0", 0x03),
        ("    subc %reg0 %reg0 %reg0", 0x04),
        ("    inc %reg0", 0x05),
        ("    dec %reg0", 0x06),
        ("    mul %reg0 %reg0 %reg0", 0x07),
        ("    tst %reg0 %reg0", 0x08),
        ("    and %reg0 %reg0 %reg0", 0x09),
        ("    or %reg0 %reg0 %reg0", 0x0a),
        ("    not %reg0 %reg0", 0x0b),
        ("    neg %reg0 %reg0", 0x0b),
        ("    xor %reg0 %reg0 %reg0", 0x0d),
        ("    xnor %reg0 %reg0 %reg0", 0x0e),
        ("    shl %reg0 %reg0 %reg0", 0x0f),
        ("    shr %reg0 %reg0 %reg0", 0x10),
        ("    mov %reg0 %reg0", 0x48),
        ("    jmp %reg0", 0x50),
        ("    jz %reg0", 0x51),
        ("    jnz %reg0", 0x52),
        ("    jc %reg0", 0x53),
        ("    jo %reg0", 0x54),
        ("    jrcon 1", 0x58),
        ("    jzr 1", 0x59),
        ("    jnzr 1", 0x5a),
        ("    jcr 1", 0x5b),
        ("    jor 1", 0x5c),
        ("    st %reg0 %reg0", 0x68),
        ("    ld %reg0 %reg0", 0x69),
        ("    nop", 0x6c),
        ("    hlt", 0x7f),
    ];
    for (line, opcode) in cases.iter() {
        let words = assemble(&[*line, "    hlt"]);
        assert_eq!(words[0].opcode(), *opcode, "wrong opcode for {}", line);
    }
}

#[test]
fn store_and_ram_load_operands() {
    // st %reg0 %reg1: source A holds the data register, source B the
    // address register.
    let words = assemble(&["    st %reg2 %reg3", "    hlt"]);
    assert_eq!(words[0].opcode(), 0x68);
    assert_eq!(words[0].op_a(), 3);
    assert_eq!(words[0].op_b(), 2);

    // ld %reg5 %reg4: source B holds the address register, the target field
    // the destination.
    let words = assemble(&["    ld %reg5 %reg4", "    hlt"]);
    assert_eq!(words[0].opcode(), 0x69);
    assert_eq!(words[0].op_b(), 4);
    assert_eq!(words[0].target(), 5);
}

#[test]
fn control_words_from_handmade_representation() {
    // The 32-bit-mode switch and the debug trap have no surface syntax; they
    // encode from a hand-built representation.
    let ir = ir::IR {
        start_label: ir::LabelReference::new("m"),
        label_definitions: ir::LabelLUT(vec![ir::LabelDefinition::new("m", 0)]),
        instructions: vec![ir::InstructionBlock {
            label: ir::LabelReference::new("m"),
            instructions: vec![
                ir::Instruction::Set32BitMode { enable: ir::Boolean(true) },
                ir::Instruction::Set32BitMode { enable: ir::Boolean(false) },
                ir::Instruction::Debug,
            ],
        }],
    };
    let words = generator(ir).unwrap();
    assert_eq!(words[0].value(), 0x0FF4A);
    assert_eq!(words[0].hex(), "0ff4a");
    assert_eq!(words[1].value(), 0x0004A);
    assert_eq!(words[2].value(), 0x0007E);
}

#[test]
fn blocks_are_emitted_in_address_order() {
    // The output is the label blocks in ascending address order, each block
    // in source order.
    let words = assemble(&[
        "a:",
        "    ldc %reg0 0x01",
        "b:",
        "    ldc %reg0 0x02",
        "    hlt",
    ]);
    assert_eq!(words.len(), 3);
    assert_eq!(words[0].constant16(), 1);
    assert_eq!(words[1].constant16(), 2);
    assert_eq!(words[2].value(), 0x0007F);
}

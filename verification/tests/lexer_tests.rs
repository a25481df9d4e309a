use masm::lexer::{lex_line, lexer, word_type, Keyword, LexerError};

fn all_instructions_source() -> Vec<String> {
    [
        "    ldc %reg0 0x00",
        "    ldc %reg7 -0x01",
        "    ldc %regA 42",
        "    ldc %regH -1337",
        "    add %reg0 %reg1 %reg2",
        "    add3 %reg3 %reg4 %reg5 %reg6",
        "    addc %regB %regC %regD",
        "    sub %regE %regF %regG",
        "    subc %reg0 %reg0 %reg0",
        "    inc %reg0",
        "    dec %reg0",
        "    mul %reg0 %reg0 %reg0",
        "    and %reg0 %reg0 %reg0",
        "    or %reg0 %reg0 %reg0",
        "    not %reg0 %reg0",
        "    neg %reg0 %reg0",
        "    xor %reg0 %reg0 %reg0",
        "    xnor %reg0 %reg0 %reg0",
        "    shl %reg0 %reg0 %reg0",
        "    shr %reg0 %reg0 %reg0",
        "    tst %reg0 %reg0",
        "    mov %reg0 %reg0",
        "    jmp %reg0",
        "    jz %reg0",
        "    jnz %reg0",
        "    jc %reg0",
        "    jrcon 2047",
        "    jr -2047",
        "jump:",
        "    jzr jump",
        "    jnzr 5",
        "    jcr 5",
        "    st %reg0 %reg1",
        "    ld %reg5 %reg4",
        "    nop",
        "    hlt",
    ]
    .iter()
    .map(|s| s.to_string())
    .collect()
}

#[test]
fn lex_all_instructions() {
    let expected = vec![
        Keyword::mmenonic("ldc", 0),
        Keyword::register_address("reg0", 0),
        Keyword::constant("0x00", 0, 0),
        Keyword::mmenonic("ldc", 1),
        Keyword::register_address("reg7", 1),
        Keyword::constant("-0x01", 1u16.wrapping_neg(), 1),
        Keyword::mmenonic("ldc", 2),
        Keyword::register_address("regA", 2),
        Keyword::constant("42", 42, 2),
        Keyword::mmenonic("ldc", 3),
        Keyword::register_address("regH", 3),
        Keyword::constant("-1337", 1337u16.wrapping_neg(), 3),
        Keyword::mmenonic("add", 4),
        Keyword::register_address("reg0", 4),
        Keyword::register_address("reg1", 4),
        Keyword::register_address("reg2", 4),
        Keyword::mmenonic("add3", 5),
        Keyword::register_address("reg3", 5),
        Keyword::register_address("reg4", 5),
        Keyword::register_address("reg5", 5),
        Keyword::register_address("reg6", 5),
        Keyword::mmenonic("addc", 6),
        Keyword::register_address("regB", 6),
        Keyword::register_address("regC", 6),
        Keyword::register_address("regD", 6),
        Keyword::mmenonic("sub", 7),
        Keyword::register_address("regE", 7),
        Keyword::register_address("regF", 7),
        Keyword::register_address("regG", 7),
        Keyword::mmenonic("subc", 8),
        Keyword::register_address("reg0", 8),
        Keyword::register_address("reg0", 8),
        Keyword::register_address("reg0", 8),
        Keyword::mmenonic("inc", 9),
        Keyword::register_address("reg0", 9),
        Keyword::mmenonic("dec", 10),
        Keyword::register_address("reg0", 10),
        Keyword::mmenonic("mul", 11),
        Keyword::register_address("reg0", 11),
        Keyword::register_address("reg0", 11),
        Keyword::register_address("reg0", 11),
        Keyword::mmenonic("and", 12),
        Keyword::register_address("reg0", 12),
        Keyword::register_address("reg0", 12),
        Keyword::register_address("reg0", 12),
        Keyword::mmenonic("or", 13),
        Keyword::register_address("reg0", 13),
        Keyword::register_address("reg0", 13),
        Keyword::register_address("reg0", 13),
        Keyword::mmenonic("not", 14),
        Keyword::register_address("reg0", 14),
        Keyword::register_address("reg0", 14),
        Keyword::mmenonic("neg", 15),
        Keyword::register_address("reg0", 15),
        Keyword::register_address("reg0", 15),
        Keyword::mmenonic("xor", 16),
        Keyword::register_address("reg0", 16),
        Keyword::register_address("reg0", 16),
        Keyword::register_address("reg0", 16),
        Keyword::mmenonic("xnor", 17),
        Keyword::register_address("reg0", 17),
        Keyword::register_address("reg0", 17),
        Keyword::register_address("reg0", 17),
        Keyword::mmenonic("shl", 18),
        Keyword::register_address("reg0", 18),
        Keyword::register_address("reg0", 18),
        Keyword::register_address("reg0", 18),
        Keyword::mmenonic("shr", 19),
        Keyword::register_address("reg0", 19),
        Keyword::register_address("reg0", 19),
        Keyword::register_address("reg0", 19),
        Keyword::mmenonic("tst", 20),
        Keyword::register_address("reg0", 20),
        Keyword::register_address("reg0", 20),
        Keyword::mmenonic("mov", 21),
        Keyword::register_address("reg0", 21),
        Keyword::register_address("reg0", 21),
        Keyword::mmenonic("jmp", 22),
        Keyword::register_address("reg0", 22),
        Keyword::mmenonic("jz", 23),
        Keyword::register_address("reg0", 23),
        Keyword::mmenonic("jnz", 24),
        Keyword::register_address("reg0", 24),
        Keyword::mmenonic("jc", 25),
        Keyword::register_address("reg0", 25),
        Keyword::mmenonic("jrcon", 26),
        Keyword::constant("2047", 2047, 26),
        Keyword::mmenonic("jr", 27),
        Keyword::constant("-2047", 2047u16.wrapping_neg(), 27),
        Keyword::label("jump", 28),
        Keyword::mmenonic("jzr", 29),
        Keyword::label("jump", 29),
        Keyword::mmenonic("jnzr", 30),
        Keyword::constant("5", 5, 30),
        Keyword::mmenonic("jcr", 31),
        Keyword::constant("5", 5, 31),
        Keyword::mmenonic("st", 32),
        Keyword::register_address("reg0", 32),
        Keyword::register_address("reg1", 32),
        Keyword::mmenonic("ld", 33),
        Keyword::register_address("reg5", 33),
        Keyword::register_address("reg4", 33),
        Keyword::mmenonic("nop", 34),
        Keyword::mmenonic("hlt", 35),
    ];

    let found = lexer(&all_instructions_source()).unwrap();

    for (expected_keyword, found_keyword) in expected.iter().zip(found.iter()) {
        assert_eq!(expected_keyword, found_keyword);
    }
}

#[test]
fn whitespace() {
    let lines: Vec<String> = ["\tldc   %reg0\t0x4   ", "loop:  ", "   hlt  "]
        .iter()
        .map(|s| s.to_string())
        .collect();

    let expected = vec![
        Keyword::mmenonic("ldc", 0),
        Keyword::register_address("reg0", 0),
        Keyword::constant("0x4", 4, 0),
        Keyword::label("loop", 1),
        Keyword::mmenonic("hlt", 2),
    ];

    let found = lexer(&lines).unwrap();
    for (expected_keyword, found_keyword) in expected.iter().zip(found.iter()) {
        assert_eq!(expected_keyword, found_keyword);
    }
}

#[test]
fn constants_wrap_to_two_complement() {
    // "-0x01" -> 0xFFFF and "-1337" -> 64199: the 16-bit wrap of the value.
    match word_type("-0x01", 0) {
        Ok(Keyword::Constant { value, origin, .. }) => {
            assert_eq!(value, 0xFFFF);
            assert_eq!(origin, "-0x01");
        }
        other => panic!("expected a constant token, got {:?}", other),
    }
    match word_type("-1337", 3) {
        Ok(Keyword::Constant { value, .. }) => assert_eq!(value, 64199),
        other => panic!("expected a constant token, got {:?}", other),
    }
    match word_type("0b1010", 0) {
        Ok(Keyword::Constant { value, .. }) => assert_eq!(value, 10),
        other => panic!("expected a constant token, got {:?}", other),
    }
    match word_type("-0b1", 0) {
        Ok(Keyword::Constant { value, .. }) => assert_eq!(value, 0xFFFF),
        other => panic!("expected a constant token, got {:?}", other),
    }
    match word_type("65535", 0) {
        Ok(Keyword::Constant { value, .. }) => assert_eq!(value, 65535),
        other => panic!("expected a constant token, got {:?}", other),
    }
}

#[test]
fn overflowing_numeral_is_an_identifier() {
    // A numeral that does not fit 16 bits falls back to the identifier rule.
    match word_type("65536", 0) {
        Ok(Keyword::Label { name, .. }) => assert_eq!(name, "65536"),
        other => panic!("expected a label token, got {:?}", other),
    }
}

#[test]
fn invalid_identifier_is_collected() {
    match word_type("a-b", 7) {
        Err(LexerError::InvalidIdentifier { actual, line_number }) => {
            assert_eq!(actual, "a-b");
            assert_eq!(line_number, 7);
        }
        other => panic!("expected an invalid-identifier error, got {:?}", other),
    }

    // The lexer keeps going past a bad line and reports every error.
    let lines: Vec<String> = ["    ldc %reg0 $$", "    mov %% ??"]
        .iter()
        .map(|s| s.to_string())
        .collect();
    let errors = lexer(&lines).unwrap_err();
    assert_eq!(errors.len(), 2);
    assert!(matches!(
        &errors[0],
        LexerError::InvalidIdentifier { line_number: 0, .. }
    ));
    assert!(matches!(
        &errors[1],
        LexerError::InvalidIdentifier { line_number: 1, .. }
    ));
}

#[test]
fn trailing_halt_is_appended() {
    let lines: Vec<String> = vec!["    nop".to_string()];
    let found = lexer(&lines).unwrap();
    assert_eq!(found.len(), 2);
    assert_eq!(found[0], Keyword::mmenonic("nop", 0));
    assert_eq!(found[1], Keyword::mmenonic("hlt", 1));

    // A stream already ending in a halt is left alone, and an empty source
    // stays empty.
    let lines: Vec<String> = vec!["    hlt".to_string()];
    assert_eq!(lexer(&lines).unwrap().len(), 1);
    let empty: Vec<String> = Vec::new();
    assert_eq!(lexer(&empty).unwrap().len(), 0);
}

#[test]
fn lex_line_appends_tokens_until_the_error() {
    let mut tokens = Vec::new();
    lex_line(&mut tokens, "    mov %reg0 %reg1", 7).unwrap();
    assert_eq!(
        tokens,
        vec![
            Keyword::mmenonic("mov", 7),
            Keyword::register_address("reg0", 7),
            Keyword::register_address("reg1", 7),
        ]
    );

    // On a bad operand the tokens before it stay appended.
    let mut tokens = Vec::new();
    let err = lex_line(&mut tokens, "    mov %reg0 $$", 9).unwrap_err();
    assert!(matches!(err, LexerError::InvalidIdentifier { line_number: 9, .. }));
    assert_eq!(
        tokens,
        vec![Keyword::mmenonic("mov", 9), Keyword::register_address("reg0", 9)]
    );
}

#[test]
fn original_text_is_restored_with_markers() {
    assert_eq!(Keyword::mmenonic("add", 0).get_original_string(), "add");
    assert_eq!(Keyword::register_address("reg3", 0).get_original_string(), "%reg3");
    assert_eq!(Keyword::label("loop", 0).get_original_string(), ".loop");
    assert_eq!(Keyword::constant("-0x01", 0xFFFF, 0).get_original_string(), "-0x01");
}

#[test]
fn comments_and_blank_lines_are_skipped() {
    let lines: Vec<String> = ["", "   ", "    nop ; trailing words : %% $$", "    ; only a comment", "    hlt"]
        .iter()
        .map(|s| s.to_string())
        .collect();
    let found = lexer(&lines).unwrap();
    assert_eq!(found.len(), 2);
    assert_eq!(found[0], Keyword::mmenonic("nop", 2));
    assert_eq!(found[1], Keyword::mmenonic("hlt", 4));
}

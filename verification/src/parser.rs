//! The parser: consumes the token sequence in one left-to-right scan,
//! resolves labels to addresses as it goes, and builds the intermediate
//! representation — a label table plus one instruction list per label.
//!
//! Unlike the lexer, parsing stops at the first error.  A label's address is
//! the previous label's address plus the number of instructions emitted
//! since it; the first token decides the start label (a synthetic `main` at
//! address 0 when the program does not begin with one).

use crate::ir::{
    blocks_append, blocks_defined, blocks_reset, lemma_block_find_idx, lemma_lut_find_idx,
    lut_find_idx, lut_insert, lut_names_unique, lut_sorted, view_blocks, BinaryExpression,
    BinaryStatement,
    Boolean, Constant, Instruction, InstructionBlock, JumpCondition, JumpTarget, LabelDefinition,
    LabelLUT, LabelReference, LoadSource, Register, RegisterAddress, SpecBlock, SpecIR,
    SpecInstruction, SpecJumpTarget, SpecLabelDefinition, TernaryExpression, UnaryExpression,
    UnaryStatement, IR, block_names_unique,
};
use crate::lexer::{
    spec_line_number, spec_original_string, str_eq, view_keywords, Keyword, LineNumber,
    SpecKeyword,
};
use vstd::prelude::*;
use vstd::string::StrSliceExecFns;

verus! {

// ---------------------------------------------------------------------------
// Errors
// ---------------------------------------------------------------------------

/// The mathematical model of a parse error.
#[verifier::ext_equal]
pub enum SpecParserError {
    EndOfStream,
    EmptyStream,
    UnknownCommand { command: Seq<char>, line_number: u16 },
    MissingArgument { command: Seq<char>, arg_name: Seq<char>, line_number: u16 },
    CouldNotParseArgument {
        command: Seq<char>,
        arg_name: Seq<char>,
        arg_value: Seq<char>,
        line_number: u16,
    },
    ExpectedFound { expected: Seq<char>, found: Seq<char>, line_number: u16 },
}

/// A parse error: the first fatal problem of the scan, carrying the
/// offending text and line.
#[derive(Debug)]
pub enum ParserError {
    /// The token stream ended inside an instruction.
    EndOfStream,
    /// There were no tokens at all.
    EmptyStream,
    /// A token that is no known mnemonic stood where a command was expected.
    UnknownCommand { command: String, line_number: u16 },
    /// An instruction had fewer operands than its shape needs.
    MissingArgument { command: String, arg_name: String, line_number: u16 },
    /// An operand was present but of the wrong shape.
    CouldNotParseArgument {
        command: String,
        arg_name: String,
        arg_value: String,
        line_number: u16,
    },
    /// A token kind mismatched an operand parser's expectation.
    ExpectedFound { expected: String, found: String, line_number: u16 },
}

impl View for ParserError {
    type V = SpecParserError;

    open spec fn view(&self) -> SpecParserError {
        match self {
            ParserError::EndOfStream => SpecParserError::EndOfStream,
            ParserError::EmptyStream => SpecParserError::EmptyStream,
            ParserError::UnknownCommand { command, line_number } => {
                SpecParserError::UnknownCommand { command: command@, line_number: *line_number }
            },
            ParserError::MissingArgument { command, arg_name, line_number } => {
                SpecParserError::MissingArgument {
                    command: command@,
                    arg_name: arg_name@,
                    line_number: *line_number,
                }
            },
            ParserError::CouldNotParseArgument { command, arg_name, arg_value, line_number } => {
                SpecParserError::CouldNotParseArgument {
                    command: command@,
                    arg_name: arg_name@,
                    arg_value: arg_value@,
                    line_number: *line_number,
                }
            },
            ParserError::ExpectedFound { expected, found, line_number } => {
                SpecParserError::ExpectedFound {
                    expected: expected@,
                    found: found@,
                    line_number: *line_number,
                }
            },
        }
    }
}

// ---------------------------------------------------------------------------
// Operand parsers
// ---------------------------------------------------------------------------

/// The text a token contributes to an unknown-command error: its name, or a
/// constant's original literal.
pub open spec fn spec_command_name(k: SpecKeyword) -> Seq<char> {
    match k {
        SpecKeyword::Mmenonic { name, .. } => name,
        SpecKeyword::RegisterAddress { name, .. } => name,
        SpecKeyword::Label { name, .. } => name,
        SpecKeyword::Constant { origin, .. } => origin,
        SpecKeyword::Boolean { origin, .. } => origin,
    }
}

fn command_name(k: &Keyword) -> (r: String)
    ensures
        r@ == spec_command_name(k@),
{
    match k {
        Keyword::Mmenonic { name, .. } => name.clone(),
        Keyword::RegisterAddress { name, .. } => name.clone(),
        Keyword::Label { name, .. } => name.clone(),
        Keyword::Constant { origin, .. } => origin.clone(),
        Keyword::Boolean { origin, .. } => origin.clone(),
    }
}

/// Register operand parsing: the name must be `reg` followed by exactly one
/// character of the two equivalent alphabets, digits `0`-`7` or letters
/// `A`-`H`, both mapping onto the 3-bit address space.
pub open spec fn spec_parse_register(k: SpecKeyword) -> Result<RegisterAddress, SpecParserError> {
    match k {
        SpecKeyword::RegisterAddress { name, line_number } => {
            if name.len() >= 3 && name[0] == 'r' && name[1] == 'e' && name[2] == 'g' {
                let suffix = name.skip(3);
                if suffix.len() == 1 && 48 <= suffix[0] as u32 <= 55 {
                    Ok(RegisterAddress((suffix[0] as u32 - 48) as u8))
                } else if suffix.len() == 1 && 65 <= suffix[0] as u32 <= 72 {
                    Ok(RegisterAddress((suffix[0] as u32 - 65) as u8))
                } else {
                    Err(
                        SpecParserError::ExpectedFound {
                            expected: "valid register number (0..7 | A..H)"@,
                            found: suffix,
                            line_number,
                        },
                    )
                }
            } else {
                Err(
                    SpecParserError::ExpectedFound {
                        expected: "valid register identifier"@,
                        found: name,
                        line_number,
                    },
                )
            }
        },
        _ => Err(
            SpecParserError::ExpectedFound {
                expected: "Keyword::RegisterAddress"@,
                found: spec_original_string(k),
                line_number: spec_line_number(k),
            },
        ),
    }
}

fn try_parse_register(keyword: &Keyword) -> (r: Result<RegisterAddress, ParserError>)
    ensures
        match r {
            Ok(a) => spec_parse_register(keyword@) == Ok::<RegisterAddress, SpecParserError>(a),
            Err(e) => spec_parse_register(keyword@) == Err::<RegisterAddress, SpecParserError>(
                e@,
            ),
        },
{
    match keyword {
        Keyword::RegisterAddress { name, line_number } => {
            let len = name.as_str().unicode_len();
            if len >= 3 && name.as_str().get_char(0) == 'r' && name.as_str().get_char(1) == 'e'
                && name.as_str().get_char(2) == 'g' {
                proof {
                    assert(name@.skip(3) =~= name@.subrange(3, len as int));
                }
                if len == 4 {
                    let c = name.as_str().get_char(3);
                    let u = c as u32;
                    proof {
                        assert(name@.skip(3)[0] == c);
                    }
                    if 48 <= u && u <= 55 {
                        return Ok(RegisterAddress((u - 48) as u8));
                    }
                    if 65 <= u && u <= 72 {
                        return Ok(RegisterAddress((u - 65) as u8));
                    }
                }
                Err(
                    ParserError::ExpectedFound {
                        expected: "valid register number (0..7 | A..H)".to_owned(),
                        found: name.as_str().substring_char(3, len).to_owned(),
                        line_number: *line_number,
                    },
                )
            } else {
                Err(
                    ParserError::ExpectedFound {
                        expected: "valid register identifier".to_owned(),
                        found: name.clone(),
                        line_number: *line_number,
                    },
                )
            }
        },
        _ => Err(
            ParserError::ExpectedFound {
                expected: "Keyword::RegisterAddress".to_owned(),
                found: keyword.get_original_string(),
                line_number: keyword.get_line_number(),
            },
        ),
    }
}

/// Constant operand parsing: the token must be a constant.
pub open spec fn spec_parse_constant(k: SpecKeyword) -> Result<Constant, SpecParserError> {
    match k {
        SpecKeyword::Constant { value, .. } => Ok(Constant(value)),
        _ => Err(
            SpecParserError::ExpectedFound {
                expected: "Keyword::Constant"@,
                found: spec_original_string(k),
                line_number: spec_line_number(k),
            },
        ),
    }
}

fn try_parse_constant(keyword: &Keyword) -> (r: Result<Constant, ParserError>)
    ensures
        match r {
            Ok(c) => spec_parse_constant(keyword@) == Ok::<Constant, SpecParserError>(c),
            Err(e) => spec_parse_constant(keyword@) == Err::<Constant, SpecParserError>(e@),
        },
{
    match keyword {
        Keyword::Constant { value, .. } => Ok(Constant(*value)),
        _ => Err(
            ParserError::ExpectedFound {
                expected: "Keyword::Constant".to_owned(),
                found: keyword.get_original_string(),
                line_number: keyword.get_line_number(),
            },
        ),
    }
}

/// Boolean operand parsing: the token must be a boolean.
pub open spec fn spec_parse_bool(k: SpecKeyword) -> Result<Boolean, SpecParserError> {
    match k {
        SpecKeyword::Boolean { value, .. } => Ok(Boolean(value)),
        _ => Err(
            SpecParserError::ExpectedFound {
                expected: "Keyword::Boolean"@,
                found: spec_original_string(k),
                line_number: spec_line_number(k),
            },
        ),
    }
}

fn try_parse_bool(keyword: &Keyword) -> (r: Result<Boolean, ParserError>)
    ensures
        match r {
            Ok(b) => spec_parse_bool(keyword@) == Ok::<Boolean, SpecParserError>(b),
            Err(e) => spec_parse_bool(keyword@) == Err::<Boolean, SpecParserError>(e@),
        },
{
    match keyword {
        Keyword::Boolean { value, .. } => Ok(Boolean(*value)),
        _ => Err(
            ParserError::ExpectedFound {
                expected: "Keyword::Boolean".to_owned(),
                found: keyword.get_original_string(),
                line_number: keyword.get_line_number(),
            },
        ),
    }
}

/// Label-reference operand parsing: the token must be a bare label name; the
/// label need not be defined yet, enabling forward references.
pub open spec fn spec_parse_label_reference(k: SpecKeyword) -> Result<Seq<char>, SpecParserError> {
    match k {
        SpecKeyword::Label { name, .. } => Ok(name),
        _ => Err(
            SpecParserError::ExpectedFound {
                expected: "Keyword::Label"@,
                found: spec_original_string(k),
                line_number: spec_line_number(k),
            },
        ),
    }
}

fn try_parse_label_reference(keyword: &Keyword) -> (r: Result<LabelReference, ParserError>)
    ensures
        match r {
            Ok(l) => spec_parse_label_reference(keyword@) == Ok::<Seq<char>, SpecParserError>(l@),
            Err(e) => spec_parse_label_reference(keyword@) == Err::<Seq<char>, SpecParserError>(
                e@,
            ),
        },
{
    match keyword {
        Keyword::Label { name, .. } => Ok(LabelReference(name.clone())),
        _ => Err(
            ParserError::ExpectedFound {
                expected: "Keyword::Label".to_owned(),
                found: keyword.get_original_string(),
                line_number: keyword.get_line_number(),
            },
        ),
    }
}

/// Label definition parsing: a label token becomes a definition at the
/// previous label's address plus the instructions emitted since it.
pub open spec fn spec_parse_label_definition(
    k: SpecKeyword,
    last_label_address: u16,
    instructions_since_label: u16,
) -> Result<SpecLabelDefinition, SpecParserError> {
    match k {
        SpecKeyword::Label { name, .. } => Ok(
            SpecLabelDefinition {
                name,
                address: ((last_label_address + instructions_since_label) % 0x10000) as u16,
            },
        ),
        _ => Err(
            SpecParserError::ExpectedFound {
                expected: "Keyword::Label"@,
                found: spec_original_string(k),
                line_number: spec_line_number(k),
            },
        ),
    }
}

fn try_parse_label_definition(
    keyword: &Keyword,
    last_label_address: u16,
    instructions_since_label: u16,
) -> (r: Result<LabelDefinition, ParserError>)
    requires
        last_label_address + instructions_since_label <= 0xFFFF,
    ensures
        match r {
            Ok(d) => spec_parse_label_definition(
                keyword@,
                last_label_address,
                instructions_since_label,
            ) == Ok::<SpecLabelDefinition, SpecParserError>(d@),
            Err(e) => spec_parse_label_definition(
                keyword@,
                last_label_address,
                instructions_since_label,
            ) == Err::<SpecLabelDefinition, SpecParserError>(e@),
        },
{
    match keyword {
        Keyword::Label { name, .. } => {
            let addr = last_label_address + instructions_since_label;
            proof {
                vstd::arithmetic::div_mod::lemma_small_mod(addr as nat, 0x10000);
            }
            Ok(LabelDefinition::new(name.as_str(), addr))
        },
        _ => Err(
            ParserError::ExpectedFound {
                expected: "Keyword::Label".to_owned(),
                found: keyword.get_original_string(),
                line_number: keyword.get_line_number(),
            },
        ),
    }
}

// ---------------------------------------------------------------------------
// Instruction shapes
// ---------------------------------------------------------------------------

/// `cmd $TargetRegister $SourceRegister`
pub open spec fn spec_parse_unary_expression(
    toks: Seq<SpecKeyword>,
    i: int,
    cmd: Seq<char>,
    ln: u16,
) -> Result<(UnaryExpression, int), SpecParserError> {
    if i >= toks.len() {
        Err(
            SpecParserError::MissingArgument {
                command: cmd,
                arg_name: "TargetRegister"@,
                line_number: ln,
            },
        )
    } else {
        match spec_parse_register(toks[i]) {
            Err(e) => Err(e),
            Ok(t) => if i + 1 >= toks.len() {
                Err(
                    SpecParserError::MissingArgument {
                        command: cmd,
                        arg_name: "SourceRegister"@,
                        line_number: ln,
                    },
                )
            } else {
                match spec_parse_register(toks[i + 1]) {
                    Err(e) => Err(e),
                    Ok(a) => Ok(
                        (
                            UnaryExpression {
                                target: Register { address: t },
                                source_a: Register { address: a },
                            },
                            i + 2,
                        ),
                    ),
                }
            },
        }
    }
}

fn try_parse_unary_expression(
    instruction: &str,
    tokens: &Vec<Keyword>,
    pos: &mut usize,
    line_number: u16,
) -> (r: Result<UnaryExpression, ParserError>)
    requires
        *old(pos) <= tokens@.len(),
    ensures
        match r {
            Ok(e) => spec_parse_unary_expression(
                view_keywords(tokens@),
                *old(pos) as int,
                instruction@,
                line_number,
            ) == Ok::<(UnaryExpression, int), SpecParserError>((e, *final(pos) as int)) && *old(
                pos,
            ) < *final(pos) <= tokens@.len(),
            Err(er) => spec_parse_unary_expression(
                view_keywords(tokens@),
                *old(pos) as int,
                instruction@,
                line_number,
            ) == Err::<(UnaryExpression, int), SpecParserError>(er@),
        },
{
    if *pos >= tokens.len() {
        return Err(
            ParserError::MissingArgument {
                command: instruction.to_owned(),
                arg_name: "TargetRegister".to_owned(),
                line_number,
            },
        );
    }
    let t = match try_parse_register(&tokens[*pos]) {
        Ok(t) => t,
        Err(e) => {
            return Err(e);
        },
    };
    *pos = *pos + 1;
    if *pos >= tokens.len() {
        return Err(
            ParserError::MissingArgument {
                command: instruction.to_owned(),
                arg_name: "SourceRegister".to_owned(),
                line_number,
            },
        );
    }
    let a = match try_parse_register(&tokens[*pos]) {
        Ok(a) => a,
        Err(e) => {
            return Err(e);
        },
    };
    *pos = *pos + 1;
    Ok(UnaryExpression::new(Register::new(t), Register::new(a)))
}

/// `cmd $SourceRegister`
pub open spec fn spec_parse_unary_statement(
    toks: Seq<SpecKeyword>,
    i: int,
    cmd: Seq<char>,
    ln: u16,
) -> Result<(UnaryStatement, int), SpecParserError> {
    if i >= toks.len() {
        Err(
            SpecParserError::MissingArgument {
                command: cmd,
                arg_name: "SourceRegister"@,
                line_number: ln,
            },
        )
    } else {
        match spec_parse_register(toks[i]) {
            Err(e) => Err(e),
            Ok(a) => Ok((UnaryStatement { source_a: Register { address: a } }, i + 1)),
        }
    }
}

fn try_parse_unary_statement(
    instruction: &str,
    tokens: &Vec<Keyword>,
    pos: &mut usize,
    line_number: u16,
) -> (r: Result<UnaryStatement, ParserError>)
    requires
        *old(pos) <= tokens@.len(),
    ensures
        match r {
            Ok(e) => spec_parse_unary_statement(
                view_keywords(tokens@),
                *old(pos) as int,
                instruction@,
                line_number,
            ) == Ok::<(UnaryStatement, int), SpecParserError>((e, *final(pos) as int)) && *old(
                pos,
            ) < *final(pos) <= tokens@.len(),
            Err(er) => spec_parse_unary_statement(
                view_keywords(tokens@),
                *old(pos) as int,
                instruction@,
                line_number,
            ) == Err::<(UnaryStatement, int), SpecParserError>(er@),
        },
{
    if *pos >= tokens.len() {
        return Err(
            ParserError::MissingArgument {
                command: instruction.to_owned(),
                arg_name: "SourceRegister".to_owned(),
                line_number,
            },
        );
    }
    let a = match try_parse_register(&tokens[*pos]) {
        Ok(a) => a,
        Err(e) => {
            return Err(e);
        },
    };
    *pos = *pos + 1;
    Ok(UnaryStatement::new(Register::new(a)))
}

/// `cmd $TargetRegister $SourceRegisterA $SourceRegisterB`
pub open spec fn spec_parse_binary_expression(
    toks: Seq<SpecKeyword>,
    i: int,
    cmd: Seq<char>,
    ln: u16,
) -> Result<(BinaryExpression, int), SpecParserError> {
    if i >= toks.len() {
        Err(
            SpecParserError::MissingArgument {
                command: cmd,
                arg_name: "TargetRegister"@,
                line_number: ln,
            },
        )
    } else {
        match spec_parse_register(toks[i]) {
            Err(e) => Err(e),
            Ok(t) => if i + 1 >= toks.len() {
                Err(
                    SpecParserError::MissingArgument {
                        command: cmd,
                        arg_name: "SourceRegisterA"@,
                        line_number: ln,
                    },
                )
            } else {
                match spec_parse_register(toks[i + 1]) {
                    Err(e) => Err(e),
                    Ok(a) => if i + 2 >= toks.len() {
                        Err(
                            SpecParserError::MissingArgument {
                                command: cmd,
                                arg_name: "SourceRegisterB"@,
                                line_number: ln,
                            },
                        )
                    } else {
                        match spec_parse_register(toks[i + 2]) {
                            Err(e) => Err(e),
                            Ok(b) => Ok(
                                (
                                    BinaryExpression {
                                        target: Register { address: t },
                                        source_a: Register { address: a },
                                        source_b: Register { address: b },
                                    },
                                    i + 3,
                                ),
                            ),
                        }
                    },
                }
            },
        }
    }
}

fn try_parse_binary_expression(
    instruction: &str,
    tokens: &Vec<Keyword>,
    pos: &mut usize,
    line_number: u16,
) -> (r: Result<BinaryExpression, ParserError>)
    requires
        *old(pos) <= tokens@.len(),
    ensures
        match r {
            Ok(e) => spec_parse_binary_expression(
                view_keywords(tokens@),
                *old(pos) as int,
                instruction@,
                line_number,
            ) == Ok::<(BinaryExpression, int), SpecParserError>((e, *final(pos) as int)) && *old(
                pos,
            ) < *final(pos) <= tokens@.len(),
            Err(er) => spec_parse_binary_expression(
                view_keywords(tokens@),
                *old(pos) as int,
                instruction@,
                line_number,
            ) == Err::<(BinaryExpression, int), SpecParserError>(er@),
        },
{
    if *pos >= tokens.len() {
        return Err(
            ParserError::MissingArgument {
                command: instruction.to_owned(),
                arg_name: "TargetRegister".to_owned(),
                line_number,
            },
        );
    }
    let t = match try_parse_register(&tokens[*pos]) {
        Ok(t) => t,
        Err(e) => {
            return Err(e);
        },
    };
    *pos = *pos + 1;
    if *pos >= tokens.len() {
        return Err(
            ParserError::MissingArgument {
                command: instruction.to_owned(),
                arg_name: "SourceRegisterA".to_owned(),
                line_number,
            },
        );
    }
    let a = match try_parse_register(&tokens[*pos]) {
        Ok(a) => a,
        Err(e) => {
            return Err(e);
        },
    };
    *pos = *pos + 1;
    if *pos >= tokens.len() {
        return Err(
            ParserError::MissingArgument {
                command: instruction.to_owned(),
                arg_name: "SourceRegisterB".to_owned(),
                line_number,
            },
        );
    }
    let b = match try_parse_register(&tokens[*pos]) {
        Ok(b) => b,
        Err(e) => {
            return Err(e);
        },
    };
    *pos = *pos + 1;
    Ok(BinaryExpression::new(Register::new(t), Register::new(a), Register::new(b)))
}

/// `cmd $SourceRegisterA $SourceRegisterB`
pub open spec fn spec_parse_binary_statement(
    toks: Seq<SpecKeyword>,
    i: int,
    cmd: Seq<char>,
    ln: u16,
) -> Result<(BinaryStatement, int), SpecParserError> {
    if i >= toks.len() {
        Err(
            SpecParserError::MissingArgument {
                command: cmd,
                arg_name: "SourceRegisterA"@,
                line_number: ln,
            },
        )
    } else {
        match spec_parse_register(toks[i]) {
            Err(e) => Err(e),
            Ok(a) => if i + 1 >= toks.len() {
                Err(
                    SpecParserError::MissingArgument {
                        command: cmd,
                        arg_name: "SourceRegisterB"@,
                        line_number: ln,
                    },
                )
            } else {
                match spec_parse_register(toks[i + 1]) {
                    Err(e) => Err(e),
                    Ok(b) => Ok(
                        (
                            BinaryStatement {
                                source_a: Register { address: a },
                                source_b: Register { address: b },
                            },
                            i + 2,
                        ),
                    ),
                }
            },
        }
    }
}

fn try_parse_binary_statement(
    instruction: &str,
    tokens: &Vec<Keyword>,
    pos: &mut usize,
    line_number: u16,
) -> (r: Result<BinaryStatement, ParserError>)
    requires
        *old(pos) <= tokens@.len(),
    ensures
        match r {
            Ok(e) => spec_parse_binary_statement(
                view_keywords(tokens@),
                *old(pos) as int,
                instruction@,
                line_number,
            ) == Ok::<(BinaryStatement, int), SpecParserError>((e, *final(pos) as int)) && *old(
                pos,
            ) < *final(pos) <= tokens@.len(),
            Err(er) => spec_parse_binary_statement(
                view_keywords(tokens@),
                *old(pos) as int,
                instruction@,
                line_number,
            ) == Err::<(BinaryStatement, int), SpecParserError>(er@),
        },
{
    if *pos >= tokens.len() {
        return Err(
            ParserError::MissingArgument {
                command: instruction.to_owned(),
                arg_name: "SourceRegisterA".to_owned(),
                line_number,
            },
        );
    }
    let a = match try_parse_register(&tokens[*pos]) {
        Ok(a) => a,
        Err(e) => {
            return Err(e);
        },
    };
    *pos = *pos + 1;
    if *pos >= tokens.len() {
        return Err(
            ParserError::MissingArgument {
                command: instruction.to_owned(),
                arg_name: "SourceRegisterB".to_owned(),
                line_number,
            },
        );
    }
    let b = match try_parse_register(&tokens[*pos]) {
        Ok(b) => b,
        Err(e) => {
            return Err(e);
        },
    };
    *pos = *pos + 1;
    Ok(BinaryStatement::new(Register::new(a), Register::new(b)))
}

/// `cmd $TargetRegister $SourceRegisterA $SourceRegisterB $SourceRegisterC`
pub open spec fn spec_parse_ternary_expression(
    toks: Seq<SpecKeyword>,
    i: int,
    cmd: Seq<char>,
    ln: u16,
) -> Result<(TernaryExpression, int), SpecParserError> {
    if i >= toks.len() {
        Err(
            SpecParserError::MissingArgument {
                command: cmd,
                arg_name: "TargetRegister"@,
                line_number: ln,
            },
        )
    } else {
        match spec_parse_register(toks[i]) {
            Err(e) => Err(e),
            Ok(t) => if i + 1 >= toks.len() {
                Err(
                    SpecParserError::MissingArgument {
                        command: cmd,
                        arg_name: "SourceRegisterA"@,
                        line_number: ln,
                    },
                )
            } else {
                match spec_parse_register(toks[i + 1]) {
                    Err(e) => Err(e),
                    Ok(a) => if i + 2 >= toks.len() {
                        Err(
                            SpecParserError::MissingArgument {
                                command: cmd,
                                arg_name: "SourceRegisterB"@,
                                line_number: ln,
                            },
                        )
                    } else {
                        match spec_parse_register(toks[i + 2]) {
                            Err(e) => Err(e),
                            Ok(b) => if i + 3 >= toks.len() {
                                Err(
                                    SpecParserError::MissingArgument {
                                        command: cmd,
                                        arg_name: "SourceRegisterC"@,
                                        line_number: ln,
                                    },
                                )
                            } else {
                                match spec_parse_register(toks[i + 3]) {
                                    Err(e) => Err(e),
                                    Ok(c) => Ok(
                                        (
                                            TernaryExpression {
                                                target: Register { address: t },
                                                source_a: Register { address: a },
                                                source_b: Register { address: b },
                                                source_c: Register { address: c },
                                            },
                                            i + 4,
                                        ),
                                    ),
                                }
                            },
                        }
                    },
                }
            },
        }
    }
}

fn try_parse_ternary_expression(
    instruction: &str,
    tokens: &Vec<Keyword>,
    pos: &mut usize,
    line_number: u16,
) -> (r: Result<TernaryExpression, ParserError>)
    requires
        *old(pos) <= tokens@.len(),
    ensures
        match r {
            Ok(e) => spec_parse_ternary_expression(
                view_keywords(tokens@),
                *old(pos) as int,
                instruction@,
                line_number,
            ) == Ok::<(TernaryExpression, int), SpecParserError>((e, *final(pos) as int)) && *old(
                pos,
            ) < *final(pos) <= tokens@.len(),
            Err(er) => spec_parse_ternary_expression(
                view_keywords(tokens@),
                *old(pos) as int,
                instruction@,
                line_number,
            ) == Err::<(TernaryExpression, int), SpecParserError>(er@),
        },
{
    if *pos >= tokens.len() {
        return Err(
            ParserError::MissingArgument {
                command: instruction.to_owned(),
                arg_name: "TargetRegister".to_owned(),
                line_number,
            },
        );
    }
    let t = match try_parse_register(&tokens[*pos]) {
        Ok(t) => t,
        Err(e) => {
            return Err(e);
        },
    };
    *pos = *pos + 1;
    if *pos >= tokens.len() {
        return Err(
            ParserError::MissingArgument {
                command: instruction.to_owned(),
                arg_name: "SourceRegisterA".to_owned(),
                line_number,
            },
        );
    }
    let a = match try_parse_register(&tokens[*pos]) {
        Ok(a) => a,
        Err(e) => {
            return Err(e);
        },
    };
    *pos = *pos + 1;
    if *pos >= tokens.len() {
        return Err(
            ParserError::MissingArgument {
                command: instruction.to_owned(),
                arg_name: "SourceRegisterB".to_owned(),
                line_number,
            },
        );
    }
    let b = match try_parse_register(&tokens[*pos]) {
        Ok(b) => b,
        Err(e) => {
            return Err(e);
        },
    };
    *pos = *pos + 1;
    if *pos >= tokens.len() {
        return Err(
            ParserError::MissingArgument {
                command: instruction.to_owned(),
                arg_name: "SourceRegisterC".to_owned(),
                line_number,
            },
        );
    }
    let c = match try_parse_register(&tokens[*pos]) {
        Ok(c) => c,
        Err(e) => {
            return Err(e);
        },
    };
    *pos = *pos + 1;
    Ok(TernaryExpression::new(Register::new(t), Register::new(a), Register::new(b), Register::new(c)))
}

/// `ldc $TargetRegister Constant16`
pub open spec fn spec_parse_ldc(toks: Seq<SpecKeyword>, i: int, ln: u16) -> Result<
    (SpecInstruction, int),
    SpecParserError,
> {
    if i >= toks.len() {
        Err(
            SpecParserError::MissingArgument {
                command: "ldc"@,
                arg_name: "TargetRegister"@,
                line_number: ln,
            },
        )
    } else {
        match spec_parse_register(toks[i]) {
            Err(e) => Err(e),
            Ok(t) => if i + 1 >= toks.len() {
                Err(
                    SpecParserError::MissingArgument {
                        command: "ldc"@,
                        arg_name: "Constant16"@,
                        line_number: ln,
                    },
                )
            } else {
                match spec_parse_constant(toks[i + 1]) {
                    Err(e) => Err(e),
                    Ok(c) => Ok(
                        (
                            SpecInstruction::Load {
                                address: t,
                                source: LoadSource::Constant(c.0),
                            },
                            i + 2,
                        ),
                    ),
                }
            },
        }
    }
}

fn try_parse_ldc(tokens: &Vec<Keyword>, pos: &mut usize, line_number: u16) -> (r: Result<
    Instruction,
    ParserError,
>)
    requires
        *old(pos) <= tokens@.len(),
    ensures
        match r {
            Ok(instr) => spec_parse_ldc(view_keywords(tokens@), *old(pos) as int, line_number)
                == Ok::<(SpecInstruction, int), SpecParserError>((instr@, *final(pos) as int))
                && *old(pos) < *final(pos) <= tokens@.len(),
            Err(er) => spec_parse_ldc(view_keywords(tokens@), *old(pos) as int, line_number)
                == Err::<(SpecInstruction, int), SpecParserError>(er@),
        },
{
    if *pos >= tokens.len() {
        return Err(
            ParserError::MissingArgument {
                command: "ldc".to_owned(),
                arg_name: "TargetRegister".to_owned(),
                line_number,
            },
        );
    }
    let t = match try_parse_register(&tokens[*pos]) {
        Ok(t) => t,
        Err(e) => {
            return Err(e);
        },
    };
    *pos = *pos + 1;
    if *pos >= tokens.len() {
        return Err(
            ParserError::MissingArgument {
                command: "ldc".to_owned(),
                arg_name: "Constant16".to_owned(),
                line_number,
            },
        );
    }
    let c = match try_parse_constant(&tokens[*pos]) {
        Ok(c) => c,
        Err(e) => {
            return Err(e);
        },
    };
    *pos = *pos + 1;
    Ok(Instruction::Load { address: t, source: LoadSource::Constant(c.0) })
}

/// `jmp`-family: an absolute jump to a register target.
pub open spec fn spec_parse_jmp(
    toks: Seq<SpecKeyword>,
    i: int,
    cmd: Seq<char>,
    ln: u16,
    condition: JumpCondition,
) -> Result<(SpecInstruction, int), SpecParserError> {
    if i >= toks.len() {
        Err(
            SpecParserError::MissingArgument {
                command: cmd,
                arg_name: "DestinationRegister"@,
                line_number: ln,
            },
        )
    } else {
        match spec_parse_register(toks[i]) {
            Ok(t) => Ok(
                (
                    SpecInstruction::Jump {
                        target: SpecJumpTarget::Register(Register { address: t }),
                        condition,
                    },
                    i + 1,
                ),
            ),
            Err(_) => Err(
                SpecParserError::CouldNotParseArgument {
                    command: cmd,
                    arg_name: "DestinationRegister"@,
                    arg_value: spec_original_string(toks[i]),
                    line_number: ln,
                },
            ),
        }
    }
}

fn try_parse_jmp(
    command: &String,
    tokens: &Vec<Keyword>,
    pos: &mut usize,
    line_number: u16,
    condition: JumpCondition,
) -> (r: Result<Instruction, ParserError>)
    requires
        *old(pos) <= tokens@.len(),
    ensures
        match r {
            Ok(instr) => spec_parse_jmp(
                view_keywords(tokens@),
                *old(pos) as int,
                command@,
                line_number,
                condition,
            ) == Ok::<(SpecInstruction, int), SpecParserError>((instr@, *final(pos) as int))
                && *old(pos) < *final(pos) <= tokens@.len(),
            Err(er) => spec_parse_jmp(
                view_keywords(tokens@),
                *old(pos) as int,
                command@,
                line_number,
                condition,
            ) == Err::<(SpecInstruction, int), SpecParserError>(er@),
        },
{
    if *pos >= tokens.len() {
        return Err(
            ParserError::MissingArgument {
                command: command.clone(),
                arg_name: "DestinationRegister".to_owned(),
                line_number,
            },
        );
    }
    match try_parse_register(&tokens[*pos]) {
        Ok(t) => {
            *pos = *pos + 1;
            Ok(
                Instruction::Jump {
                    target: JumpTarget::Register(Register::new(t)),
                    condition,
                },
            )
        },
        Err(_) => Err(
            ParserError::CouldNotParseArgument {
                command: command.clone(),
                arg_name: "DestinationRegister".to_owned(),
                arg_value: tokens[*pos].get_original_string(),
                line_number,
            },
        ),
    }
}

/// `jr`-family: a relative jump to a signed 12-bit displacement or a label.
pub open spec fn spec_parse_jr(
    toks: Seq<SpecKeyword>,
    i: int,
    cmd: Seq<char>,
    ln: u16,
    condition: JumpCondition,
) -> Result<(SpecInstruction, int), SpecParserError> {
    if i >= toks.len() {
        Err(
            SpecParserError::MissingArgument {
                command: cmd,
                arg_name: "ConstantSigned12 or JumpLabel"@,
                line_number: ln,
            },
        )
    } else {
        match toks[i] {
            SpecKeyword::Constant { value, .. } => Ok(
                (
                    SpecInstruction::Jump {
                        target: SpecJumpTarget::Constant(value),
                        condition,
                    },
                    i + 1,
                ),
            ),
            SpecKeyword::Label { name, .. } => Ok(
                (
                    SpecInstruction::Jump { target: SpecJumpTarget::Label(name), condition },
                    i + 1,
                ),
            ),
            _ => Err(
                SpecParserError::CouldNotParseArgument {
                    command: cmd,
                    arg_name: "ConstantSigned12 or JumpLabel"@,
                    arg_value: spec_original_string(toks[i]),
                    line_number: ln,
                },
            ),
        }
    }
}

fn try_parse_jr(
    command: &String,
    tokens: &Vec<Keyword>,
    pos: &mut usize,
    line_number: u16,
    condition: JumpCondition,
) -> (r: Result<Instruction, ParserError>)
    requires
        *old(pos) <= tokens@.len(),
    ensures
        match r {
            Ok(instr) => spec_parse_jr(
                view_keywords(tokens@),
                *old(pos) as int,
                command@,
                line_number,
                condition,
            ) == Ok::<(SpecInstruction, int), SpecParserError>((instr@, *final(pos) as int))
                && *old(pos) < *final(pos) <= tokens@.len(),
            Err(er) => spec_parse_jr(
                view_keywords(tokens@),
                *old(pos) as int,
                command@,
                line_number,
                condition,
            ) == Err::<(SpecInstruction, int), SpecParserError>(er@),
        },
{
    if *pos >= tokens.len() {
        return Err(
            ParserError::MissingArgument {
                command: command.clone(),
                arg_name: "ConstantSigned12 or JumpLabel".to_owned(),
                line_number,
            },
        );
    }
    match try_parse_constant(&tokens[*pos]) {
        Ok(c) => {
            *pos = *pos + 1;
            Ok(Instruction::Jump { target: JumpTarget::Constant(c.0), condition })
        },
        Err(_) => match try_parse_label_reference(&tokens[*pos]) {
            Ok(l) => {
                *pos = *pos + 1;
                Ok(Instruction::Jump { target: JumpTarget::Label(l), condition })
            },
            Err(_) => Err(
                ParserError::CouldNotParseArgument {
                    command: command.clone(),
                    arg_name: "ConstantSigned12 or JumpLabel".to_owned(),
                    arg_value: tokens[*pos].get_original_string(),
                    line_number,
                },
            ),
        },
    }
}

/// `s32b EnableBoolean`
pub open spec fn spec_parse_s32b(toks: Seq<SpecKeyword>, i: int, ln: u16) -> Result<
    (SpecInstruction, int),
    SpecParserError,
> {
    if i >= toks.len() {
        Err(
            SpecParserError::MissingArgument {
                command: "s32b"@,
                arg_name: "EnableBoolean"@,
                line_number: ln,
            },
        )
    } else {
        match spec_parse_bool(toks[i]) {
            Ok(b) => Ok((SpecInstruction::Set32BitMode { enable: b }, i + 1)),
            Err(_) => Err(
                SpecParserError::CouldNotParseArgument {
                    command: "s32b"@,
                    arg_name: "EnableBoolean"@,
                    arg_value: spec_original_string(toks[i]),
                    line_number: ln,
                },
            ),
        }
    }
}

fn try_parse_s32b(tokens: &Vec<Keyword>, pos: &mut usize, line_number: u16) -> (r: Result<
    Instruction,
    ParserError,
>)
    requires
        *old(pos) <= tokens@.len(),
    ensures
        match r {
            Ok(instr) => spec_parse_s32b(view_keywords(tokens@), *old(pos) as int, line_number)
                == Ok::<(SpecInstruction, int), SpecParserError>((instr@, *final(pos) as int))
                && *old(pos) < *final(pos) <= tokens@.len(),
            Err(er) => spec_parse_s32b(view_keywords(tokens@), *old(pos) as int, line_number)
                == Err::<(SpecInstruction, int), SpecParserError>(er@),
        },
{
    if *pos >= tokens.len() {
        return Err(
            ParserError::MissingArgument {
                command: "s32b".to_owned(),
                arg_name: "EnableBoolean".to_owned(),
                line_number,
            },
        );
    }
    match try_parse_bool(&tokens[*pos]) {
        Ok(b) => {
            *pos = *pos + 1;
            Ok(Instruction::Set32BitMode { enable: b })
        },
        Err(_) => Err(
            ParserError::CouldNotParseArgument {
                command: "s32b".to_owned(),
                arg_name: "EnableBoolean".to_owned(),
                arg_value: tokens[*pos].get_original_string(),
                line_number,
            },
        ),
    }
}

// ---------------------------------------------------------------------------
// Instruction dispatch
// ---------------------------------------------------------------------------

/// The table from mnemonic name to instruction shape and constructor; the
/// operands start at position `j`.
pub open spec fn spec_dispatch_mnemonic(
    toks: Seq<SpecKeyword>,
    j: int,
    name: Seq<char>,
    ln: u16,
) -> Result<(SpecInstruction, int), SpecParserError> {
    if name == "ldc"@ {
        spec_parse_ldc(toks, j, ln)
    } else if name == "add"@ {
        match spec_parse_binary_expression(toks, j, name, ln) {
            Ok((e, n)) => Ok((SpecInstruction::Add(e), n)),
            Err(er) => Err(er),
        }
    } else if name == "add3"@ {
        match spec_parse_ternary_expression(toks, j, name, ln) {
            Ok((e, n)) => Ok((SpecInstruction::Add3(e), n)),
            Err(er) => Err(er),
        }
    } else if name == "addc"@ {
        match spec_parse_binary_expression(toks, j, name, ln) {
            Ok((e, n)) => Ok((SpecInstruction::AddWithCarry(e), n)),
            Err(er) => Err(er),
        }
    } else if name == "sub"@ {
        match spec_parse_binary_expression(toks, j, name, ln) {
            Ok((e, n)) => Ok((SpecInstruction::Subtract(e), n)),
            Err(er) => Err(er),
        }
    } else if name == "subc"@ {
        match spec_parse_binary_expression(toks, j, name, ln) {
            Ok((e, n)) => Ok((SpecInstruction::SubtractWithCarry(e), n)),
            Err(er) => Err(er),
        }
    } else if name == "inc"@ {
        match spec_parse_unary_statement(toks, j, name, ln) {
            Ok((s, n)) => Ok(
                (
                    SpecInstruction::Increment(
                        UnaryExpression { target: s.source_a, source_a: s.source_a },
                    ),
                    n,
                ),
            ),
            Err(er) => Err(er),
        }
    } else if name == "dec"@ {
        match spec_parse_unary_statement(toks, j, name, ln) {
            Ok((s, n)) => Ok(
                (
                    SpecInstruction::Decrement(
                        UnaryExpression { target: s.source_a, source_a: s.source_a },
                    ),
                    n,
                ),
            ),
            Err(er) => Err(er),
        }
    } else if name == "mul"@ {
        match spec_parse_binary_expression(toks, j, name, ln) {
            Ok((e, n)) => Ok((SpecInstruction::Multiply(e), n)),
            Err(er) => Err(er),
        }
    } else if name == "and"@ {
        match spec_parse_binary_expression(toks, j, name, ln) {
            Ok((e, n)) => Ok((SpecInstruction::AND(e), n)),
            Err(er) => Err(er),
        }
    } else if name == "or"@ {
        match spec_parse_binary_expression(toks, j, name, ln) {
            Ok((e, n)) => Ok((SpecInstruction::OR(e), n)),
            Err(er) => Err(er),
        }
    } else if name == "not"@ {
        match spec_parse_unary_expression(toks, j, name, ln) {
            Ok((e, n)) => Ok((SpecInstruction::NOT(e), n)),
            Err(er) => Err(er),
        }
    } else if name == "neg"@ {
        match spec_parse_unary_expression(toks, j, name, ln) {
            Ok((e, n)) => Ok((SpecInstruction::Negate(e), n)),
            Err(er) => Err(er),
        }
    } else if name == "xor"@ {
        match spec_parse_binary_expression(toks, j, name, ln) {
            Ok((e, n)) => Ok((SpecInstruction::XOR(e), n)),
            Err(er) => Err(er),
        }
    } else if name == "xnor"@ {
        match spec_parse_binary_expression(toks, j, name, ln) {
            Ok((e, n)) => Ok((SpecInstruction::XNOR(e), n)),
            Err(er) => Err(er),
        }
    } else if name == "shl"@ {
        match spec_parse_binary_expression(toks, j, name, ln) {
            Ok((e, n)) => Ok((SpecInstruction::ShiftLeft(e), n)),
            Err(er) => Err(er),
        }
    } else if name == "shr"@ {
        match spec_parse_binary_expression(toks, j, name, ln) {
            Ok((e, n)) => Ok((SpecInstruction::ShiftRight(e), n)),
            Err(er) => Err(er),
        }
    } else if name == "tst"@ {
        match spec_parse_binary_statement(toks, j, name, ln) {
            Ok((s, n)) => Ok((SpecInstruction::Test(s), n)),
            Err(er) => Err(er),
        }
    } else if name == "mov"@ {
        match spec_parse_unary_expression(toks, j, name, ln) {
            Ok((e, n)) => Ok((SpecInstruction::Move(e), n)),
            Err(er) => Err(er),
        }
    } else if name == "s32b"@ {
        spec_parse_s32b(toks, j, ln)
    } else if name == "hlt"@ {
        Ok((SpecInstruction::Halt, j))
    } else if name == "jmp"@ {
        spec_parse_jmp(toks, j, name, ln, JumpCondition::True)
    } else if name == "jz"@ {
        spec_parse_jmp(toks, j, name, ln, JumpCondition::Zero)
    } else if name == "jnz"@ {
        spec_parse_jmp(toks, j, name, ln, JumpCondition::NotZero)
    } else if name == "jc"@ {
        spec_parse_jmp(toks, j, name, ln, JumpCondition::Less)
    } else if name == "jo"@ {
        spec_parse_jmp(toks, j, name, ln, JumpCondition::Overflow)
    } else if name == "jrcon"@ {
        spec_parse_jr(toks, j, name, ln, JumpCondition::True)
    } else if name == "jr"@ {
        spec_parse_jr(toks, j, name, ln, JumpCondition::True)
    } else if name == "jzr"@ {
        spec_parse_jr(toks, j, name, ln, JumpCondition::Zero)
    } else if name == "jnzr"@ {
        spec_parse_jr(toks, j, name, ln, JumpCondition::NotZero)
    } else if name == "jcr"@ {
        spec_parse_jr(toks, j, name, ln, JumpCondition::Less)
    } else if name == "jor"@ {
        spec_parse_jr(toks, j, name, ln, JumpCondition::Overflow)
    } else if name == "st"@ {
        match spec_parse_unary_expression(toks, j, name, ln) {
            Ok((e, n)) => Ok(
                (
                    SpecInstruction::StoreRAM {
                        address_register: e.target.address,
                        data_register: e.source_a.address,
                    },
                    n,
                ),
            ),
            Err(er) => Err(er),
        }
    } else if name == "ld"@ {
        match spec_parse_unary_expression(toks, j, name, ln) {
            Ok((e, n)) => Ok(
                (
                    SpecInstruction::Load {
                        address: e.target.address,
                        source: LoadSource::RAM { address_register: e.source_a },
                    },
                    n,
                ),
            ),
            Err(er) => Err(er),
        }
    } else if name == "nop"@ {
        Ok((SpecInstruction::Noop, j))
    } else {
        Err(SpecParserError::UnknownCommand { command: name, line_number: ln })
    }
}

/// One instruction parse, starting at the mnemonic at position `i`.
pub open spec fn spec_parse_instruction(toks: Seq<SpecKeyword>, i: int) -> Result<
    (SpecInstruction, int),
    SpecParserError,
> {
    if !(0 <= i < toks.len()) {
        Err(SpecParserError::EndOfStream)
    } else {
        match toks[i] {
            SpecKeyword::Mmenonic { name, line_number } => spec_dispatch_mnemonic(
                toks,
                i + 1,
                name,
                line_number,
            ),
            _ => Err(
                SpecParserError::UnknownCommand {
                    command: spec_command_name(toks[i]),
                    line_number: spec_line_number(toks[i]),
                },
            ),
        }
    }
}

/// Parses one instruction: the mnemonic at `*pos` selects the operand shape
/// from the mnemonic table, and the operand parsers consume exactly the
/// tokens that shape needs.
#[verifier::rlimit(40)]
fn try_parse_instruction(tokens: &Vec<Keyword>, pos: &mut usize) -> (r: Result<
    Instruction,
    ParserError,
>)
    requires
        *old(pos) < tokens@.len(),
    ensures
        match r {
            Ok(instr) => spec_parse_instruction(view_keywords(tokens@), *old(pos) as int) == Ok::<
                (SpecInstruction, int),
                SpecParserError,
            >((instr@, *final(pos) as int)) && *old(pos) < *final(pos) <= tokens@.len(),
            Err(er) => spec_parse_instruction(view_keywords(tokens@), *old(pos) as int) == Err::<
                (SpecInstruction, int),
                SpecParserError,
            >(er@),
        },
{
    proof {
        assert(view_keywords(tokens@)[*old(pos) as int] == tokens@[*old(pos) as int]@);
    }
    match &tokens[*pos] {
        Keyword::Mmenonic { name, line_number } => {
            let ln = *line_number;
            proof {
                vstd::std_specs::vec::axiom_spec_len(tokens);
            }
            *pos = *pos + 1;
            if str_eq(name.as_str(), "ldc") {
                try_parse_ldc(tokens, pos, ln)
            } else if str_eq(name.as_str(), "add") {
                match try_parse_binary_expression(name.as_str(), tokens, pos, ln) {
                    Ok(e) => Ok(Instruction::Add(e)),
                    Err(er) => Err(er),
                }
            } else if str_eq(name.as_str(), "add3") {
                match try_parse_ternary_expression(name.as_str(), tokens, pos, ln) {
                    Ok(e) => Ok(Instruction::Add3(e)),
                    Err(er) => Err(er),
                }
            } else if str_eq(name.as_str(), "addc") {
                match try_parse_binary_expression(name.as_str(), tokens, pos, ln) {
                    Ok(e) => Ok(Instruction::AddWithCarry(e)),
                    Err(er) => Err(er),
                }
            } else if str_eq(name.as_str(), "sub") {
                match try_parse_binary_expression(name.as_str(), tokens, pos, ln) {
                    Ok(e) => Ok(Instruction::Subtract(e)),
                    Err(er) => Err(er),
                }
            } else if str_eq(name.as_str(), "subc") {
                match try_parse_binary_expression(name.as_str(), tokens, pos, ln) {
                    Ok(e) => Ok(Instruction::SubtractWithCarry(e)),
                    Err(er) => Err(er),
                }
            } else if str_eq(name.as_str(), "inc") {
                match try_parse_unary_statement(name.as_str(), tokens, pos, ln) {
                    Ok(s) => Ok(
                        Instruction::Increment(UnaryExpression::new(s.source_a, s.source_a)),
                    ),
                    Err(er) => Err(er),
                }
            } else if str_eq(name.as_str(), "dec") {
                match try_parse_unary_statement(name.as_str(), tokens, pos, ln) {
                    Ok(s) => Ok(
                        Instruction::Decrement(UnaryExpression::new(s.source_a, s.source_a)),
                    ),
                    Err(er) => Err(er),
                }
            } else if str_eq(name.as_str(), "mul") {
                match try_parse_binary_expression(name.as_str(), tokens, pos, ln) {
                    Ok(e) => Ok(Instruction::Multiply(e)),
                    Err(er) => Err(er),
                }
            } else if str_eq(name.as_str(), "and") {
                match try_parse_binary_expression(name.as_str(), tokens, pos, ln) {
                    Ok(e) => Ok(Instruction::AND(e)),
                    Err(er) => Err(er),
                }
            } else if str_eq(name.as_str(), "or") {
                match try_parse_binary_expression(name.as_str(), tokens, pos, ln) {
                    Ok(e) => Ok(Instruction::OR(e)),
                    Err(er) => Err(er),
                }
            } else if str_eq(name.as_str(), "not") {
                match try_parse_unary_expression(name.as_str(), tokens, pos, ln) {
                    Ok(e) => Ok(Instruction::NOT(e)),
                    Err(er) => Err(er),
                }
            } else if str_eq(name.as_str(), "neg") {
                match try_parse_unary_expression(name.as_str(), tokens, pos, ln) {
                    Ok(e) => Ok(Instruction::Negate(e)),
                    Err(er) => Err(er),
                }
            } else if str_eq(name.as_str(), "xor") {
                match try_parse_binary_expression(name.as_str(), tokens, pos, ln) {
                    Ok(e) => Ok(Instruction::XOR(e)),
                    Err(er) => Err(er),
                }
            } else if str_eq(name.as_str(), "xnor") {
                match try_parse_binary_expression(name.as_str(), tokens, pos, ln) {
                    Ok(e) => Ok(Instruction::XNOR(e)),
                    Err(er) => Err(er),
                }
            } else if str_eq(name.as_str(), "shl") {
                match try_parse_binary_expression(name.as_str(), tokens, pos, ln) {
                    Ok(e) => Ok(Instruction::ShiftLeft(e)),
                    Err(er) => Err(er),
                }
            } else if str_eq(name.as_str(), "shr") {
                match try_parse_binary_expression(name.as_str(), tokens, pos, ln) {
                    Ok(e) => Ok(Instruction::ShiftRight(e)),
                    Err(er) => Err(er),
                }
            } else if str_eq(name.as_str(), "tst") {
                match try_parse_binary_statement(name.as_str(), tokens, pos, ln) {
                    Ok(s) => Ok(Instruction::Test(s)),
                    Err(er) => Err(er),
                }
            } else if str_eq(name.as_str(), "mov") {
                match try_parse_unary_expression(name.as_str(), tokens, pos, ln) {
                    Ok(e) => Ok(Instruction::Move(e)),
                    Err(er) => Err(er),
                }
            } else if str_eq(name.as_str(), "s32b") {
                try_parse_s32b(tokens, pos, ln)
            } else if str_eq(name.as_str(), "hlt") {
                Ok(Instruction::Halt)
            } else if str_eq(name.as_str(), "jmp") {
                try_parse_jmp(name, tokens, pos, ln, JumpCondition::True)
            } else if str_eq(name.as_str(), "jz") {
                try_parse_jmp(name, tokens, pos, ln, JumpCondition::Zero)
            } else if str_eq(name.as_str(), "jnz") {
                try_parse_jmp(name, tokens, pos, ln, JumpCondition::NotZero)
            } else if str_eq(name.as_str(), "jc") {
                try_parse_jmp(name, tokens, pos, ln, JumpCondition::Less)
            } else if str_eq(name.as_str(), "jo") {
                try_parse_jmp(name, tokens, pos, ln, JumpCondition::Overflow)
            } else if str_eq(name.as_str(), "jrcon") {
                try_parse_jr(name, tokens, pos, ln, JumpCondition::True)
            } else if str_eq(name.as_str(), "jr") {
                try_parse_jr(name, tokens, pos, ln, JumpCondition::True)
            } else if str_eq(name.as_str(), "jzr") {
                try_parse_jr(name, tokens, pos, ln, JumpCondition::Zero)
            } else if str_eq(name.as_str(), "jnzr") {
                try_parse_jr(name, tokens, pos, ln, JumpCondition::NotZero)
            } else if str_eq(name.as_str(), "jcr") {
                try_parse_jr(name, tokens, pos, ln, JumpCondition::Less)
            } else if str_eq(name.as_str(), "jor") {
                try_parse_jr(name, tokens, pos, ln, JumpCondition::Overflow)
            } else if str_eq(name.as_str(), "st") {
                match try_parse_unary_expression(name.as_str(), tokens, pos, ln) {
                    Ok(e) => Ok(
                        Instruction::StoreRAM {
                            address_register: e.target.address,
                            data_register: e.source_a.address,
                        },
                    ),
                    Err(er) => Err(er),
                }
            } else if str_eq(name.as_str(), "ld") {
                match try_parse_unary_expression(name.as_str(), tokens, pos, ln) {
                    Ok(e) => Ok(
                        Instruction::Load {
                            address: e.target.address,
                            source: LoadSource::RAM { address_register: e.source_a },
                        },
                    ),
                    Err(er) => Err(er),
                }
            } else if str_eq(name.as_str(), "nop") {
                Ok(Instruction::Noop)
            } else {
                Err(ParserError::UnknownCommand { command: name.clone(), line_number: ln })
            }
        },
        _ => Err(
            ParserError::UnknownCommand {
                command: command_name(&tokens[*pos]),
                line_number: tokens[*pos].get_line_number(),
            },
        ),
    }
}

// ---------------------------------------------------------------------------
// The parse loop
// ---------------------------------------------------------------------------

/// The single left-to-right scan, from token `i` on.  A label token resolves
/// to the previous label's address plus the instructions emitted since it
/// and starts a fresh block; any other token is parsed as an instruction and
/// appended to the current label's block; the end of the stream yields the
/// accumulated representation.
pub open spec fn spec_parse_loop(
    toks: Seq<SpecKeyword>,
    i: int,
    start: Seq<char>,
    last: SpecLabelDefinition,
    count: u16,
    lut: Seq<SpecLabelDefinition>,
    blocks: Seq<SpecBlock>,
) -> Result<SpecIR, SpecParserError>
    decreases toks.len() - i,
{
    if !(0 <= i < toks.len()) {
        Ok(SpecIR { start_label: start, label_definitions: lut, instructions: blocks })
    } else {
        match toks[i] {
            SpecKeyword::Label { name, .. } => {
                let def = SpecLabelDefinition {
                    name,
                    address: ((last.address + count) % 0x10000) as u16,
                };
                spec_parse_loop(
                    toks,
                    i + 1,
                    start,
                    def,
                    0,
                    lut_insert(lut, def),
                    blocks_reset(blocks, name),
                )
            },
            _ => match spec_parse_instruction(toks, i) {
                Err(e) => Err(e),
                Ok((instr, next)) => {
                    // A successful instruction parse always advances; the
                    // guard only makes the recursion visibly terminating.
                    let nn = if i < next <= toks.len() {
                        next
                    } else {
                        i + 1
                    };
                    spec_parse_loop(
                        toks,
                        nn,
                        start,
                        last,
                        (((count + 1) as int) % 0x10000) as u16,
                        lut,
                        blocks_append(blocks, last.name, instr),
                    )
                },
            },
        }
    }
}

/// The whole parse: an empty stream fails; a leading label token becomes the
/// start label at address 0; otherwise a synthetic `main` label at address 0
/// is created and the first token is parsed as an instruction under it.
pub open spec fn spec_parse(toks: Seq<SpecKeyword>) -> Result<SpecIR, SpecParserError> {
    if toks.len() == 0 {
        Err(SpecParserError::EmptyStream)
    } else {
        match toks[0] {
            SpecKeyword::Label { name, .. } => {
                let start = SpecLabelDefinition { name, address: 0 };
                spec_parse_loop(toks, 1, name, start, 0, seq![start], Seq::empty())
            },
            _ => {
                let start = SpecLabelDefinition { name: "main"@, address: 0 };
                match spec_parse_instruction(toks, 0) {
                    Err(e) => Err(e),
                    Ok((instr, next)) => {
                        let nn = if 0 < next <= toks.len() {
                            next
                        } else {
                            1
                        };
                        spec_parse_loop(
                            toks,
                            nn,
                            "main"@,
                            start,
                            1,
                            seq![start],
                            seq![SpecBlock { label: "main"@, instructions: seq![instr] }],
                        )
                    },
                }
            },
        }
    }
}

/// Clones a label definition.
fn clone_def(d: &LabelDefinition) -> (r: LabelDefinition)
    ensures
        r@ == d@,
{
    LabelDefinition { name: d.name.clone(), address: d.address }
}

/// Binds a definition in the table: any previous definition of the same
/// name is removed, and the new one goes to the end, keeping the table in
/// address order.
fn lut_insert_exec(lut: &mut LabelLUT, def: LabelDefinition)
    ensures
        final(lut)@ == lut_insert(old(lut)@, def@),
{
    proof {
        lemma_lut_find_idx(lut@, def@.name);
    }
    let ghost lv = lut@;
    let mut i: usize = 0;
    let mut found: bool = false;
    while i < lut.0.len() && !found
        invariant
            i <= lut.0@.len(),
            lut@ == lv,
            !found ==> forall|k: int| 0 <= k < i ==> (#[trigger] lv[k]).name != def@.name,
            found ==> i < lv.len() && lv[i as int].name == def@.name && forall|k: int|
                0 <= k < i ==> (#[trigger] lv[k]).name != def@.name,
        decreases lv.len() - i + (if found { 0int } else { 1int }),
    {
        if lut.0[i].name == def.name {
            found = true;
        } else {
            i = i + 1;
        }
    }
    proof {
        lemma_lut_find_idx(lv, def@.name);
        if found {
            assert(lut_find_idx(lv, def@.name) == i as int);
        } else {
            assert(lut_find_idx(lv, def@.name) == -1);
        }
    }
    if found {
        let _ = lut.0.remove(i);
        proof {
            assert(lut@ =~= lv.remove(i as int));
        }
    }
    let ghost mid = lut@;
    lut.0.push(def);
    proof {
        assert(lut@ =~= mid.push(def@));
    }
}

/// Starts (or restarts) the block of `name` with an empty instruction list.
fn blocks_reset_exec(blocks: &mut Vec<InstructionBlock>, name: &String)
    ensures
        view_blocks(final(blocks)@) == blocks_reset(view_blocks(old(blocks)@), name@),
{
    let ghost bv = view_blocks(blocks@);
    let mut i: usize = 0;
    let mut found: bool = false;
    while i < blocks.len() && !found
        invariant
            i <= blocks@.len(),
            bv == view_blocks(blocks@),
            !found ==> forall|k: int| 0 <= k < i ==> (#[trigger] bv[k]).label != name@,
            found ==> i < bv.len() && bv[i as int].label == name@ && forall|k: int|
                0 <= k < i ==> (#[trigger] bv[k]).label != name@,
        decreases bv.len() - i + (if found { 0int } else { 1int }),
    {
        if blocks[i].label.0 == *name {
            found = true;
        } else {
            i = i + 1;
        }
    }
    proof {
        lemma_block_find_idx(bv, name@);
        if found {
            assert(crate::ir::block_find_idx(bv, name@) == i as int);
        } else {
            assert(crate::ir::block_find_idx(bv, name@) == -1);
        }
    }
    if found {
        let blk = &mut blocks[i];
        blk.instructions = Vec::new();
        proof {
            assert(view_blocks(blocks@) =~~= blocks_reset(bv, name@));
        }
    } else {
        blocks.push(
            InstructionBlock { label: LabelReference(name.clone()), instructions: Vec::new() },
        );
        proof {
            assert(view_blocks(blocks@) =~~= blocks_reset(bv, name@));
        }
    }
}

/// Appends one instruction to the block of `name`, creating the block when
/// it does not exist yet.
fn blocks_append_exec(blocks: &mut Vec<InstructionBlock>, name: &String, instr: Instruction)
    ensures
        view_blocks(final(blocks)@) == blocks_append(
            view_blocks(old(blocks)@),
            name@,
            instr@,
        ),
{
    let ghost bv = view_blocks(blocks@);
    let ghost iv = instr@;
    let mut i: usize = 0;
    let mut found: bool = false;
    while i < blocks.len() && !found
        invariant
            i <= blocks@.len(),
            bv == view_blocks(blocks@),
            !found ==> forall|k: int| 0 <= k < i ==> (#[trigger] bv[k]).label != name@,
            found ==> i < bv.len() && bv[i as int].label == name@ && forall|k: int|
                0 <= k < i ==> (#[trigger] bv[k]).label != name@,
        decreases bv.len() - i + (if found { 0int } else { 1int }),
    {
        if blocks[i].label.0 == *name {
            found = true;
        } else {
            i = i + 1;
        }
    }
    proof {
        lemma_block_find_idx(bv, name@);
        if found {
            assert(crate::ir::block_find_idx(bv, name@) == i as int);
        } else {
            assert(crate::ir::block_find_idx(bv, name@) == -1);
        }
    }
    if found {
        let blk = &mut blocks[i];
        blk.instructions.push(instr);
        proof {
            assert(view_blocks(blocks@)[i as int].instructions =~= bv[i as int].instructions.push(
                iv,
            ));
            assert(view_blocks(blocks@) =~~= blocks_append(bv, name@, iv));
        }
    } else {
        let mut instrs: Vec<Instruction> = Vec::new();
        instrs.push(instr);
        blocks.push(InstructionBlock { label: LabelReference(name.clone()), instructions: instrs });
        proof {
            assert(view_blocks(blocks@) =~~= blocks_append(bv, name@, iv));
        }
    }
}

/// Consumes the token sequence and builds the intermediate representation,
/// or fails with the first fatal parse error.  The result is well-formed:
/// label names are unique, their addresses non-decreasing in table order,
/// and every block belongs to a defined label.
pub fn parser(keywords: Vec<Keyword>) -> (r: Result<IR, ParserError>)
    requires
        keywords@.len() <= 0xFFFF,
    ensures
        match r {
            Ok(ir) => spec_parse(view_keywords(keywords@)) == Ok::<SpecIR, SpecParserError>(ir@)
                && ir@.wf(),
            Err(e) => spec_parse(view_keywords(keywords@)) == Err::<SpecIR, SpecParserError>(e@),
        },
{
    let ghost sv = view_keywords(keywords@);
    if keywords.len() == 0 {
        return Err(ParserError::EmptyStream);
    }
    let mut known_labels = LabelLUT::with_capacity(10);
    let mut parsed: Vec<InstructionBlock> = Vec::with_capacity(10);
    let mut pos: usize = 0;
    let mut instructions_since_label: u16 = 0;
    let start_label: LabelDefinition;
    proof {
        assert(sv[0] == keywords@[0]@);
    }
    match try_parse_label_definition(&keywords[0], 0, 0) {
        Ok(def) => {
            start_label = def;
            pos = 1;
            proof {
                assert(view_blocks(parsed@) =~= Seq::<SpecBlock>::empty());
            }
        },
        Err(_) => {
            start_label = LabelDefinition::new("main", 0);
            match try_parse_instruction(&keywords, &mut pos) {
                Ok(instruction) => {
                    let ghost iv = instruction@;
                    let mut instrs: Vec<Instruction> = Vec::new();
                    instrs.push(instruction);
                    parsed.push(
                        InstructionBlock {
                            label: LabelReference::new("main"),
                            instructions: instrs,
                        },
                    );
                    instructions_since_label = 1;
                    proof {
                        assert(view_blocks(parsed@) =~~= seq![
                            SpecBlock { label: "main"@, instructions: seq![iv] },
                        ]);
                    }
                },
                Err(parser_error) => {
                    return Err(parser_error);
                },
            }
        },
    }
    known_labels.0.push(clone_def(&start_label));
    let mut last_label: LabelDefinition = clone_def(&start_label);
    let ghost startv = start_label@.name;
    let start_ref = LabelReference(start_label.name);
    proof {
        assert(known_labels@ =~= seq![start_label@]);
        assert(spec_parse(sv) == spec_parse_loop(
            sv,
            pos as int,
            startv,
            last_label@,
            instructions_since_label,
            known_labels@,
            view_blocks(parsed@),
        ));
    }
    loop
        invariant
            sv == view_keywords(keywords@),
            keywords@.len() <= 0xFFFF,
            1 <= pos <= keywords@.len(),
            startv == start_ref@,
            spec_parse(sv) == spec_parse_loop(
                sv,
                pos as int,
                startv,
                last_label@,
                instructions_since_label,
                known_labels@,
                view_blocks(parsed@),
            ),
            last_label@.address + instructions_since_label <= pos,
            lut_names_unique(known_labels@),
            lut_sorted(known_labels@),
            forall|k: int|
                0 <= k < known_labels@.len() ==> (#[trigger] known_labels@[k]).address
                    <= last_label@.address,
            crate::ir::lut_has(known_labels@, last_label@.name),
            block_names_unique(view_blocks(parsed@)),
            blocks_defined(view_blocks(parsed@), known_labels@),
        ensures
            pos >= keywords@.len(),
        decreases keywords@.len() - pos,
    {
        if pos >= keywords.len() {
            break ;
        }
        proof {
            assert(sv[pos as int] == keywords@[pos as int]@);
        }
        match try_parse_label_definition(
            &keywords[pos],
            last_label.address.0,
            instructions_since_label,
        ) {
            Ok(label) => {
                let ghost lutv = known_labels@;
                let ghost blocksv = view_blocks(parsed@);
                proof {
                    vstd::arithmetic::div_mod::lemma_small_mod(
                        (last_label@.address + instructions_since_label) as nat,
                        0x10000,
                    );
                    crate::ir::lemma_lut_insert(lutv, label@);
                    crate::ir::lemma_blocks_reset(blocksv, label@.name);
                }
                blocks_reset_exec(&mut parsed, &label.name);
                lut_insert_exec(&mut known_labels, clone_def(&label));
                last_label = label;
                instructions_since_label = 0;
                pos = pos + 1;
                proof {
                    assert(blocks_defined(view_blocks(parsed@), known_labels@)) by {
                        assert forall|k: int| 0 <= k < view_blocks(parsed@).len() implies
                            crate::ir::lut_find_idx(
                                known_labels@,
                                (#[trigger] view_blocks(parsed@)[k]).label,
                            ) != -1 by {
                            let lbl = view_blocks(parsed@)[k].label;
                            if lbl != last_label@.name {
                                assert(0 <= k < blocksv.len() && blocksv[k].label == lbl);
                                assert(crate::ir::lut_has(lutv, lbl));
                                assert(crate::ir::lut_has(known_labels@, lbl));
                            } else {
                                assert(crate::ir::lut_has(known_labels@, lbl));
                            }
                        }
                    }
                }
            },
            Err(_) => {
                proof {
                    assert(!(sv[pos as int] is Label));
                }
                match try_parse_instruction(&keywords, &mut pos) {
                    Ok(instruction) => {
                        let ghost lutv = known_labels@;
                        let ghost blocksv = view_blocks(parsed@);
                        let ghost iv = instruction@;
                        proof {
                            vstd::arithmetic::div_mod::lemma_small_mod(
                                (instructions_since_label + 1) as nat,
                                0x10000,
                            );
                            crate::ir::lemma_blocks_append(blocksv, last_label@.name, iv);
                        }
                        blocks_append_exec(&mut parsed, &last_label.name, instruction);
                        instructions_since_label = instructions_since_label + 1;
                        proof {
                            assert(blocks_defined(view_blocks(parsed@), known_labels@)) by {
                                assert forall|k: int| 0 <= k < view_blocks(parsed@).len() implies
                                    crate::ir::lut_find_idx(
                                        known_labels@,
                                        (#[trigger] view_blocks(parsed@)[k]).label,
                                    ) != -1 by {
                                    let lbl = view_blocks(parsed@)[k].label;
                                    if lbl != last_label@.name {
                                        assert(0 <= k < blocksv.len() && blocksv[k].label == lbl);
                                    }
                                }
                            }
                        }
                    },
                    Err(parser_error) => {
                        return Err(parser_error);
                    },
                }
            },
        }
    }
    let ir = IR { start_label: start_ref, label_definitions: known_labels, instructions: parsed };
    Ok(ir)
}

// ---------------------------------------------------------------------------
// Law: label addresses are cumulative
// ---------------------------------------------------------------------------

/// The label names the scan defines from token `i` on, in definition order.
pub open spec fn spec_def_names(toks: Seq<SpecKeyword>, i: int) -> Seq<Seq<char>>
    decreases toks.len() - i,
{
    if !(0 <= i < toks.len()) {
        Seq::empty()
    } else {
        match toks[i] {
            SpecKeyword::Label { name, .. } => seq![name] + spec_def_names(toks, i + 1),
            _ => match spec_parse_instruction(toks, i) {
                Err(_) => Seq::empty(),
                Ok((_, next)) => spec_def_names(
                    toks,
                    if i < next <= toks.len() {
                        next
                    } else {
                        i + 1
                    },
                ),
            },
        }
    }
}

/// All label names a parse defines, in definition order: the start label
/// (`main` when synthetic) and every label token the scan reaches.
pub open spec fn spec_parse_def_names(toks: Seq<SpecKeyword>) -> Seq<Seq<char>> {
    if toks.len() == 0 {
        Seq::empty()
    } else {
        match toks[0] {
            SpecKeyword::Label { name, .. } => seq![name] + spec_def_names(toks, 1),
            _ => match spec_parse_instruction(toks, 0) {
                Err(_) => seq!["main"@],
                Ok((_, next)) => seq!["main"@] + spec_def_names(
                    toks,
                    if 0 < next <= toks.len() {
                        next
                    } else {
                        1
                    },
                ),
            },
        }
    }
}

/// Whether every adjacent pair of table entries differs by exactly the
/// earlier entry's block length.
pub open spec fn addresses_cumulative(ir: SpecIR) -> bool {
    forall|k: int|
        0 <= k < ir.label_definitions.len() - 1 ==> (#[trigger] ir.label_definitions[k + 1]).address
            == ir.label_definitions[k].address + crate::ir::block_len(
            ir.instructions,
            ir.label_definitions[k].name,
        )
}

proof fn lemma_parse_loop_cumulative(
    toks: Seq<SpecKeyword>,
    i: int,
    start: Seq<char>,
    last: SpecLabelDefinition,
    count: u16,
    lut: Seq<SpecLabelDefinition>,
    blocks: Seq<SpecBlock>,
)
    requires
        0 <= i,
        toks.len() <= 0xFFFF,
        spec_parse_loop(toks, i, start, last, count, lut, blocks) is Ok,
        spec_def_names(toks, i).no_duplicates(),
        forall|n: Seq<char>| #[trigger] spec_def_names(toks, i).contains(n) ==> !crate::ir::lut_has(lut, n),
        lut_names_unique(lut),
        lut_sorted(lut),
        lut.len() >= 1,
        last == lut.last(),
        forall|k: int| 0 <= k < lut.len() ==> (#[trigger] lut[k]).address <= last.address,
        last.address + count <= i,
        block_names_unique(blocks),
        forall|k: int| 0 <= k < blocks.len() ==> crate::ir::lut_has(lut, (#[trigger] blocks[k]).label),
        forall|k: int|
            0 <= k < lut.len() - 1 ==> (#[trigger] lut[k + 1]).address == lut[k].address
                + crate::ir::block_len(blocks, lut[k].name),
        crate::ir::block_len(blocks, last.name) == count,
    ensures
        addresses_cumulative(spec_parse_loop(toks, i, start, last, count, lut, blocks)->Ok_0),
    decreases toks.len() - i,
{
    if !(0 <= i < toks.len()) {
        // End of stream: the accumulated table is the result.
    } else {
        let defs = spec_def_names(toks, i);
        match toks[i] {
            SpecKeyword::Label { name, .. } => {
                let rest = spec_def_names(toks, i + 1);
                assert(defs == seq![name] + rest);
                assert(defs[0] == name);
                assert(forall|k: int| 0 <= k < rest.len() ==> defs[k + 1] == rest[k]);
                assert(defs.contains(name));
                assert(!crate::ir::lut_has(lut, name));
                vstd::arithmetic::div_mod::lemma_small_mod((last.address + count) as nat, 0x10000);
                let def = SpecLabelDefinition { name, address: (last.address + count) as u16 };
                // The table grows by a fresh entry at the end.
                lemma_lut_find_idx(lut, name);
                let lut2 = lut_insert(lut, def);
                assert(lut2 == lut.push(def));
                crate::ir::lemma_lut_insert(lut, def);
                // The fresh name has no block yet.
                let blocks2 = blocks_reset(blocks, name);
                lemma_block_find_idx(blocks, name);
                if crate::ir::block_find_idx(blocks, name) != -1 {
                    let bi = crate::ir::block_find_idx(blocks, name);
                    assert(crate::ir::lut_has(lut, blocks[bi].label));
                }
                crate::ir::lemma_blocks_reset(blocks, name);
                crate::ir::lemma_blocks_reset_lookup(blocks, name);
                // The name of the previous last entry stays in the table.
                assert(crate::ir::lut_has(lut, last.name)) by {
                    lemma_lut_find_idx(lut, last.name);
                    assert(lut[lut.len() - 1].name == last.name);
                }
                assert(last.name != name);
                // Adjacent differences are preserved and extended by one pair.
                assert(forall|k: int| 0 <= k < lut.len() ==> lut2[k] == lut[k]);
                assert forall|k: int| 0 <= k < lut2.len() - 1 implies (#[trigger] lut2[k
                    + 1]).address == lut2[k].address + crate::ir::block_len(
                    blocks2,
                    lut2[k].name,
                ) by {
                    if k < lut.len() - 1 {
                        assert(crate::ir::lut_has(lut, lut[k].name)) by {
                            lemma_lut_find_idx(lut, lut[k].name);
                        }
                        assert(lut[k].name != name);
                        assert(crate::ir::block_len(blocks2, lut[k].name)
                            == crate::ir::block_len(blocks, lut[k].name));
                    } else {
                        assert(k == lut.len() - 1);
                        assert(lut2[k] == last && lut2[k + 1] == def);
                        assert(crate::ir::block_len(blocks2, last.name) == count);
                    }
                }
                // Freshness and distinctness carry to the rest of the scan.
                assert(rest.no_duplicates()) by {
                    assert(forall|a: int, b: int|
                        0 <= a < rest.len() && 0 <= b < rest.len() && a != b ==> #[trigger] defs[a + 1]
                            != #[trigger] defs[b + 1]);
                }
                assert forall|n: Seq<char>| #[trigger] rest.contains(n) implies !crate::ir::lut_has(
                    lut2,
                    n,
                ) by {
                    let w = choose|w: int| 0 <= w < rest.len() && rest[w] == n;
                    assert(defs[w + 1] == n);
                    assert(defs.contains(n));
                    assert(n != name);
                }
                lemma_parse_loop_cumulative(toks, i + 1, start, def, 0, lut2, blocks2);
            },
            _ => {
                match spec_parse_instruction(toks, i) {
                    Err(_) => {},
                    Ok((instr, next)) => {
                        let nn = if i < next <= toks.len() {
                            next
                        } else {
                            i + 1
                        };
                        vstd::arithmetic::div_mod::lemma_small_mod(
                            (count + 1) as nat,
                            0x10000,
                        );
                        let blocks2 = blocks_append(blocks, last.name, instr);
                        crate::ir::lemma_blocks_append(blocks, last.name, instr);
                        crate::ir::lemma_blocks_append_lookup(blocks, last.name, instr);
                        assert(crate::ir::block_len(blocks2, last.name) == count + 1);
                        assert(crate::ir::lut_has(lut, last.name)) by {
                            lemma_lut_find_idx(lut, last.name);
                            assert(lut[lut.len() - 1].name == last.name);
                        }
                        assert forall|k: int| 0 <= k < blocks2.len() implies crate::ir::lut_has(
                            lut,
                            (#[trigger] blocks2[k]).label,
                        ) by {
                            if blocks2[k].label != last.name {
                                assert(0 <= k < blocks.len() && blocks2[k].label
                                    == blocks[k].label);
                            }
                        }
                        assert forall|k: int| 0 <= k < lut.len() - 1 implies (#[trigger] lut[k
                            + 1]).address == lut[k].address + crate::ir::block_len(
                            blocks2,
                            lut[k].name,
                        ) by {
                            assert(lut[k].name != last.name);
                            assert(crate::ir::block_len(blocks2, lut[k].name)
                                == crate::ir::block_len(blocks, lut[k].name));
                        }
                        assert(spec_def_names(toks, nn) == defs);
                        lemma_parse_loop_cumulative(
                            toks,
                            nn,
                            start,
                            last,
                            (count + 1) as u16,
                            lut,
                            blocks2,
                        );
                    },
                }
            },
        }
    }
}

/// Law: label address resolution is cumulative: when the parse succeeds and
/// no label is defined twice, each label table entry's address is the
/// previous entry's address plus the number of instructions emitted under
/// that previous label.
pub proof fn lemma_label_addresses_cumulative(toks: Seq<SpecKeyword>)
    requires
        toks.len() <= 0xFFFF,
        spec_parse(toks) is Ok,
        spec_parse_def_names(toks).no_duplicates(),
    ensures
        addresses_cumulative(spec_parse(toks)->Ok_0),
{
    let defs = spec_parse_def_names(toks);
    match toks[0] {
        SpecKeyword::Label { name, .. } => {
            let start = SpecLabelDefinition { name, address: 0 };
            let rest = spec_def_names(toks, 1);
            assert(defs == seq![name] + rest);
            assert(defs[0] == name);
            assert(forall|k: int| 0 <= k < rest.len() ==> defs[k + 1] == rest[k]);
            assert(rest.no_duplicates()) by {
                assert(forall|a: int, b: int|
                    0 <= a < rest.len() && 0 <= b < rest.len() && a != b ==> #[trigger] defs[a + 1]
                        != #[trigger] defs[b + 1]);
            }
            assert forall|n: Seq<char>| #[trigger] rest.contains(n) implies !crate::ir::lut_has(
                seq![start],
                n,
            ) by {
                let w = choose|w: int| 0 <= w < rest.len() && rest[w] == n;
                assert(defs[w + 1] == n);
                assert(defs.contains(n));
                assert(n != name);
                lemma_lut_find_idx(seq![start], n);
            }
            assert(crate::ir::block_len(Seq::<SpecBlock>::empty(), name) == 0);
            lemma_parse_loop_cumulative(
                toks,
                1,
                name,
                start,
                0,
                seq![start],
                Seq::<SpecBlock>::empty(),
            );
        },
        _ => {
            let start = SpecLabelDefinition { name: "main"@, address: 0 };
            match spec_parse_instruction(toks, 0) {
                Err(_) => {},
                Ok((instr, next)) => {
                    let nn = if 0 < next <= toks.len() {
                        next
                    } else {
                        1
                    };
                    let rest = spec_def_names(toks, nn);
                    assert(defs == seq!["main"@] + rest);
                    assert(defs[0] == "main"@);
                    assert(forall|k: int| 0 <= k < rest.len() ==> defs[k + 1] == rest[k]);
                    assert(rest.no_duplicates()) by {
                        assert(forall|a: int, b: int|
                            0 <= a < rest.len() && 0 <= b < rest.len() && a != b ==> #[trigger] defs[a + 1]
                                != #[trigger] defs[b + 1]);
                    }
                    assert forall|n: Seq<char>| #[trigger] rest.contains(n)
                        implies !crate::ir::lut_has(seq![start], n) by {
                        let w = choose|w: int| 0 <= w < rest.len() && rest[w] == n;
                        assert(defs[w + 1] == n);
                        assert(defs.contains(n));
                        assert(n != "main"@);
                        lemma_lut_find_idx(seq![start], n);
                    }
                    let b0 = SpecBlock { label: "main"@, instructions: seq![instr] };
                    assert(crate::ir::block_len(seq![b0], "main"@) == 1);
                    lemma_parse_loop_cumulative(toks, nn, "main"@, start, 1, seq![start], seq![b0]);
                },
            }
        },
    }
}

// ---------------------------------------------------------------------------
// Law: register spellings
// ---------------------------------------------------------------------------

/// Law: for every ordinal 0..7, the digit spelling (`reg0`..`reg7`) and the
/// letter spelling (`regA`..`regH`) parse to the identical register value.
pub proof fn lemma_register_spellings_agree(k: u8, ln_digit: u16, ln_letter: u16)
    requires
        k < 8,
    ensures
        spec_parse_register(
            SpecKeyword::RegisterAddress {
                name: seq!['r', 'e', 'g', ((48 + k) as u8) as char],
                line_number: ln_digit,
            },
        ) == Ok::<RegisterAddress, SpecParserError>(RegisterAddress(k)),
        spec_parse_register(
            SpecKeyword::RegisterAddress {
                name: seq!['r', 'e', 'g', ((65 + k) as u8) as char],
                line_number: ln_letter,
            },
        ) == Ok::<RegisterAddress, SpecParserError>(RegisterAddress(k)),
{
    let dname = seq!['r', 'e', 'g', ((48 + k) as u8) as char];
    let lname = seq!['r', 'e', 'g', ((65 + k) as u8) as char];
    assert(dname.skip(3) =~= seq![((48 + k) as u8) as char]);
    assert(lname.skip(3) =~= seq![((65 + k) as u8) as char]);
    assert((((48 + k) as u8) as char) as u32 == 48 + k);
    assert((((65 + k) as u8) as char) as u32 == 65 + k);
}

} // verus!

//! The code generator: packs typed instructions into 20-bit instruction
//! words, resolving label-relative jump offsets, and proves the bit layout
//! against arithmetic field specifications.
//!
//! A word has two mutually exclusive layouts, discriminated by bit 7 of the
//! opcode byte:
//!
//! * ALU/control format (bit 7 = 0): bits 0..7 opcode, bits 8..10 source A,
//!   bits 11..13 source B, bits 14..16 source C, bits 17..19 target.
//! * Immediate-load format (bit 7 = 1): bits 0..3 low nibble of a 16-bit
//!   constant, bits 4..6 target register, bit 7 set, bits 8..19 the high 12
//!   bits of the constant.

use crate::ir::{
    block_lookup, lemma_block_find_idx, lemma_lut_find_idx, lut_lookup, view_blocks,
    view_instructions, Instruction, InstructionBlock, JumpCondition, JumpTarget, LabelLUT,
    LoadSource, SpecBlock, SpecIR, SpecInstruction, SpecJumpTarget, SpecLabelDefinition, IR,
};
use vstd::arithmetic::div_mod::{
    lemma_add_mod_noop_right, lemma_fundamental_div_mod, lemma_fundamental_div_mod_converse,
    lemma_mod_add_multiples_vanish, lemma_mod_mod, lemma_small_mod, lemma_sub_mod_noop_right,
};
use vstd::prelude::*;

verus! {

// ---------------------------------------------------------------------------
// Field layout, as arithmetic over the word value
// ---------------------------------------------------------------------------

/// The value of an ALU/control-format word: opcode in bits 0..7, register
/// fields truncated to their three bits.
pub open spec fn spec_alu_word(opcode: u8, target: u8, a: u8, b: u8, c: u8) -> int {
    opcode + ((a as int) % 8) * 0x100 + ((b as int) % 8) * 0x800 + ((c as int) % 8) * 0x4000 + ((
    target as int) % 8) * 0x20000
}

/// The value of an immediate-load-format word: low nibble of the constant in
/// bits 0..3, target register in bits 4..6, bit 7 set, high 12 bits of the
/// constant in bits 8..19.
pub open spec fn spec_load_word(target: u8, constant: u16) -> int {
    (constant as int) % 16 + ((target as int) % 8) * 0x10 + 0x80 + ((constant as int) / 16) * 0x100
}

/// The value of a relative-jump-format word: opcode in bits 0..7 and a
/// 12-bit displacement in bits 8..19.
pub open spec fn spec_rel_word(opcode: u8, offset: u16) -> int {
    opcode + ((offset as int) % 0x1000) * 0x100
}

/// The opcode byte, bits 0..7.
pub open spec fn word_opcode(w: int) -> int {
    w % 0x100
}

/// Whether the word is in immediate-load format: bit 7.
pub open spec fn word_is_load(w: int) -> bool {
    (w / 0x80) % 2 == 1
}

/// Source register A, bits 8..10.
pub open spec fn word_op_a(w: int) -> int {
    (w / 0x100) % 8
}

/// Source register B, bits 11..13.
pub open spec fn word_op_b(w: int) -> int {
    (w / 0x800) % 8
}

/// Source register C, bits 14..16.
pub open spec fn word_op_c(w: int) -> int {
    (w / 0x4000) % 8
}

/// The target register of an ALU-format word, bits 17..19.
pub open spec fn word_target(w: int) -> int {
    (w / 0x20000) % 8
}

/// The target register of a load-format word, bits 4..6.
pub open spec fn word_load_target(w: int) -> int {
    (w / 0x10) % 8
}

/// The 16-bit constant of a load-format word: high 12 bits from bits 8..19,
/// low nibble from bits 0..3.
pub open spec fn word_constant16(w: int) -> int {
    (w / 0x100) * 16 + w % 16
}

/// The 12-bit constant field, bits 8..19.
pub open spec fn word_constant12(w: int) -> int {
    (w / 0x100) % 0x1000
}

// ---------------------------------------------------------------------------
// The instruction word
// ---------------------------------------------------------------------------

/// A fixed-width 20-bit instruction word.
#[derive(Debug, Clone, Copy)]
pub struct InstructionWord {
    bits: u32,
}

impl View for InstructionWord {
    type V = u32;

    closed spec fn view(&self) -> u32 {
        self.bits
    }
}

impl InstructionWord {
    /// Every word fits in 20 bits.
    pub open spec fn wf(self) -> bool {
        self@ < 0x100000
    }

    /// Encodes an ALU/control-format word.
    pub fn encode_alu(opcode: u8, target: u8, a: u8, b: u8, c: u8) -> (r: Self)
        requires
            opcode < 0x80,
        ensures
            r@ == spec_alu_word(opcode, target, a, b, c),
            r.wf(),
    {
        InstructionWord {
            bits: opcode as u32 + (a as u32 % 8) * 0x100 + (b as u32 % 8) * 0x800 + (c as u32 % 8)
                * 0x4000 + (target as u32 % 8) * 0x20000,
        }
    }

    /// Encodes an immediate-load-format word.
    pub fn encode_load(target: u8, constant: u16) -> (r: Self)
        ensures
            r@ == spec_load_word(target, constant),
            r.wf(),
    {
        InstructionWord {
            bits: constant as u32 % 16 + (target as u32 % 8) * 0x10 + 0x80 + (constant as u32 / 16)
                * 0x100,
        }
    }

    /// Encodes a relative-jump-format word: an opcode and a 12-bit
    /// displacement.
    pub fn encode_relative(opcode: u8, offset: u16) -> (r: Self)
        requires
            opcode < 0x80,
        ensures
            r@ == spec_rel_word(opcode, offset),
            r.wf(),
    {
        InstructionWord { bits: opcode as u32 + (offset as u32 % 0x1000) * 0x100 }
    }

    /// The raw 20-bit value.
    pub fn value(&self) -> (r: u32)
        ensures
            r == self@,
    {
        self.bits
    }

    /// The opcode byte.
    pub fn opcode(&self) -> (r: u8)
        ensures
            r == word_opcode(self@ as int),
    {
        (self.bits % 0x100) as u8
    }

    /// Whether the word is in immediate-load format.
    pub fn is_load(&self) -> (r: bool)
        ensures
            r == word_is_load(self@ as int),
    {
        (self.bits / 0x80) % 2 == 1
    }

    /// Source register A of an ALU-format word.
    pub fn op_a(&self) -> (r: u8)
        ensures
            r == word_op_a(self@ as int),
    {
        ((self.bits / 0x100) % 8) as u8
    }

    /// Source register B of an ALU-format word.
    pub fn op_b(&self) -> (r: u8)
        ensures
            r == word_op_b(self@ as int),
    {
        ((self.bits / 0x800) % 8) as u8
    }

    /// Source register C of an ALU-format word.
    pub fn op_c(&self) -> (r: u8)
        ensures
            r == word_op_c(self@ as int),
    {
        ((self.bits / 0x4000) % 8) as u8
    }

    /// The target register of an ALU-format word.
    pub fn target(&self) -> (r: u8)
        ensures
            r == word_target(self@ as int),
    {
        ((self.bits / 0x20000) % 8) as u8
    }

    /// The target register of a load-format word.
    pub fn load_target(&self) -> (r: u8)
        ensures
            r == word_load_target(self@ as int),
    {
        ((self.bits / 0x10) % 8) as u8
    }

    /// The 16-bit constant of a load-format word.
    pub fn constant16(&self) -> (r: u16)
        requires
            self.wf(),
        ensures
            r == word_constant16(self@ as int),
    {
        ((self.bits / 0x100) * 16 + self.bits % 16) as u16
    }

    /// The 12-bit constant field of a relative-jump word.
    pub fn constant12(&self) -> (r: u16)
        ensures
            r == word_constant12(self@ as int),
    {
        ((self.bits / 0x100) % 0x1000) as u16
    }

    /// The textual rendering: exactly five hexadecimal characters, most
    /// significant nibble first.
    pub fn hex(&self) -> (s: String)
        ensures
            s@ == spec_hex(self@ as int),
    {
        let mut s = String::new();
        s.append(nibble_to_hex(((self.bits / 0x10000) % 16) as u8));
        s.append(nibble_to_hex(((self.bits / 0x1000) % 16) as u8));
        s.append(nibble_to_hex(((self.bits / 0x100) % 16) as u8));
        s.append(nibble_to_hex(((self.bits / 0x10) % 16) as u8));
        s.append(nibble_to_hex((self.bits % 16) as u8));
        proof {
            assert(s@ =~= spec_hex(self@ as int));
        }
        s
    }
}

/// The hexadecimal character for one nibble value.
pub open spec fn spec_hex_digit(n: int) -> Seq<char> {
    if n == 0 {
        "0"@
    } else if n == 1 {
        "1"@
    } else if n == 2 {
        "2"@
    } else if n == 3 {
        "3"@
    } else if n == 4 {
        "4"@
    } else if n == 5 {
        "5"@
    } else if n == 6 {
        "6"@
    } else if n == 7 {
        "7"@
    } else if n == 8 {
        "8"@
    } else if n == 9 {
        "9"@
    } else if n == 10 {
        "a"@
    } else if n == 11 {
        "b"@
    } else if n == 12 {
        "c"@
    } else if n == 13 {
        "d"@
    } else if n == 14 {
        "e"@
    } else {
        "f"@
    }
}

/// The five-character rendering of a word value, most significant nibble
/// first.
pub open spec fn spec_hex(w: int) -> Seq<char> {
    spec_hex_digit((w / 0x10000) % 16) + spec_hex_digit((w / 0x1000) % 16) + spec_hex_digit(
        (w / 0x100) % 16,
    ) + spec_hex_digit((w / 0x10) % 16) + spec_hex_digit(w % 16)
}

/// The hexadecimal character for a nibble, as a one-character string.
pub fn nibble_to_hex(n: u8) -> (r: &'static str)
    requires
        n < 16,
    ensures
        r@ == spec_hex_digit(n as int),
{
    match n {
        0 => "0",
        1 => "1",
        2 => "2",
        3 => "3",
        4 => "4",
        5 => "5",
        6 => "6",
        7 => "7",
        8 => "8",
        9 => "9",
        10 => "a",
        11 => "b",
        12 => "c",
        13 => "d",
        14 => "e",
        _ => "f",
    }
}

// ---------------------------------------------------------------------------
// Encoding one instruction
// ---------------------------------------------------------------------------

/// The opcode offset of a jump condition.
pub open spec fn spec_cond_offset(c: JumpCondition) -> u8 {
    match c {
        JumpCondition::True => 0,
        JumpCondition::Zero => 1,
        JumpCondition::NotZero => 2,
        JumpCondition::Less => 3,
        JumpCondition::Overflow => 4,
    }
}

fn cond_offset(c: &JumpCondition) -> (r: u8)
    ensures
        r == spec_cond_offset(*c),
        r <= 4,
{
    match c {
        JumpCondition::True => 0,
        JumpCondition::Zero => 1,
        JumpCondition::NotZero => 2,
        JumpCondition::Less => 3,
        JumpCondition::Overflow => 4,
    }
}

/// The displacement of a relative jump to a literal constant: the constant
/// minus one, with 16-bit wrap-around.
pub open spec fn spec_const_offset(c: u16) -> u16 {
    (((c as int) - 1) % 0x10000) as u16
}

fn const_offset(c: u16) -> (r: u16)
    ensures
        r == spec_const_offset(c),
{
    if c == 0 {
        proof {
            assert((-1) % 0x10000 == 0xFFFF);
        }
        0xFFFF
    } else {
        c - 1
    }
}

/// The displacement of a relative jump to a label at address `target`, taken
/// from the instruction at position `idx` of the block starting at `base`:
/// the target address minus the address of the following instruction, with
/// 16-bit wrap-around.
pub open spec fn spec_rel_offset(target: u16, base: u16, idx: int) -> u16 {
    (((target as int) - (base as int) - idx - 1) % 0x10000) as u16
}

fn rel_offset(target: u16, base: u16, idx: usize) -> (r: u16)
    ensures
        r == spec_rel_offset(target, base, idx as int),
{
    let k: u64 = (idx as u64) % 0x10000;
    let m: u64 = (base as u64 + k + 1) % 0x10000;
    let off: u64 = (target as u64 + 0x10000 - m) % 0x10000;
    proof {
        let t = target as int;
        let b = base as int;
        let i = idx as int;
        lemma_add_mod_noop_right(b + 1, i, 0x10000);
        assert(m == (b + 1 + i) % 0x10000);
        lemma_mod_add_multiples_vanish(t - m, 0x10000);
        assert(off == (t - m) % 0x10000);
        lemma_sub_mod_noop_right(t, b + 1 + i, 0x10000);
        assert((t - m) % 0x10000 == (t - (b + 1 + i)) % 0x10000);
    }
    off as u16
}

/// The encoding of one instruction, or the name of the unresolved label that
/// makes it fail.  `base` is the address of the enclosing block, `idx` the
/// instruction's position in it, and `lut` the label table.
pub open spec fn spec_encode_instruction(
    instr: SpecInstruction,
    base: u16,
    idx: int,
    lut: Seq<SpecLabelDefinition>,
) -> Result<int, Seq<char>> {
    match instr {
        SpecInstruction::Add(e) => Ok(
            spec_alu_word(0x00, e.target.address.0, e.source_a.address.0, e.source_b.address.0, 0),
        ),
        SpecInstruction::Add3(e) => Ok(
            spec_alu_word(
                0x01,
                e.target.address.0,
                e.source_a.address.0,
                e.source_b.address.0,
                e.source_c.address.0,
            ),
        ),
        SpecInstruction::AddWithCarry(e) => Ok(
            spec_alu_word(0x02, e.target.address.0, e.source_a.address.0, e.source_b.address.0, 0),
        ),
        SpecInstruction::Subtract(e) => Ok(
            spec_alu_word(0x03, e.target.address.0, e.source_a.address.0, e.source_b.address.0, 0),
        ),
        SpecInstruction::SubtractWithCarry(e) => Ok(
            spec_alu_word(0x04, e.target.address.0, e.source_a.address.0, e.source_b.address.0, 0),
        ),
        SpecInstruction::Increment(e) => Ok(
            spec_alu_word(0x05, e.target.address.0, e.source_a.address.0, 0, 0),
        ),
        SpecInstruction::Decrement(e) => Ok(
            spec_alu_word(0x06, e.target.address.0, e.source_a.address.0, 0, 0),
        ),
        SpecInstruction::Multiply(e) => Ok(
            spec_alu_word(0x07, e.target.address.0, e.source_a.address.0, e.source_b.address.0, 0),
        ),
        SpecInstruction::Test(s) => Ok(
            spec_alu_word(0x08, 0, s.source_a.address.0, s.source_b.address.0, 0),
        ),
        SpecInstruction::AND(e) => Ok(
            spec_alu_word(0x09, e.target.address.0, e.source_a.address.0, e.source_b.address.0, 0),
        ),
        SpecInstruction::OR(e) => Ok(
            spec_alu_word(0x0a, e.target.address.0, e.source_a.address.0, e.source_b.address.0, 0),
        ),
        SpecInstruction::NOT(e) => Ok(
            spec_alu_word(0x0b, e.target.address.0, e.source_a.address.0, 0, 0),
        ),
        SpecInstruction::Negate(e) => Ok(
            spec_alu_word(0x0b, e.target.address.0, e.source_a.address.0, 0, 0),
        ),
        SpecInstruction::XOR(e) => Ok(
            spec_alu_word(0x0d, e.target.address.0, e.source_a.address.0, e.source_b.address.0, 0),
        ),
        SpecInstruction::XNOR(e) => Ok(
            spec_alu_word(0x0e, e.target.address.0, e.source_a.address.0, e.source_b.address.0, 0),
        ),
        SpecInstruction::ShiftLeft(e) => Ok(
            spec_alu_word(0x0f, e.target.address.0, e.source_a.address.0, e.source_b.address.0, 0),
        ),
        SpecInstruction::ShiftRight(e) => Ok(
            spec_alu_word(0x10, e.target.address.0, e.source_a.address.0, e.source_b.address.0, 0),
        ),
        SpecInstruction::Move(e) => Ok(
            spec_alu_word(0x48, e.target.address.0, e.source_a.address.0, 0, 0),
        ),
        SpecInstruction::Set32BitMode { enable } => Ok(
            spec_rel_word(
                0x4a,
                if enable.0 {
                    0xff
                } else {
                    0x00
                },
            ),
        ),
        SpecInstruction::Jump { target, condition } => {
            let co = spec_cond_offset(condition);
            match target {
                SpecJumpTarget::Register(r) => Ok(
                    spec_alu_word((0x50 + co) as u8, 0, r.address.0, 0, 0),
                ),
                SpecJumpTarget::Constant(c) => Ok(
                    spec_rel_word((0x58 + co) as u8, spec_const_offset(c)),
                ),
                SpecJumpTarget::Label(name) => match lut_lookup(lut, name) {
                    None => Err(name),
                    Some(a) => Ok(
                        spec_rel_word((0x58 + co) as u8, spec_rel_offset(a, base, idx)),
                    ),
                },
            }
        },
        SpecInstruction::Debug => Ok(spec_alu_word(0x7e, 0, 0, 0, 0)),
        SpecInstruction::Halt => Ok(spec_alu_word(0x7f, 0, 0, 0, 0)),
        SpecInstruction::Load { address, source } => match source {
            LoadSource::Constant(c) => Ok(spec_load_word(address.0, c)),
            LoadSource::RAM { address_register } => Ok(
                spec_alu_word(0x69, address.0, 0, address_register.address.0, 0),
            ),
        },
        SpecInstruction::StoreRAM { address_register, data_register } => Ok(
            spec_alu_word(0x68, 0, data_register.0, address_register.0, 0),
        ),
        SpecInstruction::Noop => Ok(spec_alu_word(0x6c, 0, 0, 0, 0)),
    }
}

/// Looks up a label's address in the table.
fn lut_get(lut: &LabelLUT, name: &String) -> (r: Option<u16>)
    ensures
        r == lut_lookup(lut@, name@),
{
    proof {
        lemma_lut_find_idx(lut@, name@);
    }
    let mut i: usize = 0;
    while i < lut.0.len()
        invariant
            i <= lut.0@.len(),
            forall|k: int| 0 <= k < i ==> (#[trigger] lut@[k]).name != name@,
        decreases lut.0@.len() - i,
    {
        if lut.0[i].name == *name {
            proof {
                lemma_lut_find_idx(lut@, name@);
                let fi = crate::ir::lut_find_idx(lut@, name@);
                assert(lut@[i as int].name == name@);
                assert(fi != -1);
                assert(fi == i as int);
            }
            return Some(lut.0[i].address.0);
        }
        i += 1;
    }
    proof {
        lemma_lut_find_idx(lut@, name@);
        assert(crate::ir::lut_find_idx(lut@, name@) == -1);
    }
    None
}

/// Encodes one instruction against the label table.
fn encode_instruction(instr: &Instruction, base: u16, idx: usize, lut: &LabelLUT) -> (r: Result<
    InstructionWord,
    GeneratorError,
>)
    ensures
        match r {
            Ok(w) => spec_encode_instruction(instr@, base, idx as int, lut@) == Ok::<
                int,
                Seq<char>,
            >(w@ as int) && w.wf(),
            Err(e) => spec_encode_instruction(instr@, base, idx as int, lut@) == Err::<
                int,
                Seq<char>,
            >(e@),
        },
{
    match instr {
        Instruction::Add(e) => Ok(
            InstructionWord::encode_alu(0x00, e.target.addr(), e.source_a.addr(), e.source_b.addr(), 0),
        ),
        Instruction::Add3(e) => Ok(
            InstructionWord::encode_alu(
                0x01,
                e.target.addr(),
                e.source_a.addr(),
                e.source_b.addr(),
                e.source_c.addr(),
            ),
        ),
        Instruction::AddWithCarry(e) => Ok(
            InstructionWord::encode_alu(0x02, e.target.addr(), e.source_a.addr(), e.source_b.addr(), 0),
        ),
        Instruction::Subtract(e) => Ok(
            InstructionWord::encode_alu(0x03, e.target.addr(), e.source_a.addr(), e.source_b.addr(), 0),
        ),
        Instruction::SubtractWithCarry(e) => Ok(
            InstructionWord::encode_alu(0x04, e.target.addr(), e.source_a.addr(), e.source_b.addr(), 0),
        ),
        Instruction::Increment(e) => Ok(
            InstructionWord::encode_alu(0x05, e.target.addr(), e.source_a.addr(), 0, 0),
        ),
        Instruction::Decrement(e) => Ok(
            InstructionWord::encode_alu(0x06, e.target.addr(), e.source_a.addr(), 0, 0),
        ),
        Instruction::Multiply(e) => Ok(
            InstructionWord::encode_alu(0x07, e.target.addr(), e.source_a.addr(), e.source_b.addr(), 0),
        ),
        Instruction::Test(s) => Ok(
            InstructionWord::encode_alu(0x08, 0, s.source_a.addr(), s.source_b.addr(), 0),
        ),
        Instruction::AND(e) => Ok(
            InstructionWord::encode_alu(0x09, e.target.addr(), e.source_a.addr(), e.source_b.addr(), 0),
        ),
        Instruction::OR(e) => Ok(
            InstructionWord::encode_alu(0x0a, e.target.addr(), e.source_a.addr(), e.source_b.addr(), 0),
        ),
        Instruction::NOT(e) => Ok(
            InstructionWord::encode_alu(0x0b, e.target.addr(), e.source_a.addr(), 0, 0),
        ),
        Instruction::Negate(e) => Ok(
            InstructionWord::encode_alu(0x0b, e.target.addr(), e.source_a.addr(), 0, 0),
        ),
        Instruction::XOR(e) => Ok(
            InstructionWord::encode_alu(0x0d, e.target.addr(), e.source_a.addr(), e.source_b.addr(), 0),
        ),
        Instruction::XNOR(e) => Ok(
            InstructionWord::encode_alu(0x0e, e.target.addr(), e.source_a.addr(), e.source_b.addr(), 0),
        ),
        Instruction::ShiftLeft(e) => Ok(
            InstructionWord::encode_alu(0x0f, e.target.addr(), e.source_a.addr(), e.source_b.addr(), 0),
        ),
        Instruction::ShiftRight(e) => Ok(
            InstructionWord::encode_alu(0x10, e.target.addr(), e.source_a.addr(), e.source_b.addr(), 0),
        ),
        Instruction::Move(e) => Ok(
            InstructionWord::encode_alu(0x48, e.target.addr(), e.source_a.addr(), 0, 0),
        ),
        Instruction::Set32BitMode { enable } => {
            let field: u16 = if enable.0 {
                0xff
            } else {
                0x00
            };
            Ok(InstructionWord::encode_relative(0x4a, field))
        },
        Instruction::Jump { target, condition } => {
            let co = cond_offset(condition);
            match target {
                JumpTarget::Register(r) => Ok(
                    InstructionWord::encode_alu(0x50 + co, 0, r.addr(), 0, 0),
                ),
                JumpTarget::Constant(c) => Ok(
                    InstructionWord::encode_relative(0x58 + co, const_offset(*c)),
                ),
                JumpTarget::Label(l) => match lut_get(lut, &l.0) {
                    Some(a) => Ok(
                        InstructionWord::encode_relative(0x58 + co, rel_offset(a, base, idx)),
                    ),
                    None => Err(GeneratorError::UndefinedLabel { label_name: l.0.clone() }),
                },
            }
        },
        Instruction::Debug => Ok(InstructionWord::encode_alu(0x7e, 0, 0, 0, 0)),
        Instruction::Halt => Ok(InstructionWord::encode_alu(0x7f, 0, 0, 0, 0)),
        Instruction::Load { address, source: LoadSource::Constant(c) } => Ok(
            InstructionWord::encode_load(address.0, *c),
        ),
        Instruction::Load { address, source: LoadSource::RAM { address_register } } => Ok(
            InstructionWord::encode_alu(0x69, address.0, 0, address_register.addr(), 0),
        ),
        Instruction::StoreRAM { address_register, data_register } => Ok(
            InstructionWord::encode_alu(0x68, 0, data_register.0, address_register.0, 0),
        ),
        Instruction::Noop => Ok(InstructionWord::encode_alu(0x6c, 0, 0, 0, 0)),
    }
}

// ---------------------------------------------------------------------------
// Generating the whole program
// ---------------------------------------------------------------------------

/// The view of a word sequence: the 20-bit values.
pub open spec fn view_words(s: Seq<InstructionWord>) -> Seq<int> {
    s.map_values(|w: InstructionWord| w@ as int)
}

/// The words of one block, from position `idx` on, or the first unresolved
/// label name.
pub open spec fn spec_encode_block_from(
    instrs: Seq<SpecInstruction>,
    base: u16,
    idx: int,
    lut: Seq<SpecLabelDefinition>,
) -> Result<Seq<int>, Seq<char>>
    decreases instrs.len() - idx,
{
    if idx < 0 || idx >= instrs.len() {
        Ok(Seq::empty())
    } else {
        match spec_encode_instruction(instrs[idx], base, idx, lut) {
            Err(e) => Err(e),
            Ok(w) => match spec_encode_block_from(instrs, base, idx + 1, lut) {
                Err(e) => Err(e),
                Ok(rest) => Ok(seq![w] + rest),
            },
        }
    }
}

/// The words of the whole program: the blocks of the table entries from
/// position `li` on, each addressed at its entry's address, concatenated; or
/// the first unresolved label name.  An entry without a block contributes
/// nothing.
pub open spec fn spec_generate_from(
    lut: Seq<SpecLabelDefinition>,
    blocks: Seq<SpecBlock>,
    li: int,
) -> Result<Seq<int>, Seq<char>>
    decreases lut.len() - li,
{
    if li < 0 || li >= lut.len() {
        Ok(Seq::empty())
    } else {
        let instrs = match block_lookup(blocks, lut[li].name) {
            Some(b) => b,
            None => Seq::empty(),
        };
        match spec_encode_block_from(instrs, lut[li].address, 0, lut) {
            Err(e) => Err(e),
            Ok(ws) => match spec_generate_from(lut, blocks, li + 1) {
                Err(e) => Err(e),
                Ok(rest) => Ok(ws + rest),
            },
        }
    }
}

/// The word sequence generated for an intermediate representation, visiting
/// the label table in order, or the name of the first unresolved label.
pub open spec fn spec_generate(ir: SpecIR) -> Result<Seq<int>, Seq<char>> {
    spec_generate_from(ir.label_definitions, ir.instructions, 0)
}

/// Generation failures.
#[derive(Debug)]
pub enum GeneratorError {
    /// A relative jump referenced this name, which the label table does not
    /// define.
    UndefinedLabel { label_name: String },
}

impl View for GeneratorError {
    type V = Seq<char>;

    open spec fn view(&self) -> Seq<char> {
        match self {
            GeneratorError::UndefinedLabel { label_name } => label_name@,
        }
    }
}

/// Finds the instruction block of a label, by name.
fn find_block<'a>(blocks: &'a Vec<InstructionBlock>, name: &String) -> (r: Option<&'a Vec<
    Instruction,
>>)
    ensures
        match r {
            Some(v) => block_lookup(view_blocks(blocks@), name@) == Some(view_instructions(v@)),
            None => block_lookup(view_blocks(blocks@), name@) is None,
        },
{
    proof {
        lemma_block_find_idx(view_blocks(blocks@), name@);
    }
    let mut i: usize = 0;
    while i < blocks.len()
        invariant
            i <= blocks@.len(),
            forall|k: int| 0 <= k < i ==> (#[trigger] view_blocks(blocks@)[k]).label != name@,
        decreases blocks@.len() - i,
    {
        if blocks[i].label.0 == *name {
            proof {
                lemma_block_find_idx(view_blocks(blocks@), name@);
                let fi = crate::ir::block_find_idx(view_blocks(blocks@), name@);
                assert(view_blocks(blocks@)[i as int].label == name@);
                assert(fi == i as int);
            }
            return Some(&blocks[i].instructions);
        }
        i += 1;
    }
    proof {
        lemma_block_find_idx(view_blocks(blocks@), name@);
    }
    None
}

/// Consumes the intermediate representation and produces one 20-bit word per
/// instruction, visiting the label table in order and resolving relative
/// jump targets through it; fails with the first unresolved label, returning
/// no partial binary.
pub fn generator(ir: IR) -> (r: Result<Vec<InstructionWord>, GeneratorError>)
    ensures
        match r {
            Ok(words) => spec_generate(ir@) == Ok::<Seq<int>, Seq<char>>(view_words(words@))
                && forall|k: int| 0 <= k < words@.len() ==> (#[trigger] words@[k]).wf(),
            Err(e) => spec_generate(ir@) == Err::<Seq<int>, Seq<char>>(e@),
        },
{
    let ghost lutv = ir.label_definitions@;
    let ghost blocksv = view_blocks(ir.instructions@);
    let mut binary: Vec<InstructionWord> = Vec::with_capacity(32);
    proof {
        assert(view_words(binary@) =~= Seq::<int>::empty());
    }
    let mut li: usize = 0;
    while li < ir.label_definitions.0.len()
        invariant
            li <= lutv.len(),
            lutv == ir.label_definitions@,
            blocksv == view_blocks(ir.instructions@),
            forall|k: int| 0 <= k < binary@.len() ==> (#[trigger] binary@[k]).wf(),
            match spec_generate_from(lutv, blocksv, li as int) {
                Ok(rest) => spec_generate(ir@) == Ok::<Seq<int>, Seq<char>>(
                    view_words(binary@) + rest,
                ),
                Err(e) => spec_generate(ir@) == Err::<Seq<int>, Seq<char>>(e),
            },
        decreases lutv.len() - li,
    {
        let def = &ir.label_definitions.0[li];
        let base = def.address.0;
        proof {
            assert(lutv[li as int] == def@);
        }
        match find_block(&ir.instructions, &def.name) {
            None => {
                proof {
                    assert(spec_encode_block_from(Seq::<SpecInstruction>::empty(), base, 0, lutv)
                        == Ok::<Seq<int>, Seq<char>>(Seq::empty()));
                    if spec_generate_from(lutv, blocksv, li as int + 1) is Ok {
                        let rest = spec_generate_from(lutv, blocksv, li as int + 1)->Ok_0;
                        assert(Seq::<int>::empty() + rest =~= rest);
                    }
                }
            },
            Some(instrs) => {
                let ghost iv = view_instructions(instrs@);
                let mut idx: usize = 0;
                while idx < instrs.len()
                    invariant
                        idx <= iv.len(),
                        iv == view_instructions(instrs@),
                        lutv == ir.label_definitions@,
                        blocksv == view_blocks(ir.instructions@),
                        base == lutv[li as int].address,
                        li < lutv.len(),
                        block_lookup(blocksv, lutv[li as int].name) == Some(iv),
                        forall|k: int| 0 <= k < binary@.len() ==> (#[trigger] binary@[k]).wf(),
                        match (
                            match spec_encode_block_from(iv, base, idx as int, lutv) {
                                Err(e) => Err(e),
                                Ok(ws) => match spec_generate_from(lutv, blocksv, li as int + 1) {
                                    Err(e) => Err(e),
                                    Ok(rest) => Ok(ws + rest),
                                },
                            }
                        ) {
                            Ok(tail) => spec_generate(ir@) == Ok::<Seq<int>, Seq<char>>(
                                view_words(binary@) + tail,
                            ),
                            Err(e) => spec_generate(ir@) == Err::<Seq<int>, Seq<char>>(e),
                        },
                    decreases iv.len() - idx,
                {
                    proof {
                        assert(iv[idx as int] == instrs@[idx as int]@);
                    }
                    match encode_instruction(&instrs[idx], base, idx, &ir.label_definitions) {
                        Ok(w) => {
                            let ghost old_binary = binary@;
                            binary.push(w);
                            proof {
                                assert(view_words(binary@) =~= view_words(old_binary) + seq![
                                    w@ as int,
                                ]);
                                if spec_encode_block_from(iv, base, idx as int + 1, lutv) is Ok
                                    && spec_generate_from(lutv, blocksv, li as int + 1) is Ok {
                                    let ws2 = spec_encode_block_from(
                                        iv,
                                        base,
                                        idx as int + 1,
                                        lutv,
                                    )->Ok_0;
                                    let rest = spec_generate_from(lutv, blocksv, li as int
                                        + 1)->Ok_0;
                                    assert((view_words(old_binary) + seq![w@ as int]) + (ws2
                                        + rest) =~= view_words(old_binary) + ((seq![w@ as int]
                                        + ws2) + rest));
                                }
                            }
                        },
                        Err(e) => {
                            return Err(e);
                        },
                    }
                    idx += 1;
                }
                proof {
                    assert(spec_encode_block_from(iv, base, idx as int, lutv) == Ok::<
                        Seq<int>,
                        Seq<char>,
                    >(Seq::empty()));
                    if spec_generate_from(lutv, blocksv, li as int + 1) is Ok {
                        let rest = spec_generate_from(lutv, blocksv, li as int + 1)->Ok_0;
                        assert(Seq::<int>::empty() + rest =~= rest);
                    }
                }
            },
        }
        li += 1;
    }
    proof {
        assert(spec_generate_from(lutv, blocksv, li as int) == Ok::<Seq<int>, Seq<char>>(
            Seq::empty(),
        ));
        assert(view_words(binary@) + Seq::<int>::empty() =~= view_words(binary@));
    }
    Ok(binary)
}

// ---------------------------------------------------------------------------
// Laws
// ---------------------------------------------------------------------------

/// Law: decoding an immediate-load word per the documented bit layout
/// recovers the original register and 16-bit constant exactly, for every
/// register 0..7 and every constant.
pub proof fn lemma_load_round_trip(target: u8, constant: u16)
    requires
        target < 8,
    ensures
        word_is_load(spec_load_word(target, constant)),
        word_load_target(spec_load_word(target, constant)) == target,
        word_constant16(spec_load_word(target, constant)) == constant,
{
    let w = spec_load_word(target, constant);
    let c = constant as int;
    let t = target as int;
    assert(c % 16 < 16 && c % 16 >= 0 && c / 16 >= 0 && c / 16 < 0x1000) by {
        lemma_fundamental_div_mod(c, 16);
    }
    assert(t % 8 == t) by {
        lemma_small_mod(t as nat, 8);
    }
    // Bits 0..3 hold the low nibble.
    lemma_fundamental_div_mod_converse(w, 16, t + 8 + (c / 16) * 16, c % 16);
    assert(w % 16 == c % 16 && w / 16 == t + 8 + (c / 16) * 16);
    // Bits 4..6 hold the register.
    lemma_fundamental_div_mod_converse(w / 16, 8, 1 + (c / 16) * 2, t);
    assert((w / 16) % 8 == t);
    // Bit 7 is set.
    lemma_fundamental_div_mod_converse(w, 128, 1 + (c / 16) * 2, c % 16 + t * 16);
    assert(w / 128 == 1 + (c / 16) * 2);
    lemma_fundamental_div_mod_converse(w / 128, 2, c / 16, 1);
    assert((w / 128) % 2 == 1);
    // Bits 8..19 hold the high 12 bits.
    lemma_fundamental_div_mod_converse(w, 256, c / 16, c % 16 + t * 16 + 128);
    assert(w / 256 == c / 16);
    lemma_fundamental_div_mod(c, 16);
    assert((w / 256) * 16 + w % 16 == c);
}

/// Law: the 12-bit field of a relative jump encoded for a label at address
/// `target`, taken from position `idx` of a block at address `base`, is the
/// target address minus the address of the following instruction, with
/// two's-complement wrap-around, truncated to 12 bits.
pub proof fn lemma_relative_jump_offset(opcode: u8, target: u16, base: u16, idx: int)
    requires
        opcode < 0x80,
    ensures
        word_constant12(spec_rel_word(opcode, spec_rel_offset(target, base, idx))) == ((
        target as int) - ((base as int) + idx + 1)) % 0x1000,
{
    let x = (target as int) - (base as int) - idx - 1;
    let off = spec_rel_offset(target, base, idx) as int;
    assert(off == x % 0x10000 && 0 <= off < 0x10000) by {
        lemma_fundamental_div_mod(x, 0x10000);
    }
    let f = off % 0x1000;
    assert(0 <= f < 0x1000) by {
        lemma_fundamental_div_mod(off, 0x1000);
    }
    let w = spec_rel_word(opcode, spec_rel_offset(target, base, idx));
    lemma_fundamental_div_mod_converse(w, 256, f, opcode as int);
    assert(w / 256 == f);
    lemma_small_mod(f as nat, 0x1000);
    assert(word_constant12(w) == f);
    lemma_mod_mod(x, 0x1000, 16);
    assert((x % (0x1000int * 16)) % 0x1000 == x % 0x1000);
}

/// Whether an instruction is a relative jump to a label that the table does
/// not define.
pub open spec fn is_undefined_jump(instr: SpecInstruction, lut: Seq<SpecLabelDefinition>) -> bool {
    match instr {
        SpecInstruction::Jump { target: SpecJumpTarget::Label(name), .. } => lut_lookup(lut, name)
            is None,
        _ => false,
    }
}

/// Whether the instruction at position `k` of the block emitted for the
/// table entry at position `j` is a relative jump to an undefined label.
pub open spec fn undefined_at(
    lut: Seq<SpecLabelDefinition>,
    blocks: Seq<SpecBlock>,
    j: int,
    k: int,
) -> bool {
    &&& 0 <= j < lut.len()
    &&& match block_lookup(blocks, lut[j].name) {
        Some(instrs) => 0 <= k < instrs.len() && is_undefined_jump(instrs[k], lut),
        None => false,
    }
}

/// Whether some instruction emitted for this representation is a relative
/// jump to an undefined label.
pub open spec fn has_undefined_jump(ir: SpecIR) -> bool {
    exists|j: int, k: int| undefined_at(ir.label_definitions, ir.instructions, j, k)
}

proof fn lemma_encode_block_err(
    instrs: Seq<SpecInstruction>,
    base: u16,
    idx: int,
    lut: Seq<SpecLabelDefinition>,
)
    requires
        0 <= idx,
    ensures
        spec_encode_block_from(instrs, base, idx, lut) is Err <==> exists|k: int|
            idx <= k < instrs.len() && is_undefined_jump(#[trigger] instrs[k], lut),
    decreases instrs.len() - idx,
{
    if idx < instrs.len() {
        lemma_encode_block_err(instrs, base, idx + 1, lut);
        if is_undefined_jump(instrs[idx], lut) {
            assert(spec_encode_instruction(instrs[idx], base, idx, lut) is Err);
        }
    }
}

proof fn lemma_generate_from_err(lut: Seq<SpecLabelDefinition>, blocks: Seq<SpecBlock>, li: int)
    requires
        0 <= li,
    ensures
        spec_generate_from(lut, blocks, li) is Err <==> exists|j: int, k: int|
            li <= j && #[trigger] undefined_at(lut, blocks, j, k),
    decreases lut.len() - li,
{
    if li < lut.len() {
        lemma_generate_from_err(lut, blocks, li + 1);
        let instrs = match block_lookup(blocks, lut[li].name) {
            Some(b) => b,
            None => Seq::empty(),
        };
        lemma_encode_block_err(instrs, lut[li].address, 0, lut);
        if spec_encode_block_from(instrs, lut[li].address, 0, lut) is Err {
            let k = choose|k: int|
                0 <= k < instrs.len() && is_undefined_jump(#[trigger] instrs[k], lut);
            assert(undefined_at(lut, blocks, li, k));
        }
        if exists|j: int, k: int| li <= j && #[trigger] undefined_at(lut, blocks, j, k) {
            let (j, k) = choose|j: int, k: int|
                li <= j && #[trigger] undefined_at(lut, blocks, j, k);
            if j == li && block_lookup(blocks, lut[li].name) is Some {
                assert(is_undefined_jump(instrs[k], lut));
            }
        }
    }
}

/// Law: generation fails with an undefined-label error exactly when some
/// emitted relative jump names a label absent from the table; it never
/// silently encodes such a jump.
pub proof fn lemma_generate_fails_iff_undefined(ir: SpecIR)
    ensures
        spec_generate(ir) is Err <==> has_undefined_jump(ir),
{
    lemma_generate_from_err(ir.label_definitions, ir.instructions, 0);
    if has_undefined_jump(ir) {
        let (j, k) = choose|j: int, k: int|
            undefined_at(ir.label_definitions, ir.instructions, j, k);
        assert(0 <= j && undefined_at(ir.label_definitions, ir.instructions, j, k));
    }
}

} // verus!

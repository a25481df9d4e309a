//! The intermediate representation shared by the parser and the generator:
//! registers, typed instructions, label references and definitions, and the
//! label lookup table, together with their mathematical models.

use vstd::prelude::*;

verus! {

// ---------------------------------------------------------------------------
// Plain operand types
// ---------------------------------------------------------------------------

/// A 3-bit register address.  The encoder keeps only the low three bits.
#[derive(Debug, Clone, Copy, PartialEq, Eq, PartialOrd, Ord, Structural)]
pub struct RegisterAddress(pub u8);

/// A 16-bit program-memory address.
#[derive(Debug, Clone, Copy, PartialEq, Eq, PartialOrd, Ord, Structural)]
pub struct MemoryAddress(pub u16);

/// A 16-bit constant operand.
#[derive(Debug, Clone, Copy, PartialEq, Eq, PartialOrd, Ord, Structural)]
pub struct Constant(pub u16);

/// A boolean operand.
#[derive(Debug, Clone, Copy, PartialEq, Eq, PartialOrd, Ord, Structural)]
pub struct Boolean(pub bool);

/// One of the eight general-purpose registers.
#[derive(Debug, Clone, Copy, PartialEq, Eq, PartialOrd, Ord, Structural)]
pub struct Register {
    pub address: RegisterAddress,
}

impl Register {
    pub fn new(address: RegisterAddress) -> (r: Self)
        ensures
            r == (Register { address }),
    {
        Self { address }
    }

    pub fn addr(&self) -> (a: u8)
        ensures
            a == self.address.0,
    {
        self.address.0
    }
}

// ---------------------------------------------------------------------------
// Operand shapes
// ---------------------------------------------------------------------------

/// Target plus one source register.
#[derive(Debug, PartialEq, Eq, Structural)]
pub struct UnaryExpression {
    pub target: Register,
    pub source_a: Register,
}

impl UnaryExpression {
    pub fn new(target: Register, source_a: Register) -> (r: Self)
        ensures
            r == (UnaryExpression { target, source_a }),
    {
        Self { target, source_a }
    }
}

/// One source register, no target.
#[derive(Debug, PartialEq, Eq, Structural)]
pub struct UnaryStatement {
    pub source_a: Register,
}

impl UnaryStatement {
    pub fn new(source_a: Register) -> (r: Self)
        ensures
            r == (UnaryStatement { source_a }),
    {
        Self { source_a }
    }
}

/// Target plus two source registers.
#[derive(Debug, PartialEq, Eq, Structural)]
pub struct BinaryExpression {
    pub target: Register,
    pub source_a: Register,
    pub source_b: Register,
}

impl BinaryExpression {
    pub fn new(target: Register, source_a: Register, source_b: Register) -> (r: Self)
        ensures
            r == (BinaryExpression { target, source_a, source_b }),
    {
        Self { target, source_a, source_b }
    }
}

/// Two source registers, no target.
#[derive(Debug, PartialEq, Eq, Structural)]
pub struct BinaryStatement {
    pub source_a: Register,
    pub source_b: Register,
}

impl BinaryStatement {
    pub fn new(source_a: Register, source_b: Register) -> (r: Self)
        ensures
            r == (BinaryStatement { source_a, source_b }),
    {
        Self { source_a, source_b }
    }
}

/// Target plus three source registers.
#[derive(Debug, PartialEq, Eq, Structural)]
pub struct TernaryExpression {
    pub target: Register,
    pub source_a: Register,
    pub source_b: Register,
    pub source_c: Register,
}

impl TernaryExpression {
    pub fn new(target: Register, source_a: Register, source_b: Register, source_c: Register) -> (r:
        TernaryExpression)
        ensures
            r == (TernaryExpression { target, source_a, source_b, source_c }),
    {
        TernaryExpression { target, source_a, source_b, source_c }
    }
}

/// Where a `Load` instruction takes its value from.
#[derive(Debug, PartialEq, Eq, Structural)]
pub enum LoadSource {
    Constant(u16),
    RAM { address_register: Register },
}

/// The condition under which a jump is taken.
#[derive(Debug, PartialEq, Eq, Structural)]
pub enum JumpCondition {
    True,
    Zero,
    NotZero,
    Less,
    Overflow,
}

// ---------------------------------------------------------------------------
// Labels
// ---------------------------------------------------------------------------

/// A yet-to-resolve usage of a label, by name.  Equality is by name alone.
#[derive(Debug, Clone)]
pub struct LabelReference(pub String);

impl View for LabelReference {
    type V = Seq<char>;

    open spec fn view(&self) -> Seq<char> {
        self.0@
    }
}

impl LabelReference {
    pub fn new(name: &str) -> (r: Self)
        ensures
            r@ == name@,
    {
        LabelReference(name.to_owned())
    }

    pub fn name(&self) -> (r: &str)
        ensures
            r@ == self@,
    {
        self.0.as_str()
    }
}

impl PartialEq for LabelReference {
    fn eq(&self, other: &Self) -> (r: bool) {
        self.0 == other.0
    }
}

impl vstd::std_specs::cmp::PartialEqSpecImpl for LabelReference {
    open spec fn obeys_eq_spec() -> bool {
        true
    }

    open spec fn eq_spec(&self, other: &Self) -> bool {
        self@ == other@
    }
}

/// The mathematical model of a label definition: a name bound to an address.
#[verifier::ext_equal]
pub struct SpecLabelDefinition {
    pub name: Seq<char>,
    pub address: u16,
}

/// A label name bound to its resolved 16-bit address.  Created once, when the
/// parser encounters the label; immutable thereafter.
#[derive(Debug, Clone)]
pub struct LabelDefinition {
    pub name: String,
    pub address: MemoryAddress,
}

impl View for LabelDefinition {
    type V = SpecLabelDefinition;

    open spec fn view(&self) -> SpecLabelDefinition {
        SpecLabelDefinition { name: self.name@, address: self.address.0 }
    }
}

impl LabelDefinition {
    pub fn new(name: &str, address: u16) -> (r: LabelDefinition)
        ensures
            r@ == (SpecLabelDefinition { name: name@, address }),
    {
        LabelDefinition { name: name.to_owned(), address: MemoryAddress(address) }
    }
}

/// The view of a sequence of label definitions.
pub open spec fn view_label_definitions(s: Seq<LabelDefinition>) -> Seq<SpecLabelDefinition> {
    s.map_values(|d: LabelDefinition| d@)
}

/// The label lookup table: label definitions in the order the parser first
/// resolved them, so addresses are non-decreasing and names are unique.
#[derive(Debug, Clone)]
pub struct LabelLUT(pub Vec<LabelDefinition>);

impl View for LabelLUT {
    type V = Seq<SpecLabelDefinition>;

    open spec fn view(&self) -> Seq<SpecLabelDefinition> {
        view_label_definitions(self.0@)
    }
}

impl LabelLUT {
    pub fn new() -> (r: Self)
        ensures
            r@ == Seq::<SpecLabelDefinition>::empty(),
    {
        let r = LabelLUT(Vec::new());
        proof {
            assert(r@ =~= Seq::<SpecLabelDefinition>::empty());
        }
        r
    }

    pub fn with_capacity(capacity: usize) -> (r: Self)
        ensures
            r@ == Seq::<SpecLabelDefinition>::empty(),
    {
        let r = LabelLUT(Vec::with_capacity(capacity));
        proof {
            assert(r@ =~= Seq::<SpecLabelDefinition>::empty());
        }
        r
    }
}

impl Default for LabelLUT {
    fn default() -> (r: Self)
        ensures
            r@ == Seq::<SpecLabelDefinition>::empty(),
    {
        LabelLUT::new()
    }
}

// ---------------------------------------------------------------------------
// Instructions
// ---------------------------------------------------------------------------

/// The target of a jump: a register holding an absolute address, or a
/// constant or label resolved as a relative displacement.
#[derive(Debug)]
pub enum JumpTarget {
    Constant(u16),
    Register(Register),
    Label(LabelReference),
}

/// The mathematical model of a jump target; label references are plain names.
#[verifier::ext_equal]
pub enum SpecJumpTarget {
    Constant(u16),
    Register(Register),
    Label(Seq<char>),
}

impl View for JumpTarget {
    type V = SpecJumpTarget;

    open spec fn view(&self) -> SpecJumpTarget {
        match self {
            JumpTarget::Constant(c) => SpecJumpTarget::Constant(*c),
            JumpTarget::Register(r) => SpecJumpTarget::Register(*r),
            JumpTarget::Label(l) => SpecJumpTarget::Label(l@),
        }
    }
}

impl PartialEq for JumpTarget {
    fn eq(&self, other: &Self) -> (r: bool) {
        match (self, other) {
            (JumpTarget::Constant(a), JumpTarget::Constant(b)) => a == b,
            (JumpTarget::Register(a), JumpTarget::Register(b)) => a == b,
            (JumpTarget::Label(a), JumpTarget::Label(b)) => a == b,
            _ => false,
        }
    }
}

impl vstd::std_specs::cmp::PartialEqSpecImpl for JumpTarget {
    open spec fn obeys_eq_spec() -> bool {
        true
    }

    open spec fn eq_spec(&self, other: &Self) -> bool {
        self@ == other@
    }
}

/// One typed instruction of the assembly language.
#[derive(Debug)]
pub enum Instruction {
    Move(UnaryExpression),
    Set32BitMode { enable: Boolean },
    Load { address: RegisterAddress, source: LoadSource },
    StoreRAM { address_register: RegisterAddress, data_register: RegisterAddress },
    Halt,
    Noop,
    Debug,
    Jump { target: JumpTarget, condition: JumpCondition },
    Add(BinaryExpression),
    Add3(TernaryExpression),
    AddWithCarry(BinaryExpression),
    Subtract(BinaryExpression),
    SubtractWithCarry(BinaryExpression),
    Increment(UnaryExpression),
    Decrement(UnaryExpression),
    Multiply(BinaryExpression),
    Test(BinaryStatement),
    AND(BinaryExpression),
    OR(BinaryExpression),
    NOT(UnaryExpression),
    XOR(BinaryExpression),
    XNOR(BinaryExpression),
    ShiftLeft(BinaryExpression),
    ShiftRight(BinaryExpression),
    Negate(UnaryExpression),
}

/// The mathematical model of an instruction; identical to [`Instruction`]
/// except that a jump target's label reference is a plain name.
#[verifier::ext_equal]
pub enum SpecInstruction {
    Move(UnaryExpression),
    Set32BitMode { enable: Boolean },
    Load { address: RegisterAddress, source: LoadSource },
    StoreRAM { address_register: RegisterAddress, data_register: RegisterAddress },
    Halt,
    Noop,
    Debug,
    Jump { target: SpecJumpTarget, condition: JumpCondition },
    Add(BinaryExpression),
    Add3(TernaryExpression),
    AddWithCarry(BinaryExpression),
    Subtract(BinaryExpression),
    SubtractWithCarry(BinaryExpression),
    Increment(UnaryExpression),
    Decrement(UnaryExpression),
    Multiply(BinaryExpression),
    Test(BinaryStatement),
    AND(BinaryExpression),
    OR(BinaryExpression),
    NOT(UnaryExpression),
    XOR(BinaryExpression),
    XNOR(BinaryExpression),
    ShiftLeft(BinaryExpression),
    ShiftRight(BinaryExpression),
    Negate(UnaryExpression),
}

impl View for Instruction {
    type V = SpecInstruction;

    open spec fn view(&self) -> SpecInstruction {
        match self {
            Instruction::Move(x) => SpecInstruction::Move(*x),
            Instruction::Set32BitMode { enable } => SpecInstruction::Set32BitMode {
                enable: *enable,
            },
            Instruction::Load { address, source } => SpecInstruction::Load {
                address: *address,
                source: *source,
            },
            Instruction::StoreRAM { address_register, data_register } => {
                SpecInstruction::StoreRAM {
                    address_register: *address_register,
                    data_register: *data_register,
                }
            },
            Instruction::Halt => SpecInstruction::Halt,
            Instruction::Noop => SpecInstruction::Noop,
            Instruction::Debug => SpecInstruction::Debug,
            Instruction::Jump { target, condition } => SpecInstruction::Jump {
                target: target@,
                condition: *condition,
            },
            Instruction::Add(x) => SpecInstruction::Add(*x),
            Instruction::Add3(x) => SpecInstruction::Add3(*x),
            Instruction::AddWithCarry(x) => SpecInstruction::AddWithCarry(*x),
            Instruction::Subtract(x) => SpecInstruction::Subtract(*x),
            Instruction::SubtractWithCarry(x) => SpecInstruction::SubtractWithCarry(*x),
            Instruction::Increment(x) => SpecInstruction::Increment(*x),
            Instruction::Decrement(x) => SpecInstruction::Decrement(*x),
            Instruction::Multiply(x) => SpecInstruction::Multiply(*x),
            Instruction::Test(x) => SpecInstruction::Test(*x),
            Instruction::AND(x) => SpecInstruction::AND(*x),
            Instruction::OR(x) => SpecInstruction::OR(*x),
            Instruction::NOT(x) => SpecInstruction::NOT(*x),
            Instruction::XOR(x) => SpecInstruction::XOR(*x),
            Instruction::XNOR(x) => SpecInstruction::XNOR(*x),
            Instruction::ShiftLeft(x) => SpecInstruction::ShiftLeft(*x),
            Instruction::ShiftRight(x) => SpecInstruction::ShiftRight(*x),
            Instruction::Negate(x) => SpecInstruction::Negate(*x),
        }
    }
}

impl PartialEq for Instruction {
    fn eq(&self, other: &Self) -> (r: bool) {
        match (self, other) {
            (Instruction::Move(a), Instruction::Move(b)) => a == b,
            (
                Instruction::Set32BitMode { enable: a },
                Instruction::Set32BitMode { enable: b },
            ) => a == b,
            (
                Instruction::Load { address: aa, source: sa },
                Instruction::Load { address: ab, source: sb },
            ) => aa == ab && sa == sb,
            (
                Instruction::StoreRAM { address_register: aa, data_register: da },
                Instruction::StoreRAM { address_register: ab, data_register: db },
            ) => aa == ab && da == db,
            (Instruction::Halt, Instruction::Halt) => true,
            (Instruction::Noop, Instruction::Noop) => true,
            (Instruction::Debug, Instruction::Debug) => true,
            (
                Instruction::Jump { target: ta, condition: ca },
                Instruction::Jump { target: tb, condition: cb },
            ) => ta == tb && ca == cb,
            (Instruction::Add(a), Instruction::Add(b)) => a == b,
            (Instruction::Add3(a), Instruction::Add3(b)) => a == b,
            (Instruction::AddWithCarry(a), Instruction::AddWithCarry(b)) => a == b,
            (Instruction::Subtract(a), Instruction::Subtract(b)) => a == b,
            (Instruction::SubtractWithCarry(a), Instruction::SubtractWithCarry(b)) => a == b,
            (Instruction::Increment(a), Instruction::Increment(b)) => a == b,
            (Instruction::Decrement(a), Instruction::Decrement(b)) => a == b,
            (Instruction::Multiply(a), Instruction::Multiply(b)) => a == b,
            (Instruction::Test(a), Instruction::Test(b)) => a == b,
            (Instruction::AND(a), Instruction::AND(b)) => a == b,
            (Instruction::OR(a), Instruction::OR(b)) => a == b,
            (Instruction::NOT(a), Instruction::NOT(b)) => a == b,
            (Instruction::XOR(a), Instruction::XOR(b)) => a == b,
            (Instruction::XNOR(a), Instruction::XNOR(b)) => a == b,
            (Instruction::ShiftLeft(a), Instruction::ShiftLeft(b)) => a == b,
            (Instruction::ShiftRight(a), Instruction::ShiftRight(b)) => a == b,
            (Instruction::Negate(a), Instruction::Negate(b)) => a == b,
            _ => false,
        }
    }
}

impl vstd::std_specs::cmp::PartialEqSpecImpl for Instruction {
    open spec fn obeys_eq_spec() -> bool {
        true
    }

    open spec fn eq_spec(&self, other: &Self) -> bool {
        self@ == other@
    }
}

// ---------------------------------------------------------------------------
// The intermediate representation
// ---------------------------------------------------------------------------

/// The mathematical model of one label's instruction list.
#[verifier::ext_equal]
pub struct SpecBlock {
    pub label: Seq<char>,
    pub instructions: Seq<SpecInstruction>,
}

/// The instructions that follow one label, in source order.
#[derive(Debug)]
pub struct InstructionBlock {
    pub label: LabelReference,
    pub instructions: Vec<Instruction>,
}

/// The view of an instruction sequence.
pub open spec fn view_instructions(s: Seq<Instruction>) -> Seq<SpecInstruction> {
    s.map_values(|i: Instruction| i@)
}

impl View for InstructionBlock {
    type V = SpecBlock;

    open spec fn view(&self) -> SpecBlock {
        SpecBlock { label: self.label@, instructions: view_instructions(self.instructions@) }
    }
}

/// The view of a block sequence.
pub open spec fn view_blocks(s: Seq<InstructionBlock>) -> Seq<SpecBlock> {
    s.map_values(|b: InstructionBlock| b@)
}

/// The mathematical model of the parser's result.
#[verifier::ext_equal]
pub struct SpecIR {
    pub start_label: Seq<char>,
    pub label_definitions: Seq<SpecLabelDefinition>,
    pub instructions: Seq<SpecBlock>,
}

/// The parser's result: the start label, the label lookup table, and one
/// instruction block per label, in the order the labels were resolved.
#[derive(Debug)]
pub struct IR {
    pub start_label: LabelReference,
    pub label_definitions: LabelLUT,
    pub instructions: Vec<InstructionBlock>,
}

impl View for IR {
    type V = SpecIR;

    open spec fn view(&self) -> SpecIR {
        SpecIR {
            start_label: self.start_label@,
            label_definitions: self.label_definitions@,
            instructions: view_blocks(self.instructions@),
        }
    }
}

// ---------------------------------------------------------------------------
// Lookup-table operations and well-formedness
// ---------------------------------------------------------------------------

/// The index of the first definition of `name`, or -1 when there is none.
pub open spec fn lut_find_idx(lut: Seq<SpecLabelDefinition>, name: Seq<char>) -> int
    decreases lut.len(),
{
    if lut.len() == 0 {
        -1
    } else if lut[0].name == name {
        0
    } else {
        let r = lut_find_idx(lut.drop_first(), name);
        if r == -1 {
            -1
        } else {
            r + 1
        }
    }
}

/// The address bound to `name`, if any.
pub open spec fn lut_lookup(lut: Seq<SpecLabelDefinition>, name: Seq<char>) -> Option<u16> {
    let i = lut_find_idx(lut, name);
    if i == -1 {
        None
    } else {
        Some(lut[i].address)
    }
}

/// Binding `def` in the table: any previous definition of the same name is
/// removed, and the new one goes to the end.
pub open spec fn lut_insert(
    lut: Seq<SpecLabelDefinition>,
    def: SpecLabelDefinition,
) -> Seq<SpecLabelDefinition> {
    let i = lut_find_idx(lut, def.name);
    if i == -1 {
        lut.push(def)
    } else {
        lut.remove(i).push(def)
    }
}

/// The index of the first block labelled `name`, or -1 when there is none.
pub open spec fn block_find_idx(blocks: Seq<SpecBlock>, name: Seq<char>) -> int
    decreases blocks.len(),
{
    if blocks.len() == 0 {
        -1
    } else if blocks[0].label == name {
        0
    } else {
        let r = block_find_idx(blocks.drop_first(), name);
        if r == -1 {
            -1
        } else {
            r + 1
        }
    }
}

/// The instruction list of the block labelled `name`, if any.
pub open spec fn block_lookup(blocks: Seq<SpecBlock>, name: Seq<char>) -> Option<
    Seq<SpecInstruction>,
> {
    let i = block_find_idx(blocks, name);
    if i == -1 {
        None
    } else {
        Some(blocks[i].instructions)
    }
}

/// The number of instructions stored under `name`; zero when there is no
/// block of that name.
pub open spec fn block_len(blocks: Seq<SpecBlock>, name: Seq<char>) -> int {
    match block_lookup(blocks, name) {
        Some(instrs) => instrs.len() as int,
        None => 0,
    }
}

/// Starting (or restarting) the block of `name` with an empty instruction
/// list; an existing block keeps its position.
pub open spec fn blocks_reset(blocks: Seq<SpecBlock>, name: Seq<char>) -> Seq<SpecBlock> {
    let i = block_find_idx(blocks, name);
    let b = SpecBlock { label: name, instructions: Seq::empty() };
    if i == -1 {
        blocks.push(b)
    } else {
        blocks.update(i, b)
    }
}

/// Appending one instruction to the block of `name`, creating the block when
/// it does not exist yet.
pub open spec fn blocks_append(
    blocks: Seq<SpecBlock>,
    name: Seq<char>,
    instr: SpecInstruction,
) -> Seq<SpecBlock> {
    let i = block_find_idx(blocks, name);
    if i == -1 {
        blocks.push(SpecBlock { label: name, instructions: seq![instr] })
    } else {
        blocks.update(
            i,
            SpecBlock { label: name, instructions: blocks[i].instructions.push(instr) },
        )
    }
}

/// No two table entries share a name.
pub open spec fn lut_names_unique(lut: Seq<SpecLabelDefinition>) -> bool {
    forall|i: int, j: int| 0 <= i < j < lut.len() ==> lut[i].name != lut[j].name
}

/// Addresses are non-decreasing in table order.
pub open spec fn lut_sorted(lut: Seq<SpecLabelDefinition>) -> bool {
    forall|i: int, j: int| 0 <= i < j < lut.len() ==> lut[i].address <= lut[j].address
}

/// No two blocks share a label.
pub open spec fn block_names_unique(blocks: Seq<SpecBlock>) -> bool {
    forall|i: int, j: int| 0 <= i < j < blocks.len() ==> blocks[i].label != blocks[j].label
}

/// Every block's label is defined in the table.
pub open spec fn blocks_defined(blocks: Seq<SpecBlock>, lut: Seq<SpecLabelDefinition>) -> bool {
    forall|i: int| 0 <= i < blocks.len() ==> lut_find_idx(lut, #[trigger] blocks[i].label) != -1
}

impl SpecIR {
    /// The invariant the parser establishes: unique label names, addresses
    /// resolved in non-decreasing order, unique block labels, and no block
    /// without a definition.
    pub open spec fn wf(self) -> bool {
        &&& lut_names_unique(self.label_definitions)
        &&& lut_sorted(self.label_definitions)
        &&& block_names_unique(self.instructions)
        &&& blocks_defined(self.instructions, self.label_definitions)
    }
}

// ---------------------------------------------------------------------------
// Facts about the table operations
// ---------------------------------------------------------------------------

/// What `lut_find_idx` finds is the first match.
pub proof fn lemma_lut_find_idx(lut: Seq<SpecLabelDefinition>, name: Seq<char>)
    ensures
        lut_find_idx(lut, name) == -1 ==> forall|k: int|
            0 <= k < lut.len() ==> (#[trigger] lut[k]).name != name,
        lut_find_idx(lut, name) != -1 ==> {
            let i = lut_find_idx(lut, name);
            &&& 0 <= i < lut.len()
            &&& lut[i].name == name
            &&& forall|k: int| 0 <= k < i ==> (#[trigger] lut[k]).name != name
        },
    decreases lut.len(),
{
    if lut.len() != 0 && lut[0].name != name {
        lemma_lut_find_idx(lut.drop_first(), name);
        assert forall|k: int| 1 <= k < lut.len() implies lut.drop_first()[k - 1] == lut[k] by {}
    }
}

/// Whether the table defines `name`.
pub open spec fn lut_has(lut: Seq<SpecLabelDefinition>, name: Seq<char>) -> bool {
    lut_find_idx(lut, name) != -1
}

/// Inserting a definition whose address is no smaller than any in the table
/// keeps the table well-formed: names stay unique, addresses stay sorted,
/// the new definition is present, and exactly the old names plus the new one
/// are defined.
pub proof fn lemma_lut_insert(lut: Seq<SpecLabelDefinition>, def: SpecLabelDefinition)
    requires
        lut_names_unique(lut),
        lut_sorted(lut),
        forall|k: int| 0 <= k < lut.len() ==> (#[trigger] lut[k]).address <= def.address,
    ensures
        lut_names_unique(lut_insert(lut, def)),
        lut_sorted(lut_insert(lut, def)),
        forall|k: int|
            0 <= k < lut_insert(lut, def).len() ==> (#[trigger] lut_insert(lut, def)[k]).address
                <= def.address,
        lut_has(lut_insert(lut, def), def.name),
        forall|n: Seq<char>|
            #[trigger] lut_has(lut_insert(lut, def), n) <==> (lut_has(lut, n) || n == def.name),
{
    let r = lut_insert(lut, def);
    lemma_lut_find_idx(lut, def.name);
    let i = lut_find_idx(lut, def.name);
    if i == -1 {
        assert(forall|k: int| 0 <= k < lut.len() ==> r[k] == lut[k]);
        assert(r[r.len() - 1] == def);
    } else {
        let r0 = lut.remove(i);
        assert(forall|k: int| 0 <= k < i ==> r0[k] == lut[k]);
        assert(forall|k: int| i <= k < lut.len() - 1 ==> r0[k] == lut[k + 1]);
        assert(forall|k: int| 0 <= k < r0.len() ==> r[k] == r0[k]);
        assert(r[r.len() - 1] == def);
        assert(forall|k: int|
            0 <= k < r0.len() ==> (#[trigger] r0[k]).name != def.name && exists|j: int|
                0 <= j < lut.len() && lut[j] == r0[k]);
    }
    assert forall|n: Seq<char>| #[trigger]
        lut_has(r, n) <==> (lut_has(lut, n) || n == def.name) by {
        lemma_lut_find_idx(r, n);
        lemma_lut_find_idx(lut, n);
        if lut_has(lut, n) {
            let j = lut_find_idx(lut, n);
            if i != -1 && lut[j].name == def.name {
                assert(r[r.len() - 1].name == n);
            } else {
                if i == -1 {
                    assert(r[j].name == n);
                } else {
                    if j < i {
                        assert(r[j].name == n);
                    } else if j > i {
                        assert(r[j - 1].name == n);
                    }
                }
            }
        }
        if n == def.name {
            assert(r[r.len() - 1].name == n);
        }
    }
}

/// Resetting a block keeps block labels unique; each resulting block either
/// bears the reset name or sits where an equally-labelled block already sat.
pub proof fn lemma_blocks_reset(blocks: Seq<SpecBlock>, name: Seq<char>)
    requires
        block_names_unique(blocks),
    ensures
        block_names_unique(blocks_reset(blocks, name)),
        forall|k: int|
            0 <= k < blocks_reset(blocks, name).len() ==> ((#[trigger] blocks_reset(blocks, name)[k]).label
                == name || (0 <= k < blocks.len() && blocks_reset(blocks, name)[k].label
                == blocks[k].label)),
{
    lemma_block_find_idx(blocks, name);
}

/// Appending to a block keeps block labels unique; each resulting block
/// either bears the appended-to name or sits where an equally-labelled block
/// already sat.
pub proof fn lemma_blocks_append(blocks: Seq<SpecBlock>, name: Seq<char>, instr: SpecInstruction)
    requires
        block_names_unique(blocks),
    ensures
        block_names_unique(blocks_append(blocks, name, instr)),
        forall|k: int|
            0 <= k < blocks_append(blocks, name, instr).len() ==> ((#[trigger] blocks_append(
                blocks,
                name,
                instr,
            )[k]).label == name || (0 <= k < blocks.len() && blocks_append(blocks, name, instr)[k].label
                == blocks[k].label)),
{
    lemma_block_find_idx(blocks, name);
}

/// Sequences with pointwise equal labels agree on where any name is found.
pub proof fn lemma_block_find_idx_same_labels(a: Seq<SpecBlock>, b: Seq<SpecBlock>, n: Seq<char>)
    requires
        a.len() == b.len(),
        forall|k: int| 0 <= k < a.len() ==> (#[trigger] a[k]).label == b[k].label,
    ensures
        block_find_idx(a, n) == block_find_idx(b, n),
{
    lemma_block_find_idx(a, n);
    lemma_block_find_idx(b, n);
    let fa = block_find_idx(a, n);
    let fb = block_find_idx(b, n);
    if fa == -1 && fb != -1 {
        assert(a[fb].label == b[fb].label);
    }
    if fa != -1 && fb == -1 {
        assert(b[fa].label == a[fa].label);
    }
    if fa != -1 && fb != -1 && fa != fb {
        if fa < fb {
            assert(b[fa].label == a[fa].label);
        } else {
            assert(a[fb].label == b[fb].label);
        }
    }
}

/// What resetting does to every lookup: the reset name maps to the empty
/// list, every other name maps as before.
pub proof fn lemma_blocks_reset_lookup(blocks: Seq<SpecBlock>, name: Seq<char>)
    ensures
        block_lookup(blocks_reset(blocks, name), name) == Some(Seq::<SpecInstruction>::empty()),
        forall|n2: Seq<char>|
            n2 != name ==> #[trigger] block_lookup(blocks_reset(blocks, name), n2)
                == block_lookup(blocks, n2),
{
    lemma_block_find_idx(blocks, name);
    let i = block_find_idx(blocks, name);
    let r = blocks_reset(blocks, name);
    if i == -1 {
        assert(forall|k: int| 0 <= k < blocks.len() ==> r[k] == blocks[k]);
        assert(r[blocks.len() as int].label == name);
        lemma_block_find_idx(r, name);
        let f = block_find_idx(r, name);
        assert(f != -1);
        assert(f == blocks.len());
        assert forall|n2: Seq<char>| n2 != name implies #[trigger] block_lookup(r, n2)
            == block_lookup(blocks, n2) by {
            lemma_block_find_idx(r, n2);
            lemma_block_find_idx(blocks, n2);
            let fr = block_find_idx(r, n2);
            let fo = block_find_idx(blocks, n2);
            if fo == -1 && fr != -1 {
                assert(r[fr].label == n2);
            }
            if fo != -1 {
                assert(r[fo].label == n2);
                if fr == -1 {
                    assert(r[fo].label != n2);
                }
                if fr != -1 && fr != fo {
                    if fr < fo {
                        assert(blocks[fr].label == n2);
                    } else {
                        assert(r[fo].label != n2);
                    }
                }
            }
        }
    } else {
        assert(forall|k: int|
            0 <= k < blocks.len() ==> (#[trigger] r[k]).label == blocks[k].label);
        lemma_block_find_idx_same_labels(blocks, r, name);
        assert(block_find_idx(r, name) == i);
        assert(r[i].instructions =~= Seq::<SpecInstruction>::empty());
        assert forall|n2: Seq<char>| n2 != name implies #[trigger] block_lookup(r, n2)
            == block_lookup(blocks, n2) by {
            lemma_block_find_idx_same_labels(blocks, r, n2);
            lemma_block_find_idx(blocks, n2);
            let fo = block_find_idx(blocks, n2);
            if fo != -1 {
                assert(blocks[fo].label == n2);
                assert(fo != i);
                assert(r[fo] == blocks[fo]);
            }
        }
    }
}

/// What appending does to every lookup: the appended-to name gains one
/// instruction (its list was empty when it had no block), every other name
/// maps as before.
pub proof fn lemma_blocks_append_lookup(
    blocks: Seq<SpecBlock>,
    name: Seq<char>,
    instr: SpecInstruction,
)
    ensures
        block_lookup(blocks_append(blocks, name, instr), name) == Some(
            (match block_lookup(blocks, name) {
                Some(l) => l,
                None => Seq::<SpecInstruction>::empty(),
            }).push(instr),
        ),
        forall|n2: Seq<char>|
            n2 != name ==> #[trigger] block_lookup(blocks_append(blocks, name, instr), n2)
                == block_lookup(blocks, n2),
{
    lemma_block_find_idx(blocks, name);
    let i = block_find_idx(blocks, name);
    let r = blocks_append(blocks, name, instr);
    if i == -1 {
        assert(forall|k: int| 0 <= k < blocks.len() ==> r[k] == blocks[k]);
        assert(r[blocks.len() as int].label == name);
        lemma_block_find_idx(r, name);
        let f = block_find_idx(r, name);
        assert(f != -1);
        assert(f == blocks.len());
        assert(r[f].instructions =~= Seq::<SpecInstruction>::empty().push(instr));
        assert forall|n2: Seq<char>| n2 != name implies #[trigger] block_lookup(r, n2)
            == block_lookup(blocks, n2) by {
            lemma_block_find_idx(r, n2);
            lemma_block_find_idx(blocks, n2);
            let fr = block_find_idx(r, n2);
            let fo = block_find_idx(blocks, n2);
            if fo == -1 && fr != -1 {
                assert(r[fr].label == n2);
            }
            if fo != -1 {
                assert(r[fo].label == n2);
                if fr == -1 {
                    assert(r[fo].label != n2);
                }
                if fr != -1 && fr != fo {
                    if fr < fo {
                        assert(blocks[fr].label == n2);
                    } else {
                        assert(r[fo].label != n2);
                    }
                }
            }
        }
    } else {
        assert(forall|k: int|
            0 <= k < blocks.len() ==> (#[trigger] r[k]).label == blocks[k].label);
        lemma_block_find_idx_same_labels(blocks, r, name);
        assert(block_find_idx(r, name) == i);
        assert forall|n2: Seq<char>| n2 != name implies #[trigger] block_lookup(r, n2)
            == block_lookup(blocks, n2) by {
            lemma_block_find_idx_same_labels(blocks, r, n2);
            lemma_block_find_idx(blocks, n2);
            let fo = block_find_idx(blocks, n2);
            if fo != -1 {
                assert(blocks[fo].label == n2);
                assert(fo != i);
                assert(r[fo] == blocks[fo]);
            }
        }
    }
}

/// What `block_find_idx` finds is the first match.
pub proof fn lemma_block_find_idx(blocks: Seq<SpecBlock>, name: Seq<char>)
    ensures
        block_find_idx(blocks, name) == -1 ==> forall|k: int|
            0 <= k < blocks.len() ==> (#[trigger] blocks[k]).label != name,
        block_find_idx(blocks, name) != -1 ==> {
            let i = block_find_idx(blocks, name);
            &&& 0 <= i < blocks.len()
            &&& blocks[i].label == name
            &&& forall|k: int| 0 <= k < i ==> (#[trigger] blocks[k]).label != name
        },
    decreases blocks.len(),
{
    if blocks.len() != 0 && blocks[0].label != name {
        lemma_block_find_idx(blocks.drop_first(), name);
        assert forall|k: int| 1 <= k < blocks.len() implies blocks.drop_first()[k - 1]
            == blocks[k] by {}
    }
}

} // verus!

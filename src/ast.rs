//! The abstract syntax tree: instructions, control-flow nodes, procedures,
//! programs and modules, each with the mathematical view that contracts use.
use vstd::prelude::*;
use crate::felt::{Felt, MODULUS};
use crate::procedure_id::ProcedureId;

verus! {

broadcast use vstd::std_specs::vec::group_vec_axioms;

/// The immediate operand of an instruction, as a mathematical value.
pub enum Operand {
    Empty,
    Byte(u8),
    Half(u16),
    Word(u32),
    Element(Felt),
    Elements(Seq<Felt>),
    WordPair(u32, u32),
    Id(ProcedureId),
}

/// An instruction seen as its opcode and its operand.
pub struct InstructionView {
    pub opcode: u8,
    pub operand: Operand,
}

pub open spec fn instruction_view(opcode: u8, operand: Operand) -> InstructionView {
    InstructionView { opcode, operand }
}

/// The immediate operand of an instruction, as an executable value.
pub enum OperandValue {
    Empty,
    Byte(u8),
    Half(u16),
    Word(u32),
    Element(Felt),
    Elements(Vec<Felt>),
    WordPair(u32, u32),
    Id(ProcedureId),
}

impl View for OperandValue {
    type V = Operand;

    open spec fn view(&self) -> Operand {
        match self {
            OperandValue::Empty => Operand::Empty,
            OperandValue::Byte(n) => Operand::Byte(*n),
            OperandValue::Half(n) => Operand::Half(*n),
            OperandValue::Word(n) => Operand::Word(*n),
            OperandValue::Element(f) => Operand::Element(*f),
            OperandValue::Elements(fs) => Operand::Elements(fs@),
            OperandValue::WordPair(a, n) => Operand::WordPair(*a, *n),
            OperandValue::Id(id) => Operand::Id(*id),
        }
    }
}

/// The operand has the shape that the opcode takes.
pub open spec fn operand_kind_fits(opcode: u8, operand: Operand) -> bool {
    match operand {
        Operand::Empty => opcode < FIRST_BYTE_OP,
        Operand::Byte(_) => FIRST_BYTE_OP <= opcode < FIRST_HALF_OP,
        Operand::Half(_) => FIRST_HALF_OP <= opcode < FIRST_WORD_OP,
        Operand::Word(_) => FIRST_WORD_OP <= opcode < FIRST_ELEMENT_OP,
        Operand::Element(_) => FIRST_ELEMENT_OP <= opcode < OP_PUSH_CONSTANTS,
        Operand::Elements(_) => opcode == OP_PUSH_CONSTANTS,
        Operand::WordPair(_, _) => opcode == OP_ADV_MEM,
        Operand::Id(_) => opcode == OP_EXEC_IMPORTED,
    }
}

/// At most this many literals follow a push.
pub const MAX_PUSH_VALUES: usize = 4;

/// Every element is a canonical field element.
pub open spec fn canonical_elements(fs: Seq<Felt>) -> bool {
    forall|i: int| 0 <= i < fs.len() ==> (#[trigger] fs[i])@ < MODULUS
}

/// The operand fits the opcode, its field elements are canonical, and a push
/// carries one to four values.
pub open spec fn operand_fits(opcode: u8, operand: Operand) -> bool {
    &&& operand_kind_fits(opcode, operand)
    &&& match operand {
        Operand::Element(f) => f@ < MODULUS,
        Operand::Elements(fs) => 1 <= fs.len() <= MAX_PUSH_VALUES && canonical_elements(fs),
        _ => true,
    }
}

/// A copy of a sequence of field elements.
pub fn copy_elements(fs: &Vec<Felt>) -> (r: Vec<Felt>)
    ensures
        r@ == fs@,
{
    let mut r: Vec<Felt> = Vec::new();
    let mut i: usize = 0;
    while i < fs.len()
        invariant
            i <= fs@.len(),
            r@ == fs@.take(i as int),
        decreases fs@.len() - i,
    {
        r.push(fs[i]);
        i = i + 1;
        assert(r@ == fs@.take(i as int));
    }
    assert(fs@.take(i as int) == fs@);
    r
}

/// A leaf operation of the virtual machine, with its immediate operands.
#[derive(Clone, Debug, PartialEq, Eq)]
pub enum Instruction {
    /// Pops a value; fails unless it is one.
    Assert,
    /// Pops a value; fails unless it is zero.
    Assertz,
    /// Pops two values; fails unless they are equal.
    AssertEq,
    Add,
    Sub,
    Mul,
    Div,
    Neg,
    Inv,
    Not,
    And,
    Or,
    Xor,
    Eq,
    Neq,
    Lt,
    Lte,
    Gt,
    Gte,
    U32CheckedAdd,
    U32WrappingAdd,
    U32OverflowingAdd,
    U32CheckedSub,
    U32WrappingSub,
    U32OverflowingSub,
    U32CheckedMul,
    U32WrappingMul,
    U32OverflowingMul,
    Drop,
    DropW,
    PadW,
    SwapW,
    MemLoad,
    MemStore,
    AdvLoadW,
    AdvU64Div,
    AdvKeyval,
    /// Pushes a copy of the stack item at the given depth.
    Dup(u8),
    /// Swaps the top item with the item at the given depth.
    Swap(u8),
    /// Moves the item at the given depth to the top.
    MovUp(u8),
    /// Moves the top item to the given depth.
    MovDn(u8),
    /// Pushes the given number of values from the advice tape.
    AdvPush(u8),
    /// Pushes the value of the given local slot.
    LocLoad(u16),
    /// Loads a word from the given local slot.
    LocLoadW(u16),
    /// Pops a value into the given local slot.
    LocStore(u16),
    /// Stores a word into the given local slot.
    LocStoreW(u16),
    /// Calls the procedure with the given declaration index in the current unit.
    ExecLocal(u16),
    U32CheckedAddImm(u32),
    U32WrappingAddImm(u32),
    U32OverflowingAddImm(u32),
    U32CheckedSubImm(u32),
    U32WrappingSubImm(u32),
    U32OverflowingSubImm(u32),
    U32CheckedMulImm(u32),
    U32WrappingMulImm(u32),
    U32OverflowingMulImm(u32),
    /// Pushes the value at the given memory address.
    MemLoadImm(u32),
    /// Pops a value into the given memory address.
    MemStoreImm(u32),
    AddImm(Felt),
    SubImm(Felt),
    MulImm(Felt),
    DivImm(Felt),
    /// Pushes one to four field elements.
    PushConstants(Vec<Felt>),
    /// Copies a range of memory (address, count) into the advice map.
    AdvMem(u32, u32),
    /// Calls an imported procedure by its identifier.
    ExecImported(ProcedureId),
}

pub const OP_ASSERT: u8 = 0;
pub const OP_ASSERTZ: u8 = 1;
pub const OP_ASSERT_EQ: u8 = 2;
pub const OP_ADD: u8 = 3;
pub const OP_SUB: u8 = 4;
pub const OP_MUL: u8 = 5;
pub const OP_DIV: u8 = 6;
pub const OP_NEG: u8 = 7;
pub const OP_INV: u8 = 8;
pub const OP_NOT: u8 = 9;
pub const OP_AND: u8 = 10;
pub const OP_OR: u8 = 11;
pub const OP_XOR: u8 = 12;
pub const OP_EQ: u8 = 13;
pub const OP_NEQ: u8 = 14;
pub const OP_LT: u8 = 15;
pub const OP_LTE: u8 = 16;
pub const OP_GT: u8 = 17;
pub const OP_GTE: u8 = 18;
pub const OP_U32_CHECKED_ADD: u8 = 19;
pub const OP_U32_WRAPPING_ADD: u8 = 20;
pub const OP_U32_OVERFLOWING_ADD: u8 = 21;
pub const OP_U32_CHECKED_SUB: u8 = 22;
pub const OP_U32_WRAPPING_SUB: u8 = 23;
pub const OP_U32_OVERFLOWING_SUB: u8 = 24;
pub const OP_U32_CHECKED_MUL: u8 = 25;
pub const OP_U32_WRAPPING_MUL: u8 = 26;
pub const OP_U32_OVERFLOWING_MUL: u8 = 27;
pub const OP_DROP: u8 = 28;
pub const OP_DROP_W: u8 = 29;
pub const OP_PAD_W: u8 = 30;
pub const OP_SWAP_W: u8 = 31;
pub const OP_MEM_LOAD: u8 = 32;
pub const OP_MEM_STORE: u8 = 33;
pub const OP_ADV_LOAD_W: u8 = 34;
pub const OP_ADV_U64_DIV: u8 = 35;
pub const OP_ADV_KEYVAL: u8 = 36;
pub const OP_DUP: u8 = 37;
pub const OP_SWAP: u8 = 38;
pub const OP_MOV_UP: u8 = 39;
pub const OP_MOV_DN: u8 = 40;
pub const OP_ADV_PUSH: u8 = 41;
pub const OP_LOC_LOAD: u8 = 42;
pub const OP_LOC_LOAD_W: u8 = 43;
pub const OP_LOC_STORE: u8 = 44;
pub const OP_LOC_STORE_W: u8 = 45;
pub const OP_EXEC_LOCAL: u8 = 46;
pub const OP_U32_CHECKED_ADD_IMM: u8 = 47;
pub const OP_U32_WRAPPING_ADD_IMM: u8 = 48;
pub const OP_U32_OVERFLOWING_ADD_IMM: u8 = 49;
pub const OP_U32_CHECKED_SUB_IMM: u8 = 50;
pub const OP_U32_WRAPPING_SUB_IMM: u8 = 51;
pub const OP_U32_OVERFLOWING_SUB_IMM: u8 = 52;
pub const OP_U32_CHECKED_MUL_IMM: u8 = 53;
pub const OP_U32_WRAPPING_MUL_IMM: u8 = 54;
pub const OP_U32_OVERFLOWING_MUL_IMM: u8 = 55;
pub const OP_MEM_LOAD_IMM: u8 = 56;
pub const OP_MEM_STORE_IMM: u8 = 57;
pub const OP_ADD_IMM: u8 = 58;
pub const OP_SUB_IMM: u8 = 59;
pub const OP_MUL_IMM: u8 = 60;
pub const OP_DIV_IMM: u8 = 61;
pub const OP_PUSH_CONSTANTS: u8 = 62;
pub const OP_ADV_MEM: u8 = 63;
pub const OP_EXEC_IMPORTED: u8 = 64;

/// The first opcode whose operand is a byte.
pub const FIRST_BYTE_OP: u8 = 37;
/// The first opcode whose operand is a 16-bit integer.
pub const FIRST_HALF_OP: u8 = 42;
/// The first opcode whose operand is a 32-bit integer.
pub const FIRST_WORD_OP: u8 = 47;
/// The first opcode whose operand is one field element.
pub const FIRST_ELEMENT_OP: u8 = 58;

impl View for Instruction {
    type V = InstructionView;

    open spec fn view(&self) -> InstructionView {
        match self {
            Instruction::Assert => instruction_view(OP_ASSERT, Operand::Empty),
            Instruction::Assertz => instruction_view(OP_ASSERTZ, Operand::Empty),
            Instruction::AssertEq => instruction_view(OP_ASSERT_EQ, Operand::Empty),
            Instruction::Add => instruction_view(OP_ADD, Operand::Empty),
            Instruction::Sub => instruction_view(OP_SUB, Operand::Empty),
            Instruction::Mul => instruction_view(OP_MUL, Operand::Empty),
            Instruction::Div => instruction_view(OP_DIV, Operand::Empty),
            Instruction::Neg => instruction_view(OP_NEG, Operand::Empty),
            Instruction::Inv => instruction_view(OP_INV, Operand::Empty),
            Instruction::Not => instruction_view(OP_NOT, Operand::Empty),
            Instruction::And => instruction_view(OP_AND, Operand::Empty),
            Instruction::Or => instruction_view(OP_OR, Operand::Empty),
            Instruction::Xor => instruction_view(OP_XOR, Operand::Empty),
            Instruction::Eq => instruction_view(OP_EQ, Operand::Empty),
            Instruction::Neq => instruction_view(OP_NEQ, Operand::Empty),
            Instruction::Lt => instruction_view(OP_LT, Operand::Empty),
            Instruction::Lte => instruction_view(OP_LTE, Operand::Empty),
            Instruction::Gt => instruction_view(OP_GT, Operand::Empty),
            Instruction::Gte => instruction_view(OP_GTE, Operand::Empty),
            Instruction::U32CheckedAdd => instruction_view(OP_U32_CHECKED_ADD, Operand::Empty),
            Instruction::U32WrappingAdd => instruction_view(OP_U32_WRAPPING_ADD, Operand::Empty),
            Instruction::U32OverflowingAdd => instruction_view(OP_U32_OVERFLOWING_ADD, Operand::Empty),
            Instruction::U32CheckedSub => instruction_view(OP_U32_CHECKED_SUB, Operand::Empty),
            Instruction::U32WrappingSub => instruction_view(OP_U32_WRAPPING_SUB, Operand::Empty),
            Instruction::U32OverflowingSub => instruction_view(OP_U32_OVERFLOWING_SUB, Operand::Empty),
            Instruction::U32CheckedMul => instruction_view(OP_U32_CHECKED_MUL, Operand::Empty),
            Instruction::U32WrappingMul => instruction_view(OP_U32_WRAPPING_MUL, Operand::Empty),
            Instruction::U32OverflowingMul => instruction_view(OP_U32_OVERFLOWING_MUL, Operand::Empty),
            Instruction::Drop => instruction_view(OP_DROP, Operand::Empty),
            Instruction::DropW => instruction_view(OP_DROP_W, Operand::Empty),
            Instruction::PadW => instruction_view(OP_PAD_W, Operand::Empty),
            Instruction::SwapW => instruction_view(OP_SWAP_W, Operand::Empty),
            Instruction::MemLoad => instruction_view(OP_MEM_LOAD, Operand::Empty),
            Instruction::MemStore => instruction_view(OP_MEM_STORE, Operand::Empty),
            Instruction::AdvLoadW => instruction_view(OP_ADV_LOAD_W, Operand::Empty),
            Instruction::AdvU64Div => instruction_view(OP_ADV_U64_DIV, Operand::Empty),
            Instruction::AdvKeyval => instruction_view(OP_ADV_KEYVAL, Operand::Empty),
            Instruction::Dup(n) => instruction_view(OP_DUP, Operand::Byte(*n)),
            Instruction::Swap(n) => instruction_view(OP_SWAP, Operand::Byte(*n)),
            Instruction::MovUp(n) => instruction_view(OP_MOV_UP, Operand::Byte(*n)),
            Instruction::MovDn(n) => instruction_view(OP_MOV_DN, Operand::Byte(*n)),
            Instruction::AdvPush(n) => instruction_view(OP_ADV_PUSH, Operand::Byte(*n)),
            Instruction::LocLoad(n) => instruction_view(OP_LOC_LOAD, Operand::Half(*n)),
            Instruction::LocLoadW(n) => instruction_view(OP_LOC_LOAD_W, Operand::Half(*n)),
            Instruction::LocStore(n) => instruction_view(OP_LOC_STORE, Operand::Half(*n)),
            Instruction::LocStoreW(n) => instruction_view(OP_LOC_STORE_W, Operand::Half(*n)),
            Instruction::ExecLocal(n) => instruction_view(OP_EXEC_LOCAL, Operand::Half(*n)),
            Instruction::U32CheckedAddImm(n) => instruction_view(OP_U32_CHECKED_ADD_IMM, Operand::Word(*n)),
            Instruction::U32WrappingAddImm(n) => instruction_view(OP_U32_WRAPPING_ADD_IMM, Operand::Word(*n)),
            Instruction::U32OverflowingAddImm(n) => instruction_view(OP_U32_OVERFLOWING_ADD_IMM, Operand::Word(*n)),
            Instruction::U32CheckedSubImm(n) => instruction_view(OP_U32_CHECKED_SUB_IMM, Operand::Word(*n)),
            Instruction::U32WrappingSubImm(n) => instruction_view(OP_U32_WRAPPING_SUB_IMM, Operand::Word(*n)),
            Instruction::U32OverflowingSubImm(n) => instruction_view(OP_U32_OVERFLOWING_SUB_IMM, Operand::Word(*n)),
            Instruction::U32CheckedMulImm(n) => instruction_view(OP_U32_CHECKED_MUL_IMM, Operand::Word(*n)),
            Instruction::U32WrappingMulImm(n) => instruction_view(OP_U32_WRAPPING_MUL_IMM, Operand::Word(*n)),
            Instruction::U32OverflowingMulImm(n) => instruction_view(OP_U32_OVERFLOWING_MUL_IMM, Operand::Word(*n)),
            Instruction::MemLoadImm(n) => instruction_view(OP_MEM_LOAD_IMM, Operand::Word(*n)),
            Instruction::MemStoreImm(n) => instruction_view(OP_MEM_STORE_IMM, Operand::Word(*n)),
            Instruction::AddImm(f) => instruction_view(OP_ADD_IMM, Operand::Element(*f)),
            Instruction::SubImm(f) => instruction_view(OP_SUB_IMM, Operand::Element(*f)),
            Instruction::MulImm(f) => instruction_view(OP_MUL_IMM, Operand::Element(*f)),
            Instruction::DivImm(f) => instruction_view(OP_DIV_IMM, Operand::Element(*f)),
            Instruction::PushConstants(fs) => instruction_view(OP_PUSH_CONSTANTS, Operand::Elements(fs@)),
            Instruction::AdvMem(a, n) => instruction_view(OP_ADV_MEM, Operand::WordPair(*a, *n)),
            Instruction::ExecImported(id) => instruction_view(OP_EXEC_IMPORTED, Operand::Id(*id)),
        }
    }
}

impl Instruction {
    /// The opcode and operand of this instruction.
    pub fn split(&self) -> (r: (u8, OperandValue))
        ensures
            r.0 == self@.opcode,
            r.1@ == self@.operand,
    {
        match self {
            Instruction::Assert => (OP_ASSERT, OperandValue::Empty),
            Instruction::Assertz => (OP_ASSERTZ, OperandValue::Empty),
            Instruction::AssertEq => (OP_ASSERT_EQ, OperandValue::Empty),
            Instruction::Add => (OP_ADD, OperandValue::Empty),
            Instruction::Sub => (OP_SUB, OperandValue::Empty),
            Instruction::Mul => (OP_MUL, OperandValue::Empty),
            Instruction::Div => (OP_DIV, OperandValue::Empty),
            Instruction::Neg => (OP_NEG, OperandValue::Empty),
            Instruction::Inv => (OP_INV, OperandValue::Empty),
            Instruction::Not => (OP_NOT, OperandValue::Empty),
            Instruction::And => (OP_AND, OperandValue::Empty),
            Instruction::Or => (OP_OR, OperandValue::Empty),
            Instruction::Xor => (OP_XOR, OperandValue::Empty),
            Instruction::Eq => (OP_EQ, OperandValue::Empty),
            Instruction::Neq => (OP_NEQ, OperandValue::Empty),
            Instruction::Lt => (OP_LT, OperandValue::Empty),
            Instruction::Lte => (OP_LTE, OperandValue::Empty),
            Instruction::Gt => (OP_GT, OperandValue::Empty),
            Instruction::Gte => (OP_GTE, OperandValue::Empty),
            Instruction::U32CheckedAdd => (OP_U32_CHECKED_ADD, OperandValue::Empty),
            Instruction::U32WrappingAdd => (OP_U32_WRAPPING_ADD, OperandValue::Empty),
            Instruction::U32OverflowingAdd => (OP_U32_OVERFLOWING_ADD, OperandValue::Empty),
            Instruction::U32CheckedSub => (OP_U32_CHECKED_SUB, OperandValue::Empty),
            Instruction::U32WrappingSub => (OP_U32_WRAPPING_SUB, OperandValue::Empty),
            Instruction::U32OverflowingSub => (OP_U32_OVERFLOWING_SUB, OperandValue::Empty),
            Instruction::U32CheckedMul => (OP_U32_CHECKED_MUL, OperandValue::Empty),
            Instruction::U32WrappingMul => (OP_U32_WRAPPING_MUL, OperandValue::Empty),
            Instruction::U32OverflowingMul => (OP_U32_OVERFLOWING_MUL, OperandValue::Empty),
            Instruction::Drop => (OP_DROP, OperandValue::Empty),
            Instruction::DropW => (OP_DROP_W, OperandValue::Empty),
            Instruction::PadW => (OP_PAD_W, OperandValue::Empty),
            Instruction::SwapW => (OP_SWAP_W, OperandValue::Empty),
            Instruction::MemLoad => (OP_MEM_LOAD, OperandValue::Empty),
            Instruction::MemStore => (OP_MEM_STORE, OperandValue::Empty),
            Instruction::AdvLoadW => (OP_ADV_LOAD_W, OperandValue::Empty),
            Instruction::AdvU64Div => (OP_ADV_U64_DIV, OperandValue::Empty),
            Instruction::AdvKeyval => (OP_ADV_KEYVAL, OperandValue::Empty),
            Instruction::Dup(n) => (OP_DUP, OperandValue::Byte(*n)),
            Instruction::Swap(n) => (OP_SWAP, OperandValue::Byte(*n)),
            Instruction::MovUp(n) => (OP_MOV_UP, OperandValue::Byte(*n)),
            Instruction::MovDn(n) => (OP_MOV_DN, OperandValue::Byte(*n)),
            Instruction::AdvPush(n) => (OP_ADV_PUSH, OperandValue::Byte(*n)),
            Instruction::LocLoad(n) => (OP_LOC_LOAD, OperandValue::Half(*n)),
            Instruction::LocLoadW(n) => (OP_LOC_LOAD_W, OperandValue::Half(*n)),
            Instruction::LocStore(n) => (OP_LOC_STORE, OperandValue::Half(*n)),
            Instruction::LocStoreW(n) => (OP_LOC_STORE_W, OperandValue::Half(*n)),
            Instruction::ExecLocal(n) => (OP_EXEC_LOCAL, OperandValue::Half(*n)),
            Instruction::U32CheckedAddImm(n) => (OP_U32_CHECKED_ADD_IMM, OperandValue::Word(*n)),
            Instruction::U32WrappingAddImm(n) => (OP_U32_WRAPPING_ADD_IMM, OperandValue::Word(*n)),
            Instruction::U32OverflowingAddImm(n) => (OP_U32_OVERFLOWING_ADD_IMM, OperandValue::Word(*n)),
            Instruction::U32CheckedSubImm(n) => (OP_U32_CHECKED_SUB_IMM, OperandValue::Word(*n)),
            Instruction::U32WrappingSubImm(n) => (OP_U32_WRAPPING_SUB_IMM, OperandValue::Word(*n)),
            Instruction::U32OverflowingSubImm(n) => (OP_U32_OVERFLOWING_SUB_IMM, OperandValue::Word(*n)),
            Instruction::U32CheckedMulImm(n) => (OP_U32_CHECKED_MUL_IMM, OperandValue::Word(*n)),
            Instruction::U32WrappingMulImm(n) => (OP_U32_WRAPPING_MUL_IMM, OperandValue::Word(*n)),
            Instruction::U32OverflowingMulImm(n) => (OP_U32_OVERFLOWING_MUL_IMM, OperandValue::Word(*n)),
            Instruction::MemLoadImm(n) => (OP_MEM_LOAD_IMM, OperandValue::Word(*n)),
            Instruction::MemStoreImm(n) => (OP_MEM_STORE_IMM, OperandValue::Word(*n)),
            Instruction::AddImm(f) => (OP_ADD_IMM, OperandValue::Element(*f)),
            Instruction::SubImm(f) => (OP_SUB_IMM, OperandValue::Element(*f)),
            Instruction::MulImm(f) => (OP_MUL_IMM, OperandValue::Element(*f)),
            Instruction::DivImm(f) => (OP_DIV_IMM, OperandValue::Element(*f)),
            Instruction::PushConstants(fs) => (OP_PUSH_CONSTANTS, OperandValue::Elements(copy_elements(fs))),
            Instruction::AdvMem(a, n) => (OP_ADV_MEM, OperandValue::WordPair(*a, *n)),
            Instruction::ExecImported(id) => (OP_EXEC_IMPORTED, OperandValue::Id(*id)),
        }
    }

    /// The instruction with the given opcode and operand.
    pub fn build(opcode: u8, operand: OperandValue) -> (r: Instruction)
        requires
            operand_kind_fits(opcode, operand@),
        ensures
            r@ == instruction_view(opcode, operand@),
    {
        match operand {
            OperandValue::Empty => {
                if opcode == OP_ASSERT {
                    Instruction::Assert
                } else if opcode == OP_ASSERTZ {
                    Instruction::Assertz
                } else if opcode == OP_ASSERT_EQ {
                    Instruction::AssertEq
                } else if opcode == OP_ADD {
                    Instruction::Add
                } else if opcode == OP_SUB {
                    Instruction::Sub
                } else if opcode == OP_MUL {
                    Instruction::Mul
                } else if opcode == OP_DIV {
                    Instruction::Div
                } else if opcode == OP_NEG {
                    Instruction::Neg
                } else if opcode == OP_INV {
                    Instruction::Inv
                } else if opcode == OP_NOT {
                    Instruction::Not
                } else if opcode == OP_AND {
                    Instruction::And
                } else if opcode == OP_OR {
                    Instruction::Or
                } else if opcode == OP_XOR {
                    Instruction::Xor
                } else if opcode == OP_EQ {
                    Instruction::Eq
                } else if opcode == OP_NEQ {
                    Instruction::Neq
                } else if opcode == OP_LT {
                    Instruction::Lt
                } else if opcode == OP_LTE {
                    Instruction::Lte
                } else if opcode == OP_GT {
                    Instruction::Gt
                } else if opcode == OP_GTE {
                    Instruction::Gte
                } else if opcode == OP_U32_CHECKED_ADD {
                    Instruction::U32CheckedAdd
                } else if opcode == OP_U32_WRAPPING_ADD {
                    Instruction::U32WrappingAdd
                } else if opcode == OP_U32_OVERFLOWING_ADD {
                    Instruction::U32OverflowingAdd
                } else if opcode == OP_U32_CHECKED_SUB {
                    Instruction::U32CheckedSub
                } else if opcode == OP_U32_WRAPPING_SUB {
                    Instruction::U32WrappingSub
                } else if opcode == OP_U32_OVERFLOWING_SUB {
                    Instruction::U32OverflowingSub
                } else if opcode == OP_U32_CHECKED_MUL {
                    Instruction::U32CheckedMul
                } else if opcode == OP_U32_WRAPPING_MUL {
                    Instruction::U32WrappingMul
                } else if opcode == OP_U32_OVERFLOWING_MUL {
                    Instruction::U32OverflowingMul
                } else if opcode == OP_DROP {
                    Instruction::Drop
                } else if opcode == OP_DROP_W {
                    Instruction::DropW
                } else if opcode == OP_PAD_W {
                    Instruction::PadW
                } else if opcode == OP_SWAP_W {
                    Instruction::SwapW
                } else if opcode == OP_MEM_LOAD {
                    Instruction::MemLoad
                } else if opcode == OP_MEM_STORE {
                    Instruction::MemStore
                } else if opcode == OP_ADV_LOAD_W {
                    Instruction::AdvLoadW
                } else if opcode == OP_ADV_U64_DIV {
                    Instruction::AdvU64Div
                } else {
                    Instruction::AdvKeyval
                }
            },
            OperandValue::Byte(n) => {
                if opcode == OP_DUP {
                    Instruction::Dup(n)
                } else if opcode == OP_SWAP {
                    Instruction::Swap(n)
                } else if opcode == OP_MOV_UP {
                    Instruction::MovUp(n)
                } else if opcode == OP_MOV_DN {
                    Instruction::MovDn(n)
                } else {
                    Instruction::AdvPush(n)
                }
            },
            OperandValue::Half(n) => {
                if opcode == OP_LOC_LOAD {
                    Instruction::LocLoad(n)
                } else if opcode == OP_LOC_LOAD_W {
                    Instruction::LocLoadW(n)
                } else if opcode == OP_LOC_STORE {
                    Instruction::LocStore(n)
                } else if opcode == OP_LOC_STORE_W {
                    Instruction::LocStoreW(n)
                } else {
                    Instruction::ExecLocal(n)
                }
            },
            OperandValue::Word(n) => {
                if opcode == OP_U32_CHECKED_ADD_IMM {
                    Instruction::U32CheckedAddImm(n)
                } else if opcode == OP_U32_WRAPPING_ADD_IMM {
                    Instruction::U32WrappingAddImm(n)
                } else if opcode == OP_U32_OVERFLOWING_ADD_IMM {
                    Instruction::U32OverflowingAddImm(n)
                } else if opcode == OP_U32_CHECKED_SUB_IMM {
                    Instruction::U32CheckedSubImm(n)
                } else if opcode == OP_U32_WRAPPING_SUB_IMM {
                    Instruction::U32WrappingSubImm(n)
                } else if opcode == OP_U32_OVERFLOWING_SUB_IMM {
                    Instruction::U32OverflowingSubImm(n)
                } else if opcode == OP_U32_CHECKED_MUL_IMM {
                    Instruction::U32CheckedMulImm(n)
                } else if opcode == OP_U32_WRAPPING_MUL_IMM {
                    Instruction::U32WrappingMulImm(n)
                } else if opcode == OP_U32_OVERFLOWING_MUL_IMM {
                    Instruction::U32OverflowingMulImm(n)
                } else if opcode == OP_MEM_LOAD_IMM {
                    Instruction::MemLoadImm(n)
                } else {
                    Instruction::MemStoreImm(n)
                }
            },
            OperandValue::Element(f) => {
                if opcode == OP_ADD_IMM {
                    Instruction::AddImm(f)
                } else if opcode == OP_SUB_IMM {
                    Instruction::SubImm(f)
                } else if opcode == OP_MUL_IMM {
                    Instruction::MulImm(f)
                } else {
                    Instruction::DivImm(f)
                }
            },
            OperandValue::Elements(fs) => {
                Instruction::PushConstants(fs)
            },
            OperandValue::WordPair(a, n) => {
                Instruction::AdvMem(a, n)
            },
            OperandValue::Id(id) => {
                Instruction::ExecImported(id)
            },
        }
    }
}

/// A node of a body: a leaf instruction or a control-flow block.
#[derive(Debug, PartialEq, Eq)]
pub enum Node {
    Instruction(Instruction),
    /// A conditional: the branch taken on true, and the one taken on false
    /// (empty when the source has no `else`).
    IfElse(Vec<Node>, Vec<Node>),
    /// A block run the given number of times.
    Repeat(u32, Vec<Node>),
    /// A loop that runs while the top of the stack is true.
    While(Vec<Node>),
}

/// The view of a node: the same tree, with sequences for children.
pub enum NodeView {
    Op(InstructionView),
    IfElse(Seq<NodeView>, Seq<NodeView>),
    Repeat(u32, Seq<NodeView>),
    While(Seq<NodeView>),
}

pub open spec fn node_view(n: Node) -> NodeView
    decreases n,
{
    match n {
        Node::Instruction(i) => NodeView::Op(i@),
        Node::IfElse(t, f) => NodeView::IfElse(nodes_view(t@), nodes_view(f@)),
        Node::Repeat(k, b) => NodeView::Repeat(k, nodes_view(b@)),
        Node::While(b) => NodeView::While(nodes_view(b@)),
    }
}

pub open spec fn nodes_view(s: Seq<Node>) -> Seq<NodeView>
    decreases s,
{
    if s.len() == 0 {
        Seq::empty()
    } else {
        nodes_view(s.drop_last()).push(node_view(s.last()))
    }
}

impl View for Node {
    type V = NodeView;

    open spec fn view(&self) -> NodeView {
        node_view(*self)
    }
}

/// A copy of an instruction.
pub fn copy_instruction(i: &Instruction) -> (r: Instruction)
    ensures
        r@ == i@,
{
    let (opcode, operand) = i.split();
    Instruction::build(opcode, operand)
}

/// A deep copy of a node.
pub fn copy_node(n: &Node) -> (r: Node)
    ensures
        r@ == n@,
    decreases n,
{
    match n {
        Node::Instruction(i) => Node::Instruction(copy_instruction(i)),
        Node::IfElse(t, f) => Node::IfElse(copy_nodes(t), copy_nodes(f)),
        Node::Repeat(k, b) => Node::Repeat(*k, copy_nodes(b)),
        Node::While(b) => Node::While(copy_nodes(b)),
    }
}

/// A deep copy of a sequence of nodes.
pub fn copy_nodes(ns: &Vec<Node>) -> (r: Vec<Node>)
    ensures
        nodes_view(r@) == nodes_view(ns@),
    decreases ns,
{
    let mut r: Vec<Node> = Vec::new();
    let mut i: usize = 0;
    while i < ns.len()
        invariant
            i <= ns@.len(),
            r@.len() == i,
            nodes_view(r@) == nodes_view(ns@.take(i as int)),
        decreases ns@.len() - i,
    {
        proof {
            assert(decreases_to!(ns => ns@[i as int]));
        }
        let c = copy_node(&ns[i]);
        let ghost prev = r@;
        r.push(c);
        proof {
            let t = ns@.take(i + 1);
            assert(t.drop_last() == ns@.take(i as int));
            assert(r@.drop_last() == prev);
        }
        i = i + 1;
    }
    assert(ns@.take(i as int) == ns@);
    r
}

impl Clone for Node {
    fn clone(&self) -> (r: Node)
        ensures
            r@ == self@,
    {
        copy_node(self)
    }
}

/// A declared procedure.
#[derive(Debug, PartialEq, Eq)]
pub struct ProcedureAst {
    pub name: String,
    /// For an exported procedure, the documentation lines that stood right above
    /// its declaration.
    pub docs: Option<String>,
    pub is_export: bool,
    /// The number of local memory slots the procedure reserves.
    pub num_locals: u16,
    pub body: Vec<Node>,
}

pub struct ProcedureView {
    pub name: Seq<char>,
    pub docs: Option<Seq<char>>,
    pub is_export: bool,
    pub num_locals: u16,
    pub body: Seq<NodeView>,
}

pub open spec fn docs_view(d: Option<String>) -> Option<Seq<char>> {
    match d {
        Some(s) => Some(s@),
        None => None,
    }
}

impl View for ProcedureAst {
    type V = ProcedureView;

    open spec fn view(&self) -> ProcedureView {
        ProcedureView {
            name: self.name@,
            docs: docs_view(self.docs),
            is_export: self.is_export,
            num_locals: self.num_locals,
            body: nodes_view(self.body@),
        }
    }
}

pub open spec fn procs_view(s: Seq<ProcedureAst>) -> Seq<ProcedureView> {
    s.map_values(|p: ProcedureAst| p@)
}

/// No two procedures share a name.
pub open spec fn names_unique(procs: Seq<ProcedureView>) -> bool {
    forall|i: int, j: int|
        0 <= i < procs.len() && 0 <= j < procs.len() && i != j ==> (#[trigger] procs[i]).name
            != (#[trigger] procs[j]).name
}

/// An executable unit: a body and the procedures it may call, none of them exported.
#[derive(Debug, PartialEq, Eq)]
pub struct ProgramAst {
    pub body: Vec<Node>,
    /// The procedures, in declaration order: the position of each is its index.
    pub local_procs: Vec<ProcedureAst>,
}

pub struct ProgramView {
    pub body: Seq<NodeView>,
    pub procs: Seq<ProcedureView>,
}

impl View for ProgramAst {
    type V = ProgramView;

    open spec fn view(&self) -> ProgramView {
        ProgramView { body: nodes_view(self.body@), procs: procs_view(self.local_procs@) }
    }
}

/// A library unit: procedures, exported or internal, and no body.
#[derive(Debug, PartialEq, Eq)]
pub struct ModuleAst {
    /// The procedures, in declaration order: the position of each is its index.
    pub local_procs: Vec<ProcedureAst>,
}

pub struct ModuleView {
    pub procs: Seq<ProcedureView>,
}

impl View for ModuleAst {
    type V = ModuleView;

    open spec fn view(&self) -> ModuleView {
        ModuleView { procs: procs_view(self.local_procs@) }
    }
}

/// The program rules: a non-empty body, unique names, and no exported procedure.
pub open spec fn program_rules(p: ProgramView) -> bool {
    &&& p.body.len() > 0
    &&& names_unique(p.procs)
    &&& forall|i: int| 0 <= i < p.procs.len() ==> !(#[trigger] p.procs[i]).is_export
}

/// The module rule: unique names.
pub open spec fn module_rules(m: ModuleView) -> bool {
    names_unique(m.procs)
}

/// The view of a sequence of nodes holds the view of each node, in order.
pub proof fn lemma_nodes_view_index(s: Seq<Node>)
    ensures
        nodes_view(s).len() == s.len(),
        forall|i: int| 0 <= i < s.len() ==> nodes_view(s)[i] == (#[trigger] s[i])@,
    decreases s.len(),
{
    if s.len() > 0 {
        lemma_nodes_view_index(s.drop_last());
        assert forall|i: int| 0 <= i < s.len() implies nodes_view(s)[i] == (#[trigger] s[i])@ by {
            if i < s.len() - 1 {
                assert(s.drop_last()[i] == s[i]);
            }
        }
    }
}

fn elements_eq(a: &Vec<Felt>, b: &Vec<Felt>) -> (r: bool)
    ensures
        r == (a@ == b@),
{
    if a.len() != b.len() {
        return false;
    }
    let mut i: usize = 0;
    while i < a.len()
        invariant
            i <= a@.len(),
            a@.len() == b@.len(),
            forall|k: int| 0 <= k < i ==> a@[k] == b@[k],
        decreases a@.len() - i,
    {
        if a[i] != b[i] {
            return false;
        }
        i = i + 1;
    }
    assert(a@ =~= b@);
    true
}

fn operand_eq(a: &OperandValue, b: &OperandValue) -> (r: bool)
    ensures
        r == (a@ == b@),
{
    match (a, b) {
        (OperandValue::Empty, OperandValue::Empty) => true,
        (OperandValue::Byte(x), OperandValue::Byte(y)) => *x == *y,
        (OperandValue::Half(x), OperandValue::Half(y)) => *x == *y,
        (OperandValue::Word(x), OperandValue::Word(y)) => *x == *y,
        (OperandValue::Element(x), OperandValue::Element(y)) => *x == *y,
        (OperandValue::Elements(x), OperandValue::Elements(y)) => elements_eq(x, y),
        (OperandValue::WordPair(x, m), OperandValue::WordPair(y, n)) => *x == *y && *m == *n,
        (OperandValue::Id(x), OperandValue::Id(y)) => *x == *y,
        _ => false,
    }
}

/// Whether two instructions are the same.
pub fn instruction_eq(a: &Instruction, b: &Instruction) -> (r: bool)
    ensures
        r == (a@ == b@),
{
    let (oa, va) = a.split();
    let (ob, vb) = b.split();
    oa == ob && operand_eq(&va, &vb)
}

/// Whether two nodes are the same tree.
pub fn node_eq(a: &Node, b: &Node) -> (r: bool)
    ensures
        r == (a@ == b@),
    decreases a,
{
    match (a, b) {
        (Node::Instruction(x), Node::Instruction(y)) => instruction_eq(x, y),
        (Node::IfElse(t1, f1), Node::IfElse(t2, f2)) => nodes_eq(t1, t2) && nodes_eq(f1, f2),
        (Node::Repeat(k1, b1), Node::Repeat(k2, b2)) => *k1 == *k2 && nodes_eq(b1, b2),
        (Node::While(b1), Node::While(b2)) => nodes_eq(b1, b2),
        _ => false,
    }
}

/// Whether two sequences of nodes are the same.
pub fn nodes_eq(a: &Vec<Node>, b: &Vec<Node>) -> (r: bool)
    ensures
        r == (nodes_view(a@) == nodes_view(b@)),
    decreases a,
{
    proof {
        lemma_nodes_view_index(a@);
        lemma_nodes_view_index(b@);
    }
    if a.len() != b.len() {
        return false;
    }
    let mut i: usize = 0;
    while i < a.len()
        invariant
            i <= a@.len(),
            a@.len() == b@.len(),
            forall|k: int| 0 <= k < i ==> (#[trigger] a@[k])@ == b@[k]@,
        decreases a@.len() - i,
    {
        proof {
            assert(decreases_to!(a => a@[i as int]));
        }
        if !node_eq(&a[i], &b[i]) {
            proof {
                lemma_nodes_view_index(a@);
                lemma_nodes_view_index(b@);
            }
            assert(nodes_view(a@)[i as int] != nodes_view(b@)[i as int]);
            return false;
        }
        i = i + 1;
    }
    proof {
        lemma_nodes_view_index(a@);
        lemma_nodes_view_index(b@);
        assert forall|k: int| 0 <= k < a@.len() implies nodes_view(a@)[k] == nodes_view(b@)[k] by {
            assert(a@[k]@ == b@[k]@);
        }
    }
    assert(nodes_view(a@) =~= nodes_view(b@));
    true
}

fn docs_eq(a: &Option<String>, b: &Option<String>) -> (r: bool)
    ensures
        r == (docs_view(*a) == docs_view(*b)),
{
    match (a, b) {
        (Some(x), Some(y)) => *x == *y,
        (None, None) => true,
        _ => false,
    }
}

/// Whether two procedures are the same.
pub fn procedure_eq(a: &ProcedureAst, b: &ProcedureAst) -> (r: bool)
    ensures
        r == (a@ == b@),
{
    a.name == b.name && docs_eq(&a.docs, &b.docs) && a.is_export == b.is_export && a.num_locals
        == b.num_locals && nodes_eq(&a.body, &b.body)
}

} // verus!

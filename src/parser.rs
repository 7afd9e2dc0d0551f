//! Parsing of instructions and of bodies: a token becomes a leaf instruction by
//! its mnemonic and operands; `if`, `while` and `repeat` open nested blocks that
//! `end` closes.
use vstd::prelude::*;
use crate::ast::{
    Node,
    NodeView,
    nodes_view,
    Instruction,
    InstructionView,
    Operand,
    OperandValue,
    instruction_view,
    MAX_PUSH_VALUES,
    FIRST_BYTE_OP,
    FIRST_HALF_OP,
    FIRST_WORD_OP,
    FIRST_ELEMENT_OP,
    OP_ADD,
    OP_ADD_IMM,
    OP_ADV_KEYVAL,
    OP_ADV_LOAD_W,
    OP_ADV_MEM,
    OP_ADV_PUSH,
    OP_ADV_U64_DIV,
    OP_AND,
    OP_ASSERT,
    OP_ASSERTZ,
    OP_ASSERT_EQ,
    OP_DIV,
    OP_DIV_IMM,
    OP_DROP,
    OP_DROP_W,
    OP_DUP,
    OP_EQ,
    OP_EXEC_IMPORTED,
    OP_EXEC_LOCAL,
    OP_GT,
    OP_GTE,
    OP_INV,
    OP_LOC_LOAD,
    OP_LOC_LOAD_W,
    OP_LOC_STORE,
    OP_LOC_STORE_W,
    OP_LT,
    OP_LTE,
    OP_MEM_LOAD,
    OP_MEM_LOAD_IMM,
    OP_MEM_STORE,
    OP_MEM_STORE_IMM,
    OP_MOV_DN,
    OP_MOV_UP,
    OP_MUL,
    OP_MUL_IMM,
    OP_NEG,
    OP_NEQ,
    OP_NOT,
    OP_OR,
    OP_PAD_W,
    OP_PUSH_CONSTANTS,
    OP_SUB,
    OP_SUB_IMM,
    OP_SWAP,
    OP_SWAP_W,
    OP_U32_CHECKED_ADD,
    OP_U32_CHECKED_ADD_IMM,
    OP_U32_CHECKED_MUL,
    OP_U32_CHECKED_MUL_IMM,
    OP_U32_CHECKED_SUB,
    OP_U32_CHECKED_SUB_IMM,
    OP_U32_OVERFLOWING_ADD,
    OP_U32_OVERFLOWING_ADD_IMM,
    OP_U32_OVERFLOWING_MUL,
    OP_U32_OVERFLOWING_MUL_IMM,
    OP_U32_OVERFLOWING_SUB,
    OP_U32_OVERFLOWING_SUB_IMM,
    OP_U32_WRAPPING_ADD,
    OP_U32_WRAPPING_ADD_IMM,
    OP_U32_WRAPPING_MUL,
    OP_U32_WRAPPING_MUL_IMM,
    OP_U32_WRAPPING_SUB,
    OP_U32_WRAPPING_SUB_IMM,
    OP_XOR,
};
use crate::errors::ParseErrorKind;
use crate::felt::{Felt, MODULUS, felt_from_canonical, lemma_felt_view, lemma_felt_from_canonical};
use crate::procedure_id::{ProcedureId, procedure_id_of};
use crate::text::{find_word, index_of, is_word, lemma_index_of, words_view};
use crate::tokens::{Token, token_parts};
use crate::errors::ParsingError;

verus! {

pub open spec fn instruction_result_view(r: Result<Instruction, ParseErrorKind>) -> Result<
    InstructionView,
    ParseErrorKind,
> {
    match r {
        Ok(i) => Ok(i@),
        Err(e) => Err(e),
    }
}

// ---------------------------------------------------------------- numbers

/// The value of `c` as a digit in `base` (10 or 16), or -1 when it is none.
pub open spec fn digit_value(c: char, base: nat) -> int {
    if '0' <= c && c <= '9' {
        c as int - '0' as int
    } else if base == 16 && 'a' <= c && c <= 'f' {
        c as int - 'a' as int + 10
    } else if base == 16 && 'A' <= c && c <= 'F' {
        c as int - 'A' as int + 10
    } else {
        -1
    }
}

pub open spec fn all_digits(s: Seq<char>, base: nat) -> bool {
    forall|i: int| 0 <= i < s.len() ==> digit_value(#[trigger] s[i], base) >= 0
}

/// The number that the digits `s` write in `base`.
pub open spec fn digits_value(s: Seq<char>, base: nat) -> nat
    decreases s.len(),
{
    if s.len() == 0 {
        0
    } else {
        digits_value(s.drop_last(), base) * base + digit_value(s.last(), base) as nat
    }
}

/// `0x` followed by at least one character.
pub open spec fn is_hex_literal(s: Seq<char>) -> bool {
    s.len() >= 3 && s[0] == '0' && s[1] == 'x'
}

/// The value of a decimal literal or a `0x` hexadecimal literal; `None` when `s`
/// is neither.
pub open spec fn number_value(s: Seq<char>) -> Option<nat> {
    if is_hex_literal(s) {
        if all_digits(s.skip(2), 16) {
            Some(digits_value(s.skip(2), 16))
        } else {
            None
        }
    } else if s.len() >= 1 && all_digits(s, 10) {
        Some(digits_value(s, 10))
    } else {
        None
    }
}

fn digit_of(c: char, base: u64) -> (r: i64)
    requires
        base == 10 || base == 16,
    ensures
        r == digit_value(c, base as nat),
{
    if '0' <= c && c <= '9' {
        (c as u32 - '0' as u32) as i64
    } else if base == 16 && 'a' <= c && c <= 'f' {
        (c as u32 - 'a' as u32 + 10) as i64
    } else if base == 16 && 'A' <= c && c <= 'F' {
        (c as u32 - 'A' as u32 + 10) as i64
    } else {
        -1
    }
}

proof fn lemma_digits_monotone(t: Seq<char>, base: nat, j: int, k: int)
    requires
        base >= 1,
        0 <= j <= k <= t.len(),
        all_digits(t, base),
    ensures
        digits_value(t.take(j), base) <= digits_value(t.take(k), base),
    decreases k - j,
{
    if j < k {
        lemma_digits_monotone(t, base, j, k - 1);
        assert(t.take(k).drop_last() == t.take(k - 1));
        assert(digit_value(t[k - 1], base) >= 0);
        let x = digits_value(t.take(k - 1), base);
        assert(x * base >= x) by (nonlinear_arith)
            requires
                base >= 1,
        ;
    }
}

/// The value of the literal `s`: `MalformedNumber` when it is no literal,
/// `ValueOutOfRange` when its value does not fit in 64 bits.
pub fn parse_number(s: &Vec<char>) -> (r: Result<u64, ParseErrorKind>)
    ensures
        r == match number_value(s@) {
            None => Err(ParseErrorKind::MalformedNumber),
            Some(v) => if v <= u64::MAX {
                Ok(v as u64)
            } else {
                Err(ParseErrorKind::ValueOutOfRange)
            },
        },
{
    let hex = s.len() >= 3 && s[0] == '0' && s[1] == 'x';
    let start: usize = if hex { 2 } else { 0 };
    let base: u64 = if hex { 16 } else { 10 };
    let ghost t = s@.skip(start as int);
    if !hex {
        assert(t == s@);
    }
    if s.len() == 0 {
        return Err(ParseErrorKind::MalformedNumber);
    }
    let mut i: usize = start;
    while i < s.len()
        invariant
            start <= i <= s@.len(),
            s@.len() >= 1,
            base == 10 || base == 16,
            hex == is_hex_literal(s@),
            base == (if hex { 16u64 } else { 10u64 }),
            start == (if hex { 2usize } else { 0usize }),
            !hex ==> t == s@,
            t == s@.skip(start as int),
            forall|k: int| 0 <= k < i - start ==> digit_value(#[trigger] t[k], base as nat) >= 0,
        decreases s@.len() - i,
    {
        if digit_of(s[i], base) < 0 {
            assert(t[i - start] == s@[i as int]);
            assert(!all_digits(t, base as nat));
            return Err(ParseErrorKind::MalformedNumber);
        }
        i = i + 1;
    }
    assert(all_digits(t, base as nat));
    let mut acc: u64 = 0;
    let mut i: usize = start;
    while i < s.len()
        invariant
            start <= i <= s@.len(),
            s@.len() >= 1,
            base == 10 || base == 16,
            hex == is_hex_literal(s@),
            base == (if hex { 16u64 } else { 10u64 }),
            start == (if hex { 2usize } else { 0usize }),
            !hex ==> t == s@,
            t == s@.skip(start as int),
            all_digits(t, base as nat),
            acc == digits_value(t.take(i - start), base as nat),
        decreases s@.len() - i,
    {
        let d = digit_of(s[i], base);
        assert(t[i - start] == s@[i as int]);
        assert(t.take(i - start + 1).drop_last() == t.take(i - start));
        assert(t.take(i - start + 1).last() == t[i - start]);
        assert(d >= 0);
        if acc > (u64::MAX - d as u64) / base {
            proof {
                let v = digits_value(t.take(i - start + 1), base as nat);
                assert(acc * base + d > u64::MAX) by (nonlinear_arith)
                    requires
                        acc > (u64::MAX - d) / base as int,
                        base >= 1,
                        0 <= d,
                ;
                lemma_digits_monotone(t, base as nat, i - start + 1, t.len() as int);
                assert(t.take(t.len() as int) == t);
            }
            return Err(ParseErrorKind::ValueOutOfRange);
        }
        assert(acc * base + d <= u64::MAX) by (nonlinear_arith)
            requires
                acc <= (u64::MAX - d) / base as int,
                base >= 1,
                0 <= d <= u64::MAX,
        ;
        acc = acc * base + d as u64;
        i = i + 1;
    }
    assert(t.take(t.len() as int) == t);
    Ok(acc)
}

// ---------------------------------------------------------------- operands

/// A field element operand: a literal below the modulus.
pub open spec fn element_operand(s: Seq<char>) -> Result<Felt, ParseErrorKind> {
    match number_value(s) {
        None => Err(ParseErrorKind::MalformedNumber),
        Some(v) => if v < MODULUS {
            Ok(felt_from_canonical(v as u64))
        } else {
            Err(ParseErrorKind::ValueOutOfRange)
        },
    }
}

/// An integer operand in `[lo, hi]`.
pub open spec fn bounded_operand(s: Seq<char>, lo: nat, hi: nat) -> Result<nat, ParseErrorKind> {
    match number_value(s) {
        None => Err(ParseErrorKind::MalformedNumber),
        Some(v) => if lo <= v <= hi {
            Ok(v)
        } else {
            Err(ParseErrorKind::ValueOutOfRange)
        },
    }
}

pub fn parse_element(s: &Vec<char>) -> (r: Result<Felt, ParseErrorKind>)
    ensures
        r == element_operand(s@),
        r matches Ok(f) ==> f@ < MODULUS,
{
    match parse_number(s) {
        Err(e) => Err(e),
        Ok(v) => {
            if v < MODULUS {
                let f = Felt::new(v);
                proof {
                    lemma_felt_from_canonical(v);
                    lemma_felt_view(f, felt_from_canonical(v));
                }
                Ok(f)
            } else {
                Err(ParseErrorKind::ValueOutOfRange)
            }
        },
    }
}

pub fn parse_bounded(s: &Vec<char>, lo: u64, hi: u64) -> (r: Result<u64, ParseErrorKind>)
    ensures
        match bounded_operand(s@, lo as nat, hi as nat) {
            Ok(v) => r == Ok::<u64, ParseErrorKind>(v as u64),
            Err(e) => r == Err::<u64, ParseErrorKind>(e),
        },
        r matches Ok(v) ==> lo <= v <= hi,
{
    match parse_number(s) {
        Err(e) => Err(e),
        Ok(v) => {
            if lo <= v && v <= hi {
                Ok(v)
            } else {
                Err(ParseErrorKind::ValueOutOfRange)
            }
        },
    }
}

pub open spec fn no_operand(p: Seq<Seq<char>>, op: u8) -> Result<InstructionView, ParseErrorKind> {
    if p.len() == 1 {
        Ok(instruction_view(op, Operand::Empty))
    } else {
        Err(ParseErrorKind::ExtraParameters)
    }
}

pub open spec fn element_or_none(p: Seq<Seq<char>>, op: u8, op_imm: u8) -> Result<
    InstructionView,
    ParseErrorKind,
> {
    if p.len() == 1 {
        Ok(instruction_view(op, Operand::Empty))
    } else if p.len() == 2 {
        match element_operand(p[1]) {
            Ok(f) => Ok(instruction_view(op_imm, Operand::Element(f))),
            Err(e) => Err(e),
        }
    } else {
        Err(ParseErrorKind::ExtraParameters)
    }
}

pub open spec fn word_or_none(p: Seq<Seq<char>>, op: u8, op_imm: u8) -> Result<
    InstructionView,
    ParseErrorKind,
> {
    if p.len() == 1 {
        Ok(instruction_view(op, Operand::Empty))
    } else if p.len() == 2 {
        match bounded_operand(p[1], 0, u32::MAX as nat) {
            Ok(v) => Ok(instruction_view(op_imm, Operand::Word(v as u32))),
            Err(e) => Err(e),
        }
    } else {
        Err(ParseErrorKind::ExtraParameters)
    }
}

pub open spec fn half_operand(p: Seq<Seq<char>>, op: u8) -> Result<InstructionView, ParseErrorKind> {
    if p.len() == 1 {
        Err(ParseErrorKind::MissingParameter)
    } else if p.len() == 2 {
        match bounded_operand(p[1], 0, u16::MAX as nat) {
            Ok(v) => Ok(instruction_view(op, Operand::Half(v as u16))),
            Err(e) => Err(e),
        }
    } else {
        Err(ParseErrorKind::ExtraParameters)
    }
}

/// A byte operand in `[lo, hi]`; `default` stands for it when it is left out.
pub open spec fn byte_operand(p: Seq<Seq<char>>, op: u8, default: Option<u8>, lo: u8, hi: u8) -> Result<
    InstructionView,
    ParseErrorKind,
> {
    if p.len() == 1 {
        match default {
            Some(d) => Ok(instruction_view(op, Operand::Byte(d))),
            None => Err(ParseErrorKind::MissingParameter),
        }
    } else if p.len() == 2 {
        match bounded_operand(p[1], lo as nat, hi as nat) {
            Ok(v) => Ok(instruction_view(op, Operand::Byte(v as u8))),
            Err(e) => Err(e),
        }
    } else {
        Err(ParseErrorKind::ExtraParameters)
    }
}

/// The field elements that the literals `s` write, or the first failure among them.
pub open spec fn elements_of(s: Seq<Seq<char>>) -> Result<Seq<Felt>, ParseErrorKind>
    decreases s.len(),
{
    if s.len() == 0 {
        Ok(Seq::empty())
    } else {
        match elements_of(s.drop_last()) {
            Err(e) => Err(e),
            Ok(fs) => match element_operand(s.last()) {
                Ok(f) => Ok(fs.push(f)),
                Err(e) => Err(e),
            },
        }
    }
}

/// `push` with one to four field elements.
pub open spec fn push_operands(p: Seq<Seq<char>>) -> Result<InstructionView, ParseErrorKind> {
    if p.len() == 1 {
        Err(ParseErrorKind::MissingParameter)
    } else if p.len() > MAX_PUSH_VALUES + 1 {
        Err(ParseErrorKind::ExtraParameters)
    } else {
        match elements_of(p.skip(1)) {
            Ok(fs) => Ok(instruction_view(OP_PUSH_CONSTANTS, Operand::Elements(fs))),
            Err(e) => Err(e),
        }
    }
}

/// `adv.u64div`, `adv.keyval` and `adv.mem.<address>.<count>`.
pub open spec fn advice_operands(p: Seq<Seq<char>>) -> Result<InstructionView, ParseErrorKind> {
    if p.len() == 1 {
        Err(ParseErrorKind::MissingParameter)
    } else if p[1] == "u64div"@ {
        no_operand(p.skip(1), OP_ADV_U64_DIV)
    } else if p[1] == "keyval"@ {
        no_operand(p.skip(1), OP_ADV_KEYVAL)
    } else if p[1] == "mem"@ {
        if p.len() < 4 {
            Err(ParseErrorKind::MissingParameter)
        } else if p.len() > 4 {
            Err(ParseErrorKind::ExtraParameters)
        } else {
            match bounded_operand(p[2], 0, u32::MAX as nat) {
                Err(e) => Err(e),
                Ok(a) => match bounded_operand(p[3], 0, u32::MAX as nat) {
                    Err(e) => Err(e),
                    Ok(n) => Ok(instruction_view(OP_ADV_MEM, Operand::WordPair(a as u32, n as u32))),
                },
            }
        }
    } else {
        Err(ParseErrorKind::UnknownInstruction)
    }
}

/// The instruction that the parts of a token name, or why they name none.
pub open spec fn instruction_of(p: Seq<Seq<char>>) -> Result<InstructionView, ParseErrorKind>
    recommends
        p.len() >= 1,
{
    let m = p[0];
    if m == "assert"@ {
        no_operand(p, OP_ASSERT)
    } else if m == "assertz"@ {
        no_operand(p, OP_ASSERTZ)
    } else if m == "assert_eq"@ {
        no_operand(p, OP_ASSERT_EQ)
    } else if m == "neg"@ {
        no_operand(p, OP_NEG)
    } else if m == "inv"@ {
        no_operand(p, OP_INV)
    } else if m == "not"@ {
        no_operand(p, OP_NOT)
    } else if m == "and"@ {
        no_operand(p, OP_AND)
    } else if m == "or"@ {
        no_operand(p, OP_OR)
    } else if m == "xor"@ {
        no_operand(p, OP_XOR)
    } else if m == "lt"@ {
        no_operand(p, OP_LT)
    } else if m == "lte"@ {
        no_operand(p, OP_LTE)
    } else if m == "gt"@ {
        no_operand(p, OP_GT)
    } else if m == "gte"@ {
        no_operand(p, OP_GTE)
    } else if m == "eq"@ {
        no_operand(p, OP_EQ)
    } else if m == "neq"@ {
        no_operand(p, OP_NEQ)
    } else if m == "drop"@ {
        no_operand(p, OP_DROP)
    } else if m == "dropw"@ {
        no_operand(p, OP_DROP_W)
    } else if m == "padw"@ {
        no_operand(p, OP_PAD_W)
    } else if m == "swapw"@ {
        no_operand(p, OP_SWAP_W)
    } else if m == "adv_loadw"@ {
        no_operand(p, OP_ADV_LOAD_W)
    } else if m == "add"@ {
        element_or_none(p, OP_ADD, OP_ADD_IMM)
    } else if m == "sub"@ {
        element_or_none(p, OP_SUB, OP_SUB_IMM)
    } else if m == "mul"@ {
        element_or_none(p, OP_MUL, OP_MUL_IMM)
    } else if m == "div"@ {
        element_or_none(p, OP_DIV, OP_DIV_IMM)
    } else if m == "u32checked_add"@ {
        word_or_none(p, OP_U32_CHECKED_ADD, OP_U32_CHECKED_ADD_IMM)
    } else if m == "u32wrapping_add"@ {
        word_or_none(p, OP_U32_WRAPPING_ADD, OP_U32_WRAPPING_ADD_IMM)
    } else if m == "u32overflowing_add"@ {
        word_or_none(p, OP_U32_OVERFLOWING_ADD, OP_U32_OVERFLOWING_ADD_IMM)
    } else if m == "u32checked_sub"@ {
        word_or_none(p, OP_U32_CHECKED_SUB, OP_U32_CHECKED_SUB_IMM)
    } else if m == "u32wrapping_sub"@ {
        word_or_none(p, OP_U32_WRAPPING_SUB, OP_U32_WRAPPING_SUB_IMM)
    } else if m == "u32overflowing_sub"@ {
        word_or_none(p, OP_U32_OVERFLOWING_SUB, OP_U32_OVERFLOWING_SUB_IMM)
    } else if m == "u32checked_mul"@ {
        word_or_none(p, OP_U32_CHECKED_MUL, OP_U32_CHECKED_MUL_IMM)
    } else if m == "u32wrapping_mul"@ {
        word_or_none(p, OP_U32_WRAPPING_MUL, OP_U32_WRAPPING_MUL_IMM)
    } else if m == "u32overflowing_mul"@ {
        word_or_none(p, OP_U32_OVERFLOWING_MUL, OP_U32_OVERFLOWING_MUL_IMM)
    } else if m == "mem_load"@ {
        word_or_none(p, OP_MEM_LOAD, OP_MEM_LOAD_IMM)
    } else if m == "mem_store"@ {
        word_or_none(p, OP_MEM_STORE, OP_MEM_STORE_IMM)
    } else if m == "loc_load"@ {
        half_operand(p, OP_LOC_LOAD)
    } else if m == "loc_loadw"@ {
        half_operand(p, OP_LOC_LOAD_W)
    } else if m == "loc_store"@ {
        half_operand(p, OP_LOC_STORE)
    } else if m == "loc_storew"@ {
        half_operand(p, OP_LOC_STORE_W)
    } else if m == "dup"@ {
        byte_operand(p, OP_DUP, Some(0u8), 0u8, 15u8)
    } else if m == "swap"@ {
        byte_operand(p, OP_SWAP, Some(1u8), 1u8, 15u8)
    } else if m == "movup"@ {
        byte_operand(p, OP_MOV_UP, None, 2u8, 15u8)
    } else if m == "movdn"@ {
        byte_operand(p, OP_MOV_DN, None, 2u8, 15u8)
    } else if m == "adv_push"@ {
        byte_operand(p, OP_ADV_PUSH, None, 1u8, 16u8)
    } else if m == "push"@ {
        push_operands(p)
    } else if m == "adv"@ {
        advice_operands(p)
    } else {
        Err(ParseErrorKind::UnknownInstruction)
    }
}

fn exec_no_operand(p: &Vec<Vec<char>>, op: u8) -> (r: Result<Instruction, ParseErrorKind>)
    requires
        p@.len() >= 1,
        op < FIRST_BYTE_OP,
    ensures
        instruction_result_view(r) == no_operand(words_view(p@), op),
{
    if p.len() == 1 {
        Ok(Instruction::build(op, OperandValue::Empty))
    } else {
        Err(ParseErrorKind::ExtraParameters)
    }
}

fn exec_element_or_none(p: &Vec<Vec<char>>, op: u8, op_imm: u8) -> (r: Result<Instruction, ParseErrorKind>)
    requires
        p@.len() >= 1,
        op < FIRST_BYTE_OP,
        FIRST_ELEMENT_OP <= op_imm < OP_PUSH_CONSTANTS,
    ensures
        instruction_result_view(r) == element_or_none(words_view(p@), op, op_imm),
{
    if p.len() == 1 {
        Ok(Instruction::build(op, OperandValue::Empty))
    } else if p.len() == 2 {
        match parse_element(&p[1]) {
            Ok(f) => Ok(Instruction::build(op_imm, OperandValue::Element(f))),
            Err(e) => Err(e),
        }
    } else {
        Err(ParseErrorKind::ExtraParameters)
    }
}

fn exec_word_or_none(p: &Vec<Vec<char>>, op: u8, op_imm: u8) -> (r: Result<Instruction, ParseErrorKind>)
    requires
        p@.len() >= 1,
        op < FIRST_BYTE_OP,
        FIRST_WORD_OP <= op_imm < FIRST_ELEMENT_OP,
    ensures
        instruction_result_view(r) == word_or_none(words_view(p@), op, op_imm),
{
    if p.len() == 1 {
        Ok(Instruction::build(op, OperandValue::Empty))
    } else if p.len() == 2 {
        match parse_bounded(&p[1], 0, u32::MAX as u64) {
            Ok(v) => Ok(Instruction::build(op_imm, OperandValue::Word(v as u32))),
            Err(e) => Err(e),
        }
    } else {
        Err(ParseErrorKind::ExtraParameters)
    }
}

fn exec_half_operand(p: &Vec<Vec<char>>, op: u8) -> (r: Result<Instruction, ParseErrorKind>)
    requires
        p@.len() >= 1,
        FIRST_HALF_OP <= op < FIRST_WORD_OP,
    ensures
        instruction_result_view(r) == half_operand(words_view(p@), op),
{
    if p.len() == 1 {
        Err(ParseErrorKind::MissingParameter)
    } else if p.len() == 2 {
        match parse_bounded(&p[1], 0, u16::MAX as u64) {
            Ok(v) => Ok(Instruction::build(op, OperandValue::Half(v as u16))),
            Err(e) => Err(e),
        }
    } else {
        Err(ParseErrorKind::ExtraParameters)
    }
}

fn exec_byte_operand(p: &Vec<Vec<char>>, op: u8, default: Option<u8>, lo: u8, hi: u8) -> (r: Result<
    Instruction,
    ParseErrorKind,
>)
    requires
        p@.len() >= 1,
        FIRST_BYTE_OP <= op < FIRST_HALF_OP,
    ensures
        instruction_result_view(r) == byte_operand(words_view(p@), op, default, lo, hi),
{
    if p.len() == 1 {
        match default {
            Some(d) => Ok(Instruction::build(op, OperandValue::Byte(d))),
            None => Err(ParseErrorKind::MissingParameter),
        }
    } else if p.len() == 2 {
        match parse_bounded(&p[1], lo as u64, hi as u64) {
            Ok(v) => Ok(Instruction::build(op, OperandValue::Byte(v as u8))),
            Err(e) => Err(e),
        }
    } else {
        Err(ParseErrorKind::ExtraParameters)
    }
}

fn exec_push_operands(p: &Vec<Vec<char>>) -> (r: Result<Instruction, ParseErrorKind>)
    requires
        p@.len() >= 1,
    ensures
        instruction_result_view(r) == push_operands(words_view(p@)),
{
    if p.len() == 1 {
        return Err(ParseErrorKind::MissingParameter);
    }
    if p.len() > MAX_PUSH_VALUES + 1 {
        return Err(ParseErrorKind::ExtraParameters);
    }
    let ghost rest = words_view(p@).skip(1);
    let mut values: Vec<Felt> = Vec::new();
    let mut i: usize = 1;
    while i < p.len()
        invariant
            1 <= i <= p@.len(),
            2 <= p@.len() <= MAX_PUSH_VALUES + 1,
            rest == words_view(p@).skip(1),
            elements_of(rest.take(i - 1)) == Ok::<Seq<Felt>, ParseErrorKind>(values@),
        decreases p@.len() - i,
    {
        assert(rest.take(i as int).drop_last() == rest.take(i - 1));
        assert(rest.take(i as int).last() == p@[i as int]@);
        match parse_element(&p[i]) {
            Ok(f) => {
                values.push(f);
            },
            Err(e) => {
                proof {
                    assert(elements_of(rest.take(i as int)) == Err::<Seq<Felt>, ParseErrorKind>(e));
                    lemma_elements_prefix_error(rest, i as int);
                }
                return Err(e);
            },
        }
        i = i + 1;
    }
    assert(rest.take(i - 1) == rest);
    Ok(Instruction::PushConstants(values))
}

/// A failure among the first `k` literals is the failure of them all.
proof fn lemma_elements_prefix_error(s: Seq<Seq<char>>, k: int)
    requires
        0 <= k <= s.len(),
        elements_of(s.take(k)) is Err,
    ensures
        elements_of(s) == elements_of(s.take(k)),
    decreases s.len() - k,
{
    if k < s.len() {
        assert(s.take(k + 1).drop_last() == s.take(k));
        lemma_elements_prefix_error(s, k + 1);
    } else {
        assert(s.take(k) == s);
    }
}

fn exec_advice_operands(p: &Vec<Vec<char>>) -> (r: Result<Instruction, ParseErrorKind>)
    requires
        p@.len() >= 1,
    ensures
        instruction_result_view(r) == advice_operands(words_view(p@)),
{
    if p.len() == 1 {
        Err(ParseErrorKind::MissingParameter)
    } else if is_word(&p[1], "u64div") {
        if p.len() == 2 {
            Ok(Instruction::AdvU64Div)
        } else {
            Err(ParseErrorKind::ExtraParameters)
        }
    } else if is_word(&p[1], "keyval") {
        if p.len() == 2 {
            Ok(Instruction::AdvKeyval)
        } else {
            Err(ParseErrorKind::ExtraParameters)
        }
    } else if is_word(&p[1], "mem") {
        if p.len() < 4 {
            Err(ParseErrorKind::MissingParameter)
        } else if p.len() > 4 {
            Err(ParseErrorKind::ExtraParameters)
        } else {
            match parse_bounded(&p[2], 0, u32::MAX as u64) {
                Err(e) => Err(e),
                Ok(a) => match parse_bounded(&p[3], 0, u32::MAX as u64) {
                    Err(e) => Err(e),
                    Ok(n) => Ok(Instruction::AdvMem(a as u32, n as u32)),
                },
            }
        }
    } else {
        Err(ParseErrorKind::UnknownInstruction)
    }
}

/// Parses the instruction that the parts of a token name.
pub fn parse_instruction(p: &Vec<Vec<char>>) -> (r: Result<Instruction, ParseErrorKind>)
    requires
        p@.len() >= 1,
    ensures
        instruction_result_view(r) == instruction_of(words_view(p@)),
{
    let m = &p[0];
    if is_word(m, "assert") {
        exec_no_operand(p, OP_ASSERT)
    } else if is_word(m, "assertz") {
        exec_no_operand(p, OP_ASSERTZ)
    } else if is_word(m, "assert_eq") {
        exec_no_operand(p, OP_ASSERT_EQ)
    } else if is_word(m, "neg") {
        exec_no_operand(p, OP_NEG)
    } else if is_word(m, "inv") {
        exec_no_operand(p, OP_INV)
    } else if is_word(m, "not") {
        exec_no_operand(p, OP_NOT)
    } else if is_word(m, "and") {
        exec_no_operand(p, OP_AND)
    } else if is_word(m, "or") {
        exec_no_operand(p, OP_OR)
    } else if is_word(m, "xor") {
        exec_no_operand(p, OP_XOR)
    } else if is_word(m, "lt") {
        exec_no_operand(p, OP_LT)
    } else if is_word(m, "lte") {
        exec_no_operand(p, OP_LTE)
    } else if is_word(m, "gt") {
        exec_no_operand(p, OP_GT)
    } else if is_word(m, "gte") {
        exec_no_operand(p, OP_GTE)
    } else if is_word(m, "eq") {
        exec_no_operand(p, OP_EQ)
    } else if is_word(m, "neq") {
        exec_no_operand(p, OP_NEQ)
    } else if is_word(m, "drop") {
        exec_no_operand(p, OP_DROP)
    } else if is_word(m, "dropw") {
        exec_no_operand(p, OP_DROP_W)
    } else if is_word(m, "padw") {
        exec_no_operand(p, OP_PAD_W)
    } else if is_word(m, "swapw") {
        exec_no_operand(p, OP_SWAP_W)
    } else if is_word(m, "adv_loadw") {
        exec_no_operand(p, OP_ADV_LOAD_W)
    } else if is_word(m, "add") {
        exec_element_or_none(p, OP_ADD, OP_ADD_IMM)
    } else if is_word(m, "sub") {
        exec_element_or_none(p, OP_SUB, OP_SUB_IMM)
    } else if is_word(m, "mul") {
        exec_element_or_none(p, OP_MUL, OP_MUL_IMM)
    } else if is_word(m, "div") {
        exec_element_or_none(p, OP_DIV, OP_DIV_IMM)
    } else if is_word(m, "u32checked_add") {
        exec_word_or_none(p, OP_U32_CHECKED_ADD, OP_U32_CHECKED_ADD_IMM)
    } else if is_word(m, "u32wrapping_add") {
        exec_word_or_none(p, OP_U32_WRAPPING_ADD, OP_U32_WRAPPING_ADD_IMM)
    } else if is_word(m, "u32overflowing_add") {
        exec_word_or_none(p, OP_U32_OVERFLOWING_ADD, OP_U32_OVERFLOWING_ADD_IMM)
    } else if is_word(m, "u32checked_sub") {
        exec_word_or_none(p, OP_U32_CHECKED_SUB, OP_U32_CHECKED_SUB_IMM)
    } else if is_word(m, "u32wrapping_sub") {
        exec_word_or_none(p, OP_U32_WRAPPING_SUB, OP_U32_WRAPPING_SUB_IMM)
    } else if is_word(m, "u32overflowing_sub") {
        exec_word_or_none(p, OP_U32_OVERFLOWING_SUB, OP_U32_OVERFLOWING_SUB_IMM)
    } else if is_word(m, "u32checked_mul") {
        exec_word_or_none(p, OP_U32_CHECKED_MUL, OP_U32_CHECKED_MUL_IMM)
    } else if is_word(m, "u32wrapping_mul") {
        exec_word_or_none(p, OP_U32_WRAPPING_MUL, OP_U32_WRAPPING_MUL_IMM)
    } else if is_word(m, "u32overflowing_mul") {
        exec_word_or_none(p, OP_U32_OVERFLOWING_MUL, OP_U32_OVERFLOWING_MUL_IMM)
    } else if is_word(m, "mem_load") {
        exec_word_or_none(p, OP_MEM_LOAD, OP_MEM_LOAD_IMM)
    } else if is_word(m, "mem_store") {
        exec_word_or_none(p, OP_MEM_STORE, OP_MEM_STORE_IMM)
    } else if is_word(m, "loc_load") {
        exec_half_operand(p, OP_LOC_LOAD)
    } else if is_word(m, "loc_loadw") {
        exec_half_operand(p, OP_LOC_LOAD_W)
    } else if is_word(m, "loc_store") {
        exec_half_operand(p, OP_LOC_STORE)
    } else if is_word(m, "loc_storew") {
        exec_half_operand(p, OP_LOC_STORE_W)
    } else if is_word(m, "dup") {
        exec_byte_operand(p, OP_DUP, Some(0u8), 0u8, 15u8)
    } else if is_word(m, "swap") {
        exec_byte_operand(p, OP_SWAP, Some(1u8), 1u8, 15u8)
    } else if is_word(m, "movup") {
        exec_byte_operand(p, OP_MOV_UP, None, 2u8, 15u8)
    } else if is_word(m, "movdn") {
        exec_byte_operand(p, OP_MOV_DN, None, 2u8, 15u8)
    } else if is_word(m, "adv_push") {
        exec_byte_operand(p, OP_ADV_PUSH, None, 1u8, 16u8)
    } else if is_word(m, "push") {
        exec_push_operands(p)
    } else if is_word(m, "adv") {
        exec_advice_operands(p)
    } else {
        Err(ParseErrorKind::UnknownInstruction)
    }
}

// ---------------------------------------------------------------- calls

/// What a body can call: the procedures declared so far, in declaration order,
/// and the imports, each an alias bound to a fully qualified path.
pub struct Scope {
    pub locals: Vec<Vec<char>>,
    pub aliases: Vec<Vec<char>>,
    pub paths: Vec<Vec<char>>,
}

pub struct ScopeView {
    pub locals: Seq<Seq<char>>,
    pub aliases: Seq<Seq<char>>,
    pub paths: Seq<Seq<char>>,
}

impl View for Scope {
    type V = ScopeView;

    open spec fn view(&self) -> ScopeView {
        ScopeView {
            locals: words_view(self.locals@),
            aliases: words_view(self.aliases@),
            paths: words_view(self.paths@),
        }
    }
}

/// Each alias has its path, and every local index fits in 16 bits.
pub open spec fn scope_wf(s: ScopeView) -> bool {
    s.aliases.len() == s.paths.len() && s.locals.len() <= u16::MAX + 1
}

/// The position of the last `::` among the first `n` characters of `s`, or -1.
pub open spec fn separator_before(s: Seq<char>, n: int) -> int
    decreases n,
{
    if n < 2 || n > s.len() {
        -1
    } else if s[n - 2] == ':' && s[n - 1] == ':' {
        n - 2
    } else {
        separator_before(s, n - 1)
    }
}

/// The position of the last `::` in `s`, or -1.
pub open spec fn last_separator(s: Seq<char>) -> int {
    separator_before(s, s.len() as int)
}

/// The fully qualified name `path::name`.
pub open spec fn qualified(path: Seq<char>, name: Seq<char>) -> Seq<char> {
    path + seq![':', ':'] + name
}

/// What `exec.<target>` calls: a declared procedure by its index; else, where the
/// part before the last `::` is an alias, the procedure of that alias's path; else,
/// where that part is an imported path, the target itself.
pub open spec fn call_of(target: Seq<char>, scope: ScopeView) -> Result<InstructionView, ParseErrorKind> {
    let k = index_of(scope.locals, target);
    if k >= 0 {
        Ok(instruction_view(OP_EXEC_LOCAL, Operand::Half(k as u16)))
    } else {
        let sep = last_separator(target);
        if sep < 0 {
            Err(ParseErrorKind::UndefinedProcedure)
        } else {
            let module = target.take(sep);
            let name = target.skip(sep + 2);
            let a = index_of(scope.aliases, module);
            if a >= 0 {
                Ok(
                    instruction_view(
                        OP_EXEC_IMPORTED,
                        Operand::Id(procedure_id_of(qualified(scope.paths[a], name))),
                    ),
                )
            } else if index_of(scope.paths, module) >= 0 {
                Ok(instruction_view(OP_EXEC_IMPORTED, Operand::Id(procedure_id_of(target))))
            } else {
                Err(ParseErrorKind::UndefinedProcedure)
            }
        }
    }
}

/// The position of the last `::` in `s`.
pub fn find_last_separator(s: &Vec<char>) -> (r: Option<usize>)
    ensures
        match r {
            Some(k) => last_separator(s@) == k as int,
            None => last_separator(s@) < 0,
        },
{
    let mut n: usize = s.len();
    while n >= 2
        invariant
            n <= s@.len(),
            separator_before(s@, s@.len() as int) == separator_before(s@, n as int),
        decreases n,
    {
        if s[n - 2] == ':' && s[n - 1] == ':' {
            return Some(n - 2);
        }
        n = n - 1;
    }
    None
}

/// The characters `s[a..b]`.
pub fn chars_between(s: &Vec<char>, a: usize, b: usize) -> (r: Vec<char>)
    requires
        a <= b <= s@.len(),
    ensures
        r@ == s@.subrange(a as int, b as int),
{
    crate::tokens::slice_chars(s, a, b)
}

/// `path::name`.
pub fn qualify(path: &Vec<char>, name: &Vec<char>) -> (r: Vec<char>)
    ensures
        r@ == qualified(path@, name@),
{
    let mut r = chars_between(path, 0, path.len());
    r.push(':');
    r.push(':');
    let mut i: usize = 0;
    let ghost head = r@;
    while i < name.len()
        invariant
            i <= name@.len(),
            head == path@ + seq![':', ':'],
            r@ == head + name@.take(i as int),
        decreases name@.len() - i,
    {
        r.push(name[i]);
        i = i + 1;
        assert(r@ == head + name@.take(i as int));
    }
    assert(name@.take(i as int) == name@);
    r
}

/// Resolves the target of a call against the scope.
pub fn resolve_call(target: &Vec<char>, scope: &Scope) -> (r: Result<Instruction, ParseErrorKind>)
    requires
        scope_wf(scope@),
    ensures
        instruction_result_view(r) == call_of(target@, scope@),
{
    match find_word(&scope.locals, target) {
        Some(k) => {
            proof {
                lemma_index_of(scope@.locals, target@);
            }
            return Ok(Instruction::ExecLocal(k as u16));
        },
        None => {},
    }
    let sep = match find_last_separator(target) {
        Some(k) => k,
        None => {
            return Err(ParseErrorKind::UndefinedProcedure);
        },
    };
    proof {
        lemma_separator_in_range(target@, target@.len() as int);
    }
    assert(sep + 2 <= target.len());
    let module = chars_between(target, 0, sep);
    let name = chars_between(target, sep + 2, target.len());
    assert(module@ == target@.take(sep as int));
    assert(name@ == target@.skip(sep + 2));
    match find_word(&scope.aliases, &module) {
        Some(a) => {
            proof {
                lemma_index_of(scope@.aliases, module@);
            }
            let full = qualify(&scope.paths[a], &name);
            Ok(Instruction::ExecImported(ProcedureId::from_chars(&full)))
        },
        None => match find_word(&scope.paths, &module) {
            Some(_) => Ok(Instruction::ExecImported(ProcedureId::from_chars(target))),
            None => Err(ParseErrorKind::UndefinedProcedure),
        },
    }
}

pub proof fn lemma_separator_in_range(s: Seq<char>, n: int)
    ensures
        separator_before(s, n) >= 0 ==> separator_before(s, n) + 2 <= n <= s.len(),
    decreases n,
{
    if n >= 2 && n <= s.len() {
        lemma_separator_in_range(s, n - 1);
    }
}

// ---------------------------------------------------------------- bodies

/// The token closes a block: `end`, or `else` inside a conditional.
pub open spec fn closes_block(t: Seq<Seq<char>>) -> bool {
    t[0] == "end"@ || t[0] == "else"@
}

/// The token is a bare `end`.
pub open spec fn is_end(t: Seq<Seq<char>>) -> bool {
    t[0] == "end"@ && t.len() == 1
}

/// The token is `<keyword>.true`.
pub open spec fn is_true_block(t: Seq<Seq<char>>) -> bool {
    t.len() == 2 && t[1] == "true"@
}

/// Every token has at least one part.
pub open spec fn tokens_wf(toks: Seq<Seq<Seq<char>>>) -> bool {
    forall|i: int| 0 <= i < toks.len() ==> (#[trigger] toks[i]).len() >= 1
}

/// Parses the nodes from position `pos` on, after the nodes `acc` already parsed,
/// up to the token that closes the block. The result is every node of the block and
/// the position of that token.
pub open spec fn body_of(toks: Seq<Seq<Seq<char>>>, scope: ScopeView, pos: int, acc: Seq<NodeView>) -> Result<
    (Seq<NodeView>, int),
    ParseErrorKind,
>
    decreases toks.len() - pos,
{
    if pos < 0 || pos >= toks.len() {
        Err(ParseErrorKind::UnclosedBlock)
    } else {
        let t = toks[pos];
        let m = t[0];
        if m == "end"@ || m == "else"@ {
            Ok((acc, pos))
        } else if m == "if"@ {
            if !is_true_block(t) {
                Err(ParseErrorKind::UnexpectedToken)
            } else {
                match body_of(toks, scope, pos + 1, Seq::empty()) {
                    Err(e) => Err(e),
                    Ok((yes, p1)) => if !(pos < p1 < toks.len()) {
                        Err(ParseErrorKind::UnclosedBlock)
                    } else if toks[p1].len() != 1 {
                        Err(ParseErrorKind::UnexpectedToken)
                    } else if toks[p1][0] == "else"@ {
                        match body_of(toks, scope, p1 + 1, Seq::empty()) {
                            Err(e) => Err(e),
                            Ok((no, p2)) => if !(p1 < p2 < toks.len()) {
                                Err(ParseErrorKind::UnclosedBlock)
                            } else if !is_end(toks[p2]) {
                                Err(ParseErrorKind::UnexpectedToken)
                            } else {
                                body_of(toks, scope, p2 + 1, acc.push(NodeView::IfElse(yes, no)))
                            },
                        }
                    } else {
                        body_of(toks, scope, p1 + 1, acc.push(NodeView::IfElse(yes, Seq::empty())))
                    },
                }
            }
        } else if m == "while"@ {
            if !is_true_block(t) {
                Err(ParseErrorKind::UnexpectedToken)
            } else {
                match body_of(toks, scope, pos + 1, Seq::empty()) {
                    Err(e) => Err(e),
                    Ok((b, p1)) => if !(pos < p1 < toks.len()) {
                        Err(ParseErrorKind::UnclosedBlock)
                    } else if !is_end(toks[p1]) {
                        Err(ParseErrorKind::UnexpectedToken)
                    } else {
                        body_of(toks, scope, p1 + 1, acc.push(NodeView::While(b)))
                    },
                }
            }
        } else if m == "repeat"@ {
            if t.len() == 1 {
                Err(ParseErrorKind::MissingParameter)
            } else if t.len() > 2 {
                Err(ParseErrorKind::ExtraParameters)
            } else {
                match bounded_operand(t[1], 0, u32::MAX as nat) {
                    Err(e) => Err(e),
                    Ok(n) => match body_of(toks, scope, pos + 1, Seq::empty()) {
                        Err(e) => Err(e),
                        Ok((b, p1)) => if !(pos < p1 < toks.len()) {
                            Err(ParseErrorKind::UnclosedBlock)
                        } else if !is_end(toks[p1]) {
                            Err(ParseErrorKind::UnexpectedToken)
                        } else {
                            body_of(toks, scope, p1 + 1, acc.push(NodeView::Repeat(n as u32, b)))
                        },
                    },
                }
            }
        } else if m == "exec"@ {
            if t.len() == 1 {
                Err(ParseErrorKind::MissingParameter)
            } else if t.len() > 2 {
                Err(ParseErrorKind::ExtraParameters)
            } else {
                match call_of(t[1], scope) {
                    Err(e) => Err(e),
                    Ok(i) => body_of(toks, scope, pos + 1, acc.push(NodeView::Op(i))),
                }
            }
        } else if m == "begin"@ || m == "proc"@ || m == "export"@ || m == "use"@ {
            Err(ParseErrorKind::UnexpectedToken)
        } else {
            match instruction_of(t) {
                Err(e) => Err(e),
                Ok(i) => body_of(toks, scope, pos + 1, acc.push(NodeView::Op(i))),
            }
        }
    }
}

/// The executable result agrees with the spec result: the same nodes and closing
/// position, or an error of the same kind.
pub open spec fn block_agrees(
    r: Result<(Vec<Node>, usize), ParsingError>,
    s: Result<(Seq<NodeView>, int), ParseErrorKind>,
) -> bool {
    match (r, s) {
        (Ok((ns, p)), Ok((v, q))) => nodes_view(ns@) == v && p as int == q,
        (Err(e), Err(k)) => e.kind == k,
        _ => false,
    }
}

/// The error of kind `kind` at token `pos`, or at the end of the source when `pos`
/// is past the last token.
pub fn error_at(toks: &Vec<Token>, pos: usize, kind: ParseErrorKind) -> (r: ParsingError)
    ensures
        r.kind == kind,
{
    if pos < toks.len() {
        ParsingError { kind, line: toks[pos].line, token: toks[pos].text.clone() }
    } else if toks.len() > 0 {
        ParsingError { kind, line: toks[toks.len() - 1].line, token: String::new() }
    } else {
        ParsingError { kind, line: 1, token: String::new() }
    }
}

proof fn lemma_push_view(acc: Seq<Node>, n: Node)
    ensures
        nodes_view(acc.push(n)) == nodes_view(acc).push(n@),
{
    assert(acc.push(n).drop_last() == acc);
}

/// Parses one block from token `pos` up to the token that closes it.
pub fn parse_block(toks: &Vec<Token>, scope: &Scope, pos: usize) -> (r: Result<(Vec<Node>, usize), ParsingError>)
    requires
        pos <= toks@.len(),
        tokens_wf(token_parts(toks@)),
        scope_wf(scope@),
    ensures
        block_agrees(r, body_of(token_parts(toks@), scope@, pos as int, Seq::empty())),
        r matches Ok((_, p)) ==> pos <= p < toks@.len() && closes_block(token_parts(toks@)[p as int]),
    decreases toks@.len() - pos,
{
    let ghost tp = token_parts(toks@);
    let mut acc: Vec<Node> = Vec::new();
    let mut i: usize = pos;
    assert(nodes_view(acc@) == Seq::<NodeView>::empty());
    loop
        invariant
            pos <= i <= toks@.len(),
            tp == token_parts(toks@),
            tokens_wf(tp),
            scope_wf(scope@),
            body_of(tp, scope@, pos as int, Seq::empty()) == body_of(tp, scope@, i as int, nodes_view(acc@)),
        decreases toks@.len() - i,
    {
        if i >= toks.len() {
            return Err(error_at(toks, i, ParseErrorKind::UnclosedBlock));
        }
        let t = &toks[i].parts;
        assert(t@.len() >= 1);
        assert(tp[i as int] == words_view(t@));
        let m = &t[0];
        if is_word(m, "end") || is_word(m, "else") {
            return Ok((acc, i));
        } else if is_word(m, "if") {
            if !(t.len() == 2 && is_word(&t[1], "true")) {
                return Err(error_at(toks, i, ParseErrorKind::UnexpectedToken));
            }
            let (yes, p1) = match parse_block(toks, scope, i + 1) {
                Ok(x) => x,
                Err(e) => {
                    return Err(e);
                },
            };
            let closing = &toks[p1].parts;
            assert(tp[p1 as int] == words_view(closing@));
            if closing.len() != 1 {
                return Err(error_at(toks, p1, ParseErrorKind::UnexpectedToken));
            }
            if is_word(&closing[0], "else") {
                let (no, p2) = match parse_block(toks, scope, p1 + 1) {
                    Ok(x) => x,
                    Err(e) => {
                        return Err(e);
                    },
                };
                let last = &toks[p2].parts;
                assert(tp[p2 as int] == words_view(last@));
                if !(is_word(&last[0], "end") && last.len() == 1) {
                    return Err(error_at(toks, p2, ParseErrorKind::UnexpectedToken));
                }
                let node = Node::IfElse(yes, no);
                proof {
                    lemma_push_view(acc@, node);
                }
                acc.push(node);
                i = p2 + 1;
            } else {
                let node = Node::IfElse(yes, Vec::new());
                proof {
                    lemma_push_view(acc@, node);
                    assert(nodes_view(Seq::<Node>::empty()) == Seq::<NodeView>::empty());
                }
                acc.push(node);
                i = p1 + 1;
            }
        } else if is_word(m, "while") {
            if !(t.len() == 2 && is_word(&t[1], "true")) {
                return Err(error_at(toks, i, ParseErrorKind::UnexpectedToken));
            }
            let (b, p1) = match parse_block(toks, scope, i + 1) {
                Ok(x) => x,
                Err(e) => {
                    return Err(e);
                },
            };
            let closing = &toks[p1].parts;
            assert(tp[p1 as int] == words_view(closing@));
            if !(is_word(&closing[0], "end") && closing.len() == 1) {
                return Err(error_at(toks, p1, ParseErrorKind::UnexpectedToken));
            }
            let node = Node::While(b);
            proof {
                lemma_push_view(acc@, node);
            }
            acc.push(node);
            i = p1 + 1;
        } else if is_word(m, "repeat") {
            if t.len() == 1 {
                return Err(error_at(toks, i, ParseErrorKind::MissingParameter));
            }
            if t.len() > 2 {
                return Err(error_at(toks, i, ParseErrorKind::ExtraParameters));
            }
            let n = match parse_bounded(&t[1], 0, u32::MAX as u64) {
                Ok(n) => n,
                Err(e) => {
                    return Err(error_at(toks, i, e));
                },
            };
            let (b, p1) = match parse_block(toks, scope, i + 1) {
                Ok(x) => x,
                Err(e) => {
                    return Err(e);
                },
            };
            let closing = &toks[p1].parts;
            assert(tp[p1 as int] == words_view(closing@));
            if !(is_word(&closing[0], "end") && closing.len() == 1) {
                return Err(error_at(toks, p1, ParseErrorKind::UnexpectedToken));
            }
            let node = Node::Repeat(n as u32, b);
            proof {
                lemma_push_view(acc@, node);
            }
            acc.push(node);
            i = p1 + 1;
        } else if is_word(m, "exec") {
            if t.len() == 1 {
                return Err(error_at(toks, i, ParseErrorKind::MissingParameter));
            }
            if t.len() > 2 {
                return Err(error_at(toks, i, ParseErrorKind::ExtraParameters));
            }
            let ins = match resolve_call(&t[1], scope) {
                Ok(ins) => ins,
                Err(e) => {
                    return Err(error_at(toks, i, e));
                },
            };
            let node = Node::Instruction(ins);
            proof {
                lemma_push_view(acc@, node);
            }
            acc.push(node);
            i = i + 1;
        } else if is_word(m, "begin") || is_word(m, "proc") || is_word(m, "export") || is_word(m, "use") {
            return Err(error_at(toks, i, ParseErrorKind::UnexpectedToken));
        } else {
            let ins = match parse_instruction(t) {
                Ok(ins) => ins,
                Err(e) => {
                    return Err(error_at(toks, i, e));
                },
            };
            let node = Node::Instruction(ins);
            proof {
                lemma_push_view(acc@, node);
            }
            acc.push(node);
            i = i + 1;
        }
    }
}

/// Two conditionals one after the other become two sibling nodes, and the block
/// inside a conditional becomes its branch, at one level deeper.
pub proof fn lemma_sequential_conditionals(
    toks: Seq<Seq<Seq<char>>>,
    scope: ScopeView,
    pos: int,
    acc: Seq<NodeView>,
    a: Seq<NodeView>,
    p1: int,
    b: Seq<NodeView>,
    p2: int,
)
    requires
        0 <= pos,
        tokens_wf(toks),
        toks[pos] == seq!["if"@, "true"@],
        body_of(toks, scope, pos + 1, Seq::empty()) == Ok::<(Seq<NodeView>, int), ParseErrorKind>((a, p1)),
        pos < p1 < toks.len(),
        toks[p1] == seq!["end"@],
        toks[p1 + 1] == seq!["if"@, "true"@],
        body_of(toks, scope, p1 + 2, Seq::empty()) == Ok::<(Seq<NodeView>, int), ParseErrorKind>((b, p2)),
        p1 + 1 < p2 < toks.len(),
        toks[p2] == seq!["end"@],
    ensures
        body_of(toks, scope, pos, acc) == body_of(toks, scope, p1 + 1, acc.push(NodeView::IfElse(a, Seq::empty()))),
        body_of(toks, scope, pos, acc) == body_of(
            toks,
            scope,
            p2 + 1,
            acc.push(NodeView::IfElse(a, Seq::empty())).push(NodeView::IfElse(b, Seq::empty())),
        ),
{
    proof_strlit_distinct();
}

/// The keywords that open and close blocks are different words.
proof fn proof_strlit_distinct()
    ensures
        "if"@ != "end"@,
        "if"@ != "else"@,
        "end"@ != "else"@,
{
    reveal_strlit("if");
    reveal_strlit("end");
    reveal_strlit("else");
    assert("if"@.len() == 2);
    assert("end"@.len() == 3);
    assert("else"@.len() == 4);
}

/// A call `<alias>::<name>` to no declared procedure, where `<alias>` is bound by
/// an import, calls the procedure whose identifier is that of the import's path
/// joined with `name` by `::`.
pub proof fn lemma_aliased_call(target: Seq<char>, scope: ScopeView, k: int)
    requires
        scope_wf(scope),
        index_of(scope.locals, target) < 0,
        last_separator(target) >= 0,
        index_of(scope.aliases, target.take(last_separator(target))) == k,
        k >= 0,
    ensures
        call_of(target, scope) == Ok::<InstructionView, ParseErrorKind>(
            instruction_view(
                OP_EXEC_IMPORTED,
                Operand::Id(
                    procedure_id_of(qualified(scope.paths[k], target.skip(last_separator(target) + 2))),
                ),
            ),
        ),
{
}

} // verus!

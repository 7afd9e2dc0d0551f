//! The canonical binary encoding of programs and modules.
//!
//! Integers are little-endian; counts and lengths take four bytes; a character
//! is its four-byte code point. A unit starts with a flag: 1 for a program, 0 for
//! a module. The procedures follow in declaration order, then the program's body.
use vstd::prelude::*;
use crate::ast::{Node, NodeView, lemma_nodes_view_index, nodes_view, ModuleAst, ModuleView, ProcedureAst, ProcedureView, ProgramAst, ProgramView, module_rules, names_unique, procs_view, program_rules, FIRST_BYTE_OP, FIRST_ELEMENT_OP, FIRST_HALF_OP, FIRST_WORD_OP, Instruction, InstructionView, MAX_PUSH_VALUES, OP_ADV_MEM, OP_EXEC_IMPORTED, OP_PUSH_CONSTANTS, Operand, OperandValue, canonical_elements, instruction_view, operand_fits};
use crate::errors::{DecodeError, DecodeErrorKind};
use crate::felt::{Felt, MODULUS, felt_from_canonical, lemma_felt_from_canonical, lemma_felt_view};
use crate::procedure_id::ProcedureId;
use vstd::utf8::{char_is_scalar, char_u32_cast, is_scalar};
use crate::text::{chars_of, string_of};

verus! {

// ---------------------------------------------------------------- integers

pub open spec fn u16_bytes(v: u16) -> Seq<u8> {
    seq![(v & 0xff) as u8, (v >> 8u16) as u8]
}

pub open spec fn u16_from(b0: u8, b1: u8) -> u16 {
    (b0 as u16) | ((b1 as u16) << 8u16)
}

pub open spec fn u32_bytes(v: u32) -> Seq<u8> {
    seq![(v & 0xff) as u8, ((v >> 8u32) & 0xff) as u8, ((v >> 16u32) & 0xff) as u8, (v >> 24u32) as u8]
}

pub open spec fn u32_from(b0: u8, b1: u8, b2: u8, b3: u8) -> u32 {
    (b0 as u32) | ((b1 as u32) << 8u32) | ((b2 as u32) << 16u32) | ((b3 as u32) << 24u32)
}

pub open spec fn u64_bytes(v: u64) -> Seq<u8> {
    u32_bytes((v & 0xffff_ffff) as u32) + u32_bytes((v >> 32u64) as u32)
}

pub open spec fn u64_from(lo: u32, hi: u32) -> u64 {
    (lo as u64) | ((hi as u64) << 32u64)
}

pub proof fn lemma_u16_round_trip(v: u16)
    ensures
        u16_from(u16_bytes(v)[0], u16_bytes(v)[1]) == v,
{
    let b0 = (v & 0xff) as u8;
    let b1 = (v >> 8u16) as u8;
    assert((b0 as u16) | ((b1 as u16) << 8u16) == v) by (bit_vector)
        requires
            b0 == (v & 0xff) as u8,
            b1 == (v >> 8u16) as u8,
    ;
}

pub proof fn lemma_u32_round_trip(v: u32)
    ensures
        u32_from(u32_bytes(v)[0], u32_bytes(v)[1], u32_bytes(v)[2], u32_bytes(v)[3]) == v,
{
    let b0 = (v & 0xff) as u8;
    let b1 = ((v >> 8u32) & 0xff) as u8;
    let b2 = ((v >> 16u32) & 0xff) as u8;
    let b3 = (v >> 24u32) as u8;
    assert((b0 as u32) | ((b1 as u32) << 8u32) | ((b2 as u32) << 16u32) | ((b3 as u32) << 24u32) == v)
        by (bit_vector)
        requires
            b0 == (v & 0xff) as u8,
            b1 == ((v >> 8u32) & 0xff) as u8,
            b2 == ((v >> 16u32) & 0xff) as u8,
            b3 == (v >> 24u32) as u8,
    ;
}

pub proof fn lemma_u64_round_trip(v: u64)
    ensures
        u64_from((v & 0xffff_ffff) as u32, (v >> 32u64) as u32) == v,
{
    let lo = (v & 0xffff_ffff) as u32;
    let hi = (v >> 32u64) as u32;
    assert((lo as u64) | ((hi as u64) << 32u64) == v) by (bit_vector)
        requires
            lo == (v & 0xffff_ffff) as u32,
            hi == (v >> 32u64) as u32,
    ;
}

// ---------------------------------------------------------------- reading

/// `e` stands in `b` from position `pos` on.
pub open spec fn stands_at(b: Seq<u8>, pos: int, e: Seq<u8>) -> bool {
    0 <= pos && pos + e.len() <= b.len() && b.subrange(pos, pos + e.len()) == e
}

/// What stands at `pos` as `x + y` stands there as `x`, then `y`.
pub proof fn lemma_stands_split(b: Seq<u8>, pos: int, x: Seq<u8>, y: Seq<u8>)
    requires
        stands_at(b, pos, x + y),
    ensures
        stands_at(b, pos, x),
        stands_at(b, pos + x.len(), y),
{
    assert(b.subrange(pos, pos + x.len()) =~= (x + y).subrange(0, x.len() as int));
    assert((x + y).subrange(0, x.len() as int) =~= x);
    assert(b.subrange(pos + x.len(), pos + x.len() + y.len()) =~= (x + y).subrange(
        x.len() as int,
        (x + y).len() as int,
    ));
    assert((x + y).subrange(x.len() as int, (x + y).len() as int) =~= y);
}

pub open spec fn read_u8(b: Seq<u8>, pos: int) -> Result<(u8, int), DecodeErrorKind> {
    if 0 <= pos < b.len() {
        Ok((b[pos], pos + 1))
    } else {
        Err(DecodeErrorKind::Truncated)
    }
}

pub open spec fn read_u16(b: Seq<u8>, pos: int) -> Result<(u16, int), DecodeErrorKind> {
    if 0 <= pos && pos + 2 <= b.len() {
        Ok((u16_from(b[pos], b[pos + 1]), pos + 2))
    } else {
        Err(DecodeErrorKind::Truncated)
    }
}

pub open spec fn read_u32(b: Seq<u8>, pos: int) -> Result<(u32, int), DecodeErrorKind> {
    if 0 <= pos && pos + 4 <= b.len() {
        Ok((u32_from(b[pos], b[pos + 1], b[pos + 2], b[pos + 3]), pos + 4))
    } else {
        Err(DecodeErrorKind::Truncated)
    }
}

pub open spec fn read_u64(b: Seq<u8>, pos: int) -> Result<(u64, int), DecodeErrorKind> {
    if 0 <= pos && pos + 8 <= b.len() {
        let lo = u32_from(b[pos], b[pos + 1], b[pos + 2], b[pos + 3]);
        let hi = u32_from(b[pos + 4], b[pos + 5], b[pos + 6], b[pos + 7]);
        Ok((u64_from(lo, hi), pos + 8))
    } else {
        Err(DecodeErrorKind::Truncated)
    }
}

pub proof fn lemma_read_u16(b: Seq<u8>, pos: int, v: u16)
    requires
        stands_at(b, pos, u16_bytes(v)),
    ensures
        read_u16(b, pos) == Ok::<(u16, int), DecodeErrorKind>((v, pos + 2)),
{
    lemma_u16_round_trip(v);
    assert(b[pos] == b.subrange(pos, pos + 2)[0]);
    assert(b[pos + 1] == b.subrange(pos, pos + 2)[1]);
}

pub proof fn lemma_read_u32(b: Seq<u8>, pos: int, v: u32)
    requires
        stands_at(b, pos, u32_bytes(v)),
    ensures
        read_u32(b, pos) == Ok::<(u32, int), DecodeErrorKind>((v, pos + 4)),
{
    lemma_u32_round_trip(v);
    let s = b.subrange(pos, pos + 4);
    assert(b[pos] == s[0] && b[pos + 1] == s[1] && b[pos + 2] == s[2] && b[pos + 3] == s[3]);
}

pub proof fn lemma_read_u64(b: Seq<u8>, pos: int, v: u64)
    requires
        stands_at(b, pos, u64_bytes(v)),
    ensures
        read_u64(b, pos) == Ok::<(u64, int), DecodeErrorKind>((v, pos + 8)),
{
    let lo = (v & 0xffff_ffff) as u32;
    let hi = (v >> 32u64) as u32;
    lemma_stands_split(b, pos, u32_bytes(lo), u32_bytes(hi));
    lemma_read_u32(b, pos, lo);
    lemma_read_u32(b, pos + 4, hi);
    lemma_u64_round_trip(v);
}

// ---------------------------------------------------------------- executable primitives

pub fn write_u8(out: &mut Vec<u8>, v: u8)
    ensures
        final(out)@ == old(out)@ + seq![v],
{
    out.push(v);
}

pub fn write_u16(out: &mut Vec<u8>, v: u16)
    ensures
        final(out)@ == old(out)@ + u16_bytes(v),
{
    out.push((v & 0xff) as u8);
    out.push((v >> 8u16) as u8);
}

pub fn write_u32(out: &mut Vec<u8>, v: u32)
    ensures
        final(out)@ == old(out)@ + u32_bytes(v),
{
    out.push((v & 0xff) as u8);
    out.push(((v >> 8u32) & 0xff) as u8);
    out.push(((v >> 16u32) & 0xff) as u8);
    out.push((v >> 24u32) as u8);
}

pub fn write_u64(out: &mut Vec<u8>, v: u64)
    ensures
        final(out)@ == old(out)@ + u64_bytes(v),
{
    let ghost before = out@;
    write_u32(out, (v & 0xffff_ffff) as u32);
    write_u32(out, (v >> 32u64) as u32);
    assert(out@ =~= before + u64_bytes(v));
}

/// The decode error of kind `kind` at `pos`.
pub fn fail<T>(kind: DecodeErrorKind, pos: usize) -> (r: Result<T, DecodeError>)
    ensures
        r matches Err(e) && e.kind == kind,
{
    Err(DecodeError { kind, offset: pos })
}

/// The executable result agrees with the spec result: the same value, as seen
/// through `view`, and position; or an error of the same kind.
pub open spec fn read_agrees<T, V>(
    r: Result<(T, usize), DecodeError>,
    s: Result<(V, int), DecodeErrorKind>,
    view: spec_fn(T) -> V,
) -> bool {
    match (r, s) {
        (Ok((x, p)), Ok((v, q))) => view(x) == v && p as int == q,
        (Err(e), Err(k)) => e.kind == k,
        _ => false,
    }
}

pub fn get_u8(b: &[u8], pos: usize) -> (r: Result<(u8, usize), DecodeError>)
    ensures
        read_agrees(r, read_u8(b@, pos as int), |x: u8| x),
{
    if pos < b.len() {
        Ok((b[pos], pos + 1))
    } else {
        fail(DecodeErrorKind::Truncated, pos)
    }
}

pub fn get_u16(b: &[u8], pos: usize) -> (r: Result<(u16, usize), DecodeError>)
    ensures
        read_agrees(r, read_u16(b@, pos as int), |x: u16| x),
{
    if pos <= b.len() && b.len() - pos >= 2 {
        Ok(((b[pos] as u16) | ((b[pos + 1] as u16) << 8u16), pos + 2))
    } else {
        fail(DecodeErrorKind::Truncated, pos)
    }
}

pub fn get_u32(b: &[u8], pos: usize) -> (r: Result<(u32, usize), DecodeError>)
    ensures
        read_agrees(r, read_u32(b@, pos as int), |x: u32| x),
{
    if pos <= b.len() && b.len() - pos >= 4 {
        let v = (b[pos] as u32) | ((b[pos + 1] as u32) << 8u32) | ((b[pos + 2] as u32) << 16u32) | ((
        b[pos + 3] as u32) << 24u32);
        Ok((v, pos + 4))
    } else {
        fail(DecodeErrorKind::Truncated, pos)
    }
}

pub fn get_u64(b: &[u8], pos: usize) -> (r: Result<(u64, usize), DecodeError>)
    ensures
        read_agrees(r, read_u64(b@, pos as int), |x: u64| x),
{
    if pos <= b.len() && b.len() - pos >= 8 {
        let (lo, _) = match get_u32(b, pos) {
            Ok(x) => x,
            Err(e) => {
                return Err(e);
            },
        };
        let (hi, _) = match get_u32(b, pos + 4) {
            Ok(x) => x,
            Err(e) => {
                return Err(e);
            },
        };
        Ok(((lo as u64) | ((hi as u64) << 32u64), pos + 8))
    } else {
        fail(DecodeErrorKind::Truncated, pos)
    }
}

// ---------------------------------------------------------------- characters

/// Relies on `char::from_u32`: the character whose code point is `v`, when `v`
/// is a Unicode scalar value.
#[verifier::external_body]
fn char_from_u32(v: u32) -> (r: Option<char>)
    ensures
        r == (if is_scalar(v) {
            Some(v as char)
        } else {
            None
        }),
{
    char::from_u32(v)
}

pub open spec fn chars_bytes(s: Seq<char>) -> Seq<u8>
    decreases s.len(),
{
    if s.len() == 0 {
        Seq::empty()
    } else {
        chars_bytes(s.drop_last()) + u32_bytes(s.last() as u32)
    }
}

/// A length-prefixed text.
pub open spec fn text_bytes(s: Seq<char>) -> Seq<u8> {
    u32_bytes(s.len() as u32) + chars_bytes(s)
}

pub open spec fn read_char(b: Seq<u8>, pos: int) -> Result<(char, int), DecodeErrorKind> {
    match read_u32(b, pos) {
        Err(e) => Err(e),
        Ok((v, p)) => if is_scalar(v) {
            Ok((v as char, p))
        } else {
            Err(DecodeErrorKind::InvalidValue)
        },
    }
}

pub open spec fn read_chars(b: Seq<u8>, pos: int, n: int) -> Result<(Seq<char>, int), DecodeErrorKind>
    decreases n,
{
    if n <= 0 {
        Ok((Seq::empty(), pos))
    } else {
        match read_chars(b, pos, n - 1) {
            Err(e) => Err(e),
            Ok((s, p)) => match read_char(b, p) {
                Err(e) => Err(e),
                Ok((c, q)) => Ok((s.push(c), q)),
            },
        }
    }
}

pub open spec fn read_text(b: Seq<u8>, pos: int) -> Result<(Seq<char>, int), DecodeErrorKind> {
    match read_u32(b, pos) {
        Err(e) => Err(e),
        Ok((n, p)) => read_chars(b, p, n as int),
    }
}

pub proof fn lemma_chars_bytes_len(s: Seq<char>)
    ensures
        chars_bytes(s).len() == 4 * s.len(),
    decreases s.len(),
{
    if s.len() > 0 {
        lemma_chars_bytes_len(s.drop_last());
    }
}

pub proof fn lemma_read_chars(b: Seq<u8>, pos: int, s: Seq<char>)
    requires
        stands_at(b, pos, chars_bytes(s)),
    ensures
        read_chars(b, pos, s.len() as int) == Ok::<(Seq<char>, int), DecodeErrorKind>(
            (s, pos + chars_bytes(s).len()),
        ),
    decreases s.len(),
{
    if s.len() > 0 {
        let d = s.drop_last();
        let c = s.last();
        lemma_stands_split(b, pos, chars_bytes(d), u32_bytes(c as u32));
        lemma_read_chars(b, pos, d);
        lemma_read_u32(b, pos + chars_bytes(d).len(), c as u32);
        char_is_scalar(c);
        char_u32_cast(c, c as u32);
        assert(u32_bytes(c as u32).len() == 4);
        assert(read_char(b, pos + chars_bytes(d).len()) == Ok::<(char, int), DecodeErrorKind>((c, pos + chars_bytes(d).len() + 4)));
        assert(d.push(c) == s);
    } else {
        assert(s =~= Seq::empty());
    }
}

pub proof fn lemma_read_text(b: Seq<u8>, pos: int, s: Seq<char>)
    requires
        s.len() <= u32::MAX,
        stands_at(b, pos, text_bytes(s)),
    ensures
        read_text(b, pos) == Ok::<(Seq<char>, int), DecodeErrorKind>((s, pos + text_bytes(s).len())),
{
    lemma_stands_split(b, pos, u32_bytes(s.len() as u32), chars_bytes(s));
    lemma_read_u32(b, pos, s.len() as u32);
    lemma_read_chars(b, pos + 4, s);
}

pub fn write_chars(out: &mut Vec<u8>, s: &Vec<char>)
    ensures
        final(out)@ == old(out)@ + chars_bytes(s@),
{
    let ghost before = out@;
    let mut i: usize = 0;
    while i < s.len()
        invariant
            i <= s@.len(),
            out@ == before + chars_bytes(s@.take(i as int)),
        decreases s@.len() - i,
    {
        let ghost mid = out@;
        write_u32(out, s[i] as u32);
        proof {
            let t = s@.take(i + 1);
            assert(t.drop_last() == s@.take(i as int));
            assert(t.last() == s@[i as int]);
        }
        i = i + 1;
        assert(out@ =~= before + chars_bytes(s@.take(i as int)));
    }
    assert(s@.take(i as int) == s@);
}

pub fn write_text(out: &mut Vec<u8>, s: &Vec<char>)
    requires
        s@.len() <= u32::MAX,
    ensures
        final(out)@ == old(out)@ + text_bytes(s@),
{
    let ghost before = out@;
    write_u32(out, s.len() as u32);
    write_chars(out, s);
    assert(out@ =~= before + text_bytes(s@));
}

pub fn get_chars(b: &[u8], pos: usize, n: u32) -> (r: Result<(Vec<char>, usize), DecodeError>)
    ensures
        read_agrees(r, read_chars(b@, pos as int, n as int), |x: Vec<char>| x@),
{
    let mut out: Vec<char> = Vec::new();
    let mut p = pos;
    let mut k: u32 = 0;
    assert(read_chars(b@, pos as int, 0) == Ok::<(Seq<char>, int), DecodeErrorKind>((out@, p as int)));
    while k < n
        invariant
            k <= n,
            read_chars(b@, pos as int, k as int) == Ok::<(Seq<char>, int), DecodeErrorKind>((out@, p as int)),
        decreases n - k,
    {
        let (v, q) = match get_u32(b, p) {
            Ok(x) => x,
            Err(e) => {
                proof {
                    lemma_read_chars_error(b@, pos as int, k as int + 1, n as int);
                }
                return Err(e);
            },
        };
        let c = match char_from_u32(v) {
            Some(c) => c,
            None => {
                proof {
                    lemma_read_chars_error(b@, pos as int, k as int + 1, n as int);
                }
                return fail(DecodeErrorKind::InvalidValue, p);
            },
        };
        out.push(c);
        p = q;
        k = k + 1;
    }
    Ok((out, p))
}

/// A failure after `k` characters is the failure of reading `n >= k` of them.
pub proof fn lemma_read_chars_error(b: Seq<u8>, pos: int, k: int, n: int)
    requires
        0 <= k <= n,
        read_chars(b, pos, k) is Err,
    ensures
        read_chars(b, pos, n) == read_chars(b, pos, k),
    decreases n - k,
{
    if k < n {
        lemma_read_chars_error(b, pos, k, n - 1);
    }
}

pub fn get_text(b: &[u8], pos: usize) -> (r: Result<(Vec<char>, usize), DecodeError>)
    ensures
        read_agrees(r, read_text(b@, pos as int), |x: Vec<char>| x@),
{
    let (n, p) = match get_u32(b, pos) {
        Ok(x) => x,
        Err(e) => {
            return Err(e);
        },
    };
    get_chars(b, p, n)
}

// ---------------------------------------------------------------- field elements

pub open spec fn felts_bytes(fs: Seq<Felt>) -> Seq<u8>
    decreases fs.len(),
{
    if fs.len() == 0 {
        Seq::empty()
    } else {
        felts_bytes(fs.drop_last()) + u64_bytes(fs.last()@)
    }
}

pub open spec fn read_felt(b: Seq<u8>, pos: int) -> Result<(Felt, int), DecodeErrorKind> {
    match read_u64(b, pos) {
        Err(e) => Err(e),
        Ok((v, p)) => if v < MODULUS {
            Ok((felt_from_canonical(v), p))
        } else {
            Err(DecodeErrorKind::InvalidValue)
        },
    }
}

pub open spec fn read_felts(b: Seq<u8>, pos: int, n: int) -> Result<(Seq<Felt>, int), DecodeErrorKind>
    decreases n,
{
    if n <= 0 {
        Ok((Seq::empty(), pos))
    } else {
        match read_felts(b, pos, n - 1) {
            Err(e) => Err(e),
            Ok((s, p)) => match read_felt(b, p) {
                Err(e) => Err(e),
                Ok((f, q)) => Ok((s.push(f), q)),
            },
        }
    }
}

pub proof fn lemma_read_felt(b: Seq<u8>, pos: int, f: Felt)
    requires
        f@ < MODULUS,
        stands_at(b, pos, u64_bytes(f@)),
    ensures
        read_felt(b, pos) == Ok::<(Felt, int), DecodeErrorKind>((f, pos + 8)),
{
    lemma_read_u64(b, pos, f@);
    lemma_felt_view(f, f);
}

pub proof fn lemma_read_felts(b: Seq<u8>, pos: int, fs: Seq<Felt>)
    requires
        canonical_elements(fs),
        stands_at(b, pos, felts_bytes(fs)),
    ensures
        read_felts(b, pos, fs.len() as int) == Ok::<(Seq<Felt>, int), DecodeErrorKind>(
            (fs, pos + felts_bytes(fs).len()),
        ),
    decreases fs.len(),
{
    if fs.len() > 0 {
        let d = fs.drop_last();
        let f = fs.last();
        assert(f == fs[fs.len() - 1]);
        lemma_stands_split(b, pos, felts_bytes(d), u64_bytes(f@));
        assert forall|i: int| 0 <= i < d.len() implies (#[trigger] d[i])@ < MODULUS by {
            assert(d[i] == fs[i]);
        }
        lemma_read_felts(b, pos, d);
        lemma_read_felt(b, pos + felts_bytes(d).len(), f);
        assert(u64_bytes(f@).len() == 8);
        assert(read_felt(b, pos + felts_bytes(d).len()) == Ok::<(Felt, int), DecodeErrorKind>((f, pos + felts_bytes(d).len() + 8)));
        assert(read_felts(b, pos, d.len() as int) == Ok::<(Seq<Felt>, int), DecodeErrorKind>((d, pos + felts_bytes(d).len())));
        assert(d.push(f) == fs);
    } else {
        assert(fs =~= Seq::empty());
    }
}

pub proof fn lemma_read_felts_error(b: Seq<u8>, pos: int, k: int, n: int)
    requires
        0 <= k <= n,
        read_felts(b, pos, k) is Err,
    ensures
        read_felts(b, pos, n) == read_felts(b, pos, k),
    decreases n - k,
{
    if k < n {
        lemma_read_felts_error(b, pos, k, n - 1);
    }
}

pub fn write_felts(out: &mut Vec<u8>, fs: &Vec<Felt>)
    ensures
        final(out)@ == old(out)@ + felts_bytes(fs@),
{
    let ghost before = out@;
    let mut i: usize = 0;
    while i < fs.len()
        invariant
            i <= fs@.len(),
            out@ == before + felts_bytes(fs@.take(i as int)),
        decreases fs@.len() - i,
    {
        write_u64(out, fs[i].as_int());
        proof {
            let t = fs@.take(i + 1);
            assert(t.drop_last() == fs@.take(i as int));
            assert(t.last() == fs@[i as int]);
        }
        i = i + 1;
        assert(out@ =~= before + felts_bytes(fs@.take(i as int)));
    }
    assert(fs@.take(i as int) == fs@);
}

pub fn get_felt(b: &[u8], pos: usize) -> (r: Result<(Felt, usize), DecodeError>)
    ensures
        read_agrees(r, read_felt(b@, pos as int), |x: Felt| x),
        r matches Ok((f, _)) ==> f@ < MODULUS,
{
    let (v, p) = match get_u64(b, pos) {
        Ok(x) => x,
        Err(e) => {
            return Err(e);
        },
    };
    if v < MODULUS {
        let f = Felt::new(v);
        proof {
            lemma_felt_from_canonical(v);
            lemma_felt_view(f, felt_from_canonical(v));
        }
        Ok((f, p))
    } else {
        fail(DecodeErrorKind::InvalidValue, pos)
    }
}

pub fn get_felts(b: &[u8], pos: usize, n: u8) -> (r: Result<(Vec<Felt>, usize), DecodeError>)
    requires
        pos <= b@.len(),
    ensures
        read_agrees(r, read_felts(b@, pos as int, n as int), |x: Vec<Felt>| x@),
        r matches Ok((_, q)) ==> pos <= q <= b@.len(),
{
    let mut out: Vec<Felt> = Vec::new();
    let mut p = pos;
    let mut k: u8 = 0;
    while k < n
        invariant
            k <= n,
            pos <= p <= b@.len(),
            read_felts(b@, pos as int, k as int) == Ok::<(Seq<Felt>, int), DecodeErrorKind>((out@, p as int)),
        decreases n - k,
    {
        let (f, q) = match get_felt(b, p) {
            Ok(x) => x,
            Err(e) => {
                proof {
                    lemma_read_felts_error(b@, pos as int, k as int + 1, n as int);
                }
                return Err(e);
            },
        };
        out.push(f);
        p = q;
        k = k + 1;
    }
    Ok((out, p))
}

// ---------------------------------------------------------------- instructions

pub open spec fn operand_bytes(o: Operand) -> Seq<u8> {
    match o {
        Operand::Empty => Seq::empty(),
        Operand::Byte(n) => seq![n],
        Operand::Half(n) => u16_bytes(n),
        Operand::Word(n) => u32_bytes(n),
        Operand::Element(f) => u64_bytes(f@),
        Operand::Elements(fs) => seq![fs.len() as u8] + felts_bytes(fs),
        Operand::WordPair(a, n) => u32_bytes(a) + u32_bytes(n),
        Operand::Id(id) => u64_bytes(id.lo) + u64_bytes(id.mid) + u64_bytes(id.hi),
    }
}

pub open spec fn instruction_bytes(i: InstructionView) -> Seq<u8> {
    seq![i.opcode] + operand_bytes(i.operand)
}

pub open spec fn read_id(b: Seq<u8>, pos: int) -> Result<(ProcedureId, int), DecodeErrorKind> {
    match read_u64(b, pos) {
        Err(e) => Err(e),
        Ok((lo, p1)) => match read_u64(b, p1) {
            Err(e) => Err(e),
            Ok((mid, p2)) => match read_u64(b, p2) {
                Err(e) => Err(e),
                Ok((hi, p3)) => Ok((ProcedureId { lo, mid, hi }, p3)),
            },
        },
    }
}

/// Reads the operand that `opcode` takes.
pub open spec fn read_operand(b: Seq<u8>, pos: int, opcode: u8) -> Result<(Operand, int), DecodeErrorKind> {
    if opcode < FIRST_BYTE_OP {
        Ok((Operand::Empty, pos))
    } else if opcode < FIRST_HALF_OP {
        match read_u8(b, pos) {
            Err(e) => Err(e),
            Ok((n, p)) => Ok((Operand::Byte(n), p)),
        }
    } else if opcode < FIRST_WORD_OP {
        match read_u16(b, pos) {
            Err(e) => Err(e),
            Ok((n, p)) => Ok((Operand::Half(n), p)),
        }
    } else if opcode < FIRST_ELEMENT_OP {
        match read_u32(b, pos) {
            Err(e) => Err(e),
            Ok((n, p)) => Ok((Operand::Word(n), p)),
        }
    } else if opcode < OP_PUSH_CONSTANTS {
        match read_felt(b, pos) {
            Err(e) => Err(e),
            Ok((f, p)) => Ok((Operand::Element(f), p)),
        }
    } else if opcode == OP_PUSH_CONSTANTS {
        match read_u8(b, pos) {
            Err(e) => Err(e),
            Ok((n, p)) => if n < 1 || n > MAX_PUSH_VALUES {
                Err(DecodeErrorKind::InvalidValue)
            } else {
                match read_felts(b, p, n as int) {
                    Err(e) => Err(e),
                    Ok((fs, q)) => Ok((Operand::Elements(fs), q)),
                }
            },
        }
    } else if opcode == OP_ADV_MEM {
        match read_u32(b, pos) {
            Err(e) => Err(e),
            Ok((a, p)) => match read_u32(b, p) {
                Err(e) => Err(e),
                Ok((n, q)) => Ok((Operand::WordPair(a, n), q)),
            },
        }
    } else if opcode == OP_EXEC_IMPORTED {
        match read_id(b, pos) {
            Err(e) => Err(e),
            Ok((id, p)) => Ok((Operand::Id(id), p)),
        }
    } else {
        Err(DecodeErrorKind::UnknownTag)
    }
}

pub open spec fn read_instruction(b: Seq<u8>, pos: int) -> Result<(InstructionView, int), DecodeErrorKind> {
    match read_u8(b, pos) {
        Err(e) => Err(e),
        Ok((op, p)) => match read_operand(b, p, op) {
            Err(e) => Err(e),
            Ok((o, q)) => Ok((instruction_view(op, o), q)),
        },
    }
}

pub proof fn lemma_read_operand(b: Seq<u8>, pos: int, opcode: u8, o: Operand)
    requires
        operand_fits(opcode, o),
        stands_at(b, pos, operand_bytes(o)),
    ensures
        read_operand(b, pos, opcode) == Ok::<(Operand, int), DecodeErrorKind>(
            (o, pos + operand_bytes(o).len()),
        ),
{
    match o {
        Operand::Empty => {},
        Operand::Byte(n) => {
            assert(b[pos] == b.subrange(pos, pos + 1)[0]);
        },
        Operand::Half(n) => {
            lemma_read_u16(b, pos, n);
        },
        Operand::Word(n) => {
            lemma_read_u32(b, pos, n);
        },
        Operand::Element(f) => {
            lemma_read_felt(b, pos, f);
        },
        Operand::Elements(fs) => {
            lemma_stands_split(b, pos, seq![fs.len() as u8], felts_bytes(fs));
            assert(b[pos] == b.subrange(pos, pos + 1)[0]);
            lemma_read_felts(b, pos + 1, fs);
        },
        Operand::WordPair(a, n) => {
            lemma_stands_split(b, pos, u32_bytes(a), u32_bytes(n));
            lemma_read_u32(b, pos, a);
            lemma_read_u32(b, pos + 4, n);
        },
        Operand::Id(id) => {
            lemma_stands_split(b, pos, u64_bytes(id.lo) + u64_bytes(id.mid), u64_bytes(id.hi));
            lemma_stands_split(b, pos, u64_bytes(id.lo), u64_bytes(id.mid));
            lemma_read_u64(b, pos, id.lo);
            lemma_read_u64(b, pos + 8, id.mid);
            lemma_read_u64(b, pos + 16, id.hi);
        },
    }
}

pub proof fn lemma_read_instruction(b: Seq<u8>, pos: int, i: InstructionView)
    requires
        operand_fits(i.opcode, i.operand),
        stands_at(b, pos, instruction_bytes(i)),
    ensures
        read_instruction(b, pos) == Ok::<(InstructionView, int), DecodeErrorKind>(
            (i, pos + instruction_bytes(i).len()),
        ),
{
    lemma_stands_split(b, pos, seq![i.opcode], operand_bytes(i.operand));
    assert(b[pos] == b.subrange(pos, pos + 1)[0]);
    lemma_read_operand(b, pos + 1, i.opcode, i.operand);
}

pub fn write_instruction(out: &mut Vec<u8>, i: &Instruction)
    requires
        operand_fits(i@.opcode, i@.operand),
    ensures
        final(out)@ == old(out)@ + instruction_bytes(i@),
{
    let ghost before = out@;
    let (op, operand) = i.split();
    write_u8(out, op);
    match &operand {
        OperandValue::Empty => {},
        OperandValue::Byte(n) => {
            write_u8(out, *n);
        },
        OperandValue::Half(n) => {
            write_u16(out, *n);
        },
        OperandValue::Word(n) => {
            write_u32(out, *n);
        },
        OperandValue::Element(f) => {
            write_u64(out, f.as_int());
        },
        OperandValue::Elements(fs) => {
            write_u8(out, fs.len() as u8);
            write_felts(out, fs);
        },
        OperandValue::WordPair(a, n) => {
            write_u32(out, *a);
            write_u32(out, *n);
        },
        OperandValue::Id(id) => {
            write_u64(out, id.lo);
            write_u64(out, id.mid);
            write_u64(out, id.hi);
        },
    }
    assert(out@ =~= before + instruction_bytes(i@));
}

pub fn get_instruction(b: &[u8], pos: usize) -> (r: Result<(Instruction, usize), DecodeError>)
    ensures
        read_agrees(r, read_instruction(b@, pos as int), |x: Instruction| x@),
        r matches Ok((_, q)) ==> pos < q <= b@.len(),
{
    let (op, p) = match get_u8(b, pos) {
        Ok(x) => x,
        Err(e) => {
            return Err(e);
        },
    };
    let (operand, q): (OperandValue, usize) = if op < FIRST_BYTE_OP {
        (OperandValue::Empty, p)
    } else if op < FIRST_HALF_OP {
        match get_u8(b, p) {
            Ok((n, q)) => (OperandValue::Byte(n), q),
            Err(e) => {
                return Err(e);
            },
        }
    } else if op < FIRST_WORD_OP {
        match get_u16(b, p) {
            Ok((n, q)) => (OperandValue::Half(n), q),
            Err(e) => {
                return Err(e);
            },
        }
    } else if op < FIRST_ELEMENT_OP {
        match get_u32(b, p) {
            Ok((n, q)) => (OperandValue::Word(n), q),
            Err(e) => {
                return Err(e);
            },
        }
    } else if op < OP_PUSH_CONSTANTS {
        match get_felt(b, p) {
            Ok((f, q)) => (OperandValue::Element(f), q),
            Err(e) => {
                return Err(e);
            },
        }
    } else if op == OP_PUSH_CONSTANTS {
        let (n, p1) = match get_u8(b, p) {
            Ok(x) => x,
            Err(e) => {
                return Err(e);
            },
        };
        if n < 1 || n as usize > MAX_PUSH_VALUES {
            return fail(DecodeErrorKind::InvalidValue, p);
        }
        match get_felts(b, p1, n) {
            Ok((fs, q)) => (OperandValue::Elements(fs), q),
            Err(e) => {
                return Err(e);
            },
        }
    } else if op == OP_ADV_MEM {
        let (a, p1) = match get_u32(b, p) {
            Ok(x) => x,
            Err(e) => {
                return Err(e);
            },
        };
        match get_u32(b, p1) {
            Ok((n, q)) => (OperandValue::WordPair(a, n), q),
            Err(e) => {
                return Err(e);
            },
        }
    } else if op == OP_EXEC_IMPORTED {
        let (lo, p1) = match get_u64(b, p) {
            Ok(x) => x,
            Err(e) => {
                return Err(e);
            },
        };
        let (mid, p2) = match get_u64(b, p1) {
            Ok(x) => x,
            Err(e) => {
                return Err(e);
            },
        };
        match get_u64(b, p2) {
            Ok((hi, q)) => (OperandValue::Id(ProcedureId { lo, mid, hi }), q),
            Err(e) => {
                return Err(e);
            },
        }
    } else {
        return fail(DecodeErrorKind::UnknownTag, pos);
    };
    Ok((Instruction::build(op, operand), q))
}

// ---------------------------------------------------------------- nodes

pub const NODE_INSTRUCTION: u8 = 0;
pub const NODE_IF_ELSE: u8 = 1;
pub const NODE_REPEAT: u8 = 2;
pub const NODE_WHILE: u8 = 3;

pub open spec fn node_bytes(n: NodeView) -> Seq<u8>
    decreases n,
{
    match n {
        NodeView::Op(i) => seq![NODE_INSTRUCTION] + instruction_bytes(i),
        NodeView::IfElse(t, f) => seq![NODE_IF_ELSE] + u32_bytes(t.len() as u32) + list_bytes(t) + u32_bytes(
            f.len() as u32,
        ) + list_bytes(f),
        NodeView::Repeat(k, b) => seq![NODE_REPEAT] + u32_bytes(k) + u32_bytes(b.len() as u32) + list_bytes(b),
        NodeView::While(b) => seq![NODE_WHILE] + u32_bytes(b.len() as u32) + list_bytes(b),
    }
}

/// The nodes one after the other, without a count.
pub open spec fn list_bytes(s: Seq<NodeView>) -> Seq<u8>
    decreases s,
{
    if s.len() == 0 {
        Seq::empty()
    } else {
        list_bytes(s.drop_last()) + node_bytes(s.last())
    }
}

/// The node can be encoded: its operands fit their opcodes and every sequence
/// of children has a count that fits in four bytes.
pub open spec fn node_fits(n: NodeView) -> bool
    decreases n,
{
    match n {
        NodeView::Op(i) => operand_fits(i.opcode, i.operand),
        NodeView::IfElse(t, f) => list_fits(t) && list_fits(f),
        NodeView::Repeat(_, b) => list_fits(b),
        NodeView::While(b) => list_fits(b),
    }
}

pub open spec fn list_fits(s: Seq<NodeView>) -> bool
    decreases s,
{
    s.len() <= u32::MAX && (s.len() == 0 || (list_fits(s.drop_last()) && node_fits(s.last())))
}

pub open spec fn read_node(b: Seq<u8>, pos: int) -> Result<(NodeView, int), DecodeErrorKind>
    decreases b.len() - pos, 0int, 0int,
{
    if !(0 <= pos < b.len()) {
        Err(DecodeErrorKind::Truncated)
    } else {
        let tag = b[pos];
        if tag == NODE_INSTRUCTION {
            match read_instruction(b, pos + 1) {
                Err(e) => Err(e),
                Ok((i, p)) => Ok((NodeView::Op(i), p)),
            }
        } else if tag == NODE_IF_ELSE {
            match read_u32(b, pos + 1) {
                Err(e) => Err(e),
                Ok((n, p1)) => match read_list(b, p1, n as int) {
                    Err(e) => Err(e),
                    Ok((t, p2)) => if !(p1 <= p2 <= b.len()) {
                        Err(DecodeErrorKind::Truncated)
                    } else {
                        match read_u32(b, p2) {
                            Err(e) => Err(e),
                            Ok((m, p3)) => match read_list(b, p3, m as int) {
                                Err(e) => Err(e),
                                Ok((f, p4)) => Ok((NodeView::IfElse(t, f), p4)),
                            },
                        }
                    },
                },
            }
        } else if tag == NODE_REPEAT {
            match read_u32(b, pos + 1) {
                Err(e) => Err(e),
                Ok((k, p1)) => match read_u32(b, p1) {
                    Err(e) => Err(e),
                    Ok((n, p2)) => match read_list(b, p2, n as int) {
                        Err(e) => Err(e),
                        Ok((body, p3)) => Ok((NodeView::Repeat(k, body), p3)),
                    },
                },
            }
        } else if tag == NODE_WHILE {
            match read_u32(b, pos + 1) {
                Err(e) => Err(e),
                Ok((n, p1)) => match read_list(b, p1, n as int) {
                    Err(e) => Err(e),
                    Ok((body, p2)) => Ok((NodeView::While(body), p2)),
                },
            }
        } else {
            Err(DecodeErrorKind::UnknownTag)
        }
    }
}

/// Reads `n` nodes one after the other.
pub open spec fn read_list(b: Seq<u8>, pos: int, n: int) -> Result<(Seq<NodeView>, int), DecodeErrorKind>
    decreases b.len() - pos, 1int, n,
{
    if n <= 0 {
        Ok((Seq::empty(), pos))
    } else {
        match read_list(b, pos, n - 1) {
            Err(e) => Err(e),
            Ok((s, p)) => if !(pos <= p <= b.len()) {
                Err(DecodeErrorKind::Truncated)
            } else {
                match read_node(b, p) {
                    Err(e) => Err(e),
                    Ok((x, q)) => Ok((s.push(x), q)),
                }
            },
        }
    }
}

pub proof fn lemma_read_node(b: Seq<u8>, pos: int, n: NodeView)
    requires
        node_fits(n),
        stands_at(b, pos, node_bytes(n)),
    ensures
        read_node(b, pos) == Ok::<(NodeView, int), DecodeErrorKind>((n, pos + node_bytes(n).len())),
    decreases n,
{
    match n {
        NodeView::Op(i) => {
            lemma_stands_split(b, pos, seq![NODE_INSTRUCTION], instruction_bytes(i));
            assert(b[pos] == b.subrange(pos, pos + 1)[0]);
            lemma_read_instruction(b, pos + 1, i);
        },
        NodeView::IfElse(t, f) => {
            let x1 = seq![NODE_IF_ELSE];
            let x2 = u32_bytes(t.len() as u32);
            let x3 = list_bytes(t);
            let x4 = u32_bytes(f.len() as u32);
            let x5 = list_bytes(f);
            lemma_stands_split(b, pos, x1 + x2 + x3 + x4, x5);
            lemma_stands_split(b, pos, x1 + x2 + x3, x4);
            lemma_stands_split(b, pos, x1 + x2, x3);
            lemma_stands_split(b, pos, x1, x2);
            assert(b[pos] == b.subrange(pos, pos + 1)[0]);
            lemma_read_u32(b, pos + 1, t.len() as u32);
            lemma_read_list(b, pos + 5, t);
            lemma_read_u32(b, pos + 5 + x3.len(), f.len() as u32);
            lemma_read_list(b, pos + 9 + x3.len(), f);
        },
        NodeView::Repeat(k, body) => {
            let x1 = seq![NODE_REPEAT];
            let x2 = u32_bytes(k);
            let x3 = u32_bytes(body.len() as u32);
            let x4 = list_bytes(body);
            lemma_stands_split(b, pos, x1 + x2 + x3, x4);
            lemma_stands_split(b, pos, x1 + x2, x3);
            lemma_stands_split(b, pos, x1, x2);
            assert(b[pos] == b.subrange(pos, pos + 1)[0]);
            lemma_read_u32(b, pos + 1, k);
            lemma_read_u32(b, pos + 5, body.len() as u32);
            lemma_read_list(b, pos + 9, body);
        },
        NodeView::While(body) => {
            let x1 = seq![NODE_WHILE];
            let x2 = u32_bytes(body.len() as u32);
            let x3 = list_bytes(body);
            lemma_stands_split(b, pos, x1 + x2, x3);
            lemma_stands_split(b, pos, x1, x2);
            assert(b[pos] == b.subrange(pos, pos + 1)[0]);
            lemma_read_u32(b, pos + 1, body.len() as u32);
            lemma_read_list(b, pos + 5, body);
        },
    }
}

pub proof fn lemma_read_list(b: Seq<u8>, pos: int, s: Seq<NodeView>)
    requires
        list_fits(s),
        stands_at(b, pos, list_bytes(s)),
    ensures
        read_list(b, pos, s.len() as int) == Ok::<(Seq<NodeView>, int), DecodeErrorKind>(
            (s, pos + list_bytes(s).len()),
        ),
    decreases s,
{
    if s.len() > 0 {
        let d = s.drop_last();
        let x = s.last();
        lemma_stands_split(b, pos, list_bytes(d), node_bytes(x));
        lemma_read_list(b, pos, d);
        lemma_read_node(b, pos + list_bytes(d).len(), x);
        assert(d.push(x) == s);
    } else {
        assert(s =~= Seq::empty());
    }
}

/// Every node of a sequence that fits fits too.
pub proof fn lemma_list_fits(s: Seq<NodeView>)
    requires
        list_fits(s),
    ensures
        forall|i: int| 0 <= i < s.len() ==> node_fits(#[trigger] s[i]),
    decreases s.len(),
{
    if s.len() > 0 {
        lemma_list_fits(s.drop_last());
        assert forall|i: int| 0 <= i < s.len() implies node_fits(#[trigger] s[i]) by {
            if i < s.len() - 1 {
                assert(s[i] == s.drop_last()[i]);
            }
        }
    }
}

pub fn write_node(out: &mut Vec<u8>, n: &Node)
    requires
        node_fits(n@),
    ensures
        final(out)@ == old(out)@ + node_bytes(n@),
    decreases n,
{
    let ghost before = out@;
    match n {
        Node::Instruction(i) => {
            write_u8(out, NODE_INSTRUCTION);
            write_instruction(out, i);
        },
        Node::IfElse(t, f) => {
            proof {
                lemma_nodes_view_index(t@);
                lemma_nodes_view_index(f@);
            }
            write_u8(out, NODE_IF_ELSE);
            write_u32(out, t.len() as u32);
            write_list(out, t);
            write_u32(out, f.len() as u32);
            write_list(out, f);
        },
        Node::Repeat(k, b) => {
            proof {
                lemma_nodes_view_index(b@);
            }
            write_u8(out, NODE_REPEAT);
            write_u32(out, *k);
            write_u32(out, b.len() as u32);
            write_list(out, b);
        },
        Node::While(b) => {
            proof {
                lemma_nodes_view_index(b@);
            }
            write_u8(out, NODE_WHILE);
            write_u32(out, b.len() as u32);
            write_list(out, b);
        },
    }
    assert(out@ =~= before + node_bytes(n@));
}

pub fn write_list(out: &mut Vec<u8>, s: &Vec<Node>)
    requires
        list_fits(nodes_view(s@)),
    ensures
        final(out)@ == old(out)@ + list_bytes(nodes_view(s@)),
    decreases s,
{
    proof {
        lemma_nodes_view_index(s@);
        lemma_list_fits(nodes_view(s@));
    }
    let ghost before = out@;
    let mut i: usize = 0;
    while i < s.len()
        invariant
            i <= s@.len(),
            forall|k: int| 0 <= k < s@.len() ==> node_fits((#[trigger] s@[k])@),
            out@ == before + list_bytes(nodes_view(s@.take(i as int))),
        decreases s@.len() - i,
    {
        proof {
            assert(decreases_to!(s => s@[i as int]));
            assert(node_fits(s@[i as int]@));
        }
        write_node(out, &s[i]);
        proof {
            let t = s@.take(i + 1);
            assert(t.drop_last() == s@.take(i as int));
            assert(nodes_view(t).drop_last() == nodes_view(s@.take(i as int)));
            assert(nodes_view(t).last() == s@[i as int]@);
        }
        i = i + 1;
        assert(out@ =~= before + list_bytes(nodes_view(s@.take(i as int))));
    }
    assert(s@.take(i as int) == s@);
}

pub fn get_node(b: &[u8], pos: usize) -> (r: Result<(Node, usize), DecodeError>)
    ensures
        read_agrees(r, read_node(b@, pos as int), |x: Node| x@),
        r matches Ok((_, q)) ==> pos < q <= b@.len(),
    decreases b@.len() - pos, 0int, 0int,
{
    if pos >= b.len() {
        return fail(DecodeErrorKind::Truncated, pos);
    }
    let tag = b[pos];
    if tag == NODE_INSTRUCTION {
        match get_instruction(b, pos + 1) {
            Ok((i, p)) => Ok((Node::Instruction(i), p)),
            Err(e) => Err(e),
        }
    } else if tag == NODE_IF_ELSE {
        let (n, p1) = match get_u32(b, pos + 1) {
            Ok(x) => x,
            Err(e) => {
                return Err(e);
            },
        };
        let (t, p2) = match get_list(b, p1, n) {
            Ok(x) => x,
            Err(e) => {
                return Err(e);
            },
        };
        let (m, p3) = match get_u32(b, p2) {
            Ok(x) => x,
            Err(e) => {
                return Err(e);
            },
        };
        let (f, p4) = match get_list(b, p3, m) {
            Ok(x) => x,
            Err(e) => {
                return Err(e);
            },
        };
        Ok((Node::IfElse(t, f), p4))
    } else if tag == NODE_REPEAT {
        let (k, p1) = match get_u32(b, pos + 1) {
            Ok(x) => x,
            Err(e) => {
                return Err(e);
            },
        };
        let (n, p2) = match get_u32(b, p1) {
            Ok(x) => x,
            Err(e) => {
                return Err(e);
            },
        };
        let (body, p3) = match get_list(b, p2, n) {
            Ok(x) => x,
            Err(e) => {
                return Err(e);
            },
        };
        Ok((Node::Repeat(k, body), p3))
    } else if tag == NODE_WHILE {
        let (n, p1) = match get_u32(b, pos + 1) {
            Ok(x) => x,
            Err(e) => {
                return Err(e);
            },
        };
        let (body, p2) = match get_list(b, p1, n) {
            Ok(x) => x,
            Err(e) => {
                return Err(e);
            },
        };
        Ok((Node::While(body), p2))
    } else {
        fail(DecodeErrorKind::UnknownTag, pos)
    }
}

pub fn get_list(b: &[u8], pos: usize, n: u32) -> (r: Result<(Vec<Node>, usize), DecodeError>)
    requires
        pos <= b@.len(),
    ensures
        read_agrees(r, read_list(b@, pos as int, n as int), |x: Vec<Node>| nodes_view(x@)),
        r matches Ok((_, q)) ==> pos <= q <= b@.len(),
    decreases b@.len() - pos, 1int, n,
{
    let mut out: Vec<Node> = Vec::new();
    let mut p = pos;
    let mut k: u32 = 0;
    assert(nodes_view(out@) =~= Seq::<NodeView>::empty());
    while k < n
        invariant
            k <= n,
            pos <= p <= b@.len(),
            read_list(b@, pos as int, k as int) == Ok::<(Seq<NodeView>, int), DecodeErrorKind>(
                (nodes_view(out@), p as int),
            ),
        decreases n - k,
    {
        let (x, q) = match get_node(b, p) {
            Ok(v) => v,
            Err(e) => {
                proof {
                    lemma_read_list_error(b@, pos as int, k as int + 1, n as int);
                }
                return Err(e);
            },
        };
        let ghost prev = out@;
        out.push(x);
        proof {
            assert(out@.drop_last() == prev);
        }
        p = q;
        k = k + 1;
    }
    Ok((out, p))
}

pub proof fn lemma_read_list_error(b: Seq<u8>, pos: int, k: int, n: int)
    requires
        0 <= k <= n,
        read_list(b, pos, k) is Err,
    ensures
        read_list(b, pos, n) == read_list(b, pos, k),
    decreases n - k,
{
    if k < n {
        lemma_read_list_error(b, pos, k, n - 1);
    }
}

// ---------------------------------------------------------------- procedures

pub open spec fn docs_bytes(d: Option<Seq<char>>) -> Seq<u8> {
    match d {
        None => seq![0u8],
        Some(t) => seq![1u8] + text_bytes(t),
    }
}

pub open spec fn flag_byte(b: bool) -> u8 {
    if b {
        1
    } else {
        0
    }
}

pub open spec fn proc_bytes(p: ProcedureView) -> Seq<u8> {
    text_bytes(p.name) + seq![flag_byte(p.is_export)] + u16_bytes(p.num_locals) + docs_bytes(p.docs)
        + u32_bytes(p.body.len() as u32) + list_bytes(p.body)
}

/// The procedures one after the other, without a count.
pub open spec fn procs_bytes(s: Seq<ProcedureView>) -> Seq<u8>
    decreases s.len(),
{
    if s.len() == 0 {
        Seq::empty()
    } else {
        procs_bytes(s.drop_last()) + proc_bytes(s.last())
    }
}

/// The procedure can be encoded: its texts and its body have lengths that fit in
/// four bytes.
pub open spec fn proc_fits(p: ProcedureView) -> bool {
    &&& p.name.len() <= u32::MAX
    &&& (p.docs matches Some(d) ==> d.len() <= u32::MAX)
    &&& list_fits(p.body)
}

pub open spec fn procs_fit(s: Seq<ProcedureView>) -> bool {
    s.len() <= u32::MAX && forall|i: int| 0 <= i < s.len() ==> proc_fits(#[trigger] s[i])
}

pub open spec fn read_flag(b: Seq<u8>, pos: int) -> Result<(bool, int), DecodeErrorKind> {
    match read_u8(b, pos) {
        Err(e) => Err(e),
        Ok((v, p)) => if v == 0 {
            Ok((false, p))
        } else if v == 1 {
            Ok((true, p))
        } else {
            Err(DecodeErrorKind::UnknownTag)
        },
    }
}

pub open spec fn read_docs(b: Seq<u8>, pos: int) -> Result<(Option<Seq<char>>, int), DecodeErrorKind> {
    match read_flag(b, pos) {
        Err(e) => Err(e),
        Ok((present, p)) => if !present {
            Ok((None, p))
        } else {
            match read_text(b, p) {
                Err(e) => Err(e),
                Ok((t, q)) => Ok((Some(t), q)),
            }
        },
    }
}

pub open spec fn read_proc(b: Seq<u8>, pos: int) -> Result<(ProcedureView, int), DecodeErrorKind> {
    match read_text(b, pos) {
        Err(e) => Err(e),
        Ok((name, p1)) => match read_flag(b, p1) {
            Err(e) => Err(e),
            Ok((is_export, p2)) => match read_u16(b, p2) {
                Err(e) => Err(e),
                Ok((num_locals, p3)) => match read_docs(b, p3) {
                    Err(e) => Err(e),
                    Ok((docs, p4)) => match read_u32(b, p4) {
                        Err(e) => Err(e),
                        Ok((n, p5)) => match read_list(b, p5, n as int) {
                            Err(e) => Err(e),
                            Ok((body, p6)) => Ok((ProcedureView { name, docs, is_export, num_locals, body }, p6)),
                        },
                    },
                },
            },
        },
    }
}

pub open spec fn read_procs(b: Seq<u8>, pos: int, n: int) -> Result<(Seq<ProcedureView>, int), DecodeErrorKind>
    decreases n,
{
    if n <= 0 {
        Ok((Seq::empty(), pos))
    } else {
        match read_procs(b, pos, n - 1) {
            Err(e) => Err(e),
            Ok((s, p)) => match read_proc(b, p) {
                Err(e) => Err(e),
                Ok((x, q)) => Ok((s.push(x), q)),
            },
        }
    }
}

pub proof fn lemma_read_proc(b: Seq<u8>, pos: int, p: ProcedureView)
    requires
        proc_fits(p),
        stands_at(b, pos, proc_bytes(p)),
    ensures
        read_proc(b, pos) == Ok::<(ProcedureView, int), DecodeErrorKind>((p, pos + proc_bytes(p).len())),
{
    let x1 = text_bytes(p.name);
    let x2 = seq![flag_byte(p.is_export)];
    let x3 = u16_bytes(p.num_locals);
    let x4 = docs_bytes(p.docs);
    let x5 = u32_bytes(p.body.len() as u32);
    let x6 = list_bytes(p.body);
    lemma_stands_split(b, pos, x1 + x2 + x3 + x4 + x5, x6);
    lemma_stands_split(b, pos, x1 + x2 + x3 + x4, x5);
    lemma_stands_split(b, pos, x1 + x2 + x3, x4);
    lemma_stands_split(b, pos, x1 + x2, x3);
    lemma_stands_split(b, pos, x1, x2);
    lemma_read_text(b, pos, p.name);
    let p1 = pos + x1.len();
    assert(b[p1] == b.subrange(p1, p1 + 1)[0]);
    lemma_read_u16(b, p1 + 1, p.num_locals);
    let p3 = p1 + 3;
    match p.docs {
        None => {
            assert(b[p3] == b.subrange(p3, p3 + 1)[0]);
        },
        Some(d) => {
            lemma_stands_split(b, p3, seq![1u8], text_bytes(d));
            assert(b[p3] == b.subrange(p3, p3 + 1)[0]);
            lemma_read_text(b, p3 + 1, d);
        },
    }
    let p4 = p3 + x4.len();
    lemma_read_u32(b, p4, p.body.len() as u32);
    lemma_read_list(b, p4 + 4, p.body);
}

pub proof fn lemma_read_procs(b: Seq<u8>, pos: int, s: Seq<ProcedureView>)
    requires
        forall|i: int| 0 <= i < s.len() ==> proc_fits(#[trigger] s[i]),
        stands_at(b, pos, procs_bytes(s)),
    ensures
        read_procs(b, pos, s.len() as int) == Ok::<(Seq<ProcedureView>, int), DecodeErrorKind>(
            (s, pos + procs_bytes(s).len()),
        ),
    decreases s.len(),
{
    if s.len() > 0 {
        let d = s.drop_last();
        let x = s.last();
        assert(x == s[s.len() - 1]);
        lemma_stands_split(b, pos, procs_bytes(d), proc_bytes(x));
        assert forall|i: int| 0 <= i < d.len() implies proc_fits(#[trigger] d[i]) by {
            assert(d[i] == s[i]);
        }
        lemma_read_procs(b, pos, d);
        lemma_read_proc(b, pos + procs_bytes(d).len(), x);
        assert(d.push(x) == s);
    } else {
        assert(s =~= Seq::empty());
    }
}

pub proof fn lemma_read_procs_error(b: Seq<u8>, pos: int, k: int, n: int)
    requires
        0 <= k <= n,
        read_procs(b, pos, k) is Err,
    ensures
        read_procs(b, pos, n) == read_procs(b, pos, k),
    decreases n - k,
{
    if k < n {
        lemma_read_procs_error(b, pos, k, n - 1);
    }
}

fn write_proc(out: &mut Vec<u8>, p: &ProcedureAst)
    requires
        proc_fits(p@),
    ensures
        final(out)@ == old(out)@ + proc_bytes(p@),
{
    proof {
        lemma_nodes_view_index(p.body@);
    }
    let ghost before = out@;
    let name = chars_of(p.name.as_str());
    write_text(out, &name);
    write_u8(out, if p.is_export { 1 } else { 0 });
    write_u16(out, p.num_locals);
    let ghost mid = out@;
    match &p.docs {
        None => {
            write_u8(out, 0);
        },
        Some(d) => {
            write_u8(out, 1);
            let text = chars_of(d.as_str());
            write_text(out, &text);
        },
    }
    assert(out@ =~= mid + docs_bytes(p@.docs));
    write_u32(out, p.body.len() as u32);
    write_list(out, &p.body);
    assert(out@ =~= before + proc_bytes(p@));
}

fn get_flag(b: &[u8], pos: usize) -> (r: Result<(bool, usize), DecodeError>)
    ensures
        read_agrees(r, read_flag(b@, pos as int), |x: bool| x),
{
    let (v, p) = match get_u8(b, pos) {
        Ok(x) => x,
        Err(e) => {
            return Err(e);
        },
    };
    if v == 0 {
        Ok((false, p))
    } else if v == 1 {
        Ok((true, p))
    } else {
        fail(DecodeErrorKind::UnknownTag, pos)
    }
}

fn get_proc(b: &[u8], pos: usize) -> (r: Result<(ProcedureAst, usize), DecodeError>)
    ensures
        read_agrees(r, read_proc(b@, pos as int), |x: ProcedureAst| x@),
{
    let (name, p1) = match get_text(b, pos) {
        Ok(x) => x,
        Err(e) => {
            return Err(e);
        },
    };
    let (is_export, p2) = match get_flag(b, p1) {
        Ok(x) => x,
        Err(e) => {
            return Err(e);
        },
    };
    let (num_locals, p3) = match get_u16(b, p2) {
        Ok(x) => x,
        Err(e) => {
            return Err(e);
        },
    };
    let (present, p) = match get_flag(b, p3) {
        Ok(x) => x,
        Err(e) => {
            return Err(e);
        },
    };
    let (docs, p4): (Option<String>, usize) = if present {
        match get_text(b, p) {
            Ok((t, q)) => (Some(string_of(&t)), q),
            Err(e) => {
                return Err(e);
            },
        }
    } else {
        (None, p)
    };
    let (n, p5) = match get_u32(b, p4) {
        Ok(x) => x,
        Err(e) => {
            return Err(e);
        },
    };
    let (body, p6) = match get_list(b, p5, n) {
        Ok(x) => x,
        Err(e) => {
            return Err(e);
        },
    };
    Ok((ProcedureAst { name: string_of(&name), docs, is_export, num_locals, body }, p6))
}

fn get_procs(b: &[u8], pos: usize, n: u32) -> (r: Result<(Vec<ProcedureAst>, usize), DecodeError>)
    ensures
        read_agrees(r, read_procs(b@, pos as int, n as int), |x: Vec<ProcedureAst>| procs_view(x@)),
{
    let mut out: Vec<ProcedureAst> = Vec::new();
    let mut p = pos;
    let mut k: u32 = 0;
    assert(procs_view(out@) =~= Seq::<ProcedureView>::empty());
    while k < n
        invariant
            k <= n,
            read_procs(b@, pos as int, k as int) == Ok::<(Seq<ProcedureView>, int), DecodeErrorKind>(
                (procs_view(out@), p as int),
            ),
        decreases n - k,
    {
        let (x, q) = match get_proc(b, p) {
            Ok(v) => v,
            Err(e) => {
                proof {
                    lemma_read_procs_error(b@, pos as int, k as int + 1, n as int);
                }
                return Err(e);
            },
        };
        let ghost prev = out@;
        out.push(x);
        proof {
            assert(procs_view(out@) =~= procs_view(prev).push(x@));
        }
        p = q;
        k = k + 1;
    }
    Ok((out, p))
}

// ---------------------------------------------------------------- units

pub const PROGRAM_FLAG: u8 = 1;
pub const MODULE_FLAG: u8 = 0;

pub open spec fn program_bytes(p: ProgramView) -> Seq<u8> {
    seq![PROGRAM_FLAG] + u32_bytes(p.procs.len() as u32) + procs_bytes(p.procs) + u32_bytes(
        p.body.len() as u32,
    ) + list_bytes(p.body)
}

pub open spec fn module_bytes(m: ModuleView) -> Seq<u8> {
    seq![MODULE_FLAG] + u32_bytes(m.procs.len() as u32) + procs_bytes(m.procs)
}

pub open spec fn program_fits(p: ProgramView) -> bool {
    procs_fit(p.procs) && list_fits(p.body)
}

pub open spec fn module_fits(m: ModuleView) -> bool {
    procs_fit(m.procs)
}

/// The program that `b` encodes, or why it encodes none.
pub open spec fn program_from_bytes(b: Seq<u8>) -> Result<ProgramView, DecodeErrorKind> {
    match read_u8(b, 0) {
        Err(e) => Err(e),
        Ok((flag, p0)) => if flag != PROGRAM_FLAG {
            Err(DecodeErrorKind::UnknownTag)
        } else {
            match read_u32(b, p0) {
                Err(e) => Err(e),
                Ok((n, p1)) => match read_procs(b, p1, n as int) {
                    Err(e) => Err(e),
                    Ok((procs, p2)) => match read_u32(b, p2) {
                        Err(e) => Err(e),
                        Ok((m, p3)) => match read_list(b, p3, m as int) {
                            Err(e) => Err(e),
                            Ok((body, p4)) => if p4 != b.len() {
                                Err(DecodeErrorKind::TrailingBytes)
                            } else if !program_rules(ProgramView { body, procs }) {
                                Err(DecodeErrorKind::RuleViolation)
                            } else {
                                Ok(ProgramView { body, procs })
                            },
                        },
                    },
                },
            }
        },
    }
}

/// The module that `b` encodes, or why it encodes none.
pub open spec fn module_from_bytes(b: Seq<u8>) -> Result<ModuleView, DecodeErrorKind> {
    match read_u8(b, 0) {
        Err(e) => Err(e),
        Ok((flag, p0)) => if flag != MODULE_FLAG {
            Err(DecodeErrorKind::UnknownTag)
        } else {
            match read_u32(b, p0) {
                Err(e) => Err(e),
                Ok((n, p1)) => match read_procs(b, p1, n as int) {
                    Err(e) => Err(e),
                    Ok((procs, p2)) => if p2 != b.len() {
                        Err(DecodeErrorKind::TrailingBytes)
                    } else if !module_rules(ModuleView { procs }) {
                        Err(DecodeErrorKind::RuleViolation)
                    } else {
                        Ok(ModuleView { procs })
                    },
                },
            }
        },
    }
}

/// The five pieces of `b`, in order, each stand where the ones before it end.
proof fn lemma_five_pieces(b: Seq<u8>, x1: Seq<u8>, x2: Seq<u8>, x3: Seq<u8>, x4: Seq<u8>, x5: Seq<u8>)
    requires
        b == x1 + x2 + x3 + x4 + x5,
    ensures
        stands_at(b, 0, x1),
        stands_at(b, x1.len() as int, x2),
        stands_at(b, (x1.len() + x2.len()) as int, x3),
        stands_at(b, (x1.len() + x2.len() + x3.len()) as int, x4),
        stands_at(b, (x1.len() + x2.len() + x3.len() + x4.len()) as int, x5),
        b.len() == x1.len() + x2.len() + x3.len() + x4.len() + x5.len(),
{
    assert(b.subrange(0, b.len() as int) =~= b);
    lemma_stands_split(b, 0, x1 + x2 + x3 + x4, x5);
    lemma_stands_split(b, 0, x1 + x2 + x3, x4);
    lemma_stands_split(b, 0, x1 + x2, x3);
    lemma_stands_split(b, 0, x1, x2);
}

/// The three pieces of `b`, in order, each stand where the ones before it end.
proof fn lemma_three_pieces(b: Seq<u8>, x1: Seq<u8>, x2: Seq<u8>, x3: Seq<u8>)
    requires
        b == x1 + x2 + x3,
    ensures
        stands_at(b, 0, x1),
        stands_at(b, x1.len() as int, x2),
        stands_at(b, (x1.len() + x2.len()) as int, x3),
        b.len() == x1.len() + x2.len() + x3.len(),
{
    assert(b.subrange(0, b.len() as int) =~= b);
    lemma_stands_split(b, 0, x1 + x2, x3);
    lemma_stands_split(b, 0, x1, x2);
}

/// Decoding the encoding of a valid program gives the program back, documentation
/// and declaration order included.
#[verifier::rlimit(40)]
pub proof fn lemma_program_round_trip(p: ProgramView)
    requires
        program_fits(p),
        program_rules(p),
    ensures
        program_from_bytes(program_bytes(p)) == Ok::<ProgramView, DecodeErrorKind>(p),
{
    let b = program_bytes(p);
    let x3 = procs_bytes(p.procs);
    let x5 = list_bytes(p.body);
    lemma_five_pieces(
        b,
        seq![PROGRAM_FLAG],
        u32_bytes(p.procs.len() as u32),
        x3,
        u32_bytes(p.body.len() as u32),
        x5,
    );
    let p2 = 5 + x3.len() as int;
    assert(b[0] == b.subrange(0, 1)[0]);
    lemma_read_u32(b, 1, p.procs.len() as u32);
    lemma_read_procs(b, 5, p.procs);
    lemma_read_u32(b, p2, p.body.len() as u32);
    lemma_read_list(b, p2 + 4, p.body);
    assert(ProgramView { body: p.body, procs: p.procs } == p);
}

proof fn lemma_module_reads(m: ModuleView)
    requires
        module_fits(m),
    ensures
        read_u8(module_bytes(m), 0) == Ok::<(u8, int), DecodeErrorKind>((MODULE_FLAG, 1)),
        read_u32(module_bytes(m), 1) == Ok::<(u32, int), DecodeErrorKind>((m.procs.len() as u32, 5)),
        read_procs(module_bytes(m), 5, m.procs.len() as int) == Ok::<
            (Seq<ProcedureView>, int),
            DecodeErrorKind,
        >((m.procs, module_bytes(m).len() as int)),
{
    let b = module_bytes(m);
    let x3 = procs_bytes(m.procs);
    lemma_three_pieces(b, seq![MODULE_FLAG], u32_bytes(m.procs.len() as u32), x3);
    assert(b[0] == b.subrange(0, 1)[0]);
    lemma_read_u32(b, 1, m.procs.len() as u32);
    lemma_read_procs(b, 5, m.procs);
}

/// Decoding the encoding of a valid module gives the module back, documentation
/// and declaration order included.
pub proof fn lemma_module_round_trip(m: ModuleView)
    requires
        module_fits(m),
        module_rules(m),
    ensures
        module_from_bytes(module_bytes(m)) == Ok::<ModuleView, DecodeErrorKind>(m),
{
    lemma_module_reads(m);
    assert(ModuleView { procs: m.procs } == m);
}

fn write_procs(out: &mut Vec<u8>, s: &Vec<ProcedureAst>)
    requires
        procs_fit(procs_view(s@)),
    ensures
        final(out)@ == old(out)@ + u32_bytes(s@.len() as u32) + procs_bytes(procs_view(s@)),
{
    let ghost before = out@;
    write_u32(out, s.len() as u32);
    let ghost start = out@;
    let mut i: usize = 0;
    while i < s.len()
        invariant
            i <= s@.len(),
            procs_fit(procs_view(s@)),
            start == before + u32_bytes(s@.len() as u32),
            out@ == start + procs_bytes(procs_view(s@.take(i as int))),
        decreases s@.len() - i,
    {
        assert(proc_fits(procs_view(s@)[i as int]));
        write_proc(out, &s[i]);
        proof {
            let t = s@.take(i + 1);
            assert(procs_view(t).drop_last() =~= procs_view(s@.take(i as int)));
            assert(procs_view(t).last() == s@[i as int]@);
        }
        i = i + 1;
        assert(out@ =~= start + procs_bytes(procs_view(s@.take(i as int))));
    }
    assert(s@.take(i as int) == s@);
}

/// Whether no two procedures share a name.
fn names_distinct(s: &Vec<ProcedureAst>) -> (r: bool)
    ensures
        r == names_unique(procs_view(s@)),
{
    let ghost v = procs_view(s@);
    let mut i: usize = 0;
    while i < s.len()
        invariant
            i <= s@.len(),
            v == procs_view(s@),
            forall|a: int, c: int| 0 <= a < i && 0 <= c < s@.len() && a != c ==> (#[trigger] v[a]).name != (#[trigger] v[c]).name,
        decreases s@.len() - i,
    {
        let mut j: usize = 0;
        while j < s.len()
            invariant
                j <= s@.len(),
                i < s@.len(),
                v == procs_view(s@),
                forall|c: int| 0 <= c < j && c != i ==> v[i as int].name != (#[trigger] v[c]).name,
            decreases s@.len() - j,
        {
            if j != i && s[i].name == s[j].name {
                assert(v[i as int].name == v[j as int].name);
                return false;
            }
            j = j + 1;
        }
        i = i + 1;
    }
    true
}

fn no_exports(s: &Vec<ProcedureAst>) -> (r: bool)
    ensures
        r == (forall|i: int| 0 <= i < s@.len() ==> !(#[trigger] procs_view(s@)[i]).is_export),
{
    let mut i: usize = 0;
    while i < s.len()
        invariant
            i <= s@.len(),
            forall|k: int| 0 <= k < i ==> !(#[trigger] procs_view(s@)[k]).is_export,
        decreases s@.len() - i,
    {
        if s[i].is_export {
            assert(procs_view(s@)[i as int].is_export);
            return false;
        }
        i = i + 1;
    }
    true
}

pub open spec fn program_decode_agrees(r: Result<ProgramAst, DecodeError>, s: Result<ProgramView, DecodeErrorKind>) -> bool {
    match (r, s) {
        (Ok(p), Ok(v)) => p@ == v,
        (Err(e), Err(k)) => e.kind == k,
        _ => false,
    }
}

pub open spec fn module_decode_agrees(r: Result<ModuleAst, DecodeError>, s: Result<ModuleView, DecodeErrorKind>) -> bool {
    match (r, s) {
        (Ok(m), Ok(v)) => m@ == v,
        (Err(e), Err(k)) => e.kind == k,
        _ => false,
    }
}

impl ProgramAst {
    /// The canonical encoding of this program.
    pub fn to_bytes(&self) -> (r: Vec<u8>)
        requires
            program_fits(self@),
        ensures
            r@ == program_bytes(self@),
    {
        proof {
            lemma_nodes_view_index(self.body@);
        }
        let mut out: Vec<u8> = Vec::new();
        write_u8(&mut out, PROGRAM_FLAG);
        write_procs(&mut out, &self.local_procs);
        write_u32(&mut out, self.body.len() as u32);
        write_list(&mut out, &self.body);
        assert(out@ =~= program_bytes(self@));
        out
    }

    /// The program that `bytes` encodes.
    pub fn from_bytes(bytes: &[u8]) -> (r: Result<ProgramAst, DecodeError>)
        ensures
            program_decode_agrees(r, program_from_bytes(bytes@)),
    {
        let (flag, p0) = match get_u8(bytes, 0) {
            Ok(x) => x,
            Err(e) => {
                return Err(e);
            },
        };
        if flag != PROGRAM_FLAG {
            return fail(DecodeErrorKind::UnknownTag, 0);
        }
        let (n, p1) = match get_u32(bytes, p0) {
            Ok(x) => x,
            Err(e) => {
                return Err(e);
            },
        };
        let (procs, p2) = match get_procs(bytes, p1, n) {
            Ok(x) => x,
            Err(e) => {
                return Err(e);
            },
        };
        let (m, p3) = match get_u32(bytes, p2) {
            Ok(x) => x,
            Err(e) => {
                return Err(e);
            },
        };
        let (body, p4) = match get_list(bytes, p3, m) {
            Ok(x) => x,
            Err(e) => {
                return Err(e);
            },
        };
        if p4 != bytes.len() {
            return fail(DecodeErrorKind::TrailingBytes, p4);
        }
        proof {
            lemma_nodes_view_index(body@);
        }
        if body.len() == 0 || !names_distinct(&procs) || !no_exports(&procs) {
            return fail(DecodeErrorKind::RuleViolation, 0);
        }
        Ok(ProgramAst { body, local_procs: procs })
    }
}

impl ModuleAst {
    /// The canonical encoding of this module.
    pub fn to_bytes(&self) -> (r: Vec<u8>)
        requires
            module_fits(self@),
        ensures
            r@ == module_bytes(self@),
    {
        let mut out: Vec<u8> = Vec::new();
        write_u8(&mut out, MODULE_FLAG);
        write_procs(&mut out, &self.local_procs);
        assert(out@ =~= module_bytes(self@));
        out
    }

    /// The module that `bytes` encodes.
    pub fn from_bytes(bytes: &[u8]) -> (r: Result<ModuleAst, DecodeError>)
        ensures
            module_decode_agrees(r, module_from_bytes(bytes@)),
    {
        let (flag, p0) = match get_u8(bytes, 0) {
            Ok(x) => x,
            Err(e) => {
                return Err(e);
            },
        };
        if flag != MODULE_FLAG {
            return fail(DecodeErrorKind::UnknownTag, 0);
        }
        let (n, p1) = match get_u32(bytes, p0) {
            Ok(x) => x,
            Err(e) => {
                return Err(e);
            },
        };
        let (procs, p2) = match get_procs(bytes, p1, n) {
            Ok(x) => x,
            Err(e) => {
                return Err(e);
            },
        };
        if p2 != bytes.len() {
            return fail(DecodeErrorKind::TrailingBytes, p2);
        }
        if !names_distinct(&procs) {
            return fail(DecodeErrorKind::RuleViolation, 0);
        }
        Ok(ModuleAst { local_procs: procs })
    }
}

} // verus!

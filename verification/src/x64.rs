//! The few x64 instructions that the stub is made of, and what they do.

use crate::bytes::{le_digits, le_value, lemma_le_digits_len, pow256, signed32, word32};
use vstd::prelude::*;

verus! {

/// An instruction. Registers go by their number: 0 is rax, 1 rcx, 2 rdx, 3 rbx, 7 rdi, 8 r8.
pub enum Insn {
    PushRbx,
    PushRdi,
    PopRdi,
    PopRbx,
    SubRsp(u8),
    AddRsp(u8),
    /// `mov reg, value`, 64 bits wide.
    MovImm { reg: u8, value: u64 },
    /// `mov dst, src`.
    MovReg { dst: u8, src: u8 },
    /// `mov [dst], src`.
    Store { dst: u8, src: u8 },
    /// `xor dst, src`.
    XorReg { dst: u8, src: u8 },
    CallRax,
    /// `test rax, rax`.
    TestRax,
    /// `jz` with a 32-bit displacement, counted from the end of the instruction.
    Jz(i32),
    Ret,
}

/// The REX prefix of an instruction with a register operand and a register or memory operand.
pub open spec fn rex(reg: u8, rm: u8) -> u8 {
    (0x48 + (if reg >= 8 {
        4int
    } else {
        0
    }) + (if rm >= 8 {
        1int
    } else {
        0
    })) as u8
}

/// The ModRM byte: a mode in the top two bits, then the two registers' low three bits.
pub open spec fn modrm(mode: int, reg: u8, rm: u8) -> u8 {
    (64 * mode + 8 * (reg % 8) + rm % 8) as u8
}

/// The machine code of an instruction.
pub open spec fn encode(i: Insn) -> Seq<u8> {
    match i {
        Insn::PushRbx => seq![0x53u8],
        Insn::PushRdi => seq![0x57u8],
        Insn::PopRdi => seq![0x5Fu8],
        Insn::PopRbx => seq![0x5Bu8],
        Insn::SubRsp(n) => seq![0x48u8, 0x83u8, 0xECu8, n],
        Insn::AddRsp(n) => seq![0x48u8, 0x83u8, 0xC4u8, n],
        Insn::MovImm { reg, value } => seq![
            if reg >= 8 {
                0x49u8
            } else {
                0x48u8
            },
            (0xB8 + reg % 8) as u8,
        ] + le_digits(value as nat, 8),
        Insn::MovReg { dst, src } => seq![rex(src, dst), 0x89u8, modrm(3, src, dst)],
        Insn::Store { dst, src } => seq![rex(src, dst), 0x89u8, modrm(0, src, dst)],
        Insn::XorReg { dst, src } => seq![rex(src, dst), 0x31u8, modrm(3, src, dst)],
        Insn::CallRax => seq![0xFFu8, 0xD0u8],
        Insn::TestRax => seq![0x48u8, 0x85u8, 0xC0u8],
        Insn::Jz(d) => seq![0x0Fu8, 0x84u8] + le_digits(word32(d) as nat, 4),
        Insn::Ret => seq![0xC3u8],
    }
}

/// The machine code of a program.
pub open spec fn assemble(p: Seq<Insn>) -> Seq<u8>
    decreases p.len(),
{
    if p.len() == 0 {
        Seq::empty()
    } else {
        assemble(p.drop_last()) + encode(p.last())
    }
}

/// One instruction more of a program is its machine code more.
pub proof fn lemma_assemble_take(p: Seq<Insn>, k: int)
    requires
        0 <= k < p.len(),
    ensures
        assemble(p.take(k + 1)) == assemble(p.take(k)) + encode(p[k]),
{
    assert(p.take(k + 1).drop_last() =~= p.take(k));
}

/// One instruction behind a program.
pub proof fn lemma_assemble_one(p: Seq<Insn>, i: Insn)
    ensures
        assemble(p + seq![i]) == assemble(p) + encode(i),
{
    assert((p + seq![i]).drop_last() =~= p);
}

/// The machine code of two programs in a row.
pub proof fn lemma_assemble_add(p: Seq<Insn>, q: Seq<Insn>)
    ensures
        assemble(p + q) == assemble(p) + assemble(q),
    decreases q.len(),
{
    if q.len() == 0 {
        assert(p + q =~= p);
        assert(assemble(p) + assemble(q) =~= assemble(p));
    } else {
        lemma_assemble_add(p, q.drop_last());
        assert((p + q).drop_last() =~= p + q.drop_last());
        assert(assemble(p + q) =~= assemble(p) + assemble(q));
    }
}

// ---------------------------------------------------------------------------
// Reading machine code
// ---------------------------------------------------------------------------
/// The register that a low part of three bits and an extension bit name.
pub open spec fn register(low: int, extended: bool) -> u8 {
    (if extended {
        low + 8
    } else {
        low
    }) as u8
}

/// An instruction with a REX prefix, an opcode and a ModRM byte, at `at`.
pub open spec fn decode_rex(code: Seq<u8>, at: int) -> Option<Insn> {
    let r = code[at] == 0x4C || code[at] == 0x4D;
    let b = code[at] == 0x49 || code[at] == 0x4D;
    let op = code[at + 1];
    if !r && 0xB8 <= op <= 0xBF {
        if at + 10 <= code.len() {
            Some(
                Insn::MovImm {
                    reg: register(op - 0xB8, b),
                    value: le_value(code.subrange(at + 2, at + 10)) as u64,
                },
            )
        } else {
            None
        }
    } else if at + 3 > code.len() {
        None
    } else {
        let m = code[at + 2];
        let src = register((m / 8) as int % 8, r);
        let dst = register(m as int % 8, b);
        if op == 0x89 && m >= 0xC0 {
            Some(Insn::MovReg { dst, src })
        } else if op == 0x89 && m < 0x40 && m % 8 != 4 && m % 8 != 5 {
            Some(Insn::Store { dst, src })
        } else if op == 0x31 && m >= 0xC0 {
            Some(Insn::XorReg { dst, src })
        } else if code[at] == 0x48 && op == 0x85 && m == 0xC0 {
            Some(Insn::TestRax)
        } else if code[at] == 0x48 && op == 0x83 && m == 0xEC && at + 4 <= code.len() {
            Some(Insn::SubRsp(code[at + 3]))
        } else if code[at] == 0x48 && op == 0x83 && m == 0xC4 && at + 4 <= code.len() {
            Some(Insn::AddRsp(code[at + 3]))
        } else {
            None
        }
    }
}

/// The instruction that a processor reads at `at`, if it is one of those known here.
pub open spec fn decode(code: Seq<u8>, at: int) -> Option<Insn> {
    if at < 0 || at >= code.len() {
        None
    } else if code[at] == 0x53 {
        Some(Insn::PushRbx)
    } else if code[at] == 0x57 {
        Some(Insn::PushRdi)
    } else if code[at] == 0x5F {
        Some(Insn::PopRdi)
    } else if code[at] == 0x5B {
        Some(Insn::PopRbx)
    } else if code[at] == 0xC3 {
        Some(Insn::Ret)
    } else if at + 2 > code.len() {
        None
    } else if code[at] == 0xFF && code[at + 1] == 0xD0 {
        Some(Insn::CallRax)
    } else if code[at] == 0x0F && code[at + 1] == 0x84 && at + 6 <= code.len() {
        Some(Insn::Jz(signed32(le_value(code.subrange(at + 2, at + 6)) as u32)))
    } else if code[at] == 0x48 || code[at] == 0x49 || code[at] == 0x4C || code[at] == 0x4D {
        decode_rex(code, at)
    } else {
        None
    }
}

/// Whether the encoding of an instruction means that instruction: its registers exist, and
/// no memory operand goes by rsp, rbp, r12 or r13, for which the encoding has another use.
pub open spec fn plain(i: Insn) -> bool {
    match i {
        Insn::MovImm { reg, value } => reg < 16,
        Insn::MovReg { dst, src } => dst < 16 && src < 16,
        Insn::XorReg { dst, src } => dst < 16 && src < 16,
        Insn::Store { dst, src } => dst < 16 && src < 16 && dst % 8 != 4 && dst % 8 != 5,
        _ => true,
    }
}

/// The bytes of `e` stand in `code` at `at`.
spec fn stands(code: Seq<u8>, at: int, e: Seq<u8>) -> bool {
    &&& 0 <= at
    &&& at + e.len() <= code.len()
    &&& code.subrange(at, at + e.len()) == e
}

/// What `stands` says of single bytes and of a part.
proof fn lemma_stands(code: Seq<u8>, at: int, e: Seq<u8>, from: int)
    requires
        stands(code, at, e),
        0 <= from <= e.len(),
    ensures
        forall|k: int| 0 <= k < e.len() ==> #[trigger] code[at + k] == e[k],
        code.subrange(at + from, at + e.len()) == e.subrange(from, e.len() as int),
{
    let part = code.subrange(at, at + e.len());
    assert forall|k: int| 0 <= k < e.len() implies #[trigger] code[at + k] == e[k] by {
        assert(part[k] == code[at + k]);
    }
    assert(part.subrange(from, e.len() as int) =~= code.subrange(at + from, at + e.len()));
}

/// The parts of a ModRM byte and of its REX prefix.
proof fn lemma_modrm(mode: int, reg: u8, rm: u8)
    requires
        mode == 0 || mode == 3,
        reg < 16,
        rm < 16,
    ensures
        (modrm(mode, reg, rm) / 8) as int % 8 == reg % 8,
        modrm(mode, reg, rm) as int % 8 == rm % 8,
        mode == 3 <==> modrm(mode, reg, rm) >= 0xC0,
        mode == 0 <==> modrm(mode, reg, rm) < 0x40,
        register(reg as int % 8, reg >= 8) == reg,
        register(rm as int % 8, rm >= 8) == rm,
        rex(reg, rm) == 0x48 || rex(reg, rm) == 0x49 || rex(reg, rm) == 0x4C || rex(reg, rm)
            == 0x4D,
        reg >= 8 <==> rex(reg, rm) == 0x4C || rex(reg, rm) == 0x4D,
        rm >= 8 <==> rex(reg, rm) == 0x49 || rex(reg, rm) == 0x4D,
{
    let m = 64 * mode + 8 * (reg % 8) + rm % 8;
    assert(0 <= m < 256);
    assert(m / 8 == 8 * mode + reg % 8);
}

/// Reads back an instruction with two register operands.
proof fn lemma_decode_regs(code: Seq<u8>, at: int, op: u8, mode: int, dst: u8, src: u8)
    requires
        stands(code, at, seq![rex(src, dst), op, modrm(mode, src, dst)]),
        op == 0x89 || (op == 0x31 && mode == 3),
        mode == 3 || (mode == 0 && dst % 8 != 4 && dst % 8 != 5),
        dst < 16,
        src < 16,
    ensures
        decode(code, at) == Some(
            if op == 0x31 {
                Insn::XorReg { dst, src }
            } else if mode == 3 {
                Insn::MovReg { dst, src }
            } else {
                Insn::Store { dst, src }
            },
        ),
{
    let e = seq![rex(src, dst), op, modrm(mode, src, dst)];
    lemma_stands(code, at, e, 0);
    lemma_modrm(mode, src, dst);
    assert(code[at + 0] == e[0]);
    assert(code[at + 1] == e[1]);
    assert(code[at + 2] == e[2]);
}

/// Reads back a `mov` of a constant.
proof fn lemma_decode_imm(code: Seq<u8>, at: int, reg: u8, value: u64)
    requires
        stands(code, at, encode(Insn::MovImm { reg, value })),
        reg < 16,
    ensures
        decode(code, at) == Some(Insn::MovImm { reg, value }),
{
    let e = encode(Insn::MovImm { reg, value });
    lemma_le_digits_len(value as nat, 8);
    lemma_stands(code, at, e, 2);
    assert(e.subrange(2, 10) =~= le_digits(value as nat, 8));
    assert(pow256(8) == 0x1_0000_0000_0000_0000) by {
        reveal_with_fuel(pow256, 9);
    }
    crate::bytes::law_decode_of_encode(value as nat, 8);
    assert(code[at + 0] == e[0]);
    assert(code[at + 1] == e[1]);
}

/// Reads back a jump.
proof fn lemma_decode_jz(code: Seq<u8>, at: int, d: i32)
    requires
        stands(code, at, encode(Insn::Jz(d))),
    ensures
        decode(code, at) == Some(Insn::Jz(d)),
{
    let e = encode(Insn::Jz(d));
    lemma_le_digits_len(word32(d) as nat, 4);
    lemma_stands(code, at, e, 2);
    assert(e.subrange(2, 6) =~= le_digits(word32(d) as nat, 4));
    assert(pow256(4) == 0x1_0000_0000) by {
        reveal_with_fuel(pow256, 5);
    }
    crate::bytes::law_decode_of_encode(word32(d) as nat, 4);
    crate::bytes::law_signed_words(word32(d), d);
    assert(code[at + 0] == e[0]);
    assert(code[at + 1] == e[1]);
}

/// Machine code reads back as the instruction that it was made from, whatever stands around
/// it.
pub proof fn law_decode_of_encode(code: Seq<u8>, at: int, i: Insn)
    requires
        plain(i),
        0 <= at,
        at + encode(i).len() <= code.len(),
        code.subrange(at, at + encode(i).len()) == encode(i),
    ensures
        decode(code, at) == Some(i),
{
    let e = encode(i);
    match i {
        Insn::MovImm { reg, value } => {
            lemma_decode_imm(code, at, reg, value);
        },
        Insn::Jz(d) => {
            lemma_decode_jz(code, at, d);
        },
        Insn::MovReg { dst, src } => {
            lemma_decode_regs(code, at, 0x89, 3, dst, src);
        },
        Insn::Store { dst, src } => {
            lemma_decode_regs(code, at, 0x89, 0, dst, src);
        },
        Insn::XorReg { dst, src } => {
            lemma_decode_regs(code, at, 0x31, 3, dst, src);
        },
        _ => {
            lemma_stands(code, at, e, 0);
            assert(e.len() > 0 ==> code[at + 0] == e[0]);
            assert(e.len() > 1 ==> code[at + 1] == e[1]);
            assert(e.len() > 2 ==> code[at + 2] == e[2]);
            assert(e.len() > 3 ==> code[at + 3] == e[3]);
        },
    }
}

} // verus!

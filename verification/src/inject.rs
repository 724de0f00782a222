//! The x64 stub that asks the mono runtime, inside the target process, where a field lies.
//!
//! The stub only queries metadata: it looks up a class and a field and leaves their
//! addresses in the memory block that it runs in. Everything else is done from outside by
//! reading and writing memory, so that no game logic ever runs on a foreign thread.
//!
//! The code is position independent only in the sense that every absolute address in it is
//! known when it is generated: the block is allocated first and filled afterwards.

use crate::bytes::{
    le_digits, lemma_le_digits_len, low_word, signed32, to_signed32, to_word32, u32_to_le,
    u64_to_le, word32,
};
use crate::mono::MonoFunctions;
use crate::remote::{
    answers, ask_flow, follows, opening, read_u64_flow, write_flow, Answer, Ask, Flow, Halt,
    Overflow, Progress, Reply, Request, RunResult, Stop, Talk, Transcript,
};
use crate::text::{hex, hex_text};
use crate::win32::{error_text, last_error, run_remote, run_text};
use crate::x64::{
    assemble, encode, lemma_assemble_add, lemma_assemble_one, lemma_assemble_take, rex, Insn,
};
use vstd::prelude::*;
use vstd::string::*;
use vstd::utf8::encode_utf8;

verus! {

/// Size of the block that is allocated in the target.
pub const BLOCK_SIZE: u64 = 0x1000;

// The layout of the block: the code comes first, then constants, then result slots.
pub const OFF_CODE: u64 = 0x000;

pub const OFF_STR_IMAGE: u64 = 0x200;

pub const OFF_STR_NS: u64 = 0x220;

pub const OFF_STR_CLASS: u64 = 0x240;

pub const OFF_STR_FIELD: u64 = 0x260;

pub const OFF_SLOT_KLASS: u64 = 0x300;

pub const OFF_SLOT_OFFSET: u64 = 0x308;

pub const OFF_SLOT_VTABLE: u64 = 0x310;

pub const OFF_SLOT_STATIC: u64 = 0x318;

// ---------------------------------------------------------------------------
// The blocks of instructions that the stub is made of
// ---------------------------------------------------------------------------
/// `push rbx; push rdi; sub rsp, 0x28`.
pub open spec fn prologue_insns() -> Seq<Insn> {
    seq![Insn::PushRbx, Insn::PushRdi, Insn::SubRsp(0x28)]
}

/// Undoes the prologue and returns 0.
pub open spec fn epilogue_insns() -> Seq<Insn> {
    seq![
        Insn::AddRsp(0x28),
        Insn::PopRdi,
        Insn::PopRbx,
        Insn::XorReg { dst: 0, src: 0 },
        Insn::Ret,
    ]
}

/// `mono_thread_attach(mono_get_root_domain())`, the thread kept in rdi.
pub open spec fn thread_attach_insns(fns: MonoFunctions) -> Seq<Insn> {
    seq![
        Insn::MovImm { reg: 0, value: fns.get_root_domain },
        Insn::CallRax,
        Insn::MovReg { dst: 1, src: 0 },
        Insn::MovImm { reg: 0, value: fns.thread_attach },
        Insn::CallRax,
        Insn::MovReg { dst: 7, src: 0 },
    ]
}

/// `mono_thread_detach(rdi)`.
pub open spec fn thread_detach_insns(fns: MonoFunctions) -> Seq<Insn> {
    seq![
        Insn::MovReg { dst: 1, src: 7 },
        Insn::MovImm { reg: 0, value: fns.thread_detach },
        Insn::CallRax,
    ]
}

// ---------------------------------------------------------------------------
// The emitter
// ---------------------------------------------------------------------------
/// Emits the handful of x64 instructions that the stub needs.
pub struct Asm {
    pub code: Vec<u8>,
}

impl Asm {
    /// An emitter that has emitted nothing.
    pub fn new() -> (r: Self)
        ensures
            r.code@ == Seq::<u8>::empty(),
    {
        Self { code: Vec::new() }
    }

    /// Emits one byte.
    pub fn b(&mut self, x: u8)
        ensures
            final(self).code@ == old(self).code@.push(x),
    {
        self.code.push(x);
    }

    /// Emits several bytes.
    pub fn bs(&mut self, x: &[u8])
        ensures
            final(self).code@ == old(self).code@ + x@,
    {
        let mut i: usize = 0;
        while i < x.len()
            invariant
                i <= x.len(),
                self.code@ == old(self).code@ + x@.take(i as int),
            decreases x.len() - i,
        {
            self.code.push(x[i]);
            assert(x@.take(i + 1) =~= x@.take(i as int).push(x[i as int]));
            i = i + 1;
        }
        assert(x@.take(x.len() as int) =~= x@);
    }

    /// `mov r64, imm64`.
    pub fn mov_imm(&mut self, reg: u8, value: u64)
        ensures
            final(self).code@ == old(self).code@ + encode(Insn::MovImm { reg, value }),
            final(self).code@.len() == old(self).code@.len() + 10,
    {
        let prefix: u8 = if reg >= 8 {
            0x49
        } else {
            0x48
        };
        self.b(prefix);
        self.b(0xB8 + (reg % 8));
        let bytes: Vec<u8> = u64_to_le(value);
        self.bs(bytes.as_slice());
        proof {
            lemma_le_digits_len(value as nat, 8);
            assert(self.code@ =~= old(self).code@ + encode(Insn::MovImm { reg, value }));
        }
    }

    /// The REX prefix for a register operand and a register or memory operand.
    fn rex_prefix(reg: u8, rm: u8) -> (r: u8)
        ensures
            r == rex(reg, rm),
    {
        0x48 + (if reg >= 8 {
            4
        } else {
            0
        }) + (if rm >= 8 {
            1
        } else {
            0
        })
    }

    /// `mov dst, src`, 64 bits wide, register to register.
    pub fn mov_rr(&mut self, dst: u8, src: u8)
        ensures
            final(self).code@ == old(self).code@ + encode(Insn::MovReg { dst, src }),
            final(self).code@.len() == old(self).code@.len() + 3,
    {
        self.b(Self::rex_prefix(src, dst));
        self.b(0x89);
        // ModRM: mod = 11, reg = source, rm = destination
        self.b(0xC0 + (src % 8) * 8 + (dst % 8));
        assert(self.code@ =~= old(self).code@ + encode(Insn::MovReg { dst, src }));
    }

    /// `mov [dst], src`.
    pub fn mov_store(&mut self, dst: u8, src: u8)
        ensures
            final(self).code@ == old(self).code@ + encode(Insn::Store { dst, src }),
            final(self).code@.len() == old(self).code@.len() + 3,
    {
        self.b(Self::rex_prefix(src, dst));
        self.b(0x89);
        // ModRM: mod = 00 (memory at the register), reg = source, rm = destination
        self.b((src % 8) * 8 + (dst % 8));
        assert(self.code@ =~= old(self).code@ + encode(Insn::Store { dst, src }));
    }

    /// Writes a register to the absolute address `addr`, by way of rcx.
    pub fn store_to(&mut self, addr: u64, src: u8)
        ensures
            final(self).code@ == old(self).code@ + encode(Insn::MovImm { reg: 1, value: addr })
                + encode(Insn::Store { dst: 1, src }),
            final(self).code@.len() == old(self).code@.len() + 13,
    {
        self.mov_imm(1, addr);
        self.mov_store(1, src);
    }

    /// `xor dst, src`, 64 bits wide.
    pub fn xor_rr(&mut self, dst: u8, src: u8)
        ensures
            final(self).code@ == old(self).code@ + encode(Insn::XorReg { dst, src }),
            final(self).code@.len() == old(self).code@.len() + 3,
    {
        self.b(Self::rex_prefix(src, dst));
        self.b(0x31);
        self.b(0xC0 + (src % 8) * 8 + (dst % 8));
        assert(self.code@ =~= old(self).code@ + encode(Insn::XorReg { dst, src }));
    }

    /// `call rax`.
    pub fn call_rax(&mut self)
        ensures
            final(self).code@ == old(self).code@ + encode(Insn::CallRax),
            final(self).code@.len() == old(self).code@.len() + 2,
    {
        self.b(0xFF);
        self.b(0xD0);
        assert(self.code@ =~= old(self).code@ + encode(Insn::CallRax));
    }

    /// `test rax, rax`.
    pub fn test_rax(&mut self)
        ensures
            final(self).code@ == old(self).code@ + encode(Insn::TestRax),
            final(self).code@.len() == old(self).code@.len() + 3,
    {
        self.b(0x48);
        self.b(0x85);
        self.b(0xC0);
        assert(self.code@ =~= old(self).code@ + encode(Insn::TestRax));
    }

    /// `jz rel32` with a displacement of 0, to be filled in by `patch_jz_to`. Returns where
    /// the displacement starts.
    ///
    /// The first guard of the stub has to skip some two hundred bytes, more than a rel8
    /// displacement reaches.
    pub fn jz_placeholder(&mut self) -> (r: usize)
        ensures
            final(self).code@ == old(self).code@ + encode(Insn::Jz(0)),
            final(self).code@.len() == old(self).code@.len() + 6,
            r == old(self).code@.len() + 2,
    {
        self.b(0x0F);
        self.b(0x84);
        let at: usize = self.code.len();
        let bytes: Vec<u8> = u32_to_le(0);
        self.bs(bytes.as_slice());
        proof {
            lemma_le_digits_len(0, 4);
            assert(self.code@ =~= old(self).code@ + encode(Insn::Jz(0)));
        }
        at
    }

    /// Points the `jz` whose displacement starts at `at` to the position `target`.
    pub fn patch_jz_to(&mut self, at: usize, target: usize)
        requires
            at + 4 <= old(self).code@.len(),
            i32::MIN <= target - (at + 4) <= i32::MAX,
        ensures
            final(self).code@ == old(self).code@.take(at as int) + le_digits(
                word32((target - (at + 4)) as i32) as nat,
                4,
            ) + old(self).code@.skip(at + 4),
            final(self).code@.len() == old(self).code@.len(),
    {
        let len: usize = self.code.len();
        assert(at + 4 <= len);
        // the displacement counts from the instruction behind the jump
        let next: usize = at + 4;
        let rel: i32 = if target >= next {
            (target - next) as i32
        } else {
            (-((next - target) as i64)) as i32
        };
        let bytes: Vec<u8> = u32_to_le(to_word32(rel));
        proof {
            lemma_le_digits_len(word32(rel) as nat, 4);
        }
        self.code[at] = bytes[0];
        self.code[at + 1] = bytes[1];
        self.code[at + 2] = bytes[2];
        self.code[at + 3] = bytes[3];
        assert(self.code@ =~= old(self).code@.take(at as int) + bytes@ + old(self).code@.skip(
            at + 4,
        ));
    }

    /// `push rbx; push rdi; sub rsp, 0x28`.
    ///
    /// On entry rsp is 8 modulo 16, because the call pushed a return address. Two pushes and
    /// 0x28 more bytes bring it to 0 modulo 16, as a Win64 call needs it, with room for the
    /// 32 bytes of shadow space.
    pub fn prologue(&mut self)
        ensures
            final(self).code@ == old(self).code@ + assemble(prologue_insns()),
            final(self).code@.len() == old(self).code@.len() + 6,
    {
        self.b(0x53);
        self.b(0x57);
        self.b(0x48);
        self.b(0x83);
        self.b(0xEC);
        self.b(0x28);
        proof {
            let q = prologue_insns();
            lemma_assemble_take(q, 0);
            lemma_assemble_take(q, 1);
            lemma_assemble_take(q, 2);
            assert(q.take(3) =~= q);
            assert(self.code@ =~= old(self).code@ + assemble(q));
        }
    }

    /// Undoes the prologue and returns 0, as a thread procedure does.
    pub fn epilogue(&mut self)
        ensures
            final(self).code@ == old(self).code@ + assemble(epilogue_insns()),
            final(self).code@.len() == old(self).code@.len() + 10,
    {
        self.b(0x48);
        self.b(0x83);
        self.b(0xC4);
        self.b(0x28);
        self.b(0x5F);
        self.b(0x5B);
        self.xor_rr(0, 0);
        self.b(0xC3);
        proof {
            let q = epilogue_insns();
            lemma_assemble_take(q, 0);
            lemma_assemble_take(q, 1);
            lemma_assemble_take(q, 2);
            lemma_assemble_take(q, 3);
            lemma_assemble_take(q, 4);
            assert(q.take(5) =~= q);
            assert(self.code@ =~= old(self).code@ + assemble(q));
        }
    }

    /// `mono_thread_attach(mono_get_root_domain())`, the thread kept in rdi.
    pub fn thread_attach(&mut self, fns: &MonoFunctions)
        ensures
            final(self).code@ == old(self).code@ + assemble(thread_attach_insns(*fns)),
            final(self).code@.len() == old(self).code@.len() + 30,
    {
        self.mov_imm(0, fns.get_root_domain);
        self.call_rax();
        self.mov_rr(1, 0);
        self.mov_imm(0, fns.thread_attach);
        self.call_rax();
        self.mov_rr(7, 0);
        proof {
            let q = thread_attach_insns(*fns);
            lemma_assemble_take(q, 0);
            lemma_assemble_take(q, 1);
            lemma_assemble_take(q, 2);
            lemma_assemble_take(q, 3);
            lemma_assemble_take(q, 4);
            lemma_assemble_take(q, 5);
            assert(q.take(6) =~= q);
            assert(self.code@ =~= old(self).code@ + assemble(q));
        }
    }

    /// `mono_thread_detach(rdi)`, so that no thread object of mono is leaked.
    pub fn thread_detach(&mut self, fns: &MonoFunctions)
        ensures
            final(self).code@ == old(self).code@ + assemble(thread_detach_insns(*fns)),
            final(self).code@.len() == old(self).code@.len() + 15,
    {
        self.mov_rr(1, 7);
        self.mov_imm(0, fns.thread_detach);
        self.call_rax();
        proof {
            let q = thread_detach_insns(*fns);
            lemma_assemble_take(q, 0);
            lemma_assemble_take(q, 1);
            lemma_assemble_take(q, 2);
            assert(q.take(3) =~= q);
            assert(self.code@ =~= old(self).code@ + assemble(q));
        }
    }
}

// ---------------------------------------------------------------------------
// The stub
// ---------------------------------------------------------------------------
/// `image = mono_image_loaded("Assembly-CSharp")`.
pub open spec fn image_insns(fns: MonoFunctions, base: u64) -> Seq<Insn> {
    seq![
        Insn::MovImm { reg: 1, value: (base + OFF_STR_IMAGE) as u64 },
        Insn::MovImm { reg: 0, value: fns.image_loaded },
        Insn::CallRax,
        Insn::TestRax,
    ]
}

/// `klass = mono_class_from_name(image, "", class)`.
pub open spec fn class_insns(fns: MonoFunctions, base: u64) -> Seq<Insn> {
    seq![
        Insn::MovReg { dst: 3, src: 0 },
        Insn::MovReg { dst: 1, src: 3 },
        Insn::MovImm { reg: 2, value: (base + OFF_STR_NS) as u64 },
        Insn::MovImm { reg: 8, value: (base + OFF_STR_CLASS) as u64 },
        Insn::MovImm { reg: 0, value: fns.class_from_name },
        Insn::CallRax,
        Insn::TestRax,
    ]
}

/// Keeps the class, then `field = mono_class_get_field_from_name(klass, field)`.
pub open spec fn field_insns(fns: MonoFunctions, base: u64) -> Seq<Insn> {
    seq![
        Insn::MovReg { dst: 3, src: 0 },
        Insn::MovImm { reg: 1, value: (base + OFF_SLOT_KLASS) as u64 },
        Insn::Store { dst: 1, src: 3 },
        Insn::MovReg { dst: 1, src: 3 },
        Insn::MovImm { reg: 2, value: (base + OFF_STR_FIELD) as u64 },
        Insn::MovImm { reg: 0, value: fns.class_get_field_from_name },
        Insn::CallRax,
        Insn::TestRax,
    ]
}

/// Keeps `mono_field_get_offset(field)`, then
/// `vtable = mono_class_vtable(mono_get_root_domain(), klass)`.
pub open spec fn vtable_insns(fns: MonoFunctions, base: u64) -> Seq<Insn> {
    seq![
        Insn::MovReg { dst: 1, src: 0 },
        Insn::MovImm { reg: 0, value: fns.field_get_offset },
        Insn::CallRax,
        Insn::MovImm { reg: 1, value: (base + OFF_SLOT_OFFSET) as u64 },
        Insn::Store { dst: 1, src: 0 },
        Insn::MovImm { reg: 0, value: fns.get_root_domain },
        Insn::CallRax,
        Insn::MovReg { dst: 1, src: 0 },
        Insn::MovReg { dst: 2, src: 3 },
        Insn::MovImm { reg: 0, value: fns.class_vtable },
        Insn::CallRax,
        Insn::TestRax,
    ]
}

/// Keeps the vtable and `mono_vtable_get_static_field_data(vtable)`.
pub open spec fn static_insns(fns: MonoFunctions, base: u64) -> Seq<Insn> {
    seq![
        Insn::MovReg { dst: 3, src: 0 },
        Insn::MovImm { reg: 1, value: (base + OFF_SLOT_VTABLE) as u64 },
        Insn::Store { dst: 1, src: 3 },
        Insn::MovReg { dst: 1, src: 3 },
        Insn::MovImm { reg: 0, value: fns.vtable_get_static_field_data },
        Insn::CallRax,
        Insn::MovImm { reg: 1, value: (base + OFF_SLOT_STATIC) as u64 },
        Insn::Store { dst: 1, src: 0 },
    ]
}

/// The whole stub. Behind the queries for the image, the class, the field and the vtable stands
/// a guard each, which skips to the detaching and the return where the answer is null.
pub open spec fn resolve_program(fns: MonoFunctions, base: u64) -> Seq<Insn> {
    prologue_insns() + thread_attach_insns(fns) + image_insns(fns, base) + seq![Insn::Jz(208)]
        + class_insns(fns, base) + seq![Insn::Jz(161)] + field_insns(fns, base) + seq![
        Insn::Jz(111),
    ] + vtable_insns(fns, base) + seq![Insn::Jz(44)] + static_insns(fns, base)
        + thread_detach_insns(fns) + epilogue_insns()
}

/// A generated stub: its machine code and where its guards are.
pub struct Stub {
    pub code: Vec<u8>,
    /// Where the displacement of each `jz` starts.
    pub jumps: Vec<usize>,
    /// Where all of them lead.
    pub guard_target: usize,
}

/// Filling in the displacement of a jump makes it the jump with that displacement.
proof fn lemma_patch(p: Seq<u8>, q: Seq<u8>, d: i32)
    ensures
        (p + encode(Insn::Jz(0)) + q).take(p.len() as int + 2) + le_digits(word32(d) as nat, 4) + (p
            + encode(Insn::Jz(0)) + q).skip(p.len() as int + 6) == p + encode(Insn::Jz(d)) + q,
{
    lemma_le_digits_len(0, 4);
    lemma_le_digits_len(word32(d) as nat, 4);
    let whole = p + encode(Insn::Jz(0)) + q;
    assert(whole.take(p.len() as int + 2) =~= p + seq![0x0Fu8, 0x84u8]);
    assert(whole.skip(p.len() as int + 6) =~= q);
    assert(whole.take(p.len() as int + 2) + le_digits(word32(d) as nat, 4) + q =~= p + encode(
        Insn::Jz(d),
    ) + q);
}

impl Asm {
    /// Asks for the image.
    fn image_query(&mut self, fns: &MonoFunctions, base: u64)
        requires
            base + OFF_SLOT_STATIC <= u64::MAX,
        ensures
            final(self).code@ == old(self).code@ + assemble(image_insns(*fns, base)),
            final(self).code@.len() == old(self).code@.len() + 25,
    {
        self.mov_imm(1, base + OFF_STR_IMAGE);
        self.mov_imm(0, fns.image_loaded);
        self.call_rax();
        self.test_rax();
        proof {
            let q = image_insns(*fns, base);
            lemma_assemble_take(q, 0);
            lemma_assemble_take(q, 1);
            lemma_assemble_take(q, 2);
            lemma_assemble_take(q, 3);
            assert(q.take(4) =~= q);
            assert(self.code@ =~= old(self).code@ + assemble(q));
        }
    }

    /// Asks for the class.
    fn class_query(&mut self, fns: &MonoFunctions, base: u64)
        requires
            base + OFF_SLOT_STATIC <= u64::MAX,
        ensures
            final(self).code@ == old(self).code@ + assemble(class_insns(*fns, base)),
            final(self).code@.len() == old(self).code@.len() + 41,
    {
        self.mov_rr(3, 0);
        self.mov_rr(1, 3);
        self.mov_imm(2, base + OFF_STR_NS);
        self.mov_imm(8, base + OFF_STR_CLASS);
        self.mov_imm(0, fns.class_from_name);
        self.call_rax();
        self.test_rax();
        proof {
            let q = class_insns(*fns, base);
            lemma_assemble_take(q, 0);
            lemma_assemble_take(q, 1);
            lemma_assemble_take(q, 2);
            lemma_assemble_take(q, 3);
            lemma_assemble_take(q, 4);
            lemma_assemble_take(q, 5);
            lemma_assemble_take(q, 6);
            assert(q.take(7) =~= q);
            assert(self.code@ =~= old(self).code@ + assemble(q));
        }
    }

    /// Keeps the class and asks for the field.
    fn field_query(&mut self, fns: &MonoFunctions, base: u64)
        requires
            base + OFF_SLOT_STATIC <= u64::MAX,
        ensures
            final(self).code@ == old(self).code@ + assemble(field_insns(*fns, base)),
            final(self).code@.len() == old(self).code@.len() + 44,
    {
        self.mov_rr(3, 0);
        self.store_to(base + OFF_SLOT_KLASS, 3);
        self.mov_rr(1, 3);
        self.mov_imm(2, base + OFF_STR_FIELD);
        self.mov_imm(0, fns.class_get_field_from_name);
        self.call_rax();
        self.test_rax();
        proof {
            let q = field_insns(*fns, base);
            lemma_assemble_take(q, 0);
            lemma_assemble_take(q, 1);
            lemma_assemble_take(q, 2);
            lemma_assemble_take(q, 3);
            lemma_assemble_take(q, 4);
            lemma_assemble_take(q, 5);
            lemma_assemble_take(q, 6);
            lemma_assemble_take(q, 7);
            assert(q.take(8) =~= q);
            assert(self.code@ =~= old(self).code@ + assemble(q));
        }
    }

    /// Keeps the offset and asks for the vtable.
    fn vtable_query(&mut self, fns: &MonoFunctions, base: u64)
        requires
            base + OFF_SLOT_STATIC <= u64::MAX,
        ensures
            final(self).code@ == old(self).code@ + assemble(vtable_insns(*fns, base)),
            final(self).code@.len() == old(self).code@.len() + 61,
    {
        self.mov_rr(1, 0);
        self.mov_imm(0, fns.field_get_offset);
        self.call_rax();
        self.store_to(base + OFF_SLOT_OFFSET, 0);
        self.mov_imm(0, fns.get_root_domain);
        self.call_rax();
        self.mov_rr(1, 0);
        self.mov_rr(2, 3);
        self.mov_imm(0, fns.class_vtable);
        self.call_rax();
        self.test_rax();
        proof {
            let q = vtable_insns(*fns, base);
            lemma_assemble_take(q, 0);
            lemma_assemble_take(q, 1);
            lemma_assemble_take(q, 2);
            lemma_assemble_take(q, 3);
            lemma_assemble_take(q, 4);
            lemma_assemble_take(q, 5);
            lemma_assemble_take(q, 6);
            lemma_assemble_take(q, 7);
            lemma_assemble_take(q, 8);
            lemma_assemble_take(q, 9);
            lemma_assemble_take(q, 10);
            lemma_assemble_take(q, 11);
            assert(q.take(12) =~= q);
            assert(self.code@ =~= old(self).code@ + assemble(q));
        }
    }

    /// Keeps the vtable and the static data.
    fn static_query(&mut self, fns: &MonoFunctions, base: u64)
        requires
            base + OFF_SLOT_STATIC <= u64::MAX,
        ensures
            final(self).code@ == old(self).code@ + assemble(static_insns(*fns, base)),
            final(self).code@.len() == old(self).code@.len() + 44,
    {
        self.mov_rr(3, 0);
        self.store_to(base + OFF_SLOT_VTABLE, 3);
        self.mov_rr(1, 3);
        self.mov_imm(0, fns.vtable_get_static_field_data);
        self.call_rax();
        self.store_to(base + OFF_SLOT_STATIC, 0);
        proof {
            let q = static_insns(*fns, base);
            lemma_assemble_take(q, 0);
            lemma_assemble_take(q, 1);
            lemma_assemble_take(q, 2);
            lemma_assemble_take(q, 3);
            lemma_assemble_take(q, 4);
            lemma_assemble_take(q, 5);
            lemma_assemble_take(q, 6);
            lemma_assemble_take(q, 7);
            assert(q.take(8) =~= q);
            assert(self.code@ =~= old(self).code@ + assemble(q));
        }
    }
}

/// Generates the stub that resolves a field, for a block that starts at `base`.
pub fn build_resolve_code(fns: &MonoFunctions, base: u64) -> (r: Stub)
    requires
        base + OFF_SLOT_STATIC <= u64::MAX,
    ensures
        r.code@ == assemble(resolve_program(*fns, base)),
        r.code@.len() == 300,
        r.jumps@ == seq![63usize, 110, 160, 227],
        r.guard_target == 275,
{
    let mut a: Asm = Asm::new();
    a.prologue();
    a.thread_attach(fns);

    // image = mono_image_loaded("Assembly-CSharp")
    a.image_query(fns, base);
    let ghost p1 = a.code@;
    let j1: usize = a.jz_placeholder();

    // klass = mono_class_from_name(image, "", class), kept in rbx
    a.class_query(fns, base);
    let ghost p2 = a.code@;
    let j2: usize = a.jz_placeholder();

    // field = mono_class_get_field_from_name(klass, field)
    a.field_query(fns, base);
    let ghost p3 = a.code@;
    let j3: usize = a.jz_placeholder();

    // offset = mono_field_get_offset(field)
    a.vtable_query(fns, base);
    let ghost p4 = a.code@;
    let j4: usize = a.jz_placeholder();

    // static = mono_vtable_get_static_field_data(vtable)
    a.static_query(fns, base);

    // the guards lead here: no null image, class, field or vtable goes into the next function
    let guard_target: usize = a.code.len();
    let ghost qb = assemble(class_insns(*fns, base));
    let ghost qc = assemble(field_insns(*fns, base));
    let ghost qd = assemble(vtable_insns(*fns, base));
    let ghost qe = assemble(static_insns(*fns, base));
    let ghost z = encode(Insn::Jz(0));
    proof {
        lemma_le_digits_len(0, 4);
        assert(p1.len() == 61 && p2.len() == 108 && p3.len() == 158 && p4.len() == 225);
        assert(guard_target == 275);
        lemma_patch(p1, qb + z + qc + z + qd + z + qe, 208);
        assert(a.code@ =~= p1 + z + (qb + z + qc + z + qd + z + qe));
    }
    a.patch_jz_to(j1, guard_target);
    let ghost r1 = p1 + encode(Insn::Jz(208)) + qb;
    proof {
        lemma_le_digits_len(word32(208) as nat, 4);
        assert(r1.len() == 108);
        lemma_patch(r1, qc + z + qd + z + qe, 161);
        assert(a.code@ =~= r1 + z + (qc + z + qd + z + qe));
    }
    a.patch_jz_to(j2, guard_target);
    let ghost r2 = r1 + encode(Insn::Jz(161)) + qc;
    proof {
        lemma_le_digits_len(word32(161) as nat, 4);
        assert(r2.len() == 158);
        lemma_patch(r2, qd + z + qe, 111);
        assert(a.code@ =~= r2 + z + (qd + z + qe));
    }
    a.patch_jz_to(j3, guard_target);
    let ghost r3 = r2 + encode(Insn::Jz(111)) + qd;
    proof {
        lemma_le_digits_len(word32(111) as nat, 4);
        assert(r3.len() == 225);
        lemma_patch(r3, qe, 44);
        assert(a.code@ =~= r3 + z + qe);
    }
    a.patch_jz_to(j4, guard_target);
    a.thread_detach(fns);
    a.epilogue();
    proof {
        lemma_program_code(*fns, base);
        assert(a.code@ =~= assemble(resolve_program(*fns, base)));
    }
    let mut jumps: Vec<usize> = Vec::new();
    jumps.push(j1);
    jumps.push(j2);
    jumps.push(j3);
    jumps.push(j4);
    assert(jumps@ =~= seq![63usize, 110, 160, 227]);
    Stub { code: a.code, jumps, guard_target }
}

/// The machine code of the stub, block by block.
proof fn lemma_program_code(fns: MonoFunctions, base: u64)
    ensures
        assemble(resolve_program(fns, base)) == assemble(prologue_insns()) + assemble(
            thread_attach_insns(fns),
        ) + assemble(image_insns(fns, base)) + encode(Insn::Jz(208)) + assemble(
            class_insns(fns, base),
        ) + encode(Insn::Jz(161)) + assemble(field_insns(fns, base)) + encode(Insn::Jz(111))
            + assemble(vtable_insns(fns, base)) + encode(Insn::Jz(44)) + assemble(
            static_insns(fns, base),
        ) + assemble(thread_detach_insns(fns)) + assemble(epilogue_insns()),
{
    let b1 = prologue_insns();
    let b2 = b1 + thread_attach_insns(fns);
    let b3 = b2 + image_insns(fns, base);
    let b4 = b3 + seq![Insn::Jz(208)];
    let b5 = b4 + class_insns(fns, base);
    let b6 = b5 + seq![Insn::Jz(161)];
    let b7 = b6 + field_insns(fns, base);
    let b8 = b7 + seq![Insn::Jz(111)];
    let b9 = b8 + vtable_insns(fns, base);
    let b10 = b9 + seq![Insn::Jz(44)];
    let b11 = b10 + static_insns(fns, base);
    let b12 = b11 + thread_detach_insns(fns);
    lemma_assemble_add(b1, thread_attach_insns(fns));
    lemma_assemble_add(b2, image_insns(fns, base));
    lemma_assemble_add(b4, class_insns(fns, base));
    lemma_assemble_add(b6, field_insns(fns, base));
    lemma_assemble_add(b8, vtable_insns(fns, base));
    lemma_assemble_add(b10, static_insns(fns, base));
    lemma_assemble_add(b11, thread_detach_insns(fns));
    lemma_assemble_add(b12, epilogue_insns());
    lemma_assemble_one(b3, Insn::Jz(208));
    lemma_assemble_one(b5, Insn::Jz(161));
    lemma_assemble_one(b7, Insn::Jz(111));
    lemma_assemble_one(b9, Insn::Jz(44));
}

/// Where a field lies in the target process.
#[derive(Clone, Copy, Debug)]
pub struct FieldLayout {
    /// The class that declares the field.
    pub klass: u64,
    /// The vtable of that class. The first eight bytes of each of its objects hold it.
    pub vtable: u64,
    /// The offset of the field in an object.
    pub offset: i32,
    /// The start of the static data of the class; a static field lies `offset` behind it.
    pub static_data: u64,
}

impl FieldLayout {
    /// Whether the class, its vtable and its static data were all found.
    pub open spec fn complete(self) -> bool {
        self.klass != 0 && self.vtable != 0 && self.static_data != 0
    }

    /// Tells whether the class, its vtable and its static data were all found.
    pub fn is_complete(&self) -> (r: bool)
        ensures
            r == self.complete(),
    {
        self.klass != 0 && self.vtable != 0 && self.static_data != 0
    }

    /// The address of the static field itself.
    pub fn static_field_addr(&self) -> (r: u64)
        requires
            self.static_data + word32(self.offset) <= u64::MAX,
        ensures
            r == self.static_data + word32(self.offset),
    {
        self.static_data + to_word32(self.offset) as u64
    }
}

// ---------------------------------------------------------------------------
// Resolving a field
// ---------------------------------------------------------------------------
/// How long the stub may run.
pub const RUN_TIMEOUT_MS: u32 = 10_000;

/// A string as C has it: UTF-8, ended by a NUL.
pub open spec fn cstr(s: Seq<char>) -> Seq<u8> {
    encode_utf8(s).push(0)
}

/// An empty result slot.
pub open spec fn empty_slot() -> Seq<u8> {
    Seq::new(8, |i: int| 0u8)
}

/// What is written into the block before the code, and where: the strings that the stub
/// passes to mono, then the slots.
pub open spec fn block_item(i: int, class: Seq<char>, field: Seq<char>) -> (u64, Seq<u8>) {
    if i == 0 {
        (OFF_STR_IMAGE, cstr("Assembly-CSharp"@))
    } else if i == 1 {
        (OFF_STR_NS, cstr(""@))
    } else if i == 2 {
        (OFF_STR_CLASS, cstr(class))
    } else if i == 3 {
        (OFF_STR_FIELD, cstr(field))
    } else if i == 4 {
        (OFF_SLOT_KLASS, empty_slot())
    } else if i == 5 {
        (OFF_SLOT_OFFSET, empty_slot())
    } else if i == 6 {
        (OFF_SLOT_VTABLE, empty_slot())
    } else {
        (OFF_SLOT_STATIC, empty_slot())
    }
}

/// Writes into the block at `base`.
pub open spec fn put_flow(t: Talk, base: u64, off: u64, data: Seq<u8>) -> Flow<()> {
    if base + off > u64::MAX {
        (Err(Halt::Overflow(Overflow::Add)), t)
    } else {
        match write_flow(t, (base + off) as u64, data) {
            (Err(h), t2) => (Err(h), t2),
            (Ok(Ok(())), t2) => (Ok(()), t2),
            (Ok(Err(_)), t2) => (
                Err(Halt::Fail("写入远程内存失败 @ +0x"@ + hex_text(off as nat))),
                t2,
            ),
        }
    }
}

/// Writes the first `n` items into the block.
pub open spec fn fill_flow(
    t: Talk,
    base: u64,
    class: Seq<char>,
    field: Seq<char>,
    n: nat,
) -> Flow<()>
    decreases n,
{
    if n == 0 {
        (Ok(()), t)
    } else {
        match fill_flow(t, base, class, field, (n - 1) as nat) {
            (Err(h), t2) => (Err(h), t2),
            (Ok(()), t2) => {
                let (off, data) = block_item(n - 1, class, field);
                put_flow(t2, base, off, data)
            },
        }
    }
}

/// Runs the code at `entry`; an answer that does not fit counts as a failed wait.
pub open spec fn run_flow(t: Talk, entry: u64) -> Flow<()> {
    match ask_flow(t, Ask::Run { entry, timeout_ms: RUN_TIMEOUT_MS }) {
        (Err(h), t2) => (Err(h), t2),
        (Ok(a), t2) => {
            let result = match a {
                Answer::Ran(r) => r,
                _ => RunResult::Waited(u32::MAX),
            };
            match run_text(result, RUN_TIMEOUT_MS) {
                Ok(()) => (Ok(()), t2),
                Err(e) => (Err(Halt::Fail(e)), t2),
            }
        },
    }
}

/// Reads a result slot; an unreadable one counts as empty.
pub open spec fn slot_flow(t: Talk, base: u64, off: u64) -> Flow<u64> {
    match read_u64_flow(t, (base + off) as u64) {
        (Err(h), t2) => (Err(h), t2),
        (Ok(Some(v)), t2) => (Ok(v), t2),
        (Ok(None), t2) => (Ok(0), t2),
    }
}

/// Reads all result slots. Of the offset only the low 32 bits count.
pub open spec fn slots_flow(t: Talk, base: u64) -> Flow<FieldLayout> {
    match slot_flow(t, base, OFF_SLOT_KLASS) {
        (Err(h), t2) => (Err(h), t2),
        (Ok(klass), t2) => match slot_flow(t2, base, OFF_SLOT_OFFSET) {
            (Err(h), t3) => (Err(h), t3),
            (Ok(offset), t3) => match slot_flow(t3, base, OFF_SLOT_VTABLE) {
                (Err(h), t4) => (Err(h), t4),
                (Ok(vtable), t4) => match slot_flow(t4, base, OFF_SLOT_STATIC) {
                    (Err(h), t5) => (Err(h), t5),
                    (Ok(static_data), t5) => (
                        Ok(
                            FieldLayout {
                                klass,
                                vtable,
                                offset: signed32((offset % 0x1_0000_0000) as u32),
                                static_data,
                            },
                        ),
                        t5,
                    ),
                },
            },
        },
    }
}

/// Fills the block, runs the stub in it and reads what it left.
pub open spec fn query_flow(
    t: Talk,
    fns: MonoFunctions,
    base: u64,
    class: Seq<char>,
    field: Seq<char>,
) -> Flow<FieldLayout> {
    match fill_flow(t, base, class, field, 8) {
        (Err(h), t2) => (Err(h), t2),
        (Ok(()), t2) => match put_flow(
            t2,
            base,
            OFF_CODE,
            assemble(resolve_program(fns, base)),
        ) {
            (Err(h), t3) => (Err(h), t3),
            (Ok(()), t3) => match run_flow(t3, base) {
                (Err(h), t4) => (Err(h), t4),
                (Ok(()), t4) => slots_flow(t4, base),
            },
        },
    }
}

/// Where the block was allocated; an answer that does not fit is a failure without a code.
pub open spec fn allocated(a: Answer) -> Result<u64, u32> {
    match a {
        Answer::Allocated(r) => r,
        _ => Err(0),
    }
}

/// Allocates a block, queries the field in it and releases it, whether the query succeeded
/// or not.
pub open spec fn resolve_flow(
    t: Talk,
    fns: MonoFunctions,
    class: Seq<char>,
    field: Seq<char>,
) -> Flow<FieldLayout> {
    match ask_flow(t, Ask::Alloc { size: BLOCK_SIZE }) {
        (Err(h), t2) => (Err(h), t2),
        (Ok(a), t2) => match allocated(a) {
            Err(code) => (
                Err(
                    Halt::Fail(
                        "VirtualAllocEx 失败（"@ + error_text(code)
                            + "）——目标进程可能已退出，或本程序需要以管理员身份运行"@,
                    ),
                ),
                t2,
            ),
            Ok(base) => match query_flow(t2, fns, base, class, field) {
                (Err(Halt::Ask(a)), t3) => (Err(Halt::Ask(a)), t3),
                (r, t3) => match ask_flow(t3, Ask::Free { addr: base }) {
                    (Err(h), t4) => (Err(h), t4),
                    (Ok(_), t4) => (r, t4),
                },
            },
        },
    }
}

/// A string as C has it.
fn c_string(s: &str) -> (r: Vec<u8>)
    ensures
        r@ == cstr(s@),
{
    let mut out: Vec<u8> = s.as_bytes_vec();
    out.push(0);
    out
}

/// An empty slot.
fn cleared() -> (r: Vec<u8>)
    ensures
        r@ == empty_slot(),
{
    let mut out: Vec<u8> = Vec::new();
    let mut i: usize = 0;
    while i < 8
        invariant
            i <= 8,
            out@ =~= Seq::new(i as nat, |k: int| 0u8),
        decreases 8 - i,
    {
        out.push(0);
        i = i + 1;
    }
    out
}

/// `block_item`, executable.
fn item(i: usize, class: &str, field: &str) -> (r: (u64, Vec<u8>))
    requires
        i < 8,
    ensures
        r.0 == block_item(i as int, class@, field@).0,
        r.1@ == block_item(i as int, class@, field@).1,
{
    if i == 0 {
        (OFF_STR_IMAGE, c_string("Assembly-CSharp"))
    } else if i == 1 {
        (OFF_STR_NS, c_string(""))
    } else if i == 2 {
        (OFF_STR_CLASS, c_string(class))
    } else if i == 3 {
        (OFF_STR_FIELD, c_string(field))
    } else if i == 4 {
        (OFF_SLOT_KLASS, cleared())
    } else if i == 5 {
        (OFF_SLOT_OFFSET, cleared())
    } else if i == 6 {
        (OFF_SLOT_VTABLE, cleared())
    } else {
        (OFF_SLOT_STATIC, cleared())
    }
}

/// Writes into the block at `base`.
fn put(talk: &mut Transcript, base: u64, off: u64, data: Vec<u8>) -> (r: Result<(), Stop>)
    requires
        old(talk).wf(),
    ensures
        final(talk).wf(),
        final(talk)@ == put_flow(old(talk)@, base, off, data@).1,
        follows(r, put_flow(old(talk)@, base, off, data@).0),
        r is Ok ==> base + off <= u64::MAX,
{
    if off > u64::MAX - base {
        return Err(Stop::Overflow(Overflow::Add));
    }
    match talk.write(base + off, data)? {
        Ok(()) => Ok(()),
        Err(_) => Err(Stop::Fail("写入远程内存失败 @ +0x".to_owned().concat(hex(off).as_str()))),
    }
}

/// Once an item cannot be written, no later one is.
proof fn lemma_fill_err(
    t: Talk,
    base: u64,
    class: Seq<char>,
    field: Seq<char>,
    i: nat,
    n: nat,
)
    requires
        i <= n,
        fill_flow(t, base, class, field, i).0 is Err,
    ensures
        fill_flow(t, base, class, field, n) == fill_flow(t, base, class, field, i),
    decreases n - i,
{
    if i < n {
        lemma_fill_err(t, base, class, field, i, (n - 1) as nat);
    }
}

/// Writes the strings and the slots into the block.
fn fill(talk: &mut Transcript, base: u64, class: &str, field: &str) -> (r: Result<(), Stop>)
    requires
        old(talk).wf(),
    ensures
        final(talk).wf(),
        final(talk)@ == fill_flow(old(talk)@, base, class@, field@, 8).1,
        follows(r, fill_flow(old(talk)@, base, class@, field@, 8).0),
        r is Ok ==> base + OFF_SLOT_STATIC <= u64::MAX,
{
    let mut i: usize = 0;
    while i < 8
        invariant
            i <= 8,
            talk.wf(),
            fill_flow(old(talk)@, base, class@, field@, i as nat) == (Ok::<(), Halt>(()), talk@),
            i == 8 ==> base + OFF_SLOT_STATIC <= u64::MAX,
        decreases 8 - i,
    {
        let (off, data) = item(i, class, field);
        match put(talk, base, off, data) {
            Ok(()) => {},
            Err(stop) => {
                proof {
                    lemma_fill_err(old(talk)@, base, class@, field@, (i + 1) as nat, 8);
                }
                return Err(stop);
            },
        }
        i = i + 1;
    }
    Ok(())
}

/// Runs the stub.
fn run_stub(talk: &mut Transcript, entry: u64) -> (r: Result<(), Stop>)
    requires
        old(talk).wf(),
    ensures
        final(talk).wf(),
        final(talk)@ == run_flow(old(talk)@, entry).1,
        follows(r, run_flow(old(talk)@, entry).0),
{
    let result: RunResult = match talk.ask(Request::Run { entry, timeout_ms: RUN_TIMEOUT_MS })? {
        Reply::Ran(r) => *r,
        _ => RunResult::Waited(u32::MAX),
    };
    match run_remote(result, RUN_TIMEOUT_MS) {
        Ok(()) => Ok(()),
        Err(e) => Err(Stop::Fail(e)),
    }
}

/// Reads a result slot.
fn slot(talk: &mut Transcript, base: u64, off: u64) -> (r: Result<u64, Stop>)
    requires
        old(talk).wf(),
        base + off <= u64::MAX,
    ensures
        final(talk).wf(),
        final(talk)@ == slot_flow(old(talk)@, base, off).1,
        follows(r, slot_flow(old(talk)@, base, off).0),
{
    match talk.read_u64(base + off)? {
        Some(v) => Ok(v),
        None => Ok(0),
    }
}

/// Reads all result slots.
fn slots(talk: &mut Transcript, base: u64) -> (r: Result<FieldLayout, Stop>)
    requires
        old(talk).wf(),
        base + OFF_SLOT_STATIC <= u64::MAX,
    ensures
        final(talk).wf(),
        final(talk)@ == slots_flow(old(talk)@, base).1,
        follows(r, slots_flow(old(talk)@, base).0),
{
    let klass: u64 = slot(talk, base, OFF_SLOT_KLASS)?;
    // the offset is an int32; the upper half of what mono returned may be anything
    let offset: u64 = slot(talk, base, OFF_SLOT_OFFSET)?;
    let vtable: u64 = slot(talk, base, OFF_SLOT_VTABLE)?;
    let static_data: u64 = slot(talk, base, OFF_SLOT_STATIC)?;
    Ok(FieldLayout { klass, vtable, offset: to_signed32(low_word(offset)), static_data })
}

/// Fills the block, runs the stub in it and reads what it left.
fn query(
    talk: &mut Transcript,
    fns: &MonoFunctions,
    base: u64,
    class: &str,
    field: &str,
) -> (r: Result<FieldLayout, Stop>)
    requires
        old(talk).wf(),
    ensures
        final(talk).wf(),
        final(talk)@ == query_flow(old(talk)@, *fns, base, class@, field@).1,
        follows(r, query_flow(old(talk)@, *fns, base, class@, field@).0),
{
    fill(talk, base, class, field)?;
    let stub: Stub = build_resolve_code(fns, base);
    put(talk, base, OFF_CODE, stub.code)?;
    run_stub(talk, base + OFF_CODE)?;
    slots(talk, base)
}

/// Looks up `class.field` as a part of a conversation.
pub(crate) fn resolve(
    talk: &mut Transcript,
    fns: &MonoFunctions,
    class: &str,
    field: &str,
) -> (r: Result<FieldLayout, Stop>)
    requires
        old(talk).wf(),
    ensures
        final(talk).wf(),
        final(talk)@ == resolve_flow(old(talk)@, *fns, class@, field@).1,
        follows(r, resolve_flow(old(talk)@, *fns, class@, field@).0),
{
    let got: Result<u64, u32> = match talk.ask(Request::Alloc { size: BLOCK_SIZE })? {
        Reply::Allocated(r) => *r,
        _ => Err(0),
    };
    let base: u64 = match got {
        Ok(base) => base,
        Err(code) => return Err(
            Stop::Fail(
                "VirtualAllocEx 失败（".to_owned().concat(last_error(code).as_str()).concat(
                    "）——目标进程可能已退出，或本程序需要以管理员身份运行",
                ),
            ),
        ),
    };
    let result: Result<FieldLayout, Stop> = query(talk, fns, base, class, field);
    if let Err(Stop::Ask(request)) = result {
        return Err(Stop::Ask(request));
    }
    talk.ask(Request::Free { addr: base })?;
    result
}

/// Looks up `class.field`: its offset, the vtable of the class and its static data.
///
/// No game logic runs. Where mono has no such image, class, field or vtable, the stub ends
/// there, and the layout is not complete.
pub fn resolve_field(
    fns: &MonoFunctions,
    class: &str,
    field: &str,
    log: &Vec<Reply>,
) -> (r: Progress<Result<FieldLayout, String>>)
    ensures
        match (r, resolve_flow(opening(answers(log@)), *fns, class@, field@).0) {
            (Progress::Done(Ok(v)), Ok(w)) => v == w,
            (Progress::Done(Err(m)), Err(Halt::Fail(t))) => m@ == t,
            (Progress::Ask(q), Err(Halt::Ask(a))) => q@ == a,
            (Progress::Overflow(o), Err(Halt::Overflow(p))) => o == p,
            _ => false,
        },
{
    let mut talk: Transcript = Transcript::new(log);
    match resolve(&mut talk, fns, class, field) {
        Ok(layout) => Progress::Done(Ok(layout)),
        Err(Stop::Fail(m)) => Progress::Done(Err(m)),
        Err(Stop::Ask(q)) => Progress::Ask(q),
        Err(Stop::Overflow(o)) => Progress::Overflow(o),
    }
}

} // verus!

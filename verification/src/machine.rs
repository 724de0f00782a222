//! What a processor does with the stub's instructions.
//!
//! The model follows the registers, the zero flag, the stack pointer and the words saved on
//! the stack. The functions that the stub calls are opaque: they answer as they please and,
//! as the Win64 calling convention allows, leave arbitrary values in the volatile registers.

use crate::x64::{assemble, decode, encode, law_decode_of_encode, lemma_assemble_take, plain, Insn};
use vstd::prelude::*;

verus! {

/// One call made by the code.
pub struct Call {
    pub target: u64,
    pub rcx: u64,
    pub rdx: u64,
    pub r8: u64,
    /// How many bytes rsp lies below its value on entry.
    pub depth: int,
    /// How many of them lie below the saved registers, free for the callee's shadow space.
    pub room: int,
}

/// How the functions that the code calls behave.
pub struct World {
    /// The value that a call returns, given all calls so far, the latest last.
    pub answer: spec_fn(Seq<Call>) -> u64,
    /// What it leaves in a volatile register.
    pub residue: spec_fn(Seq<Call>, int) -> u64,
    /// The zero flag after an instruction at this position that leaves it unspecified here.
    pub flag: spec_fn(int) -> bool,
}

/// Whether the code still runs, has returned to its caller, or has left what is modelled.
pub enum Status {
    Running,
    Returned,
    Stuck,
}

/// The state of the processor.
pub struct Machine {
    pub status: Status,
    /// The sixteen general registers; rsp is kept as `depth` instead.
    pub regs: Seq<u64>,
    pub zero: bool,
    /// Position of the next instruction in the code.
    pub pc: int,
    /// How many bytes rsp lies below its value on entry.
    pub depth: int,
    /// The words pushed and not yet popped, each with the depth at which it lies.
    pub saved: Seq<(int, u64)>,
    /// The calls made.
    pub calls: Seq<Call>,
    /// The words written to memory, as address and value.
    pub stores: Seq<(u64, u64)>,
}

impl Machine {
    /// The number of bytes between rsp and the last saved register.
    pub open spec fn room(self) -> int {
        if self.saved.len() == 0 {
            self.depth
        } else {
            self.depth - self.saved.last().0
        }
    }

    /// The machine behind an instruction of `n` bytes.
    pub open spec fn past(self, n: nat) -> Machine {
        Machine { pc: self.pc + n, ..self }
    }

    /// The machine with a register pushed.
    pub open spec fn pushed(self, reg: int) -> Machine {
        Machine {
            depth: self.depth + 8,
            saved: self.saved.push((self.depth + 8, self.regs[reg])),
            ..self
        }
    }

    /// The machine with a register popped; what lies at rsp has to be a saved word.
    pub open spec fn popped(self, reg: int) -> Machine {
        if self.saved.len() > 0 && self.saved.last().0 == self.depth {
            Machine {
                depth: self.depth - 8,
                saved: self.saved.drop_last(),
                regs: self.regs.update(reg, self.saved.last().1),
                ..self
            }
        } else {
            Machine { status: Status::Stuck, ..self }
        }
    }

    /// The machine after the function in rax has returned. The registers rax, rcx, rdx and
    /// r8 to r11 are the callee's to change.
    pub open spec fn called(self, w: World) -> Machine {
        let c = Call {
            target: self.regs[0],
            rcx: self.regs[1],
            rdx: self.regs[2],
            r8: self.regs[8],
            depth: self.depth,
            room: self.room(),
        };
        let calls = self.calls.push(c);
        Machine {
            calls,
            regs: self.regs.update(0, (w.answer)(calls)).update(1, (w.residue)(calls, 1)).update(
                2,
                (w.residue)(calls, 2),
            ).update(8, (w.residue)(calls, 8)).update(9, (w.residue)(calls, 9)).update(
                10,
                (w.residue)(calls, 10),
            ).update(11, (w.residue)(calls, 11)),
            zero: (w.flag)(self.pc),
            ..self
        }
    }
}

/// The machine after one instruction.
pub open spec fn effect(w: World, m: Machine, i: Insn) -> Machine {
    let n = encode(i).len();
    match i {
        Insn::PushRbx => m.pushed(3).past(n),
        Insn::PushRdi => m.pushed(7).past(n),
        Insn::PopRdi => m.popped(7).past(n),
        Insn::PopRbx => m.popped(3).past(n),
        Insn::SubRsp(k) => Machine { depth: m.depth + k, zero: (w.flag)(m.pc), ..m }.past(n),
        Insn::AddRsp(k) => Machine { depth: m.depth - k, zero: (w.flag)(m.pc), ..m }.past(n),
        Insn::MovImm { reg, value } => Machine {
            regs: m.regs.update(reg as int, value),
            ..m
        }.past(n),
        Insn::MovReg { dst, src } => Machine {
            regs: m.regs.update(dst as int, m.regs[src as int]),
            ..m
        }.past(n),
        Insn::Store { dst, src } => Machine {
            stores: m.stores.push((m.regs[dst as int], m.regs[src as int])),
            ..m
        }.past(n),
        Insn::XorReg { dst, src } => {
            let v = m.regs[dst as int] ^ m.regs[src as int];
            Machine { regs: m.regs.update(dst as int, v), zero: v == 0, ..m }.past(n)
        },
        Insn::CallRax => m.called(w).past(n),
        Insn::TestRax => Machine { zero: m.regs[0] == 0, ..m }.past(n),
        Insn::Jz(d) => if m.zero {
            Machine { pc: m.pc + n + d, ..m }
        } else {
            m.past(n)
        },
        Insn::Ret => Machine {
            status: if m.depth == 0 {
                Status::Returned
            } else {
                Status::Stuck
            },
            ..m
        },
    }
}

/// The machine after reading and executing the instruction at its position.
pub open spec fn step(w: World, code: Seq<u8>, m: Machine) -> Machine {
    if m.status is Running {
        match decode(code, m.pc) {
            Some(i) => effect(w, m, i),
            None => Machine { status: Status::Stuck, ..m },
        }
    } else {
        m
    }
}

/// The machine after `n` steps.
pub open spec fn run(w: World, code: Seq<u8>, m: Machine, n: nat) -> Machine
    decreases n,
{
    if n == 0 {
        m
    } else {
        step(w, code, run(w, code, m, (n - 1) as nat))
    }
}

/// The machine after some instructions in a row.
pub open spec fn effects(w: World, m: Machine, q: Seq<Insn>) -> Machine
    decreases q.len(),
{
    if q.len() == 0 {
        m
    } else {
        effect(w, effects(w, m, q.drop_last()), q.last())
    }
}

/// One instruction more.
pub proof fn lemma_effects_take(w: World, m: Machine, q: Seq<Insn>, k: int)
    requires
        0 <= k < q.len(),
    ensures
        effects(w, m, q.take(k + 1)) == effect(w, effects(w, m, q.take(k)), q[k]),
{
    assert(q.take(k + 1).drop_last() =~= q.take(k));
}

/// Running on after some steps.
pub proof fn lemma_run_add(w: World, code: Seq<u8>, m: Machine, a: nat, b: nat)
    ensures
        run(w, code, m, a + b) == run(w, code, run(w, code, m, a), b),
    decreases b,
{
    if b > 0 {
        lemma_run_add(w, code, m, a, (b - 1) as nat);
        assert(a + b - 1 == a + (b - 1));
    }
}

/// A machine that has stopped stays as it is.
pub proof fn lemma_run_stopped(w: World, code: Seq<u8>, m: Machine, n: nat)
    requires
        !(m.status is Running),
    ensures
        run(w, code, m, n) == m,
    decreases n,
{
    if n > 0 {
        lemma_run_stopped(w, code, m, (n - 1) as nat);
    }
}

/// Where the `k`-th instruction of a program starts.
pub open spec fn position(p: Seq<Insn>, k: int) -> int {
    assemble(p.take(k)).len() as int
}

/// The code of a program up to some instruction is the start of its whole code.
proof fn lemma_code_prefix(p: Seq<Insn>, k: int)
    requires
        0 <= k <= p.len(),
    ensures
        position(p, k) <= assemble(p).len(),
        assemble(p).take(position(p, k)) == assemble(p.take(k)),
    decreases p.len() - k,
{
    if k == p.len() {
        assert(p.take(k) =~= p);
        assert(assemble(p).take(position(p, k)) =~= assemble(p));
    } else {
        lemma_code_prefix(p, k + 1);
        lemma_assemble_take(p, k);
        assert(assemble(p).take(position(p, k)) =~= assemble(p).take(position(p, k + 1)).take(
            position(p, k),
        ));
        assert(assemble(p.take(k + 1)).take(position(p, k)) =~= assemble(p.take(k)));
    }
}

/// At the position of an instruction of a program, that instruction is read.
pub proof fn lemma_decode_at(p: Seq<Insn>, k: int)
    requires
        0 <= k < p.len(),
        plain(p[k]),
    ensures
        decode(assemble(p), position(p, k)) == Some(p[k]),
        position(p, k + 1) == position(p, k) + encode(p[k]).len(),
{
    let code = assemble(p);
    let at = position(p, k);
    lemma_code_prefix(p, k + 1);
    lemma_assemble_take(p, k);
    let end = position(p, k + 1);
    assert(code.subrange(at, end) =~= code.take(end).subrange(at, end));
    assert(assemble(p.take(k + 1)).subrange(at, end) =~= encode(p[k]));
    law_decode_of_encode(code, at, p[k]);
}

/// At the position of an instruction of a program, that instruction is executed.
pub proof fn lemma_step(w: World, p: Seq<Insn>, k: int, m: Machine)
    requires
        0 <= k < p.len(),
        plain(p[k]),
        m.status is Running,
        m.pc == position(p, k),
    ensures
        step(w, assemble(p), m) == effect(w, m, p[k]),
        position(p, k + 1) == position(p, k) + encode(p[k]).len(),
{
    lemma_decode_at(p, k);
}

/// Whether an instruction neither jumps, returns nor pops.
pub open spec fn straight(i: Insn) -> bool {
    match i {
        Insn::Jz(_) => false,
        Insn::Ret => false,
        Insn::PopRbx => false,
        Insn::PopRdi => false,
        _ => true,
    }
}

/// `n` straight instructions of a program, from the `k`-th on, are executed in a row.
pub proof fn lemma_block(w: World, p: Seq<Insn>, k: int, n: nat, m: Machine)
    requires
        0 <= k,
        k + n <= p.len(),
        forall|j: int| k <= j < k + n ==> plain(#[trigger] p[j]) && straight(p[j]),
        m.status is Running,
        m.pc == position(p, k),
    ensures
        run(w, assemble(p), m, n) == effects(w, m, p.subrange(k, k + n)),
        run(w, assemble(p), m, n).pc == position(p, k + n),
        run(w, assemble(p), m, n).status is Running,
    decreases n,
{
    if n > 0 {
        lemma_block(w, p, k, (n - 1) as nat, m);
        let before = run(w, assemble(p), m, (n - 1) as nat);
        lemma_step(w, p, k + n - 1, before);
        assert(p.subrange(k, k + n).drop_last() =~= p.subrange(k, k + n - 1));
        assert(p.subrange(k, k + n).last() == p[k + n - 1]);
    }
}

} // verus!

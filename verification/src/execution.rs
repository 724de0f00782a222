//! What running the stub comes to, whatever the mono functions answer.

use crate::bytes::{lemma_le_digits_len, signed32};
use crate::inject::{
    class_insns, epilogue_insns, field_insns, image_insns, prologue_insns, resolve_program,
    static_insns, thread_attach_insns, thread_detach_insns, vtable_insns, FieldLayout, OFF_SLOT_KLASS,
    OFF_SLOT_OFFSET, OFF_SLOT_STATIC, OFF_SLOT_VTABLE, OFF_STR_CLASS, OFF_STR_FIELD, OFF_STR_IMAGE,
    OFF_STR_NS,
};
use crate::machine::{
    effect, effects, lemma_block, lemma_decode_at, lemma_effects_take, lemma_run_add,
    lemma_run_stopped, lemma_step, position, run, straight, Call, Machine, Status, World,
};
use crate::mono::MonoFunctions;
use crate::x64::{assemble, decode, encode, lemma_assemble_add, lemma_assemble_take, plain, Insn};
use vstd::prelude::*;

verus! {

/// The machine when the stub is entered: rsp is 8 modulo 16, nothing is saved, no call has
/// been made and nothing written.
pub open spec fn entry(regs: Seq<u64>, zero: bool) -> Machine {
    Machine {
        status: Status::Running,
        regs,
        zero,
        pc: 0,
        depth: 0,
        saved: Seq::empty(),
        calls: Seq::empty(),
        stores: Seq::empty(),
    }
}

/// What the `i`-th call returned.
pub open spec fn answer(w: World, calls: Seq<Call>, i: int) -> u64 {
    (w.answer)(calls.take(i + 1))
}

/// Whether a call keeps to the Win64 convention: rsp was 8 modulo 16 on entry, so it is
/// aligned to 16 bytes where the depth is 8 modulo 16; and 32 bytes of shadow space are free.
pub open spec fn well_made(c: Call) -> bool {
    c.depth % 16 == 8 && c.room >= 32
}

/// Which calls the stub makes and which words it writes, as the answers direct it.
///
/// It attaches the thread, asks for the image, the class, the field, its offset, the vtable
/// and the static data, and detaches the thread. Where the image, the class, the field or
/// the vtable is null it goes straight to the detaching.
pub open spec fn resolves(
    fns: MonoFunctions,
    base: u64,
    w: World,
    calls: Seq<Call>,
    stores: Seq<(u64, u64)>,
) -> bool {
    let n = calls.len();
    let image = answer(w, calls, 2);
    let klass = answer(w, calls, 3);
    let field = answer(w, calls, 4);
    let offset = answer(w, calls, 5);
    let vtable = answer(w, calls, 7);
    let statics = answer(w, calls, 8);
    let at_klass = ((base + OFF_SLOT_KLASS) as u64, klass);
    let at_offset = ((base + OFF_SLOT_OFFSET) as u64, offset);
    let at_vtable = ((base + OFF_SLOT_VTABLE) as u64, vtable);
    let at_static = ((base + OFF_SLOT_STATIC) as u64, statics);
    &&& 4 <= n <= 10
    &&& calls[0].target == fns.get_root_domain
    &&& calls[1].target == fns.thread_attach && calls[1].rcx == answer(w, calls, 0)
    &&& calls[2].target == fns.image_loaded && calls[2].rcx == base + OFF_STR_IMAGE
    &&& calls[n - 1].target == fns.thread_detach && calls[n - 1].rcx == answer(w, calls, 1)
    &&& if image == 0 {
        n == 4 && stores == Seq::<(u64, u64)>::empty()
    } else {
        &&& n >= 5
        &&& calls[3].target == fns.class_from_name && calls[3].rcx == image && calls[3].rdx == base
            + OFF_STR_NS && calls[3].r8 == base + OFF_STR_CLASS
        &&& if klass == 0 {
            n == 5 && stores == Seq::<(u64, u64)>::empty()
        } else {
            &&& n >= 6
            &&& calls[4].target == fns.class_get_field_from_name && calls[4].rcx == klass
                && calls[4].rdx == base + OFF_STR_FIELD
            &&& if field == 0 {
                n == 6 && stores == seq![at_klass]
            } else {
                &&& n >= 9
                &&& calls[5].target == fns.field_get_offset && calls[5].rcx == field
                &&& calls[6].target == fns.get_root_domain
                &&& calls[7].target == fns.class_vtable && calls[7].rcx == answer(w, calls, 6)
                    && calls[7].rdx == klass
                &&& if vtable == 0 {
                    n == 9 && stores == seq![at_klass, at_offset]
                } else {
                    &&& n == 10
                    &&& calls[8].target == fns.vtable_get_static_field_data && calls[8].rcx
                        == vtable
                    &&& stores == seq![at_klass, at_offset, at_vtable, at_static]
                }
            }
        }
    }
}

/// How long the code of each block is.
proof fn lemma_block_sizes(fns: MonoFunctions, base: u64)
    ensures
        assemble(prologue_insns()).len() == 6,
        assemble(thread_attach_insns(fns)).len() == 30,
        assemble(image_insns(fns, base)).len() == 25,
        assemble(class_insns(fns, base)).len() == 41,
        assemble(field_insns(fns, base)).len() == 44,
        assemble(vtable_insns(fns, base)).len() == 61,
        assemble(static_insns(fns, base)).len() == 44,
        assemble(thread_detach_insns(fns)).len() == 15,
        assemble(epilogue_insns()).len() == 10,
        forall|d: i32| (#[trigger] encode(Insn::Jz(d))).len() == 6,
{
    assert forall|d: i32| (#[trigger] encode(Insn::Jz(d))).len() == 6 by {
        lemma_le_digits_len(crate::bytes::word32(d) as nat, 4);
    }
    lemma_size_prologue();
    lemma_size_attach(fns);
    lemma_size_image(fns, base);
    lemma_size_class(fns, base);
    lemma_size_field(fns, base);
    lemma_size_vtable(fns, base);
    lemma_size_static(fns, base);
    lemma_size_detach(fns);
    lemma_size_epilogue();
}

/// The code of a `mov` of a constant is ten bytes long.
proof fn lemma_mov_imm_size(reg: u8, value: u64)
    ensures
        encode(Insn::MovImm { reg, value }).len() == 10,
{
    lemma_le_digits_len(value as nat, 8);
}

/// The size of one block.
proof fn lemma_size_prologue()
    ensures
        assemble(prologue_insns()).len() == 6,
{
    let q = prologue_insns();
    lemma_assemble_take(q, 0);
    lemma_assemble_take(q, 1);
    lemma_assemble_take(q, 2);
    assert(q.take(3) =~= q);
}

/// The size of one block.
proof fn lemma_size_attach(fns: MonoFunctions)
    ensures
        assemble(thread_attach_insns(fns)).len() == 30,
{
    let q = thread_attach_insns(fns);
    lemma_assemble_take(q, 0);
    lemma_assemble_take(q, 1);
    lemma_assemble_take(q, 2);
    lemma_assemble_take(q, 3);
    lemma_assemble_take(q, 4);
    lemma_assemble_take(q, 5);
    lemma_mov_imm_size(0, fns.get_root_domain);
    lemma_mov_imm_size(0, fns.thread_attach);
    assert(q.take(6) =~= q);
}

/// The size of one block.
proof fn lemma_size_image(fns: MonoFunctions, base: u64)
    ensures
        assemble(image_insns(fns, base)).len() == 25,
{
    let q = image_insns(fns, base);
    lemma_assemble_take(q, 0);
    lemma_assemble_take(q, 1);
    lemma_assemble_take(q, 2);
    lemma_assemble_take(q, 3);
    lemma_mov_imm_size(1, (base + OFF_STR_IMAGE) as u64);
    lemma_mov_imm_size(0, fns.image_loaded);
    assert(q.take(4) =~= q);
}

/// The size of one block.
proof fn lemma_size_class(fns: MonoFunctions, base: u64)
    ensures
        assemble(class_insns(fns, base)).len() == 41,
{
    let q = class_insns(fns, base);
    lemma_assemble_take(q, 0);
    lemma_assemble_take(q, 1);
    lemma_assemble_take(q, 2);
    lemma_assemble_take(q, 3);
    lemma_assemble_take(q, 4);
    lemma_assemble_take(q, 5);
    lemma_assemble_take(q, 6);
    lemma_mov_imm_size(2, (base + OFF_STR_NS) as u64);
    lemma_mov_imm_size(8, (base + OFF_STR_CLASS) as u64);
    lemma_mov_imm_size(0, fns.class_from_name);
    assert(q.take(7) =~= q);
}

/// The size of one block.
proof fn lemma_size_field(fns: MonoFunctions, base: u64)
    ensures
        assemble(field_insns(fns, base)).len() == 44,
{
    let q = field_insns(fns, base);
    lemma_assemble_take(q, 0);
    lemma_assemble_take(q, 1);
    lemma_assemble_take(q, 2);
    lemma_assemble_take(q, 3);
    lemma_assemble_take(q, 4);
    lemma_assemble_take(q, 5);
    lemma_assemble_take(q, 6);
    lemma_assemble_take(q, 7);
    lemma_mov_imm_size(1, (base + OFF_SLOT_KLASS) as u64);
    lemma_mov_imm_size(2, (base + OFF_STR_FIELD) as u64);
    lemma_mov_imm_size(0, fns.class_get_field_from_name);
    assert(q.take(8) =~= q);
}

/// The size of one block.
proof fn lemma_size_vtable(fns: MonoFunctions, base: u64)
    ensures
        assemble(vtable_insns(fns, base)).len() == 61,
{
    let q = vtable_insns(fns, base);
    lemma_assemble_take(q, 0);
    lemma_assemble_take(q, 1);
    lemma_assemble_take(q, 2);
    lemma_assemble_take(q, 3);
    lemma_assemble_take(q, 4);
    lemma_assemble_take(q, 5);
    lemma_assemble_take(q, 6);
    lemma_assemble_take(q, 7);
    lemma_assemble_take(q, 8);
    lemma_assemble_take(q, 9);
    lemma_assemble_take(q, 10);
    lemma_assemble_take(q, 11);
    lemma_mov_imm_size(0, fns.field_get_offset);
    lemma_mov_imm_size(1, (base + OFF_SLOT_OFFSET) as u64);
    lemma_mov_imm_size(0, fns.get_root_domain);
    lemma_mov_imm_size(0, fns.class_vtable);
    assert(q.take(12) =~= q);
}

/// The size of one block.
proof fn lemma_size_static(fns: MonoFunctions, base: u64)
    ensures
        assemble(static_insns(fns, base)).len() == 44,
{
    let q = static_insns(fns, base);
    lemma_assemble_take(q, 0);
    lemma_assemble_take(q, 1);
    lemma_assemble_take(q, 2);
    lemma_assemble_take(q, 3);
    lemma_assemble_take(q, 4);
    lemma_assemble_take(q, 5);
    lemma_assemble_take(q, 6);
    lemma_assemble_take(q, 7);
    lemma_mov_imm_size(1, (base + OFF_SLOT_VTABLE) as u64);
    lemma_mov_imm_size(0, fns.vtable_get_static_field_data);
    lemma_mov_imm_size(1, (base + OFF_SLOT_STATIC) as u64);
    assert(q.take(8) =~= q);
}

/// The size of one block.
proof fn lemma_size_detach(fns: MonoFunctions)
    ensures
        assemble(thread_detach_insns(fns)).len() == 15,
{
    let q = thread_detach_insns(fns);
    lemma_assemble_take(q, 0);
    lemma_assemble_take(q, 1);
    lemma_assemble_take(q, 2);
    lemma_mov_imm_size(0, fns.thread_detach);
    assert(q.take(3) =~= q);
}

/// The size of one block.
proof fn lemma_size_epilogue()
    ensures
        assemble(epilogue_insns()).len() == 10,
{
    let q = epilogue_insns();
    lemma_assemble_take(q, 0);
    lemma_assemble_take(q, 1);
    lemma_assemble_take(q, 2);
    lemma_assemble_take(q, 3);
    lemma_assemble_take(q, 4);
    assert(q.take(5) =~= q);
}

/// What no block between prologue and epilogue touches.
spec fn kept(m: Machine, e: Machine) -> bool {
    &&& e.regs.len() == 16
    &&& e.depth == m.depth
    &&& e.saved == m.saved
    &&& e.status == m.status
}

/// The call of the function in rax.
spec fn call_of(m: Machine, target: u64, rcx: u64, rdx: u64, r8: u64) -> Call {
    Call { target, rcx, rdx, r8, depth: m.depth, room: m.room() }
}

/// The prologue saves rbx and rdi and makes room.
proof fn lemma_prologue(w: World, m: Machine)
    requires
        m.regs.len() == 16,
    ensures
        ({
            let e = effects(w, m, prologue_insns());
            &&& e.regs == m.regs
            &&& e.depth == m.depth + 56
            &&& e.saved == m.saved.push((m.depth + 8, m.regs[3])).push((m.depth + 16, m.regs[7]))
            &&& e.calls == m.calls
            &&& e.stores == m.stores
        }),
{
    let q = prologue_insns();
    lemma_effects_take(w, m, q, 0);
    lemma_effects_take(w, m, q, 1);
    lemma_effects_take(w, m, q, 2);
    assert(q.take(3) =~= q);
}

/// Attaching the thread: two calls, the thread in rdi.
proof fn lemma_attach(w: World, m: Machine, fns: MonoFunctions)
    requires
        m.regs.len() == 16,
    ensures
        ({
            let e = effects(w, m, thread_attach_insns(fns));
            let c0 = call_of(m, fns.get_root_domain, m.regs[1], m.regs[2], m.regs[8]);
            let calls0 = m.calls.push(c0);
            let c1 = call_of(
                m,
                fns.thread_attach,
                (w.answer)(calls0),
                (w.residue)(calls0, 2),
                (w.residue)(calls0, 8),
            );
            &&& kept(m, e)
            &&& e.calls == calls0.push(c1)
            &&& e.regs[7] == (w.answer)(e.calls)
            &&& e.stores == m.stores
        }),
{
    let q = thread_attach_insns(fns);
    lemma_effects_take(w, m, q, 0);
    lemma_effects_take(w, m, q, 1);
    lemma_effects_take(w, m, q, 2);
    lemma_effects_take(w, m, q, 3);
    lemma_effects_take(w, m, q, 4);
    lemma_effects_take(w, m, q, 5);
    assert(q.take(6) =~= q);
}

/// Asking for the image.
proof fn lemma_image(w: World, m: Machine, fns: MonoFunctions, base: u64)
    requires
        m.regs.len() == 16,
        base + OFF_SLOT_STATIC <= u64::MAX,
    ensures
        ({
            let e = effects(w, m, image_insns(fns, base));
            &&& kept(m, e)
            &&& e.calls == m.calls.push(
                call_of(
                    m,
                    fns.image_loaded,
                    (base + OFF_STR_IMAGE) as u64,
                    m.regs[2],
                    m.regs[8],
                ),
            )
            &&& e.regs[0] == (w.answer)(e.calls)
            &&& e.zero == (e.regs[0] == 0)
            &&& e.regs[7] == m.regs[7]
            &&& e.stores == m.stores
        }),
{
    let q = image_insns(fns, base);
    lemma_effects_take(w, m, q, 0);
    lemma_effects_take(w, m, q, 1);
    lemma_effects_take(w, m, q, 2);
    lemma_effects_take(w, m, q, 3);
    assert(q.take(4) =~= q);
}

/// Asking for the class.
proof fn lemma_class(w: World, m: Machine, fns: MonoFunctions, base: u64)
    requires
        m.regs.len() == 16,
        base + OFF_SLOT_STATIC <= u64::MAX,
    ensures
        ({
            let e = effects(w, m, class_insns(fns, base));
            &&& kept(m, e)
            &&& e.calls == m.calls.push(
                call_of(
                    m,
                    fns.class_from_name,
                    m.regs[0],
                    (base + OFF_STR_NS) as u64,
                    (base + OFF_STR_CLASS) as u64,
                ),
            )
            &&& e.regs[0] == (w.answer)(e.calls)
            &&& e.zero == (e.regs[0] == 0)
            &&& e.regs[7] == m.regs[7]
            &&& e.stores == m.stores
        }),
{
    let q = class_insns(fns, base);
    lemma_effects_take(w, m, q, 0);
    lemma_effects_take(w, m, q, 1);
    lemma_effects_take(w, m, q, 2);
    lemma_effects_take(w, m, q, 3);
    lemma_effects_take(w, m, q, 4);
    lemma_effects_take(w, m, q, 5);
    lemma_effects_take(w, m, q, 6);
    assert(q.take(7) =~= q);
}

/// Keeping the class and asking for the field.
proof fn lemma_field(w: World, m: Machine, fns: MonoFunctions, base: u64)
    requires
        m.regs.len() == 16,
        base + OFF_SLOT_STATIC <= u64::MAX,
    ensures
        ({
            let e = effects(w, m, field_insns(fns, base));
            &&& kept(m, e)
            &&& e.calls == m.calls.push(
                call_of(
                    m,
                    fns.class_get_field_from_name,
                    m.regs[0],
                    (base + OFF_STR_FIELD) as u64,
                    m.regs[8],
                ),
            )
            &&& e.regs[0] == (w.answer)(e.calls)
            &&& e.regs[3] == m.regs[0]
            &&& e.zero == (e.regs[0] == 0)
            &&& e.regs[7] == m.regs[7]
            &&& e.stores == m.stores.push(((base + OFF_SLOT_KLASS) as u64, m.regs[0]))
        }),
{
    let q = field_insns(fns, base);
    lemma_effects_take(w, m, q, 0);
    lemma_effects_take(w, m, q, 1);
    lemma_effects_take(w, m, q, 2);
    lemma_effects_take(w, m, q, 3);
    lemma_effects_take(w, m, q, 4);
    lemma_effects_take(w, m, q, 5);
    lemma_effects_take(w, m, q, 6);
    lemma_effects_take(w, m, q, 7);
    assert(q.take(8) =~= q);
}

/// Keeping the offset and asking for the vtable.
proof fn lemma_vtable(w: World, m: Machine, fns: MonoFunctions, base: u64)
    requires
        m.regs.len() == 16,
        base + OFF_SLOT_STATIC <= u64::MAX,
    ensures
        ({
            let e = effects(w, m, vtable_insns(fns, base));
            let c0 = call_of(m, fns.field_get_offset, m.regs[0], m.regs[2], m.regs[8]);
            let calls0 = m.calls.push(c0);
            let c1 = call_of(
                m,
                fns.get_root_domain,
                (base + OFF_SLOT_OFFSET) as u64,
                (w.residue)(calls0, 2),
                (w.residue)(calls0, 8),
            );
            let calls1 = calls0.push(c1);
            let c2 = call_of(
                m,
                fns.class_vtable,
                (w.answer)(calls1),
                m.regs[3],
                (w.residue)(calls1, 8),
            );
            &&& kept(m, e)
            &&& e.calls == calls1.push(c2)
            &&& e.regs[0] == (w.answer)(e.calls)
            &&& e.zero == (e.regs[0] == 0)
            &&& e.regs[7] == m.regs[7]
            &&& e.stores == m.stores.push(((base + OFF_SLOT_OFFSET) as u64, (w.answer)(calls0)))
        }),
{
    let q = vtable_insns(fns, base);
    lemma_effects_take(w, m, q, 0);
    lemma_effects_take(w, m, q, 1);
    lemma_effects_take(w, m, q, 2);
    lemma_effects_take(w, m, q, 3);
    lemma_effects_take(w, m, q, 4);
    lemma_effects_take(w, m, q, 5);
    lemma_effects_take(w, m, q, 6);
    lemma_effects_take(w, m, q, 7);
    lemma_effects_take(w, m, q, 8);
    lemma_effects_take(w, m, q, 9);
    lemma_effects_take(w, m, q, 10);
    lemma_effects_take(w, m, q, 11);
    assert(q.take(12) =~= q);
}

/// Keeping the vtable and the static data.
proof fn lemma_static(w: World, m: Machine, fns: MonoFunctions, base: u64)
    requires
        m.regs.len() == 16,
        base + OFF_SLOT_STATIC <= u64::MAX,
    ensures
        ({
            let e = effects(w, m, static_insns(fns, base));
            &&& kept(m, e)
            &&& e.calls == m.calls.push(
                call_of(
                    m,
                    fns.vtable_get_static_field_data,
                    m.regs[0],
                    m.regs[2],
                    m.regs[8],
                ),
            )
            &&& e.regs[7] == m.regs[7]
            &&& e.stores == m.stores.push(((base + OFF_SLOT_VTABLE) as u64, m.regs[0])).push(
                ((base + OFF_SLOT_STATIC) as u64, (w.answer)(e.calls)),
            )
        }),
{
    let q = static_insns(fns, base);
    lemma_effects_take(w, m, q, 0);
    lemma_effects_take(w, m, q, 1);
    lemma_effects_take(w, m, q, 2);
    lemma_effects_take(w, m, q, 3);
    lemma_effects_take(w, m, q, 4);
    lemma_effects_take(w, m, q, 5);
    lemma_effects_take(w, m, q, 6);
    lemma_effects_take(w, m, q, 7);
    assert(q.take(8) =~= q);
}

/// Detaching the thread.
proof fn lemma_detach(w: World, m: Machine, fns: MonoFunctions)
    requires
        m.regs.len() == 16,
    ensures
        ({
            let e = effects(w, m, thread_detach_insns(fns));
            &&& kept(m, e)
            &&& e.calls == m.calls.push(
                call_of(m, fns.thread_detach, m.regs[7], m.regs[2], m.regs[8]),
            )
            &&& e.stores == m.stores
        }),
{
    let q = thread_detach_insns(fns);
    lemma_effects_take(w, m, q, 0);
    lemma_effects_take(w, m, q, 1);
    lemma_effects_take(w, m, q, 2);
    assert(q.take(3) =~= q);
}

// ---------------------------------------------------------------------------
// The blocks in the whole program
// ---------------------------------------------------------------------------
/// Where the blocks stand in the program.
proof fn lemma_layout(fns: MonoFunctions, base: u64)
    ensures
        ({
            let p = resolve_program(fns, base);
            &&& p.len() == 60
            &&& p.subrange(0, 3) == prologue_insns()
            &&& p.subrange(3, 9) == thread_attach_insns(fns)
            &&& p.subrange(9, 13) == image_insns(fns, base)
            &&& p[13] == Insn::Jz(208)
            &&& p.subrange(14, 21) == class_insns(fns, base)
            &&& p[21] == Insn::Jz(161)
            &&& p.subrange(22, 30) == field_insns(fns, base)
            &&& p[30] == Insn::Jz(111)
            &&& p.subrange(31, 43) == vtable_insns(fns, base)
            &&& p[43] == Insn::Jz(44)
            &&& p.subrange(44, 52) == static_insns(fns, base)
            &&& p.subrange(52, 55) == thread_detach_insns(fns)
            &&& p.subrange(55, 60) == epilogue_insns()
        }),
{
    let p = resolve_program(fns, base);
    assert(p.subrange(0, 3) =~= prologue_insns());
    assert(p.subrange(3, 9) =~= thread_attach_insns(fns));
    assert(p.subrange(9, 13) =~= image_insns(fns, base));
    assert(p.subrange(14, 21) =~= class_insns(fns, base));
    assert(p.subrange(22, 30) =~= field_insns(fns, base));
    assert(p.subrange(31, 43) =~= vtable_insns(fns, base));
    assert(p.subrange(44, 52) =~= static_insns(fns, base));
    assert(p.subrange(52, 55) =~= thread_detach_insns(fns));
    assert(p.subrange(55, 60) =~= epilogue_insns());
}

/// Where the guards, and the place that they lead to, stand in the code.
proof fn lemma_positions(fns: MonoFunctions, base: u64)
    ensures
        position(resolve_program(fns, base), 0) == 0,
        position(resolve_program(fns, base), 13) == 61,
        position(resolve_program(fns, base), 21) == 108,
        position(resolve_program(fns, base), 30) == 158,
        position(resolve_program(fns, base), 43) == 225,
        position(resolve_program(fns, base), 52) == 275,
{
    let p = resolve_program(fns, base);
    lemma_layout(fns, base);
    lemma_block_sizes(fns, base);
    lemma_position_after(p, 0, prologue_insns());
    lemma_position_after(p, 3, thread_attach_insns(fns));
    lemma_position_after(p, 9, image_insns(fns, base));
    lemma_assemble_take(p, 13);
    lemma_position_after(p, 14, class_insns(fns, base));
    lemma_assemble_take(p, 21);
    lemma_position_after(p, 22, field_insns(fns, base));
    lemma_assemble_take(p, 30);
    lemma_position_after(p, 31, vtable_insns(fns, base));
    lemma_assemble_take(p, 43);
    lemma_position_after(p, 44, static_insns(fns, base));
}

/// A block moves the position on by the length of its code.
proof fn lemma_position_after(p: Seq<Insn>, k: int, q: Seq<Insn>)
    requires
        0 <= k,
        k + q.len() <= p.len(),
        p.subrange(k, k + q.len()) == q,
    ensures
        position(p, k + q.len()) == position(p, k) + assemble(q).len(),
{
    assert(p.take(k + q.len()) =~= p.take(k) + q);
    lemma_assemble_add(p.take(k), q);
}

/// A block of straight instructions is executed as a whole.
proof fn lemma_advance(w: World, p: Seq<Insn>, k: int, q: Seq<Insn>, m: Machine)
    requires
        0 <= k,
        k + q.len() <= p.len(),
        p.subrange(k, k + q.len()) == q,
        forall|j: int| 0 <= j < q.len() ==> plain(#[trigger] q[j]) && straight(q[j]),
        m.status is Running,
        m.pc == position(p, k),
    ensures
        run(w, assemble(p), m, q.len()) == effects(w, m, q),
        effects(w, m, q).pc == position(p, k + q.len()),
        effects(w, m, q).status is Running,
{
    assert forall|j: int| k <= j < k + q.len() implies plain(#[trigger] p[j]) && straight(p[j]) by {
        assert(p[j] == q[j - k]);
    }
    lemma_block(w, p, k, q.len(), m);
}

/// The epilogue, at the end of a program: the registers are restored and 0 is returned.
proof fn lemma_epilogue(w: World, p: Seq<Insn>, k: int, m: Machine, rbx: u64, rdi: u64)
    requires
        0 <= k,
        k + 5 <= p.len(),
        p[k] == Insn::AddRsp(0x28),
        p[k + 1] == Insn::PopRdi,
        p[k + 2] == Insn::PopRbx,
        p[k + 3] == (Insn::XorReg { dst: 0, src: 0 }),
        p[k + 4] == Insn::Ret,
        m.status is Running,
        m.pc == position(p, k),
        m.regs.len() == 16,
        m.depth == 56,
        m.saved == seq![(8int, rbx), (16int, rdi)],
    ensures
        ({
            let f = run(w, assemble(p), m, 5);
            &&& f.status is Returned
            &&& f.regs[0] == 0
            &&& f.regs[3] == rbx
            &&& f.regs[7] == rdi
            &&& f.depth == 0
            &&& f.saved == Seq::<(int, u64)>::empty()
            &&& f.calls == m.calls
            &&& f.stores == m.stores
        }),
{
    let code = assemble(p);
    assert(run(w, code, m, 0) == m);
    lemma_step(w, p, k, m);
    let m1 = run(w, code, m, 1);
    assert(m1 == effect(w, m, p[k]));
    assert(m1.saved.last() == (16int, rdi) && m1.depth == 16);
    lemma_step(w, p, k + 1, m1);
    let m2 = run(w, code, m, 2);
    assert(m2 == effect(w, m1, p[k + 1]));
    assert(m2.saved =~= seq![(8int, rbx)]);
    assert(m2.saved.last() == (8int, rbx) && m2.depth == 8);
    lemma_step(w, p, k + 2, m2);
    let m3 = run(w, code, m, 3);
    assert(m3 == effect(w, m2, p[k + 2]));
    assert(m3.saved =~= Seq::<(int, u64)>::empty());
    lemma_step(w, p, k + 3, m3);
    let m4 = run(w, code, m, 4);
    assert(m4 == effect(w, m3, p[k + 3]));
    let rax = m3.regs[0];
    assert(rax ^ rax == 0) by (bit_vector);
    lemma_step(w, p, k + 4, m4);
    assert(run(w, code, m, 5) == effect(w, m4, p[k + 4]));
}

/// From the guards' target on: the thread is detached, the registers are restored, and the
/// stub returns 0.
proof fn lemma_finish(w: World, fns: MonoFunctions, base: u64, m: Machine, rbx: u64, rdi: u64)
    requires
        m.status is Running,
        m.pc == 275,
        m.regs.len() == 16,
        m.depth == 56,
        m.saved == seq![(8int, rbx), (16int, rdi)],
    ensures
        ({
            let f = run(w, assemble(resolve_program(fns, base)), m, 8);
            &&& f.status is Returned
            &&& f.regs[0] == 0
            &&& f.regs[3] == rbx
            &&& f.regs[7] == rdi
            &&& f.depth == 0
            &&& f.saved == Seq::<(int, u64)>::empty()
            &&& f.calls == m.calls.push(
                call_of(m, fns.thread_detach, m.regs[7], m.regs[2], m.regs[8]),
            )
            &&& f.stores == m.stores
        }),
{
    lemma_layout(fns, base);
    lemma_positions(fns, base);
    let p = resolve_program(fns, base);
    lemma_advance(w, p, 52, thread_detach_insns(fns), m);
    lemma_detach(w, m, fns);
    let m1 = effects(w, m, thread_detach_insns(fns));
    let e = p.subrange(55, 60);
    assert(p[55] == e[0] && p[56] == e[1] && p[57] == e[2] && p[58] == e[3] && p[59] == e[4]);
    lemma_epilogue(w, p, 55, m1, rbx, rdi);
    lemma_run_add(w, assemble(p), m, 3, 5);
}

/// A machine that reaches the guards' target in time has finished after sixty steps.
proof fn lemma_exit(w: World, fns: MonoFunctions, base: u64, m0: Machine, n: nat)
    requires
        n <= 52,
        ({
            let m = run(w, assemble(resolve_program(fns, base)), m0, n);
            &&& m.status is Running
            &&& m.pc == 275
            &&& m.regs.len() == 16
            &&& m.depth == 56
            &&& m.saved == seq![(8int, m0.regs[3]), (16int, m0.regs[7])]
        }),
    ensures
        ({
            let m = run(w, assemble(resolve_program(fns, base)), m0, n);
            let f = run(w, assemble(resolve_program(fns, base)), m0, 60);
            &&& f.status is Returned
            &&& f.regs[0] == 0
            &&& f.regs[3] == m0.regs[3]
            &&& f.regs[7] == m0.regs[7]
            &&& f.depth == 0
            &&& f.saved == Seq::<(int, u64)>::empty()
            &&& f.calls == m.calls.push(
                call_of(m, fns.thread_detach, m.regs[7], m.regs[2], m.regs[8]),
            )
            &&& f.stores == m.stores
        }),
{
    let code = assemble(resolve_program(fns, base));
    let m = run(w, code, m0, n);
    lemma_finish(w, fns, base, m, m0.regs[3], m0.regs[7]);
    lemma_run_add(w, code, m0, n, 8);
    let f = run(w, code, m0, n + 8);
    lemma_run_stopped(w, code, f, (52 - n) as nat);
    lemma_run_add(w, code, m0, n + 8, (52 - n) as nat);
    assert(n + 8 + (52 - n) as nat == 60);
}

/// A guard: the machine goes on behind it, or to the guards' target.
proof fn lemma_guard(w: World, p: Seq<Insn>, k: int, d: i32, m0: Machine, n: nat)
    requires
        0 <= k < p.len(),
        p[k] == Insn::Jz(d),
        position(p, k) + 6 + d == 275,
        run(w, assemble(p), m0, n).status is Running,
        run(w, assemble(p), m0, n).pc == position(p, k),
    ensures
        ({
            let m = run(w, assemble(p), m0, n);
            let e = run(w, assemble(p), m0, n + 1);
            e == Machine {
                pc: if m.zero {
                    275
                } else {
                    position(p, k + 1)
                },
                ..m
            }
        }),
{
    lemma_le_digits_len(crate::bytes::word32(d) as nat, 4);
    lemma_step(w, p, k, run(w, assemble(p), m0, n));
}

/// A block, in a run that has come to its start.
proof fn lemma_go(w: World, p: Seq<Insn>, k: int, q: Seq<Insn>, m0: Machine, n: nat)
    requires
        0 <= k,
        k + q.len() <= p.len(),
        p.subrange(k, k + q.len()) == q,
        forall|j: int| 0 <= j < q.len() ==> plain(#[trigger] q[j]) && straight(q[j]),
        run(w, assemble(p), m0, n).status is Running,
        run(w, assemble(p), m0, n).pc == position(p, k),
    ensures
        run(w, assemble(p), m0, n + q.len()) == effects(w, run(w, assemble(p), m0, n), q),
        run(w, assemble(p), m0, n + q.len()).pc == position(p, k + q.len()),
        run(w, assemble(p), m0, n + q.len()).status is Running,
{
    lemma_advance(w, p, k, q, run(w, assemble(p), m0, n));
    lemma_run_add(w, assemble(p), m0, n, q.len());
}

// ---------------------------------------------------------------------------
// The run
// ---------------------------------------------------------------------------
/// The thread has been attached and the image asked for.
spec fn asked_image(fns: MonoFunctions, base: u64, w: World, calls: Seq<Call>) -> bool {
    &&& calls.len() >= 3
    &&& calls[0].target == fns.get_root_domain
    &&& calls[1].target == fns.thread_attach && calls[1].rcx == answer(w, calls, 0)
    &&& calls[2].target == fns.image_loaded && calls[2].rcx == base + OFF_STR_IMAGE
}

/// The image has been found and the class asked for.
spec fn asked_class(fns: MonoFunctions, base: u64, w: World, calls: Seq<Call>) -> bool {
    &&& calls.len() >= 4
    &&& answer(w, calls, 2) != 0
    &&& calls[3].target == fns.class_from_name && calls[3].rcx == answer(w, calls, 2)
    &&& calls[3].rdx == base + OFF_STR_NS && calls[3].r8 == base + OFF_STR_CLASS
}

/// The class has been found and the field asked for.
spec fn asked_field(fns: MonoFunctions, base: u64, w: World, calls: Seq<Call>) -> bool {
    &&& calls.len() >= 5
    &&& answer(w, calls, 3) != 0
    &&& calls[4].target == fns.class_get_field_from_name && calls[4].rcx == answer(w, calls, 3)
    &&& calls[4].rdx == base + OFF_STR_FIELD
}

/// The field has been found, its offset and then the vtable asked for.
spec fn asked_vtable(fns: MonoFunctions, w: World, calls: Seq<Call>) -> bool {
    &&& calls.len() >= 8
    &&& answer(w, calls, 4) != 0
    &&& calls[5].target == fns.field_get_offset && calls[5].rcx == answer(w, calls, 4)
    &&& calls[6].target == fns.get_root_domain
    &&& calls[7].target == fns.class_vtable && calls[7].rcx == answer(w, calls, 6)
    &&& calls[7].rdx == answer(w, calls, 3)
}

/// The vtable has been found and the static data asked for.
spec fn asked_static(fns: MonoFunctions, w: World, calls: Seq<Call>) -> bool {
    &&& calls.len() >= 9
    &&& answer(w, calls, 7) != 0
    &&& calls[8].target == fns.vtable_get_static_field_data
    &&& calls[8].rcx == answer(w, calls, 7)
}

/// A later call leaves the earlier answers as they were.
proof fn lemma_answers_stay(w: World, calls: Seq<Call>, c: Call)
    ensures
        forall|i: int|
            0 <= i < calls.len() ==> #[trigger] answer(w, calls.push(c), i) == answer(w, calls, i),
        answer(w, calls.push(c), calls.len() as int) == (w.answer)(calls.push(c)),
{
    assert forall|i: int| 0 <= i < calls.len() implies #[trigger] answer(w, calls.push(c), i)
        == answer(w, calls, i) by {
        assert(calls.push(c).take(i + 1) =~= calls.take(i + 1));
    }
    assert(calls.push(c).take(calls.len() as int + 1) =~= calls.push(c));
}

/// A machine inside the stub's frame, the thread in rdi, every call so far well made.
spec fn inside(w: World, m0: Machine, m: Machine) -> bool {
    &&& m.status is Running
    &&& m.regs.len() == 16
    &&& m.depth == 56
    &&& m.saved == seq![(8int, m0.regs[3]), (16int, m0.regs[7])]
    &&& m.calls.len() >= 2
    &&& m.regs[7] == answer(w, m.calls, 1)
    &&& forall|i: int| 0 <= i < m.calls.len() ==> well_made(#[trigger] m.calls[i])
}

/// Calls made inside the frame are well made.
proof fn lemma_call_well_made(m: Machine, a: u64, b: u64, target: u64, rcx: u64, rdx: u64, r8: u64)
    requires
        m.depth == 56,
        m.saved == seq![(8int, a), (16int, b)],
    ensures
        well_made(call_of(m, target, rcx, rdx, r8)),
{
    assert(m.saved.last() == (16int, b));
}

/// At the first guard.
spec fn at_image(w: World, fns: MonoFunctions, base: u64, m0: Machine, m: Machine) -> bool {
    &&& inside(w, m0, m)
    &&& m.pc == 61
    &&& m.calls.len() == 3
    &&& asked_image(fns, base, w, m.calls)
    &&& m.regs[0] == answer(w, m.calls, 2)
    &&& m.zero == (m.regs[0] == 0)
    &&& m.stores == Seq::<(u64, u64)>::empty()
}

/// At the second guard.
spec fn at_class(w: World, fns: MonoFunctions, base: u64, m0: Machine, m: Machine) -> bool {
    &&& inside(w, m0, m)
    &&& m.pc == 108
    &&& m.calls.len() == 4
    &&& asked_image(fns, base, w, m.calls)
    &&& asked_class(fns, base, w, m.calls)
    &&& m.regs[0] == answer(w, m.calls, 3)
    &&& m.zero == (m.regs[0] == 0)
    &&& m.stores == Seq::<(u64, u64)>::empty()
}

/// The slot of the class, with the class in it.
spec fn klass_store(w: World, base: u64, calls: Seq<Call>) -> (u64, u64) {
    ((base + OFF_SLOT_KLASS) as u64, answer(w, calls, 3))
}

/// The slot of the offset, with the offset in it.
spec fn offset_store(w: World, base: u64, calls: Seq<Call>) -> (u64, u64) {
    ((base + OFF_SLOT_OFFSET) as u64, answer(w, calls, 5))
}

/// At the third guard.
spec fn at_field(w: World, fns: MonoFunctions, base: u64, m0: Machine, m: Machine) -> bool {
    &&& inside(w, m0, m)
    &&& m.pc == 158
    &&& m.calls.len() == 5
    &&& asked_image(fns, base, w, m.calls)
    &&& asked_class(fns, base, w, m.calls)
    &&& asked_field(fns, base, w, m.calls)
    &&& m.regs[0] == answer(w, m.calls, 4)
    &&& m.regs[3] == answer(w, m.calls, 3)
    &&& m.zero == (m.regs[0] == 0)
    &&& m.stores == seq![klass_store(w, base, m.calls)]
}

/// At the fourth guard.
spec fn at_vtable(w: World, fns: MonoFunctions, base: u64, m0: Machine, m: Machine) -> bool {
    &&& inside(w, m0, m)
    &&& m.pc == 225
    &&& m.calls.len() == 8
    &&& asked_image(fns, base, w, m.calls)
    &&& asked_class(fns, base, w, m.calls)
    &&& asked_field(fns, base, w, m.calls)
    &&& asked_vtable(fns, w, m.calls)
    &&& m.regs[0] == answer(w, m.calls, 7)
    &&& m.zero == (m.regs[0] == 0)
    &&& m.stores == seq![klass_store(w, base, m.calls), offset_store(w, base, m.calls)]
}

/// At the guards' target, with every question answered.
spec fn at_end(w: World, fns: MonoFunctions, base: u64, m0: Machine, m: Machine) -> bool {
    &&& inside(w, m0, m)
    &&& m.pc == 275
    &&& m.calls.len() == 9
    &&& asked_image(fns, base, w, m.calls)
    &&& asked_class(fns, base, w, m.calls)
    &&& asked_field(fns, base, w, m.calls)
    &&& asked_vtable(fns, w, m.calls)
    &&& asked_static(fns, w, m.calls)
    &&& m.stores == seq![
        klass_store(w, base, m.calls),
        offset_store(w, base, m.calls),
        ((base + OFF_SLOT_VTABLE) as u64, answer(w, m.calls, 7)),
        ((base + OFF_SLOT_STATIC) as u64, answer(w, m.calls, 8)),
    ]
}

/// Up to the first guard.
proof fn lemma_to_image(w: World, fns: MonoFunctions, base: u64, m0: Machine)
    requires
        m0 == entry(m0.regs, m0.zero),
        m0.regs.len() == 16,
        base + OFF_SLOT_STATIC <= u64::MAX,
    ensures
        at_image(w, fns, base, m0, run(w, assemble(resolve_program(fns, base)), m0, 13)),
{
    let p = resolve_program(fns, base);
    let code = assemble(p);
    lemma_layout(fns, base);
    lemma_positions(fns, base);
    assert(run(w, code, m0, 0) == m0);
    lemma_go(w, p, 0, prologue_insns(), m0, 0);
    lemma_prologue(w, m0);
    let m1 = run(w, code, m0, 3);
    assert(m1.saved =~= seq![(8int, m0.regs[3]), (16int, m0.regs[7])]);
    lemma_go(w, p, 3, thread_attach_insns(fns), m0, 3);
    lemma_attach(w, m1, fns);
    let m2 = run(w, code, m0, 9);
    lemma_go(w, p, 9, image_insns(fns, base), m0, 9);
    lemma_image(w, m2, fns, base);
    let m3 = run(w, code, m0, 13);
    let c0 = m2.calls[0];
    let c1 = m2.calls[1];
    let c2 = m3.calls[2];
    assert(m2.calls =~= m1.calls.push(c0).push(c1));
    assert(m3.calls =~= m2.calls.push(c2));
    lemma_answers_stay(w, m1.calls, c0);
    lemma_answers_stay(w, m1.calls.push(c0), c1);
    lemma_answers_stay(w, m2.calls, c2);
    lemma_call_well_made(m1, m0.regs[3], m0.regs[7], c0.target, c0.rcx, c0.rdx, c0.r8);
    lemma_call_well_made(m1, m0.regs[3], m0.regs[7], c1.target, c1.rcx, c1.rdx, c1.r8);
    lemma_call_well_made(m2, m0.regs[3], m0.regs[7], c2.target, c2.rcx, c2.rdx, c2.r8);
}

/// From the first guard to the second.
proof fn lemma_to_class(w: World, fns: MonoFunctions, base: u64, m0: Machine)
    requires
        m0.regs.len() == 16,
        base + OFF_SLOT_STATIC <= u64::MAX,
        at_image(w, fns, base, m0, run(w, assemble(resolve_program(fns, base)), m0, 13)),
        !run(w, assemble(resolve_program(fns, base)), m0, 13).zero,
    ensures
        at_class(w, fns, base, m0, run(w, assemble(resolve_program(fns, base)), m0, 21)),
{
    let p = resolve_program(fns, base);
    let code = assemble(p);
    lemma_layout(fns, base);
    lemma_positions(fns, base);
    lemma_guard(w, p, 13, 208, m0, 13);
    let m1 = run(w, code, m0, 14);
    lemma_go(w, p, 14, class_insns(fns, base), m0, 14);
    lemma_class(w, m1, fns, base);
    let m2 = run(w, code, m0, 21);
    let c = m2.calls.last();
    assert(m2.calls =~= m1.calls.push(c));
    lemma_answers_stay(w, m1.calls, c);
    lemma_call_well_made(m1, m0.regs[3], m0.regs[7], c.target, c.rcx, c.rdx, c.r8);
}

/// From the second guard to the third.
proof fn lemma_to_field(w: World, fns: MonoFunctions, base: u64, m0: Machine)
    requires
        m0.regs.len() == 16,
        base + OFF_SLOT_STATIC <= u64::MAX,
        at_class(w, fns, base, m0, run(w, assemble(resolve_program(fns, base)), m0, 21)),
        !run(w, assemble(resolve_program(fns, base)), m0, 21).zero,
    ensures
        at_field(w, fns, base, m0, run(w, assemble(resolve_program(fns, base)), m0, 30)),
{
    let p = resolve_program(fns, base);
    let code = assemble(p);
    lemma_layout(fns, base);
    lemma_positions(fns, base);
    lemma_guard(w, p, 21, 161, m0, 21);
    let m1 = run(w, code, m0, 22);
    lemma_go(w, p, 22, field_insns(fns, base), m0, 22);
    lemma_field(w, m1, fns, base);
    let m2 = run(w, code, m0, 30);
    let c = m2.calls.last();
    assert(m2.calls =~= m1.calls.push(c));
    lemma_answers_stay(w, m1.calls, c);
    lemma_call_well_made(m1, m0.regs[3], m0.regs[7], c.target, c.rcx, c.rdx, c.r8);
    assert(m2.stores =~= seq![klass_store(w, base, m2.calls)]);
}

/// From the third guard to the fourth.
proof fn lemma_to_vtable(w: World, fns: MonoFunctions, base: u64, m0: Machine)
    requires
        m0.regs.len() == 16,
        base + OFF_SLOT_STATIC <= u64::MAX,
        at_field(w, fns, base, m0, run(w, assemble(resolve_program(fns, base)), m0, 30)),
        !run(w, assemble(resolve_program(fns, base)), m0, 30).zero,
    ensures
        at_vtable(w, fns, base, m0, run(w, assemble(resolve_program(fns, base)), m0, 43)),
{
    let p = resolve_program(fns, base);
    let code = assemble(p);
    lemma_layout(fns, base);
    lemma_positions(fns, base);
    lemma_guard(w, p, 30, 111, m0, 30);
    let m1 = run(w, code, m0, 31);
    lemma_go(w, p, 31, vtable_insns(fns, base), m0, 31);
    lemma_vtable(w, m1, fns, base);
    let m2 = run(w, code, m0, 43);
    let c0 = m2.calls[5];
    let c1 = m2.calls[6];
    let c2 = m2.calls[7];
    let calls0 = m1.calls.push(c0);
    let calls1 = calls0.push(c1);
    assert(m2.calls =~= calls1.push(c2));
    lemma_answers_stay(w, m1.calls, c0);
    lemma_answers_stay(w, calls0, c1);
    lemma_answers_stay(w, calls1, c2);
    lemma_call_well_made(m1, m0.regs[3], m0.regs[7], c0.target, c0.rcx, c0.rdx, c0.r8);
    lemma_call_well_made(m1, m0.regs[3], m0.regs[7], c1.target, c1.rcx, c1.rdx, c1.r8);
    lemma_call_well_made(m1, m0.regs[3], m0.regs[7], c2.target, c2.rcx, c2.rdx, c2.r8);
    assert(m2.stores =~= seq![klass_store(w, base, m2.calls), offset_store(w, base, m2.calls)]);
}

/// From the fourth guard to the guards' target.
proof fn lemma_to_end(w: World, fns: MonoFunctions, base: u64, m0: Machine)
    requires
        m0.regs.len() == 16,
        base + OFF_SLOT_STATIC <= u64::MAX,
        at_vtable(w, fns, base, m0, run(w, assemble(resolve_program(fns, base)), m0, 43)),
        !run(w, assemble(resolve_program(fns, base)), m0, 43).zero,
    ensures
        at_end(w, fns, base, m0, run(w, assemble(resolve_program(fns, base)), m0, 52)),
{
    let p = resolve_program(fns, base);
    let code = assemble(p);
    lemma_layout(fns, base);
    lemma_positions(fns, base);
    lemma_guard(w, p, 43, 44, m0, 43);
    let m1 = run(w, code, m0, 44);
    lemma_go(w, p, 44, static_insns(fns, base), m0, 44);
    lemma_static(w, m1, fns, base);
    let m2 = run(w, code, m0, 52);
    let c = m2.calls.last();
    assert(m2.calls =~= m1.calls.push(c));
    lemma_answers_stay(w, m1.calls, c);
    lemma_call_well_made(m1, m0.regs[3], m0.regs[7], c.target, c.rcx, c.rdx, c.r8);
    assert(m2.stores =~= seq![
        klass_store(w, base, m2.calls),
        offset_store(w, base, m2.calls),
        ((base + OFF_SLOT_VTABLE) as u64, answer(w, m2.calls, 7)),
        ((base + OFF_SLOT_STATIC) as u64, answer(w, m2.calls, 8)),
    ]);
}

/// The stub keeps its promises, whatever the mono functions answer: it returns 0 with rbx,
/// rdi and rsp as it found them; every call it makes is aligned and leaves room for the
/// callee's shadow space; it asks the questions of `resolves` and no others, each with the
/// answers of the earlier ones; and it writes nothing but the answers into their slots.
pub proof fn law_stub_resolves_the_field(
    fns: MonoFunctions,
    base: u64,
    w: World,
    regs: Seq<u64>,
    zero: bool,
)
    requires
        regs.len() == 16,
        base + OFF_SLOT_STATIC <= u64::MAX,
    ensures
        ({
            let f = run(w, assemble(resolve_program(fns, base)), entry(regs, zero), 60);
            &&& f.status is Returned
            &&& f.depth == 0
            &&& f.regs[0] == 0
            &&& f.regs[3] == regs[3]
            &&& f.regs[7] == regs[7]
            &&& forall|i: int| 0 <= i < f.calls.len() ==> well_made(#[trigger] f.calls[i])
            &&& resolves(fns, base, w, f.calls, f.stores)
        }),
{
    let p = resolve_program(fns, base);
    let code = assemble(p);
    let m0 = entry(regs, zero);
    lemma_layout(fns, base);
    lemma_positions(fns, base);
    lemma_to_image(w, fns, base, m0);
    let n: nat = if run(w, code, m0, 13).zero {
        lemma_guard(w, p, 13, 208, m0, 13);
        14
    } else {
        lemma_to_class(w, fns, base, m0);
        if run(w, code, m0, 21).zero {
            lemma_guard(w, p, 21, 161, m0, 21);
            22
        } else {
            lemma_to_field(w, fns, base, m0);
            if run(w, code, m0, 30).zero {
                lemma_guard(w, p, 30, 111, m0, 30);
                31
            } else {
                lemma_to_vtable(w, fns, base, m0);
                if run(w, code, m0, 43).zero {
                    lemma_guard(w, p, 43, 44, m0, 43);
                    44
                } else {
                    lemma_to_end(w, fns, base, m0);
                    52
                }
            }
        }
    };
    let m = run(w, code, m0, n);
    lemma_exit(w, fns, base, m0, n);
    let f = run(w, code, m0, 60);
    let c = f.calls.last();
    assert(f.calls =~= m.calls.push(c));
    lemma_answers_stay(w, m.calls, c);
    lemma_call_well_made(m, regs[3], regs[7], c.target, c.rcx, c.rdx, c.r8);
}

/// The image, the class, the field and the vtable that the stub passes on to a mono function
/// are never null.
pub proof fn law_guarded_answers_are_not_null(
    fns: MonoFunctions,
    base: u64,
    w: World,
    calls: Seq<Call>,
    stores: Seq<(u64, u64)>,
)
    requires
        resolves(fns, base, w, calls, stores),
    ensures
        calls.len() >= 5 ==> calls[3].rcx != 0,
        calls.len() >= 6 ==> calls[4].rcx != 0,
        calls.len() >= 9 ==> calls[5].rcx != 0 && calls[7].rdx != 0,
        calls.len() >= 10 ==> calls[8].rcx != 0,
{
}

/// Every guard is a `jz` with a 32-bit displacement, and every one of them leads to the one
/// place behind the queries, inside the code, which is 300 bytes long.
pub proof fn law_guards_lead_to_the_exit(fns: MonoFunctions, base: u64)
    ensures
        forall|j: int|
            j == 63 || j == 110 || j == 160 || j == 227 ==> #[trigger] decode(
                assemble(resolve_program(fns, base)),
                j - 2,
            ) == Some(Insn::Jz((275 - (j + 4)) as i32)),
        assemble(resolve_program(fns, base)).len() == 300,
{
    let p = resolve_program(fns, base);
    lemma_layout(fns, base);
    lemma_positions(fns, base);
    lemma_block_sizes(fns, base);
    lemma_position_after(p, 52, thread_detach_insns(fns));
    lemma_position_after(p, 55, epilogue_insns());
    assert(p.take(60) =~= p);
    lemma_decode_at(p, 13);
    lemma_decode_at(p, 21);
    lemma_decode_at(p, 30);
    lemma_decode_at(p, 43);
}

/// What a slot that was empty holds behind some stores.
pub open spec fn slot_after(stores: Seq<(u64, u64)>, addr: u64) -> u64
    decreases stores.len(),
{
    if stores.len() == 0 {
        0
    } else if stores.last().0 == addr {
        stores.last().1
    } else {
        slot_after(stores.drop_last(), addr)
    }
}

/// The layout in the slots of the block at `base` behind some stores.
pub open spec fn layout_after(stores: Seq<(u64, u64)>, base: u64) -> FieldLayout {
    FieldLayout {
        klass: slot_after(stores, (base + OFF_SLOT_KLASS) as u64),
        vtable: slot_after(stores, (base + OFF_SLOT_VTABLE) as u64),
        offset: signed32(
            (slot_after(stores, (base + OFF_SLOT_OFFSET) as u64) % 0x1_0000_0000) as u32,
        ),
        static_data: slot_after(stores, (base + OFF_SLOT_STATIC) as u64),
    }
}

/// The layout that the stub leaves is complete exactly when mono knew the image, the class,
/// the field, the vtable and the static data; and then it is what mono answered.
pub proof fn law_complete_layout_is_monos_answer(
    fns: MonoFunctions,
    base: u64,
    w: World,
    calls: Seq<Call>,
    stores: Seq<(u64, u64)>,
)
    requires
        base + OFF_SLOT_STATIC <= u64::MAX,
        resolves(fns, base, w, calls, stores),
    ensures
        layout_after(stores, base).complete() <==> calls.len() == 10 && answer(w, calls, 8) != 0,
        layout_after(stores, base).complete() ==> {
            let l = layout_after(stores, base);
            &&& l.klass == answer(w, calls, 3)
            &&& l.offset == signed32((answer(w, calls, 5) % 0x1_0000_0000) as u32)
            &&& l.vtable == answer(w, calls, 7)
            &&& l.static_data == answer(w, calls, 8)
        },
{
    reveal_with_fuel(slot_after, 5);
    if calls.len() == 10 {
        let a = stores.drop_last();
        let b = a.drop_last();
        let c = b.drop_last();
        assert(stores.len() == 4 && a.len() == 3 && b.len() == 2 && c.len() == 1);
    }
}

} // verus!

//! Taking up a conversation again.
//!
//! An operation is a function of the answers so far, and is called anew for each further
//! answer. That it then makes the same requests again, so that none has to be performed
//! twice, is proved here.

use crate::bytes::{le_digits, word32};
use crate::inject::{
    allocated, block_item, fill_flow, put_flow, query_flow, resolve_flow, resolve_program, run_flow,
    slot_flow, slots_flow, FieldLayout, BLOCK_SIZE, OFF_CODE, OFF_SLOT_KLASS, OFF_SLOT_OFFSET,
    OFF_SLOT_STATIC, OFF_SLOT_VTABLE, RUN_TIMEOUT_MS,
};
use crate::mono::MonoFunctions;
use crate::remote::{
    ask_flow, opening, read_flow, read_i32_flow, read_u64_flow, write_flow, Answer, Ask, Flow, Halt,
    Talk,
};
use crate::trainer::{
    array_flow, check_flow, class_flow, complete_flow, counter_flow, dump_flow, element,
    element_flow, elements_text, extended, layout_note, length_flow, lives_flow, locate_flow,
    object_flow, offset_flow, place_flow, player_flow, players_flow, probe_flow, reasons, set_flow,
    store_flow, unknown_flow, ARRAY_HEADER_LEN, ELEMENTS_AT, ELEMENTS_OR_AT, LENGTH_AT, LENGTH_OR_AT,
};
use crate::x64::assemble;
use vstd::prelude::*;

verus! {

/// Whether `b` starts with `a`.
pub open spec fn begins<A>(a: Seq<A>, b: Seq<A>) -> bool {
    a.len() <= b.len() && forall|i: int| 0 <= i < a.len() ==> a[i] == #[trigger] b[i]
}

/// All requests of a conversation, with the one that has no answer yet.
pub open spec fn requests<T>(f: Flow<T>) -> Seq<Ask> {
    match f.0 {
        Err(Halt::Ask(q)) => f.1.asked.push(q),
        _ => f.1.asked,
    }
}

/// Whether `u` is `t` with more answers to come.
pub open spec fn supplied(t: Talk, u: Talk) -> bool {
    t.asked.len() <= t.log.len() && u.asked == t.asked && u.steps == t.steps && begins(t.log, u.log)
}

/// Whether `f`, which came out of `t`, goes on from there, and `g`, which came out of the same
/// conversation with more answers, goes on from `f`.
pub open spec fn resumes<T>(t: Talk, f: Flow<T>, u: Talk, g: Flow<T>) -> bool {
    &&& f.1.log == t.log
    &&& g.1.log == u.log
    &&& f.1.asked.len() <= t.log.len()
    &&& begins(t.asked, f.1.asked)
    &&& begins(t.steps, f.1.steps)
    &&& match f.0 {
        Err(Halt::Ask(q)) => f.1.asked.len() == t.log.len() && begins(
            f.1.asked.push(q),
            requests(g),
        ),
        _ => g.0 == f.0 && g.1.asked == f.1.asked && g.1.steps == f.1.steps,
    }
}

/// What goes on from a part that resumes, resumes.
proof fn lemma_join<A, B>(t: Talk, u: Talk, f: Flow<A>, g: Flow<A>, p: Flow<B>, q: Flow<B>)
    requires
        supplied(t, u),
        resumes(t, f, u, g),
        match f.0 {
            Err(h) => p.0 == Err::<B, Halt>(h) && p.1 == f.1,
            Ok(_) => resumes(f.1, p, g.1, q),
        },
        match g.0 {
            Err(h) => q.0 == Err::<B, Halt>(h) && q.1 == g.1,
            Ok(_) => begins(g.1.asked, q.1.asked) && q.1.log == g.1.log,
        },
    ensures
        resumes(t, p, u, q),
{
}

// Each part of a conversation resumes; one lemma for each, in the order of the parts.
proof fn lemma_ask(t: Talk, u: Talk, a: Ask)
    requires
        supplied(t, u),
    ensures
        resumes(t, ask_flow(t, a), u, ask_flow(u, a)),
{
}

proof fn lemma_read(t: Talk, u: Talk, addr: u64, len: u64)
    requires
        supplied(t, u),
    ensures
        resumes(t, read_flow(t, addr, len), u, read_flow(u, addr, len)),
{
    lemma_ask(t, u, Ask::Read { addr, len });
}

proof fn lemma_read_u64(t: Talk, u: Talk, addr: u64)
    requires
        supplied(t, u),
    ensures
        resumes(t, read_u64_flow(t, addr), u, read_u64_flow(u, addr)),
{
    lemma_read(t, u, addr, 8);
}

proof fn lemma_read_i32(t: Talk, u: Talk, addr: u64)
    requires
        supplied(t, u),
    ensures
        resumes(t, read_i32_flow(t, addr), u, read_i32_flow(u, addr)),
{
    lemma_read(t, u, addr, 4);
}

proof fn lemma_write(t: Talk, u: Talk, addr: u64, data: Seq<u8>)
    requires
        supplied(t, u),
    ensures
        resumes(t, write_flow(t, addr, data), u, write_flow(u, addr, data)),
{
    lemma_ask(t, u, Ask::Write { addr, data });
}

proof fn lemma_put(t: Talk, u: Talk, base: u64, off: u64, data: Seq<u8>)
    requires
        supplied(t, u),
    ensures
        resumes(t, put_flow(t, base, off, data), u, put_flow(u, base, off, data)),
{
    if base + off <= u64::MAX {
        lemma_write(t, u, (base + off) as u64, data);
    }
}

proof fn lemma_fill(t: Talk, u: Talk, base: u64, class: Seq<char>, field: Seq<char>, n: nat)
    requires
        supplied(t, u),
    ensures
        resumes(
            t,
            fill_flow(t, base, class, field, n),
            u,
            fill_flow(u, base, class, field, n),
        ),
    decreases n,
{
    if n > 0 {
        let m = (n - 1) as nat;
        lemma_fill(t, u, base, class, field, m);
        let (r, t2) = fill_flow(t, base, class, field, m);
        let (s, u2) = fill_flow(u, base, class, field, m);
        let (off, data) = block_item(n - 1, class, field);
        if r is Ok {
            lemma_put(t2, u2, base, off, data);
        }
        if s is Ok {
            lemma_put(u2, u2, base, off, data);
        }
    }
}

proof fn lemma_run(t: Talk, u: Talk, entry: u64)
    requires
        supplied(t, u),
    ensures
        resumes(t, run_flow(t, entry), u, run_flow(u, entry)),
{
    lemma_ask(t, u, Ask::Run { entry, timeout_ms: RUN_TIMEOUT_MS });
}

proof fn lemma_slot(t: Talk, u: Talk, base: u64, off: u64)
    requires
        supplied(t, u),
    ensures
        resumes(t, slot_flow(t, base, off), u, slot_flow(u, base, off)),
{
    lemma_read_u64(t, u, (base + off) as u64);
}

proof fn lemma_slots(t: Talk, u: Talk, base: u64)
    requires
        supplied(t, u),
    ensures
        resumes(t, slots_flow(t, base), u, slots_flow(u, base)),
{
    lemma_slot(t, u, base, OFF_SLOT_KLASS);
    let (r, t2) = slot_flow(t, base, OFF_SLOT_KLASS);
    let (s, u2) = slot_flow(u, base, OFF_SLOT_KLASS);
    if r is Ok {
        lemma_slot(t2, u2, base, OFF_SLOT_OFFSET);
        let (r, t3) = slot_flow(t2, base, OFF_SLOT_OFFSET);
        let (s, u3) = slot_flow(u2, base, OFF_SLOT_OFFSET);
        if r is Ok {
            lemma_slot(t3, u3, base, OFF_SLOT_VTABLE);
            let (r, t4) = slot_flow(t3, base, OFF_SLOT_VTABLE);
            let (s, u4) = slot_flow(u3, base, OFF_SLOT_VTABLE);
            if r is Ok {
                lemma_slot(t4, u4, base, OFF_SLOT_STATIC);
            }
            if s is Ok {
                lemma_slot(u4, u4, base, OFF_SLOT_STATIC);
            }
        }
        if s is Ok {
            lemma_slot(u3, u3, base, OFF_SLOT_VTABLE);
            let (s, v4) = slot_flow(u3, base, OFF_SLOT_VTABLE);
            if s is Ok {
                lemma_slot(v4, v4, base, OFF_SLOT_STATIC);
            }
        }
    }
    if s is Ok {
        lemma_slot(u2, u2, base, OFF_SLOT_OFFSET);
        let (s, v3) = slot_flow(u2, base, OFF_SLOT_OFFSET);
        if s is Ok {
            lemma_slot(v3, v3, base, OFF_SLOT_VTABLE);
            let (s, v4) = slot_flow(v3, base, OFF_SLOT_VTABLE);
            if s is Ok {
                lemma_slot(v4, v4, base, OFF_SLOT_STATIC);
            }
        }
    }
}

proof fn lemma_query(
    t: Talk,
    u: Talk,
    fns: MonoFunctions,
    base: u64,
    class: Seq<char>,
    field: Seq<char>,
)
    requires
        supplied(t, u),
    ensures
        resumes(
            t,
            query_flow(t, fns, base, class, field),
            u,
            query_flow(u, fns, base, class, field),
        ),
{
    lemma_fill(t, u, base, class, field, 8);
    let (r, t2) = fill_flow(t, base, class, field, 8);
    let (s, u2) = fill_flow(u, base, class, field, 8);
    if r is Ok {
        lemma_put(t2, u2, base, OFF_CODE, assemble(resolve_program(fns, base)));
        let (r, t3) = put_flow(t2, base, OFF_CODE, assemble(resolve_program(fns, base)));
        let (s, u3) = put_flow(u2, base, OFF_CODE, assemble(resolve_program(fns, base)));
        if r is Ok {
            lemma_run(t3, u3, base);
            let (r, t4) = run_flow(t3, base);
            let (s, u4) = run_flow(u3, base);
            if r is Ok {
                lemma_slots(t4, u4, base);
            }
            if s is Ok {
                lemma_slots(u4, u4, base);
            }
        }
        if s is Ok {
            lemma_run(u3, u3, base);
            let (s, v4) = run_flow(u3, base);
            if s is Ok {
                lemma_slots(v4, v4, base);
            }
        }
    }
    if s is Ok {
        lemma_put(u2, u2, base, OFF_CODE, assemble(resolve_program(fns, base)));
        let (s, v3) = put_flow(u2, base, OFF_CODE, assemble(resolve_program(fns, base)));
        if s is Ok {
            lemma_run(v3, v3, base);
            let (s, v4) = run_flow(v3, base);
            if s is Ok {
                lemma_slots(v4, v4, base);
            }
        }
    }
}

proof fn lemma_resolve(t: Talk, u: Talk, fns: MonoFunctions, class: Seq<char>, field: Seq<char>)
    requires
        supplied(t, u),
    ensures
        resumes(t, resolve_flow(t, fns, class, field), u, resolve_flow(u, fns, class, field)),
{
    let size = Ask::Alloc { size: BLOCK_SIZE };
    lemma_ask(t, u, size);
    let (r, t2) = ask_flow(t, size);
    let (s, u2) = ask_flow(u, size);
    if let Ok(a) = r {
        if let Ok(base) = allocated(a) {
            lemma_query(t2, u2, fns, base, class, field);
            let t3 = query_flow(t2, fns, base, class, field).1;
            let u3 = query_flow(u2, fns, base, class, field).1;
            if requests(query_flow(t2, fns, base, class, field)) == t3.asked {
                lemma_ask(t3, u3, Ask::Free { addr: base });
            }
        }
    }
    if let Ok(a) = s {
        if let Ok(base) = allocated(a) {
            lemma_query(u2, u2, fns, base, class, field);
            let u3 = query_flow(u2, fns, base, class, field).1;
            lemma_ask(u3, u3, Ask::Free { addr: base });
        }
    }
}

proof fn lemma_offset(t: Talk, u: Talk, a: u64, b: u64)
    requires
        supplied(t, u),
    ensures
        resumes(t, offset_flow(t, a, b), u, offset_flow(u, a, b)),
{

}

proof fn lemma_class(t: Talk, u: Talk, ptr: u64, vtable: u64)
    requires
        supplied(t, u),
    ensures
        resumes(t, class_flow(t, ptr, vtable), u, class_flow(u, ptr, vtable)),
{
    lemma_read_u64(t, u, ptr);
}

proof fn lemma_check(t: Talk, u: Talk, ptr: u64, vtable: u64, off: i32)
    requires
        supplied(t, u),
    ensures
        resumes(t, check_flow(t, ptr, vtable, off), u, check_flow(u, ptr, vtable, off)),
{
    lemma_class(t, u, ptr, vtable);
    let (r, t2) = class_flow(t, ptr, vtable);
    let (s, u2) = class_flow(u, ptr, vtable);
    if r is Ok {
        lemma_offset(t2, u2, ptr, extended(off));
        let (r, t3) = offset_flow(t2, ptr, extended(off));
        let (s, u3) = offset_flow(u2, ptr, extended(off));
        if let Ok(addr) = r {
            lemma_read_i32(t3, u3, addr);
        }
        if let Ok(addr) = s {
            lemma_read_i32(u3, u3, addr);
        }
    }
    if s is Ok {
        lemma_offset(u2, u2, ptr, extended(off));
        let (s, v3) = offset_flow(u2, ptr, extended(off));
        if let Ok(addr) = s {
            lemma_read_i32(v3, v3, addr);
        }
    }
}

proof fn lemma_place(t: Talk, u: Talk, header: Seq<u8>, vtable: u64)
    requires
        supplied(t, u),
    ensures
        resumes(t, place_flow(t, header, vtable), u, place_flow(u, header, vtable)),
{
    if let Some(ptr) = element(header, 0, ELEMENTS_OR_AT as int) {
        lemma_class(t, u, ptr, vtable);
    }
}

proof fn lemma_probe(
    t: Talk,
    u: Talk,
    header: Seq<u8>,
    index: u64,
    elem_off: usize,
    vtable: u64,
    off: i32,
)
    requires
        supplied(t, u),
    ensures
        resumes(
            t,
            probe_flow(t, header, index, elem_off, vtable, off),
            u,
            probe_flow(u, header, index, elem_off, vtable, off),
        ),
{
    if let Some(ptr) = element(header, index as int, elem_off as int) {
        lemma_check(t, u, ptr, vtable, off);
    }
}

proof fn lemma_length(t: Talk, u: Talk, base: u64)
    requires
        supplied(t, u),
    ensures
        resumes(t, length_flow(t, base), u, length_flow(u, base)),
{
    lemma_offset(t, u, base, LENGTH_AT);
    let (r, t2) = offset_flow(t, base, LENGTH_AT);
    let (s, u2) = offset_flow(u, base, LENGTH_AT);
    if let Ok(first) = r {
        lemma_read_u64(t2, u2, first);
        let (r, t3) = read_u64_flow(t2, first);
        let (s, u3) = read_u64_flow(u2, first);
        if r is Ok {
            lemma_read_u64(t3, u3, (base + LENGTH_OR_AT) as u64);
        }
        if s is Ok {
            lemma_read_u64(u3, u3, (base + LENGTH_OR_AT) as u64);
        }
    }
    if let Ok(first) = s {
        lemma_read_u64(u2, u2, first);
        let (s, v3) = read_u64_flow(u2, first);
        if s is Ok {
            lemma_read_u64(v3, v3, (base + LENGTH_OR_AT) as u64);
        }
    }
}

proof fn lemma_dump(t: Talk, u: Talk, addr: u64)
    requires
        supplied(t, u),
    ensures
        resumes(t, dump_flow(t, addr), u, dump_flow(u, addr)),
{
    lemma_read(t, u, addr, ARRAY_HEADER_LEN);
}

proof fn lemma_unknown(t: Talk, u: Talk, base: u64, index: u64, vtable: u64, seen: Seq<char>)
    requires
        supplied(t, u),
    ensures
        resumes(
            t,
            unknown_flow(t, base, index, vtable, seen),
            u,
            unknown_flow(u, base, index, vtable, seen),
        ),
{
    lemma_dump(t, u, base);
}

/// What `element_flow` does once the place is decided.
spec fn placed_flow(
    t: Talk,
    header: Seq<u8>,
    base: u64,
    index: u64,
    vtable: u64,
    off: i32,
    place: usize,
    a: Option<Seq<char>>,
) -> Flow<u64> {
    match probe_flow(t, header, index, place, vtable, off) {
        (Err(h), t3) => (Err(h), t3),
        (Ok(Err(b)), t3) => unknown_flow(
            t3,
            base,
            index,
            vtable,
            elements_text(header, index, reasons(b, a)),
        ),
        (Ok(Ok(ptr)), t3) => if place == ELEMENTS_AT {
            (Ok(ptr), t3)
        } else {
            match ask_flow(t3, layout_note()) {
                (Err(h), t4) => (Err(h), t4),
                (Ok(_), t4) => (Ok(ptr), t4),
            }
        },
    }
}

proof fn lemma_placed(
    t: Talk,
    u: Talk,
    header: Seq<u8>,
    base: u64,
    index: u64,
    vtable: u64,
    off: i32,
    place: usize,
    a: Option<Seq<char>>,
)
    requires
        supplied(t, u),
    ensures
        resumes(
            t,
            placed_flow(t, header, base, index, vtable, off, place, a),
            u,
            placed_flow(u, header, base, index, vtable, off, place, a),
        ),
{
    lemma_probe(t, u, header, index, place, vtable, off);
    let (r, t2) = probe_flow(t, header, index, place, vtable, off);
    let (s, u2) = probe_flow(u, header, index, place, vtable, off);
    match r {
        Ok(Ok(_)) => lemma_ask(t2, u2, layout_note()),
        Ok(Err(b)) => lemma_unknown(
            t2, u2,
            base,
            index,
            vtable,
            elements_text(header, index, reasons(b, a)),
        ),
        Err(_) => {},
    }
    match s {
        Ok(Ok(_)) => lemma_ask(u2, u2, layout_note()),
        Ok(Err(b)) => lemma_unknown(
            u2, u2,
            base,
            index,
            vtable,
            elements_text(header, index, reasons(b, a)),
        ),
        Err(_) => {},
    }
}

proof fn lemma_element(
    t: Talk,
    u: Talk,
    header: Seq<u8>,
    base: u64,
    index: u64,
    vtable: u64,
    off: i32,
)
    requires
        supplied(t, u),
    ensures
        resumes(
            t,
            element_flow(t, header, base, index, vtable, off),
            u,
            element_flow(u, header, base, index, vtable, off),
        ),
{
    lemma_place(t, u, header, vtable);
    let f = place_flow(t, header, vtable);
    let g = place_flow(u, header, vtable);
    let p = element_flow(t, header, base, index, vtable, off);
    let q = element_flow(u, header, base, index, vtable, off);
    if let Ok((place, a)) = f.0 {
        lemma_placed(f.1, g.1, header, base, index, vtable, off, place, a);
    }
    if let Ok((place, a)) = g.0 {
        lemma_placed(g.1, g.1, header, base, index, vtable, off, place, a);
    }
    lemma_join(t, u, f, g, p, q);
}

proof fn lemma_locate(t: Talk, u: Talk, array: u64, player: i32, vtable: u64, off: i32)
    requires
        supplied(t, u),
    ensures
        resumes(
            t,
            locate_flow(t, array, player, vtable, off),
            u,
            locate_flow(u, array, player, vtable, off),
        ),
{
    lemma_read(t, u, array, ARRAY_HEADER_LEN);
    let (r, t2) = read_flow(t, array, ARRAY_HEADER_LEN);
    let (s, u2) = read_flow(u, array, ARRAY_HEADER_LEN);
    if let Ok(header) = r {
        lemma_length(t2, u2, array);
        let (r, t3) = length_flow(t2, array);
        let (s, u3) = length_flow(u2, array);
        if r is Ok {
            lemma_element(t3, u3, header->0, array, extended(player), vtable, off);
        }
        if s is Ok {
            lemma_element(u3, u3, header->0, array, extended(player), vtable, off);
        }
    }
    if let Ok(header) = s {
        lemma_length(u2, u2, array);
        let (s, v3) = length_flow(u2, array);
        if s is Ok {
            lemma_element(v3, v3, header->0, array, extended(player), vtable, off);
        }
    }
}

proof fn lemma_complete(t: Talk, u: Talk, fns: MonoFunctions, class: Seq<char>, field: Seq<char>)
    requires
        supplied(t, u),
    ensures
        resumes(t, complete_flow(t, fns, class, field), u, complete_flow(u, fns, class, field)),
{
    lemma_resolve(t, u, fns, class, field);
}

proof fn lemma_players(t: Talk, u: Talk, fns: MonoFunctions)
    requires
        supplied(t, u),
    ensures
        resumes(t, players_flow(t, fns), u, players_flow(u, fns)),
{
    lemma_complete(t, u, fns, "HeroController"@, "players"@);
}

proof fn lemma_player(t: Talk, u: Talk, fns: MonoFunctions)
    requires
        supplied(t, u),
    ensures
        resumes(t, player_flow(t, fns), u, player_flow(u, fns)),
{
    lemma_complete(t, u, fns, "Player"@, "lives"@);
}

proof fn lemma_array(t: Talk, u: Talk, addr: u64)
    requires
        supplied(t, u),
    ensures
        resumes(t, array_flow(t, addr), u, array_flow(u, addr)),
{
    lemma_read_u64(t, u, addr);
}

proof fn lemma_object(t: Talk, u: Talk, addr: u64, array: u64, player: i32, l: FieldLayout)
    requires
        supplied(t, u),
    ensures
        resumes(
            t,
            object_flow(t, addr, array, player, l),
            u,
            object_flow(u, addr, array, player, l),
        ),
{
    lemma_locate(t, u, array, player, l.vtable, l.offset);
}

proof fn lemma_counter(t: Talk, u: Talk, addr: u64, player: i32, l: FieldLayout)
    requires
        supplied(t, u),
    ensures
        resumes(t, counter_flow(t, addr, player, l), u, counter_flow(u, addr, player, l)),
{
    lemma_array(t, u, addr);
    let (r, t2) = array_flow(t, addr);
    let (s, u2) = array_flow(u, addr);
    if let Ok(array) = r {
        lemma_object(t2, u2, addr, array, player, l);
    }
    if let Ok(array) = s {
        lemma_object(u2, u2, addr, array, player, l);
    }
}

/// Locating resumes behind the first lookup.
proof fn lemma_behind_players(
    t: Talk,
    u: Talk,
    fns: MonoFunctions,
    addr: u64,
    player: i32,
    p: Flow<u64>,
    q: Flow<u64>,
)
    requires
        supplied(t, u),
        match player_flow(t, fns) {
            (Err(h), t2) => p == (Err::<u64, Halt>(h), t2),
            (Ok(l), t2) => p == counter_flow(t2, addr, player, l),
        },
        match player_flow(u, fns) {
            (Err(h), u2) => q == (Err::<u64, Halt>(h), u2),
            (Ok(l), u2) => q == counter_flow(u2, addr, player, l),
        },
    ensures
        resumes(t, p, u, q),
{
    lemma_player(t, u, fns);
    let f = player_flow(t, fns);
    let g = player_flow(u, fns);
    if let Ok(l) = f.0 {
        lemma_counter(f.1, g.1, addr, player, l);
    }
    if let Ok(l) = g.0 {
        lemma_counter(g.1, g.1, addr, player, l);
    }
    lemma_join(t, u, f, g, p, q);
}

proof fn lemma_lives(t: Talk, u: Talk, fns: MonoFunctions, player: i32)
    requires
        supplied(t, u),
    ensures
        resumes(t, lives_flow(t, fns, player), u, lives_flow(u, fns, player)),
{
    lemma_players(t, u, fns);
    let f = players_flow(t, fns);
    let g = players_flow(u, fns);
    let p = lives_flow(t, fns, player);
    let q = lives_flow(u, fns, player);
    if let Ok(addr) = f.0 {
        lemma_behind_players(f.1, g.1, fns, addr, player, p, q);
    }
    if let Ok(addr) = g.0 {
        lemma_behind_players(g.1, g.1, fns, addr, player, q, q);
    }
    lemma_join(t, u, f, g, p, q);
}

proof fn lemma_store(t: Talk, u: Talk, addr: u64, lives: i32)
    requires
        supplied(t, u),
    ensures
        resumes(t, store_flow(t, addr, lives), u, store_flow(u, addr, lives)),
{
    lemma_read_i32(t, u, addr);
    let (r, t2) = read_i32_flow(t, addr);
    let (s, u2) = read_i32_flow(u, addr);
    if r is Ok {
        lemma_write(t2, u2, addr, le_digits(word32(lives) as nat, 4));
        let (r, t3) = write_flow(t2, addr, le_digits(word32(lives) as nat, 4));
        let (s, u3) = write_flow(u2, addr, le_digits(word32(lives) as nat, 4));
        if r is Ok {
            lemma_read_i32(t3, u3, addr);
        }
        if s is Ok {
            lemma_read_i32(u3, u3, addr);
        }
    }
    if s is Ok {
        lemma_write(u2, u2, addr, le_digits(word32(lives) as nat, 4));
        let (s, v3) = write_flow(u2, addr, le_digits(word32(lives) as nat, 4));
        if s is Ok {
            lemma_read_i32(v3, v3, addr);
        }
    }
}

/// Storing resumes behind any part that does.
proof fn lemma_stored(
    t: Talk,
    u: Talk,
    f: Flow<u64>,
    g: Flow<u64>,
    lives: i32,
    p: Flow<u64>,
    q: Flow<u64>,
)
    requires
        supplied(t, u),
        resumes(t, f, u, g),
        begins(u.asked, g.1.asked),
        g.1.asked.len() <= u.log.len(),
        match f {
            (Err(h), t2) => p == (Err::<u64, Halt>(h), t2),
            (Ok(addr), t2) => p == store_flow(t2, addr, lives),
        },
        match g {
            (Err(h), u2) => q == (Err::<u64, Halt>(h), u2),
            (Ok(addr), u2) => q == store_flow(u2, addr, lives),
        },
    ensures
        resumes(t, p, u, q),
{
    if let Ok(addr) = f.0 {
        lemma_store(f.1, g.1, addr, lives);
    }
    if let Ok(addr) = g.0 {
        lemma_store(g.1, g.1, addr, lives);
    }
    lemma_join(t, u, f, g, p, q);
}

proof fn lemma_set(t: Talk, u: Talk, fns: MonoFunctions, player: i32, lives: i32)
    requires
        supplied(t, u),
    ensures
        resumes(t, set_flow(t, fns, player, lives), u, set_flow(u, fns, player, lives)),
{
    lemma_lives(t, u, fns, player);
    lemma_lives(u, u, fns, player);
    lemma_stored(
        t,
        u,
        lives_flow(t, fns, player),
        lives_flow(u, fns, player),
        lives,
        set_flow(t, fns, player, lives),
        set_flow(u, fns, player, lives),
    );
}

/// A conversation can be taken up again. When an answer is missing, all given ones have been
/// used; with more answers the same requests come first, and the one that was named comes
/// next. A finished conversation does not change.
pub proof fn law_conversations_resume(
    log: Seq<Answer>,
    more: Seq<Answer>,
    fns: MonoFunctions,
    class: Seq<char>,
    field: Seq<char>,
    player: i32,
    lives: i32,
)
    ensures
        resumes(
            opening(log),
            resolve_flow(opening(log), fns, class, field),
            opening(log + more),
            resolve_flow(opening(log + more), fns, class, field),
        ),
        resumes(
            opening(log),
            lives_flow(opening(log), fns, player),
            opening(log + more),
            lives_flow(opening(log + more), fns, player),
        ),
        resumes(
            opening(log),
            set_flow(opening(log), fns, player, lives),
            opening(log + more),
            set_flow(opening(log + more), fns, player, lives),
        ),
{
    lemma_resolve(opening(log), opening(log + more), fns, class, field);
    lemma_lives(opening(log), opening(log + more), fns, player);
    lemma_set(opening(log), opening(log + more), fns, player, lives);
}

} // verus!

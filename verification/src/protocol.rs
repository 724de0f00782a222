//! What the conversations with the target process keep to.
//!
//! The laws here speak of the requests that an operation makes, whatever the target answers:
//! what is written and where, what runs, that nothing is left behind, and that a conversation
//! ends. The last part relates locating a player to the memory that it looks at.

use crate::bytes::{le_digits, le_value, signed32, word32};
use crate::execution::law_guards_lead_to_the_exit;
use crate::inject::{
    allocated, block_item, cstr, fill_flow, put_flow, query_flow, resolve_flow, resolve_program,
    run_flow, slots_flow, FieldLayout, BLOCK_SIZE, OFF_CODE, OFF_SLOT_KLASS, OFF_SLOT_OFFSET,
    OFF_SLOT_STATIC, OFF_SLOT_VTABLE, OFF_STR_CLASS, OFF_STR_FIELD, RUN_TIMEOUT_MS,
};
use crate::mono::MonoFunctions;
use crate::remote::{
    ask_flow, data_of, opening, read_flow, written, Answer, Ask, Flow, Halt, RunResult, Talk,
};
use crate::resuming::{begins, requests};
use crate::trainer::{
    array_flow, believable, check_flow, counter_flow, element, element_flow, extended, length_flow,
    lives_flow, locate_flow, picked, place_flow, plausible_length, player_flow, players_flow,
    probe_flow, set_flow, store_flow, ARRAY_HEADER_LEN, ELEMENTS_AT, ELEMENTS_OR_AT, LENGTH_AT,
    LENGTH_OR_AT,
};
use crate::win32::WAIT_OBJECT_0;
use crate::x64::assemble;
use vstd::prelude::*;
use vstd::utf8::{is_ascii_chars, is_ascii_chars_encode_utf8};

verus! {

// ---------------------------------------------------------------------------
// The script of a lookup
// ---------------------------------------------------------------------------
/// What a result slot holds; an unreadable one counts as empty.
pub open spec fn slot_of(a: Answer) -> u64 {
    match data_of(a, 8) {
        Some(d) => le_value(d) as u64,
        None => 0,
    }
}

/// The layout in the four answers from the `n`-th on.
pub open spec fn layout_at(log: Seq<Answer>, n: int) -> FieldLayout {
    FieldLayout {
        klass: slot_of(log[n]),
        offset: signed32((slot_of(log[n + 1]) % 0x1_0000_0000) as u32),
        vtable: slot_of(log[n + 2]),
        static_data: slot_of(log[n + 3]),
    }
}

/// The `i`-th request that is made of a block at `base`: filling it, writing the stub,
/// running it, reading the slots.
pub open spec fn block_request(
    fns: MonoFunctions,
    base: u64,
    class: Seq<char>,
    field: Seq<char>,
    i: int,
) -> Ask {
    if i < 8 {
        let (off, data) = block_item(i, class, field);
        Ask::Write { addr: (base + off) as u64, data }
    } else if i == 8 {
        Ask::Write { addr: (base + OFF_CODE) as u64, data: assemble(resolve_program(fns, base)) }
    } else if i == 9 {
        Ask::Run { entry: base, timeout_ms: RUN_TIMEOUT_MS }
    } else if i == 10 {
        Ask::Read { addr: (base + OFF_SLOT_KLASS) as u64, len: 8 }
    } else if i == 11 {
        Ask::Read { addr: (base + OFF_SLOT_OFFSET) as u64, len: 8 }
    } else if i == 12 {
        Ask::Read { addr: (base + OFF_SLOT_VTABLE) as u64, len: 8 }
    } else {
        Ask::Read { addr: (base + OFF_SLOT_STATIC) as u64, len: 8 }
    }
}

/// Whether `f` goes on from `t`, and all of its requests from the `from`-th on are those of
/// the block, up to the `n`-th.
spec fn scripted<T>(
    t: Talk,
    f: Flow<T>,
    fns: MonoFunctions,
    base: u64,
    class: Seq<char>,
    field: Seq<char>,
    from: int,
    n: int,
) -> bool {
    &&& f.1.log == t.log
    &&& begins(t.asked, f.1.asked)
    &&& f.1.asked.len() <= t.log.len()
    &&& requests(f).len() <= from + n
    &&& forall|i: int|
        from <= i < requests(f).len() ==> #[trigger] requests(f)[i] == block_request(
            fns,
            base,
            class,
            field,
            i - from,
        )
    &&& forall|j: int|
        0 <= j < 8 && j < requests(f).len() - from ==> base + (#[trigger] block_item(
            j,
            class,
            field,
        )).0 <= u64::MAX
    &&& f.0 is Ok ==> f.1.asked.len() == from + n
}

/// Whether every write among the requests from the `from`-th on that has another one behind
/// it has succeeded, up to the ninth, and was to an address that fits.
spec fn written_so_far<T>(f: Flow<T>, base: u64, from: int) -> bool {
    &&& forall|i: int|
        from <= i < from + 9 && i + 1 < requests(f).len() ==> written(
            #[trigger] f.1.log[i],
        ) is Ok
    &&& requests(f).len() > from + 8 ==> base + OFF_SLOT_STATIC <= u64::MAX
}

/// Filling the block follows the script.
proof fn lemma_fill_script(
    t: Talk,
    fns: MonoFunctions,
    base: u64,
    class: Seq<char>,
    field: Seq<char>,
    n: nat,
)
    requires
        t.asked.len() <= t.log.len(),
        n <= 8,
    ensures
        scripted(
            t,
            fill_flow(t, base, class, field, n),
            fns,
            base,
            class,
            field,
            t.asked.len() as int,
            n as int,
        ),
        ({
            let f = fill_flow(t, base, class, field, n);
            let from = t.asked.len() as int;
            &&& forall|i: int|
                from <= i && i + 1 < requests(f).len() ==> written(#[trigger] t.log[i]) is Ok
            &&& f.0 is Ok ==> forall|i: int|
                from <= i < from + n ==> written(#[trigger] t.log[i]) is Ok
            &&& f.0 is Ok && n == 8 ==> base + OFF_SLOT_STATIC <= u64::MAX
        }),
    decreases n,
{
    if n > 0 {
        lemma_fill_script(t, fns, base, class, field, (n - 1) as nat);
    }
}

/// Reading the slots follows the script, and the layout is what they hold.
proof fn lemma_slots_script(
    t: Talk,
    fns: MonoFunctions,
    base: u64,
    class: Seq<char>,
    field: Seq<char>,
    from: int,
)
    requires
        from >= 0,
        t.asked.len() == from + 10,
        t.asked.len() <= t.log.len(),
        forall|i: int|
            from <= i < from + 10 ==> #[trigger] t.asked[i] == block_request(
                fns,
                base,
                class,
                field,
                i - from,
            ),
        base + OFF_SLOT_STATIC <= u64::MAX,
    ensures
        scripted(t, slots_flow(t, base), fns, base, class, field, from, 14),
        slots_flow(t, base).0 matches Ok(l) ==> l == layout_at(t.log, from + 10),
        slots_flow(t, base).0 is Err ==> (slots_flow(t, base).0->Err_0 is Ask),
{
}

/// Querying follows the script.
proof fn lemma_query_script(
    t: Talk,
    fns: MonoFunctions,
    base: u64,
    class: Seq<char>,
    field: Seq<char>,
)
    requires
        t.asked.len() <= t.log.len(),
    ensures
        scripted(
            t,
            query_flow(t, fns, base, class, field),
            fns,
            base,
            class,
            field,
            t.asked.len() as int,
            14,
        ),
        written_so_far(query_flow(t, fns, base, class, field), base, t.asked.len() as int),
        query_flow(t, fns, base, class, field).0 matches Ok(l) ==> l == layout_at(
            t.log,
            t.asked.len() as int + 10,
        ),
{
    let from = t.asked.len() as int;
    lemma_fill_script(t, fns, base, class, field, 8);
    let (r, t2) = fill_flow(t, base, class, field, 8);
    if r is Ok {
        let code = assemble(resolve_program(fns, base));
        let (r3, t3) = put_flow(t2, base, OFF_CODE, code);
        if r3 is Ok {
            let (r4, t4) = run_flow(t3, base);
            if r4 is Ok {
                lemma_slots_script(t4, fns, base, class, field, from);
            }
        }
    }
}

/// Whether the requests from `from` up to `to` are a lookup of `class.field`: a block is
/// allocated; in it goes the script, each step behind the success of the one before; at the
/// end, wherever that is, the block is released.
pub open spec fn lookup(
    fns: MonoFunctions,
    class: Seq<char>,
    field: Seq<char>,
    log: Seq<Answer>,
    q: Seq<Ask>,
    from: int,
    to: int,
) -> bool {
    from < to ==> {
        &&& q[from] == (Ask::Alloc { size: BLOCK_SIZE })
        &&& from + 1 < to ==> {
            &&& allocated(log[from]) is Ok
            &&& block_used(fns, allocated(log[from])->Ok_0, class, field, log, q, from + 1, to)
        }
    }
}

/// Whether the requests from `from` up to `to` are the script of the block at `base`, or a
/// start of it followed by the release.
pub open spec fn block_used(
    fns: MonoFunctions,
    base: u64,
    class: Seq<char>,
    field: Seq<char>,
    log: Seq<Answer>,
    q: Seq<Ask>,
    from: int,
    to: int,
) -> bool {
    &&& to <= from + 15
    &&& forall|i: int|
        from <= i < to - 1 ==> #[trigger] q[i] == block_request(fns, base, class, field, i - from)
    &&& q[to - 1] == (Ask::Free { addr: base }) || (to <= from + 14 && q[to - 1] == block_request(
        fns,
        base,
        class,
        field,
        to - 1 - from,
    ))
    &&& forall|i: int|
        from <= i < from + 9 && i + 1 < to && q[i + 1] !is Free ==> written(#[trigger] log[i]) is Ok
    &&& forall|i: int|
        from <= i < to && i < from + 8 && q[i] !is Free ==> base + (#[trigger] block_item(
            i - from,
            class,
            field,
        )).0 <= u64::MAX
    &&& to > from + 9 ==> base + OFF_SLOT_STATIC <= u64::MAX
}

/// A lookup is one, whatever is answered.
pub(crate) proof fn lemma_resolve_script(t: Talk, fns: MonoFunctions, class: Seq<char>, field: Seq<char>)
    requires
        t.asked.len() <= t.log.len(),
    ensures
        ({
            let f = resolve_flow(t, fns, class, field);
            let from = t.asked.len() as int;
            let to = requests(f).len() as int;
            &&& f.1.log == t.log
            &&& begins(t.asked, f.1.asked)
            &&& f.1.asked.len() <= t.log.len()
            &&& from < to
            &&& lookup(fns, class, field, t.log, requests(f), from, to)
            &&& requests(f) == f.1.asked && allocated(t.log[from]) is Ok ==> from + 1 < to
                && requests(f)[to - 1] == (Ask::Free { addr: allocated(t.log[from])->Ok_0 })
            &&& f.0 matches Ok(l) ==> to == from + 16 && allocated(t.log[from]) is Ok && l
                == layout_at(t.log, from + 11)
        }),
{
    let (r, t2) = ask_flow(t, Ask::Alloc { size: BLOCK_SIZE });
    if let Ok(a) = r {
        if let Ok(base) = allocated(a) {
            lemma_query_script(t2, fns, base, class, field);
        }
    }
}

// ---------------------------------------------------------------------------
// What may happen to the target
// ---------------------------------------------------------------------------
/// Whether the `j`-th request was answered with a block at `base`.
pub open spec fn gave(log: Seq<Answer>, q: Seq<Ask>, j: int, base: u64) -> bool {
    q[j] == (Ask::Alloc { size: BLOCK_SIZE }) && allocated(log[j]) == Ok::<u64, u32>(base)
}

/// Whether the block at `base` is held before the `i`-th request: it was given, and has not
/// been released since.
pub open spec fn held(log: Seq<Answer>, q: Seq<Ask>, i: int, base: u64) -> bool {
    exists|j: int|
        0 <= j < i && #[trigger] gave(log, q, j, base) && forall|k: int|
            j < k < i ==> #[trigger] q[k] != (Ask::Free { addr: base })
}

/// Whether the bytes lie in the block at `base`.
pub open spec fn inside(base: u64, addr: u64, len: nat) -> bool {
    base <= addr && addr + len <= base + BLOCK_SIZE
}

/// Whether the `i`-th request leaves the game alone. Reading always does. Whatever is
/// written goes into a block that is held; whatever runs is the stub, written to its place
/// by the request before; and only a held block is released.
pub open spec fn harmless(fns: MonoFunctions, log: Seq<Answer>, q: Seq<Ask>, i: int) -> bool {
    match q[i] {
        Ask::Alloc { size } => size == BLOCK_SIZE,
        Ask::Read { .. } => true,
        Ask::Note { .. } => true,
        Ask::Write { addr, data } => exists|base: u64| #[trigger]
            held(log, q, i, base) && inside(base, addr, data.len()),
        Ask::Run { entry, timeout_ms } => {
            &&& timeout_ms == RUN_TIMEOUT_MS
            &&& held(log, q, i, entry)
            &&& i > 0
            &&& q[i - 1] == (Ask::Write {
                addr: entry,
                data: assemble(resolve_program(fns, entry)),
            })
            &&& written(log[i - 1]) is Ok
        },
        Ask::Free { addr } => held(log, q, i, addr),
    }
}

/// Whether the names fit into a block.
pub open spec fn names_fit(class: Seq<char>, field: Seq<char>) -> bool {
    OFF_STR_CLASS + cstr(class).len() <= BLOCK_SIZE && OFF_STR_FIELD + cstr(field).len()
        <= BLOCK_SIZE
}

/// A string of ASCII characters has as many bytes.
proof fn lemma_ascii_cstr(s: Seq<char>)
    requires
        is_ascii_chars(s),
    ensures
        cstr(s).len() == s.len() + 1,
{
    is_ascii_chars_encode_utf8(s);
}

/// How long the strings of a block are.
proof fn lemma_string_sizes()
    ensures
        cstr("Assembly-CSharp"@).len() == 16,
        cstr(""@).len() == 1,
        cstr("HeroController"@).len() == 15,
        cstr("players"@).len() == 8,
        cstr("Player"@).len() == 7,
        cstr("lives"@).len() == 6,
{
    reveal_strlit("Assembly-CSharp");
    reveal_strlit("");
    reveal_strlit("HeroController");
    reveal_strlit("players");
    reveal_strlit("Player");
    reveal_strlit("lives");
    lemma_ascii_cstr("Assembly-CSharp"@);
    lemma_ascii_cstr(""@);
    lemma_ascii_cstr("HeroController"@);
    lemma_ascii_cstr("players"@);
    lemma_ascii_cstr("Player"@);
    lemma_ascii_cstr("lives"@);
}

/// Every request of a script is harmless.
proof fn lemma_block_is_harmless(
    fns: MonoFunctions,
    base: u64,
    class: Seq<char>,
    field: Seq<char>,
    log: Seq<Answer>,
    q: Seq<Ask>,
    from: int,
    to: int,
    i: int,
)
    requires
        names_fit(class, field),
        1 <= from <= i < to <= q.len(),
        gave(log, q, from - 1, base),
        block_used(fns, base, class, field, log, q, from, to),
    ensures
        harmless(fns, log, q, i),
{
    lemma_string_sizes();
    law_guards_lead_to_the_exit(fns, base);
    assert forall|k: int| from - 1 < k < i implies #[trigger] q[k] != (Ask::Free { addr: base }) by {
        assert(q[k] == block_request(fns, base, class, field, k - from));
    }
    assert(held(log, q, i, base));
    if q[i] !is Free {
        assert(q[i] == block_request(fns, base, class, field, i - from));
        if i < from + 8 {
            let (off, data) = block_item(i - from, class, field);
        } else if i == from + 9 {
            assert(q[i - 1] == block_request(fns, base, class, field, 8));
            assert(written(log[from + 8]) is Ok);
        }
    }
}

/// Every request of a lookup is harmless.
proof fn lemma_lookup_is_harmless(
    fns: MonoFunctions,
    class: Seq<char>,
    field: Seq<char>,
    log: Seq<Answer>,
    q: Seq<Ask>,
    from: int,
    to: int,
)
    requires
        names_fit(class, field),
        0 <= from <= to <= q.len(),
        lookup(fns, class, field, log, q, from, to),
    ensures
        forall|i: int| from <= i < to ==> #[trigger] harmless(fns, log, q, i),
{
    assert forall|i: int| from <= i < to implies #[trigger] harmless(fns, log, q, i) by {
        if i > from {
            let base = allocated(log[from])->Ok_0;
            lemma_block_is_harmless(fns, base, class, field, log, q, from + 1, to, i);
        }
    }
}

// ---------------------------------------------------------------------------
// What the stub finds in its block
// ---------------------------------------------------------------------------
/// What the `i`-th write puts into the block at `base`, and where.
pub open spec fn block_part(
    fns: MonoFunctions,
    base: u64,
    class: Seq<char>,
    field: Seq<char>,
    i: int,
) -> (u64, Seq<u8>) {
    if i < 8 {
        block_item(i, class, field)
    } else {
        (OFF_CODE, assemble(resolve_program(fns, base)))
    }
}

/// Whether the names end before the next part of the block.
pub open spec fn names_short(class: Seq<char>, field: Seq<char>) -> bool {
    OFF_STR_CLASS + cstr(class).len() <= OFF_STR_FIELD && OFF_STR_FIELD + cstr(field).len()
        <= OFF_SLOT_KLASS
}

/// The memory `m` with `data` written into it at `off`.
pub open spec fn overwritten(m: Seq<u8>, off: int, data: Seq<u8>) -> Seq<u8> {
    m.take(off) + data + m.skip(off + data.len())
}

/// The block behind the first `n` writes.
pub open spec fn block_after(
    m: Seq<u8>,
    fns: MonoFunctions,
    base: u64,
    class: Seq<char>,
    field: Seq<char>,
    n: nat,
) -> Seq<u8>
    decreases n,
{
    if n == 0 {
        m
    } else {
        let (off, data) = block_part(fns, base, class, field, n - 1);
        overwritten(
            block_after(m, fns, base, class, field, (n - 1) as nat),
            off as int,
            data,
        )
    }
}

/// No two parts of the block overlap, and all lie in it.
pub proof fn law_block_parts_do_not_overlap(
    fns: MonoFunctions,
    base: u64,
    class: Seq<char>,
    field: Seq<char>,
)
    requires
        names_short(class, field),
    ensures
        forall|i: int, j: int|
            0 <= i < 9 && 0 <= j < 9 && i != j ==> {
                let (x, a) = #[trigger] block_part(fns, base, class, field, i);
                let (y, b) = #[trigger] block_part(fns, base, class, field, j);
                x + a.len() <= y || y + b.len() <= x
            },
        forall|i: int|
            0 <= i < 9 ==> {
                let (x, a) = #[trigger] block_part(fns, base, class, field, i);
                x + a.len() <= BLOCK_SIZE
            },
{
    lemma_string_sizes();
    law_guards_lead_to_the_exit(fns, base);
}

/// Once everything is written, each part stands in the block as it was written: the stub
/// finds the names that it passes to mono, and empty slots.
pub proof fn law_block_holds_its_parts(
    m: Seq<u8>,
    fns: MonoFunctions,
    base: u64,
    class: Seq<char>,
    field: Seq<char>,
)
    requires
        names_short(class, field),
        m.len() == BLOCK_SIZE,
    ensures
        forall|i: int|
            0 <= i < 9 ==> {
                let (off, data) = #[trigger] block_part(fns, base, class, field, i);
                block_after(m, fns, base, class, field, 9).subrange(
                    off as int,
                    off + data.len(),
                ) == data
            },
{
    lemma_block_holds(m, fns, base, class, field, 9);
}

proof fn lemma_block_holds(
    m: Seq<u8>,
    fns: MonoFunctions,
    base: u64,
    class: Seq<char>,
    field: Seq<char>,
    n: nat,
)
    requires
        names_short(class, field),
        m.len() == BLOCK_SIZE,
        n <= 9,
    ensures
        block_after(m, fns, base, class, field, n).len() == BLOCK_SIZE,
        forall|i: int|
            0 <= i < n ==> {
                let (off, data) = #[trigger] block_part(fns, base, class, field, i);
                block_after(m, fns, base, class, field, n).subrange(
                    off as int,
                    off + data.len(),
                ) == data
            },
    decreases n,
{
    if n > 0 {
        lemma_block_holds(m, fns, base, class, field, (n - 1) as nat);
        law_block_parts_do_not_overlap(fns, base, class, field);
        let before = block_after(m, fns, base, class, field, (n - 1) as nat);
        let after = block_after(m, fns, base, class, field, n);
        let (y, b) = block_part(fns, base, class, field, n - 1);
        assert forall|i: int| 0 <= i < n implies {
            let (off, data) = #[trigger] block_part(fns, base, class, field, i);
            after.subrange(off as int, off + data.len()) == data
        } by {
            let (off, data) = block_part(fns, base, class, field, i);
            if i < n - 1 {
                assert(after.subrange(off as int, off + data.len()) =~= before.subrange(
                    off as int,
                    off + data.len(),
                ));
            } else {
                assert(after.subrange(off as int, off + data.len()) =~= data);
            }
        }
    }
}

// ---------------------------------------------------------------------------
// Looking
// ---------------------------------------------------------------------------
/// Whether a request only looks.
pub open spec fn looking(a: Ask) -> bool {
    a is Read || a is Note
}

/// Whether `f` goes on from `t` with at most `n` requests, all of which only look.
pub(crate) open spec fn looks<T>(t: Talk, f: Flow<T>, n: nat) -> bool {
    &&& f.1.log == t.log
    &&& begins(t.asked, f.1.asked)
    &&& f.1.asked.len() <= t.log.len()
    &&& requests(f).len() <= t.asked.len() + n
    &&& forall|i: int|
        t.asked.len() <= i < requests(f).len() ==> looking(#[trigger] requests(f)[i])
}

/// Whether the two requests from the `j`-th on have shown `object` to be a player: its first
/// word is the vtable, and its lives are believable.
pub open spec fn shown(
    log: Seq<Answer>,
    q: Seq<Ask>,
    j: int,
    object: u64,
    vtable: u64,
    lives_offset: i32,
) -> bool {
    &&& object + extended(lives_offset) <= u64::MAX
    &&& q[j] == (Ask::Read { addr: object, len: 8 })
    &&& data_of(log[j], 8) is Some
    &&& slot_of(log[j]) == vtable
    &&& q[j + 1] == (Ask::Read { addr: (object + extended(lives_offset)) as u64, len: 4 })
    &&& data_of(log[j + 1], 4) matches Some(d) && believable(signed32(le_value(d) as u32))
}

proof fn lemma_check_looks(t: Talk, ptr: u64, vtable: u64, off: i32)
    requires
        t.asked.len() <= t.log.len(),
    ensures
        ({
            let f = check_flow(t, ptr, vtable, off);
            &&& looks(t, f, 2)
            &&& f.0 matches Ok(Ok(())) ==> f.1.asked.len() == t.asked.len() + 2 && shown(
                t.log,
                f.1.asked,
                t.asked.len() as int,
                ptr,
                vtable,
                off,
            )
        }),
{
}

pub(crate) proof fn lemma_probe_looks(
    t: Talk,
    header: Seq<u8>,
    index: u64,
    elem_off: usize,
    vtable: u64,
    off: i32,
)
    requires
        t.asked.len() <= t.log.len(),
    ensures
        ({
            let f = probe_flow(t, header, index, elem_off, vtable, off);
            &&& looks(t, f, 2)
            &&& f.0 matches Ok(Ok(ptr)) ==> f.1.asked.len() == t.asked.len() + 2 && shown(
                t.log,
                f.1.asked,
                t.asked.len() as int,
                ptr,
                vtable,
                off,
            )
        }),
{
    if let Some(ptr) = element(header, index as int, elem_off as int) {
        lemma_check_looks(t, ptr, vtable, off);
    }
}

pub(crate) proof fn lemma_place_looks(t: Talk, header: Seq<u8>, vtable: u64)
    requires
        t.asked.len() <= t.log.len(),
    ensures
        looks(t, place_flow(t, header, vtable), 1),
{
}

/// Returns where the player was shown to be one.
pub(crate) proof fn lemma_element_looks(
    t: Talk,
    header: Seq<u8>,
    base: u64,
    index: u64,
    vtable: u64,
    off: i32,
) -> (j: int)
    requires
        t.asked.len() <= t.log.len(),
    ensures
        ({
            let f = element_flow(t, header, base, index, vtable, off);
            &&& looks(t, f, 4)
            &&& f.0 matches Ok(ptr) ==> t.asked.len() <= j && j + 1 < f.1.asked.len() && shown(
                t.log,
                f.1.asked,
                j,
                ptr,
                vtable,
                off,
            )
        }),
{
    lemma_place_looks(t, header, vtable);
    let (r, t2) = place_flow(t, header, vtable);
    if let Ok((place, _)) = r {
        lemma_probe_looks(t2, header, index, place, vtable, off);
    }
    t2.asked.len() as int
}

pub(crate) proof fn lemma_length_looks(t: Talk, base: u64)
    requires
        t.asked.len() <= t.log.len(),
    ensures
        looks(t, length_flow(t, base), 2),
{
}

/// Returns where the player was shown to be one.
pub(crate) proof fn lemma_locate_looks(t: Talk, array: u64, player: i32, vtable: u64, off: i32) -> (j: int)
    requires
        t.asked.len() <= t.log.len(),
    ensures
        ({
            let f = locate_flow(t, array, player, vtable, off);
            &&& looks(t, f, 7)
            &&& f.0 matches Ok(ptr) ==> t.asked.len() <= j && j + 1 < f.1.asked.len() && shown(
                t.log,
                f.1.asked,
                j,
                ptr,
                vtable,
                off,
            )
        }),
{
    let (r, t2) = read_flow(t, array, ARRAY_HEADER_LEN);
    if let Ok(Some(header)) = r {
        lemma_length_looks(t2, array);
        let (s, t3) = length_flow(t2, array);
        if s is Ok {
            lemma_element_looks(t3, header, array, extended(player), vtable, off)
        } else {
            0
        }
    } else {
        0
    }
}

/// Returns the player's object, and where it was shown to be one.
proof fn lemma_counter_looks(t: Talk, field_addr: u64, player: i32, l: FieldLayout) -> (oj: (
    u64,
    int,
))
    requires
        t.asked.len() <= t.log.len(),
    ensures
        ({
            let f = counter_flow(t, field_addr, player, l);
            &&& looks(t, f, 8)
            &&& f.0 matches Ok(addr) ==> t.asked.len() <= oj.1 && oj.1 + 1 < f.1.asked.len()
                && shown(t.log, f.1.asked, oj.1, oj.0, l.vtable, l.offset) && addr == oj.0
                + extended(l.offset)
        }),
{
    let (r, t2) = array_flow(t, field_addr);
    if let Ok(array) = r {
        let j = lemma_locate_looks(t2, array, player, l.vtable, l.offset);
        match locate_flow(t2, array, player, l.vtable, l.offset).0 {
            Ok(object) => (object, j),
            _ => (0, 0),
        }
    } else {
        (0, 0)
    }
}

// ---------------------------------------------------------------------------
// The whole conversation
// ---------------------------------------------------------------------------
/// Whether the block of a lookup is released at its end, if there was one.
pub(crate) open spec fn released(log: Seq<Answer>, q: Seq<Ask>, from: int, to: int) -> bool {
    allocated(log[from]) is Ok ==> from + 1 < to && q[to - 1] == (Ask::Free {
        addr: allocated(log[from])->Ok_0,
    })
}

/// Whether `q` is a lookup of `HeroController.players` up to `a`, one of `Player.lives` up to
/// `b`, and only looks from there up to `c`.
spec fn planned(
    fns: MonoFunctions,
    log: Seq<Answer>,
    q: Seq<Ask>,
    a: int,
    b: int,
    c: int,
) -> bool {
    &&& 0 < a <= b <= c <= q.len()
    &&& a <= 16
    &&& b <= a + 16
    &&& c <= b + 8
    &&& lookup(fns, "HeroController"@, "players"@, log, q, 0, a)
    &&& lookup(fns, "Player"@, "lives"@, log, q, a, b)
    &&& b > a ==> released(log, q, 0, a)
    &&& c > b ==> released(log, q, a, b) && b > a
    &&& forall|i: int| b <= i < c ==> looking(#[trigger] q[i])
}

/// The first lookup.
pub(crate) proof fn lemma_players_script(t: Talk, fns: MonoFunctions)
    requires
        t.asked.len() <= t.log.len(),
    ensures
        ({
            let f = players_flow(t, fns);
            let from = t.asked.len() as int;
            let to = requests(f).len() as int;
            &&& f.1.log == t.log
            &&& begins(t.asked, f.1.asked)
            &&& f.1.asked.len() <= t.log.len()
            &&& from < to <= from + 16
            &&& lookup(fns, "HeroController"@, "players"@, t.log, requests(f), from, to)
            &&& requests(f) == f.1.asked ==> released(t.log, requests(f), from, to)
            &&& f.0 is Ok ==> to == from + 16
            &&& f.0 matches Ok(addr) ==> addr == layout_at(t.log, from + 11).static_data + word32(
                layout_at(t.log, from + 11).offset,
            )
        }),
{
    lemma_resolve_script(t, fns, "HeroController"@, "players"@);
}

/// The second lookup.
pub(crate) proof fn lemma_player_script(t: Talk, fns: MonoFunctions)
    requires
        t.asked.len() <= t.log.len(),
    ensures
        ({
            let f = player_flow(t, fns);
            let from = t.asked.len() as int;
            let to = requests(f).len() as int;
            &&& f.1.log == t.log
            &&& begins(t.asked, f.1.asked)
            &&& f.1.asked.len() <= t.log.len()
            &&& from < to <= from + 16
            &&& lookup(fns, "Player"@, "lives"@, t.log, requests(f), from, to)
            &&& requests(f) == f.1.asked ==> released(t.log, requests(f), from, to)
            &&& f.0 matches Ok(l) ==> to == from + 16 && l == layout_at(t.log, from + 11)
        }),
{
    lemma_resolve_script(t, fns, "Player"@, "lives"@);
}

/// A lookup stays one when the conversation goes on.
proof fn lemma_lookup_stays(
    fns: MonoFunctions,
    class: Seq<char>,
    field: Seq<char>,
    log: Seq<Answer>,
    q: Seq<Ask>,
    p: Seq<Ask>,
    from: int,
    to: int,
)
    requires
        0 <= from <= to <= q.len(),
        begins(q, p),
        lookup(fns, class, field, log, q, from, to),
    ensures
        lookup(fns, class, field, log, p, from, to),
{
    if from + 1 < to {
        let base = allocated(log[from])->Ok_0;
        assert forall|i: int| from + 1 <= i < to - 1 implies #[trigger] p[i] == block_request(
            fns,
            base,
            class,
            field,
            i - (from + 1),
        ) by {
            assert(q[i] == p[i]);
        }
        assert(q[to - 1] == p[to - 1]);
        assert forall|i: int|
            from + 1 <= i < from + 10 && i + 1 < to && p[i + 1] !is Free implies written(
            #[trigger] log[i],
        ) is Ok by {
            assert(q[i + 1] == p[i + 1]);
        }
        assert forall|i: int|
            from + 1 <= i < to && i < from + 9 && p[i] !is Free implies base + (
        #[trigger] block_item(i - (from + 1), class, field)).0 <= u64::MAX by {
            assert(q[i] == p[i]);
        }
    }
    if from < to {
        assert(q[from] == p[from]);
    }
}

/// How locating the lives goes: where its lookups end, which object it found and where that
/// was shown to be a player.
proof fn lemma_lives_plan(log: Seq<Answer>, fns: MonoFunctions, player: i32) -> (r: (
    int,
    int,
    u64,
    int,
))
    ensures
        ({
            let f = lives_flow(opening(log), fns, player);
            let q = requests(f);
            let (a, b, object, j) = r;
            &&& f.1.log == log
            &&& f.1.asked.len() <= log.len()
            &&& planned(fns, log, q, a, b, q.len() as int)
            &&& q == f.1.asked ==> released(log, q, 0, a) && (b > a ==> released(log, q, a, b))
            &&& f.0 matches Ok(addr) ==> {
                &&& a == 16
                &&& b == 32
                &&& 32 <= j
                &&& j + 1 < q.len()
                &&& shown(log, q, j, object, layout_at(log, 27).vtable, layout_at(log, 27).offset)
                &&& addr == object + extended(layout_at(log, 27).offset)
            }
        }),
{
    let t = opening(log);
    let q = requests(lives_flow(t, fns, player));
    lemma_players_script(t, fns);
    let f2 = players_flow(t, fns);
    let q2 = requests(f2);
    let a = q2.len() as int;
    let t2 = f2.1;
    if let Ok(addr) = f2.0 {
        lemma_player_script(t2, fns);
        let f3 = player_flow(t2, fns);
        let q3 = requests(f3);
        let b = q3.len() as int;
        let t3 = f3.1;
        assert(begins(q2, q3));
        lemma_lookup_stays(fns, "HeroController"@, "players"@, log, q2, q3, 0, a);
        assert(q2[a - 1] == q3[a - 1]);
        if let Ok(l) = f3.0 {
            let (object, j) = lemma_counter_looks(t3, addr, player, l);
            assert(begins(q3, q));
            lemma_lookup_stays(fns, "HeroController"@, "players"@, log, q3, q, 0, a);
            lemma_lookup_stays(fns, "Player"@, "lives"@, log, q3, q, a, b);
            assert(q3[a - 1] == q[a - 1]);
            assert(q3[b - 1] == q[b - 1]);
            (a, b, object, j)
        } else {
            (a, b, 0, 0)
        }
    } else {
        (a, a, 0, 0)
    }
}

/// How storing the lives goes.
proof fn lemma_store_plan(t: Talk, addr: u64, lives: i32)
    requires
        t.asked.len() <= t.log.len(),
    ensures
        ({
            let f = store_flow(t, addr, lives);
            let q = requests(f);
            let n = t.asked.len() as int;
            &&& f.1.log == t.log
            &&& begins(t.asked, q)
            &&& f.1.asked.len() <= t.log.len()
            &&& n < q.len() <= n + 3
            &&& q[n] == (Ask::Read { addr, len: 4 })
            &&& n + 1 < q.len() ==> q[n + 1] == (Ask::Write {
                addr,
                data: le_digits(word32(lives) as nat, 4),
            })
            &&& n + 2 < q.len() ==> q[n + 2] == (Ask::Read { addr, len: 4 })
            &&& f.0 matches Ok(at) ==> {
                &&& at == addr
                &&& f.1.asked.len() == n + 3
                &&& written(t.log[n + 1]) is Ok
                &&& data_of(t.log[n + 2], 4) matches Some(d) && signed32(le_value(d) as u32)
                    == lives
            }
        }),
{
}

/// How setting the lives goes: it locates them, then reads, writes and reads once more.
proof fn lemma_set_plan(log: Seq<Answer>, fns: MonoFunctions, player: i32, lives: i32)
    ensures
        ({
            let f = set_flow(opening(log), fns, player, lives);
            let q = requests(f);
            let g = lives_flow(opening(log), fns, player);
            let n = requests(g).len() as int;
            &&& f.1.log == log
            &&& begins(requests(g), q)
            &&& f.1.asked.len() <= log.len()
            &&& g.0 is Err ==> f.0 is Err && q == requests(g) && f.1 == g.1
            &&& q.len() <= n + 3
            &&& g.0 matches Ok(addr) ==> {
                &&& n < q.len()
                &&& q[n] == (Ask::Read { addr, len: 4 })
                &&& n + 1 < q.len() ==> q[n + 1] == (Ask::Write {
                    addr,
                    data: le_digits(word32(lives) as nat, 4),
                })
                &&& n + 2 < q.len() ==> q[n + 2] == (Ask::Read { addr, len: 4 })
                &&& f.0 matches Ok(at) ==> {
                    &&& at == addr
                    &&& f.1.asked.len() == n + 3
                    &&& written(log[n + 1]) is Ok
                    &&& data_of(log[n + 2], 4) matches Some(d) && signed32(le_value(d) as u32)
                        == lives
                }
            }
        }),
{
    lemma_lives_plan(log, fns, player);
    let g = lives_flow(opening(log), fns, player);
    if let Ok(addr) = g.0 {
        lemma_store_plan(g.1, addr, lives);
    }
}

/// A harmless request stays harmless when the conversation goes on.
proof fn lemma_harmless_stays(
    fns: MonoFunctions,
    log: Seq<Answer>,
    q: Seq<Ask>,
    p: Seq<Ask>,
    i: int,
)
    requires
        0 <= i < q.len(),
        begins(q, p),
        harmless(fns, log, q, i),
    ensures
        harmless(fns, log, p, i),
{
    assert(q[i] == p[i]);
    assert forall|base: u64| held(log, q, i, base) implies #[trigger] held(log, p, i, base) by {
        let j = choose|j: int|
            0 <= j < i && #[trigger] gave(log, q, j, base) && forall|k: int|
                j < k < i ==> #[trigger] q[k] != (Ask::Free { addr: base });
        assert(q[j] == p[j]);
        assert(gave(log, p, j, base));
        assert forall|k: int| j < k < i implies #[trigger] p[k] != (Ask::Free { addr: base }) by {
            assert(q[k] == p[k]);
        }
    }
    match q[i] {
        Ask::Write { addr, data } => {
            let base = choose|base: u64| #[trigger]
                held(log, q, i, base) && inside(base, addr, data.len());
            assert(held(log, p, i, base));
        },
        Ask::Run { .. } => {
            assert(q[i - 1] == p[i - 1]);
        },
        _ => {},
    }
}

/// Every request of a planned part is harmless.
proof fn lemma_plan_is_harmless(
    fns: MonoFunctions,
    log: Seq<Answer>,
    q: Seq<Ask>,
    a: int,
    b: int,
    c: int,
)
    requires
        planned(fns, log, q, a, b, c),
    ensures
        forall|i: int| 0 <= i < c ==> #[trigger] harmless(fns, log, q, i),
{
    lemma_string_sizes();
    lemma_lookup_is_harmless(fns, "HeroController"@, "players"@, log, q, 0, a);
    lemma_lookup_is_harmless(fns, "Player"@, "lives"@, log, q, a, b);
    assert forall|i: int| 0 <= i < c implies #[trigger] harmless(fns, log, q, i) by {
        if i >= b {
            assert(looking(q[i]));
        }
    }
}

/// Locating the lives leaves the game alone: whatever the target answers, nothing is written
/// but into blocks of memory that the trainer has allocated and still holds, and nothing runs
/// but the stub.
pub proof fn law_locating_leaves_the_game_alone(log: Seq<Answer>, fns: MonoFunctions, player: i32)
    ensures
        forall|i: int|
            0 <= i < requests(lives_flow(opening(log), fns, player)).len()
                ==> #[trigger] harmless(
                fns,
                log,
                requests(lives_flow(opening(log), fns, player)),
                i,
            ),
{
    let q = requests(lives_flow(opening(log), fns, player));
    let (a, b, object, j) = lemma_lives_plan(log, fns, player);
    lemma_plan_is_harmless(fns, log, q, a, b, q.len() as int);
}

/// Looking up a field whose names fit a block leaves the game alone.
pub proof fn law_lookups_leave_the_game_alone(
    log: Seq<Answer>,
    fns: MonoFunctions,
    class: Seq<char>,
    field: Seq<char>,
)
    requires
        names_fit(class, field),
    ensures
        forall|i: int|
            0 <= i < requests(resolve_flow(opening(log), fns, class, field)).len()
                ==> #[trigger] harmless(
                fns,
                log,
                requests(resolve_flow(opening(log), fns, class, field)),
                i,
            ),
{
    let q = requests(resolve_flow(opening(log), fns, class, field));
    lemma_resolve_script(opening(log), fns, class, field);
    lemma_lookup_is_harmless(fns, class, field, log, q, 0, q.len() as int);
}

/// Whether the `i`-th request writes `lives` where a player has been shown to keep them: the
/// layout of `Player` was looked up, and an object was then found to have its vtable and
/// believable lives.
pub open spec fn well_aimed(
    fns: MonoFunctions,
    log: Seq<Answer>,
    q: Seq<Ask>,
    i: int,
    lives: i32,
) -> bool {
    exists|k: int, j: int, object: u64| #[trigger]
        aimed_at(fns, log, q, i, lives, k, j, object)
}

/// Whether the lookup of `Player.lives` is the sixteen requests from the `k`-th on, the
/// `j`-th and the one behind it have shown `object` to be a player, and the `i`-th writes its
/// lives.
pub open spec fn aimed_at(
    fns: MonoFunctions,
    log: Seq<Answer>,
    q: Seq<Ask>,
    i: int,
    lives: i32,
    k: int,
    j: int,
    object: u64,
) -> bool {
    let l = layout_at(log, k + 11);
    &&& 0 <= k
    &&& k + 16 <= j
    &&& j + 1 < i
    &&& lookup(fns, "Player"@, "lives"@, log, q, k, k + 16)
    &&& shown(log, q, j, object, l.vtable, l.offset)
    &&& q[i] == (Ask::Write {
        addr: (object + extended(l.offset)) as u64,
        data: le_digits(word32(lives) as nat, 4),
    })
}

/// Setting the lives writes nothing of the game but the lives, and those only where a player
/// has been shown to keep them, whatever the target answers.
pub proof fn law_only_the_lives_are_written(
    log: Seq<Answer>,
    fns: MonoFunctions,
    player: i32,
    lives: i32,
)
    ensures
        ({
            let q = requests(set_flow(opening(log), fns, player, lives));
            forall|i: int|
                0 <= i < q.len() ==> #[trigger] harmless(fns, log, q, i) || well_aimed(
                    fns,
                    log,
                    q,
                    i,
                    lives,
                )
        }),
{
    let g = lives_flow(opening(log), fns, player);
    let p = requests(g);
    let q = requests(set_flow(opening(log), fns, player, lives));
    let (a, b, object, j) = lemma_lives_plan(log, fns, player);
    lemma_set_plan(log, fns, player, lives);
    lemma_plan_is_harmless(fns, log, p, a, b, p.len() as int);
    assert forall|i: int| 0 <= i < q.len() implies #[trigger] harmless(fns, log, q, i)
        || well_aimed(fns, log, q, i, lives) by {
        if i < p.len() {
            lemma_harmless_stays(fns, log, p, q, i);
        } else if i == p.len() + 1 {
            lemma_lookup_stays(fns, "Player"@, "lives"@, log, p, q, a, b);
            assert(p[j] == q[j]);
            assert(p[j + 1] == q[j + 1]);
            assert(aimed_at(fns, log, q, i, lives, 16, j, object));
        }
    }
}

/// Success means that the lives are there: they were written to the address that is
/// reported, and the last thing done was to read them back from it.
pub proof fn law_success_was_read_back(
    log: Seq<Answer>,
    fns: MonoFunctions,
    player: i32,
    lives: i32,
    addr: u64,
)
    requires
        set_flow(opening(log), fns, player, lives).0 == Ok::<u64, Halt>(addr),
    ensures
        ({
            let q = set_flow(opening(log), fns, player, lives).1.asked;
            let n = q.len() as int;
            &&& n <= log.len()
            &&& q[n - 2] == (Ask::Write { addr, data: le_digits(word32(lives) as nat, 4) })
            &&& written(log[n - 2]) is Ok
            &&& q[n - 1] == (Ask::Read { addr, len: 4 })
            &&& data_of(log[n - 1], 4) matches Some(d) && signed32(le_value(d) as u32) == lives
        }),
{
    lemma_set_plan(log, fns, player, lives);
}

/// Filling succeeds where all writes do.
pub(crate) proof fn lemma_fill_succeeds(t: Talk, base: u64, class: Seq<char>, field: Seq<char>, n: nat)
    requires
        n <= 8,
        base + OFF_SLOT_STATIC <= u64::MAX,
        t.asked.len() + n <= t.log.len(),
        forall|i: int|
            t.asked.len() <= i < t.asked.len() + n ==> written(#[trigger] t.log[i]) is Ok,
    ensures
        fill_flow(t, base, class, field, n).0 is Ok,
        fill_flow(t, base, class, field, n).1.log == t.log,
        fill_flow(t, base, class, field, n).1.asked.len() == t.asked.len() + n,
    decreases n,
{
    if n > 0 {
        lemma_fill_succeeds(t, base, class, field, (n - 1) as nat);
    }
}

/// A lookup succeeds where the target does what it is asked for: it gives a block, takes the
/// writes, and runs the stub to its end. The layout is then what the slots hold.
pub proof fn law_lookup_succeeds(
    log: Seq<Answer>,
    fns: MonoFunctions,
    class: Seq<char>,
    field: Seq<char>,
)
    requires
        log.len() >= 16,
        allocated(log[0]) matches Ok(base) && base + OFF_SLOT_STATIC <= u64::MAX,
        forall|i: int| 1 <= i < 10 ==> written(#[trigger] log[i]) is Ok,
        log[10] == Answer::Ran(RunResult::Waited(WAIT_OBJECT_0)),
    ensures
        resolve_flow(opening(log), fns, class, field).0 == Ok::<FieldLayout, Halt>(
            layout_at(log, 11),
        ),
{
    let t = opening(log);
    let (r, t2) = ask_flow(t, Ask::Alloc { size: BLOCK_SIZE });
    let base = allocated(log[0])->Ok_0;
    lemma_fill_succeeds(t2, base, class, field, 8);
    let t3 = fill_flow(t2, base, class, field, 8).1;
    let t4 = put_flow(t3, base, OFF_CODE, assemble(resolve_program(fns, base))).1;
    let t5 = run_flow(t4, base).1;
    assert(run_flow(t4, base).0 is Ok);
    assert(slots_flow(t5, base).0 is Ok);
    lemma_resolve_script(t, fns, class, field);
}

/// Setting the lives succeeds exactly when they were located, written, and read back.
pub proof fn law_setting_succeeds_when_read_back(
    log: Seq<Answer>,
    fns: MonoFunctions,
    player: i32,
    lives: i32,
    addr: u64,
)
    ensures
        ({
            let g = lives_flow(opening(log), fns, player);
            let n = g.1.asked.len() as int;
            set_flow(opening(log), fns, player, lives).0 == Ok::<u64, Halt>(addr) <==> {
                &&& g.0 == Ok::<u64, Halt>(addr)
                &&& n + 3 <= log.len()
                &&& written(log[n + 1]) is Ok
                &&& data_of(log[n + 2], 4) matches Some(d) && signed32(le_value(d) as u32) == lives
            }
        }),
{
    lemma_set_plan(log, fns, player, lives);
    let g = lives_flow(opening(log), fns, player);
    if let Ok(at) = g.0 {
        lemma_store_succeeds(g.1, at, lives);
    }
}

proof fn lemma_store_succeeds(t: Talk, addr: u64, lives: i32)
    ensures
        ({
            let n = t.asked.len() as int;
            n + 3 <= t.log.len() && written(t.log[n + 1]) is Ok && (data_of(t.log[n + 2], 4) matches Some(
                d,
            ) && signed32(le_value(d) as u32) == lives) ==> store_flow(t, addr, lives).0 == Ok::<
                u64,
                Halt,
            >(addr)
        }),
{
}

/// Whether every block that was given is released later.
pub open spec fn nothing_left(log: Seq<Answer>, q: Seq<Ask>) -> bool {
    forall|i: int, base: u64|
        0 <= i < q.len() && #[trigger] gave(log, q, i, base) ==> exists|k: int|
            i < k < q.len() && #[trigger] q[k] == (Ask::Free { addr: base })
}

proof fn lemma_nothing_left(
    fns: MonoFunctions,
    log: Seq<Answer>,
    q: Seq<Ask>,
    a: int,
    b: int,
    c: int,
)
    requires
        planned(fns, log, q, a, b, c),
        released(log, q, 0, a),
        b > a ==> released(log, q, a, b),
        forall|i: int| c <= i < q.len() ==> #[trigger] q[i] !is Alloc,
    ensures
        nothing_left(log, q),
{
    assert forall|i: int, base: u64|
        0 <= i < q.len() && #[trigger] gave(log, q, i, base) implies exists|k: int|
        i < k < q.len() && #[trigger] q[k] == (Ask::Free { addr: base }) by {
        if i == 0 {
            assert(q[a - 1] == (Ask::Free { addr: base }));
        } else if i < a - 1 {
            assert(q[i] == block_request(
                fns,
                allocated(log[0])->Ok_0,
                "HeroController"@,
                "players"@,
                i - 1,
            ));
        } else if i < a {
        } else if i == a && b > a {
            assert(q[b - 1] == (Ask::Free { addr: base }));
        } else if i < b - 1 {
            assert(q[i] == block_request(
                fns,
                allocated(log[a])->Ok_0,
                "Player"@,
                "lives"@,
                i - (a + 1),
            ));
        } else if i < b {
        } else if i < c {
            assert(looking(q[i]));
        }
    }
}

/// Once an operation is over, successfully or not, every block that it was given has been
/// released.
pub proof fn law_blocks_are_released(
    log: Seq<Answer>,
    fns: MonoFunctions,
    player: i32,
    lives: i32,
)
    ensures
        ({
            let f = lives_flow(opening(log), fns, player);
            requests(f) == f.1.asked ==> nothing_left(log, f.1.asked)
        }),
        ({
            let f = set_flow(opening(log), fns, player, lives);
            requests(f) == f.1.asked ==> nothing_left(log, f.1.asked)
        }),
{
    let g = lives_flow(opening(log), fns, player);
    let p = requests(g);
    let f = set_flow(opening(log), fns, player, lives);
    let q = requests(f);
    let (a, b, object, j) = lemma_lives_plan(log, fns, player);
    lemma_set_plan(log, fns, player, lives);
    if p == g.1.asked {
        lemma_nothing_left(fns, log, p, a, b, p.len() as int);
    }
    if q == f.1.asked && g.0 is Ok {
        lemma_lookup_stays(fns, "HeroController"@, "players"@, log, p, q, 0, a);
        lemma_lookup_stays(fns, "Player"@, "lives"@, log, p, q, a, b);
        assert(p[a - 1] == q[a - 1]);
        assert(p[b - 1] == q[b - 1]);
        assert forall|i: int| b <= i < p.len() implies looking(#[trigger] q[i]) by {
            assert(p[i] == q[i]);
        }
        lemma_nothing_left(fns, log, q, a, b, p.len() as int);
    }
}

/// Conversations are short: a lookup takes at most sixteen requests, locating the lives
/// forty, setting them forty-three.
pub proof fn law_conversations_are_short(
    log: Seq<Answer>,
    fns: MonoFunctions,
    class: Seq<char>,
    field: Seq<char>,
    player: i32,
    lives: i32,
)
    ensures
        requests(resolve_flow(opening(log), fns, class, field)).len() <= 16,
        requests(lives_flow(opening(log), fns, player)).len() <= 40,
        requests(set_flow(opening(log), fns, player, lives)).len() <= 43,
{
    lemma_resolve_script(opening(log), fns, class, field);
    let (a, b, object, j) = lemma_lives_plan(log, fns, player);
    lemma_set_plan(log, fns, player, lives);
}

// ---------------------------------------------------------------------------
// Locating in a memory that holds still
// ---------------------------------------------------------------------------
/// A memory: what a read of so many bytes at an address gives.
pub type Memory = spec_fn(u64, u64) -> Option<Seq<u8>>;

/// Whether all reads were answered out of `mem`.
pub open spec fn truthful(mem: Memory, log: Seq<Answer>, q: Seq<Ask>) -> bool {
    forall|i: int|
        0 <= i < q.len() ==> (#[trigger] q[i] matches Ask::Read { addr, len } ==> data_of(
            log[i],
            len,
        ) == mem(addr, len))
}

/// The 64-bit value at an address.
pub open spec fn word_in(mem: Memory, addr: u64) -> Option<u64> {
    match mem(addr, 8) {
        Some(d) => Some(le_value(d) as u64),
        None => None,
    }
}

/// The signed 32-bit value at an address.
pub open spec fn number_in(mem: Memory, addr: u64) -> Option<i32> {
    match mem(addr, 4) {
        Some(d) => Some(signed32(le_value(d) as u32)),
        None => None,
    }
}

/// Whether a player lies at `ptr`.
pub open spec fn player_in(mem: Memory, ptr: u64, vtable: u64, lives_offset: i32) -> bool {
    &&& ptr != 0
    &&& word_in(mem, ptr) == Some(vtable)
    &&& ptr + extended(lives_offset) <= u64::MAX
    &&& number_in(mem, (ptr + extended(lives_offset)) as u64) matches Some(v) && believable(v)
}

/// What the array at `array` has as its `index`-th element, if the elements start at
/// `elem_off`.
pub open spec fn element_in(mem: Memory, array: u64, index: u64, elem_off: usize) -> Option<u64> {
    match mem(array, ARRAY_HEADER_LEN) {
        Some(header) => element(header, index as int, elem_off as int),
        None => None,
    }
}

/// Where the elements of the array at `array` start: at the measured place if the word at the
/// other one points to something that is no `Player`, and at the other place if it points to a
/// `Player` or is null. It belongs to the array, whichever element is looked for.
///
/// A null is thus taken for the other layout: in the measured one it is the length of an array
/// without elements.
pub open spec fn place_in(mem: Memory, array: u64, vtable: u64) -> usize {
    match element_in(mem, array, 0, ELEMENTS_OR_AT) {
        Some(ptr) => if ptr != 0 && word_in(mem, ptr) != Some(vtable) {
            ELEMENTS_AT
        } else {
            ELEMENTS_OR_AT
        },
        None => ELEMENTS_OR_AT,
    }
}

/// Whether the element there is a player.
pub open spec fn player_element_in(
    mem: Memory,
    array: u64,
    index: u64,
    elem_off: usize,
    vtable: u64,
    lives_offset: i32,
) -> bool {
    element_in(mem, array, index, elem_off) matches Some(ptr) && player_in(
        mem,
        ptr,
        vtable,
        lives_offset,
    )
}

/// The length of the array at `array`, if one of its places has a plausible one.
pub open spec fn length_in(mem: Memory, array: u64) -> Option<u64> {
    if array + LENGTH_AT > u64::MAX {
        None
    } else if plausible_length(word_in(mem, (array + LENGTH_AT) as u64)) {
        word_in(mem, (array + LENGTH_AT) as u64)
    } else if plausible_length(word_in(mem, (array + LENGTH_OR_AT) as u64)) {
        word_in(mem, (array + LENGTH_OR_AT) as u64)
    } else {
        None
    }
}

/// Whether the array is known to be too short for the player.
pub open spec fn beyond(mem: Memory, array: u64, index: u64) -> bool {
    length_in(mem, array) matches Some(n) && index >= n
}

/// Whether all reads from the `from`-th request on were answered out of `mem`.
pub(crate) open spec fn truthful_from(
    mem: Memory,
    from: int,
    log: Seq<Answer>,
    q: Seq<Ask>,
) -> bool {
    forall|i: int|
        0 <= from <= i < q.len() ==> (#[trigger] q[i] matches Ask::Read { addr, len } ==> data_of(
            log[i],
            len,
        ) == mem(addr, len))
}

proof fn lemma_check_in(mem: Memory, from: int, t: Talk, ptr: u64, vtable: u64, off: i32)
    requires
        0 <= from <= t.asked.len() <= t.log.len(),
        truthful_from(mem, from, t.log, check_flow(t, ptr, vtable, off).1.asked),
        ptr != 0,
    ensures
        match check_flow(t, ptr, vtable, off).0 {
            Ok(Ok(())) => player_in(mem, ptr, vtable, off),
            Ok(Err(_)) => !player_in(mem, ptr, vtable, off),
            Err(_) => true,
        },
        check_flow(t, ptr, vtable, off).0 matches Err(h) ==> h !is Fail,
{
    let q = check_flow(t, ptr, vtable, off).1.asked;
    let n = t.asked.len() as int;
    lemma_check_looks(t, ptr, vtable, off);
    if q.len() > n {
        assert(q[n] == (Ask::Read { addr: ptr, len: 8 }));
    }
    if q.len() > n + 1 {
        assert(q[n + 1] == (Ask::Read { addr: (ptr + extended(off)) as u64, len: 4 }));
    }
}

proof fn lemma_probe_in(
    mem: Memory,
    from: int,
    t: Talk,
    header: Seq<u8>,
    index: u64,
    elem_off: usize,
    vtable: u64,
    off: i32,
)
    requires
        0 <= from <= t.asked.len() <= t.log.len(),
        truthful_from(mem, from, t.log, probe_flow(t, header, index, elem_off, vtable, off).1.asked),
    ensures
        ({
            let e = element(header, index as int, elem_off as int);
            match probe_flow(t, header, index, elem_off, vtable, off).0 {
                Ok(Ok(ptr)) => e == Some(ptr) && player_in(mem, ptr, vtable, off),
                Ok(Err(_)) => !(e matches Some(ptr) && player_in(mem, ptr, vtable, off)),
                Err(h) => h !is Fail,
            }
        }),
{
    if let Some(ptr) = element(header, index as int, elem_off as int) {
        if ptr != 0 && index * 8 <= u64::MAX && elem_off + index * 8 + 8 <= u64::MAX {
            lemma_check_in(mem, from, t, ptr, vtable, off);
        }
    }
}

proof fn lemma_length_in(mem: Memory, from: int, t: Talk, array: u64)
    requires
        0 <= from <= t.asked.len() <= t.log.len(),
        truthful_from(mem, from, t.log, length_flow(t, array).1.asked),
    ensures
        length_flow(t, array).0 matches Ok(n) ==> n == length_in(mem, array),
        length_flow(t, array).0 matches Err(h) ==> h !is Fail,
{
    let q = length_flow(t, array).1.asked;
    let n = t.asked.len() as int;
    lemma_length_looks(t, array);
    if q.len() > n {
        assert(q[n] == (Ask::Read { addr: (array + LENGTH_AT) as u64, len: 8 }));
    }
    if q.len() > n + 1 {
        assert(q[n + 1] == (Ask::Read { addr: (array + LENGTH_OR_AT) as u64, len: 8 }));
    }
}

/// What is truthful up to the end is so up to any point.
pub(crate) proof fn lemma_truthful_start(mem: Memory, from: int, log: Seq<Answer>, p: Seq<Ask>, q: Seq<Ask>)
    requires
        begins(p, q),
        truthful_from(mem, from, log, q),
    ensures
        truthful_from(mem, from, log, p),
{
    assert forall|i: int| 0 <= from <= i < p.len() implies (#[trigger] p[i] matches Ask::Read { addr, len }
        ==> data_of(log[i], len) == mem(addr, len)) by {
        assert(p[i] == q[i]);
    }
}

/// The place in an array with this header.
pub(crate) open spec fn place_of(mem: Memory, header: Seq<u8>, vtable: u64) -> usize {
    match element(header, 0, ELEMENTS_OR_AT as int) {
        Some(ptr) => if ptr != 0 && word_in(mem, ptr) != Some(vtable) {
            ELEMENTS_AT
        } else {
            ELEMENTS_OR_AT
        },
        None => ELEMENTS_OR_AT,
    }
}

pub(crate) proof fn lemma_place_in(mem: Memory, from: int, t: Talk, header: Seq<u8>, vtable: u64)
    requires
        0 <= from <= t.asked.len() <= t.log.len(),
        truthful_from(mem, from, t.log, place_flow(t, header, vtable).1.asked),
    ensures
        match place_flow(t, header, vtable).0 {
            Ok((place, _)) => place == place_of(mem, header, vtable),
            Err(h) => h !is Fail,
        },
{
    let q = place_flow(t, header, vtable).1.asked;
    let n = t.asked.len() as int;
    lemma_place_looks(t, header, vtable);
    if let Some(ptr) = element(header, 0, ELEMENTS_OR_AT as int) {
        if q.len() > n {
            assert(q[n] == (Ask::Read { addr: ptr, len: 8 }));
        }
    }
}

/// Whether the header has the player `object` as its `index`-th element.
pub(crate) open spec fn holds_player(
    mem: Memory,
    header: Seq<u8>,
    index: u64,
    vtable: u64,
    off: i32,
    object: u64,
) -> bool {
    element(header, index as int, place_of(mem, header, vtable) as int) == Some(object) && player_in(
        mem,
        object,
        vtable,
        off,
    )
}

proof fn lemma_element_in(
    mem: Memory,
    from: int,
    t: Talk,
    header: Seq<u8>,
    array: u64,
    index: u64,
    vtable: u64,
    off: i32,
)
    requires
        0 <= from <= t.asked.len() <= t.log.len(),
        truthful_from(mem, from, t.log, element_flow(t, header, array, index, vtable, off).1.asked),
    ensures
        match element_flow(t, header, array, index, vtable, off).0 {
            Ok(object) => holds_player(mem, header, index, vtable, off, object),
            Err(Halt::Fail(_)) => forall|object: u64|
                !holds_player(mem, header, index, vtable, off, object),
            Err(_) => true,
        },
{
    let f = element_flow(t, header, array, index, vtable, off);
    let p = place_flow(t, header, vtable);
    lemma_place_looks(t, header, vtable);
    if let Ok((place, a)) = p.0 {
        let g = probe_flow(p.1, header, index, place, vtable, off);
        lemma_probe_looks(p.1, header, index, place, vtable, off);
        assert(begins(g.1.asked, f.1.asked));
        lemma_truthful_start(mem, from, t.log, g.1.asked, f.1.asked);
        lemma_truthful_start(mem, from, t.log, p.1.asked, g.1.asked);
        lemma_probe_in(mem, from, p.1, header, index, place, vtable, off);
    }
    lemma_place_in(mem, from, t, header, vtable);
}

/// Locating is right behind the reading of the header.
pub(crate) proof fn lemma_locate_behind(
    mem: Memory,
    from: int,
    t: Talk,
    header: Seq<u8>,
    array: u64,
    player: i32,
    vtable: u64,
    off: i32,
    f: Flow<u64>,
)
    requires
        0 <= from <= t.asked.len() <= t.log.len(),
        truthful_from(mem, from, t.log, f.1.asked),
        match length_flow(t, array) {
            (Err(h), t2) => f == (Err::<u64, Halt>(h), t2),
            (Ok(length), t2) => if length matches Some(n) && extended(player) >= n {
                f.1 == t2 && f.0 is Err
            } else {
                f == element_flow(t2, header, array, extended(player), vtable, off)
            },
        },
    ensures
        begins(t.asked, f.1.asked),
        match f.0 {
            Ok(object) => !beyond(mem, array, extended(player)) && holds_player(
                mem,
                header,
                extended(player),
                vtable,
                off,
                object,
            ),
            Err(Halt::Fail(_)) => beyond(mem, array, extended(player)) || forall|object: u64|
                !holds_player(mem, header, extended(player), vtable, off, object),
            Err(_) => true,
        },
{
    let index = extended(player);
    let g = length_flow(t, array);
    lemma_length_looks(t, array);
    if let Ok(n) = g.0 {
        if !(n matches Some(m) && index >= m) {
            let i = lemma_element_looks(g.1, header, array, index, vtable, off);
            lemma_element_in(mem, from, g.1, header, array, index, vtable, off);
        }
    }
    assert(begins(g.1.asked, f.1.asked));
    lemma_truthful_start(mem, from, t.log, g.1.asked, f.1.asked);
    lemma_length_in(mem, from, t, array);
}

/// In a memory that holds still, locating finds the player that was asked for and no other:
/// the object is the `index`-th element at the one place where the array has its elements,
/// and it is a player. Locating fails exactly where the array cannot be read, is too short,
/// or has no player as that element. Which place the array has is what `place_in` says: an
/// array of the measured layout whose length is not 0 and leads to no `Player` has the measured
/// one, and a null in the place of the length is taken for the other layout.
pub proof fn law_locating_finds_the_player(
    mem: Memory,
    log: Seq<Answer>,
    array: u64,
    player: i32,
    vtable: u64,
    lives_offset: i32,
)
    requires
        truthful(
            mem,
            log,
            locate_flow(opening(log), array, player, vtable, lives_offset).1.asked,
        ),
    ensures
        ({
            let index = extended(player);
            let place = place_in(mem, array, vtable);
            match locate_flow(opening(log), array, player, vtable, lives_offset).0 {
                Ok(object) => {
                    &&& !beyond(mem, array, index)
                    &&& element_in(mem, array, index, place) == Some(object)
                    &&& player_in(mem, object, vtable, lives_offset)
                },
                Err(Halt::Fail(_)) => {
                    ||| mem(array, ARRAY_HEADER_LEN) is None
                    ||| beyond(mem, array, index)
                    ||| !player_element_in(mem, array, index, place, vtable, lives_offset)
                },
                Err(_) => true,
            }
        }),
{
    let t = opening(log);
    let f = locate_flow(t, array, player, vtable, lives_offset);
    let (r, t2) = read_flow(t, array, ARRAY_HEADER_LEN);
    if let Ok(Some(header)) = r {
        let j = lemma_locate_looks(t, array, player, vtable, lives_offset);
        lemma_locate_behind(mem, 0, t2, header, array, player, vtable, lives_offset, f);
        assert(begins(t2.asked, f.1.asked));
        assert(f.1.asked[0] == (Ask::Read { addr: array, len: ARRAY_HEADER_LEN }));
        assert(mem(array, ARRAY_HEADER_LEN) == Some(header));
        let e = element(header, extended(player) as int, place_of(mem, header, vtable) as int);
        if let Some(ptr) = e {
            assert(holds_player(mem, header, extended(player), vtable, lives_offset, ptr)
                == player_in(mem, ptr, vtable, lives_offset));
        }
    } else if let Ok(None) = r {
        assert(f.1.asked[0] == (Ask::Read { addr: array, len: ARRAY_HEADER_LEN }));
        assert(mem(array, ARRAY_HEADER_LEN) is None);
    }
}

/// Locating is picking, held to the place that the array has. Let `is_player` say what the
/// memory says, and let `r` be what `pick_element` gives with it. Where locating finds an
/// object, picking finds one too, and at that place it is the same. Where locating fails in
/// an array that can be read and is long enough, picking finds nothing at that place.
pub proof fn law_locating_is_picking_at_the_place<F: Fn(u64) -> bool>(
    mem: Memory,
    log: Seq<Answer>,
    array: u64,
    player: i32,
    vtable: u64,
    lives_offset: i32,
    header: Seq<u8>,
    is_player: F,
    r: Option<(u64, usize)>,
)
    requires
        truthful(
            mem,
            log,
            locate_flow(opening(log), array, player, vtable, lives_offset).1.asked,
        ),
        mem(array, ARRAY_HEADER_LEN) == Some(header),
        forall|ptr: u64, b: bool|
            ptr != 0 && #[trigger] is_player.ensures((ptr,), b) ==> b == player_in(
                mem,
                ptr,
                vtable,
                lives_offset,
            ),
        picked(header, extended(player) as int, is_player, r),
    ensures
        ({
            let place = place_in(mem, array, vtable);
            match locate_flow(opening(log), array, player, vtable, lives_offset).0 {
                Ok(object) => r matches Some((ptr, at)) && (at == place ==> ptr == object),
                Err(Halt::Fail(_)) => beyond(mem, array, extended(player)) || (r matches Some(
                    (ptr, at),
                ) ==> at != place),
                Err(_) => true,
            }
        }),
{
    law_locating_finds_the_player(mem, log, array, player, vtable, lives_offset);
}

} // verus!

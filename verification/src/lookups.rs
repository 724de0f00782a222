//! What a lookup puts into its block, and what it makes of the answers, told by numbers.

use crate::bytes::{law_values_of_bytes, law_words_are_congruent, signed32, word32};
use crate::inject::{
    allocated, fill_flow, put_flow, resolve_flow, resolve_program, run_flow,
    slots_flow, FieldLayout, BLOCK_SIZE, OFF_CODE,
};
use crate::locating::{qword, wide};
use crate::mono::MonoFunctions;
use crate::protocol::{
    layout_at, lemma_fill_succeeds, lemma_locate_looks, lemma_resolve_script, slot_of,
};
use crate::remote::{ask_flow, opening, read_flow, Answer, Ask, Halt, RunResult, Talk};
use crate::resuming::{begins, requests};
use crate::text::{
    dec_text, hex_text, hex_value, int_text, integer_of_text, law_hexadecimal_reads_back,
    law_shown_numbers_are_told, law_shown_numbers_read_back, locates, tells,
};
use crate::trainer::{
    array_flow, check_flow, class_flow, counter_flow, element, element_flow, extended, layout_text,
    length_flow, lives_flow, locate_flow, place_flow, player_flow, players_flow, probe_flow,
    ARRAY_HEADER_LEN, ELEMENTS_OR_AT,
};
use crate::win32::{law_only_a_finished_thread_has_run, run_text};
use crate::x64::assemble;
use vstd::prelude::*;
use vstd::utf8::encode_utf8;

verus! {

// ---------------------------------------------------------------------------
// The block
// ---------------------------------------------------------------------------
/// A text in UTF-8 with a NUL behind it.
pub open spec fn zero_ended(s: Seq<char>) -> Seq<u8> {
    encode_utf8(s) + seq![0u8]
}

/// Eight zeros.
pub open spec fn zeros() -> Seq<u8> {
    seq![0u8, 0u8, 0u8, 0u8, 0u8, 0u8, 0u8, 0u8]
}

/// Where in the block the `i`-th write goes.
pub open spec fn goes_to(i: int) -> int {
    if i == 1 {
        0x200
    } else if i == 2 {
        0x220
    } else if i == 3 {
        0x240
    } else if i == 4 {
        0x260
    } else if i == 5 {
        0x300
    } else if i == 6 {
        0x308
    } else if i == 7 {
        0x310
    } else if i == 8 {
        0x318
    } else {
        0
    }
}

/// The `i`-th request of a lookup in the block at `base`: the names that mono is asked for, four
/// slots of zeros and the code go into it; the code is run; the slots are read.
pub open spec fn asks(
    a: Ask,
    i: int,
    fns: MonoFunctions,
    base: u64,
    class: Seq<char>,
    field: Seq<char>,
) -> bool {
    if i == 1 {
        a == (Ask::Write { addr: (base + 0x200) as u64, data: zero_ended("Assembly-CSharp"@) })
    } else if i == 2 {
        a == (Ask::Write { addr: (base + 0x220) as u64, data: zero_ended(""@) })
    } else if i == 3 {
        a == (Ask::Write { addr: (base + 0x240) as u64, data: zero_ended(class) })
    } else if i == 4 {
        a == (Ask::Write { addr: (base + 0x260) as u64, data: zero_ended(field) })
    } else if i == 5 {
        a == (Ask::Write { addr: (base + 0x300) as u64, data: zeros() })
    } else if i == 6 {
        a == (Ask::Write { addr: (base + 0x308) as u64, data: zeros() })
    } else if i == 7 {
        a == (Ask::Write { addr: (base + 0x310) as u64, data: zeros() })
    } else if i == 8 {
        a == (Ask::Write { addr: (base + 0x318) as u64, data: zeros() })
    } else if i == 9 {
        a == (Ask::Write { addr: base, data: assemble(resolve_program(fns, base)) })
    } else if i == 10 {
        a == (Ask::Run { entry: base, timeout_ms: 10_000 })
    } else if i == 11 {
        a == (Ask::Read { addr: (base + 0x300) as u64, len: 8 })
    } else if i == 12 {
        a == (Ask::Read { addr: (base + 0x308) as u64, len: 8 })
    } else if i == 13 {
        a == (Ask::Read { addr: (base + 0x310) as u64, len: 8 })
    } else {
        a == (Ask::Read { addr: (base + 0x318) as u64, len: 8 })
    }
}

/// A lookup asks for 4096 bytes, then for its script, request by request, and releases the block
/// at the end.
pub proof fn law_a_lookup_keeps_to_its_script(
    log: Seq<Answer>,
    fns: MonoFunctions,
    class: Seq<char>,
    field: Seq<char>,
    base: u64,
)
    ensures
        ({
            let f = resolve_flow(opening(log), fns, class, field);
            let q = requests(f);
            &&& q.len() > 0 && q[0] == (Ask::Alloc { size: 4096 })
            &&& log.len() > 0 && log[0] == Answer::Allocated(Ok(base)) ==> {
                &&& q.len() <= 16
                &&& forall|i: int|
                    0 < i < q.len() ==> #[trigger] q[i] == (Ask::Free { addr: base }) || asks(
                        q[i],
                        i,
                        fns,
                        base,
                        class,
                        field,
                    )
                &&& forall|i: int|
                    0 < i < q.len() - 1 ==> (#[trigger] q[i] != Ask::Free { addr: base })
                &&& f.0 is Ok || f.0->Err_0 !is Ask ==> q.len() > 1 && q.last() == (Ask::Free {
                    addr: base,
                })
            }
        }),
{
    lemma_resolve_script(opening(log), fns, class, field);
    let f = resolve_flow(opening(log), fns, class, field);
    let q = requests(f);
    assert(crate::inject::empty_slot() =~= zeros());
    assert(forall|s: Seq<char>| #[trigger] crate::inject::cstr(s) =~= zero_ended(s));
}

// ---------------------------------------------------------------------------
// The answers
// ---------------------------------------------------------------------------
/// The number that the answer to a read of eight bytes gives; anything else gives none.
pub open spec fn told(a: Answer) -> int {
    match a {
        Answer::Data(Some(d)) => if d.len() == 8 {
            qword(d, 0)
        } else {
            0
        },
        _ => 0,
    }
}

/// The layout is what the four slots told: the class, the field's offset, the vtable, the static
/// data. Of the offset the low 32 bits count, as a signed number.
pub proof fn law_the_layout_is_what_the_slots_told(log: Seq<Answer>, n: int)
    ensures
        ({
            let l = layout_at(log, n);
            &&& l.klass == told(log[n])
            &&& l.vtable == told(log[n + 2])
            &&& l.static_data == told(log[n + 3])
            &&& exists|k: int| #[trigger] (0x1_0000_0000 * k) + l.offset == told(log[n + 1])
            &&& word32(l.offset) == l.offset || word32(l.offset) == l.offset + 0x1_0000_0000
        }),
{
    lemma_told(log[n]);
    lemma_told(log[n + 1]);
    lemma_told(log[n + 2]);
    lemma_told(log[n + 3]);
    let l = layout_at(log, n);
    let v = told(log[n + 1]);
    let w = (v % 0x1_0000_0000) as u32;
    law_words_are_congruent(w, l.offset);
    let k = if signed32(w) == w {
        v / 0x1_0000_0000
    } else {
        v / 0x1_0000_0000 + 1
    };
    assert((0x1_0000_0000 * k) + l.offset == v);
}

proof fn lemma_told(a: Answer)
    ensures
        slot_of(a) == told(a),
        0 <= told(a) <= u64::MAX,
{
    if let Answer::Data(Some(d)) = a {
        law_values_of_bytes(d);
    }
}

/// Whether the answers from the `n`-th on let a lookup through: a block, nine complete writes,
/// and a thread that ran to its end.
pub open spec fn served(log: Seq<Answer>, n: int) -> bool {
    &&& log.len() >= n + 16
    &&& log[n] matches Answer::Allocated(Ok(base)) && base + 0x318 <= u64::MAX
    &&& forall|i: int| n < i < n + 10 ==> #[trigger] log[i] == Answer::Written(Ok(()))
    &&& log[n + 10] == Answer::Ran(RunResult::Waited(0))
}

proof fn lemma_served(t: Talk, fns: MonoFunctions, class: Seq<char>, field: Seq<char>)
    requires
        served(t.log, t.asked.len() as int),
    ensures
        ({
            let f = resolve_flow(t, fns, class, field);
            let n = t.asked.len() as int;
            &&& f.0 == Ok::<FieldLayout, Halt>(layout_at(t.log, n + 11))
            &&& f.1.log == t.log
            &&& f.1.asked.len() == n + 16
            &&& f.1.steps == t.steps
        }),
{
    let n = t.asked.len() as int;
    let (r, t2) = ask_flow(t, Ask::Alloc { size: BLOCK_SIZE });
    let base = allocated(t.log[n])->Ok_0;
    lemma_fill_succeeds(t2, base, class, field, 8);
    lemma_fill_steps(t2, base, class, field, 8);
    let t3 = fill_flow(t2, base, class, field, 8).1;
    let t4 = put_flow(t3, base, OFF_CODE, assemble(resolve_program(fns, base))).1;
    let t5 = run_flow(t4, base).1;
    assert(run_flow(t4, base).0 is Ok);
    assert(slots_flow(t5, base).0 is Ok);
    lemma_resolve_script(t, fns, class, field);
}

/// Filling the block reports no step.
proof fn lemma_fill_steps(t: Talk, base: u64, class: Seq<char>, field: Seq<char>, n: nat)
    ensures
        fill_flow(t, base, class, field, n).1.steps == t.steps,
    decreases n,
{
    if n > 0 {
        lemma_fill_steps(t, base, class, field, (n - 1) as nat);
    }
}

/// A lookup that is let through gives what the slots told.
pub proof fn law_a_lookup_gives_what_it_was_told(
    log: Seq<Answer>,
    fns: MonoFunctions,
    class: Seq<char>,
    field: Seq<char>,
)
    requires
        served(log, 0),
    ensures
        resolve_flow(opening(log), fns, class, field).0 matches Ok(l) && l.klass == told(log[11])
            && l.vtable == told(log[13]) && l.static_data == told(log[14]),
{
    lemma_served(opening(log), fns, class, field);
    law_the_layout_is_what_the_slots_told(log, 11);
}

/// Without a block there is no lookup: the message tells the code, or 0 where the answer is of
/// another kind, and nothing more is asked.
pub proof fn law_a_refused_block(
    log: Seq<Answer>,
    fns: MonoFunctions,
    class: Seq<char>,
    field: Seq<char>,
    code: u32,
)
    requires
        log.len() > 0,
        match log[0] {
            Answer::Allocated(Ok(_)) => false,
            Answer::Allocated(Err(c)) => code == c,
            _ => code == 0,
        },
    ensures
        ({
            let f = resolve_flow(opening(log), fns, class, field);
            &&& f.1.asked.len() == 1
            &&& f.0 matches Err(Halt::Fail(m)) && tells(
                m,
                "VirtualAllocEx 失败（"@ + "Win32 错误码 "@,
                code as int,
                "）——目标进程可能已退出，或本程序需要以管理员身份运行"@,
            )
        }),
{
    let a = "VirtualAllocEx 失败（"@;
    let b = "Win32 错误码 "@;
    let c = "）——目标进程可能已退出，或本程序需要以管理员身份运行"@;
    law_shown_numbers_are_told(a + b, code as int, c);
    assert(a + (b + dec_text(code as nat)) + c =~= a + b + dec_text(code as nat) + c);
}

/// Where the `k`-th request, a write, is refused, the block is released and the message tells
/// where in it the write went.
pub proof fn law_a_refused_write(
    log: Seq<Answer>,
    fns: MonoFunctions,
    class: Seq<char>,
    field: Seq<char>,
    base: u64,
    k: int,
)
    requires
        1 <= k <= 9,
        log.len() >= k + 2,
        log[0] == Answer::Allocated(Ok(base)),
        base + 0x318 <= u64::MAX,
        forall|i: int| 1 <= i < k ==> #[trigger] log[i] == Answer::Written(Ok(())),
        !(log[k] matches Answer::Written(Ok(_))),
    ensures
        ({
            let f = resolve_flow(opening(log), fns, class, field);
            &&& f.1.asked.len() == k + 2
            &&& f.1.asked[k + 1] == (Ask::Free { addr: base })
            &&& f.0 matches Err(Halt::Fail(m)) && locates(
                m,
                "写入远程内存失败 @ +0x"@,
                goes_to(k) as nat,
                Seq::empty(),
            )
        }),
{
    let t = opening(log);
    let (r, t2) = ask_flow(t, Ask::Alloc { size: BLOCK_SIZE });
    lemma_resolve_script(t, fns, class, field);
    law_shown_numbers_are_told("写入远程内存失败 @ +0x"@, goes_to(k), Seq::empty());
    if k == 9 {
        lemma_fill_succeeds(t2, base, class, field, 8);
    } else {
        lemma_fill_fails(t2, base, class, field, 8, k);
    }
}

proof fn lemma_fill_fails(t: Talk, base: u64, class: Seq<char>, field: Seq<char>, n: nat, k: int)
    requires
        1 <= k <= n <= 8,
        base + 0x318 <= u64::MAX,
        t.asked.len() + k <= t.log.len(),
        forall|i: int|
            t.asked.len() <= i < t.asked.len() + k - 1 ==> #[trigger] t.log[i] == Answer::Written(
                Ok(()),
            ),
        !(t.log[t.asked.len() + k - 1] matches Answer::Written(Ok(_))),
    ensures
        ({
            let f = fill_flow(t, base, class, field, n);
            &&& f.0 == Err::<(), Halt>(
                Halt::Fail("写入远程内存失败 @ +0x"@ + hex_text(goes_to(k) as nat)),
            )
            &&& f.1.log == t.log
            &&& f.1.asked.len() == t.asked.len() + k
        }),
    decreases n,
{
    if n > k {
        lemma_fill_fails(t, base, class, field, (n - 1) as nat, k);
    } else {
        lemma_fill_succeeds(t, base, class, field, (n - 1) as nat);
    }
}

/// Where the thread did not run to its end, the block is released and the message is that of the
/// thread; an answer of another kind counts as a wait that failed.
pub proof fn law_a_failed_run(
    log: Seq<Answer>,
    fns: MonoFunctions,
    class: Seq<char>,
    field: Seq<char>,
    base: u64,
    run: RunResult,
)
    requires
        log.len() >= 12,
        log[0] == Answer::Allocated(Ok(base)),
        base + 0x318 <= u64::MAX,
        forall|i: int| 1 <= i < 10 ==> #[trigger] log[i] == Answer::Written(Ok(())),
        match log[10] {
            Answer::Ran(r) => run == r && r != RunResult::Waited(0),
            _ => run == RunResult::Waited(0xFFFF_FFFF),
        },
    ensures
        ({
            let f = resolve_flow(opening(log), fns, class, field);
            &&& f.1.asked.len() == 12
            &&& f.1.asked[11] == (Ask::Free { addr: base })
            &&& f.0 matches Err(Halt::Fail(m)) && run_text(run, 10_000) == Err::<(), Seq<char>>(m)
        }),
{
    let t = opening(log);
    let (r, t2) = ask_flow(t, Ask::Alloc { size: BLOCK_SIZE });
    lemma_resolve_script(t, fns, class, field);
    law_only_a_finished_thread_has_run(run, 10_000);
    lemma_fill_succeeds(t2, base, class, field, 8);
    let t3 = fill_flow(t2, base, class, field, 8).1;
    let t4 = put_flow(t3, base, OFF_CODE, assemble(resolve_program(fns, base))).1;
    assert(run_flow(t4, base).0 is Err);
}

// ---------------------------------------------------------------------------
// Locating
// ---------------------------------------------------------------------------
/// Whether the four slots from the `n`-th answer on tell a class, a vtable and static data.
pub open spec fn all_told(log: Seq<Answer>, n: int) -> bool {
    told(log[n]) != 0 && told(log[n + 2]) != 0 && told(log[n + 3]) != 0
}

/// Where the static field lies, by what the first lookup was told.
pub open spec fn field_told(log: Seq<Answer>) -> int {
    layout_at(log, 11).static_data + word32(layout_at(log, 11).offset)
}

/// Whether both lookups of locating are let through and told all.
pub open spec fn looked_up(log: Seq<Answer>) -> bool {
    &&& served(log, 0)
    &&& all_told(log, 11)
    &&& field_told(log) <= u64::MAX
    &&& served(log, 16)
    &&& all_told(log, 27)
}

/// Whether the text tells three addresses.
pub open spec fn locates_three(
    text: Seq<char>,
    a: Seq<char>,
    x: int,
    b: Seq<char>,
    y: int,
    c: Seq<char>,
    z: int,
) -> bool {
    exists|k: Seq<char>, l: Seq<char>, m: Seq<char>|
        {
            &&& #[trigger] hex_value(k) == Some(x as nat)
            &&& #[trigger] hex_value(l) == Some(y as nat)
            &&& #[trigger] hex_value(m) == Some(z as nat)
            &&& text == a + k + b + l + c + m
        }
}

/// Whether the text tells a number and an address.
pub open spec fn tells_and_locates(
    text: Seq<char>,
    a: Seq<char>,
    x: int,
    b: Seq<char>,
    y: int,
    c: Seq<char>,
) -> bool {
    exists|k: Seq<char>, l: Seq<char>|
        {
            &&& #[trigger] integer_of_text(k) == Some(x)
            &&& #[trigger] hex_value(l) == Some(y as nat)
            &&& text == a + k + b + l + c
        }
}

proof fn lemma_shown(a: Seq<char>, x: int, b: Seq<char>, y: int, c: Seq<char>)
    requires
        y >= 0,
    ensures
        tells_and_locates(a + int_text(x) + b + hex_text(y as nat) + c, a, x, b, y, c),
        tells_and_locates(a + int_text(x) + b + hex_text(y as nat), a, x, b, y, Seq::empty()),
{
    law_shown_numbers_read_back(x);
    law_hexadecimal_reads_back(y as nat);
    let k = int_text(x);
    let l = hex_text(y as nat);
    assert(integer_of_text(k) == Some(x) && hex_value(l) == Some(y as nat));
    assert(a + k + b + l =~= a + k + b + l + Seq::empty());
}

proof fn lemma_three_shown(a: Seq<char>, l: FieldLayout)
    ensures
        locates_three(
            a + layout_text(l),
            a + "klass=0x"@,
            l.klass as int,
            " vtable=0x"@,
            l.vtable as int,
            " static=0x"@,
            l.static_data as int,
        ),
{
    let x = hex_text(l.klass as nat);
    let y = hex_text(l.vtable as nat);
    let z = hex_text(l.static_data as nat);
    law_hexadecimal_reads_back(l.klass as nat);
    law_hexadecimal_reads_back(l.vtable as nat);
    law_hexadecimal_reads_back(l.static_data as nat);
    assert(hex_value(x) == Some(l.klass as nat));
    assert(hex_value(y) == Some(l.vtable as nat));
    assert(hex_value(z) == Some(l.static_data as nat));
    assert(a + layout_text(l) =~= a + "klass=0x"@ + x + " vtable=0x"@ + y + " static=0x"@ + z);
}

/// The talk behind both lookups.
proof fn lemma_looked_up(log: Seq<Answer>, fns: MonoFunctions)
    requires
        looked_up(log),
    ensures
        ({
            let f2 = players_flow(opening(log), fns);
            let f3 = player_flow(f2.1, fns);
            &&& f2.0 == Ok::<u64, Halt>(field_told(log) as u64)
            &&& f3.0 == Ok::<FieldLayout, Halt>(layout_at(log, 27))
            &&& f3.1.log == log
            &&& f3.1.asked.len() == 32
            &&& f3.1.steps.len() == 3
            &&& f3.1.steps[0] == "HeroController："@ + layout_text(layout_at(log, 11))
            &&& f3.1.steps[1] == "HeroController.players 字段偏移 "@ + int_text(
                layout_at(log, 11).offset as int,
            ) + " → 字段地址 0x"@ + hex_text(field_told(log) as nat)
            &&& f3.1.steps[2] == "Player：klass=0x"@ + hex_text(layout_at(log, 27).klass as nat)
                + " vtable=0x"@ + hex_text(layout_at(log, 27).vtable as nat) + "，lives 偏移 "@
                + int_text(layout_at(log, 27).offset as int)
        }),
{
    let t = opening(log);
    law_the_layout_is_what_the_slots_told(log, 11);
    law_the_layout_is_what_the_slots_told(log, 27);
    lemma_served(t, fns, "HeroController"@, "players"@);
    let t2 = players_flow(t, fns).1;
    assert(t2.asked.len() == 16 && t2.log == log);
    lemma_served(t2, fns, "Player"@, "lives"@);
}

/// Once both lookups are let through and told all, locating reads the static field, that far
/// behind the static data as the offset says; and the steps tell what was looked up.
pub proof fn law_locating_goes_on_to_the_field(
    log: Seq<Answer>,
    fns: MonoFunctions,
    player: i32,
)
    requires
        looked_up(log),
    ensures
        ({
            let f = lives_flow(opening(log), fns, player);
            let hero = layout_at(log, 11);
            let lives = layout_at(log, 27);
            &&& requests(f).len() > 32
            &&& requests(f)[32] == (Ask::Read { addr: field_told(log) as u64, len: 8 })
            &&& f.1.steps.len() >= 3
            &&& locates_three(
                f.1.steps[0],
                "HeroController："@ + "klass=0x"@,
                told(log[11]),
                " vtable=0x"@,
                told(log[13]),
                " static=0x"@,
                told(log[14]),
            )
            &&& tells_and_locates(
                f.1.steps[1],
                "HeroController.players 字段偏移 "@,
                hero.offset as int,
                " → 字段地址 0x"@,
                field_told(log),
                Seq::empty(),
            )
            &&& exists|k: Seq<char>, l: Seq<char>, m: Seq<char>|
                {
                    &&& #[trigger] hex_value(k) == Some(told(log[27]) as nat)
                    &&& #[trigger] hex_value(l) == Some(told(log[29]) as nat)
                    &&& #[trigger] integer_of_text(m) == Some(lives.offset as int)
                    &&& f.1.steps[2] == "Player：klass=0x"@ + k + " vtable=0x"@ + l + "，lives 偏移 "@ + m
                }
        }),
{
    let t = opening(log);
    law_the_layout_is_what_the_slots_told(log, 11);
    law_the_layout_is_what_the_slots_told(log, 27);
    lemma_looked_up(log, fns);
    let f3 = player_flow(players_flow(t, fns).1, fns);
    let hero = layout_at(log, 11);
    let lives = layout_at(log, 27);
    let f = counter_flow(f3.1, field_told(log) as u64, player, lives);
    lemma_counter_steps(f3.1, field_told(log) as u64, player, lives);
    lemma_three_shown("HeroController："@, hero);
    lemma_shown(
        "HeroController.players 字段偏移 "@,
        hero.offset as int,
        " → 字段地址 0x"@,
        field_told(log),
        Seq::empty(),
    );
    law_hexadecimal_reads_back(lives.klass as nat);
    law_hexadecimal_reads_back(lives.vtable as nat);
    law_shown_numbers_read_back(lives.offset as int);
    let k = hex_text(lives.klass as nat);
    let l = hex_text(lives.vtable as nat);
    let m = int_text(lives.offset as int);
    assert(hex_value(k) == Some(told(log[27]) as nat) && hex_value(l) == Some(
        told(log[29]) as nat,
    ) && integer_of_text(m) == Some(lives.offset as int));
}

/// Checking an object reports no step.
proof fn lemma_check_steps(t: Talk, ptr: u64, vtable: u64, off: i32)
    ensures
        class_flow(t, ptr, vtable).1.steps == t.steps,
        check_flow(t, ptr, vtable, off).1.steps == t.steps,
{
}

/// Looking at an element reports no step.
proof fn lemma_element_steps(
    t: Talk,
    header: Seq<u8>,
    base: u64,
    index: u64,
    vtable: u64,
    off: i32,
)
    ensures
        element_flow(t, header, base, index, vtable, off).1.steps == t.steps,
{
    let p = place_flow(t, header, vtable);
    if let Some(ptr) = element(header, 0, ELEMENTS_OR_AT as int) {
        lemma_check_steps(t, ptr, vtable, off);
    }
    assert(p.1.steps == t.steps);
    if let Ok((place, a)) = p.0 {
        if let Some(ptr) = element(header, index as int, place as int) {
            lemma_check_steps(p.1, ptr, vtable, off);
        }
        assert(probe_flow(p.1, header, index, place, vtable, off).1.steps == t.steps);
    }
}

/// Locating in the array reports no step.
proof fn lemma_locate_steps(t: Talk, array: u64, player: i32, vtable: u64, off: i32)
    ensures
        locate_flow(t, array, player, vtable, off).1.steps == t.steps,
{
    let (r, t2) = read_flow(t, array, ARRAY_HEADER_LEN);
    if let Ok(Some(header)) = r {
        let g = length_flow(t2, array);
        assert(g.1.steps == t.steps);
        lemma_element_steps(g.1, header, array, extended(player), vtable, off);
    }
}

/// From the field on, two steps are reported: the array, and the object.
proof fn lemma_counter_steps(t: Talk, field: u64, player: i32, l: FieldLayout)
    requires
        t.asked.len() <= t.log.len(),
    ensures
        ({
            let f = counter_flow(t, field, player, l);
            let n = t.asked.len() as int;
            let s = t.steps.len() as int;
            &&& begins(t.asked, f.1.asked)
            &&& begins(t.steps, f.1.steps)
            &&& requests(f).len() > n && requests(f)[n] == (Ask::Read { addr: field, len: 8 })
            &&& n < t.log.len() && slot_of(t.log[n]) != 0 ==> f.1.steps.len() > s
            &&& f.1.steps.len() > s ==> f.1.steps[s] == "players 数组对象 @ 0x"@ + hex_text(
                slot_of(t.log[n]) as nat,
            )
            &&& f.0 matches Ok(addr) ==> {
                let object = addr - extended(l.offset);
                &&& object >= 0
                &&& f.1.steps.len() == s + 2
                &&& f.1.steps[s + 1] == "玩家 "@ + int_text(player as int) + " 的对象 @ 0x"@
                    + hex_text(object as nat) + "（已按 vtable 校验确实是 Player）"@
            }
        }),
{
    let n = t.asked.len() as int;
    let (r, t2) = array_flow(t, field);
    if let Ok(array) = r {
        let j = lemma_locate_looks(t2, array, player, l.vtable, l.offset);
        lemma_locate_steps(t2, array, player, l.vtable, l.offset);
        assert(t2.asked[n] == (Ask::Read { addr: field, len: 8 }));
    }
}

/// Once the static field is read and not null, the steps tell the array, whatever comes of it.
pub proof fn law_the_array_is_told(log: Seq<Answer>, fns: MonoFunctions, player: i32)
    requires
        looked_up(log),
        log.len() > 32,
        told(log[32]) != 0,
    ensures
        ({
            let steps = lives_flow(opening(log), fns, player).1.steps;
            &&& steps.len() >= 4
            &&& locates(steps[3], "players 数组对象 @ 0x"@, told(log[32]) as nat, Seq::empty())
        }),
{
    lemma_looked_up(log, fns);
    let f3 = player_flow(players_flow(opening(log), fns).1, fns);
    lemma_counter_steps(f3.1, field_told(log) as u64, player, layout_at(log, 27));
    lemma_told(log[32]);
    law_shown_numbers_are_told("players 数组对象 @ 0x"@, told(log[32]), Seq::empty());
}

/// The steps of a success also tell the array that the field held and the object that was found
/// in it, from which the lives are their offset away.
pub proof fn law_success_tells_the_array_and_the_object(
    log: Seq<Answer>,
    fns: MonoFunctions,
    player: i32,
    addr: u64,
)
    requires
        looked_up(log),
        lives_flow(opening(log), fns, player).0 == Ok::<u64, Halt>(addr),
    ensures
        ({
            let steps = lives_flow(opening(log), fns, player).1.steps;
            let object = addr - wide(layout_at(log, 27).offset as int);
            &&& steps.len() == 5
            &&& locates(steps[3], "players 数组对象 @ 0x"@, told(log[32]) as nat, Seq::empty())
            &&& tells_and_locates(
                steps[4],
                "玩家 "@,
                player as int,
                " 的对象 @ 0x"@,
                object,
                "（已按 vtable 校验确实是 Player）"@,
            )
        }),
{
    lemma_looked_up(log, fns);
    let f3 = player_flow(players_flow(opening(log), fns).1, fns);
    let lives = layout_at(log, 27);
    lemma_counter_steps(f3.1, field_told(log) as u64, player, lives);
    lemma_told(log[32]);
    law_shown_numbers_are_told("players 数组对象 @ 0x"@, told(log[32]), Seq::empty());
    lemma_shown(
        "玩家 "@,
        player as int,
        " 的对象 @ 0x"@,
        addr - extended(lives.offset),
        "（已按 vtable 校验确实是 Player）"@,
    );
}

/// A lookup that is not told all ends locating: the message names the class and the field, and
/// tells what was told.
pub proof fn law_incomplete_answers_end_locating(
    log: Seq<Answer>,
    fns: MonoFunctions,
    player: i32,
)
    requires
        served(log, 0),
    ensures
        !all_told(log, 11) ==> (lives_flow(opening(log), fns, player).0 matches Err(Halt::Fail(m))
            && locates_three(
            m,
            "没能定位 "@ + "HeroController"@ + "."@ + "players"@ + "："@ + "klass=0x"@,
            told(log[11]),
            " vtable=0x"@,
            told(log[13]),
            " static=0x"@,
            told(log[14]),
        )),
        all_told(log, 11) && field_told(log) <= u64::MAX && served(log, 16) && !all_told(log, 27)
            ==> (lives_flow(opening(log), fns, player).0 matches Err(Halt::Fail(m))
            && locates_three(
            m,
            "没能定位 "@ + "Player"@ + "."@ + "lives"@ + "："@ + "klass=0x"@,
            told(log[27]),
            " vtable=0x"@,
            told(log[29]),
            " static=0x"@,
            told(log[30]),
        )),
        all_told(log, 11) && field_told(log) > u64::MAX ==> lives_flow(
            opening(log),
            fns,
            player,
        ).0 is Err && (lives_flow(opening(log), fns, player).0->Err_0 is Overflow),
{
    let t = opening(log);
    law_the_layout_is_what_the_slots_told(log, 11);
    law_the_layout_is_what_the_slots_told(log, 27);
    lemma_served(t, fns, "HeroController"@, "players"@);
    lemma_three_shown(
        "没能定位 "@ + "HeroController"@ + "."@ + "players"@ + "："@,
        layout_at(log, 11),
    );
    lemma_three_shown("没能定位 "@ + "Player"@ + "."@ + "lives"@ + "："@, layout_at(log, 27));
    if all_told(log, 11) && field_told(log) <= u64::MAX && served(log, 16) {
        let t2 = players_flow(t, fns).1;
        assert(t2.asked.len() == 16 && t2.log == log);
        lemma_served(t2, fns, "Player"@, "lives"@);
    }
}

/// A field that cannot be read and a field that holds null end locating, each with its message.
pub proof fn law_an_unreadable_field_and_a_null_end_locating(
    log: Seq<Answer>,
    fns: MonoFunctions,
    player: i32,
)
    requires
        looked_up(log),
        log.len() > 32,
    ensures
        ({
            let f = lives_flow(opening(log), fns, player);
            let readable = log[32] matches Answer::Data(Some(d)) && d.len() == 8;
            &&& !readable ==> f.1.asked.len() == 33 && (f.0 matches Err(Halt::Fail(m)) && locates(
                m,
                "读不到 HeroController.players 字段的内容（地址 0x"@,
                field_told(log) as nat,
                " 不可读）"@,
            ))
            &&& readable && told(log[32]) == 0 ==> f.1.asked.len() == 33 && f.0 == Err::<u64, Halt>(
                Halt::Fail("players 是 null —— 多半是还没进入关卡，玩家数组尚未建立。"@),
            )
        }),
{
    lemma_looked_up(log, fns);
    lemma_told(log[32]);
    law_shown_numbers_are_told(
        "读不到 HeroController.players 字段的内容（地址 0x"@,
        field_told(log),
        " 不可读）"@,
    );
    let f3 = player_flow(players_flow(opening(log), fns).1, fns);
    let r = array_flow(f3.1, field_told(log) as u64);
}

} // verus!

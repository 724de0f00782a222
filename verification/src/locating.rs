//! Where the lives lie, told by the bytes of the memory.
//!
//! Everything here is said of the words in the memory alone, written out byte by byte, so that it
//! can be held against a picture of the array.

use crate::bytes::{
    law_decode_of_encode, law_values_of_bytes, le_digits, le_value, lemma_le_digits_len, pow256,
    word32,
};
use crate::inject::FieldLayout;
use crate::mono::MonoFunctions;
use crate::protocol::{
    beyond, holds_player, law_conversations_are_short, layout_at, lemma_element_looks,
    lemma_length_looks, lemma_locate_behind, lemma_locate_looks, lemma_place_in, lemma_place_looks,
    lemma_player_script, lemma_players_script, lemma_probe_looks, lemma_truthful_start, length_in,
    number_in, place_of, player_in, truthful_from, word_in, Memory,
};
use crate::remote::{data_of, opening, read_flow, Answer, Ask, Flow, Halt, Talk};
use crate::resuming::{begins, law_conversations_resume, requests};
use crate::trainer::{
    array_flow, believable, counter_flow, element, element_flow, extended, length_flow, lives_flow,
    locate_flow, picked, place_flow, plausible_length, player_flow, players_flow, probe_flow,
    ARRAY_HEADER_LEN,
};
use vstd::prelude::*;

verus! {

// ---------------------------------------------------------------------------
// Words in a memory
// ---------------------------------------------------------------------------
/// The 64-bit number in the eight bytes from `at` on, the lowest first.
pub open spec fn qword(d: Seq<u8>, at: int) -> int {
    d[at] + 0x100 * d[at + 1] + 0x1_0000 * d[at + 2] + 0x100_0000 * d[at + 3] + 0x1_0000_0000 * d[at
        + 4] + 0x100_0000_0000 * d[at + 5] + 0x1_0000_0000_0000 * d[at + 6] + 0x100_0000_0000_0000
        * d[at + 7]
}

/// The signed 32-bit number in the first four bytes, the lowest first.
pub open spec fn signed_dword(d: Seq<u8>) -> int {
    let v = d[0] + 0x100 * d[1] + 0x1_0000 * d[2] + 0x100_0000 * d[3];
    if v > 0x7FFF_FFFF {
        v - 0x1_0000_0000
    } else {
        v
    }
}

/// A number as 64 bits hold it.
pub open spec fn wide(v: int) -> int {
    if v < 0 {
        v + 0x1_0000_0000_0000_0000
    } else {
        v
    }
}

/// Whether a read gives as many bytes as it asks for, or none.
pub open spec fn sound(mem: Memory) -> bool {
    forall|addr: u64, len: u64| (#[trigger] mem(addr, len)) matches Some(d) ==> d.len() == len
}

/// Whether the answer to a read is what the memory holds: all bytes, and none otherwise.
pub open spec fn answered(mem: Memory, a: Answer, addr: u64, len: u64) -> bool {
    match a {
        Answer::Data(Some(d)) => if d.len() == len {
            mem(addr, len) == Some(d)
        } else {
            mem(addr, len) is None
        },
        _ => mem(addr, len) is None,
    }
}

/// Whether the reads among the requests from the `from`-th on were answered by the memory.
pub open spec fn honest(mem: Memory, log: Seq<Answer>, q: Seq<Ask>, from: int) -> bool {
    forall|i: int|
        from <= i < q.len() ==> (#[trigger] q[i] matches Ask::Read { addr, len } ==> answered(
            mem,
            log[i],
            addr,
            len,
        ))
}

/// The 64-bit number at an address.
pub open spec fn pointer_in(mem: Memory, addr: int) -> Option<int> {
    if 0 <= addr <= 0xFFFF_FFFF_FFFF_FFFF {
        match mem(addr as u64, 8) {
            Some(d) => Some(qword(d, 0)),
            None => None,
        }
    } else {
        None
    }
}

/// The signed 32-bit number at an address.
pub open spec fn count_in(mem: Memory, addr: int) -> Option<int> {
    if 0 <= addr <= 0xFFFF_FFFF_FFFF_FFFF {
        match mem(addr as u64, 4) {
            Some(d) => Some(signed_dword(d)),
            None => None,
        }
    } else {
        None
    }
}

// ---------------------------------------------------------------------------
// Players in a memory
// ---------------------------------------------------------------------------
/// Whether `ptr` leads to a player: not null, the vtable in its first word, and between no and
/// 9999 lives at their offset.
pub open spec fn leads_to_player(mem: Memory, ptr: int, vtable: int, offset: int) -> bool {
    &&& ptr != 0
    &&& pointer_in(mem, ptr) == Some(vtable)
    &&& count_in(mem, ptr + wide(offset)) matches Some(v) && 0 <= v <= 9999
}

/// Where in the array, of which `h` are the first 64 bytes, the elements start: behind 32 bytes
/// if the word behind 24 is not null and leads to nothing with this vtable, and else behind 24.
pub open spec fn starts_at(mem: Memory, h: Seq<u8>, vtable: int) -> int {
    if qword(h, 24) != 0 && pointer_in(mem, qword(h, 24)) != Some(vtable) {
        32
    } else {
        24
    }
}

/// How long the array is, if that can be told: the number behind 24 bytes, or the one behind 16,
/// whichever lies from 1 to 64 first.
pub open spec fn array_length(mem: Memory, array: int) -> Option<int> {
    match (pointer_in(mem, array + 24), pointer_in(mem, array + 16)) {
        (Some(n), _) if 1 <= n <= 64 => Some(n),
        (_, Some(n)) if 1 <= n <= 64 => Some(n),
        _ => None,
    }
}

/// Whether the lives of a player lie at `addr`, where the static field at `field` holds the array
/// of players: the array is not null, is not known to be too short, and has in the player's place
/// an object that is a player; and `addr` is the offset away from it.
pub open spec fn lives_lie_at(
    mem: Memory,
    field: int,
    player: int,
    vtable: int,
    offset: int,
    addr: int,
) -> bool {
    match pointer_in(mem, field) {
        None => false,
        Some(array) => {
            &&& array != 0
            &&& 0 <= player
            &&& array_length(mem, array) matches Some(n) ==> player < n
            &&& match mem(array as u64, 64) {
                None => false,
                Some(h) => {
                    let at = starts_at(mem, h, vtable) + 8 * player;
                    &&& at + 8 <= 64
                    &&& leads_to_player(mem, qword(h, at), vtable, offset)
                    &&& addr == qword(h, at) + wide(offset)
                },
            }
        },
    }
}

proof fn lemma_qword(d: Seq<u8>, at: int)
    requires
        0 <= at,
        at + 8 <= d.len(),
    ensures
        le_value(d.subrange(at, at + 8)) == qword(d, at),
        0 <= qword(d, at) <= u64::MAX,
        at == 0 && d.len() == 8 ==> le_value(d) == qword(d, 0),
{
    law_values_of_bytes(d.subrange(at, at + 8));
    if d.len() == 8 {
        law_values_of_bytes(d);
    }
}

proof fn lemma_pointer(mem: Memory, addr: u64)
    requires
        sound(mem),
    ensures
        match word_in(mem, addr) {
            Some(v) => pointer_in(mem, addr as int) == Some(v as int),
            None => pointer_in(mem, addr as int) is None,
        },
{
    if let Some(d) = mem(addr, 8) {
        lemma_qword(d, 0);
    }
}

proof fn lemma_count(mem: Memory, addr: u64)
    requires
        sound(mem),
    ensures
        match number_in(mem, addr) {
            Some(v) => count_in(mem, addr as int) == Some(v as int),
            None => count_in(mem, addr as int) is None,
        },
{
    if let Some(d) = mem(addr, 4) {
        law_values_of_bytes(d);
    }
}

proof fn lemma_player(mem: Memory, ptr: u64, vtable: u64, off: i32)
    requires
        sound(mem),
    ensures
        player_in(mem, ptr, vtable, off) == leads_to_player(
            mem,
            ptr as int,
            vtable as int,
            off as int,
        ),
        extended(off) == wide(off as int),
{
    lemma_pointer(mem, ptr);
    if ptr + extended(off) <= u64::MAX {
        lemma_count(mem, (ptr + extended(off)) as u64);
    }
}

proof fn lemma_place(mem: Memory, header: Seq<u8>, vtable: u64)
    requires
        sound(mem),
        header.len() == 64,
    ensures
        place_of(mem, header, vtable) == starts_at(mem, header, vtable as int),
{
    lemma_qword(header, 24);
    lemma_pointer(mem, qword(header, 24) as u64);
}

proof fn lemma_length(mem: Memory, array: u64)
    requires
        sound(mem),
        array + 24 <= u64::MAX,
    ensures
        match length_in(mem, array) {
            Some(n) => array_length(mem, array as int) == Some(n as int),
            None => array_length(mem, array as int) is None,
        },
{
    lemma_pointer(mem, (array + 24) as u64);
    lemma_pointer(mem, (array + 16) as u64);
}

/// Locating in the array, as the words have it.
proof fn lemma_located(
    mem: Memory,
    from: int,
    t: Talk,
    array: u64,
    player: i32,
    vtable: u64,
    off: i32,
    field: int,
)
    requires
        sound(mem),
        0 <= from <= t.asked.len() <= t.log.len(),
        truthful_from(mem, from, t.log, locate_flow(t, array, player, vtable, off).1.asked),
        pointer_in(mem, field) == Some(array as int),
        array != 0,
    ensures
        match locate_flow(t, array, player, vtable, off).0 {
            Ok(object) => object + wide(off as int) <= u64::MAX && lives_lie_at(
                mem,
                field,
                player as int,
                vtable as int,
                off as int,
                object + wide(off as int),
            ),
            Err(Halt::Fail(_)) => forall|addr: int|
                !lives_lie_at(mem, field, player as int, vtable as int, off as int, addr),
            Err(_) => true,
        },
        begins(t.asked, locate_flow(t, array, player, vtable, off).1.asked),
{
    let f = locate_flow(t, array, player, vtable, off);
    let n = t.asked.len() as int;
    let (r, t2) = read_flow(t, array, ARRAY_HEADER_LEN);
    let j = lemma_locate_looks(t, array, player, vtable, off);
    if let Ok(Some(header)) = r {
        lemma_locate_behind(mem, from, t2, header, array, player, vtable, off, f);
        assert(t2.asked[n] == (Ask::Read { addr: array, len: ARRAY_HEADER_LEN }));
        assert(f.1.asked[n] == (Ask::Read { addr: array, len: ARRAY_HEADER_LEN }));
        assert(mem(array, ARRAY_HEADER_LEN) == Some(header));
        if array + 24 <= u64::MAX {
            lemma_behind_the_header(mem, header, array, player, vtable, off, field, f);
        }
    } else if let Ok(None) = r {
        assert(f.1.asked[n] == (Ask::Read { addr: array, len: ARRAY_HEADER_LEN }));
        assert(mem(array, ARRAY_HEADER_LEN) is None);
    }
}

proof fn lemma_behind_the_header(
    mem: Memory,
    header: Seq<u8>,
    array: u64,
    player: i32,
    vtable: u64,
    off: i32,
    field: int,
    f: Flow<u64>,
)
    requires
        sound(mem),
        array != 0,
        array + 24 <= u64::MAX,
        mem(array, 64) == Some(header),
        pointer_in(mem, field) == Some(array as int),
        match f.0 {
            Ok(object) => !beyond(mem, array, extended(player)) && holds_player(
                mem,
                header,
                extended(player),
                vtable,
                off,
                object,
            ),
            Err(Halt::Fail(_)) => beyond(mem, array, extended(player)) || forall|object: u64|
                !holds_player(mem, header, extended(player), vtable, off, object),
            Err(_) => true,
        },
    ensures
        match f.0 {
            Ok(object) => object + wide(off as int) <= u64::MAX && lives_lie_at(
                mem,
                field,
                player as int,
                vtable as int,
                off as int,
                object + wide(off as int),
            ),
            Err(Halt::Fail(_)) => forall|addr: int|
                !lives_lie_at(mem, field, player as int, vtable as int, off as int, addr),
            Err(_) => true,
        },
{
    let index = extended(player);
    let at = starts_at(mem, header, vtable as int) + 8 * player;
    assert(header.len() == 64);
    lemma_place(mem, header, vtable);
    lemma_length(mem, array);
    if 0 <= player && at + 8 <= 64 {
        lemma_qword(header, at);
        let object = qword(header, at) as u64;
        assert(element(header, index as int, place_of(mem, header, vtable) as int) == Some(object));
        lemma_player(mem, object, vtable, off);
        assert(holds_player(mem, header, index, vtable, off, object) == player_in(
            mem,
            object,
            vtable,
            off,
        ));
    } else {
        assert(element(header, index as int, place_of(mem, header, vtable) as int) is None);
    }
}

/// Whether the reads from the `from`-th request on were answered by the memory, put otherwise.
proof fn lemma_honest(mem: Memory, log: Seq<Answer>, q: Seq<Ask>, from: int)
    requires
        sound(mem),
        honest(mem, log, q, from),
    ensures
        truthful_from(mem, from, log, q),
{
    assert forall|i: int| 0 <= from <= i < q.len() implies (#[trigger] q[i] matches Ask::Read {
        addr,
        len,
    } ==> data_of(log[i], len) == mem(addr, len)) by {
        if let Ask::Read { addr, len } = q[i] {
            assert(answered(mem, log[i], addr, len));
        }
    }
}

/// Locating from the static field on, as the words have it.
proof fn lemma_counted(mem: Memory, from: int, t: Talk, field: u64, player: i32, l: FieldLayout)
    requires
        sound(mem),
        0 <= from <= t.asked.len() <= t.log.len(),
        truthful_from(mem, from, t.log, counter_flow(t, field, player, l).1.asked),
    ensures
        ({
            let f = counter_flow(t, field, player, l);
            let n = t.asked.len() as int;
            &&& begins(t.asked, f.1.asked)
            &&& requests(f).len() > n && requests(f)[n] == (Ask::Read { addr: field, len: 8 })
            &&& match f.0 {
                Ok(addr) => lives_lie_at(
                    mem,
                    field as int,
                    player as int,
                    l.vtable as int,
                    l.offset as int,
                    addr as int,
                ),
                Err(Halt::Fail(_)) => forall|addr: int|
                    !lives_lie_at(
                        mem,
                        field as int,
                        player as int,
                        l.vtable as int,
                        l.offset as int,
                        addr,
                    ),
                Err(_) => true,
            }
        }),
{
    let f = counter_flow(t, field, player, l);
    let n = t.asked.len() as int;
    let (r, t2) = array_flow(t, field);
    lemma_pointer(mem, field);
    if let Ok(array) = r {
        let g = locate_flow(t2, array, player, l.vtable, l.offset);
        let j = lemma_locate_looks(t2, array, player, l.vtable, l.offset);
        assert(g.1.asked == f.1.asked);
        assert(t2.asked[n] == (Ask::Read { addr: field, len: 8 }));
        assert(f.1.asked[n] == (Ask::Read { addr: field, len: 8 }));
        assert(word_in(mem, field) == Some(array));
        lemma_located(mem, from, t2, array, player, l.vtable, l.offset, field as int);
        lemma_player(mem, 0, l.vtable, l.offset);
    } else {
        assert(f.1 == t2);
        if n < t.log.len() {
            assert(f.1.asked[n] == (Ask::Read { addr: field, len: 8 }));
            assert(data_of(t.log[n], 8) == mem(field, 8));
        }
    }
}

/// Where the player is there, no address goes beyond 64 bits.
proof fn lemma_element_fits(
    mem: Memory,
    from: int,
    t: Talk,
    header: Seq<u8>,
    array: u64,
    index: u64,
    vtable: u64,
    off: i32,
    object: u64,
)
    requires
        header.len() == 64,
        0 <= from <= t.asked.len() <= t.log.len(),
        truthful_from(mem, from, t.log, element_flow(t, header, array, index, vtable, off).1.asked),
        holds_player(mem, header, index, vtable, off, object),
    ensures
        element_flow(t, header, array, index, vtable, off).0 matches Err(h) ==> h !is Overflow,
{
    let f = element_flow(t, header, array, index, vtable, off);
    let p = place_flow(t, header, vtable);
    lemma_place_looks(t, header, vtable);
    if let Ok((place, a)) = p.0 {
        let g = probe_flow(p.1, header, index, place, vtable, off);
        lemma_probe_looks(p.1, header, index, place, vtable, off);
        assert(begins(g.1.asked, f.1.asked));
        lemma_truthful_start(mem, from, t.log, g.1.asked, f.1.asked);
        lemma_truthful_start(mem, from, t.log, p.1.asked, g.1.asked);
        lemma_place_in(mem, from, t, header, vtable);
        assert(element(header, index as int, place as int) == Some(object));
        assert(g.0 matches Err(h) ==> h !is Overflow);
    }
}

/// Where the lives lie somewhere, no address on the way to them goes beyond 64 bits.
proof fn lemma_fits(
    mem: Memory,
    from: int,
    t: Talk,
    field: u64,
    player: i32,
    l: FieldLayout,
    addr: int,
)
    requires
        sound(mem),
        0 <= from <= t.asked.len() <= t.log.len(),
        truthful_from(mem, from, t.log, counter_flow(t, field, player, l).1.asked),
        lives_lie_at(
            mem,
            field as int,
            player as int,
            l.vtable as int,
            l.offset as int,
            addr,
        ),
        pointer_in(mem, field as int)->0 + 24 <= u64::MAX,
    ensures
        counter_flow(t, field, player, l).0 matches Err(h) ==> h !is Overflow,
{
    let f = counter_flow(t, field, player, l);
    let n = t.asked.len() as int;
    let (r, t2) = array_flow(t, field);
    lemma_pointer(mem, field);
    if let Ok(array) = r {
        let g = locate_flow(t2, array, player, l.vtable, l.offset);
        let j = lemma_locate_looks(t2, array, player, l.vtable, l.offset);
        assert(g.1.asked == f.1.asked);
        assert(t2.asked[n] == (Ask::Read { addr: field, len: 8 }));
        assert(f.1.asked[n] == (Ask::Read { addr: field, len: 8 }));
        assert(word_in(mem, field) == Some(array));
        lemma_located(mem, from, t2, array, player, l.vtable, l.offset, field as int);
        lemma_player(mem, 0, l.vtable, l.offset);
        lemma_locate_fits(mem, from, t2, array, player, l, field as int, addr);
    }
}

proof fn lemma_locate_fits(
    mem: Memory,
    from: int,
    t: Talk,
    array: u64,
    player: i32,
    l: FieldLayout,
    field: int,
    addr: int,
)
    requires
        sound(mem),
        0 <= from <= t.asked.len() <= t.log.len(),
        truthful_from(
            mem,
            from,
            t.log,
            locate_flow(t, array, player, l.vtable, l.offset).1.asked,
        ),
        pointer_in(mem, field) == Some(array as int),
        lives_lie_at(mem, field, player as int, l.vtable as int, l.offset as int, addr),
        array + 24 <= u64::MAX,
    ensures
        locate_flow(t, array, player, l.vtable, l.offset).0 matches Err(h) ==> h !is Overflow,
{
    let f = locate_flow(t, array, player, l.vtable, l.offset);
    let n = t.asked.len() as int;
    let (r, t2) = read_flow(t, array, ARRAY_HEADER_LEN);
    let j = lemma_locate_looks(t, array, player, l.vtable, l.offset);
    if let Ok(Some(header)) = r {
        let g = length_flow(t2, array);
        lemma_length_looks(t2, array);
        assert(t2.asked[n] == (Ask::Read { addr: array, len: ARRAY_HEADER_LEN }));
        if let Ok(length) = g.0 {
            let index = extended(player);
            if !(length matches Some(m) && index >= m) {
                let i = lemma_element_looks(g.1, header, array, index, l.vtable, l.offset);
                assert(f == element_flow(g.1, header, array, index, l.vtable, l.offset));
                assert(begins(t2.asked, f.1.asked));
                assert(f.1.asked[n] == (Ask::Read { addr: array, len: ARRAY_HEADER_LEN }));
                assert(mem(array, 64) == Some(header));
                lemma_place(mem, header, l.vtable);
                let at = starts_at(mem, header, l.vtable as int) + 8 * player;
                lemma_qword(header, at);
                let object = qword(header, at) as u64;
                lemma_player(mem, object, l.vtable, l.offset);
                assert(element(header, index as int, place_of(mem, header, l.vtable) as int)
                    == Some(object));
                lemma_element_fits(
                    mem,
                    from,
                    g.1,
                    header,
                    array,
                    index,
                    l.vtable,
                    l.offset,
                    object,
                );
            }
        }
    }
}

/// In a memory that holds still once mono has been asked, locating finds the lives where they
/// lie, and only there. The array that is looked at is the 64-bit word at the static field
/// `HeroController.players`: that far away from the static data of the class as mono told. Once
/// that is read, locating fails only where the lives of the player lie nowhere.
pub proof fn law_lives_are_found_where_they_lie(
    mem: Memory,
    log: Seq<Answer>,
    fns: MonoFunctions,
    player: i32,
)
    requires
        sound(mem),
        honest(mem, log, lives_flow(opening(log), fns, player).1.asked, 32),
    ensures
        ({
            let f = lives_flow(opening(log), fns, player);
            let hero = layout_at(log, 11);
            let lives = layout_at(log, 27);
            let field = hero.static_data + word32(hero.offset);
            &&& requests(f).len() > 32 ==> requests(f)[32] == (Ask::Read {
                addr: field as u64,
                len: 8,
            }) && field <= u64::MAX
            &&& f.0 matches Ok(addr) ==> f.1.asked.len() > 32 && lives_lie_at(
                mem,
                field,
                player as int,
                lives.vtable as int,
                lives.offset as int,
                addr as int,
            )
            &&& f.0 matches Err(Halt::Fail(_)) ==> f.1.asked.len() <= 32 || forall|addr: int|
                !lives_lie_at(
                    mem,
                    field,
                    player as int,
                    lives.vtable as int,
                    lives.offset as int,
                    addr,
                )
        }),
{
    let t = opening(log);
    let f = lives_flow(t, fns, player);
    lemma_players_script(t, fns);
    let f2 = players_flow(t, fns);
    if let Ok(field) = f2.0 {
        lemma_player_script(f2.1, fns);
        let f3 = player_flow(f2.1, fns);
        if let Ok(l) = f3.0 {
            assert(f3.1.asked.len() == 32);
            lemma_honest(mem, log, f.1.asked, 32);
            lemma_counted(mem, 32, f3.1, field, player, l);
        }
    }
}

/// In such a memory, where the lives of the player lie at an address, and both lookups have been
/// gone through, locating ends with that address once enough is answered: no more than forty
/// answers in all.
pub proof fn law_lives_that_lie_somewhere_are_found(
    mem: Memory,
    log: Seq<Answer>,
    fns: MonoFunctions,
    player: i32,
    addr: int,
)
    requires
        sound(mem),
        honest(mem, log, lives_flow(opening(log), fns, player).1.asked, 32),
        requests(lives_flow(opening(log), fns, player)).len() > 32,
        log.len() >= 40,
        ({
            let hero = layout_at(log, 11);
            let lives = layout_at(log, 27);
            let field = hero.static_data + word32(hero.offset);
            &&& lives_lie_at(
                mem,
                field,
                player as int,
                lives.vtable as int,
                lives.offset as int,
                addr,
            )
            &&& pointer_in(mem, field)->0 + 24 <= u64::MAX
        }),
    ensures
        lives_flow(opening(log), fns, player).0 matches Ok(found) && found == addr,
{
    let t = opening(log);
    let f = lives_flow(t, fns, player);
    law_lives_are_found_where_they_lie(mem, log, fns, player);
    law_conversations_are_short(log, fns, Seq::empty(), Seq::empty(), player, 0);
    law_conversations_resume(log, log, fns, Seq::empty(), Seq::empty(), player, 0);
    lemma_players_script(t, fns);
    let f2 = players_flow(t, fns);
    if let Ok(field) = f2.0 {
        lemma_player_script(f2.1, fns);
        let f3 = player_flow(f2.1, fns);
        if let Ok(l) = f3.0 {
            assert(f3.1.asked.len() == 32);
            lemma_honest(mem, log, f.1.asked, 32);
            lemma_fits(mem, 32, f3.1, field, player, l, addr);
        }
    }
}

// ---------------------------------------------------------------------------
// Picking
// ---------------------------------------------------------------------------
/// What stands behind `at` bytes of the header and as many elements as `index` says, if the header
/// holds all eight bytes of it and it is not null.
pub open spec fn stands_at(header: Seq<u8>, index: int, at: int) -> Option<int> {
    if at + 8 * index + 8 <= header.len() && qword(header, at + 8 * index) != 0 {
        Some(qword(header, at + 8 * index))
    } else {
        None
    }
}

/// What is picked stands in the header, behind 32 bytes or behind 24, and is accepted; what stands
/// behind 32 is picked before what stands behind 24. Nothing is picked only where what stands at
/// both places is turned down, or nothing stands there.
pub proof fn law_picking_takes_what_stands_there<F: Fn(u64) -> bool>(
    header: Seq<u8>,
    index: nat,
    is_player: F,
    r: Option<(u64, usize)>,
)
    requires
        picked(header, index as int, is_player, r),
    ensures
        match r {
            Some((ptr, at)) => {
                &&& at == 32 || at == 24
                &&& stands_at(header, index as int, at as int) == Some(ptr as int)
                &&& is_player.ensures((ptr,), true)
                &&& at == 24 ==> (stands_at(header, index as int, 32) matches Some(other)
                    ==> is_player.ensures((other as u64,), false))
            },
            None => {
                &&& stands_at(header, index as int, 32) matches Some(other) ==> is_player.ensures(
                    (other as u64,),
                    false,
                )
                &&& stands_at(header, index as int, 24) matches Some(other) ==> is_player.ensures(
                    (other as u64,),
                    false,
                )
            },
        },
{
    if 32 + 8 * index + 8 <= header.len() {
        lemma_qword(header, 32 + 8 * index as int);
    }
    if 24 + 8 * index + 8 <= header.len() {
        lemma_qword(header, 24 + 8 * index as int);
    }
}

/// An element of a header that is made of its bytes is read back from it, wherever it stands; a
/// header that ends before it has none.
pub proof fn law_elements_read_back(a: Seq<u8>, ptr: u64, b: Seq<u8>, index: nat, at: nat)
    requires
        a.len() == at + 8 * index,
    ensures
        element(a + le_digits(ptr as nat, 8) + b, index as int, at as int) == Some(ptr),
        forall|n: int|
            0 <= n < 8 ==> element(
                #[trigger] (a + le_digits(ptr as nat, 8).take(n)),
                index as int,
                at as int,
            ) is None,
{
    lemma_le_digits_len(ptr as nat, 8);
    reveal_with_fuel(pow256, 9);
    law_decode_of_encode(ptr as nat, 8);
    let h = a + le_digits(ptr as nat, 8) + b;
    let k = (at + 8 * index) as int;
    assert(h.subrange(k, k + 8) =~= le_digits(ptr as nat, 8));
}

/// A length is plausible from 1 to 64; a number of lives is believable from 0 to 9999; and a
/// number is extended to 64 bits by two to the power of 64, if it is negative.
pub proof fn law_bounds(n: u64, v: i32)
    ensures
        plausible_length(Some(n)) <==> 1 <= n <= 64,
        !plausible_length(None),
        believable(v) <==> 0 <= v <= 9999,
        extended(v) == wide(v as int),
{
}

} // verus!

//! Setting a player's lives: locating the counter, checking what was located, writing it.
//!
//! The obvious way would be to call the game's own `HeroController.SetLives` in its process.
//! That method refreshes the HUD, which Unity allows on the main thread only, and the game
//! crashes. So mono is only asked for two facts, where the static field
//! `HeroController.players` lies and at which offset of a `Player` its `lives` lie; the rest
//! is reading and writing memory.

use crate::bytes::{le_digits, le_value, to_word32, u32_to_le, u64_from_le, word32};
use crate::inject::{resolve, resolve_flow, FieldLayout};
use crate::mono::{all_fit, has_first, missing_text, mono_name, MonoApi, MonoFunctions};
use crate::remote::{
    answers, ask_flow, follows, opening, read_flow, read_i32_flow, read_u64_flow, write_flow, Ask,
    Flow, Halt, Overflow, Progress, Reply, Request, Stop, Talk, Transcript,
};
use crate::text::{
    dec, dec_i32, dec_text, hex, hex_fixed, hex_fixed_text, hex_text, int_text, join_lines, joined,
    maybe_i32, maybe_text, maybe_u64, texts,
};
use crate::win32::{error_text, is_alive, last_error, STILL_ACTIVE};
use vstd::prelude::*;
use vstd::string::*;

verus! {

/// The record of an operation, to be shown step by step.
pub type Steps = Vec<String>;

/// How much of the array object is read: enough for four elements.
pub const ARRAY_HEADER_LEN: u64 = 0x40;

/// Where the elements of a mono array may start, the measured place first.
///
/// The layout differs between versions of mono, but an array has only one. Which one it has
/// is decided by the vtable of what its words point to, and by nothing else.
pub const ELEMENTS_AT: usize = 0x20;

pub const ELEMENTS_OR_AT: usize = 0x18;

/// Where the length of a mono array may lie. It only serves to tell that there is no such
/// player.
pub const LENGTH_AT: u64 = 0x18;

pub const LENGTH_OR_AT: u64 = 0x10;

// ---------------------------------------------------------------------------
// Looking into an array
// ---------------------------------------------------------------------------
/// The pointer in an array header at the `index`-th element behind `elem_off`, if the header
/// reaches that far.
pub open spec fn element(header: Seq<u8>, index: int, elem_off: int) -> Option<u64> {
    let at = elem_off + index * 8;
    if at + 8 > header.len() {
        None
    } else {
        Some(le_value(header.subrange(at, at + 8)) as u64)
    }
}

/// Whether the place `elem_off` gives no player: the header ends before it, the pointer is
/// null, or `is_player` turns it down.
pub open spec fn turned_down<F: Fn(u64) -> bool>(
    header: Seq<u8>,
    index: int,
    elem_off: int,
    is_player: F,
) -> bool {
    match element(header, index, elem_off) {
        None => true,
        Some(ptr) => ptr == 0 || is_player.ensures((ptr,), false),
    }
}

/// Reads the element at one place.
fn element_at(header: &[u8], index: u64, elem_off: usize) -> (r: Option<u64>)
    requires
        elem_off + index * 8 + 8 <= u64::MAX,
    ensures
        r == element(header@, index as int, elem_off as int),
{
    let at: u64 = elem_off as u64 + index * 8;
    let len: usize = header.len();
    if at + 8 > len as u64 {
        None
    } else {
        Some(u64_from_le(header, at as usize))
    }
}

/// Whether `r` is what picking gives: the element at the first place where `is_player` accepts
/// it, with that place, or nothing where no place has an element that it accepts.
pub open spec fn picked<F: Fn(u64) -> bool>(
    header: Seq<u8>,
    index: int,
    is_player: F,
    r: Option<(u64, usize)>,
) -> bool {
    match r {
        Some((ptr, off)) => {
            &&& element(header, index, off as int) == Some(ptr)
            &&& ptr != 0
            &&& is_player.ensures((ptr,), true)
            &&& off == ELEMENTS_AT || (off == ELEMENTS_OR_AT && turned_down(
                header,
                index,
                ELEMENTS_AT as int,
                is_player,
            ))
        },
        None => {
            &&& turned_down(header, index, ELEMENTS_AT as int, is_player)
            &&& turned_down(header, index, ELEMENTS_OR_AT as int, is_player)
        },
    }
}

/// Takes the `index`-th element out of an array header, at the first place where `is_player`
/// accepts it, and tells that place.
///
/// `is_player` is the only criterion, so nothing but a player is ever picked. Whether the
/// place is the one that the array has is for the caller to tell.
pub fn pick_element<F: Fn(u64) -> bool>(header: &[u8], index: usize, is_player: F) -> (r: Option<
    (u64, usize),
>)
    requires
        ELEMENTS_AT + index * 8 + 8 <= usize::MAX,
        forall|ptr: u64| is_player.requires((ptr,)),
    ensures
        picked(header@, index as int, is_player, r),
{
    if let Some(ptr) = element_at(header, index as u64, ELEMENTS_AT) {
        if ptr != 0 && is_player(ptr) {
            return Some((ptr, ELEMENTS_AT));
        }
    }
    if let Some(ptr) = element_at(header, index as u64, ELEMENTS_OR_AT) {
        if ptr != 0 && is_player(ptr) {
            return Some((ptr, ELEMENTS_OR_AT));
        }
    }
    None
}

/// Whether a value can be the length of the array of players.
pub open spec fn plausible_length(v: Option<u64>) -> bool {
    v matches Some(n) && 1 <= n <= 64
}

/// Picks the first value that can be a length.
pub fn pick_length(candidates: &[Option<u64>]) -> (r: Option<u64>)
    ensures
        match r {
            Some(n) => exists|i: int|
                0 <= i < candidates@.len() && #[trigger] candidates@[i] == Some(n)
                    && plausible_length(candidates@[i]) && forall|j: int|
                    0 <= j < i ==> !plausible_length(#[trigger] candidates@[j]),
            None => forall|j: int|
                0 <= j < candidates@.len() ==> !plausible_length(#[trigger] candidates@[j]),
        },
{
    let mut i: usize = 0;
    while i < candidates.len()
        invariant
            i <= candidates.len(),
            forall|j: int| 0 <= j < i ==> !plausible_length(#[trigger] candidates@[j]),
        decreases candidates.len() - i,
    {
        if let Some(n) = candidates[i] {
            if 1 <= n && n <= 64 {
                assert(candidates@[i as int] == Some(n));
                return Some(n);
            }
        }
        i = i + 1;
    }
    None
}

// ---------------------------------------------------------------------------
// Locating a player
// ---------------------------------------------------------------------------
/// A signed number as an unsigned 64-bit one: sign-extended.
pub open spec fn extended(v: i32) -> u64 {
    if v >= 0 {
        v as u64
    } else {
        (v + 0x1_0000_0000_0000_0000) as u64
    }
}

/// Whether a number of lives is believable in a `Player`.
pub open spec fn believable(v: i32) -> bool {
    0 <= v < 10_000
}

/// Adds to an address.
pub open spec fn offset_flow(t: Talk, a: u64, b: u64) -> Flow<u64> {
    if a + b > u64::MAX {
        (Err(Halt::Overflow(Overflow::Add)), t)
    } else {
        (Ok((a + b) as u64), t)
    }
}

/// Whether a pointer leads to an object of the class `Player`: its first word is the vtable.
/// The error says why not.
pub open spec fn class_flow(t: Talk, ptr: u64, vtable: u64) -> Flow<Result<(), Seq<char>>> {
    match read_u64_flow(t, ptr) {
        (Err(h), t2) => (Err(h), t2),
        (Ok(vt), t2) => if vt == Some(vtable) {
            (Ok(Ok(())), t2)
        } else {
            (
                Ok(
                    Err(
                        "0x"@ + hex_text(ptr as nat) + " 的 vtable 是 "@ + maybe_text(
                            match vt {
                                Some(n) => Some(n as int),
                                None => None,
                            },
                        ) + "，不是 Player"@,
                    ),
                ),
                t2,
            )
        },
    }
}

/// Whether a pointer leads to a player: an object of the class with believable lives. The
/// error says why not.
pub open spec fn check_flow(t: Talk, ptr: u64, vtable: u64, lives_offset: i32) -> Flow<
    Result<(), Seq<char>>,
> {
    match class_flow(t, ptr, vtable) {
        (Err(h), t2) => (Err(h), t2),
        (Ok(Err(why)), t2) => (Ok(Err(why)), t2),
        (Ok(Ok(())), t2) => match offset_flow(t2, ptr, extended(lives_offset)) {
            (Err(h), t3) => (Err(h), t3),
            (Ok(addr), t3) => match read_i32_flow(t3, addr) {
                (Err(h), t4) => (Err(h), t4),
                (Ok(None), t4) => (
                    Ok(Err("0x"@ + hex_text(ptr as nat) + " 是 Player，但读不到生命值"@)),
                    t4,
                ),
                (Ok(Some(v)), t4) => if believable(v) {
                    (Ok(Ok(())), t4)
                } else {
                    (
                        Ok(
                            Err(
                                "0x"@ + hex_text(ptr as nat) + " 是 Player，但生命值 "@ + int_text(
                                    v as int,
                                ) + " 不像话"@,
                            ),
                        ),
                        t4,
                    )
                },
            },
        },
    }
}

/// Decides where the elements of the array start. The word at the other place is the first
/// element if they start there, and no pointer to a player if they do not. So where it is not
/// null and leads to no `Player`, they start at the measured place, and the reason is kept;
/// otherwise they start at the other place.
///
/// A null there is taken for the other layout with its first element missing. In the measured
/// layout the length stands there, so a null would be an array without elements; what the
/// measured place has is then not taken, whatever it is.
///
/// The place belongs to the array: it does not depend on which element is looked for. Where
/// the array has one of these two layouts, no other player's object is taken for that one.
pub open spec fn place_flow(t: Talk, header: Seq<u8>, vtable: u64) -> Flow<
    (usize, Option<Seq<char>>),
> {
    match element(header, 0, ELEMENTS_OR_AT as int) {
        None => (Ok((ELEMENTS_OR_AT, None)), t),
        Some(ptr) => if ptr == 0 {
            (Ok((ELEMENTS_OR_AT, None)), t)
        } else {
            match class_flow(t, ptr, vtable) {
                (Err(h), t2) => (Err(h), t2),
                (Ok(Ok(())), t2) => (Ok((ELEMENTS_OR_AT, None)), t2),
                (Ok(Err(why)), t2) => (Ok((ELEMENTS_AT, Some(why))), t2),
            }
        },
    }
}

/// Looks at the `index`-th element behind `elem_off`: the player there, or no pointer, or a
/// pointer with the reason why it is no player.
pub open spec fn probe_flow(
    t: Talk,
    header: Seq<u8>,
    index: u64,
    elem_off: usize,
    vtable: u64,
    lives_offset: i32,
) -> Flow<Result<u64, Option<Seq<char>>>> {
    if index * 8 > u64::MAX {
        (Err(Halt::Overflow(Overflow::Multiply)), t)
    } else if elem_off + index * 8 + 8 > u64::MAX {
        (Err(Halt::Overflow(Overflow::Add)), t)
    } else {
        match element(header, index as int, elem_off as int) {
            None => (Ok(Err(None)), t),
            Some(ptr) => if ptr == 0 {
                (Ok(Err(None)), t)
            } else {
                match check_flow(t, ptr, vtable, lives_offset) {
                    (Err(h), t2) => (Err(h), t2),
                    (Ok(Ok(())), t2) => (Ok(Ok(ptr)), t2),
                    (Ok(Err(why)), t2) => (Ok(Err(Some(why))), t2),
                }
            },
        }
    }
}

/// Reads the length of the array: the first place with a plausible one. The second place is
/// only read where the first one has none.
pub open spec fn length_flow(t: Talk, base: u64) -> Flow<Option<u64>> {
    match offset_flow(t, base, LENGTH_AT) {
        (Err(h), t2) => (Err(h), t2),
        (Ok(first), t2) => match read_u64_flow(t2, first) {
            (Err(h), t3) => (Err(h), t3),
            (Ok(a), t3) => if plausible_length(a) {
                (Ok(a), t3)
            } else {
                match read_u64_flow(t3, (base + LENGTH_OR_AT) as u64) {
                    (Err(h), t4) => (Err(h), t4),
                    (Ok(b), t4) => if plausible_length(b) {
                        (Ok(b), t4)
                    } else {
                        (Ok(None), t4)
                    },
                }
            },
        },
    }
}

/// The first `n` words of `d`, each with its offset.
pub open spec fn qwords_text(d: Seq<u8>, n: int) -> Seq<char>
    decreases n,
{
    if n <= 0 {
        Seq::empty()
    } else {
        let at = 8 * (n - 1);
        let word = "+"@ + hex_fixed_text(at as nat, 2) + "="@ + hex_fixed_text(
            le_value(d.subrange(at, at + 8)),
            16,
        );
        if n == 1 {
            word
        } else {
            qwords_text(d, n - 1) + " "@ + word
        }
    }
}

/// Shows the eight words at an address, for looking at their layout.
pub open spec fn dump_flow(t: Talk, addr: u64) -> Flow<Seq<char>> {
    match read_flow(t, addr, ARRAY_HEADER_LEN) {
        (Err(h), t2) => (Err(h), t2),
        (Ok(None), t2) => (Ok("0x"@ + hex_text(addr as nat) + " 起 8 个 qword 读不到"@), t2),
        (Ok(Some(d)), t2) => (Ok(qwords_text(d, 8)), t2),
    }
}

/// The value of a text that may be missing.
pub open spec fn text_of(m: Option<String>) -> Option<Seq<char>> {
    match m {
        Some(t) => Some(t@),
        None => None,
    }
}

/// The reasons collected from two looks.
pub open spec fn reasons(a: Option<Seq<char>>, b: Option<Seq<char>>) -> Seq<Seq<char>> {
    match (a, b) {
        (Some(x), Some(y)) => seq![x, y],
        (Some(x), None) => seq![x],
        (None, Some(y)) => seq![y],
        (None, None) => Seq::empty(),
    }
}

/// What is told of the elements: the reasons, if there are any. Without them the elements start
/// at the other place and there is none; what stands at the measured place is then told too.
pub open spec fn elements_text(header: Seq<u8>, index: u64, why: Seq<Seq<char>>) -> Seq<char> {
    if why.len() > 0 {
        joined(why)
    } else {
        match element(header, index as int, ELEMENTS_AT as int) {
            Some(ptr) => if ptr == 0 {
                "两个候选元素起点都没取到非空指针。"@
            } else {
                "元素起点按 +"@ + hex_text(ELEMENTS_OR_AT as nat) + " 算，没取到非空指针；+"@ + hex_text(
                    ELEMENTS_AT as nat,
                ) + " 起算的是 0x"@ + hex_text(ptr as nat) + "，没有采用。"@
            },
            None => "两个候选元素起点都没取到非空指针。"@,
        }
    }
}

/// The array did not give the player: the message tells all that was seen.
pub open spec fn unknown_flow(
    t: Talk,
    base: u64,
    index: u64,
    vtable: u64,
    seen: Seq<char>,
) -> Flow<u64> {
    match dump_flow(t, base) {
        (Err(h), t2) => (Err(h), t2),
        (Ok(dump), t2) => (
            Err(
                Halt::Fail(
                    "没能从 players 数组里认出玩家 "@ + dec_text(index as nat)
                        + "（期望的 Player vtable = 0x"@ + hex_text(vtable as nat)
                        + "）。\n对象头："@ + dump + "\n"@ + seen,
                ),
            ),
            t2,
        ),
    }
}

/// The hint that the array is not laid out as expected.
pub open spec fn layout_note() -> Ask {
    Ask::Note {
        text: "提示：players 元素起点是 +"@ + hex_text(ELEMENTS_OR_AT as nat) + "，不是预期的 +"@
            + hex_text(ELEMENTS_AT as nat),
    }
}

/// Takes the `index`-th element of the array, if it is a player.
pub open spec fn element_flow(
    t: Talk,
    header: Seq<u8>,
    base: u64,
    index: u64,
    vtable: u64,
    lives_offset: i32,
) -> Flow<u64> {
    match place_flow(t, header, vtable) {
        (Err(h), t2) => (Err(h), t2),
        (Ok((place, a)), t2) => match probe_flow(t2, header, index, place, vtable, lives_offset) {
            (Err(h), t3) => (Err(h), t3),
            (Ok(Err(b)), t3) => unknown_flow(
                t3,
                base,
                index,
                vtable,
                elements_text(header, index, reasons(b, a)),
            ),
            (Ok(Ok(ptr)), t3) => if place == ELEMENTS_AT {
                (Ok(ptr), t3)
            } else {
                match ask_flow(t3, layout_note()) {
                    (Err(h), t4) => (Err(h), t4),
                    (Ok(_), t4) => (Ok(ptr), t4),
                }
            },
        },
    }
}

/// Finds a player's object in the array of players, and makes sure that it is a `Player`.
pub open spec fn locate_flow(
    t: Talk,
    array: u64,
    player: i32,
    vtable: u64,
    lives_offset: i32,
) -> Flow<u64> {
    let index = extended(player);
    match read_flow(t, array, ARRAY_HEADER_LEN) {
        (Err(h), t2) => (Err(h), t2),
        (Ok(None), t2) => (
            Err(
                Halt::Fail(
                    "players 指向的 0x"@ + hex_text(array as nat)
                        + " 读不到，多半不是有效对象（字段偏移算错了？）"@,
                ),
            ),
            t2,
        ),
        (Ok(Some(header)), t2) => match length_flow(t2, array) {
            (Err(h), t3) => (Err(h), t3),
            (Ok(length), t3) => if length matches Some(n) && index >= n {
                (
                    Err(
                        Halt::Fail(
                            "players 里只有 "@ + dec_text(length->0 as nat) + " 个玩家，没有第 "@
                                + dec_text(index as nat) + " 号"@,
                        ),
                    ),
                    t3,
                )
            } else {
                element_flow(t3, header, array, index, vtable, lives_offset)
            },
        },
    }
}

/// `extended`, executable.
fn extend(v: i32) -> (r: u64)
    ensures
        r == extended(v),
{
    if v >= 0 {
        v as u64
    } else {
        u64::MAX - ((-(v as i64)) as u64 - 1)
    }
}

/// Adds to an address.
fn offset(a: u64, b: u64) -> (r: Result<u64, Stop>)
    ensures
        forall|t: Talk| follows(r, #[trigger] offset_flow(t, a, b).0),
{
    if b > u64::MAX - a {
        Err(Stop::Overflow(Overflow::Add))
    } else {
        Ok(a + b)
    }
}

/// Checks that a pointer leads to an object of the class `Player`.
fn check_class(talk: &mut Transcript, ptr: u64, vtable: u64) -> (r: Result<
    Result<(), String>,
    Stop,
>)
    requires
        old(talk).wf(),
    ensures
        final(talk).wf(),
        final(talk)@ == class_flow(old(talk)@, ptr, vtable).1,
        match (r, class_flow(old(talk)@, ptr, vtable).0) {
            (Ok(Ok(())), Ok(Ok(()))) => true,
            (Ok(Err(m)), Ok(Err(w))) => m@ == w,
            (Err(x), Err(y)) => x@ == y,
            _ => false,
        },
{
    let vt: Option<u64> = talk.read_u64(ptr)?;
    let good: bool = match vt {
        Some(v) => v == vtable,
        None => false,
    };
    if good {
        Ok(Ok(()))
    } else {
        Ok(
            Err(
                "0x".to_owned().concat(hex(ptr).as_str()).concat(" 的 vtable 是 ").concat(
                    maybe_u64(vt).as_str(),
                ).concat("，不是 Player"),
            ),
        )
    }
}

/// Checks that a pointer leads to a player.
fn check_player(talk: &mut Transcript, ptr: u64, vtable: u64, lives_offset: i32) -> (r: Result<
    Result<(), String>,
    Stop,
>)
    requires
        old(talk).wf(),
    ensures
        final(talk).wf(),
        final(talk)@ == check_flow(old(talk)@, ptr, vtable, lives_offset).1,
        match (r, check_flow(old(talk)@, ptr, vtable, lives_offset).0) {
            (Ok(Ok(())), Ok(Ok(()))) => true,
            (Ok(Err(m)), Ok(Err(w))) => m@ == w,
            (Err(x), Err(y)) => x@ == y,
            _ => false,
        },
{
    if let Err(why) = check_class(talk, ptr, vtable)? {
        return Ok(Err(why));
    }
    let ghost mid = talk@;
    let addr: u64 = match offset(ptr, extend(lives_offset)) {
        Ok(a) => a,
        Err(stop) => {
            assert(follows::<u64>(Err(stop), offset_flow(mid, ptr, extended(lives_offset)).0));
            return Err(stop);
        },
    };
    assert(follows::<u64>(Ok(addr), offset_flow(mid, ptr, extended(lives_offset)).0));
    match talk.read_i32(addr)? {
        None => Ok(
            Err("0x".to_owned().concat(hex(ptr).as_str()).concat(" 是 Player，但读不到生命值")),
        ),
        Some(v) => if 0 <= v && v < 10_000 {
            Ok(Ok(()))
        } else {
            Ok(
                Err(
                    "0x".to_owned().concat(hex(ptr).as_str()).concat(" 是 Player，但生命值 ").concat(
                        dec_i32(v).as_str(),
                    ).concat(" 不像话"),
                ),
            )
        },
    }
}

/// Looks at one element.
fn probe(
    talk: &mut Transcript,
    header: &Vec<u8>,
    index: u64,
    elem_off: usize,
    vtable: u64,
    lives_offset: i32,
) -> (r: Result<Result<u64, Option<String>>, Stop>)
    requires
        old(talk).wf(),
        elem_off <= 0x100,
    ensures
        final(talk).wf(),
        final(talk)@ == probe_flow(old(talk)@, header@, index, elem_off, vtable, lives_offset).1,
        match (r, probe_flow(old(talk)@, header@, index, elem_off, vtable, lives_offset).0) {
            (Ok(Ok(p)), Ok(Ok(q))) => p == q,
            (Ok(Err(Some(m))), Ok(Err(Some(w)))) => m@ == w,
            (Ok(Err(None)), Ok(Err(None))) => true,
            (Err(x), Err(y)) => x@ == y,
            _ => false,
        },
{
    if index > u64::MAX / 8 {
        return Err(Stop::Overflow(Overflow::Multiply));
    }
    if index * 8 > u64::MAX - 8 - elem_off as u64 {
        return Err(Stop::Overflow(Overflow::Add));
    }
    let ptr: u64 = match element_at(header.as_slice(), index, elem_off) {
        Some(ptr) => ptr,
        None => return Ok(Err(None)),
    };
    if ptr == 0 {
        return Ok(Err(None));
    }
    match check_player(talk, ptr, vtable, lives_offset)? {
        Ok(()) => Ok(Ok(ptr)),
        Err(why) => Ok(Err(Some(why))),
    }
}

/// Decides where the elements of the array start.
fn find_place(talk: &mut Transcript, header: &Vec<u8>, vtable: u64) -> (r: Result<
    (usize, Option<String>),
    Stop,
>)
    requires
        old(talk).wf(),
    ensures
        final(talk).wf(),
        final(talk)@ == place_flow(old(talk)@, header@, vtable).1,
        match (r, place_flow(old(talk)@, header@, vtable).0) {
            (Ok((p, m)), Ok((q, w))) => p == q && text_of(m) == w && (p == ELEMENTS_AT || p
                == ELEMENTS_OR_AT),
            (Err(x), Err(y)) => x@ == y,
            _ => false,
        },
{
    let ptr: u64 = match element_at(header.as_slice(), 0, ELEMENTS_OR_AT) {
        Some(ptr) => ptr,
        None => return Ok((ELEMENTS_OR_AT, None)),
    };
    if ptr == 0 {
        return Ok((ELEMENTS_OR_AT, None));
    }
    match check_class(talk, ptr, vtable)? {
        Ok(()) => Ok((ELEMENTS_OR_AT, None)),
        Err(why) => Ok((ELEMENTS_AT, Some(why))),
    }
}

/// Reads the length of the array.
fn read_length(talk: &mut Transcript, base: u64) -> (r: Result<Option<u64>, Stop>)
    requires
        old(talk).wf(),
    ensures
        final(talk).wf(),
        final(talk)@ == length_flow(old(talk)@, base).1,
        follows(r, length_flow(old(talk)@, base).0),
{
    let ghost before = talk@;
    let first: u64 = match offset(base, LENGTH_AT) {
        Ok(a) => a,
        Err(stop) => {
            assert(follows::<u64>(Err(stop), offset_flow(before, base, LENGTH_AT).0));
            return Err(stop);
        },
    };
    assert(follows::<u64>(Ok(first), offset_flow(before, base, LENGTH_AT).0));
    let a: Option<u64> = talk.read_u64(first)?;
    if let Some(n) = pick_length(&[a]) {
        return Ok(Some(n));
    }
    let b: Option<u64> = talk.read_u64(base + LENGTH_OR_AT)?;
    Ok(pick_length(&[b]))
}

/// `qwords_text`, executable.
fn show_qwords(d: &[u8], n: usize) -> (r: String)
    requires
        n <= 8,
        8 * n <= d@.len(),
    ensures
        r@ == qwords_text(d@, n as int),
    decreases n,
{
    if n == 0 {
        proof {
            reveal_strlit("");
        }
        return "".to_owned();
    }
    let at: usize = 8 * (n - 1);
    let word: String = "+".to_owned().concat(hex_fixed(at as u64, 2).as_str()).concat("=").concat(
        hex_fixed(u64_from_le(d, at), 16).as_str(),
    );
    if n == 1 {
        word
    } else {
        show_qwords(d, n - 1).concat(" ").concat(word.as_str())
    }
}

/// Shows the eight words at an address.
fn dump_qwords(talk: &mut Transcript, addr: u64) -> (r: Result<String, Stop>)
    requires
        old(talk).wf(),
    ensures
        final(talk).wf(),
        final(talk)@ == dump_flow(old(talk)@, addr).1,
        match (r, dump_flow(old(talk)@, addr).0) {
            (Ok(m), Ok(w)) => m@ == w,
            (Err(x), Err(y)) => x@ == y,
            _ => false,
        },
{
    match talk.read(addr, ARRAY_HEADER_LEN)? {
        None => Ok("0x".to_owned().concat(hex(addr).as_str()).concat(" 起 8 个 qword 读不到")),
        Some(d) => Ok(show_qwords(d.as_slice(), 8)),
    }
}

/// `elements_text`, executable.
fn show_elements(header: &[u8], index: u64, why: &Vec<String>) -> (r: String)
    requires
        header@.len() == ARRAY_HEADER_LEN,
    ensures
        r@ == elements_text(header@, index, texts(why@)),
{
    if why.len() > 0 {
        return join_lines(why);
    }
    let measured: Option<u64> = if index < 8 {
        element_at(header, index, ELEMENTS_AT)
    } else {
        None
    };
    if let Some(ptr) = measured {
        if ptr != 0 {
            return "元素起点按 +".to_owned().concat(hex(ELEMENTS_OR_AT as u64).as_str()).concat(
                " 算，没取到非空指针；+",
            ).concat(hex(ELEMENTS_AT as u64).as_str()).concat(" 起算的是 0x").concat(
                hex(ptr).as_str(),
            ).concat("，没有采用。");
        }
    }
    "两个候选元素起点都没取到非空指针。".to_owned()
}

/// Fails with all that was seen.
fn unknown_player(talk: &mut Transcript, base: u64, index: u64, vtable: u64, seen: &str) -> (r:
    Result<u64, Stop>)
    requires
        old(talk).wf(),
    ensures
        final(talk).wf(),
        final(talk)@ == unknown_flow(old(talk)@, base, index, vtable, seen@).1,
        follows(r, unknown_flow(old(talk)@, base, index, vtable, seen@).0),
{
    let dump: String = dump_qwords(talk, base)?;
    Err(
        Stop::Fail(
            "没能从 players 数组里认出玩家 ".to_owned().concat(dec(index).as_str()).concat(
                "（期望的 Player vtable = 0x",
            ).concat(hex(vtable).as_str()).concat("）。\n对象头：").concat(dump.as_str()).concat(
                "\n",
            ).concat(seen),
        ),
    )
}

/// Takes the `index`-th element of the array, if it is a player.
fn find_element(
    talk: &mut Transcript,
    header: &Vec<u8>,
    base: u64,
    index: u64,
    vtable: u64,
    lives_offset: i32,
) -> (r: Result<u64, Stop>)
    requires
        old(talk).wf(),
        header@.len() == ARRAY_HEADER_LEN,
    ensures
        final(talk).wf(),
        final(talk)@ == element_flow(old(talk)@, header@, base, index, vtable, lives_offset).1,
        follows(r, element_flow(old(talk)@, header@, base, index, vtable, lives_offset).0),
{
    let (place, other): (usize, Option<String>) = find_place(talk, header, vtable)?;
    let own: Option<String> = match probe(talk, header, index, place, vtable, lives_offset)? {
        Ok(ptr) => {
            if place != ELEMENTS_AT {
                // the layout is not the expected one: worth a trace
                talk.ask(
                    Request::Note {
                        text: "提示：players 元素起点是 +".to_owned().concat(
                            hex(ELEMENTS_OR_AT as u64).as_str(),
                        ).concat("，不是预期的 +").concat(hex(ELEMENTS_AT as u64).as_str()),
                    },
                )?;
            }
            return Ok(ptr);
        },
        Err(why) => why,
    };
    let ghost both = reasons(text_of(own), text_of(other));
    let mut why: Vec<String> = Vec::new();
    if let Some(m) = own {
        why.push(m);
    }
    if let Some(m) = other {
        why.push(m);
    }
    assert(texts(why@) =~= both);
    let seen: String = show_elements(header.as_slice(), index, &why);
    unknown_player(talk, base, index, vtable, seen.as_str())
}

/// Finds a player's object in the array of players, and makes sure that it is a `Player`.
///
/// All of it is reading: what cannot be read is reported, and nothing crashes.
fn locate_player(
    talk: &mut Transcript,
    array: u64,
    player: i32,
    vtable: u64,
    lives_offset: i32,
) -> (r: Result<u64, Stop>)
    requires
        old(talk).wf(),
    ensures
        final(talk).wf(),
        final(talk)@ == locate_flow(old(talk)@, array, player, vtable, lives_offset).1,
        follows(r, locate_flow(old(talk)@, array, player, vtable, lives_offset).0),
{
    let index: u64 = extend(player);
    let header: &Vec<u8> = match talk.read(array, ARRAY_HEADER_LEN)? {
        Some(d) => d,
        None => return Err(
            Stop::Fail(
                "players 指向的 0x".to_owned().concat(hex(array).as_str()).concat(
                    " 读不到，多半不是有效对象（字段偏移算错了？）",
                ),
            ),
        ),
    };
    if let Some(n) = read_length(talk, array)? {
        if index >= n {
            return Err(
                Stop::Fail(
                    "players 里只有 ".to_owned().concat(dec(n).as_str()).concat(
                        " 个玩家，没有第 ",
                    ).concat(dec(index).as_str()).concat(" 号"),
                ),
            );
        }
    }
    find_element(talk, header, array, index, vtable, lives_offset)
}

// ---------------------------------------------------------------------------
// Locating the lives
// ---------------------------------------------------------------------------
/// Reports a step.
pub open spec fn step(t: Talk, text: Seq<char>) -> Talk {
    Talk { steps: t.steps.push(text), ..t }
}

/// The answers of mono about a class, as they are shown.
pub open spec fn layout_text(l: FieldLayout) -> Seq<char> {
    "klass=0x"@ + hex_text(l.klass as nat) + " vtable=0x"@ + hex_text(l.vtable as nat)
        + " static=0x"@ + hex_text(l.static_data as nat)
}

/// Looks up `class.field`; an answer that is not complete is a failure.
pub open spec fn complete_flow(
    t: Talk,
    fns: MonoFunctions,
    class: Seq<char>,
    field: Seq<char>,
) -> Flow<FieldLayout> {
    match resolve_flow(t, fns, class, field) {
        (Err(h), t2) => (Err(h), t2),
        (Ok(l), t2) => if l.complete() {
            (Ok(l), t2)
        } else {
            (
                Err(
                    Halt::Fail(
                        "没能定位 "@ + class + "."@ + field + "："@ + layout_text(l),
                    ),
                ),
                t2,
            )
        },
    }
}

/// Where the static field `HeroController.players` lies.
pub open spec fn players_flow(t: Talk, fns: MonoFunctions) -> Flow<u64> {
    match complete_flow(t, fns, "HeroController"@, "players"@) {
        (Err(h), t2) => (Err(h), t2),
        (Ok(l), t2) => {
            let t3 = step(t2, "HeroController："@ + layout_text(l));
            match offset_flow(t3, l.static_data, word32(l.offset) as u64) {
                (Err(h), t4) => (Err(h), t4),
                (Ok(addr), t4) => (
                    Ok(addr),
                    step(
                        t4,
                        "HeroController.players 字段偏移 "@ + int_text(l.offset as int)
                            + " → 字段地址 0x"@ + hex_text(addr as nat),
                    ),
                ),
            }
        },
    }
}

/// The vtable of `Player` and the offset of its `lives`.
pub open spec fn player_flow(t: Talk, fns: MonoFunctions) -> Flow<FieldLayout> {
    match complete_flow(t, fns, "Player"@, "lives"@) {
        (Err(h), t2) => (Err(h), t2),
        (Ok(l), t2) => (
            Ok(l),
            step(
                t2,
                "Player：klass=0x"@ + hex_text(l.klass as nat) + " vtable=0x"@ + hex_text(
                    l.vtable as nat,
                ) + "，lives 偏移 "@ + int_text(l.offset as int),
            ),
        ),
    }
}

/// The array of players, out of its static field.
pub open spec fn array_flow(t: Talk, field_addr: u64) -> Flow<u64> {
    match read_u64_flow(t, field_addr) {
        (Err(h), t2) => (Err(h), t2),
        (Ok(None), t2) => (
            Err(
                Halt::Fail(
                    "读不到 HeroController.players 字段的内容（地址 0x"@ + hex_text(field_addr as nat)
                        + " 不可读）"@,
                ),
            ),
            t2,
        ),
        (Ok(Some(v)), t2) => if v == 0 {
            (Err(Halt::Fail("players 是 null —— 多半是还没进入关卡，玩家数组尚未建立。"@)), t2)
        } else {
            (Ok(v), step(t2, "players 数组对象 @ 0x"@ + hex_text(v as nat)))
        },
    }
}

/// The player's object; a failure names the addresses on the way.
pub open spec fn object_flow(
    t: Talk,
    field_addr: u64,
    array: u64,
    player: i32,
    lives: FieldLayout,
) -> Flow<u64> {
    match locate_flow(t, array, player, lives.vtable, lives.offset) {
        (Err(Halt::Fail(e)), t2) => (
            Err(
                Halt::Fail(
                    e + "\n（诊断：字段地址 0x"@ + hex_text(field_addr as nat) + "，数组对象 0x"@
                        + hex_text(array as nat) + "）"@,
                ),
            ),
            t2,
        ),
        (Err(h), t2) => (Err(h), t2),
        (Ok(object), t2) => (
            Ok(object),
            step(
                t2,
                "玩家 "@ + int_text(player as int) + " 的对象 @ 0x"@ + hex_text(object as nat)
                    + "（已按 vtable 校验确实是 Player）"@,
            ),
        ),
    }
}

/// Where the lives of a player lie, once mono has told all.
pub open spec fn counter_flow(
    t: Talk,
    field_addr: u64,
    player: i32,
    lives: FieldLayout,
) -> Flow<u64> {
    match array_flow(t, field_addr) {
        (Err(h), t2) => (Err(h), t2),
        (Ok(array), t2) => match object_flow(t2, field_addr, array, player, lives) {
            (Err(h), t3) => (Err(h), t3),
            (Ok(object), t3) => offset_flow(t3, object, extended(lives.offset)),
        },
    }
}

/// Where the lives of a player lie.
pub open spec fn lives_flow(t: Talk, fns: MonoFunctions, player: i32) -> Flow<u64> {
    match players_flow(t, fns) {
        (Err(h), t2) => (Err(h), t2),
        (Ok(field_addr), t2) => match player_flow(t2, fns) {
            (Err(h), t3) => (Err(h), t3),
            (Ok(lives), t3) => counter_flow(t3, field_addr, player, lives),
        },
    }
}

/// `layout_text`, executable.
fn show_layout(l: &FieldLayout) -> (r: String)
    ensures
        r@ == layout_text(*l),
{
    "klass=0x".to_owned().concat(hex(l.klass).as_str()).concat(" vtable=0x").concat(
        hex(l.vtable).as_str(),
    ).concat(" static=0x").concat(hex(l.static_data).as_str())
}

/// Looks up `class.field` completely.
fn resolve_complete(talk: &mut Transcript, fns: &MonoFunctions, class: &str, field: &str) -> (r:
    Result<FieldLayout, Stop>)
    requires
        old(talk).wf(),
    ensures
        final(talk).wf(),
        final(talk)@ == complete_flow(old(talk)@, *fns, class@, field@).1,
        follows(r, complete_flow(old(talk)@, *fns, class@, field@).0),
{
    let l: FieldLayout = resolve(talk, fns, class, field)?;
    if !l.is_complete() {
        return Err(
            Stop::Fail(
                "没能定位 ".to_owned().concat(class).concat(".").concat(field).concat("：").concat(
                    show_layout(&l).as_str(),
                ),
            ),
        );
    }
    Ok(l)
}

/// Finds the static field `HeroController.players`.
fn find_players(talk: &mut Transcript, fns: &MonoFunctions) -> (r: Result<u64, Stop>)
    requires
        old(talk).wf(),
    ensures
        final(talk).wf(),
        final(talk)@ == players_flow(old(talk)@, *fns).1,
        follows(r, players_flow(old(talk)@, *fns).0),
{
    let l: FieldLayout = resolve_complete(talk, fns, "HeroController", "players")?;
    talk.step("HeroController：".to_owned().concat(show_layout(&l).as_str()));
    if to_word32(l.offset) as u64 > u64::MAX - l.static_data {
        return Err(Stop::Overflow(Overflow::Add));
    }
    let addr: u64 = l.static_field_addr();
    talk.step(
        "HeroController.players 字段偏移 ".to_owned().concat(dec_i32(l.offset).as_str()).concat(
            " → 字段地址 0x",
        ).concat(hex(addr).as_str()),
    );
    Ok(addr)
}

/// Finds the vtable of `Player` and the offset of its `lives`.
fn find_player_class(talk: &mut Transcript, fns: &MonoFunctions) -> (r: Result<FieldLayout, Stop>)
    requires
        old(talk).wf(),
    ensures
        final(talk).wf(),
        final(talk)@ == player_flow(old(talk)@, *fns).1,
        follows(r, player_flow(old(talk)@, *fns).0),
{
    let l: FieldLayout = resolve_complete(talk, fns, "Player", "lives")?;
    talk.step(
        "Player：klass=0x".to_owned().concat(hex(l.klass).as_str()).concat(" vtable=0x").concat(
            hex(l.vtable).as_str(),
        ).concat("，lives 偏移 ").concat(dec_i32(l.offset).as_str()),
    );
    Ok(l)
}

/// Reads the array of players out of its static field.
fn read_array(talk: &mut Transcript, field_addr: u64) -> (r: Result<u64, Stop>)
    requires
        old(talk).wf(),
    ensures
        final(talk).wf(),
        final(talk)@ == array_flow(old(talk)@, field_addr).1,
        follows(r, array_flow(old(talk)@, field_addr).0),
{
    match talk.read_u64(field_addr)? {
        None => Err(
            Stop::Fail(
                "读不到 HeroController.players 字段的内容（地址 0x".to_owned().concat(
                    hex(field_addr).as_str(),
                ).concat(" 不可读）"),
            ),
        ),
        Some(v) => {
            if v == 0 {
                return Err(
                    Stop::Fail(
                        "players 是 null —— 多半是还没进入关卡，玩家数组尚未建立。".to_owned(),
                    ),
                );
            }
            talk.step("players 数组对象 @ 0x".to_owned().concat(hex(v).as_str()));
            Ok(v)
        },
    }
}

/// Finds the player's object.
fn find_object(
    talk: &mut Transcript,
    field_addr: u64,
    array: u64,
    player: i32,
    lives: &FieldLayout,
) -> (r: Result<u64, Stop>)
    requires
        old(talk).wf(),
    ensures
        final(talk).wf(),
        final(talk)@ == object_flow(old(talk)@, field_addr, array, player, *lives).1,
        follows(r, object_flow(old(talk)@, field_addr, array, player, *lives).0),
{
    match locate_player(talk, array, player, lives.vtable, lives.offset) {
        Err(Stop::Fail(e)) => Err(
            Stop::Fail(
                e.concat("\n（诊断：字段地址 0x").concat(hex(field_addr).as_str()).concat(
                    "，数组对象 0x",
                ).concat(hex(array).as_str()).concat("）"),
            ),
        ),
        Err(stop) => Err(stop),
        Ok(object) => {
            talk.step(
                "玩家 ".to_owned().concat(dec_i32(player).as_str()).concat(" 的对象 @ 0x").concat(
                    hex(object).as_str(),
                ).concat("（已按 vtable 校验确实是 Player）"),
            );
            Ok(object)
        },
    }
}

/// Finds where the lives of a player lie, once mono has told all.
fn find_counter(talk: &mut Transcript, field_addr: u64, player: i32, lives: &FieldLayout) -> (r:
    Result<u64, Stop>)
    requires
        old(talk).wf(),
    ensures
        final(talk).wf(),
        final(talk)@ == counter_flow(old(talk)@, field_addr, player, *lives).1,
        follows(r, counter_flow(old(talk)@, field_addr, player, *lives).0),
{
    let array: u64 = read_array(talk, field_addr)?;
    let object: u64 = find_object(talk, field_addr, array, player, lives)?;
    let ghost mid = talk@;
    let r = offset(object, extend(lives.offset));
    assert(follows(r, offset_flow(mid, object, extended(lives.offset)).0));
    r
}

/// Finds where the lives of a player lie.
fn resolve_lives_address(talk: &mut Transcript, fns: &MonoFunctions, player: i32) -> (r: Result<
    u64,
    Stop,
>)
    requires
        old(talk).wf(),
    ensures
        final(talk).wf(),
        final(talk)@ == lives_flow(old(talk)@, *fns, player).1,
        follows(r, lives_flow(old(talk)@, *fns, player).0),
{
    let field_addr: u64 = find_players(talk, fns)?;
    let lives: FieldLayout = find_player_class(talk, fns)?;
    find_counter(talk, field_addr, player, &lives)
}

// ---------------------------------------------------------------------------
// Setting the lives
// ---------------------------------------------------------------------------
/// A signed number as it is shown, if there is one.
pub open spec fn maybe_lives_text(v: Option<i32>) -> Seq<char> {
    maybe_text(
        match v {
            Some(n) => Some(n as int),
            None => None,
        },
    )
}

/// Writes the lives and reads them back.
pub open spec fn store_flow(t: Talk, addr: u64, lives: i32) -> Flow<u64> {
    match read_i32_flow(t, addr) {
        (Err(h), t2) => (Err(h), t2),
        (Ok(before), t2) => match write_flow(t2, addr, le_digits(word32(lives) as nat, 4)) {
            (Err(h), t3) => (Err(h), t3),
            (Ok(Err(code)), t3) => (
                Err(
                    Halt::Fail(
                        "写入 0x"@ + hex_text(addr as nat) + " 失败（"@ + error_text(code) + "）"@,
                    ),
                ),
                t3,
            ),
            (Ok(Ok(())), t3) => match read_i32_flow(t3, addr) {
                (Err(h), t4) => (Err(h), t4),
                (Ok(after), t4) => {
                    let t5 = step(
                        t4,
                        "0x"@ + hex_text(addr as nat) + "："@ + maybe_lives_text(before) + " → "@
                            + maybe_lives_text(after),
                    );
                    if after == Some(lives) {
                        (Ok(addr), t5)
                    } else {
                        (
                            Err(
                                Halt::Fail(
                                    "写完读回来是 "@ + maybe_lives_text(after) + "，不是 "@
                                        + int_text(lives as int),
                                ),
                            ),
                            t5,
                        )
                    }
                },
            },
        },
    }
}

/// Locates the lives of a player and sets them.
pub open spec fn set_flow(t: Talk, fns: MonoFunctions, player: i32, lives: i32) -> Flow<u64> {
    match lives_flow(t, fns, player) {
        (Err(h), t2) => (Err(h), t2),
        (Ok(addr), t2) => store_flow(t2, addr, lives),
    }
}

/// Writes the lives and reads them back.
fn store_lives(talk: &mut Transcript, addr: u64, lives: i32) -> (r: Result<u64, Stop>)
    requires
        old(talk).wf(),
    ensures
        final(talk).wf(),
        final(talk)@ == store_flow(old(talk)@, addr, lives).1,
        follows(r, store_flow(old(talk)@, addr, lives).0),
{
    let before: Option<i32> = talk.read_i32(addr)?;
    if let Err(code) = talk.write(addr, u32_to_le(to_word32(lives)))? {
        return Err(
            Stop::Fail(
                "写入 0x".to_owned().concat(hex(addr).as_str()).concat(" 失败（").concat(
                    last_error(code).as_str(),
                ).concat("）"),
            ),
        );
    }
    let after: Option<i32> = talk.read_i32(addr)?;
    talk.step(
        "0x".to_owned().concat(hex(addr).as_str()).concat("：").concat(
            maybe_i32(before).as_str(),
        ).concat(" → ").concat(maybe_i32(after).as_str()),
    );
    let stored: bool = match after {
        Some(v) => v == lives,
        None => false,
    };
    if stored {
        Ok(addr)
    } else {
        Err(
            Stop::Fail(
                "写完读回来是 ".to_owned().concat(maybe_i32(after).as_str()).concat(
                    "，不是 ",
                ).concat(dec_i32(lives).as_str()),
            ),
        )
    }
}

/// Locates the lives of a player and sets them.
fn write_lives(talk: &mut Transcript, fns: &MonoFunctions, player: i32, lives: i32) -> (r: Result<
    u64,
    Stop,
>)
    requires
        old(talk).wf(),
    ensures
        final(talk).wf(),
        final(talk)@ == set_flow(old(talk)@, *fns, player, lives).1,
        follows(r, set_flow(old(talk)@, *fns, player, lives).0),
{
    let addr: u64 = resolve_lives_address(talk, fns, player)?;
    store_lives(talk, addr, lives)
}

/// What an operation came to. The steps are there in any case: those of a failure often
/// tell more than those of a success.
pub struct Report {
    pub steps: Steps,
    pub error: Option<String>,
    /// Where the lives were written, on success.
    pub addr: Option<u64>,
}

/// A process with its mono runtime, ready to be worked on.
pub struct Trainer {
    fns: MonoFunctions,
    mono_path: String,
}

impl Trainer {
    /// The functions of mono.
    pub closed spec fn functions(&self) -> MonoFunctions {
        self.fns
    }

    /// The path of mono.dll.
    pub closed spec fn path(&self) -> Seq<char> {
        self.mono_path@
    }

    /// Takes up the mono runtime of a process: its functions in use have to be exported, or
    /// the first missing one is the error.
    pub fn attach(api: MonoApi) -> (r: Result<Self, String>)
        requires
            all_fit(api),
        ensures
            match r {
                Ok(t) => {
                    &&& has_first(api, 9)
                    &&& forall|i: int|
                        0 <= i < 9 ==> t.functions().field(i) == api.base + api.rvas()[#[trigger]
                        mono_name(i)]
                    &&& t.path() == api.dll_path@
                    &&& t.functions().stand_for(api)
                },
                Err(m) => exists|i: int|
                    0 <= i < 9 && has_first(api, i) && !api.rvas().contains_key(
                        #[trigger] mono_name(i),
                    ) && m@ == missing_text(mono_name(i)),
            },
    {
        let fns: MonoFunctions = MonoFunctions::resolve(&api)?;
        Ok(Trainer { fns, mono_path: api.dll_path })
    }

    /// Tells whether the process still runs, from whether its exit code could be fetched and
    /// what it is.
    pub fn is_alive(&self, fetched: bool, exit_code: u32) -> (r: bool)
        ensures
            r == (fetched && exit_code == STILL_ACTIVE),
    {
        is_alive(fetched, exit_code)
    }

    /// The path of mono.dll, for the diagnostics.
    pub fn mono_path(&self) -> (r: &str)
        ensures
            r@ == self.path(),
    {
        self.mono_path.as_str()
    }

    /// Finds where the lives of a player lie. Nothing of the game is written.
    pub fn find_lives_address(&self, player: i32, log: &Vec<Reply>) -> (r: Progress<
        Result<(u64, Steps), (String, Steps)>,
    >)
        ensures
            match (r, lives_flow(opening(answers(log@)), self.functions(), player)) {
                (Progress::Done(Ok((addr, steps))), (Ok(a), t)) => addr == a && texts(steps@)
                    == t.steps,
                (Progress::Done(Err((e, steps))), (Err(Halt::Fail(m)), t)) => e@ == m && texts(
                    steps@,
                ) == t.steps,
                (Progress::Ask(q), (Err(Halt::Ask(a)), _)) => q@ == a,
                (Progress::Overflow(o), (Err(Halt::Overflow(p)), _)) => o == p,
                _ => false,
            },
    {
        let mut talk: Transcript = Transcript::new(log);
        match resolve_lives_address(&mut talk, &self.fns, player) {
            Ok(addr) => Progress::Done(Ok((addr, talk.into_steps()))),
            Err(Stop::Fail(e)) => Progress::Done(Err((e, talk.into_steps()))),
            Err(Stop::Ask(q)) => Progress::Ask(q),
            Err(Stop::Overflow(o)) => Progress::Overflow(o),
        }
    }

    /// Reads a signed number, for showing the lives as they are.
    pub fn peek_i32(&self, addr: u64, log: &Vec<Reply>) -> (r: Progress<Option<i32>>)
        ensures
            match (r, read_i32_flow(opening(answers(log@)), addr).0) {
                (Progress::Done(v), Ok(w)) => v == w,
                (Progress::Ask(q), Err(Halt::Ask(a))) => q@ == a,
                _ => false,
            },
    {
        let mut talk: Transcript = Transcript::new(log);
        match talk.read_i32(addr) {
            Ok(v) => Progress::Done(v),
            Err(Stop::Ask(q)) => Progress::Ask(q),
            Err(Stop::Overflow(o)) => Progress::Overflow(o),
            Err(Stop::Fail(_)) => Progress::Done(None),
        }
    }

    /// Sets the lives of a player.
    pub fn set_lives(&self, player: i32, lives: i32, log: &Vec<Reply>) -> (r: Progress<Report>)
        ensures
            match (r, set_flow(opening(answers(log@)), self.functions(), player, lives)) {
                (Progress::Done(report), (Ok(addr), t)) => report.addr == Some(addr)
                    && report.error is None && texts(report.steps@) == t.steps,
                (Progress::Done(report), (Err(Halt::Fail(m)), t)) => report.addr is None && (
                report.error matches Some(e) && e@ == m) && texts(report.steps@) == t.steps,
                (Progress::Ask(q), (Err(Halt::Ask(a)), _)) => q@ == a,
                (Progress::Overflow(o), (Err(Halt::Overflow(p)), _)) => o == p,
                _ => false,
            },
    {
        let mut talk: Transcript = Transcript::new(log);
        match write_lives(&mut talk, &self.fns, player, lives) {
            Ok(addr) => Progress::Done(
                Report { steps: talk.into_steps(), error: None, addr: Some(addr) },
            ),
            Err(Stop::Fail(e)) => Progress::Done(
                Report { steps: talk.into_steps(), error: Some(e), addr: None },
            ),
            Err(Stop::Ask(q)) => Progress::Ask(q),
            Err(Stop::Overflow(o)) => Progress::Overflow(o),
        }
    }
}

} // verus!

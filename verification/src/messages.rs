//! What the messages tell, read back from their texts.

use crate::bytes::{
    law_decode_of_encode, law_values_of_bytes, le_digits, le_value, lemma_le_digits_len, pow256,
    signed32, word32,
};
use crate::inject::FieldLayout;
use crate::locating::{
    honest, law_lives_are_found_where_they_lie, lives_lie_at, qword, signed_dword, sound, wide,
};
use crate::mono::MonoFunctions;
use crate::protocol::{
    law_setting_succeeds_when_read_back, law_success_was_read_back, layout_at, Memory,
};
use crate::remote::{data_of, opening, read_i32_flow, Answer, Ask, Halt, Talk};
use crate::resuming::requests;
use crate::text::{
    dec_text, hex_fixed_text, hex_text, hex_value, int_text, integer_of_text, joined,
    law_fixed_hexadecimal_reads_back, law_hexadecimal_reads_back, law_shown_numbers_are_told,
    law_shown_numbers_read_back, locates, maybe_text, pow16, tells,
};
use crate::trainer::{
    check_flow, class_flow, dump_flow, element, element_flow, elements_text, extended, layout_note, lives_flow,
    locate_flow, object_flow, qwords_text, reasons, set_flow, store_flow, unknown_flow,
};
use vstd::prelude::*;

verus! {

// ---------------------------------------------------------------------------
// Setting the lives
// ---------------------------------------------------------------------------
/// The signed number that the answer to a read of four bytes gives.
pub open spec fn number_told(a: Answer) -> Option<int> {
    match a {
        Answer::Data(Some(d)) => if d.len() == 4 {
            Some(signed_dword(d))
        } else {
            None
        },
        _ => None,
    }
}

/// Whether the text shows a number that may be missing.
pub open spec fn shows(text: Seq<char>, v: Option<int>) -> bool {
    match v {
        Some(n) => tells(text, "Some("@, n, ")"@),
        None => text == "None"@,
    }
}

proof fn lemma_shows(v: Option<int>)
    ensures
        shows(maybe_text(v), v),
{
    if let Some(n) = v {
        law_shown_numbers_are_told("Some("@, n, ")"@);
    }
}

/// The four bytes that are written for a number are those that give the number back.
pub proof fn law_written_numbers_read_back(lives: i32)
    ensures
        le_digits(word32(lives) as nat, 4).len() == 4,
        signed_dword(le_digits(word32(lives) as nat, 4)) == lives,
{
    let d = le_digits(word32(lives) as nat, 4);
    lemma_le_digits_len(word32(lives) as nat, 4);
    reveal_with_fuel(pow256, 5);
    law_decode_of_encode(word32(lives) as nat, 4);
    law_values_of_bytes(d);
}

proof fn lemma_number_told(a: Answer)
    ensures
        number_told(a) == match data_of(a, 4) {
            Some(d) => Some(signed32(le_value(d) as u32) as int),
            None => None,
        },
{
    if let Answer::Data(Some(d)) = a {
        law_values_of_bytes(d);
    }
}

/// Setting the lives at an address reads them, writes the four bytes that give the new number,
/// and reads again: it succeeds exactly where the write does and the new number comes back. The
/// step tells what was there before and after, and the message of a failure what went wrong.
pub proof fn law_storing_is_read_write_read(t: Talk, addr: u64, lives: i32)
    requires
        t.asked.len() + 3 <= t.log.len(),
    ensures
        ({
            let f = store_flow(t, addr, lives);
            let n = t.asked.len() as int;
            let q = f.1.asked;
            let before = number_told(t.log[n]);
            let after = number_told(t.log[n + 2]);
            let stored = t.log[n + 1] matches Answer::Written(Ok(_));
            &&& q.len() >= n + 2
            &&& q[n] == (Ask::Read { addr, len: 4 })
            &&& q[n + 1] matches Ask::Write { addr: at, data } && at == addr && data.len() == 4
                && signed_dword(data) == lives
            &&& f.0 == Ok::<u64, Halt>(addr) <==> stored && after == Some(lives as int)
            &&& f.0 is Ok ==> f.0->Ok_0 == addr
            &&& !stored ==> q.len() == n + 2 && f.1.steps == t.steps && (f.0 matches Err(
                Halt::Fail(m),
            ) && exists|k: Seq<char>, c: Seq<char>|
                {
                    &&& #[trigger] hex_value(k) == Some(addr as nat)
                    &&& #[trigger] integer_of_text(c) == Some(
                        match t.log[n + 1] {
                            Answer::Written(Err(code)) => code as int,
                            _ => 0,
                        },
                    )
                    &&& m == "写入 0x"@ + k + " 失败（"@ + ("Win32 错误码 "@ + c) + "）"@
                })
            &&& stored ==> {
                &&& q.len() == n + 3
                &&& q[n + 2] == (Ask::Read { addr, len: 4 })
                &&& f.1.steps.len() == t.steps.len() + 1
                &&& f.1.steps.drop_last() == t.steps
                &&& exists|k: Seq<char>, b: Seq<char>, a: Seq<char>|
                    {
                        &&& #[trigger] hex_value(k) == Some(addr as nat)
                        &&& #[trigger] shows(b, before)
                        &&& #[trigger] shows(a, after)
                        &&& f.1.steps.last() == "0x"@ + k + "："@ + b + " → "@ + a
                    }
            }
            &&& stored && after != Some(lives as int) ==> (f.0 matches Err(Halt::Fail(m))
                && exists|a: Seq<char>, k: Seq<char>|
                {
                    &&& #[trigger] shows(a, after)
                    &&& #[trigger] integer_of_text(k) == Some(lives as int)
                    &&& m == "写完读回来是 "@ + a + "，不是 "@ + k
                })
        }),
{
    let n = t.asked.len() as int;
    let f = store_flow(t, addr, lives);
    lemma_number_told(t.log[n]);
    lemma_number_told(t.log[n + 2]);
    law_written_numbers_read_back(lives);
    law_hexadecimal_reads_back(addr as nat);
    let before = number_told(t.log[n]);
    let after = number_told(t.log[n + 2]);
    lemma_shows(before);
    lemma_shows(after);
    law_shown_numbers_read_back(lives as int);
    assert(hex_value(hex_text(addr as nat)) == Some(addr as nat));
    assert(shows(maybe_text(before), before));
    assert(shows(maybe_text(after), after));
    assert(integer_of_text(int_text(lives as int)) == Some(lives as int));
    let code: u32 = match t.log[n + 1] {
        Answer::Written(Err(code)) => code,
        _ => 0,
    };
    law_shown_numbers_read_back(code as int);
    assert(integer_of_text(int_text(code as int)) == Some(code as int));
    assert(int_text(code as int) == dec_text(code as nat));
    if t.log[n + 1] matches Answer::Written(Ok(_)) {
        assert(f.1.steps.drop_last() =~= t.steps);
    }
}

/// Setting the lives is locating them and storing at what was located; where locating does not
/// come to an end or fails, so does setting, in the same way and with the same steps.
pub proof fn law_setting_is_locating_and_storing(
    log: Seq<Answer>,
    fns: MonoFunctions,
    player: i32,
    lives: i32,
)
    ensures
        ({
            let f = set_flow(opening(log), fns, player, lives);
            let g = lives_flow(opening(log), fns, player);
            match g.0 {
                Ok(addr) => f == store_flow(g.1, addr, lives),
                Err(h) => f.0 == Err::<u64, Halt>(h) && f.1 == g.1,
            }
        }),
{
}

/// In a memory that holds still until the lives are written, what is set are the lives of the
/// player: they lie at the address that is reported, and the four bytes written there are those
/// of the number that was asked for.
pub proof fn law_what_is_set_are_the_lives(
    mem: Memory,
    log: Seq<Answer>,
    fns: MonoFunctions,
    player: i32,
    lives: i32,
    addr: u64,
)
    requires
        sound(mem),
        honest(mem, log, lives_flow(opening(log), fns, player).1.asked, 32),
        set_flow(opening(log), fns, player, lives).0 == Ok::<u64, Halt>(addr),
    ensures
        ({
            let q = set_flow(opening(log), fns, player, lives).1.asked;
            let hero = layout_at(log, 11);
            let l = layout_at(log, 27);
            &&& lives_lie_at(
                mem,
                hero.static_data + word32(hero.offset),
                player as int,
                l.vtable as int,
                l.offset as int,
                addr as int,
            )
            &&& q.len() >= 2
            &&& q[q.len() - 2] matches Ask::Write { addr: at, data } && at == addr && data.len()
                == 4 && signed_dword(data) == lives
        }),
{
    law_lives_are_found_where_they_lie(mem, log, fns, player);
    law_success_was_read_back(log, fns, player, lives, addr);
    law_setting_succeeds_when_read_back(log, fns, player, lives, addr);
    law_written_numbers_read_back(lives);
}

// ---------------------------------------------------------------------------
// Looking at the lives
// ---------------------------------------------------------------------------
/// Looking at the lives reads four bytes at the address and nothing else; what comes back is
/// their signed number, or none where they cannot be read.
pub proof fn law_peeking_reads_the_number(log: Seq<Answer>, addr: u64)
    ensures
        ({
            let f = read_i32_flow(opening(log), addr);
            &&& requests(f) == seq![Ask::Read { addr, len: 4 }]
            &&& log.len() == 0 ==> f.0 is Err
            &&& log.len() > 0 ==> match number_told(log[0]) {
                Some(v) => f.0 matches Ok(Some(w)) && w == v,
                None => f.0 matches Ok(None),
            }
        }),
{
    assert(requests(read_i32_flow(opening(log), addr)) =~= seq![Ask::Read { addr, len: 4 }]);
    if log.len() > 0 {
        lemma_number_told(log[0]);
    }
}

// ---------------------------------------------------------------------------
// Why an object is no player
// ---------------------------------------------------------------------------
/// The number in eight bytes, if they were read.
pub open spec fn word_told(a: Answer) -> Option<int> {
    match a {
        Answer::Data(Some(d)) => if d.len() == 8 {
            Some(qword(d, 0))
        } else {
            None
        },
        _ => None,
    }
}

proof fn lemma_word_told(a: Answer)
    ensures
        word_told(a) == match data_of(a, 8) {
            Some(d) => Some(le_value(d) as u64 as int),
            None => None,
        },
{
    if let Answer::Data(Some(d)) = a {
        law_values_of_bytes(d);
    }
}

/// An object is of the class exactly where its first eight bytes are the vtable; otherwise the
/// reason tells the object and what was there.
pub proof fn law_the_class_is_told_by_the_first_word(t: Talk, ptr: u64, vtable: u64)
    requires
        t.asked.len() < t.log.len(),
    ensures
        ({
            let f = class_flow(t, ptr, vtable);
            let there = word_told(t.log[t.asked.len() as int]);
            &&& f.1.asked == t.asked.push(Ask::Read { addr: ptr, len: 8 })
            &&& there == Some(vtable as int) ==> (f.0 matches Ok(Ok(())))
            &&& there != Some(vtable as int) ==> (f.0 matches Ok(Err(m)) && exists|
                k: Seq<char>,
                v: Seq<char>,
            |
                {
                    &&& #[trigger] hex_value(k) == Some(ptr as nat)
                    &&& #[trigger] shows(v, there)
                    &&& m == "0x"@ + k + " 的 vtable 是 "@ + v + "，不是 Player"@
                })
        }),
{
    let there = word_told(t.log[t.asked.len() as int]);
    lemma_word_told(t.log[t.asked.len() as int]);
    law_hexadecimal_reads_back(ptr as nat);
    lemma_shows(there);
    assert(hex_value(hex_text(ptr as nat)) == Some(ptr as nat));
    assert(shows(maybe_text(there), there));
}

/// An object of the class is a player exactly where it has from 0 to 9999 lives; otherwise the
/// reason tells the object, and its lives if they can be read.
pub proof fn law_a_player_has_believable_lives(t: Talk, ptr: u64, vtable: u64, offset: i32)
    requires
        t.asked.len() + 2 <= t.log.len(),
        word_told(t.log[t.asked.len() as int]) == Some(vtable as int),
        ptr + wide(offset as int) <= u64::MAX,
    ensures
        ({
            let f = check_flow(t, ptr, vtable, offset);
            let n = t.asked.len() as int;
            let lives = number_told(t.log[n + 1]);
            &&& f.1.asked == t.asked.push(Ask::Read { addr: ptr, len: 8 }).push(
                Ask::Read { addr: (ptr + wide(offset as int)) as u64, len: 4 },
            )
            &&& match lives {
                None => f.0 matches Ok(Err(m)) && locates(
                    m,
                    "0x"@,
                    ptr as nat,
                    " 是 Player，但读不到生命值"@,
                ),
                Some(v) => if 0 <= v < 10000 {
                    f.0 matches Ok(Ok(()))
                } else {
                    f.0 matches Ok(Err(m)) && exists|k: Seq<char>, w: Seq<char>|
                        {
                            &&& #[trigger] hex_value(k) == Some(ptr as nat)
                            &&& #[trigger] integer_of_text(w) == Some(v)
                            &&& m == "0x"@ + k + " 是 Player，但生命值 "@ + w + " 不像话"@
                        }
                },
            }
        }),
{
    let n = t.asked.len() as int;
    lemma_word_told(t.log[n]);
    lemma_number_told(t.log[n + 1]);
    law_hexadecimal_reads_back(ptr as nat);
    law_shown_numbers_are_told("0x"@, ptr as int, " 是 Player，但读不到生命值"@);
    assert(hex_value(hex_text(ptr as nat)) == Some(ptr as nat));
    if let Some(v) = number_told(t.log[n + 1]) {
        law_shown_numbers_read_back(v);
        assert(integer_of_text(int_text(v)) == Some(v));
    }
}

// ---------------------------------------------------------------------------
// What was seen of the array
// ---------------------------------------------------------------------------
/// The dump shows the first eight words of an object, each behind its offset: two hexadecimal
/// digits for this, sixteen for that.
pub proof fn law_the_dump_shows_the_words(d: Seq<u8>, i: int)
    requires
        d.len() == 64,
        0 <= i < 8,
    ensures
        ({
            let text = qwords_text(d, 8);
            let word = text.subrange(21 * i, 21 * i + 20);
            &&& text.len() == 8 * 21 - 1
            &&& word[0] == '+'
            &&& hex_value(word.subrange(1, 3)) == Some((8 * i) as nat)
            &&& word[3] == '='
            &&& hex_value(word.subrange(4, 20)) == Some(qword(d, 8 * i) as nat)
            &&& i < 7 ==> text[21 * i + 20] == ' '
        }),
{
    lemma_dump(d, 8, i);
}

proof fn lemma_dump(d: Seq<u8>, n: int, i: int)
    requires
        d.len() == 64,
        0 <= i < n <= 8,
    ensures
        ({
            let text = qwords_text(d, n);
            let word = text.subrange(21 * i, 21 * i + 20);
            &&& text.len() == n * 21 - 1
            &&& word[0] == '+'
            &&& hex_value(word.subrange(1, 3)) == Some((8 * i) as nat)
            &&& word[3] == '='
            &&& hex_value(word.subrange(4, 20)) == Some(qword(d, 8 * i) as nat)
            &&& i < n - 1 ==> text[21 * i + 20] == ' '
        }),
    decreases n,
{
    reveal_strlit("+");
    reveal_strlit("=");
    reveal_strlit(" ");
    let text = qwords_text(d, n);
    let at = 8 * (n - 1);
    let v = le_value(d.subrange(at, at + 8));
    law_fixed_hexadecimal_reads_back(at as nat, 2);
    law_fixed_hexadecimal_reads_back(v, 16);
    let last = "+"@ + hex_fixed_text(at as nat, 2) + "="@ + hex_fixed_text(v, 16);
    assert(last.len() == 20);
    if n > 1 {
        let before = qwords_text(d, n - 1);
        lemma_dump(d, n - 1, if i < n - 1 {
            i
        } else {
            0
        });
        assert(text == before + " "@ + last);
        if i < n - 1 {
            assert(text.subrange(21 * i, 21 * i + 20) =~= before.subrange(21 * i, 21 * i + 20));
        } else {
            assert(text.subrange(21 * i, 21 * i + 20) =~= last);
        }
    } else {
        assert(text.subrange(0, 20) =~= last);
    }
    if i == n - 1 {
        law_values_of_bytes(d.subrange(at, at + 8));
        assert(last.subrange(1, 3) =~= hex_fixed_text(at as nat, 2));
        assert(last.subrange(4, 20) =~= hex_fixed_text(v, 16));
        lemma_pow16_values();
        assert(v == qword(d, at));
    }
}

proof fn lemma_pow16_values()
    ensures
        pow16(2) == 0x100,
        pow16(16) == 0x1_0000_0000_0000_0000,
{
    reveal_with_fuel(pow16, 17);
}

/// Whether the text is what a dump of the object at `base` makes of an answer: the words, or that
/// they cannot be read.
pub open spec fn dumped(text: Seq<char>, base: u64, a: Answer) -> bool {
    match a {
        Answer::Data(Some(d)) if d.len() == 64 => text == qwords_text(d, 8),
        _ => locates(text, "0x"@, base as nat, " 起 8 个 qword 读不到"@),
    }
}

/// Where the array did not give the player, the message tells which player and which vtable was
/// expected, shows the words of the array if they can be read once more, and goes on with what
/// was seen.
pub proof fn law_an_unknown_player_is_told(
    t: Talk,
    base: u64,
    index: u64,
    vtable: u64,
    seen: Seq<char>,
)
    requires
        t.asked.len() < t.log.len(),
    ensures
        ({
            let f = unknown_flow(t, base, index, vtable, seen);
            let a = t.log[t.asked.len() as int];
            &&& f.1.asked == t.asked.push(Ask::Read { addr: base, len: 64 })
            &&& f.0 matches Err(Halt::Fail(m)) && exists|i: Seq<char>, v: Seq<char>, w: Seq<char>|
                {
                    &&& #[trigger] integer_of_text(i) == Some(index as int)
                    &&& #[trigger] hex_value(v) == Some(vtable as nat)
                    &&& #[trigger] dumped(w, base, a)
                    &&& m == "没能从 players 数组里认出玩家 "@ + i + "（期望的 Player vtable = 0x"@ + v
                        + "）。\n对象头："@ + w + "\n"@ + seen
                }
        }),
{
    law_shown_numbers_are_told("0x"@, base as int, " 起 8 个 qword 读不到"@);
    law_shown_numbers_read_back(index as int);
    law_hexadecimal_reads_back(vtable as nat);
    let i = int_text(index as int);
    let v = hex_text(vtable as nat);
    let a = t.log[t.asked.len() as int];
    let w = dump_flow(t, base).0->Ok_0;
    assert(i == dec_text(index as nat));
    assert(integer_of_text(i) == Some(index as int) && hex_value(v) == Some(vtable as nat)
        && dumped(w, base, a));
}

/// What is told of the elements. Reasons are told line by line, the element's before the
/// place's. Without a reason the elements were taken to start behind 24 bytes with none there:
/// then what stands behind 32 bytes is told if it is not null.
pub proof fn law_what_is_told_of_the_elements(
    header: Seq<u8>,
    index: u64,
    x: Seq<char>,
    y: Seq<char>,
)
    requires
        header.len() == 64,
    ensures
        elements_text(header, index, reasons(Some(x), Some(y))) == x + "\n"@ + y,
        elements_text(header, index, reasons(Some(x), None)) == x,
        elements_text(header, index, reasons(None, Some(y))) == y,
        ({
            let text = elements_text(header, index, reasons(None, None));
            let at = 32 + 8 * index;
            if at + 8 <= 64 && qword(header, at) != 0 {
                locates(
                    text,
                    "元素起点按 +"@ + "18"@ + " 算，没取到非空指针；+"@ + "20"@ + " 起算的是 0x"@,
                    qword(header, at) as nat,
                    "，没有采用。"@,
                )
            } else {
                text == "两个候选元素起点都没取到非空指针。"@
            }
        }),
{
    reveal_with_fuel(joined, 3);
    assert(seq![x, y].drop_last() =~= seq![x]);
    assert(seq![x, y].last() == y);
    lemma_eighteen();
    let at = 32 + 8 * index;
    if at + 8 <= 64 {
        law_values_of_bytes(header.subrange(at, at + 8));
        assert(le_value(header.subrange(at, at + 8)) == qword(header, at));
        law_shown_numbers_are_told(
            "元素起点按 +"@ + "18"@ + " 算，没取到非空指针；+"@ + "20"@ + " 起算的是 0x"@,
            qword(header, at),
            "，没有采用。"@,
        );
    }
}

proof fn lemma_eighteen()
    ensures
        hex_text(0x18) == "18"@,
        hex_text(0x20) == "20"@,
{
    reveal_with_fuel(hex_text, 3);
    reveal_strlit("18");
    reveal_strlit("20");
    assert(hex_text(0x18) =~= "18"@);
    assert(hex_text(0x20) =~= "20"@);
}

/// The hint tells both places in hexadecimal.
pub proof fn law_the_hint_tells_both_places()
    ensures
        layout_note() == (Ask::Note {
            text: "提示：players 元素起点是 +"@ + "18"@ + "，不是预期的 +"@ + "20"@,
        }),
{
    lemma_eighteen();
}

/// An array that cannot be read is told by its address, and nothing more is asked.
pub proof fn law_an_unreadable_array_is_told(
    t: Talk,
    array: u64,
    player: i32,
    vtable: u64,
    offset: i32,
)
    requires
        t.asked.len() < t.log.len(),
        !(t.log[t.asked.len() as int] matches Answer::Data(Some(d)) && d.len() == 64),
    ensures
        ({
            let f = locate_flow(t, array, player, vtable, offset);
            &&& f.1.asked == t.asked.push(Ask::Read { addr: array, len: 64 })
            &&& f.0 matches Err(Halt::Fail(m)) && locates(
                m,
                "players 指向的 0x"@,
                array as nat,
                " 读不到，多半不是有效对象（字段偏移算错了？）"@,
            )
        }),
{
    law_shown_numbers_are_told(
        "players 指向的 0x"@,
        array as int,
        " 读不到，多半不是有效对象（字段偏移算错了？）"@,
    );
}

/// An array that is too short is told by its length and the player: the length is the word behind
/// 24 bytes if that lies from 1 to 64, and else the word behind 16 if that does.
pub proof fn law_a_short_array_is_told(
    t: Talk,
    array: u64,
    player: i32,
    vtable: u64,
    offset: i32,
    length: int,
)
    requires
        t.asked.len() + 3 <= t.log.len(),
        t.log[t.asked.len() as int] matches Answer::Data(Some(d)) && d.len() == 64,
        array + 24 <= u64::MAX,
        1 <= length <= 64,
        wide(player as int) >= length,
        ({
            let first = word_told(t.log[t.asked.len() as int + 1]);
            let second = word_told(t.log[t.asked.len() as int + 2]);
            ||| first == Some(length)
            ||| !(first matches Some(n) && 1 <= n <= 64) && second == Some(length)
        }),
    ensures
        ({
            let f = locate_flow(t, array, player, vtable, offset);
            let n = t.asked.len() as int;
            &&& f.1.asked[n] == (Ask::Read { addr: array, len: 64 })
            &&& f.1.asked[n + 1] == (Ask::Read { addr: (array + 24) as u64, len: 8 })
            &&& f.1.asked.len() > n + 2 ==> f.1.asked[n + 2] == (Ask::Read {
                addr: (array + 16) as u64,
                len: 8,
            })
            &&& f.1.asked.len() <= n + 3
            &&& f.0 matches Err(Halt::Fail(m)) && exists|a: Seq<char>, b: Seq<char>|
                {
                    &&& #[trigger] integer_of_text(a) == Some(length)
                    &&& #[trigger] integer_of_text(b) == Some(wide(player as int))
                    &&& m == "players 里只有 "@ + a + " 个玩家，没有第 "@ + b + " 号"@
                }
        }),
{
    let n = t.asked.len() as int;
    lemma_word_told(t.log[n + 1]);
    lemma_word_told(t.log[n + 2]);
    law_shown_numbers_read_back(length);
    law_shown_numbers_read_back(wide(player as int));
    assert(integer_of_text(int_text(length)) == Some(length));
    assert(integer_of_text(int_text(wide(player as int))) == Some(wide(player as int)));
    assert(int_text(length) == dec_text(length as nat));
    assert(int_text(wide(player as int)) == dec_text(extended(player) as nat));
}

/// Whether the text ends with a line break and `end`.
pub open spec fn ends(text: Seq<char>, end: Seq<char>) -> bool {
    exists|start: Seq<char>| text == #[trigger] (start + "\n"@) + end
}

proof fn lemma_unknown_ends(t: Talk, base: u64, index: u64, vtable: u64, seen: Seq<char>)
    requires
        t.asked.len() < t.log.len(),
    ensures
        unknown_flow(t, base, index, vtable, seen).0 matches Err(Halt::Fail(m)) && ends(m, seen),
{
    let dump = dump_flow(t, base).0->Ok_0;
    let start = "没能从 players 数组里认出玩家 "@ + dec_text(index as nat)
        + "（期望的 Player vtable = 0x"@ + hex_text(vtable as nat) + "）。\n对象头："@ + dump;
    let m = unknown_flow(t, base, index, vtable, seen).0->Err_0->Fail_0;
    assert(m == (start + "\n"@) + seen);
}

/// Where the word behind 24 bytes leads to no `Player`, the elements start behind 32, and the
/// reason is told last; the reason why the element is no player, if it is not null, is told in
/// the lines before.
pub proof fn law_misses_behind_32_bytes_are_told(
    t: Talk,
    header: Seq<u8>,
    base: u64,
    index: u64,
    vtable: u64,
    offset: i32,
    why: Seq<char>,
    what: Seq<char>,
)
    requires
        header.len() == 64,
        index <= 3,
        qword(header, 24) != 0,
        class_flow(t, qword(header, 24) as u64, vtable).0 matches Ok(Err(w)) && w == why,
    ensures
        ({
            let f = element_flow(t, header, base, index, vtable, offset);
            let t2 = class_flow(t, qword(header, 24) as u64, vtable).1;
            let ptr = qword(header, 32 + 8 * index) as u64;
            let c = check_flow(t2, ptr, vtable, offset);
            &&& ptr == 0 && t2.asked.len() < t2.log.len() ==> (f.0 matches Err(Halt::Fail(m))
                && ends(m, why))
            &&& ptr != 0 && c.1.asked.len() < c.1.log.len() && c.0 == Ok::<
                Result<(), Seq<char>>,
                Halt,
            >(Err(what)) ==> (f.0 matches Err(Halt::Fail(m)) && ends(m, what + "\n"@ + why))
            &&& ptr != 0 && c.0 == Ok::<Result<(), Seq<char>>, Halt>(Ok(())) ==> f == (Ok::<
                u64,
                Halt,
            >(ptr), c.1)
        }),
{
    let ptr = qword(header, 32 + 8 * index) as u64;
    lemma_elements(header, index);
    let t2 = class_flow(t, qword(header, 24) as u64, vtable).1;
    let c = check_flow(t2, ptr, vtable, offset);
    law_what_is_told_of_the_elements(header, index, what, why);
    if ptr == 0 && t2.asked.len() < t2.log.len() {
        lemma_unknown_ends(t2, base, index, vtable, why);
    }
    if ptr != 0 && c.1.asked.len() < c.1.log.len() {
        lemma_unknown_ends(c.1, base, index, vtable, what + "\n"@ + why);
    }
}

proof fn lemma_elements(header: Seq<u8>, index: u64)
    requires
        header.len() == 64,
        index <= 3,
    ensures
        element(header, 0, 24) == Some(qword(header, 24) as u64),
        element(header, index as int, 24) == Some(qword(header, 24 + 8 * index) as u64),
        element(header, index as int, 32) == Some(qword(header, 32 + 8 * index) as u64),
        0 <= qword(header, 24) <= u64::MAX,
        0 <= qword(header, 24 + 8 * index) <= u64::MAX,
        0 <= qword(header, 32 + 8 * index) <= u64::MAX,
{
    law_values_of_bytes(header.subrange(24, 32));
    law_values_of_bytes(header.subrange(24 + 8 * index, 32 + 8 * index));
    law_values_of_bytes(header.subrange(32 + 8 * index, 40 + 8 * index));
}

/// Where the word behind 24 bytes is null or leads to a `Player`, the elements start there: a
/// player is given with a hint, and the reason why an element is none is told last.
pub proof fn law_misses_behind_24_bytes_are_told(
    t: Talk,
    header: Seq<u8>,
    base: u64,
    index: u64,
    vtable: u64,
    offset: i32,
    what: Seq<char>,
)
    requires
        header.len() == 64,
        index <= 3,
        qword(header, 24) != 0 ==> (class_flow(t, qword(header, 24) as u64, vtable).0 matches Ok(
            Ok(()),
        )),
    ensures
        ({
            let f = element_flow(t, header, base, index, vtable, offset);
            let t2 = if qword(header, 24) != 0 {
                class_flow(t, qword(header, 24) as u64, vtable).1
            } else {
                t
            };
            let ptr = qword(header, 24 + 8 * index) as u64;
            let c = check_flow(t2, ptr, vtable, offset);
            &&& ptr == 0 && t2.asked.len() < t2.log.len() ==> (f.0 matches Err(Halt::Fail(m))
                && ends(m, elements_text(header, index, Seq::empty())))
            &&& ptr != 0 && c.1.asked.len() < c.1.log.len() && c.0 == Ok::<
                Result<(), Seq<char>>,
                Halt,
            >(Err(what)) ==> (f.0 matches Err(Halt::Fail(m)) && ends(m, what))
            &&& ptr != 0 && c.0 == Ok::<Result<(), Seq<char>>, Halt>(Ok(())) ==> requests(f)
                == c.1.asked.push(
                Ask::Note {
                    text: "提示：players 元素起点是 +"@ + "18"@ + "，不是预期的 +"@ + "20"@,
                },
            ) && (f.0 is Ok ==> f.0->Ok_0 == ptr)
        }),
{
    let ptr = qword(header, 24 + 8 * index) as u64;
    lemma_elements(header, index);
    let t2 = if qword(header, 24) != 0 {
        class_flow(t, qword(header, 24) as u64, vtable).1
    } else {
        t
    };
    let c = check_flow(t2, ptr, vtable, offset);
    law_what_is_told_of_the_elements(header, index, what, what);
    law_the_hint_tells_both_places();
    if ptr == 0 && t2.asked.len() < t2.log.len() {
        lemma_unknown_ends(
            t2,
            base,
            index,
            vtable,
            elements_text(header, index, Seq::empty()),
        );
    }
    if ptr != 0 && c.1.asked.len() < c.1.log.len() {
        lemma_unknown_ends(c.1, base, index, vtable, what);
    }
}

/// A failure to find the object is told with the addresses that led to the array.
pub proof fn law_failures_tell_the_way_to_the_array(
    t: Talk,
    field: u64,
    array: u64,
    player: i32,
    l: FieldLayout,
    e: Seq<char>,
)
    requires
        locate_flow(t, array, player, l.vtable, l.offset).0 == Err::<u64, Halt>(Halt::Fail(e)),
    ensures
        object_flow(t, field, array, player, l).0 matches Err(Halt::Fail(m)) && exists|
            a: Seq<char>,
            b: Seq<char>,
        |
            {
                &&& #[trigger] hex_value(a) == Some(field as nat)
                &&& #[trigger] hex_value(b) == Some(array as nat)
                &&& m == e + "\n（诊断：字段地址 0x"@ + a + "，数组对象 0x"@ + b + "）"@
            },
{
    law_hexadecimal_reads_back(field as nat);
    law_hexadecimal_reads_back(array as nat);
    let a = hex_text(field as nat);
    let b = hex_text(array as nat);
    assert(hex_value(a) == Some(field as nat) && hex_value(b) == Some(array as nat));
}

} // verus!

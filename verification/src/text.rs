//! Text: number formatting, field parsing, and the decoding of foreign strings.

use vstd::prelude::*;
use vstd::string::*;
use vstd::utf8::{decode_utf8, valid_utf8};

verus! {

// ---------------------------------------------------------------------------
// Numbers to text
// ---------------------------------------------------------------------------
/// One upper-case hexadecimal digit.
pub open spec fn digit_text(d: nat) -> Seq<char> {
    if d < 10 {
        seq![('0' as nat + d) as char]
    } else {
        seq![('A' as nat + d - 10) as char]
    }
}

/// `v` in hexadecimal, upper case, without leading zeros.
pub open spec fn hex_text(v: nat) -> Seq<char>
    decreases v,
{
    if v < 16 {
        digit_text(v)
    } else {
        hex_text(v / 16) + digit_text(v % 16)
    }
}

/// The `width` lowest hexadecimal digits of `v`, leading zeros kept.
pub open spec fn hex_fixed_text(v: nat, width: nat) -> Seq<char>
    decreases width,
{
    if width == 0 {
        Seq::empty()
    } else {
        hex_fixed_text(v / 16, (width - 1) as nat) + digit_text(v % 16)
    }
}

/// `v` in decimal, without leading zeros.
pub open spec fn dec_text(v: nat) -> Seq<char>
    decreases v,
{
    if v < 10 {
        digit_text(v)
    } else {
        dec_text(v / 10) + digit_text(v % 10)
    }
}

/// A signed number in decimal.
pub open spec fn int_text(v: int) -> Seq<char> {
    if v < 0 {
        "-"@ + dec_text((-v) as nat)
    } else {
        dec_text(v as nat)
    }
}

/// An optional number the way debug output shows it.
pub open spec fn maybe_text(v: Option<int>) -> Seq<char> {
    match v {
        Some(n) => "Some("@ + int_text(n) + ")"@,
        None => "None"@,
    }
}

/// The digit `d` as text.
fn digit(d: u64) -> (r: String)
    requires
        d < 16,
    ensures
        r@ == digit_text(d as nat),
{
    let s: &str = if d == 0 {
        "0"
    } else if d == 1 {
        "1"
    } else if d == 2 {
        "2"
    } else if d == 3 {
        "3"
    } else if d == 4 {
        "4"
    } else if d == 5 {
        "5"
    } else if d == 6 {
        "6"
    } else if d == 7 {
        "7"
    } else if d == 8 {
        "8"
    } else if d == 9 {
        "9"
    } else if d == 10 {
        "A"
    } else if d == 11 {
        "B"
    } else if d == 12 {
        "C"
    } else if d == 13 {
        "D"
    } else if d == 14 {
        "E"
    } else {
        "F"
    };
    proof {
        reveal_strlit("0");
        reveal_strlit("1");
        reveal_strlit("2");
        reveal_strlit("3");
        reveal_strlit("4");
        reveal_strlit("5");
        reveal_strlit("6");
        reveal_strlit("7");
        reveal_strlit("8");
        reveal_strlit("9");
        reveal_strlit("A");
        reveal_strlit("B");
        reveal_strlit("C");
        reveal_strlit("D");
        reveal_strlit("E");
        reveal_strlit("F");
    }
    assert(s@ =~= digit_text(d as nat));
    s.to_owned()
}

/// Formats in hexadecimal.
pub fn hex(v: u64) -> (r: String)
    ensures
        r@ == hex_text(v as nat),
    decreases v,
{
    if v < 16 {
        digit(v)
    } else {
        hex(v / 16).concat(digit(v % 16).as_str())
    }
}

/// Formats the lowest `width` hexadecimal digits.
pub fn hex_fixed(v: u64, width: usize) -> (r: String)
    ensures
        r@ == hex_fixed_text(v as nat, width as nat),
    decreases width,
{
    if width == 0 {
        String::new()
    } else {
        hex_fixed(v / 16, width - 1).concat(digit(v % 16).as_str())
    }
}

/// Formats in decimal.
pub fn dec(v: u64) -> (r: String)
    ensures
        r@ == dec_text(v as nat),
    decreases v,
{
    if v < 10 {
        digit(v)
    } else {
        dec(v / 10).concat(digit(v % 10).as_str())
    }
}

/// Formats a signed number in decimal.
pub fn dec_i32(v: i32) -> (r: String)
    ensures
        r@ == int_text(v as int),
{
    if v < 0 {
        "-".to_owned().concat(dec((-(v as i64)) as u64).as_str())
    } else {
        dec(v as u64)
    }
}

/// Formats an optional unsigned number.
pub fn maybe_u64(v: Option<u64>) -> (r: String)
    ensures
        r@ == maybe_text(
            match v {
                Some(n) => Some(n as int),
                None => None,
            },
        ),
{
    match v {
        Some(n) => "Some(".to_owned().concat(dec(n).as_str()).concat(")"),
        None => "None".to_owned(),
    }
}

/// Formats an optional signed number.
pub fn maybe_i32(v: Option<i32>) -> (r: String)
    ensures
        r@ == maybe_text(
            match v {
                Some(n) => Some(n as int),
                None => None,
            },
        ),
{
    match v {
        Some(n) => "Some(".to_owned().concat(dec_i32(n).as_str()).concat(")"),
        None => "None".to_owned(),
    }
}

// ---------------------------------------------------------------------------
// Text to numbers
// ---------------------------------------------------------------------------
/// The characters with the Unicode property White_Space.
pub open spec fn is_white(c: char) -> bool {
    let n = c as u32;
    ||| 0x09 <= n <= 0x0D
    ||| n == 0x20
    ||| n == 0x85
    ||| n == 0xA0
    ||| n == 0x1680
    ||| 0x2000 <= n <= 0x200A
    ||| n == 0x2028
    ||| n == 0x2029
    ||| n == 0x202F
    ||| n == 0x205F
    ||| n == 0x3000
}

/// `s` without the white space at its start.
pub open spec fn trim_start_text(s: Seq<char>) -> Seq<char>
    decreases s.len(),
{
    if s.len() > 0 && is_white(s[0]) {
        trim_start_text(s.subrange(1, s.len() as int))
    } else {
        s
    }
}

/// `s` without the white space at its end.
pub open spec fn trim_end_text(s: Seq<char>) -> Seq<char>
    decreases s.len(),
{
    if s.len() > 0 && is_white(s.last()) {
        trim_end_text(s.drop_last())
    } else {
        s
    }
}

/// `s` without the white space at both ends.
pub open spec fn trim_text(s: Seq<char>) -> Seq<char> {
    trim_end_text(trim_start_text(s))
}

/// Whether every character of `s` is an ASCII digit.
pub open spec fn all_digits(s: Seq<char>) -> bool {
    forall|i: int| 0 <= i < s.len() ==> '0' <= #[trigger] s[i] <= '9'
}

/// The number that a string of digits spells.
pub open spec fn digits_value(s: Seq<char>) -> nat
    decreases s.len(),
{
    if s.len() == 0 {
        0
    } else {
        (10 * digits_value(s.drop_last()) + (s.last() as int - '0' as int)) as nat
    }
}

/// The integer that `s` spells: an optional sign, then at least one digit, and nothing else.
pub open spec fn integer_of_text(s: Seq<char>) -> Option<int> {
    let signed = s.len() > 0 && (s[0] == '-' || s[0] == '+');
    let digits = if signed {
        s.subrange(1, s.len() as int)
    } else {
        s
    };
    if digits.len() == 0 || !all_digits(digits) {
        None
    } else if signed && s[0] == '-' {
        Some(-(digits_value(digits) as int))
    } else {
        Some(digits_value(digits) as int)
    }
}

/// The 32-bit integer that `s` spells, if it spells one that fits.
pub open spec fn i32_of_text(s: Seq<char>) -> Option<i32> {
    match integer_of_text(s) {
        Some(v) => if i32::MIN <= v <= i32::MAX {
            Some(v as i32)
        } else {
            None
        },
        None => None,
    }
}

/// The characters of a string, one by one.
pub fn chars_of(s: &str) -> (r: Vec<char>)
    ensures
        r@ == s@,
{
    let mut out: Vec<char> = Vec::new();
    for c in it: s.chars()
        invariant
            out@ == it.seq().take(it.index()),
            it.seq() == s@,
    {
        out.push(c);
        proof {
            assert(it.seq().take(it.index() + 1) =~= it.seq().take(it.index()).push(c));
        }
    }
    assert(s@.take(s@.len() as int) =~= s@);
    out
}

/// Whether `c` is white space.
pub fn white(c: char) -> (r: bool)
    ensures
        r == is_white(c),
{
    let n: u32 = c as u32;
    (0x09 <= n && n <= 0x0D) || n == 0x20 || n == 0x85 || n == 0xA0 || n == 0x1680 || (0x2000 <= n
        && n <= 0x200A) || n == 0x2028 || n == 0x2029 || n == 0x202F || n == 0x205F || n == 0x3000
}

/// Cuts the white space off both ends.
pub fn trim(s: &str) -> (r: &str)
    ensures
        r@ == trim_text(s@),
{
    let cs: Vec<char> = chars_of(s);
    let n: usize = cs.len();
    let mut from: usize = 0;
    assert(s@.subrange(0, n as int) =~= s@);
    while from < n && white(cs[from])
        invariant
            n == cs.len(),
            cs@ == s@,
            from <= n,
            trim_start_text(s@.subrange(from as int, n as int)) == trim_start_text(s@),
        decreases n - from,
    {
        proof {
            let tail = s@.subrange(from as int, n as int);
            assert(tail.subrange(1, tail.len() as int) =~= s@.subrange(from + 1, n as int));
        }
        from = from + 1;
    }
    let mut to: usize = n;
    while to > from && white(cs[to - 1])
        invariant
            n == cs.len(),
            cs@ == s@,
            from <= to <= n,
            trim_end_text(s@.subrange(from as int, to as int)) == trim_end_text(
                s@.subrange(from as int, n as int),
            ),
        decreases to,
    {
        proof {
            assert(s@.subrange(from as int, to as int).drop_last() =~= s@.subrange(
                from as int,
                to - 1,
            ));
        }
        to = to - 1;
    }
    s.substring_char(from, to)
}

/// Reads a 32-bit integer; `None` where the text is not one or does not fit.
pub fn parse_i32(s: &str) -> (r: Option<i32>)
    ensures
        r == i32_of_text(s@),
{
    let cs: Vec<char> = chars_of(s);
    let n: usize = cs.len();
    let negative: bool = n > 0 && cs[0] == '-';
    let signed: bool = negative || (n > 0 && cs[0] == '+');
    let start: usize = if signed {
        1
    } else {
        0
    };
    let ghost digits = s@.subrange(start as int, n as int);
    assert(!signed ==> digits =~= s@);
    if start == n {
        return None;
    }
    let mut value: i64 = 0;
    let mut i: usize = start;
    while i < n
        invariant
            n == cs.len(),
            cs@ == s@,
            start <= i <= n,
            start == (if signed { 1int } else { 0 }),
            signed == (n > 0 && (s@[0] == '-' || s@[0] == '+')),
            digits == s@.subrange(start as int, n as int),
            !signed ==> digits == s@,
            all_digits(digits.take(i - start)),
            0 <= value <= 0x1_0000_0000,
            value < 0x1_0000_0000 ==> value == digits_value(digits.take(i - start)),
            value == 0x1_0000_0000 ==> digits_value(digits.take(i - start)) >= 0x1_0000_0000,
        decreases n - i,
    {
        let c: char = cs[i];
        proof {
            assert(digits[i - start] == c);
            assert(digits.take(i - start + 1).drop_last() =~= digits.take(i - start));
            assert(digits.take(i - start + 1).last() == c);
        }
        if c < '0' || c > '9' {
            proof {
                assert(!all_digits(digits));
            }
            return None;
        }
        let d: i64 = (c as u32 - '0' as u32) as i64;
        let next: i64 = if value == 0x1_0000_0000 {
            value
        } else {
            10 * value + d
        };
        value = if next > 0x1_0000_0000 {
            0x1_0000_0000
        } else {
            next
        };
        i = i + 1;
    }
    assert(digits.take(n - start) =~= digits);
    let v: i64 = if negative {
        -value
    } else {
        value
    };
    if v < i32::MIN as i64 || v > i32::MAX as i64 {
        None
    } else {
        Some(v as i32)
    }
}

// ---------------------------------------------------------------------------
// Comparing and joining
// ---------------------------------------------------------------------------
/// The code of `c` with an upper-case ASCII letter mapped to its lower-case form.
pub open spec fn folded(c: char) -> int {
    if 'A' <= c <= 'Z' {
        c as int + 32
    } else {
        c as int
    }
}

/// Whether two strings are equal up to the case of ASCII letters.
pub open spec fn same_letters(a: Seq<char>, b: Seq<char>) -> bool {
    &&& a.len() == b.len()
    &&& forall|i: int| 0 <= i < a.len() ==> folded(#[trigger] a[i]) == folded(b[i])
}

/// The lines with a line break between each two.
pub open spec fn joined(lines: Seq<Seq<char>>) -> Seq<char>
    decreases lines.len(),
{
    if lines.len() == 0 {
        Seq::empty()
    } else if lines.len() == 1 {
        lines[0]
    } else {
        joined(lines.drop_last()) + "\n"@ + lines.last()
    }
}

/// The texts that a list of strings holds.
pub open spec fn texts(v: Seq<String>) -> Seq<Seq<char>> {
    Seq::new(v.len(), |i: int| v[i]@)
}

/// Comparing up to ASCII case is an equivalence.
pub proof fn law_same_letters_is_an_equivalence(a: Seq<char>, b: Seq<char>, c: Seq<char>)
    ensures
        same_letters(a, a),
        same_letters(a, b) ==> same_letters(b, a),
        same_letters(a, b) && same_letters(b, c) ==> same_letters(a, c),
{
}

/// `folded`, executable.
fn fold(c: char) -> (r: u32)
    ensures
        r == folded(c),
{
    let n: u32 = c as u32;
    if 'A' <= c && c <= 'Z' {
        n + 32
    } else {
        n
    }
}

/// Compares two strings up to the case of ASCII letters.
pub fn eq_ignore_ascii_case(a: &str, b: &str) -> (r: bool)
    ensures
        r == same_letters(a@, b@),
{
    let x: Vec<char> = chars_of(a);
    let y: Vec<char> = chars_of(b);
    if x.len() != y.len() {
        return false;
    }
    let mut i: usize = 0;
    while i < x.len()
        invariant
            x@ == a@,
            y@ == b@,
            x.len() == y.len(),
            i <= x.len(),
            forall|j: int| 0 <= j < i ==> folded(#[trigger] a@[j]) == folded(b@[j]),
        decreases x.len() - i,
    {
        if fold(x[i]) != fold(y[i]) {
            proof {
                assert(folded(a@[i as int]) != folded(b@[i as int]));
            }
            return false;
        }
        i = i + 1;
    }
    true
}

/// Joins lines with line breaks.
pub fn join_lines(lines: &Vec<String>) -> (r: String)
    ensures
        r@ == joined(texts(lines@)),
{
    let mut out: String = String::new();
    let mut i: usize = 0;
    let ghost all = texts(lines@);
    while i < lines.len()
        invariant
            i <= lines.len(),
            all == texts(lines@),
            out@ == joined(all.take(i as int)),
        decreases lines.len() - i,
    {
        proof {
            assert(all.take(i + 1).drop_last() =~= all.take(i as int));
            assert(all.take(i + 1).last() == lines[i as int]@);
            assert(all.take(i + 1)[0] == all[0]);
        }
        if i > 0 {
            out = out.concat("\n");
            out = out.concat(lines[i].as_str());
        } else {
            out = lines[i].clone();
        }
        i = i + 1;
    }
    assert(all.take(lines.len() as int) =~= all);
    out
}

// ---------------------------------------------------------------------------
// What the texts spell
// ---------------------------------------------------------------------------
/// The digits of a number in decimal spell that number, and no needless zero stands in front.
pub proof fn law_decimal_reads_back(v: nat)
    ensures
        dec_text(v).len() > 0,
        all_digits(dec_text(v)),
        digits_value(dec_text(v)) == v,
        v > 0 ==> dec_text(v)[0] != '0',
        v < 10 ==> dec_text(v).len() == 1,
    decreases v,
{
    reveal_with_fuel(digits_value, 2);
    if v < 10 {
        assert(dec_text(v).drop_last() =~= Seq::<char>::empty());
    } else {
        law_decimal_reads_back(v / 10);
        let t = dec_text(v);
        assert(t.drop_last() =~= dec_text(v / 10));
        assert(t.last() == digit_text(v % 10)[0]);
        assert forall|i: int| 0 <= i < t.len() implies '0' <= #[trigger] t[i] <= '9' by {
            if i < t.len() - 1 {
                assert(t[i] == dec_text(v / 10)[i]);
            }
        }
        assert(t[0] == dec_text(v / 10)[0]);
    }
}

/// The digits of a number are read from the left: one digit more is ten times the number, and
/// that digit; and zeros in front change nothing.
pub proof fn law_digits_count_by_ten(s: Seq<char>, d: nat)
    requires
        d < 10,
    ensures
        digits_value(s.push((48 + d) as char)) == 10 * digits_value(s) + d,
        digits_value(seq!['0'] + s) == digits_value(s),
        digits_value(Seq::<char>::empty()) == 0,
    decreases s.len(),
{
    let t = s.push((48 + d) as char);
    assert(t.drop_last() =~= s);
    if s.len() == 0 {
        reveal_with_fuel(digits_value, 2);
        assert((seq!['0'] + s).drop_last() =~= Seq::<char>::empty());
    } else {
        law_digits_count_by_ten(s.drop_last(), d);
        assert((seq!['0'] + s).drop_last() =~= seq!['0'] + s.drop_last());
        assert((seq!['0'] + s).last() == s.last());
    }
}

/// A number as it is shown spells that number, whatever its sign.
pub proof fn law_shown_numbers_read_back(v: int)
    ensures
        integer_of_text(int_text(v)) == Some(v),
        v >= 0 ==> '0' <= int_text(v)[0] <= '9',
        v < 0 ==> int_text(v)[0] == '-' && int_text(v)[1] != '0',
        i32::MIN <= v <= i32::MAX ==> i32_of_text(int_text(v)) == Some(v as i32),
{
    reveal_strlit("-");
    if v < 0 {
        law_decimal_reads_back((-v) as nat);
        let t = int_text(v);
        assert(t[0] == '-');
        assert(t.subrange(1, t.len() as int) =~= dec_text((-v) as nat));
    } else {
        law_decimal_reads_back(v as nat);
        assert('0' <= dec_text(v as nat)[0] <= '9');
    }
}

/// White space is the white space of ASCII and that of Unicode: the controls from tab to carriage
/// return, the space, the next line, the spaces that do not break or are of some width, and the
/// separators of lines and paragraphs. No visible ASCII character is.
pub proof fn law_white_space(c: char)
    ensures
        c == '\t' || c == '\n' || c == '\r' || c == ' ' || c == '\u{B}' || c == '\u{C}' ==> is_white(c),
        c == '\u{85}' || c == '\u{A0}' || c == '\u{1680}' || c == '\u{2028}' || c == '\u{2029}' || c
            == '\u{202F}' || c == '\u{205F}' || c == '\u{3000}' ==> is_white(c),
        '\u{2000}' <= c <= '\u{200A}' ==> is_white(c),
        '!' <= c <= '~' ==> !is_white(c),
        c > '\u{3000}' ==> !is_white(c),
        is_white(c) ==> c <= ' ' || c == '\u{85}' || c == '\u{A0}' || c == '\u{1680}' || '\u{2000}' <= c
            <= '\u{200A}' || '\u{2028}' <= c <= '\u{3000}',
{
}

/// What can be read as a number is an optional sign and digits, and the number is what they
/// say; and all of that can be read, as far as it fits.
pub proof fn law_numbers_are_signs_and_digits(digits: Seq<char>)
    ensures
        digits.len() > 0 && all_digits(digits) ==> {
            let v = digits_value(digits) as int;
            &&& integer_of_text(digits) == Some(v)
            &&& integer_of_text(seq!['+'] + digits) == Some(v)
            &&& integer_of_text(seq!['-'] + digits) == Some(-v)
            &&& v <= i32::MAX ==> i32_of_text(digits) == Some(v as i32) && i32_of_text(
                seq!['+'] + digits,
            ) == Some(v as i32)
            &&& v > i32::MAX ==> i32_of_text(digits) is None && i32_of_text(
                seq!['+'] + digits,
            ) is None
            &&& -v >= i32::MIN ==> i32_of_text(seq!['-'] + digits) == Some((-v) as i32)
            &&& -v < i32::MIN ==> i32_of_text(seq!['-'] + digits) is None
        },
        digits.len() == 0 ==> integer_of_text(digits) is None && integer_of_text(
            seq!['+'] + digits,
        ) is None && integer_of_text(seq!['-'] + digits) is None,
        forall|i: int|
            1 <= i < digits.len() && !('0' <= #[trigger] digits[i] <= '9') ==> integer_of_text(
                digits,
            ) is None,
        digits.len() > 0 && !('0' <= digits[0] <= '9') && digits[0] != '+' && digits[0] != '-'
            ==> integer_of_text(digits) is None,
{
    let plus = seq!['+'] + digits;
    let minus = seq!['-'] + digits;
    assert(plus.subrange(1, plus.len() as int) =~= digits);
    assert(minus.subrange(1, minus.len() as int) =~= digits);
    if digits.len() > 0 && all_digits(digits) {
        assert('0' <= digits[0] <= '9');
    }
    assert forall|i: int|
        1 <= i < digits.len() && !('0' <= #[trigger] digits[i] <= '9') implies integer_of_text(
        digits,
    ) is None by {
        let rest = digits.subrange(1, digits.len() as int);
        assert(rest[i - 1] == digits[i]);
    }
}

/// White space around a text, and none in it at either end: trimming gives the text.
pub proof fn law_trimming_takes_white_space_off(a: Seq<char>, s: Seq<char>, b: Seq<char>)
    requires
        forall|i: int| 0 <= i < a.len() ==> is_white(#[trigger] a[i]),
        forall|i: int| 0 <= i < b.len() ==> is_white(#[trigger] b[i]),
        s.len() > 0 ==> !is_white(s[0]) && !is_white(s.last()),
    ensures
        trim_text(a + s + b) == s,
{
    lemma_trim_start(a, s + b);
    assert(a + (s + b) =~= a + s + b);
    if s.len() > 0 {
        assert((s + b)[0] == s[0]);
        assert(trim_start_text(s + b) == s + b);
        lemma_trim_end(s, b);
    } else {
        assert(s + b =~= b + Seq::<char>::empty());
        lemma_trim_start(b, Seq::empty());
        assert(s =~= Seq::<char>::empty());
    }
}

proof fn lemma_trim_start(a: Seq<char>, s: Seq<char>)
    requires
        forall|i: int| 0 <= i < a.len() ==> is_white(#[trigger] a[i]),
    ensures
        trim_start_text(a + s) == trim_start_text(s),
    decreases a.len(),
{
    if a.len() > 0 {
        let rest = a.subrange(1, a.len() as int);
        assert((a + s)[0] == a[0]);
        assert((a + s).subrange(1, (a + s).len() as int) =~= rest + s);
        lemma_trim_start(rest, s);
    } else {
        assert(a + s =~= s);
    }
}

proof fn lemma_trim_end(s: Seq<char>, b: Seq<char>)
    requires
        forall|i: int| 0 <= i < b.len() ==> is_white(#[trigger] b[i]),
        s.len() > 0,
        !is_white(s.last()),
    ensures
        trim_end_text(s + b) == s,
    decreases b.len(),
{
    if b.len() > 0 {
        assert((s + b).last() == b.last());
        assert((s + b).drop_last() =~= s + b.drop_last());
        lemma_trim_end(s, b.drop_last());
    } else {
        assert(s + b =~= s);
    }
}

/// Every text is white space, its trimmed text, and white space.
pub proof fn law_trimming_only_takes_white_space_off(s: Seq<char>) -> (k: int)
    ensures
        0 <= k,
        k + trim_text(s).len() <= s.len(),
        trim_text(s) == s.subrange(k, k + trim_text(s).len()),
        forall|i: int| 0 <= i < k ==> is_white(#[trigger] s[i]),
        forall|i: int| k + trim_text(s).len() <= i < s.len() ==> is_white(#[trigger] s[i]),
        trim_text(s).len() > 0 ==> !is_white(trim_text(s)[0]) && !is_white(trim_text(s).last()),
{
    let k = lemma_start_cut(s);
    let t = trim_start_text(s);
    lemma_end_cut(t);
    let r = trim_text(s);
    assert(r =~= s.subrange(k, k + r.len())) by {
        assert forall|i: int| 0 <= i < r.len() implies r[i] == s[k + i] by {
            assert(r[i] == t[i]);
        }
    }
    assert forall|i: int| k + r.len() <= i < s.len() implies is_white(#[trigger] s[i]) by {
        assert(t[i - k] == s[i]);
    }
    k
}

proof fn lemma_start_cut(s: Seq<char>) -> (k: int)
    ensures
        0 <= k <= s.len(),
        trim_start_text(s) == s.subrange(k, s.len() as int),
        forall|i: int| 0 <= i < k ==> is_white(#[trigger] s[i]),
        k < s.len() ==> !is_white(s[k]),
    decreases s.len(),
{
    if s.len() > 0 && is_white(s[0]) {
        let rest = s.subrange(1, s.len() as int);
        let j = lemma_start_cut(rest);
        assert(rest.subrange(j, rest.len() as int) =~= s.subrange(j + 1, s.len() as int));
        assert forall|i: int| 0 <= i < j + 1 implies is_white(#[trigger] s[i]) by {
            if i > 0 {
                assert(rest[i - 1] == s[i]);
            }
        }
        j + 1
    } else {
        assert(s.subrange(0, s.len() as int) =~= s);
        0
    }
}

proof fn lemma_end_cut(s: Seq<char>)
    ensures
        trim_end_text(s).len() <= s.len(),
        forall|i: int| 0 <= i < trim_end_text(s).len() ==> #[trigger] trim_end_text(s)[i] == s[i],
        forall|i: int| trim_end_text(s).len() <= i < s.len() ==> is_white(#[trigger] s[i]),
        trim_end_text(s).len() > 0 ==> !is_white(trim_end_text(s).last()),
    decreases s.len(),
{
    if s.len() > 0 && is_white(s.last()) {
        lemma_end_cut(s.drop_last());
        assert forall|i: int| trim_end_text(s).len() <= i < s.len() implies is_white(
            #[trigger] s[i],
        ) by {
            if i < s.len() - 1 {
                assert(s.drop_last()[i] == s[i]);
            }
        }
    }
}

/// The value of an upper-case hexadecimal digit.
pub open spec fn hex_digit(c: char) -> Option<nat> {
    if '0' <= c <= '9' {
        Some((c as int - 48) as nat)
    } else if 'A' <= c <= 'F' {
        Some((c as int - 55) as nat)
    } else {
        None
    }
}

/// The number that a string of hexadecimal digits spells.
pub open spec fn hex_value(s: Seq<char>) -> Option<nat>
    decreases s.len(),
{
    if s.len() == 0 {
        Some(0)
    } else {
        match (hex_value(s.drop_last()), hex_digit(s.last())) {
            (Some(v), Some(d)) => Some(16 * v + d),
            _ => None,
        }
    }
}

/// 16 to the power `n`.
pub open spec fn pow16(n: nat) -> nat
    decreases n,
{
    if n == 0 {
        1
    } else {
        16 * pow16((n - 1) as nat)
    }
}

/// The digits of a number in hexadecimal spell that number, and no needless zero stands in
/// front; so two numbers are never shown alike.
pub proof fn law_hexadecimal_reads_back(v: nat)
    ensures
        hex_text(v).len() > 0,
        hex_value(hex_text(v)) == Some(v),
        v > 0 ==> hex_text(v)[0] != '0',
        v < 16 ==> hex_text(v).len() == 1,
    decreases v,
{
    reveal_with_fuel(hex_value, 2);
    if v < 16 {
        assert(hex_text(v).drop_last() =~= Seq::<char>::empty());
    } else {
        law_hexadecimal_reads_back(v / 16);
        let t = hex_text(v);
        assert(t.drop_last() =~= hex_text(v / 16));
        assert(t.last() == digit_text(v % 16)[0]);
        assert(t[0] == hex_text(v / 16)[0]);
    }
}

/// So many hexadecimal digits of a number spell as much of it as they hold.
pub proof fn law_fixed_hexadecimal_reads_back(v: nat, width: nat)
    ensures
        hex_fixed_text(v, width).len() == width,
        hex_value(hex_fixed_text(v, width)) == Some(v % pow16(width)),
    decreases width,
{
    if width == 0 {
        assert(pow16(0) == 1);
    } else {
        let w = (width - 1) as nat;
        law_fixed_hexadecimal_reads_back(v / 16, w);
        let t = hex_fixed_text(v, width);
        assert(t.drop_last() =~= hex_fixed_text(v / 16, w));
        assert(t.last() == digit_text(v % 16)[0]);
        lemma_pow16_positive(w);
        let p = pow16(w) as int;
        vstd::arithmetic::div_mod::lemma_mod_breakdown(v as int, 16, p);
        assert((v as int) % (16 * p) == 16 * ((v as int / 16) % p) + (v as int) % 16);
    }
}

proof fn lemma_pow16_positive(n: nat)
    ensures
        pow16(n) > 0,
    decreases n,
{
    if n > 0 {
        lemma_pow16_positive((n - 1) as nat);
    }
}

/// An optional number as it is shown tells whether there is one, and which.
pub proof fn law_optional_numbers_read_back(v: int)
    ensures
        ({
            let t = maybe_text(Some(v));
            &&& t.len() > 6
            &&& t.take(5) == "Some("@
            &&& t.last() == ')'
            &&& integer_of_text(t.subrange(5, t.len() - 1)) == Some(v)
        }),
        maybe_text(None) == "None"@,
{
    reveal_strlit("Some(");
    reveal_strlit(")");
    law_shown_numbers_read_back(v);
    let t = maybe_text(Some(v));
    assert(t.take(5) =~= "Some("@);
    assert(t.subrange(5, t.len() - 1) =~= int_text(v));
    law_decimal_reads_back(
        (if v < 0 {
            -v
        } else {
            v
        }) as nat,
    );
}

/// Two strings are the same up to case exactly when they differ, place by place, at most in
/// whether an ASCII letter is a capital.
pub proof fn law_same_letters_by_places(a: Seq<char>, b: Seq<char>)
    ensures
        same_letters(a, b) <==> a.len() == b.len() && forall|i: int|
            0 <= i < a.len() ==> {
                ||| #[trigger] a[i] == b[i]
                ||| 'A' <= a[i] <= 'Z' && b[i] as int == a[i] as int + 32
                ||| 'A' <= b[i] <= 'Z' && a[i] as int == b[i] as int + 32
            },
{
    if a.len() == b.len() {
        assert forall|i: int| 0 <= i < a.len() implies (folded(a[i]) == folded(b[i]) <==> {
            ||| #[trigger] a[i] == b[i]
            ||| 'A' <= a[i] <= 'Z' && b[i] as int == a[i] as int + 32
            ||| 'A' <= b[i] <= 'Z' && a[i] as int == b[i] as int + 32
        }) by {
        }
    }
}

/// What stands in front of the first line break, or all of it.
pub open spec fn first_line(s: Seq<char>) -> Seq<char>
    decreases s.len(),
{
    if s.len() == 0 || s[0] == '\n' {
        Seq::empty()
    } else {
        seq![s[0]] + first_line(s.subrange(1, s.len() as int))
    }
}

/// The lines of a text.
pub open spec fn lines_of(s: Seq<char>) -> Seq<Seq<char>>
    decreases s.len(),
    via lines_of_decreases
{
    if first_line(s).len() >= s.len() {
        seq![s]
    } else {
        seq![first_line(s)] + lines_of(s.subrange(first_line(s).len() as int + 1, s.len() as int))
    }
}

#[via_fn]
proof fn lines_of_decreases(s: Seq<char>) {
}

proof fn lemma_first_line(a: Seq<char>, s: Seq<char>)
    requires
        forall|i: int| 0 <= i < a.len() ==> #[trigger] a[i] != '\n',
        s.len() == 0 || s[0] == '\n',
    ensures
        first_line(a + s) == a,
    decreases a.len(),
{
    if a.len() > 0 {
        let rest = a.subrange(1, a.len() as int);
        assert((a + s).subrange(1, (a + s).len() as int) =~= rest + s);
        lemma_first_line(rest, s);
        assert(seq![a[0]] + rest =~= a);
    } else {
        assert(a + s =~= s);
    }
}

proof fn lemma_joined_first(lines: Seq<Seq<char>>)
    requires
        lines.len() > 1,
    ensures
        joined(lines) == lines[0] + seq!['\n'] + joined(lines.subrange(1, lines.len() as int)),
    decreases lines.len(),
{
    reveal_strlit("\n");
    assert("\n"@ =~= seq!['\n']);
    let rest = lines.subrange(1, lines.len() as int);
    if lines.len() == 2 {
        assert(lines.drop_last().len() == 1);
        assert(joined(lines.drop_last()) == lines[0]);
        assert(joined(rest) == lines[1]);
    } else {
        lemma_joined_first(lines.drop_last());
        assert(lines.drop_last().subrange(1, lines.len() - 1) =~= rest.drop_last());
        assert(joined(lines) =~= lines[0] + seq!['\n'] + joined(rest));
    }
}

/// Lines that are joined and split again are the same lines.
pub proof fn law_joined_lines_split_again(lines: Seq<Seq<char>>)
    requires
        lines.len() > 0,
        forall|k: int, i: int|
            0 <= k < lines.len() && 0 <= i < lines[k].len() ==> #[trigger] lines[k][i] != '\n',
    ensures
        lines_of(joined(lines)) == lines,
    decreases lines.len(),
{
    if lines.len() == 1 {
        let s = lines[0];
        lemma_first_line(s, Seq::empty());
        assert(s + Seq::<char>::empty() =~= s);
        assert(seq![s] =~= lines);
    } else {
        let rest = lines.subrange(1, lines.len() as int);
        lemma_joined_first(lines);
        let s = joined(lines);
        let a = lines[0];
        let tail = seq!['\n'] + joined(rest);
        assert(s =~= a + tail);
        lemma_first_line(a, tail);
        assert(s.subrange(a.len() as int + 1, s.len() as int) =~= joined(rest));
        assert forall|k: int, i: int|
            0 <= k < rest.len() && 0 <= i < rest[k].len() implies #[trigger] rest[k][i] != '\n' by {
            assert(lines[k + 1][i] != '\n');
        }
        law_joined_lines_split_again(rest);
        assert(seq![a] + rest =~= lines);
    }
}

/// Whether the text is a decimal number between two others.
pub open spec fn tells(text: Seq<char>, before: Seq<char>, n: int, after: Seq<char>) -> bool {
    exists|m: Seq<char>| #[trigger] integer_of_text(m) == Some(n) && text == before + m + after
}

/// Whether the text is a hexadecimal number between two others.
pub open spec fn locates(text: Seq<char>, before: Seq<char>, n: nat, after: Seq<char>) -> bool {
    exists|m: Seq<char>| #[trigger] hex_value(m) == Some(n) && text == before + m + after
}

/// Numbers that are shown between other texts can be told from them.
pub proof fn law_shown_numbers_are_told(before: Seq<char>, v: int, after: Seq<char>)
    ensures
        tells(before + int_text(v) + after, before, v, after),
        tells(before + int_text(v), before, v, Seq::empty()),
        v >= 0 ==> {
            &&& tells(before + dec_text(v as nat) + after, before, v, after)
            &&& tells(before + dec_text(v as nat), before, v, Seq::empty())
            &&& locates(before + hex_text(v as nat) + after, before, v as nat, after)
            &&& locates(before + hex_text(v as nat), before, v as nat, Seq::empty())
        },
{
    law_shown_numbers_read_back(v);
    assert(before + int_text(v) =~= before + int_text(v) + Seq::empty());
    if v >= 0 {
        law_hexadecimal_reads_back(v as nat);
        assert(before + hex_text(v as nat) =~= before + hex_text(v as nat) + Seq::empty());
    }
}

// ---------------------------------------------------------------------------
// Foreign encodings
// ---------------------------------------------------------------------------
/// The text of a UTF-16 string, each unpaired surrogate replaced by U+FFFD.
pub open spec fn utf16_text(u: Seq<u16>) -> Seq<char>
    decreases u.len(),
{
    if u.len() == 0 {
        Seq::empty()
    } else if u[0] < 0xD800 || u[0] > 0xDFFF {
        seq![u[0] as char] + utf16_text(u.subrange(1, u.len() as int))
    } else if u[0] < 0xDC00 && u.len() > 1 && 0xDC00 <= u[1] <= 0xDFFF {
        seq![(0x10000 + 0x400 * (u[0] - 0xD800) + (u[1] - 0xDC00)) as char] + utf16_text(
            u.subrange(2, u.len() as int),
        )
    } else {
        seq!['\u{FFFD}'] + utf16_text(u.subrange(1, u.len() as int))
    }
}

/// Calls `String::from_utf16_lossy`, which decodes UTF-16 and puts U+FFFD in the place of
/// each code unit that is an unpaired surrogate.
#[verifier::external_body]
pub(crate) fn utf16_lossy(units: &[u16]) -> (r: String)
    ensures
        r@ == utf16_text(units@),
{
    String::from_utf16_lossy(units)
}

/// Calls `std::str::from_utf8`, which accepts exactly the valid UTF-8 and then gives the
/// characters that the bytes encode.
#[verifier::external_body]
pub(crate) fn utf8(data: &[u8]) -> (r: Option<String>)
    ensures
        r is Some <==> valid_utf8(data@),
        r is Some ==> r->0@ == decode_utf8(data@),
{
    match std::str::from_utf8(data) {
        Ok(s) => Some(s.to_owned()),
        Err(_) => None,
    }
}

} // verus!

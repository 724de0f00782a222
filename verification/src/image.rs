//! What the parser makes of a PE image, told by the bytes of the image alone.
//!
//! The layout is written down here once more, as the format lays it out: little-endian words at
//! fixed distances, sections of forty bytes each, tables that are found through the sections.
//! The laws say that the parser accepts exactly such images and reports exactly their exports.

use crate::bytes::law_values_of_bytes;
use crate::pe::{
    directory_at, dword_at, export_at, exports_of, exports_upto, file_offset, header_at, headers,
    law_last_entry_of_a_name_counts, name_at, name_offset, nul_from, offset_from, rva_at,
    sections_at, tables_of, word_at, Section,
};
use crate::text::hex_text;
use vstd::prelude::*;
use vstd::utf8::{decode_utf8, valid_utf8};

verus! {

// ---------------------------------------------------------------------------
// The format
// ---------------------------------------------------------------------------
/// The 16-bit word at an offset.
pub open spec fn word2(d: Seq<u8>, at: int) -> int {
    d[at] + 0x100 * d[at + 1]
}

/// The 32-bit word at an offset.
pub open spec fn word4(d: Seq<u8>, at: int) -> int {
    d[at] + 0x100 * d[at + 1] + 0x1_0000 * d[at + 2] + 0x100_0000 * d[at + 3]
}

/// Whether the section whose header stands at `h` holds the RVA: it starts at its virtual
/// address and is as long as the larger of its two sizes.
pub open spec fn held_by(d: Seq<u8>, h: int, rva: int) -> bool {
    let start = word4(d, h + 12);
    start <= rva && (rva < start + word4(d, h + 8) || rva < start + word4(d, h + 16))
}

/// Whether the RVA lies at the file offset `off`: in the first of the `n` sections that holds
/// it, as far behind the raw data as it lies behind the virtual address.
pub open spec fn lies_at(d: Seq<u8>, table: int, n: int, rva: int, off: int) -> bool {
    exists|i: int| #[trigger] first_held(d, table, n, rva, i) && off == word4(
        d,
        table + 40 * i + 20,
    ) + rva - word4(d, table + 40 * i + 12)
}

/// Whether the `i`-th section is the first one that holds the RVA.
pub open spec fn first_held(d: Seq<u8>, table: int, n: int, rva: int, i: int) -> bool {
    &&& 0 <= i < n
    &&& held_by(d, table + 40 * i, rva)
    &&& forall|j: int| 0 <= j < i ==> !held_by(d, #[trigger] (table + 40 * j), rva)
}

/// Where the parts of an image lie in the file.
pub struct Image {
    pub pe: int,
    pub table: int,
    pub sections: int,
    pub dir: int,
    pub functions: int,
    pub names: int,
    pub ordinals: int,
}

/// Where the RVA of the export directory stands: in the first data directory, which is further
/// behind in a PE32+ image.
pub open spec fn directory_field(d: Seq<u8>, pe: int) -> int {
    if word2(d, pe + 24) == 0x20B {
        pe + 24 + 112
    } else {
        pe + 24 + 96
    }
}

/// Whether `d` is an image with an export directory whose parts lie where `m` says.
pub open spec fn laid_out(d: Seq<u8>, m: Image) -> bool {
    // the two signatures
    &&& d.len() >= 0x40
    &&& d[0] == 0x4D && d[1] == 0x5A
    &&& m.pe == word4(d, 0x3C)
    &&& m.pe + 26 <= d.len()
    &&& d[m.pe] == 0x50 && d[m.pe + 1] == 0x45 && d[m.pe + 2] == 0 && d[m.pe + 3] == 0
    // the section table stands behind the optional header
    &&& m.sections == word2(d, m.pe + 6)
    &&& m.table == m.pe + 24 + word2(d, m.pe + 20)
    &&& m.sections > 0 ==> m.table + 40 * (m.sections - 1) + 24 <= d.len()
    // the export directory, and its three tables
    &&& directory_field(d, m.pe) + 4 <= d.len()
    &&& word4(d, directory_field(d, m.pe)) != 0
    &&& lies_at(d, m.table, m.sections, word4(d, directory_field(d, m.pe)), m.dir)
    &&& m.dir + 40 <= d.len()
    &&& lies_at(d, m.table, m.sections, word4(d, m.dir + 28), m.functions)
    &&& lies_at(d, m.table, m.sections, word4(d, m.dir + 32), m.names)
    &&& lies_at(d, m.table, m.sections, word4(d, m.dir + 36), m.ordinals)
}

/// Whether the bytes from `s` on are those of `name` and a NUL, 256 bytes at most.
pub open spec fn spelled_at(d: Seq<u8>, s: int, name: Seq<u8>) -> bool {
    &&& name.len() < 256
    &&& s + name.len() < d.len()
    &&& forall|k: int| 0 <= k < name.len() ==> d[s + k] == #[trigger] name[k] && name[k] != 0
    &&& d[s + name.len()] == 0
}

/// Whether the `i`-th entry of the name table exports `name` at `rva`: the name is spelled where
/// the entry points, and the ordinal beside it picks the function.
pub open spec fn entry(d: Seq<u8>, m: Image, i: int, name: Seq<u8>, rva: int) -> bool {
    &&& 0 <= i < word4(d, m.dir + 24)
    &&& m.names + 4 * i + 4 <= d.len()
    &&& exists|s: int| #[trigger]
        lies_at(d, m.table, m.sections, word4(d, m.names + 4 * i), s) && spelled_at(d, s, name)
    &&& valid_utf8(name)
    &&& m.ordinals + 2 * i + 2 <= d.len()
    &&& word2(d, m.ordinals + 2 * i) < word4(d, m.dir + 20)
    &&& m.functions + 4 * word2(d, m.ordinals + 2 * i) + 4 <= d.len()
    &&& rva == word4(d, m.functions + 4 * word2(d, m.ordinals + 2 * i))
}

// ---------------------------------------------------------------------------
// The parser's parts
// ---------------------------------------------------------------------------
proof fn lemma_words(d: Seq<u8>, at: int)
    requires
        0 <= at,
    ensures
        at + 2 <= d.len() ==> (word_at(d, at) matches Ok(v) && v == word2(d, at)),
        at + 4 <= d.len() ==> (dword_at(d, at) matches Ok(v) && v == word4(d, at)),
        at + 2 > d.len() ==> word_at(d, at) is Err,
        at + 4 > d.len() ==> dword_at(d, at) is Err,
{
    if at + 2 <= d.len() {
        law_values_of_bytes(d.subrange(at, at + 2));
    }
    if at + 4 <= d.len() {
        law_values_of_bytes(d.subrange(at, at + 4));
    }
}

/// The section table is the sequence of the forty-byte headers: the `i`-th section has the
/// virtual address, the raw offset and the larger of the two sizes that stand in the `i`-th
/// header. It can be read exactly when the last header lies in the file.
pub proof fn law_sections_are_the_headers(d: Seq<u8>, table: int, n: nat)
    requires
        0 <= table,
    ensures
        sections_at(d, table, n) is Ok <==> (n > 0 ==> table + 40 * (n - 1) + 24 <= d.len()),
        sections_at(d, table, n) matches Ok(s) ==> {
            &&& s.len() == n
            &&& forall|i: int|
                0 <= i < n ==> {
                    let h = table + 40 * i;
                    &&& (#[trigger] s[i]).vaddr == word4(d, h + 12)
                    &&& s[i].raw == word4(d, h + 20)
                    &&& s[i].size >= word4(d, h + 8) && s[i].size >= word4(d, h + 16)
                    &&& s[i].size == word4(d, h + 8) || s[i].size == word4(d, h + 16)
                }
        },
    decreases n,
{
    if n > 0 {
        law_sections_are_the_headers(d, table, (n - 1) as nat);
        let h = table + 40 * (n - 1);
        lemma_words(d, h + 8);
        lemma_words(d, h + 12);
        lemma_words(d, h + 16);
        lemma_words(d, h + 20);
    }
}

proof fn lemma_first(d: Seq<u8>, table: int, s: Seq<Section>, rva: int, from: int)
    requires
        0 <= table,
        0 <= from <= s.len(),
        sections_at(d, table, s.len()) == Ok::<Seq<Section>, Seq<char>>(s),
        forall|j: int| 0 <= j < from ==> !held_by(d, #[trigger] (table + 40 * j), rva),
    ensures
        offset_from(s, rva, from) matches Some(off) ==> lies_at(d, table, s.len() as int, rva, off),
        offset_from(s, rva, from) is None ==> forall|off: int|
            !lies_at(d, table, s.len() as int, rva, off),
    decreases s.len() - from,
{
    law_sections_are_the_headers(d, table, s.len());
    if from < s.len() {
        let h = table + 40 * from;
        assert(s[from].covers(rva) == held_by(d, h, rva));
        if s[from].covers(rva) {
            assert(first_held(d, table, s.len() as int, rva, from));
        } else {
            lemma_first(d, table, s, rva, from + 1);
        }
    } else {
        assert forall|off: int| !lies_at(d, table, s.len() as int, rva, off) by {
            if lies_at(d, table, s.len() as int, rva, off) {
                let i = choose|i: int| #[trigger] first_held(d, table, s.len() as int, rva, i);
                assert(!held_by(d, table + 40 * i, rva));
            }
        }
    }
}

/// An RVA lies at one offset at most.
proof fn lemma_lies_once(d: Seq<u8>, table: int, n: int, rva: int, a: int, b: int)
    requires
        lies_at(d, table, n, rva, a),
        lies_at(d, table, n, rva, b),
    ensures
        a == b,
{
    let i = choose|i: int| #[trigger] first_held(d, table, n, rva, i) && a == word4(
        d,
        table + 40 * i + 20,
    ) + rva - word4(d, table + 40 * i + 12);
    let j = choose|j: int| #[trigger] first_held(d, table, n, rva, j) && b == word4(
        d,
        table + 40 * j + 20,
    ) + rva - word4(d, table + 40 * j + 12);
    if i < j {
        assert(!held_by(d, table + 40 * i, rva));
    }
    if j < i {
        assert(!held_by(d, table + 40 * j, rva));
    }
}

/// An RVA is turned into the file offset at which it lies, and into none where no section holds
/// it.
pub proof fn law_rvas_lie_in_sections(d: Seq<u8>, table: int, s: Seq<Section>, rva: u32, off: int)
    requires
        0 <= table,
        sections_at(d, table, s.len()) == Ok::<Seq<Section>, Seq<char>>(s),
    ensures
        file_offset(s, rva) == Some(off) <==> lies_at(d, table, s.len() as int, rva as int, off),
{
    lemma_first(d, table, s, rva as int, 0);
    if lies_at(d, table, s.len() as int, rva as int, off) {
        let other = file_offset(s, rva)->0;
        lemma_lies_once(d, table, s.len() as int, rva as int, off, other);
    }
}

/// What the headers of an image say, over its bytes.
proof fn lemma_headers(d: Seq<u8>)
    requires
        headers(d) is Ok,
    ensures
        ({
            let pe = word4(d, 0x3C);
            let (s, rva) = headers(d)->Ok_0;
            &&& d.len() >= 0x40
            &&& d[0] == 0x4D && d[1] == 0x5A
            &&& pe + 26 <= d.len()
            &&& d[pe] == 0x50 && d[pe + 1] == 0x45 && d[pe + 2] == 0 && d[pe + 3] == 0
            &&& directory_field(d, pe) + 4 <= d.len()
            &&& rva == word4(d, directory_field(d, pe)) && rva != 0
            &&& s.len() == word2(d, pe + 6)
            &&& sections_at(d, pe + 24 + word2(d, pe + 20), s.len()) == Ok::<
                Seq<Section>,
                Seq<char>,
            >(s)
        }),
{
    lemma_words(d, 0x3C);
    let pe = word4(d, 0x3C);
    assert(header_at(d) is Ok);
    let sig = d.subrange(pe, pe + 4);
    assert(sig[0] == d[pe] && sig[1] == d[pe + 1] && sig[2] == d[pe + 2] && sig[3] == d[pe + 3]);
    lemma_words(d, pe + 6);
    lemma_words(d, pe + 20);
    lemma_words(d, pe + 24);
    lemma_words(d, directory_field(d, pe));
    law_sections_are_the_headers(d, pe + 24 + word2(d, pe + 20), word2(d, pe + 6) as nat);
}

proof fn lemma_headers_back(d: Seq<u8>, m: Image)
    requires
        laid_out(d, m),
    ensures
        headers(d) is Ok,
{
    lemma_words(d, 0x3C);
    let sig = d.subrange(m.pe, m.pe + 4);
    assert(sig =~= seq![0x50u8, 0x45u8, 0u8, 0u8]);
    lemma_words(d, m.pe + 6);
    lemma_words(d, m.pe + 20);
    lemma_words(d, m.pe + 24);
    lemma_words(d, directory_field(d, m.pe));
    law_sections_are_the_headers(d, m.table, m.sections as nat);
}

/// Where the parts are that the parser found.
pub open spec fn image_of(d: Seq<u8>) -> Image {
    let pe = word4(d, 0x3C);
    let t = tables_of(d)->Ok_0;
    let (s, rva) = headers(d)->Ok_0;
    Image {
        pe,
        table: pe + 24 + word2(d, pe + 20),
        sections: word2(d, pe + 6),
        dir: file_offset(s, rva)->0,
        functions: t.functions,
        names: t.names,
        ordinals: t.ordinals,
    }
}

/// An RVA of an image lies behind the start of the file.
proof fn lemma_offset_positive(d: Seq<u8>, table: int, n: int, rva: int, off: int)
    requires
        lies_at(d, table, n, rva, off),
    ensures
        off >= 0,
{
}

/// The tables that the parser finds are those of the image, and it finds them in every image.
proof fn lemma_tables(d: Seq<u8>, m: Image)
    ensures
        tables_of(d) is Ok ==> laid_out(d, image_of(d)),
        laid_out(d, m) ==> tables_of(d) is Ok && m == image_of(d),
        tables_of(d) matches Ok(t) ==> {
            let k = image_of(d);
            &&& t.n_func == word4(d, k.dir + 20)
            &&& t.n_name == word4(d, k.dir + 24)
            &&& t.sections == headers(d)->Ok_0.0
        },
{
    if tables_of(d) is Ok || laid_out(d, m) {
        if laid_out(d, m) {
            lemma_headers_back(d, m);
        }
        lemma_headers(d);
        let pe = word4(d, 0x3C);
        let table = pe + 24 + word2(d, pe + 20);
        let (s, rva) = headers(d)->Ok_0;
        let n = s.len() as int;
        if laid_out(d, m) {
            law_rvas_lie_in_sections(d, table, s, rva, m.dir);
        }
        let dir = file_offset(s, rva)->0;
        law_rvas_lie_in_sections(d, table, s, rva, dir);
        lemma_offset_positive(d, table, n, rva as int, dir);
        lemma_words(d, dir + 20);
        lemma_words(d, dir + 24);
        lemma_words(d, dir + 28);
        lemma_words(d, dir + 32);
        lemma_words(d, dir + 36);
        let t = directory_at(d, dir)->Ok_0;
        if laid_out(d, m) {
            law_rvas_lie_in_sections(d, table, s, t.a_func, m.functions);
            law_rvas_lie_in_sections(d, table, s, t.a_name, m.names);
            law_rvas_lie_in_sections(d, table, s, t.a_ord, m.ordinals);
        }
        if tables_of(d) is Ok {
            law_rvas_lie_in_sections(d, table, s, t.a_func, file_offset(s, t.a_func)->0);
            law_rvas_lie_in_sections(d, table, s, t.a_name, file_offset(s, t.a_name)->0);
            law_rvas_lie_in_sections(d, table, s, t.a_ord, file_offset(s, t.a_ord)->0);
        }
    }
}

proof fn lemma_nul(d: Seq<u8>, s: int, k: int)
    requires
        0 <= s,
        0 <= k,
    ensures
        match nul_from(d, s, k) {
            Some(j) => k <= j < 256 && s + j < d.len() && d[s + j] == 0 && forall|i: int|
                k <= i < j ==> d[#[trigger] (s + i)] != 0,
            None => forall|j: int| k <= j < 256 && s + j < d.len() ==> d[#[trigger] (s + j)] != 0,
        },
    decreases 256 - k,
{
    if k < 256 && s + k < d.len() && d[s + k] != 0 {
        lemma_nul(d, s, k + 1);
    }
}

/// Where a name is spelled, the parser reads it, and what it reads is spelled there.
proof fn lemma_spelled(d: Seq<u8>, s: int, name: Seq<u8>)
    requires
        0 <= s,
    ensures
        spelled_at(d, s, name) ==> nul_from(d, s, 0) == Some(name.len() as int) && d.subrange(
            s,
            s + name.len(),
        ) == name,
        nul_from(d, s, 0) matches Some(k) ==> spelled_at(d, s, d.subrange(s, s + k)),
{
    lemma_nul(d, s, 0);
    if spelled_at(d, s, name) {
        let n = name.len() as int;
        assert(d[s + n] == 0);
        match nul_from(d, s, 0) {
            Some(k) => {
                if k < n {
                    assert(name[k] != 0);
                }
                if n < k {
                    assert(d[s + n] != 0);
                }
            },
            None => {
                assert(d[s + n] != 0);
            },
        }
        assert(d.subrange(s, s + n) =~= name);
    }
    if let Some(k) = nul_from(d, s, 0) {
        let b = d.subrange(s, s + k);
        assert forall|i: int| 0 <= i < b.len() implies d[s + i] == #[trigger] b[i] && b[i] != 0 by {
            assert(d[s + i] != 0);
        }
    }
}

/// The `i`-th export of the parser is the `i`-th entry of the image.
proof fn lemma_entry(d: Seq<u8>, m: Image, i: int, name: Seq<u8>, rva: int)
    requires
        laid_out(d, m),
        0 <= i < word4(d, m.dir + 24),
    ensures
        ({
            let t = tables_of(d)->Ok_0;
            &&& entry(d, m, i, name, rva) ==> (export_at(d, t, i) matches Some((n, r)) && n
                == decode_utf8(name) && r == rva)
            &&& export_at(d, t, i) matches Some((n, r)) ==> exists|b: Seq<u8>| #[trigger]
                entry(d, m, i, b, r as int) && decode_utf8(b) == n
        }),
{
    lemma_tables(d, m);
    lemma_headers(d);
    let t = tables_of(d)->Ok_0;
    let n = m.sections;
    lemma_offset_positive(d, m.table, n, word4(d, m.dir + 28), m.functions);
    lemma_offset_positive(d, m.table, n, word4(d, m.dir + 32), m.names);
    lemma_offset_positive(d, m.table, n, word4(d, m.dir + 36), m.ordinals);
    lemma_words(d, m.names + 4 * i);
    lemma_words(d, m.ordinals + 2 * i);
    if m.ordinals + 2 * i + 2 <= d.len() {
        lemma_words(d, m.functions + 4 * word2(d, m.ordinals + 2 * i));
    }
    if m.names + 4 * i + 4 <= d.len() {
        let at = word4(d, m.names + 4 * i) as u32;
        if entry(d, m, i, name, rva) {
            let s = choose|s: int| #[trigger]
                lies_at(d, m.table, n, at as int, s) && spelled_at(d, s, name);
            law_rvas_lie_in_sections(d, m.table, t.sections, at, s);
            lemma_offset_positive(d, m.table, n, at as int, s);
            lemma_spelled(d, s, name);
            assert(name_offset(d, t, i) == Some(s));
            assert(name_at(d, t, i) == Some(decode_utf8(name)));
            assert(rva_at(d, t, i) == Some(rva as u32));
        }
        if let Some((x, r)) = export_at(d, t, i) {
            let s = name_offset(d, t, i)->0;
            law_rvas_lie_in_sections(d, m.table, t.sections, at, s);
            lemma_offset_positive(d, m.table, n, at as int, s);
            lemma_spelled(d, s, name);
            let k = nul_from(d, s, 0)->0;
            let b = d.subrange(s, s + k);
            assert(lies_at(d, m.table, n, at as int, s) && spelled_at(d, s, b));
            assert(entry(d, m, i, b, r as int));
        }
    }
}

/// Whether some entry of the image exports `name`.
pub open spec fn exported(d: Seq<u8>, m: Image, name: Seq<char>) -> bool {
    exists|i: int, b: Seq<u8>, rva: int| #[trigger]
        entry(d, m, i, b, rva) && decode_utf8(b) == name
}

/// Of an image, the parser reports exactly the exports: every name that an entry spells, at the
/// RVA of the last entry that spells it; and it refuses the image exactly when there is none.
pub proof fn law_exports_are_the_entries(d: Seq<u8>, m: Image)
    requires
        laid_out(d, m),
    ensures
        match exports_of(d) {
            Ok(x) => {
                &&& forall|name: Seq<char>| #[trigger] x.contains_key(name) <==> exported(d, m, name)
                &&& forall|i: int, b: Seq<u8>, rva: int|
                    (#[trigger] entry(d, m, i, b, rva) && forall|j: int, c: Seq<u8>, r: int|
                        i < j && #[trigger] entry(d, m, j, c, r) ==> decode_utf8(c) != decode_utf8(
                            b,
                        )) ==> x[decode_utf8(b)] == rva
                &&& exists|name: Seq<char>| exported(d, m, name)
            },
            Err(_) => forall|name: Seq<char>| !exported(d, m, name),
        },
{
    lemma_tables(d, m);
    let t = tables_of(d)->Ok_0;
    let n = t.n_name as int;
    let x = exports_upto(d, t, n);
    assert forall|name: Seq<char>| #[trigger] x.contains_key(name) <==> exported(d, m, name) by {
        law_last_entry_of_a_name_counts(d, t, n, name);
        if x.contains_key(name) {
            let i = choose|i: int|
                0 <= i < n && (#[trigger] export_at(d, t, i) matches Some((k, _)) && k == name);
            lemma_entry(d, m, i, Seq::empty(), 0);
        }
        if exported(d, m, name) {
            let (i, b, rva) = choose|i: int, b: Seq<u8>, rva: int| #[trigger]
                entry(d, m, i, b, rva) && decode_utf8(b) == name;
            lemma_entry(d, m, i, b, rva);
        }
    }
    assert forall|i: int, b: Seq<u8>, rva: int|
        (#[trigger] entry(d, m, i, b, rva) && forall|j: int, c: Seq<u8>, r: int|
            i < j && #[trigger] entry(d, m, j, c, r) ==> decode_utf8(c) != decode_utf8(
                b,
            )) implies x[decode_utf8(b)] == rva by {
        lemma_entry(d, m, i, b, rva);
        let name = decode_utf8(b);
        law_last_entry_of_a_name_counts(d, t, n, name);
        assert forall|j: int| i < j < n implies (#[trigger] export_at(d, t, j) matches Some((k, _))
            ==> k != name) by {
            lemma_entry(d, m, j, Seq::empty(), 0);
        }
    }
    if x.is_empty() {
        assert forall|name: Seq<char>| !exported(d, m, name) by {
            assert(!x.contains_key(name));
        }
    } else {
        assert(exists|name: Seq<char>| x.contains_key(name)) by {
            if forall|name: Seq<char>| !x.contains_key(name) {
                assert(x.dom() =~= Set::empty());
            }
        }
    }
}

/// Nothing but an image is accepted: where exports are reported, the file is laid out as one.
pub proof fn law_only_images_are_accepted(d: Seq<u8>)
    ensures
        exports_of(d) is Ok ==> exists|m: Image| laid_out(d, m),
{
    lemma_tables(d, image_of(d));
}

/// Whether the headers of the file can be read: both signatures are in place, and the fields
/// behind them and the section table lie in the file.
pub open spec fn has_headers(d: Seq<u8>) -> bool {
    let pe = word4(d, 0x3C);
    &&& d.len() >= 0x40 && d[0] == 0x4D && d[1] == 0x5A
    &&& pe + 26 <= d.len()
    &&& d[pe] == 0x50 && d[pe + 1] == 0x45 && d[pe + 2] == 0 && d[pe + 3] == 0
    &&& directory_field(d, pe) + 4 <= d.len()
    &&& word2(d, pe + 6) > 0 ==> pe + 24 + word2(d, pe + 20) + 40 * (word2(d, pe + 6) - 1) + 24
        <= d.len()
}

/// Whether no section holds the RVA.
pub open spec fn lies_nowhere(d: Seq<u8>, rva: int) -> bool {
    let pe = word4(d, 0x3C);
    forall|off: int|
        !#[trigger] lies_at(d, pe + 24 + word2(d, pe + 20), word2(d, pe + 6), rva, off)
}

/// A file is refused for what it lacks: the first signature, the second one, or an export
/// directory.
pub proof fn law_refusals_by_the_headers(d: Seq<u8>)
    ensures
        d.len() < 0x40 || d[0] != 0x4D || d[1] != 0x5A ==> exports_of(d) == Err::<
            Map<Seq<char>, u32>,
            Seq<char>,
        >("不是 PE 文件（缺少 MZ 头）"@),
        d.len() >= 0x40 && d[0] == 0x4D && d[1] == 0x5A && ({
            let pe = word4(d, 0x3C);
            ||| pe + 4 > d.len()
            ||| d[pe] != 0x50 || d[pe + 1] != 0x45 || d[pe + 2] != 0 || d[pe + 3] != 0
        }) ==> exports_of(d) == Err::<Map<Seq<char>, u32>, Seq<char>>(
            "不是 PE 文件（缺少 PE 签名）"@,
        ),
        has_headers(d) && word4(d, directory_field(d, word4(d, 0x3C))) == 0 ==> exports_of(d)
            == Err::<Map<Seq<char>, u32>, Seq<char>>("该 DLL 没有导出表"@),
{
    if d.len() >= 0x40 && d[0] == 0x4D && d[1] == 0x5A {
        lemma_words(d, 0x3C);
        let pe = word4(d, 0x3C);
        if pe + 4 <= d.len() {
            let sig = d.subrange(pe, pe + 4);
            let good = seq![0x50u8, 0x45u8, 0u8, 0u8];
            assert(sig[0] == d[pe] && sig[1] == d[pe + 1] && sig[2] == d[pe + 2] && sig[3] == d[pe
                + 3]);
            assert(good[0] == 0x50 && good[1] == 0x45 && good[2] == 0 && good[3] == 0);
            if d[pe] == 0x50 && d[pe + 1] == 0x45 && d[pe + 2] == 0 && d[pe + 3] == 0 {
                assert(sig =~= good);
            }
        }
        if has_headers(d) {
            lemma_words(d, pe + 6);
            lemma_words(d, pe + 20);
            lemma_words(d, pe + 24);
            lemma_words(d, directory_field(d, pe));
        }
    }
}

/// A file with an export directory is refused for what its sections do not hold: the directory,
/// the functions, the names or the ordinals.
pub proof fn law_refusals_by_the_sections(d: Seq<u8>, dir: int)
    requires
        has_headers(d),
        word4(d, directory_field(d, word4(d, 0x3C))) != 0,
    ensures
        ({
            let pe = word4(d, 0x3C);
            let table = pe + 24 + word2(d, pe + 20);
            let rva = word4(d, directory_field(d, pe));
            &&& lies_nowhere(d, rva) ==> exports_of(d) == Err::<Map<Seq<char>, u32>, Seq<char>>(
                "导出表 RVA 不在任何段内"@,
            )
            &&& lies_at(d, table, word2(d, pe + 6), rva, dir) && dir + 40 <= d.len() ==> {
                &&& lies_nowhere(d, word4(d, dir + 28)) ==> exports_of(d) == Err::<
                    Map<Seq<char>, u32>,
                    Seq<char>,
                >("函数地址表越界"@)
                &&& !lies_nowhere(d, word4(d, dir + 28)) && lies_nowhere(d, word4(d, dir + 32))
                    ==> exports_of(d) == Err::<Map<Seq<char>, u32>, Seq<char>>("函数名表越界"@)
                &&& !lies_nowhere(d, word4(d, dir + 28)) && !lies_nowhere(d, word4(d, dir + 32))
                    && lies_nowhere(d, word4(d, dir + 36)) ==> exports_of(d) == Err::<
                    Map<Seq<char>, u32>,
                    Seq<char>,
                >("序号表越界"@)
            }
        }),
{
    let pe = word4(d, 0x3C);
    let table = pe + 24 + word2(d, pe + 20);
    let n = word2(d, pe + 6);
    lemma_words(d, 0x3C);
    assert(d.subrange(pe, pe + 4) =~= seq![0x50u8, 0x45u8, 0u8, 0u8]);
    lemma_words(d, pe + 6);
    lemma_words(d, pe + 20);
    lemma_words(d, pe + 24);
    lemma_words(d, directory_field(d, pe));
    law_sections_are_the_headers(d, table, n as nat);
    assert(headers(d) is Ok);
    let (s, rva) = headers(d)->Ok_0;
    lemma_nowhere(d, table, s, rva);
    law_rvas_lie_in_sections(d, table, s, rva, dir);
    if lies_at(d, table, n, rva as int, dir) && dir + 40 <= d.len() {
        lemma_offset_positive(d, table, n, rva as int, dir);
        lemma_words(d, dir + 20);
        lemma_words(d, dir + 24);
        lemma_words(d, dir + 28);
        lemma_words(d, dir + 32);
        lemma_words(d, dir + 36);
        let t = directory_at(d, dir)->Ok_0;
        lemma_nowhere(d, table, s, t.a_func);
        lemma_nowhere(d, table, s, t.a_name);
        lemma_nowhere(d, table, s, t.a_ord);
    }
}

proof fn lemma_nowhere(d: Seq<u8>, table: int, s: Seq<Section>, rva: u32)
    requires
        0 <= table,
        table == word4(d, 0x3C) + 24 + word2(d, word4(d, 0x3C) + 20),
        s.len() == word2(d, word4(d, 0x3C) + 6),
        sections_at(d, table, s.len()) == Ok::<Seq<Section>, Seq<char>>(s),
    ensures
        lies_nowhere(d, rva as int) <==> file_offset(s, rva) is None,
{
    lemma_first(d, table, s, rva as int, 0);
}

/// An image without any export is refused as such.
pub proof fn law_an_image_without_exports_is_refused(d: Seq<u8>, m: Image)
    requires
        laid_out(d, m),
        forall|name: Seq<char>| !exported(d, m, name),
    ensures
        exports_of(d) == Err::<Map<Seq<char>, u32>, Seq<char>>("导出表解析结果为空"@),
{
    law_exports_are_the_entries(d, m);
    lemma_tables(d, m);
}

/// A field is read where it lies, as far as the file reaches; otherwise the message names the
/// place.
pub proof fn law_fields_are_read_in_place(d: Seq<u8>, at: int)
    requires
        0 <= at,
    ensures
        match word_at(d, at) {
            Ok(v) => at + 2 <= d.len() && v == word2(d, at),
            Err(e) => at + 2 > d.len() && e == "读取 u16 越界 @0x"@ + hex_text(at as nat),
        },
        match dword_at(d, at) {
            Ok(v) => at + 4 <= d.len() && v == word4(d, at),
            Err(e) => at + 4 > d.len() && e == "读取 u32 越界 @0x"@ + hex_text(at as nat),
        },
{
    lemma_words(d, at);
}

} // verus!

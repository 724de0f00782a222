//! A minimal parser for the export table of a PE image.
//!
//! Given the content of a DLL it lists which name is exported at which RVA. An RVA does not
//! depend on where the DLL is loaded, so one look at the file on disk, plus the base address
//! in the target process, gives every function's address there.

use crate::bytes::{le_value, u16_from_le, u32_from_le};
use crate::text::{hex, hex_text, utf8};
use vstd::hash_map::StringHashMap;
use vstd::prelude::*;
use vstd::string::*;
use vstd::utf8::{decode_utf8, valid_utf8};

verus! {

/// Whether a result carries the value, or the message, that `s` gives.
pub open spec fn agrees<T>(r: Result<T, String>, s: Result<T, Seq<char>>) -> bool {
    match (r, s) {
        (Ok(v), Ok(w)) => v == w,
        (Err(m), Err(t)) => m@ == t,
        _ => false,
    }
}

/// The 16-bit field at `off`, or the message that it lies outside the file.
pub open spec fn word_at(d: Seq<u8>, off: int) -> Result<u16, Seq<char>> {
    if off + 2 <= d.len() {
        Ok(le_value(d.subrange(off, off + 2)) as u16)
    } else {
        Err("读取 u16 越界 @0x"@ + hex_text(off as nat))
    }
}

/// The 32-bit field at `off`, or the message that it lies outside the file.
pub open spec fn dword_at(d: Seq<u8>, off: int) -> Result<u32, Seq<char>> {
    if off + 4 <= d.len() {
        Ok(le_value(d.subrange(off, off + 4)) as u32)
    } else {
        Err("读取 u32 越界 @0x"@ + hex_text(off as nat))
    }
}

/// Reads the 16-bit field at `off`.
pub fn u16_at(d: &[u8], off: u64) -> (r: Result<u16, String>)
    requires
        off + 2 <= u64::MAX,
    ensures
        agrees(r, word_at(d@, off as int)),
{
    if off + 2 <= d.len() as u64 {
        let i: usize = off as usize;
        assert(seq![d[i as int], d[i + 1]] =~= d@.subrange(off as int, off + 2));
        Ok(u16_from_le(d[i], d[i + 1]))
    } else {
        Err("读取 u16 越界 @0x".to_owned().concat(hex(off).as_str()))
    }
}

/// Reads the 32-bit field at `off`.
pub fn u32_at(d: &[u8], off: u64) -> (r: Result<u32, String>)
    requires
        off + 4 <= u64::MAX,
    ensures
        agrees(r, dword_at(d@, off as int)),
{
    if off + 4 <= d.len() as u64 {
        let i: usize = off as usize;
        assert(seq![d[i as int], d[i + 1], d[i + 2], d[i + 3]] =~= d@.subrange(
            off as int,
            off + 4,
        ));
        Ok(u32_from_le(d[i], d[i + 1], d[i + 2], d[i + 3]))
    } else {
        Err("读取 u32 越界 @0x".to_owned().concat(hex(off).as_str()))
    }
}

/// Where one section of the image lies, in memory and in the file.
#[derive(Clone, Copy)]
pub struct Section {
    /// RVA of the first byte.
    pub vaddr: u32,
    /// The larger of the size in memory and the size in the file.
    pub size: u32,
    /// File offset of the first byte.
    pub raw: u32,
}

impl Section {
    /// Whether the RVA lies in the section.
    pub open spec fn covers(self, rva: int) -> bool {
        self.vaddr <= rva < self.vaddr + self.size
    }
}

/// The section header at file offset `o`: its fields are `Name`, eight bytes long, then
/// `VirtualSize`, `VirtualAddress`, `SizeOfRawData` and `PointerToRawData`.
pub open spec fn section_at(d: Seq<u8>, o: int) -> Result<Section, Seq<char>> {
    match dword_at(d, o + 8) {
        Err(e) => Err(e),
        Ok(vsize) => match dword_at(d, o + 12) {
            Err(e) => Err(e),
            Ok(vaddr) => match dword_at(d, o + 16) {
                Err(e) => Err(e),
                Ok(rsize) => match dword_at(d, o + 20) {
                    Err(e) => Err(e),
                    Ok(raw) => Ok(
                        Section {
                            vaddr,
                            size: if vsize >= rsize {
                                vsize
                            } else {
                                rsize
                            },
                            raw,
                        },
                    ),
                },
            },
        },
    }
}

/// The first `n` entries of the section table at file offset `table`.
pub open spec fn sections_at(d: Seq<u8>, table: int, n: nat) -> Result<Seq<Section>, Seq<char>>
    decreases n,
{
    if n == 0 {
        Ok(Seq::empty())
    } else {
        match sections_at(d, table, (n - 1) as nat) {
            Err(e) => Err(e),
            Ok(before) => match section_at(d, table + 40 * (n - 1)) {
                Err(e) => Err(e),
                Ok(s) => Ok(before.push(s)),
            },
        }
    }
}

/// The file offset of an RVA, by the first section from `i` on that covers it.
pub open spec fn offset_from(sections: Seq<Section>, rva: int, i: int) -> Option<int>
    decreases sections.len() - i,
{
    if i < 0 || i >= sections.len() {
        None
    } else if sections[i].covers(rva) {
        Some(sections[i].raw + (rva - sections[i].vaddr))
    } else {
        offset_from(sections, rva, i + 1)
    }
}

/// The file offset of an RVA, by the first section that covers it.
pub open spec fn file_offset(sections: Seq<Section>, rva: u32) -> Option<int> {
    offset_from(sections, rva as int, 0)
}

/// The file offset of the PE header, once both signatures are in place.
pub open spec fn header_at(d: Seq<u8>) -> Result<u32, Seq<char>> {
    if d.len() < 0x40 || d[0] != 0x4D || d[1] != 0x5A {
        Err("不是 PE 文件（缺少 MZ 头）"@)
    } else {
        match dword_at(d, 0x3C) {
            Err(e) => Err(e),
            Ok(pe) => if pe + 4 <= d.len() && d.subrange(pe as int, pe + 4) == seq![
                0x50u8,
                0x45u8,
                0u8,
                0u8,
            ] {
                Ok(pe)
            } else {
                Err("不是 PE 文件（缺少 PE 签名）"@)
            },
        }
    }
}

/// What the headers say: the sections, and the RVA of the export directory.
///
/// The data directories start 112 bytes into a PE32+ optional header, 96 bytes into any
/// other.
pub open spec fn headers(d: Seq<u8>) -> Result<(Seq<Section>, u32), Seq<char>> {
    match header_at(d) {
        Err(e) => Err(e),
        Ok(pe) => match word_at(d, pe + 6) {
            Err(e) => Err(e),
            Ok(n_sections) => match word_at(d, pe + 20) {
                Err(e) => Err(e),
                Ok(opt_size) => match word_at(d, pe + 24) {
                    Err(e) => Err(e),
                    Ok(magic) => match dword_at(
                        d,
                        pe + 24 + (if magic == 0x20B {
                            112int
                        } else {
                            96
                        }),
                    ) {
                        Err(e) => Err(e),
                        Ok(rva) => if rva == 0 {
                            Err("该 DLL 没有导出表"@)
                        } else {
                            match sections_at(d, pe + 24 + opt_size, n_sections as nat) {
                                Err(e) => Err(e),
                                Ok(sections) => Ok((sections, rva)),
                            }
                        },
                    },
                },
            },
        },
    }
}

/// The export directory: how many functions and names there are, and the RVAs of the
/// function, name and ordinal tables.
pub struct Directory {
    pub n_func: u32,
    pub n_name: u32,
    pub a_func: u32,
    pub a_name: u32,
    pub a_ord: u32,
}

/// The export directory at file offset `dir`.
pub open spec fn directory_at(d: Seq<u8>, dir: int) -> Result<Directory, Seq<char>> {
    match dword_at(d, dir + 20) {
        Err(e) => Err(e),
        Ok(n_func) => match dword_at(d, dir + 24) {
            Err(e) => Err(e),
            Ok(n_name) => match dword_at(d, dir + 28) {
                Err(e) => Err(e),
                Ok(a_func) => match dword_at(d, dir + 32) {
                    Err(e) => Err(e),
                    Ok(a_name) => match dword_at(d, dir + 36) {
                        Err(e) => Err(e),
                        Ok(a_ord) => Ok(Directory { n_func, n_name, a_func, a_name, a_ord }),
                    },
                },
            },
        },
    }
}

/// The sections of an image and the file offsets of its three export tables.
pub struct TablesView {
    pub sections: Seq<Section>,
    pub n_func: u32,
    pub n_name: u32,
    pub functions: int,
    pub names: int,
    pub ordinals: int,
}

/// The export tables of an image. All three RVAs are turned into file offsets.
pub open spec fn tables_of(d: Seq<u8>) -> Result<TablesView, Seq<char>> {
    match headers(d) {
        Err(e) => Err(e),
        Ok((sections, rva)) => match file_offset(sections, rva) {
            None => Err("导出表 RVA 不在任何段内"@),
            Some(dir) => match directory_at(d, dir) {
                Err(e) => Err(e),
                Ok(t) => match file_offset(sections, t.a_func) {
                    None => Err("函数地址表越界"@),
                    Some(functions) => match file_offset(sections, t.a_name) {
                        None => Err("函数名表越界"@),
                        Some(names) => match file_offset(sections, t.a_ord) {
                            None => Err("序号表越界"@),
                            Some(ordinals) => Ok(
                                TablesView {
                                    sections,
                                    n_func: t.n_func,
                                    n_name: t.n_name,
                                    functions,
                                    names,
                                    ordinals,
                                },
                            ),
                        },
                    },
                },
            },
        },
    }
}

/// How far behind `s` the first NUL byte lies, looking at 256 bytes from the `k`-th on.
pub open spec fn nul_from(d: Seq<u8>, s: int, k: int) -> Option<int>
    decreases 256 - k,
{
    if k >= 256 || s + k >= d.len() {
        None
    } else if d[s + k] == 0 {
        Some(k)
    } else {
        nul_from(d, s, k + 1)
    }
}

/// The file offset of the `i`-th exported name.
pub open spec fn name_offset(d: Seq<u8>, t: TablesView, i: int) -> Option<int> {
    match dword_at(d, t.names + 4 * i) {
        Err(_) => None,
        Ok(rva) => file_offset(t.sections, rva),
    }
}

/// The `i`-th exported name: UTF-8, ended by a NUL within 256 bytes.
pub open spec fn name_at(d: Seq<u8>, t: TablesView, i: int) -> Option<Seq<char>> {
    match name_offset(d, t, i) {
        None => None,
        Some(s) => match nul_from(d, s, 0) {
            None => None,
            Some(k) => if valid_utf8(d.subrange(s, s + k)) {
                Some(decode_utf8(d.subrange(s, s + k)))
            } else {
                None
            },
        },
    }
}

/// The RVA that belongs to the `i`-th exported name, found through its ordinal.
pub open spec fn rva_at(d: Seq<u8>, t: TablesView, i: int) -> Option<u32> {
    match word_at(d, t.ordinals + 2 * i) {
        Err(_) => None,
        Ok(ordinal) => if ordinal < t.n_func {
            match dword_at(d, t.functions + 4 * ordinal) {
                Err(_) => None,
                Ok(rva) => Some(rva),
            }
        } else {
            None
        },
    }
}

/// The `i`-th export. An entry any part of which cannot be read is none.
pub open spec fn export_at(d: Seq<u8>, t: TablesView, i: int) -> Option<(Seq<char>, u32)> {
    match (name_at(d, t, i), rva_at(d, t, i)) {
        (Some(name), Some(rva)) => Some((name, rva)),
        _ => None,
    }
}

/// The first `n` exports as a map. Of two exports of one name the later one counts.
pub open spec fn exports_upto(d: Seq<u8>, t: TablesView, n: int) -> Map<Seq<char>, u32>
    decreases n,
{
    if n <= 0 {
        Map::empty()
    } else {
        match export_at(d, t, n - 1) {
            Some((name, rva)) => exports_upto(d, t, n - 1).insert(name, rva),
            None => exports_upto(d, t, n - 1),
        }
    }
}

/// What an image exports, or why it has no readable exports.
pub open spec fn exports_of(d: Seq<u8>) -> Result<Map<Seq<char>, u32>, Seq<char>> {
    match tables_of(d) {
        Err(e) => Err(e),
        Ok(t) => if exports_upto(d, t, t.n_name as int).is_empty() {
            Err("导出表解析结果为空"@)
        } else {
            Ok(exports_upto(d, t, t.n_name as int))
        },
    }
}

/// Whether every name that a section maps into the file starts inside it.
pub open spec fn names_in_file(d: Seq<u8>) -> bool {
    tables_of(d) matches Ok(t) ==> forall|i: int|
        0 <= i < t.n_name ==> (#[trigger] name_offset(d, t, i) matches Some(s) ==> s <= d.len())
}

/// The sections of an image and the file offsets of its three export tables.
struct Tables {
    sections: Vec<Section>,
    n_func: u32,
    n_name: u32,
    functions: u64,
    names: u64,
    ordinals: u64,
}

impl View for Tables {
    type V = TablesView;

    closed spec fn view(&self) -> TablesView {
        TablesView {
            sections: self.sections@,
            n_func: self.n_func,
            n_name: self.n_name,
            functions: self.functions as int,
            names: self.names as int,
            ordinals: self.ordinals as int,
        }
    }
}

impl Tables {
    /// File offsets stay far away from the limits of 64 bits.
    spec fn bounded(&self) -> bool {
        &&& self.functions < 0x2_0000_0000
        &&& self.names < 0x2_0000_0000
        &&& self.ordinals < 0x2_0000_0000
    }
}

/// Turns an RVA into a file offset.
fn rva_to_off(sections: &Vec<Section>, rva: u32) -> (r: Option<u64>)
    ensures
        match (r, file_offset(sections@, rva)) {
            (Some(o), Some(p)) => o == p && o < 0x2_0000_0000,
            (None, None) => true,
            _ => false,
        },
{
    let mut i: usize = 0;
    while i < sections.len()
        invariant
            i <= sections.len(),
            offset_from(sections@, rva as int, i as int) == file_offset(sections@, rva),
        decreases sections.len() - i,
    {
        let s: Section = sections[i];
        if rva >= s.vaddr && (rva as u64) < s.vaddr as u64 + s.size as u64 {
            return Some(s.raw as u64 + (rva - s.vaddr) as u64);
        }
        i = i + 1;
    }
    None
}

/// Reads one section header.
fn read_section(d: &[u8], o: u64) -> (r: Result<Section, String>)
    requires
        o + 24 <= u64::MAX,
    ensures
        agrees(r, section_at(d@, o as int)),
{
    let vsize: u32 = u32_at(d, o + 8)?;
    let vaddr: u32 = u32_at(d, o + 12)?;
    let rsize: u32 = u32_at(d, o + 16)?;
    let raw: u32 = u32_at(d, o + 20)?;
    Ok(
        Section {
            vaddr,
            size: if vsize >= rsize {
                vsize
            } else {
                rsize
            },
            raw,
        },
    )
}

/// The section table as soon as one of its first entries is unreadable.
proof fn lemma_sections_err(d: Seq<u8>, table: int, i: nat, n: nat)
    requires
        i <= n,
        sections_at(d, table, i) is Err,
    ensures
        sections_at(d, table, n) == sections_at(d, table, i),
    decreases n - i,
{
    if i < n {
        lemma_sections_err(d, table, i, (n - 1) as nat);
    }
}

/// Reads the section table.
fn read_sections(d: &[u8], table: u64, n: u16) -> (r: Result<Vec<Section>, String>)
    requires
        table < 0x2_0000_0000,
    ensures
        match (r, sections_at(d@, table as int, n as nat)) {
            (Ok(v), Ok(w)) => v@ == w,
            (Err(m), Err(t)) => m@ == t,
            _ => false,
        },
{
    let mut sections: Vec<Section> = Vec::with_capacity(n as usize);
    let mut i: u16 = 0;
    while i < n
        invariant
            i <= n,
            table < 0x2_0000_0000,
            sections_at(d@, table as int, i as nat) == Ok::<Seq<Section>, Seq<char>>(sections@),
        decreases n - i,
    {
        match read_section(d, table + (i as u64) * 40) {
            Ok(s) => {
                sections.push(s);
            },
            Err(e) => {
                proof {
                    lemma_sections_err(d@, table as int, (i + 1) as nat, n as nat);
                }
                return Err(e);
            },
        }
        i = i + 1;
    }
    Ok(sections)
}

/// Finds the PE header.
fn find_header(d: &[u8]) -> (r: Result<u32, String>)
    ensures
        agrees(r, header_at(d@)),
{
    if d.len() < 0x40 || d[0] != 0x4D || d[1] != 0x5A {
        return Err("不是 PE 文件（缺少 MZ 头）".to_owned());
    }
    let pe: u32 = u32_at(d, 0x3C)?;
    if pe as u64 + 4 <= d.len() as u64 {
        let i: usize = pe as usize;
        let ghost found = d@.subrange(pe as int, pe + 4);
        let ghost wanted = seq![0x50u8, 0x45u8, 0u8, 0u8];
        if d[i] == 0x50 && d[i + 1] == 0x45 && d[i + 2] == 0 && d[i + 3] == 0 {
            assert(found =~= wanted);
            return Ok(pe);
        }
        proof {
            assert(found[0] == d@[i as int] && found[1] == d@[i + 1] && found[2] == d@[i + 2]
                && found[3] == d@[i + 3]);
            assert(wanted[0] == 0x50 && wanted[1] == 0x45 && wanted[2] == 0 && wanted[3] == 0);
        }
    }
    Err("不是 PE 文件（缺少 PE 签名）".to_owned())
}

/// Reads the headers.
fn read_headers(d: &[u8]) -> (r: Result<(Vec<Section>, u32), String>)
    ensures
        match (r, headers(d@)) {
            (Ok((v, a)), Ok((w, b))) => v@ == w && a == b,
            (Err(m), Err(t)) => m@ == t,
            _ => false,
        },
{
    let pe: u64 = find_header(d)? as u64;
    let n_sections: u16 = u16_at(d, pe + 6)?;
    let opt_size: u16 = u16_at(d, pe + 20)?;
    let opt_off: u64 = pe + 24;
    let magic: u16 = u16_at(d, opt_off)?;
    let dd_off: u64 = opt_off + (if magic == 0x20B {
        112
    } else {
        96
    });
    let rva: u32 = u32_at(d, dd_off)?;
    if rva == 0 {
        return Err("该 DLL 没有导出表".to_owned());
    }
    let sections: Vec<Section> = read_sections(d, opt_off + opt_size as u64, n_sections)?;
    Ok((sections, rva))
}

/// Reads the export directory.
fn read_directory(d: &[u8], dir: u64) -> (r: Result<Directory, String>)
    requires
        dir < 0x2_0000_0000,
    ensures
        agrees(r, directory_at(d@, dir as int)),
{
    let n_func: u32 = u32_at(d, dir + 20)?;
    let n_name: u32 = u32_at(d, dir + 24)?;
    let a_func: u32 = u32_at(d, dir + 28)?;
    let a_name: u32 = u32_at(d, dir + 32)?;
    let a_ord: u32 = u32_at(d, dir + 36)?;
    Ok(Directory { n_func, n_name, a_func, a_name, a_ord })
}

/// Finds the export tables.
fn read_tables(d: &[u8]) -> (r: Result<Tables, String>)
    ensures
        match (r, tables_of(d@)) {
            (Ok(t), Ok(w)) => t@ == w && t.bounded(),
            (Err(m), Err(t)) => m@ == t,
            _ => false,
        },
{
    let (sections, rva) = read_headers(d)?;
    let dir: u64 = match rva_to_off(&sections, rva) {
        Some(o) => o,
        None => return Err("导出表 RVA 不在任何段内".to_owned()),
    };
    let t: Directory = read_directory(d, dir)?;
    let functions: u64 = match rva_to_off(&sections, t.a_func) {
        Some(o) => o,
        None => return Err("函数地址表越界".to_owned()),
    };
    let names: u64 = match rva_to_off(&sections, t.a_name) {
        Some(o) => o,
        None => return Err("函数名表越界".to_owned()),
    };
    let ordinals: u64 = match rva_to_off(&sections, t.a_ord) {
        Some(o) => o,
        None => return Err("序号表越界".to_owned()),
    };
    Ok(Tables { sections, n_func: t.n_func, n_name: t.n_name, functions, names, ordinals })
}

/// Finds the file offset of the `i`-th name.
fn find_name(d: &[u8], t: &Tables, i: u32) -> (r: Option<u64>)
    requires
        t.bounded(),
    ensures
        match (r, name_offset(d@, t@, i as int)) {
            (Some(o), Some(p)) => o == p && o < 0x2_0000_0000,
            (None, None) => true,
            _ => false,
        },
{
    match u32_at(d, t.names + (i as u64) * 4) {
        Ok(rva) => rva_to_off(&t.sections, rva),
        Err(_) => None,
    }
}

/// Reads the NUL-terminated name at `s`.
fn read_name(d: &[u8], s: u64) -> (r: Option<String>)
    requires
        s <= d@.len(),
    ensures
        match (r, nul_from(d@, s as int, 0)) {
            (Some(n), Some(k)) => valid_utf8(d@.subrange(s as int, s + k)) && n@ == decode_utf8(
                d@.subrange(s as int, s + k),
            ),
            (None, Some(k)) => !valid_utf8(d@.subrange(s as int, s + k)),
            (Some(_), None) => false,
            (None, None) => true,
        },
{
    let n: usize = d.len();
    let at: usize = s as usize;
    let mut k: usize = 0;
    while k < 256 && k < n - at && d[at + k] != 0
        invariant
            n == d@.len(),
            at <= n,
            k <= 256,
            k <= n - at,
            nul_from(d@, at as int, k as int) == nul_from(d@, at as int, 0),
        decreases 256 - k,
    {
        k = k + 1;
    }
    if k >= 256 || k >= n - at {
        return None;
    }
    utf8(&d[at..at + k])
}

/// Reads the RVA that belongs to the `i`-th name.
fn read_rva(d: &[u8], t: &Tables, i: u32) -> (r: Option<u32>)
    requires
        t.bounded(),
    ensures
        r == rva_at(d@, t@, i as int),
{
    match u16_at(d, t.ordinals + (i as u64) * 2) {
        Err(_) => None,
        Ok(ordinal) => if (ordinal as u32) < t.n_func {
            match u32_at(d, t.functions + (ordinal as u64) * 4) {
                Ok(rva) => Some(rva),
                Err(_) => None,
            }
        } else {
            None
        },
    }
}

/// Reads the `i`-th export.
fn read_export(d: &[u8], t: &Tables, i: u32) -> (r: Option<(String, u32)>)
    requires
        t.bounded(),
        name_offset(d@, t@, i as int) matches Some(s) ==> s <= d@.len(),
    ensures
        match (r, export_at(d@, t@, i as int)) {
            (Some((n, a)), Some((m, b))) => n@ == m && a == b,
            (None, None) => true,
            _ => false,
        },
{
    match find_name(d, t, i) {
        None => None,
        Some(s) => match read_name(d, s) {
            None => None,
            Some(name) => match read_rva(d, t, i) {
                None => None,
                Some(rva) => Some((name, rva)),
            },
        },
    }
}

/// Tells whether every exported name starts inside the file, as `parse_exports` needs it.
pub fn export_names_in_file(data: &[u8]) -> (r: bool)
    ensures
        r == names_in_file(data@),
{
    let t: Tables = match read_tables(data) {
        Ok(t) => t,
        Err(_) => return true,
    };
    let mut i: u32 = 0;
    while i < t.n_name
        invariant
            i <= t.n_name,
            t.bounded(),
            tables_of(data@) == Ok::<TablesView, Seq<char>>(t@),
            forall|j: int|
                0 <= j < i ==> (#[trigger] name_offset(data@, t@, j) matches Some(s) ==> s
                    <= data@.len()),
        decreases t.n_name - i,
    {
        if let Some(s) = find_name(data, &t, i) {
            if s > data.len() as u64 {
                proof {
                    assert(name_offset(data@, t@, i as int) is Some);
                }
                return false;
            }
        }
        i = i + 1;
    }
    true
}

/// Parses the export table: which name is exported at which RVA.
///
/// A file that is no PE image, one without exports and one whose tables lie outside it are
/// refused with a message; a single unreadable entry is passed over.
pub fn parse_exports(data: &[u8]) -> (r: Result<StringHashMap<u32>, String>)
    requires
        names_in_file(data@),
    ensures
        match (r, exports_of(data@)) {
            (Ok(m), Ok(w)) => m@ == w,
            (Err(m), Err(t)) => m@ == t,
            _ => false,
        },
{
    let t: Tables = read_tables(data)?;
    let mut exports: StringHashMap<u32> = StringHashMap::new();
    let mut i: u32 = 0;
    while i < t.n_name
        invariant
            i <= t.n_name,
            t.bounded(),
            names_in_file(data@),
            tables_of(data@) == Ok::<TablesView, Seq<char>>(t@),
            exports@ == exports_upto(data@, t@, i as int),
        decreases t.n_name - i,
    {
        assert(name_offset(data@, t@, i as int) matches Some(s) ==> s <= data@.len());
        if let Some((name, rva)) = read_export(data, &t, i) {
            exports.insert(name, rva);
        }
        i = i + 1;
    }
    if exports.is_empty() {
        return Err("导出表解析结果为空".to_owned());
    }
    Ok(exports)
}

/// Which pairs the parser reports: exactly those that some entry of the name table spells
/// and no later entry of the same name replaces.
pub proof fn law_last_entry_of_a_name_counts(d: Seq<u8>, t: TablesView, n: int, name: Seq<char>)
    requires
        0 <= n,
    ensures
        exports_upto(d, t, n).contains_key(name) <==> exists|i: int|
            0 <= i < n && (#[trigger] export_at(d, t, i) matches Some((m, _)) && m == name),
        forall|i: int|
            0 <= i < n && (#[trigger] export_at(d, t, i) matches Some((m, _)) && m == name) && (
            forall|j: int|
                i < j < n ==> (#[trigger] export_at(d, t, j) matches Some((m, _)) ==> m != name))
                ==> exports_upto(d, t, n)[name] == (export_at(d, t, i)->0).1,
    decreases n,
{
    if n > 0 {
        law_last_entry_of_a_name_counts(d, t, n - 1, name);
        let last = export_at(d, t, n - 1);
        assert forall|i: int|
            0 <= i < n && (#[trigger] export_at(d, t, i) matches Some((m, _)) && m == name) && (
            forall|j: int|
                i < j < n ==> (#[trigger] export_at(d, t, j) matches Some((m, _)) ==> m
                    != name)) implies exports_upto(d, t, n)[name] == (export_at(d, t, i)->0).1 by {
            if i < n - 1 {
                assert(last matches Some((m, _)) ==> m != name);
            }
        }
    }
}

/// The conversion of an RVA goes through a section that covers it: the file offset lies as
/// far behind the section's raw data as the RVA lies behind its address, and no earlier
/// section covers the RVA.
pub proof fn law_file_offset_lies_in_its_section(sections: Seq<Section>, rva: u32)
    ensures
        match file_offset(sections, rva) {
            Some(o) => exists|i: int|
                0 <= i < sections.len() && (#[trigger] sections[i]).covers(rva as int) && o
                    == sections[i].raw + (rva - sections[i].vaddr) && forall|j: int|
                    0 <= j < i ==> !(#[trigger] sections[j]).covers(rva as int),
            None => forall|i: int|
                0 <= i < sections.len() ==> !(#[trigger] sections[i]).covers(rva as int),
        },
{
    lemma_first_cover(sections, rva as int, 0);
}

/// `law_file_offset_lies_in_its_section`, from any section on.
proof fn lemma_first_cover(sections: Seq<Section>, rva: int, from: int)
    requires
        0 <= from,
    ensures
        match offset_from(sections, rva, from) {
            Some(o) => exists|i: int|
                from <= i < sections.len() && (#[trigger] sections[i]).covers(rva) && o
                    == sections[i].raw + (rva - sections[i].vaddr) && forall|j: int|
                    from <= j < i ==> !(#[trigger] sections[j]).covers(rva),
            None => forall|i: int|
                from <= i < sections.len() ==> !(#[trigger] sections[i]).covers(rva),
        },
    decreases sections.len() - from,
{
    if from < sections.len() && !sections[from].covers(rva) {
        lemma_first_cover(sections, rva, from + 1);
    }
}

} // verus!

use broforce::pe::{export_names_in_file, parse_exports, u16_at, u32_at};

const PE: usize = 0x80;
const OPT: usize = PE + 24;
const SECTION: usize = OPT + 240;
const RAW: usize = 0x400;
const DIR: usize = RAW;
const FUNCS: u32 = 0x1100;
const NAMES: u32 = 0x1200;
const ORDINALS: u32 = 0x1300;
const STRINGS: u32 = 0x1400;

fn put16(d: &mut [u8], at: usize, v: u16) {
    d[at..at + 2].copy_from_slice(&v.to_le_bytes());
}

fn put32(d: &mut [u8], at: usize, v: u32) {
    d[at..at + 4].copy_from_slice(&v.to_le_bytes());
}

/// Where a relative address lies in the file.
fn off(rva: u32) -> usize {
    rva as usize - 0x1000 + RAW
}

/// A PE32+ file with one section, the given functions, and names with their ordinals.
fn image(funcs: &[u32], names: &[(&[u8], u16)]) -> Vec<u8> {
    let mut d = vec![0u8; 0x1400];
    d[0..2].copy_from_slice(b"MZ");
    put32(&mut d, 0x3C, PE as u32);
    d[PE..PE + 4].copy_from_slice(b"PE\0\0");
    put16(&mut d, PE + 6, 1);
    put16(&mut d, PE + 20, 240);
    put16(&mut d, OPT, 0x20B);
    put32(&mut d, OPT + 112, 0x1000);
    put32(&mut d, SECTION + 8, 0x800);
    put32(&mut d, SECTION + 12, 0x1000);
    put32(&mut d, SECTION + 16, 0x1000);
    put32(&mut d, SECTION + 20, RAW as u32);
    put32(&mut d, DIR + 20, funcs.len() as u32);
    put32(&mut d, DIR + 24, names.len() as u32);
    put32(&mut d, DIR + 28, FUNCS);
    put32(&mut d, DIR + 32, NAMES);
    put32(&mut d, DIR + 36, ORDINALS);
    for (i, rva) in funcs.iter().enumerate() {
        put32(&mut d, off(FUNCS) + 4 * i, *rva);
    }
    let mut at = STRINGS;
    for (i, (name, ordinal)) in names.iter().enumerate() {
        put32(&mut d, off(NAMES) + 4 * i, at);
        put16(&mut d, off(ORDINALS) + 2 * i, *ordinal);
        d[off(at)..off(at) + name.len()].copy_from_slice(name);
        at += name.len() as u32 + 1;
    }
    d
}

fn error_of(d: &[u8]) -> String {
    assert!(export_names_in_file(d));
    parse_exports(d).err().unwrap()
}

#[test]
fn rejects_non_pe() {
    assert!(parse_exports(b"not a pe file at all").is_err());
}

#[test]
fn reads_the_exports_of_a_file() {
    let d = image(
        &[0x11, 0x22, 0x33],
        &[(b"mono_first", 2), (b"mono_second", 0), ("mono_\u{e9}".as_bytes(), 1)],
    );
    assert!(export_names_in_file(&d));
    let exports = parse_exports(&d).ok().unwrap();
    assert_eq!(exports.len(), 3);
    assert_eq!(exports.get("mono_first"), Some(&0x33));
    assert_eq!(exports.get("mono_second"), Some(&0x11));
    assert_eq!(exports.get("mono_\u{e9}"), Some(&0x22));
    assert_eq!(exports.get("mono_third"), None);
}

#[test]
fn reads_a_32_bit_file() {
    let mut d = image(&[0x11], &[(b"f", 0)]);
    put16(&mut d, OPT, 0x10B);
    put32(&mut d, OPT + 112, 0);
    put32(&mut d, OPT + 96, 0x1000);
    assert_eq!(parse_exports(&d).ok().unwrap().get("f"), Some(&0x11));
}

#[test]
fn the_last_entry_of_a_name_counts() {
    let d = image(&[0x11, 0x22], &[(b"f", 0), (b"g", 0), (b"f", 1)]);
    let exports = parse_exports(&d).ok().unwrap();
    assert_eq!(exports.len(), 2);
    assert_eq!(exports.get("f"), Some(&0x22));
}

#[test]
fn entries_that_cannot_be_read_are_left_out() {
    // an ordinal without a function, a name that is no UTF-8, a name outside all sections
    let mut d = image(
        &[0x11, 0x22],
        &[(b"good", 1), (b"no_function", 2), (b"\xFF\xFE", 0), (b"gone", 0)],
    );
    put32(&mut d, off(NAMES) + 12, 0x9_0000);
    let exports = parse_exports(&d).ok().unwrap();
    assert_eq!(exports.len(), 1);
    assert_eq!(exports.get("good"), Some(&0x22));
}

#[test]
fn a_name_has_at_most_255_bytes() {
    let long = vec![b'x'; 255];
    let d = image(&[0x11], &[(&long, 0)]);
    assert_eq!(parse_exports(&d).ok().unwrap().get(&"x".repeat(255)), Some(&0x11));

    let longer = vec![b'x'; 256];
    let d = image(&[0x11], &[(&longer, 0)]);
    assert_eq!(error_of(&d), "导出表解析结果为空");
}

#[test]
fn tells_what_is_wrong_with_a_file() {
    let good = image(&[0x11], &[(b"f", 0)]);

    assert_eq!(error_of(&good[..0x3F]), "不是 PE 文件（缺少 MZ 头）");
    let mut d = good.clone();
    d[1] = b'X';
    assert_eq!(error_of(&d), "不是 PE 文件（缺少 MZ 头）");

    let mut d = good.clone();
    d[PE + 3] = 1;
    assert_eq!(error_of(&d), "不是 PE 文件（缺少 PE 签名）");
    let mut d = good.clone();
    put32(&mut d, 0x3C, u32::MAX);
    assert_eq!(error_of(&d), "不是 PE 文件（缺少 PE 签名）");

    assert_eq!(error_of(&good[..PE + 6]), "读取 u16 越界 @0x86");
    assert_eq!(error_of(&good[..OPT + 112]), "读取 u32 越界 @0x108");

    let mut d = good.clone();
    put32(&mut d, OPT + 112, 0);
    assert_eq!(error_of(&d), "该 DLL 没有导出表");

    // a section table that reaches behind the end of the file
    let mut d = good.clone();
    put16(&mut d, PE + 6, 0xFFFF);
    assert_eq!(error_of(&d), "读取 u32 越界 @0x1400");

    let mut d = good.clone();
    put32(&mut d, OPT + 112, 0x8000);
    assert_eq!(error_of(&d), "导出表 RVA 不在任何段内");
    for (at, text) in [
        (28, "函数地址表越界"),
        (32, "函数名表越界"),
        (36, "序号表越界"),
    ] {
        let mut d = good.clone();
        put32(&mut d, DIR + at, 0x8000);
        assert_eq!(error_of(&d), text);
    }

    assert_eq!(error_of(&image(&[], &[])), "导出表解析结果为空");
}

#[test]
fn the_larger_size_of_a_section_counts() {
    let mut d = image(&[0x11], &[(b"f", 0)]);
    // neither size alone: the tables lie behind the first, in the second
    put32(&mut d, SECTION + 8, 0x1000);
    put32(&mut d, SECTION + 16, 0x10);
    assert_eq!(parse_exports(&d).ok().unwrap().get("f"), Some(&0x11));
    put32(&mut d, SECTION + 8, 0x10);
    assert_eq!(error_of(&d), "函数地址表越界");
}

#[test]
fn tells_when_a_name_would_lie_behind_the_file() {
    let mut d = image(&[0x11], &[(b"f", 0)]);
    assert!(export_names_in_file(&d));
    // a section that promises more than the file has
    put32(&mut d, SECTION + 16, 0x10_0000);
    put32(&mut d, off(NAMES), 0x9000);
    assert!(!export_names_in_file(&d));
}

#[test]
fn reads_little_endian_values() {
    let d = [0x01, 0x02, 0x03, 0x84];
    assert_eq!(u16_at(&d, 1), Ok(0x0302));
    assert_eq!(u32_at(&d, 0), Ok(0x8403_0201));
    assert_eq!(u16_at(&d, 3), Err("读取 u16 越界 @0x3".to_owned()));
    assert_eq!(u32_at(&d, 0x1234ABCD), Err("读取 u32 越界 @0x1234ABCD".to_owned()));
}

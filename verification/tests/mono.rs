use broforce::mono::{find_mono, MonoApi, MonoFunctions};
use broforce::pe::export_names_in_file;
use broforce::trainer::Trainer;
use broforce::win32::ModuleInfo;

const NAMES: [&str; 9] = [
    "mono_get_root_domain",
    "mono_thread_attach",
    "mono_thread_detach",
    "mono_image_loaded",
    "mono_class_from_name",
    "mono_class_get_field_from_name",
    "mono_field_get_offset",
    "mono_class_vtable",
    "mono_vtable_get_static_field_data",
];

/// A PE32+ file whose `i`-th name is exported at `0x100 * (i + 1)`.
fn dll(names: &[&str]) -> Vec<u8> {
    fn put(d: &mut [u8], at: usize, v: u32) {
        d[at..at + 4].copy_from_slice(&v.to_le_bytes());
    }
    let mut d = vec![0u8; 0x1400];
    d[0..2].copy_from_slice(b"MZ");
    put(&mut d, 0x3C, 0x80);
    d[0x80..0x84].copy_from_slice(b"PE\0\0");
    d[0x86] = 1;
    d[0x94] = 240;
    d[0x98..0x9A].copy_from_slice(&0x20Bu16.to_le_bytes());
    put(&mut d, 0x108, 0x1000);
    put(&mut d, 0x188 + 8, 0x1000);
    put(&mut d, 0x188 + 12, 0x1000);
    put(&mut d, 0x188 + 16, 0x1000);
    put(&mut d, 0x188 + 20, 0x400);
    put(&mut d, 0x400 + 20, names.len() as u32);
    put(&mut d, 0x400 + 24, names.len() as u32);
    put(&mut d, 0x400 + 28, 0x1100);
    put(&mut d, 0x400 + 32, 0x1200);
    put(&mut d, 0x400 + 36, 0x1300);
    let mut at = 0x1400;
    for (i, name) in names.iter().enumerate() {
        put(&mut d, 0x500 + 4 * i, 0x100 * (i as u32 + 1));
        put(&mut d, 0x600 + 4 * i, at as u32);
        d[0x700 + 2 * i] = i as u8;
        d[at - 0xC00..at - 0xC00 + name.len()].copy_from_slice(name.as_bytes());
        at += name.len() + 1;
    }
    d
}

fn module(base: u64) -> ModuleInfo {
    ModuleInfo { name: "mono.dll".to_owned(), base, path: "C:\\Game\\mono.dll".to_owned() }
}

fn located(base: u64, names: &[&str]) -> MonoApi {
    let d = dll(names);
    assert!(export_names_in_file(&d));
    MonoApi::locate(&module(base), Ok(d)).ok().unwrap()
}

#[test]
fn finds_mono_among_the_modules() {
    let named = |name: &str| ModuleInfo { name: name.to_owned(), base: 1, path: String::new() };
    let modules = vec![named("game.exe"), named("MONO.DLL"), named("mono.dll")];
    assert_eq!(find_mono(&modules), Ok(1));
    assert_eq!(
        find_mono(&vec![named("game.exe"), named("mono-2.0.dll")]),
        Err("目标进程里没有加载 mono.dll——这个游戏可能不是 Mono 版 Unity".to_owned())
    );
}

#[test]
fn an_address_is_the_base_and_the_rva() {
    let api = located(0x7FF0_0000_0000, &NAMES);
    assert_eq!(api.dll_path, "C:\\Game\\mono.dll");
    assert!(api.addr_fits("mono_thread_attach"));
    assert_eq!(api.addr("mono_thread_attach"), Ok(0x7FF0_0000_0200));
    assert_eq!(
        api.addr("mono_runtime_invoke"),
        Err("mono.dll 没有导出 mono_runtime_invoke".to_owned())
    );
}

#[test]
fn an_address_that_does_not_fit_is_noticed() {
    let api = located(u64::MAX - 0x150, &NAMES);
    assert!(api.addr_fits("mono_get_root_domain"));
    assert!(!api.addr_fits("mono_thread_attach"));
    assert!(api.addr_fits("no such function"));
    assert!(!MonoFunctions::addresses_fit(&api));
}

#[test]
fn a_file_that_cannot_be_read_is_named() {
    assert_eq!(
        MonoApi::locate(&module(0), Err("拒绝访问".to_owned())).err().unwrap(),
        "读取 C:\\Game\\mono.dll 失败：拒绝访问"
    );
    assert_eq!(
        MonoApi::locate(&module(0), Ok(vec![0; 10])).err().unwrap(),
        "不是 PE 文件（缺少 MZ 头）"
    );
}

#[test]
fn resolves_all_functions() {
    let api = located(0x10_0000, &NAMES);
    assert!(MonoFunctions::addresses_fit(&api));
    let fns = MonoFunctions::resolve(&api).ok().unwrap();
    assert_eq!(fns.get_root_domain, 0x10_0100);
    assert_eq!(fns.thread_attach, 0x10_0200);
    assert_eq!(fns.thread_detach, 0x10_0300);
    assert_eq!(fns.image_loaded, 0x10_0400);
    assert_eq!(fns.class_from_name, 0x10_0500);
    assert_eq!(fns.class_get_field_from_name, 0x10_0600);
    assert_eq!(fns.field_get_offset, 0x10_0700);
    assert_eq!(fns.class_vtable, 0x10_0800);
    assert_eq!(fns.vtable_get_static_field_data, 0x10_0900);
}

#[test]
fn names_the_first_function_that_is_missing() {
    for missing in 0..9 {
        let some: Vec<&str> = (0..9).filter(|i| *i != missing).map(|i| NAMES[i]).collect();
        let api = located(0x10_0000, &some);
        assert!(MonoFunctions::addresses_fit(&api));
        let text = format!("mono.dll 没有导出 {}", NAMES[missing]);
        assert_eq!(MonoFunctions::resolve(&api).err().unwrap(), text);
        assert_eq!(Trainer::attach(api).err().unwrap(), text);
    }
}

#[test]
fn attaching_keeps_the_path() {
    let trainer = Trainer::attach(located(0x10_0000, &NAMES)).ok().unwrap();
    assert_eq!(trainer.mono_path(), "C:\\Game\\mono.dll");
    assert!(trainer.is_alive(true, 259));
    assert!(!trainer.is_alive(true, 0));
    assert!(!trainer.is_alive(false, 259));
}

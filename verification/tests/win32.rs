use broforce::remote::RunResult;
use broforce::win32::{
    find_pids, is_alive, is_complete_transfer, last_error, list_modules, open_error, run_remote,
    wide_to_string, ModuleEntry, ProcessEntry, STILL_ACTIVE, WAIT_OBJECT_0, WAIT_TIMEOUT,
};

fn wide(s: &str) -> Vec<u16> {
    let mut v: Vec<u16> = s.encode_utf16().collect();
    v.resize(260, 0);
    v
}

#[test]
fn wide_strings_end_at_the_first_nul() {
    assert_eq!(wide_to_string(&wide("Broforce.exe")), "Broforce.exe");
    assert_eq!(wide_to_string(&[0x61, 0, 0x62]), "a");
    assert_eq!(wide_to_string(&[0x61, 0x62]), "ab");
    assert_eq!(wide_to_string(&[]), "");
    // beyond the basic plane, and unpaired surrogates
    assert_eq!(wide_to_string(&wide("游戏\u{1F600}")), "游戏\u{1F600}");
    assert_eq!(wide_to_string(&[0xD83D, 0x61, 0xDE00, 0xD83D]), "\u{FFFD}a\u{FFFD}\u{FFFD}");
}

#[test]
fn finds_processes_by_name_whatever_the_case() {
    let entries = vec![
        ProcessEntry { exe_file: wide("explorer.exe"), pid: 4 },
        ProcessEntry { exe_file: wide("Broforce_beta.exe"), pid: 10 },
        ProcessEntry { exe_file: wide("BROFORCE_BETA.EXE"), pid: 7 },
    ];
    assert_eq!(find_pids(&entries, "broforce_beta.exe"), vec![10, 7]);
    assert_eq!(find_pids(&entries, "BROFORCE_beta.exe"), vec![10, 7]);
    assert_eq!(find_pids(&entries, "Broforce.exe"), Vec::<u32>::new());
    assert_eq!(find_pids(&Vec::new(), "Broforce.exe"), Vec::<u32>::new());
}

#[test]
fn describes_every_module() {
    let entries = vec![
        ModuleEntry { module: wide("game.exe"), base: 0x1000, exe_path: wide("C:\\game.exe") },
        ModuleEntry { module: wide("mono.dll"), base: 0x7FF0_0000_0000, exe_path: wide("C:\\mono.dll") },
    ];
    let modules = list_modules(&entries);
    assert_eq!(modules.len(), 2);
    assert_eq!(modules[0].name, "game.exe");
    assert_eq!(modules[1].name, "mono.dll");
    assert_eq!(modules[1].base, 0x7FF0_0000_0000);
    assert_eq!(modules[1].path, "C:\\mono.dll");
}

#[test]
fn errors_carry_their_code() {
    assert_eq!(last_error(5), "Win32 错误码 5");
    assert_eq!(
        open_error(42),
        "OpenProcess 失败（PID 42）。如果游戏是以管理员身份启动的，本程序也需要以管理员身份运行。"
    );
}

#[test]
fn a_process_lives_while_its_exit_code_says_so() {
    assert!(is_alive(true, STILL_ACTIVE));
    assert!(!is_alive(true, 0));
    assert!(!is_alive(false, STILL_ACTIVE));
}

#[test]
fn only_a_complete_transfer_counts() {
    assert!(is_complete_transfer(true, 8, 8));
    assert!(!is_complete_transfer(true, 7, 8));
    assert!(!is_complete_transfer(false, 8, 8));
}

#[test]
fn a_remote_thread_succeeds_times_out_or_fails() {
    assert_eq!(run_remote(RunResult::Waited(WAIT_OBJECT_0), 10_000), Ok(()));
    assert_eq!(
        run_remote(RunResult::Waited(WAIT_TIMEOUT), 10_000),
        Err("远程线程超时（10000 ms）未返回".to_owned())
    );
    assert_eq!(
        run_remote(RunResult::Waited(u32::MAX), 10_000),
        Err("等待远程线程失败，返回码 4294967295".to_owned())
    );
    assert_eq!(
        run_remote(RunResult::NotStarted(5), 10_000),
        Err("CreateRemoteThread 失败（Win32 错误码 5）".to_owned())
    );
}

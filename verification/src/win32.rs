//! The decisions around the Win32 calls: what their raw results mean.

use crate::remote::RunResult;
use crate::text::{
    dec, dec_text, eq_ignore_ascii_case, law_shown_numbers_are_told, same_letters, tells,
    utf16_lossy, utf16_text,
};
use vstd::prelude::*;
use vstd::string::*;

verus! {

/// What waiting for an object returns once it is signalled.
pub const WAIT_OBJECT_0: u32 = 0;

/// What waiting for an object returns when the time is up.
pub const WAIT_TIMEOUT: u32 = 258;

/// The exit code of a process that has not exited.
pub const STILL_ACTIVE: u32 = 259;

/// A module of the target process.
#[derive(Clone, Debug)]
pub struct ModuleInfo {
    pub name: String,
    pub base: u64,
    pub path: String,
}

/// A process as the snapshot lists it: the buffer with its file name, and its number.
pub struct ProcessEntry {
    pub exe_file: Vec<u16>,
    pub pid: u32,
}

/// A module as the snapshot lists it.
pub struct ModuleEntry {
    pub module: Vec<u16>,
    pub base: u64,
    pub exe_path: Vec<u16>,
}

/// What a buffer holds in front of its first NUL, or all of it.
pub open spec fn before_nul(buf: Seq<u16>) -> Seq<u16>
    decreases buf.len(),
{
    if buf.len() == 0 || buf[0] == 0 {
        Seq::empty()
    } else {
        seq![buf[0]] + before_nul(buf.subrange(1, buf.len() as int))
    }
}

/// The text in a UTF-16 buffer.
pub open spec fn wide_text(buf: Seq<u16>) -> Seq<char> {
    utf16_text(before_nul(buf))
}

/// Up to where a buffer is free of NULs.
proof fn lemma_before_nul(buf: Seq<u16>, end: int)
    requires
        0 <= end <= buf.len(),
        forall|i: int| 0 <= i < end ==> buf[i] != 0,
        end < buf.len() ==> buf[end] == 0,
    ensures
        before_nul(buf) == buf.take(end),
    decreases end,
{
    if end > 0 {
        lemma_before_nul(buf.subrange(1, buf.len() as int), end - 1);
        assert(seq![buf[0]] + buf.subrange(1, buf.len() as int).take(end - 1) =~= buf.take(end));
    } else {
        assert(buf.take(0) =~= Seq::empty());
    }
}

/// Turns a UTF-16 buffer into text, up to the first NUL.
pub fn wide_to_string(buf: &[u16]) -> (r: String)
    ensures
        r@ == wide_text(buf@),
{
    let mut end: usize = 0;
    while end < buf.len() && buf[end] != 0
        invariant
            end <= buf.len(),
            forall|i: int| 0 <= i < end ==> buf[i] != 0,
        decreases buf.len() - end,
    {
        end = end + 1;
    }
    proof {
        lemma_before_nul(buf@, end as int);
        assert(buf@.subrange(0, end as int) =~= buf@.take(end as int));
    }
    utf16_lossy(&buf[0..end])
}

/// The message of an error code.
pub open spec fn error_text(code: u32) -> Seq<char> {
    "Win32 错误码 "@ + dec_text(code as nat)
}

/// The message of an error code. The code has to be fetched right behind the call that
/// failed, with no other call in between.
pub fn last_error(code: u32) -> (r: String)
    ensures
        r@ == error_text(code),
{
    "Win32 错误码 ".to_owned().concat(dec(code as u64).as_str())
}

/// Whether a listed process runs the file of this name, in any case.
pub open spec fn runs(e: ProcessEntry, exe_name: Seq<char>) -> bool {
    same_letters(wide_text(e.exe_file@), exe_name)
}

/// The numbers of the processes that run the file of this name, in the order of the list.
pub open spec fn pids_running(entries: Seq<ProcessEntry>, exe_name: Seq<char>) -> Seq<u32>
    decreases entries.len(),
{
    if entries.len() == 0 {
        Seq::empty()
    } else {
        let before = pids_running(entries.drop_last(), exe_name);
        if runs(entries.last(), exe_name) {
            before.push(entries.last().pid)
        } else {
            before
        }
    }
}

/// Picks the processes that run the file of this name out of the list of all processes.
pub fn find_pids(entries: &Vec<ProcessEntry>, exe_name: &str) -> (r: Vec<u32>)
    ensures
        r@ == pids_running(entries@, exe_name@),
{
    let mut pids: Vec<u32> = Vec::new();
    let mut i: usize = 0;
    while i < entries.len()
        invariant
            i <= entries.len(),
            pids@ == pids_running(entries@.take(i as int), exe_name@),
        decreases entries.len() - i,
    {
        let name: String = wide_to_string(entries[i].exe_file.as_slice());
        proof {
            assert(entries@.take(i + 1).drop_last() =~= entries@.take(i as int));
            assert(entries@.take(i + 1).last() == entries@[i as int]);
        }
        if eq_ignore_ascii_case(name.as_str(), exe_name) {
            pids.push(entries[i].pid);
        }
        i = i + 1;
    }
    assert(entries@.take(entries.len() as int) =~= entries@);
    pids
}

/// The case of the name that is looked for does not matter.
pub proof fn law_exe_name_case_does_not_matter(
    entries: Seq<ProcessEntry>,
    name: Seq<char>,
    other: Seq<char>,
)
    requires
        same_letters(name, other),
    ensures
        pids_running(entries, name) == pids_running(entries, other),
    decreases entries.len(),
{
    if entries.len() > 0 {
        law_exe_name_case_does_not_matter(entries.drop_last(), name, other);
        let exe = wide_text(entries.last().exe_file@);
        crate::text::law_same_letters_is_an_equivalence(exe, name, other);
        crate::text::law_same_letters_is_an_equivalence(exe, other, name);
        crate::text::law_same_letters_is_an_equivalence(name, other, name);
    }
}

/// A process is reported exactly when it is listed and runs the file.
pub proof fn law_found_iff_running(entries: Seq<ProcessEntry>, exe_name: Seq<char>, pid: u32)
    ensures
        pids_running(entries, exe_name).contains(pid) <==> exists|i: int|
            0 <= i < entries.len() && (#[trigger] entries[i]).pid == pid && runs(
                entries[i],
                exe_name,
            ),
    decreases entries.len(),
{
    if entries.len() > 0 {
        let before = entries.drop_last();
        let last = entries.last();
        law_found_iff_running(before, exe_name, pid);
        let old = pids_running(before, exe_name);
        let now = pids_running(entries, exe_name);
        if old.contains(pid) {
            let i = choose|i: int| 0 <= i < before.len() && (#[trigger] before[i]).pid == pid
                && runs(before[i], exe_name);
            assert(entries[i] == before[i]);
            let k = choose|k: int| 0 <= k < old.len() && old[k] == pid;
            assert(now[k] == pid);
        }
        if runs(last, exe_name) {
            assert(now[now.len() - 1] == last.pid);
            assert(entries[entries.len() - 1] == last);
        }
        if now.contains(pid) && !old.contains(pid) {
            let k = choose|k: int| 0 <= k < now.len() && now[k] == pid;
            assert(k < old.len() ==> old[k] == pid);
        }
        assert forall|i: int|
            0 <= i < entries.len() && (#[trigger] entries[i]).pid == pid && runs(
                entries[i],
                exe_name,
            ) implies now.contains(pid) by {
            if i < before.len() {
                assert(before[i] == entries[i]);
            }
        }
    }
}

/// Whether a module is the listed one.
pub open spec fn describes(m: ModuleInfo, e: ModuleEntry) -> bool {
    &&& m.name@ == wide_text(e.module@)
    &&& m.base == e.base
    &&& m.path@ == wide_text(e.exe_path@)
}

/// Turns the list of modules into readable form.
pub fn list_modules(entries: &Vec<ModuleEntry>) -> (r: Vec<ModuleInfo>)
    ensures
        r@.len() == entries@.len(),
        forall|i: int| 0 <= i < r@.len() ==> describes(#[trigger] r@[i], entries@[i]),
{
    let mut out: Vec<ModuleInfo> = Vec::new();
    let mut i: usize = 0;
    while i < entries.len()
        invariant
            i <= entries.len(),
            out.len() == i,
            forall|j: int| 0 <= j < i ==> describes(#[trigger] out@[j], entries@[j]),
        decreases entries.len() - i,
    {
        let e: &ModuleEntry = &entries[i];
        out.push(
            ModuleInfo {
                name: wide_to_string(e.module.as_slice()),
                base: e.base,
                path: wide_to_string(e.exe_path.as_slice()),
            },
        );
        i = i + 1;
    }
    out
}

/// The message that a process cannot be opened.
pub fn open_error(pid: u32) -> (r: String)
    ensures
        r@ == "OpenProcess 失败（PID "@ + dec_text(pid as nat)
            + "）。如果游戏是以管理员身份启动的，本程序也需要以管理员身份运行。"@,
{
    "OpenProcess 失败（PID ".to_owned().concat(dec(pid as u64).as_str()).concat(
        "）。如果游戏是以管理员身份启动的，本程序也需要以管理员身份运行。",
    )
}

/// Whether the process runs, by whether its exit code could be fetched and what it is.
pub fn is_alive(fetched: bool, exit_code: u32) -> (r: bool)
    ensures
        r == (fetched && exit_code == STILL_ACTIVE),
{
    fetched && exit_code == STILL_ACTIVE
}

/// Whether a transfer counts: the call succeeded and moved every byte.
pub fn is_complete_transfer(succeeded: bool, moved: usize, wanted: usize) -> (r: bool)
    ensures
        r == (succeeded && moved == wanted),
{
    succeeded && moved == wanted
}

/// What a run of a remote thread means.
pub open spec fn run_text(r: RunResult, timeout_ms: u32) -> Result<(), Seq<char>> {
    match r {
        RunResult::NotStarted(code) => Err("CreateRemoteThread 失败（"@ + error_text(code) + "）"@),
        RunResult::Waited(code) => if code == WAIT_OBJECT_0 {
            Ok(())
        } else if code == WAIT_TIMEOUT {
            Err("远程线程超时（"@ + dec_text(timeout_ms as nat) + " ms）未返回"@)
        } else {
            Err("等待远程线程失败，返回码 "@ + dec_text(code as nat))
        },
    }
}

/// Tells whether a remote thread ran to its end.
pub fn run_remote(result: RunResult, timeout_ms: u32) -> (r: Result<(), String>)
    ensures
        crate::pe::agrees(r, run_text(result, timeout_ms)),
{
    match result {
        RunResult::NotStarted(code) => Err(
            "CreateRemoteThread 失败（".to_owned().concat(last_error(code).as_str()).concat("）"),
        ),
        RunResult::Waited(code) => if code == WAIT_OBJECT_0 {
            Ok(())
        } else if code == WAIT_TIMEOUT {
            Err(
                "远程线程超时（".to_owned().concat(dec(timeout_ms as u64).as_str()).concat(
                    " ms）未返回",
                ),
            )
        } else {
            Err("等待远程线程失败，返回码 ".to_owned().concat(dec(code as u64).as_str()))
        },
    }
}

// ---------------------------------------------------------------------------
// Laws
// ---------------------------------------------------------------------------
/// A buffer is read up to its first NUL; what stands behind it does not matter.
pub proof fn law_buffers_end_at_the_first_nul(units: Seq<u16>, rest: Seq<u16>)
    requires
        forall|i: int| 0 <= i < units.len() ==> units[i] != 0,
    ensures
        wide_text(units.push(0) + rest) == utf16_text(units),
        wide_text(units) == utf16_text(units),
{
    let buf = units.push(0) + rest;
    lemma_before_nul(buf, units.len() as int);
    assert(buf.take(units.len() as int) =~= units);
    lemma_before_nul(units, units.len() as int);
    assert(units.take(units.len() as int) =~= units);
}

/// Processes are found one by one, and in their order: what is found in two lists together is
/// what is found in the first, then what is found in the second.
pub proof fn law_processes_keep_their_order(
    a: Seq<ProcessEntry>,
    b: Seq<ProcessEntry>,
    name: Seq<char>,
)
    ensures
        pids_running(a + b, name) == pids_running(a, name) + pids_running(b, name),
    decreases b.len(),
{
    if b.len() == 0 {
        assert(a + b =~= a);
    } else {
        law_processes_keep_their_order(a, b.drop_last(), name);
        assert((a + b).drop_last() =~= a + b.drop_last());
        assert(pids_running(a + b, name) =~= pids_running(a, name) + pids_running(b, name));
    }
}

/// One process is found by its number exactly when its file has the name, but for the case of
/// the letters from A to Z.
pub proof fn law_one_process_is_found(e: ProcessEntry, name: Seq<char>)
    ensures
        pids_running(seq![e], name) == if same_letters(wide_text(e.exe_file@), name) {
            seq![e.pid]
        } else {
            Seq::empty()
        },
        pids_running(Seq::empty(), name) == Seq::<u32>::empty(),
{
    assert(seq![e].drop_last() =~= Seq::<ProcessEntry>::empty());
    reveal_with_fuel(pids_running, 2);
    assert(Seq::<u32>::empty().push(e.pid) =~= seq![e.pid]);
}

/// A module is described by what its two buffers hold and by its base.
pub proof fn law_modules_are_described(
    m: ModuleInfo,
    e: ModuleEntry,
    module: Seq<u16>,
    path: Seq<u16>,
    rest: Seq<u16>,
)
    requires
        describes(m, e),
        forall|i: int| 0 <= i < module.len() ==> module[i] != 0,
        forall|i: int| 0 <= i < path.len() ==> path[i] != 0,
    ensures
        m.base == e.base,
        e.module@ == module || e.module@ == module.push(0) + rest ==> m.name@ == utf16_text(module),
        e.exe_path@ == path || e.exe_path@ == path.push(0) + rest ==> m.path@ == utf16_text(path),
{
    law_buffers_end_at_the_first_nul(module, rest);
    law_buffers_end_at_the_first_nul(path, rest);
}

/// Only a thread whose end was waited for has run. Otherwise the message tells the code, or how
/// long it was waited.
pub proof fn law_only_a_finished_thread_has_run(r: RunResult, timeout_ms: u32)
    ensures
        run_text(r, timeout_ms) is Ok <==> r == RunResult::Waited(0),
        r matches RunResult::NotStarted(code) ==> tells(
            run_text(r, timeout_ms)->Err_0,
            "CreateRemoteThread 失败（"@ + "Win32 错误码 "@,
            code as int,
            "）"@,
        ),
        r matches RunResult::Waited(code) ==> {
            &&& code == 258 ==> tells(
                run_text(r, timeout_ms)->Err_0,
                "远程线程超时（"@,
                timeout_ms as int,
                " ms）未返回"@,
            )
            &&& code != 0 && code != 258 ==> tells(
                run_text(r, timeout_ms)->Err_0,
                "等待远程线程失败，返回码 "@,
                code as int,
                Seq::empty(),
            )
        },
{
    law_shown_numbers_are_told("远程线程超时（"@, timeout_ms as int, " ms）未返回"@);
    match r {
        RunResult::NotStarted(code) => {
            let a = "CreateRemoteThread 失败（"@;
            let b = "Win32 错误码 "@;
            law_shown_numbers_are_told(a + b, code as int, "）"@);
            assert(a + (b + dec_text(code as nat)) + "）"@ =~= a + b + dec_text(code as nat)
                + "）"@);
        },
        RunResult::Waited(code) => law_shown_numbers_are_told(
            "等待远程线程失败，返回码 "@,
            code as int,
            Seq::empty(),
        ),
    }
}

/// The message of an error code tells the code.
pub proof fn law_error_codes_are_told(code: u32)
    ensures
        tells(error_text(code), "Win32 错误码 "@, code as int, Seq::empty()),
{
    law_shown_numbers_are_told("Win32 错误码 "@, code as int, Seq::empty());
}

} // verus!

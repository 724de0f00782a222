use broforce::app::{
    default_exe, fallback_exe, panic_message, panic_report, wants_fallback, DetectOutcome, Outcome,
    State,
};
use broforce::log::{mark_of, Log, ERR, INFO, MAX_LOG, OK, WARN};
use broforce::trainer::Report;
use slint::Model;

fn rows(log: &Log) -> Vec<(String, i32)> {
    (0..log.len()).map(|i| log.row(i).unwrap()).map(|r| (r.text, r.tone)).collect()
}

/// The rows behind the first `n`.
fn news(s: &State<u8>, n: usize) -> Vec<(String, i32)> {
    rows(&s.logs).split_off(n)
}

fn row(text: &str, tone: i32) -> (String, i32) {
    (text.to_owned(), tone)
}

fn connected() -> State<u8> {
    let mut s = State::new();
    s.attach(77, Ok((1, "C:\\mono.dll".to_owned())));
    s
}

fn report(steps: &[&str], error: Option<&str>, addr: Option<u64>) -> Outcome {
    Outcome::Lives(Report {
        steps: steps.iter().map(|s| s.to_string()).collect(),
        error: error.map(|e| e.to_owned()),
        addr,
    })
}

// ---------------------------------------------------------------------------
// The log
// ---------------------------------------------------------------------------

#[test]
fn every_tone_has_its_mark() {
    assert_eq!(mark_of(INFO), "·");
    assert_eq!(mark_of(OK), "✓");
    assert_eq!(mark_of(WARN), "!");
    assert_eq!(mark_of(ERR), "✕");
    assert_eq!(mark_of(17), "·");
}

#[test]
fn the_log_keeps_the_newest_rows() {
    let mut log = Log::new();
    assert_eq!(log.len(), 0);
    assert!(log.row(0).is_none());
    for i in 0..MAX_LOG {
        log.push(INFO, &i.to_string());
        assert_eq!(log.len(), i + 1);
    }
    log.push(ERR, "300");
    log.push(OK, "301");
    assert_eq!(log.len(), MAX_LOG);
    for i in 0..MAX_LOG {
        assert_eq!(log.row(i).unwrap().text, (i + 2).to_string());
    }
    assert_eq!(log.row(298).unwrap().mark, "✕");
    assert_eq!(log.row(299).unwrap().tone, OK);
    assert!(log.row(MAX_LOG).is_none());
    log.clear();
    assert_eq!(log.len(), 0);
}

#[test]
fn the_log_is_copied_line_by_line() {
    let mut log = Log::new();
    assert_eq!(log.text(), "");
    log.push(INFO, "一");
    log.push(WARN, "two\nlines");
    log.push(ERR, "");
    assert_eq!(log.text(), "· 一\n! two\nlines\n✕ ");
}

#[test]
fn the_window_sees_the_rows() {
    let mut log = Log::new();
    log.push(WARN, "before");
    let model = log.model();
    assert_eq!(model.row_count(), 1);
    let row = model.row_data(0).unwrap();
    assert_eq!((row.mark.as_str(), row.text.as_str(), row.tone), ("!", "before", WARN));
    log.push(OK, "shared");
    assert_eq!(model.row_count(), 2);
    let row = model.row_data(1).unwrap();
    assert_eq!((row.mark.as_str(), row.text.as_str(), row.tone), ("✓", "shared", OK));
    log.clear();
    assert_eq!(model.row_count(), 0);
    log.push(INFO, "after");
    assert_eq!(model.row_data(0).unwrap().text, "after");
    for i in 0..MAX_LOG + 5 {
        log.push(INFO, &i.to_string());
    }
    assert_eq!(model.row_count(), MAX_LOG);
    assert_eq!(model.row_data(MAX_LOG - 1).unwrap().text, "304");
}

#[test]
fn the_window_follows_every_event() {
    let mut s: State<u8> = State::new();
    let model = s.logs.model();
    let same = |s: &State<u8>| {
        let shown: Vec<(String, i32)> = model.iter().map(|r| (r.text, r.tone)).collect();
        assert_eq!(shown, rows(&s.logs));
    };
    same(&s);
    s.search("x", &vec![], &vec![]);
    same(&s);
    s.attach(1, Ok((1, String::new())));
    same(&s);
    s.apply("9", "x");
    same(&s);
    s.detect("0");
    same(&s);
    s.finish(report(&["a", "b"], Some("c"), None));
    same(&s);
    s.clear_log();
    same(&s);
    assert_eq!(model.row_count(), 1);
    s.copy_log(true);
    same(&s);
    s.busy = true;
    s.abandon();
    s.poll_lives(1000);
    s.show_lives(Some(1));
    same(&s);
    s.check_alive(false);
    same(&s);
    assert_eq!(model.iter().last().unwrap().text, "已断开连接。");
}

// ---------------------------------------------------------------------------
// The window
// ---------------------------------------------------------------------------

#[test]
fn starts_disconnected_with_a_hint() {
    let s: State<u8> = State::new();
    assert_eq!(
        rows(&s.logs),
        [
            row("用法：启动 Broforce 并进入关卡 → 连接 → 点「设为 999 生命」。", INFO),
            row("仅限单人模式，联机使用会影响其他玩家。", WARN),
        ]
    );
    let w = s.window();
    assert!(!w.attached && !w.busy && !w.lives_known);
    assert_eq!(w.status_text, "未连接");
    assert_eq!(w.hint_text, "先启动 Broforce，再点「连接」。");
    assert_eq!(w.lives_now_text, "—");
    assert_eq!(w.lives_addr_text, "尚未定位内存地址");
    assert_eq!((w.banner_tone, w.banner_text.as_str()), (0, ""));
}

#[test]
fn shows_the_connection_and_the_lives() {
    let mut s = connected();
    let w = s.window();
    assert!(w.attached);
    assert_eq!(w.status_text, "已连接 77");
    assert_eq!(w.hint_text, "已连接 · PID 77 · mono 运行时已解析");

    // an address alone is not enough: what cannot be read is not shown as 0
    s.lives_addr = Some(0x18B1DD8);
    let w = s.window();
    assert_eq!(w.lives_addr_text, "已定位 0x18B1DD8");
    assert_eq!((w.lives_now_text.as_str(), w.lives_known), ("—", false));
    s.lives_now = Some(0);
    let w = s.window();
    assert_eq!((w.lives_now_text.as_str(), w.lives_known), ("0", true));
    s.lives_addr = None;
    assert!(!s.window().lives_known);

    s.pid = None;
    assert_eq!(s.window().status_text, "已连接");
    assert_eq!(s.window().hint_text, "已连接");
}

// ---------------------------------------------------------------------------
// Buttons
// ---------------------------------------------------------------------------

#[test]
fn falls_back_to_the_other_name() {
    assert_eq!(default_exe(), "Broforce_beta.exe");
    assert_eq!(fallback_exe(), "Broforce.exe");
    assert!(wants_fallback(" Broforce_beta.exe ", &vec![]));
    assert!(!wants_fallback(" BROFORCE.exe ", &vec![]));
    assert!(!wants_fallback("Broforce_beta.exe", &vec![1]));

    let mut s: State<u8> = State::new();
    let t = s.search("Broforce_beta.exe", &vec![5, 6], &vec![]);
    assert_eq!((t.pid, t.renamed), (Some(5), false));
    assert_eq!(news(&s, 2), []);

    let t = s.search(" Broforce_beta.exe ", &vec![], &vec![8, 9]);
    assert_eq!((t.pid, t.renamed), (Some(8), true));
    assert_eq!(news(&s, 2), [row("没找到 Broforce_beta.exe，改用 Broforce.exe", INFO)]);

    let t = s.search("x", &vec![], &vec![]);
    assert_eq!((t.pid, t.renamed), (None, false));
    assert_eq!(news(&s, 3), [row("没有找到进程 x，请先启动游戏。", ERR)]);

    // with the other name itself there is nothing to fall back to
    let t = s.search("broforce.EXE", &vec![], &vec![8]);
    assert_eq!((t.pid, t.renamed), (None, false));
    assert_eq!(news(&s, 4), [row("没有找到进程 broforce.EXE，请先启动游戏。", ERR)]);
}

#[test]
fn attaching_forgets_what_was_located() {
    let mut s: State<u8> = State::new();
    s.lives_addr = Some(1);
    s.lives_now = Some(2);
    s.banner = (2, "old".to_owned());
    s.attach(77, Ok((9, "C:\\mono.dll".to_owned())));
    assert_eq!(news(&s, 2), [row("已连接 PID 77", INFO), row("mono 运行时：C:\\mono.dll", INFO)]);
    assert_eq!((s.attached, s.pid, s.trainer), (true, Some(77), Some(9)));
    assert_eq!((s.lives_addr, s.lives_now), (None, None));
    assert_eq!(s.banner, (0, String::new()));

    s.attach(78, Err("不行".to_owned()));
    assert_eq!(news(&s, 4), [row("不行", ERR)]);
    assert_eq!((s.attached, s.pid, s.trainer), (true, Some(77), Some(9)));
}

#[test]
fn detaching_forgets_everything() {
    let mut s = connected();
    s.busy = true;
    s.lives_addr = Some(1);
    s.lives_now = Some(2);
    s.banner = (1, "x".to_owned());
    s.detach();
    assert_eq!((s.attached, s.pid, s.trainer, s.busy), (false, None, None, false));
    assert_eq!((s.lives_addr, s.lives_now), (None, None));
    assert_eq!(s.banner, (0, String::new()));
    assert_eq!(news(&s, 4), [row("已断开连接。", INFO)]);
}

#[test]
fn setting_starts_with_good_fields() {
    let mut s = connected();
    s.banner = (2, "x".to_owned());
    assert_eq!(s.apply(" 3 ", "-5\n"), Some((3, -5)));
    assert!(s.busy);
    assert_eq!(s.banner, (0, String::new()));
    assert_eq!(news(&s, 4), [row("正在把玩家 3 的生命设为 -5 …", INFO)]);

    let mut s = connected();
    s.banner = (2, "x".to_owned());
    assert_eq!(s.apply("4", "many"), None);
    assert!(!s.busy);
    assert_eq!(s.banner.0, 2);
    assert_eq!(
        news(&s, 4),
        [row("玩家序号要填 0 到 3 之间的整数。", ERR), row("生命值要填整数。", ERR)]
    );
    assert_eq!(s.apply("-1", "1"), None);
    assert_eq!(s.apply("0", "2147483648"), None);

    let mut s: State<u8> = State::new();
    assert_eq!(s.apply("0", "1"), None);
    assert_eq!(news(&s, 2), [], "without a process nothing happens");
}

#[test]
fn detecting_starts_with_a_good_field() {
    let mut s = connected();
    assert_eq!(s.detect("0"), Some(0));
    assert!(s.busy);
    assert_eq!(news(&s, 4), [row("正在定位玩家 0 的生命值 …", INFO)]);

    let mut s = connected();
    assert_eq!(s.detect(""), None);
    assert!(!s.busy);
    assert_eq!(news(&s, 4), [row("玩家序号要填 0 到 3 之间的整数。", ERR)]);

    let mut s: State<u8> = State::new();
    assert_eq!(s.detect("0"), None);
    assert_eq!(news(&s, 2), []);
}

#[test]
fn the_log_can_be_cleared_and_copied() {
    let mut s = connected();
    s.clear_log();
    assert_eq!(rows(&s.logs), [row("日志已清空。", INFO)]);
    assert_eq!(s.logs.text(), "· 日志已清空。");
    s.copy_log(true);
    s.copy_log(false);
    assert_eq!(
        news(&s, 1),
        [
            row("日志已复制到剪贴板。", INFO),
            row("剪贴板被别的程序占着，复制失败，稍后再试。", WARN)
        ]
    );
}

/// Attached, with a process and a handle on it, or none of these; and a log within its limit.
fn valid(s: &State<u8>) -> bool {
    s.attached == s.trainer.is_some() && s.attached == s.pid.is_some() && s.logs.len() <= MAX_LOG
}

#[test]
fn every_event_keeps_the_state_valid() {
    let mut s: State<u8> = State::new();
    assert!(valid(&s));
    for round in 0..100u32 {
        s.search("x", &vec![], &vec![]);
        assert!(valid(&s));
        s.attach(round, Err("no".to_owned()));
        assert!(valid(&s));
        s.attach(round, Ok((1, String::new())));
        assert!(valid(&s) && s.attached);
        s.apply("0", "1");
        s.detect("9");
        s.finish(report(&["a", "b"], None, Some(1)));
        assert!(valid(&s) && !s.busy);
        s.check_alive(round % 2 == 0);
        assert!(valid(&s) && s.attached == (round % 2 == 0));
        s.abandon();
        s.detach();
        assert!(valid(&s) && !s.attached);
    }
    assert_eq!(s.logs.len(), MAX_LOG);
}

// ---------------------------------------------------------------------------
// The heartbeat
// ---------------------------------------------------------------------------

#[test]
fn setting_ends_with_a_banner() {
    let mut s = connected();
    s.busy = true;
    s.finish(report(&["一", "二"], None, Some(0x10)));
    assert!(!s.busy && s.force_poll);
    assert_eq!(s.lives_addr, Some(0x10));
    assert_eq!(s.banner, (1, "已写入，看游戏里的生命数。".to_owned()));
    assert_eq!(news(&s, 4), [row("一", INFO), row("二", INFO), row("写入成功。", OK)]);

    let mut s = connected();
    s.busy = true;
    s.lives_addr = Some(0x20);
    s.finish(report(&["一"], Some("坏了"), None));
    assert!(!s.busy && !s.force_poll);
    assert_eq!(s.lives_addr, Some(0x20));
    assert_eq!(s.banner, (2, "坏了".to_owned()));
    assert_eq!(news(&s, 4), [row("一", INFO), row("坏了", ERR)]);
}

#[test]
fn detecting_ends_with_what_was_found() {
    let mut s = connected();
    s.busy = true;
    s.finish(Outcome::Detection(DetectOutcome::Found {
        addr: 0xAB,
        value: Some(3),
        steps: vec!["一".to_owned()],
    }));
    assert!(!s.busy && s.force_poll);
    assert_eq!((s.lives_addr, s.lives_now), (Some(0xAB), Some(3)));
    assert_eq!(news(&s, 4), [row("一", INFO), row("当前生命 = 3（地址 0xAB）", OK)]);

    s.finish(Outcome::Detection(DetectOutcome::Found { addr: 0xAB, value: None, steps: vec![] }));
    assert_eq!(s.lives_now, None);
    assert_eq!(news(&s, 6), [row("地址 0xAB 已定位，但读不到值。", WARN)]);

    s.finish(Outcome::Detection(DetectOutcome::NotFound {
        error: "没有".to_owned(),
        steps: vec!["二".to_owned()],
    }));
    assert_eq!((s.lives_addr, s.lives_now), (None, None));
    assert_eq!(news(&s, 7), [row("二", INFO), row("没有", ERR)]);

    s.busy = true;
    s.finish(Outcome::Detection(DetectOutcome::Panic("溢出".to_owned())));
    assert!(!s.busy);
    assert_eq!(news(&s, 9), [row("内部错误（panic）：溢出", ERR)]);
}

#[test]
fn all_steps_of_an_operation_are_logged_in_order() {
    let steps: Vec<String> = (0..MAX_LOG - 1).map(|i| format!("step {i}")).collect();
    let mut s = connected();
    s.push_steps(&steps);
    let last = rows(&s.logs);
    assert_eq!(last.len(), MAX_LOG);
    for (i, step) in steps.iter().enumerate() {
        assert_eq!(last[i + 1], row(step, INFO));
    }
}

#[test]
fn losing_the_background_ends_the_operation() {
    let mut s = connected();
    assert!(!s.abandon());
    assert_eq!(news(&s, 4), []);
    s.busy = true;
    assert!(s.abandon());
    assert!(!s.busy);
    assert_eq!(news(&s, 4), [row("后台线程异常退出，操作未完成。", ERR)]);
}

#[test]
fn the_end_of_the_game_detaches() {
    let mut s = connected();
    assert!(!s.check_alive(true));
    assert_eq!(s.trainer, Some(1));
    assert!(s.check_alive(false));
    assert_eq!((s.attached, s.trainer), (false, None));
    assert_eq!(news(&s, 4), [row("游戏进程已退出。", ERR), row("已断开连接。", INFO)]);
    assert!(!s.check_alive(false), "only once");
}

#[test]
fn the_lives_are_read_again_in_time() {
    let mut s = connected();
    s.force_poll = true;
    assert_eq!(s.poll_lives(1000), None, "nothing is located");
    assert!(s.force_poll);
    s.lives_addr = Some(0x10);
    assert_eq!(s.poll_lives(0), Some(0x10), "at once");
    assert!(!s.force_poll);
    assert_eq!(s.poll_lives(399), None);
    assert_eq!(s.poll_lives(400), Some(0x10));

    assert!(s.show_lives(Some(3)));
    assert!(!s.show_lives(Some(3)));
    assert!(s.show_lives(Some(4)));
    assert!(s.show_lives(None));
    assert!(!s.show_lives(None));
    assert_eq!(s.lives_now, None);
}

#[test]
fn a_panic_is_reported() {
    assert_eq!(panic_message(Some("a"), None), "a");
    assert_eq!(panic_message(None, Some("b")), "b");
    assert_eq!(panic_message(None, None), "（无法读取 panic 信息）");
    let r = panic_report("溢出");
    assert_eq!(r.error.unwrap(), "内部错误（panic）：溢出");
    assert_eq!((r.steps.len(), r.addr), (0, None));
}

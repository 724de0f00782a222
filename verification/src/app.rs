//! The state behind the window, and what every event does to it.
//!
//! The window only draws and collects clicks; it derives nothing itself. Whoever runs it hands
//! the events to the methods here, performs what they ask for, and shows what `window` says.

use crate::log::{
    adds, law_rows_are_added_at_the_end, logged, mark_text, still_shown, with_room, Line, Log, ERR,
    INFO, MAX_LOG, OK, WARN,
};
use crate::text::{
    dec, dec_i32, dec_text, eq_ignore_ascii_case, hex, hex_text, hex_value, i32_of_text, int_text,
    integer_of_text, is_white, law_decimal_reads_back, law_hexadecimal_reads_back,
    law_shown_numbers_read_back, law_trimming_only_takes_white_space_off,
    law_trimming_takes_white_space_off, locates, parse_i32, same_letters, tells, texts, trim,
    trim_text,
};
use crate::trainer::{Report, Steps};
use vstd::prelude::*;
use vstd::string::*;

verus! {

/// How often the lives are read again once they are located, in milliseconds.
pub const POLL_INTERVAL_MS: u64 = 400;

/// How often background results, the game and the lives are looked after, in milliseconds.
pub const TICK_MS: u64 = 100;

/// The name of the executable that is looked for at first.
pub open spec fn default_exe_text() -> Seq<char> {
    "Broforce_beta.exe"@
}

/// The other name of the executable.
pub open spec fn fallback_exe_text() -> Seq<char> {
    "Broforce.exe"@
}

/// The name of the executable that is looked for at first.
pub fn default_exe() -> (r: &'static str)
    ensures
        r@ == default_exe_text(),
{
    "Broforce_beta.exe"
}

/// The other name of the executable, so that nobody has to type it.
pub fn fallback_exe() -> (r: &'static str)
    ensures
        r@ == fallback_exe_text(),
{
    "Broforce.exe"
}

/// What detecting the lives came to.
pub enum DetectOutcome {
    Found { addr: u64, value: Option<i32>, steps: Steps },
    NotFound { error: String, steps: Steps },
    Panic(String),
}

/// What a background operation came to.
pub enum Outcome {
    Lives(Report),
    Detection(DetectOutcome),
}

/// What the window shows, apart from the log and the input fields.
pub struct Window {
    pub attached: bool,
    pub busy: bool,
    pub status_text: String,
    pub hint_text: String,
    pub lives_now_text: String,
    pub lives_known: bool,
    pub lives_addr_text: String,
    pub banner_tone: i32,
    pub banner_text: String,
}

/// The state, with a handle on the process that is worked on.
pub struct State<T> {
    pub attached: bool,
    pub pid: Option<u32>,
    pub trainer: Option<T>,
    pub busy: bool,
    /// Where the lives lie, once they are located; from then on they are only read.
    pub lives_addr: Option<u64>,
    pub lives_now: Option<i32>,
    pub force_poll: bool,
    /// The result shown below the buttons: its tone, 0 for none, and its text.
    pub banner: (i32, String),
    pub logs: Log,
}

/// The value of a state.
pub struct Scene {
    pub attached: bool,
    pub pid: Option<u32>,
    /// Whether there is a handle on a process.
    pub connected: bool,
    pub busy: bool,
    pub lives_addr: Option<u64>,
    pub lives_now: Option<i32>,
    pub force_poll: bool,
    pub banner: (i32, Seq<char>),
    pub logs: Seq<Line>,
}

impl<T> View for State<T> {
    type V = Scene;

    open spec fn view(&self) -> Scene {
        Scene {
            attached: self.attached,
            pid: self.pid,
            connected: self.trainer is Some,
            busy: self.busy,
            lives_addr: self.lives_addr,
            lives_now: self.lives_now,
            force_poll: self.force_poll,
            banner: (self.banner.0, self.banner.1@),
            logs: self.logs@,
        }
    }
}

impl Scene {
    /// With a row more in the log.
    pub open spec fn log(self, tone: i32, text: Seq<char>) -> Scene {
        Scene { logs: logged(self.logs, tone, text), ..self }
    }

    /// With the steps in the log, one after the other.
    pub open spec fn log_all(self, steps: Seq<Seq<char>>) -> Scene
        decreases steps.len(),
    {
        if steps.len() == 0 {
            self
        } else {
            self.log_all(steps.drop_last()).log(INFO, steps.last())
        }
    }

    /// Without a banner.
    pub open spec fn no_banner(self) -> Scene {
        Scene { banner: (0, Seq::empty()), ..self }
    }

    /// With nothing located.
    pub open spec fn not_located(self) -> Scene {
        Scene { lives_addr: None, lives_now: None, ..self }.no_banner()
    }

    /// Before anything has happened.
    pub open spec fn first() -> Scene {
        Scene {
            attached: false,
            pid: None,
            connected: false,
            busy: false,
            lives_addr: None,
            lives_now: None,
            force_poll: false,
            banner: (0, Seq::empty()),
            logs: Seq::empty(),
        }.log(INFO, "用法：启动 Broforce 并进入关卡 → 连接 → 点「设为 999 生命」。"@).log(
            WARN,
            "仅限单人模式，联机使用会影响其他玩家。"@,
        )
    }

    /// Whether the fields agree with each other: there is a process and a handle on it exactly
    /// when the state is attached, and the log keeps to its limit.
    pub open spec fn valid(self) -> bool {
        &&& self.attached == self.connected
        &&& self.attached == (self.pid is Some)
        &&& self.logs.len() <= MAX_LOG
    }

    /// After looking for the game under `exe_name`, and under the other name where that is in
    /// order.
    pub open spec fn searched(
        self,
        exe_name: Seq<char>,
        pids: Seq<u32>,
        others: Seq<u32>,
    ) -> Scene {
        let wanted = trim_text(exe_name);
        let s = if moved(exe_name, pids, others) {
            self.log(INFO, "没找到 "@ + wanted + "，改用 "@ + fallback_exe_text())
        } else {
            self
        };
        if candidates(exe_name, pids, others).len() == 0 {
            s.log(ERR, "没有找到进程 "@ + wanted + "，请先启动游戏。"@)
        } else {
            s
        }
    }

    /// After attaching to a process with the mono runtime at `path`, or the failure to do so.
    pub open spec fn attached(self, pid: u32, result: Result<Seq<char>, Seq<char>>) -> Scene {
        match result {
            Ok(path) => Scene {
                connected: true,
                attached: true,
                pid: Some(pid),
                ..self.log(INFO, "已连接 PID "@ + dec_text(pid as nat)).log(
                    INFO,
                    "mono 运行时："@ + path,
                )
            }.not_located(),
            Err(e) => self.log(ERR, e),
        }
    }

    /// After detaching.
    pub open spec fn detached(self) -> Scene {
        let s = Scene { connected: false, attached: false, pid: None, busy: false, ..self };
        s.not_located().log(INFO, "已断开连接。"@)
    }

    /// After reading the number of the player.
    pub open spec fn player_read(self, player: Seq<char>) -> Scene {
        if player_of(player) is None {
            self.log(ERR, "玩家序号要填 0 到 3 之间的整数。"@)
        } else {
            self
        }
    }

    /// After reading the number of lives.
    pub open spec fn lives_read(self, lives: Seq<char>) -> Scene {
        if lives_of(lives) is None {
            self.log(ERR, "生命值要填整数。"@)
        } else {
            self
        }
    }

    /// With an operation under way.
    pub open spec fn working(self, text: Seq<char>) -> Scene {
        Scene { busy: true, ..self }.no_banner().log(INFO, text)
    }

    /// After the wish to set the lives. Both fields are read, so that the complaints about
    /// both are shown.
    pub open spec fn applied(self, player: Seq<char>, lives: Seq<char>) -> Scene {
        if !self.connected {
            self
        } else {
            let s = self.player_read(player).lives_read(lives);
            match (player_of(player), lives_of(lives)) {
                (Some(p), Some(n)) => s.working(
                    "正在把玩家 "@ + int_text(p as int) + " 的生命设为 "@ + int_text(n as int) + " …"@,
                ),
                _ => s,
            }
        }
    }

    /// After the wish to detect the lives.
    pub open spec fn detecting(self, player: Seq<char>) -> Scene {
        if !self.connected {
            self
        } else {
            let s = self.player_read(player);
            match player_of(player) {
                Some(p) => s.working("正在定位玩家 "@ + int_text(p as int) + " 的生命值 …"@),
                None => s,
            }
        }
    }

    /// After clearing the log.
    pub open spec fn log_cleared(self) -> Scene {
        Scene { logs: Seq::empty(), ..self }.log(INFO, "日志已清空。"@)
    }

    /// After copying the log.
    pub open spec fn log_copied(self, done: bool) -> Scene {
        if done {
            self.log(INFO, "日志已复制到剪贴板。"@)
        } else {
            self.log(WARN, "剪贴板被别的程序占着，复制失败，稍后再试。"@)
        }
    }

    /// After the end of setting the lives.
    pub open spec fn lives_set(self, report: Report) -> Scene {
        let s = Scene { busy: false, ..self }.log_all(texts(report.steps@));
        match report.error {
            Some(e) => Scene { banner: (2, e@), ..s.log(ERR, e@) },
            None => Scene {
                banner: (1, "已写入，看游戏里的生命数。"@),
                ..Scene { lives_addr: report.addr, force_poll: true, ..s }.log(OK, "写入成功。"@)
            },
        }
    }

    /// After the end of detecting the lives.
    pub open spec fn detected(self, outcome: DetectOutcome) -> Scene {
        let s = Scene { busy: false, ..self };
        match outcome {
            DetectOutcome::Found { addr, value, steps } => {
                let found = Scene {
                    lives_addr: Some(addr),
                    lives_now: value,
                    force_poll: true,
                    ..s.log_all(texts(steps@))
                };
                match value {
                    Some(v) => found.log(
                        OK,
                        "当前生命 = "@ + int_text(v as int) + "（地址 0x"@ + hex_text(addr as nat)
                            + "）"@,
                    ),
                    None => found.log(
                        WARN,
                        "地址 0x"@ + hex_text(addr as nat) + " 已定位，但读不到值。"@,
                    ),
                }
            },
            DetectOutcome::NotFound { error, steps } => Scene {
                lives_addr: None,
                lives_now: None,
                ..s.log_all(texts(steps@))
            }.log(ERR, error@),
            DetectOutcome::Panic(msg) => s.log(ERR, "内部错误（panic）："@ + msg@),
        }
    }

    /// After the end of a background operation.
    pub open spec fn finished(self, outcome: Outcome) -> Scene {
        match outcome {
            Outcome::Lives(report) => self.lives_set(report),
            Outcome::Detection(found) => self.detected(found),
        }
    }

    /// After the loss of the background.
    pub open spec fn abandoned(self) -> Scene {
        if self.busy {
            Scene { busy: false, ..self }.log(ERR, "后台线程异常退出，操作未完成。"@)
        } else {
            self
        }
    }

    /// After looking whether the game still runs.
    pub open spec fn watched(self, alive: bool) -> Scene {
        if self.attached && !alive {
            self.log(ERR, "游戏进程已退出。"@).detached()
        } else {
            self
        }
    }

    /// Whether it is time to read the lives again.
    pub open spec fn poll_due(self, elapsed_ms: u64) -> bool {
        self.lives_addr is Some && (self.force_poll || elapsed_ms >= POLL_INTERVAL_MS)
    }

    /// After asking where to read the lives again.
    pub open spec fn polled(self, elapsed_ms: u64) -> Scene {
        Scene { force_poll: self.force_poll && !self.poll_due(elapsed_ms), ..self }
    }

    /// After reading the lives again.
    pub open spec fn shown(self, now: Option<i32>) -> Scene {
        Scene { lives_now: now, ..self }
    }

    /// What the window says about the connection.
    pub open spec fn status_text(self) -> Seq<char> {
        if self.attached {
            match self.pid {
                Some(pid) => "已连接 "@ + dec_text(pid as nat),
                None => "已连接"@,
            }
        } else {
            "未连接"@
        }
    }

    /// What the window says to do next.
    pub open spec fn hint_text(self) -> Seq<char> {
        if self.attached {
            match self.pid {
                Some(pid) => "已连接 · PID "@ + dec_text(pid as nat) + " · mono 运行时已解析"@,
                None => "已连接"@,
            }
        } else {
            "先启动 Broforce，再点「连接」。"@
        }
    }

    /// Whether the lives are known: there have to be an address and a value, so that what
    /// cannot be read is not shown as no lives.
    pub open spec fn lives_known(self) -> bool {
        self.lives_addr is Some && self.lives_now is Some
    }

    /// What the window says about the lives.
    pub open spec fn lives_text(self) -> Seq<char> {
        if self.lives_known() {
            int_text(self.lives_now->0 as int)
        } else {
            "—"@
        }
    }

    /// What the window says about the address.
    pub open spec fn address_text(self) -> Seq<char> {
        match self.lives_addr {
            Some(addr) => "已定位 0x"@ + hex_text(addr as nat),
            None => "尚未定位内存地址"@,
        }
    }
}

/// Whether the game is to be looked for under its other name: it was not found, and the name
/// was not that one.
pub open spec fn falls_back(exe_name: Seq<char>, pids: Seq<u32>) -> bool {
    pids.len() == 0 && !same_letters(trim_text(exe_name), fallback_exe_text())
}

/// Whether the game was found under its other name.
pub open spec fn moved(exe_name: Seq<char>, pids: Seq<u32>, others: Seq<u32>) -> bool {
    falls_back(exe_name, pids) && others.len() > 0
}

/// The processes that can be the game.
pub open spec fn candidates(exe_name: Seq<char>, pids: Seq<u32>, others: Seq<u32>) -> Seq<u32> {
    if falls_back(exe_name, pids) {
        others
    } else {
        pids
    }
}

/// The number of a player, from 0 to 3.
pub open spec fn player_of(text: Seq<char>) -> Option<i32> {
    match i32_of_text(trim_text(text)) {
        Some(v) => if 0 <= v < 4 {
            Some(v)
        } else {
            None
        },
        None => None,
    }
}

/// A number of lives.
pub open spec fn lives_of(text: Seq<char>) -> Option<i32> {
    i32_of_text(trim_text(text))
}

/// Tells whether the game is to be looked for under its other name.
pub fn wants_fallback(exe_name: &str, pids: &Vec<u32>) -> (r: bool)
    ensures
        r == falls_back(exe_name@, pids@),
{
    pids.len() == 0 && !eq_ignore_ascii_case(trim(exe_name), fallback_exe())
}

/// The process to attach to, and whether it goes by the other name.
pub struct Target {
    pub pid: Option<u32>,
    pub renamed: bool,
}

/// What there is to read in a panic, given its payload as a `&str` and as a `String`.
pub fn panic_message(as_str: Option<&str>, as_string: Option<&str>) -> (r: String)
    ensures
        r@ == match (as_str, as_string) {
            (Some(m), _) => m@,
            (None, Some(m)) => m@,
            (None, None) => "（无法读取 panic 信息）"@,
        },
{
    if let Some(m) = as_str {
        m.to_owned()
    } else if let Some(m) = as_string {
        m.to_owned()
    } else {
        "（无法读取 panic 信息）".to_owned()
    }
}

/// The report of an operation that panicked.
pub fn panic_report(message: &str) -> (r: Report)
    ensures
        r.steps@ == Seq::<String>::empty(),
        r.addr is None,
        r.error matches Some(e) && e@ == "内部错误（panic）："@ + message@,
{
    Report {
        steps: Vec::new(),
        addr: None,
        error: Some("内部错误（panic）：".to_owned().concat(message)),
    }
}

impl<T> State<T> {
    /// The state before anything has happened.
    pub fn new() -> (r: Self)
        ensures
            r@ == Scene::first(),
    {
        let mut s = State {
            attached: false,
            pid: None,
            trainer: None,
            busy: false,
            lives_addr: None,
            lives_now: None,
            force_poll: false,
            banner: (0, String::new()),
            logs: Log::new(),
        };
        assert(s.banner.1@ =~= Seq::<char>::empty());
        s.push(INFO, "用法：启动 Broforce 并进入关卡 → 连接 → 点「设为 999 生命」。");
        s.push(WARN, "仅限单人模式，联机使用会影响其他玩家。");
        s
    }

    /// Adds a row to the log.
    pub fn push(&mut self, tone: i32, text: &str)
        ensures
            still_shown(old(self).logs, final(self).logs),
            final(self)@ == old(self)@.log(tone, text@),
            final(self).trainer == old(self).trainer,
    {
        self.logs.push(tone, text);
    }

    /// Adds the steps of an operation to the log.
    pub fn push_steps(&mut self, steps: &Steps)
        ensures
            still_shown(old(self).logs, final(self).logs),
            final(self)@ == old(self)@.log_all(texts(steps@)),
            final(self).trainer == old(self).trainer,
    {
        let mut i: usize = 0;
        let ghost all = texts(steps@);
        assert(all.take(0) =~= Seq::empty());
        while i < steps.len()
            invariant
                i <= steps.len(),
                all == texts(steps@),
                self@ == old(self)@.log_all(all.take(i as int)),
                self.trainer == old(self).trainer,
                still_shown(old(self).logs, self.logs),
            decreases steps.len() - i,
        {
            assert(all.take(i + 1).drop_last() =~= all.take(i as int));
            assert(all.take(i + 1).last() == steps[i as int]@);
            self.push(INFO, steps[i].as_str());
            i = i + 1;
        }
        assert(all.take(i as int) =~= all);
    }

    /// Takes the banner down.
    pub fn clear_banner(&mut self)
        ensures
            still_shown(old(self).logs, final(self).logs),
            final(self)@ == old(self)@.no_banner(),
            final(self).trainer == old(self).trainer,
    {
        self.banner = (0, String::new());
        assert(self.banner.1@ =~= Seq::<char>::empty());
    }

    /// Forgets what was located.
    pub fn clear_located(&mut self)
        ensures
            still_shown(old(self).logs, final(self).logs),
            final(self)@ == old(self)@.not_located(),
            final(self).trainer == old(self).trainer,
    {
        self.lives_addr = None;
        self.lives_now = None;
        self.clear_banner();
    }

    // -----------------------------------------------------------------------
    // Buttons
    // -----------------------------------------------------------------------
    /// Takes up the processes found under `exe_name`, and under the other name where
    /// `wants_fallback` says to look for it.
    pub fn search(&mut self, exe_name: &str, pids: &Vec<u32>, others: &Vec<u32>) -> (r: Target)
        ensures
            still_shown(old(self).logs, final(self).logs),
            final(self)@ == old(self)@.searched(exe_name@, pids@, others@),
            final(self).trainer == old(self).trainer,
            r.renamed == moved(exe_name@, pids@, others@),
            match r.pid {
                Some(pid) => candidates(exe_name@, pids@, others@).len() > 0 && pid == candidates(
                    exe_name@,
                    pids@,
                    others@,
                )[0],
                None => candidates(exe_name@, pids@, others@).len() == 0,
            },
    {
        let wanted: &str = trim(exe_name);
        let falls: bool = wants_fallback(exe_name, pids);
        let renamed: bool = falls && others.len() > 0;
        if renamed {
            self.push(
                INFO,
                "没找到 ".to_owned().concat(wanted).concat("，改用 ").concat(fallback_exe()).as_str(),
            );
        }
        let found: &Vec<u32> = if falls {
            others
        } else {
            pids
        };
        if found.len() == 0 {
            self.push(
                ERR,
                "没有找到进程 ".to_owned().concat(wanted).concat("，请先启动游戏。").as_str(),
            );
            Target { pid: None, renamed }
        } else {
            Target { pid: Some(found[0]), renamed }
        }
    }

    /// Takes up the process that was attached to, with the path of its mono runtime.
    pub fn attach(&mut self, pid: u32, result: Result<(T, String), String>)
        ensures
            still_shown(old(self).logs, final(self).logs),
            final(self)@ == old(self)@.attached(
                pid,
                match result {
                    Ok((_, path)) => Ok(path@),
                    Err(e) => Err(e@),
                },
            ),
            final(self).trainer == match result {
                Ok((trainer, _)) => Some(trainer),
                Err(_) => old(self).trainer,
            },
    {
        match result {
            Ok((trainer, path)) => {
                self.push(INFO, "已连接 PID ".to_owned().concat(dec(pid as u64).as_str()).as_str());
                self.push(INFO, "mono 运行时：".to_owned().concat(path.as_str()).as_str());
                self.trainer = Some(trainer);
                self.attached = true;
                self.pid = Some(pid);
                self.clear_located();
            },
            Err(e) => self.push(ERR, e.as_str()),
        }
    }

    /// Lets the process go.
    pub fn detach(&mut self)
        ensures
            still_shown(old(self).logs, final(self).logs),
            final(self)@ == old(self)@.detached(),
            final(self).trainer is None,
    {
        self.trainer = None;
        self.attached = false;
        self.pid = None;
        self.busy = false;
        self.clear_located();
        self.push(INFO, "已断开连接。");
    }

    /// Reads the number of the player.
    pub fn parse_player(&mut self, player: &str) -> (r: Option<i32>)
        ensures
            still_shown(old(self).logs, final(self).logs),
            final(self)@ == old(self)@.player_read(player@),
            final(self).trainer == old(self).trainer,
            r == player_of(player@),
            forall|n: i32| 0 <= n <= 3 && #[trigger] typed(player@, n as int) ==> r == Some(n),
    {
        proof {
            lemma_typed(player@);
        }
        if let Some(v) = parse_i32(trim(player)) {
            if 0 <= v && v < 4 {
                return Some(v);
            }
        }
        self.push(ERR, "玩家序号要填 0 到 3 之间的整数。");
        None
    }

    /// Reads the number of lives.
    pub fn parse_lives(&mut self, lives: &str) -> (r: Option<i32>)
        ensures
            still_shown(old(self).logs, final(self).logs),
            final(self)@ == old(self)@.lives_read(lives@),
            final(self).trainer == old(self).trainer,
            r == lives_of(lives@),
            forall|n: i32| #[trigger] typed(lives@, n as int) ==> r == Some(n),
    {
        proof {
            lemma_typed(lives@);
        }
        let r: Option<i32> = parse_i32(trim(lives));
        if r.is_none() {
            self.push(ERR, "生命值要填整数。");
        }
        r
    }

    /// Starts setting the lives: the player and the lives to set, if all is in order.
    pub fn apply(&mut self, player: &str, lives: &str) -> (r: Option<(i32, i32)>)
        ensures
            still_shown(old(self).logs, final(self).logs),
            final(self)@ == old(self)@.applied(player@, lives@),
            final(self).trainer == old(self).trainer,
            r == match (player_of(player@), lives_of(lives@)) {
                (Some(p), Some(n)) => if old(self)@.connected {
                    Some((p, n))
                } else {
                    None
                },
                _ => None,
            },
            forall|p: i32, n: i32|
                old(self)@.connected && 0 <= p <= 3 && #[trigger] typed(player@, p as int)
                    && #[trigger] typed(lives@, n as int) ==> r == Some((p, n)),
    {
        proof {
            lemma_typed(player@);
            lemma_typed(lives@);
        }
        if self.trainer.is_none() {
            return None;
        }
        let p: Option<i32> = self.parse_player(player);
        let n: Option<i32> = self.parse_lives(lives);
        match (p, n) {
            (Some(p), Some(n)) => {
                self.busy = true;
                self.clear_banner();
                self.push(
                    INFO,
                    "正在把玩家 ".to_owned().concat(dec_i32(p).as_str()).concat(" 的生命设为 ").concat(
                        dec_i32(n).as_str(),
                    ).concat(" …").as_str(),
                );
                Some((p, n))
            },
            _ => None,
        }
    }

    /// Starts detecting the lives: the player, if all is in order.
    pub fn detect(&mut self, player: &str) -> (r: Option<i32>)
        ensures
            still_shown(old(self).logs, final(self).logs),
            final(self)@ == old(self)@.detecting(player@),
            final(self).trainer == old(self).trainer,
            r == if old(self)@.connected {
                player_of(player@)
            } else {
                None
            },
            forall|p: i32|
                old(self)@.connected && 0 <= p <= 3 && #[trigger] typed(player@, p as int) ==> r
                    == Some(p),
    {
        proof {
            lemma_typed(player@);
        }
        if self.trainer.is_none() {
            return None;
        }
        match self.parse_player(player) {
            Some(p) => {
                self.busy = true;
                self.clear_banner();
                self.push(
                    INFO,
                    "正在定位玩家 ".to_owned().concat(dec_i32(p).as_str()).concat(
                        " 的生命值 …",
                    ).as_str(),
                );
                Some(p)
            },
            None => None,
        }
    }

    /// Clears the log.
    pub fn clear_log(&mut self)
        ensures
            still_shown(old(self).logs, final(self).logs),
            final(self)@ == old(self)@.log_cleared(),
            final(self).trainer == old(self).trainer,
    {
        self.logs.clear();
        self.push(INFO, "日志已清空。");
    }

    /// Tells whether the text of the log got into the clipboard.
    pub fn copy_log(&mut self, done: bool)
        ensures
            still_shown(old(self).logs, final(self).logs),
            final(self)@ == old(self)@.log_copied(done),
            final(self).trainer == old(self).trainer,
    {
        if done {
            self.push(INFO, "日志已复制到剪贴板。");
        } else {
            self.push(WARN, "剪贴板被别的程序占着，复制失败，稍后再试。");
        }
    }

    // -----------------------------------------------------------------------
    // The heartbeat
    // -----------------------------------------------------------------------
    /// Takes up the end of setting the lives.
    fn finish_lives(&mut self, report: Report)
        ensures
            still_shown(old(self).logs, final(self).logs),
            final(self)@ == old(self)@.lives_set(report),
            final(self).trainer == old(self).trainer,
    {
        self.busy = false;
        self.push_steps(&report.steps);
        match report.error {
            Some(e) => {
                self.push(ERR, e.as_str());
                self.banner = (2, e);
            },
            None => {
                self.lives_addr = report.addr;
                self.force_poll = true;
                self.push(OK, "写入成功。");
                self.banner = (1, "已写入，看游戏里的生命数。".to_owned());
            },
        }
    }

    /// Takes up the end of detecting the lives.
    fn finish_detection(&mut self, outcome: DetectOutcome)
        ensures
            still_shown(old(self).logs, final(self).logs),
            final(self)@ == old(self)@.detected(outcome),
            final(self).trainer == old(self).trainer,
    {
        self.busy = false;
        match outcome {
            DetectOutcome::Found { addr, value, steps } => {
                self.push_steps(&steps);
                self.lives_addr = Some(addr);
                self.lives_now = value;
                self.force_poll = true;
                match value {
                    Some(v) => self.push(
                        OK,
                        "当前生命 = ".to_owned().concat(dec_i32(v).as_str()).concat("（地址 0x").concat(
                            hex(addr).as_str(),
                        ).concat("）").as_str(),
                    ),
                    None => self.push(
                        WARN,
                        "地址 0x".to_owned().concat(hex(addr).as_str()).concat(
                            " 已定位，但读不到值。",
                        ).as_str(),
                    ),
                }
            },
            DetectOutcome::NotFound { error, steps } => {
                self.push_steps(&steps);
                self.lives_addr = None;
                self.lives_now = None;
                self.push(ERR, error.as_str());
            },
            DetectOutcome::Panic(msg) => self.push(
                ERR,
                "内部错误（panic）：".to_owned().concat(msg.as_str()).as_str(),
            ),
        }
    }

    /// Takes up the end of a background operation.
    pub fn finish(&mut self, outcome: Outcome)
        ensures
            still_shown(old(self).logs, final(self).logs),
            final(self)@ == old(self)@.finished(outcome),
            final(self).trainer == old(self).trainer,
            !final(self).busy,
            outcome matches Outcome::Detection(DetectOutcome::Found { addr, value, .. }) ==> {
                &&& final(self).lives_addr == Some(addr)
                &&& final(self).lives_now == value
                &&& final(self).force_poll
            },
            outcome matches Outcome::Lives(report) ==> (report.error is None ==> {
                &&& final(self).lives_addr == report.addr
                &&& final(self).force_poll
            }),
    {
        proof {
            lemma_finished(self@, outcome);
        }
        match outcome {
            Outcome::Lives(report) => self.finish_lives(report),
            Outcome::Detection(found) => self.finish_detection(found),
        }
    }

    /// Takes up the loss of the background, and tells whether that changed anything.
    pub fn abandon(&mut self) -> (r: bool)
        ensures
            still_shown(old(self).logs, final(self).logs),
            final(self)@ == old(self)@.abandoned(),
            final(self).trainer == old(self).trainer,
            r == old(self)@.busy,
    {
        if self.busy {
            self.busy = false;
            self.push(ERR, "后台线程异常退出，操作未完成。");
            true
        } else {
            false
        }
    }

    /// Detaches when the game is gone, and tells whether it did. Without a handle nothing
    /// counts as alive.
    pub fn check_alive(&mut self, alive: bool) -> (r: bool)
        ensures
            still_shown(old(self).logs, final(self).logs),
            final(self)@ == old(self)@.watched(alive),
            final(self).trainer == if r {
                None
            } else {
                old(self).trainer
            },
            r == (old(self)@.attached && !alive),
    {
        if self.attached && !alive {
            self.push(ERR, "游戏进程已退出。");
            self.detach();
            true
        } else {
            false
        }
    }

    /// Tells where to read the lives again, if it is time to.
    pub fn poll_lives(&mut self, elapsed_ms: u64) -> (r: Option<u64>)
        ensures
            still_shown(old(self).logs, final(self).logs),
            final(self).trainer == old(self).trainer,
            if old(self)@.poll_due(elapsed_ms) {
                r == old(self)@.lives_addr && final(self)@ == (Scene {
                    force_poll: false,
                    ..old(self)@
                })
            } else {
                r is None && final(self)@ == old(self)@
            },
            final(self)@ == old(self)@.polled(elapsed_ms),
    {
        match self.lives_addr {
            None => None,
            Some(addr) => {
                if !self.force_poll && elapsed_ms < POLL_INTERVAL_MS {
                    return None;
                }
                self.force_poll = false;
                Some(addr)
            },
        }
    }

    /// Takes up the lives that were read, and tells whether they are new.
    pub fn show_lives(&mut self, now: Option<i32>) -> (r: bool)
        ensures
            still_shown(old(self).logs, final(self).logs),
            final(self)@ == (Scene { lives_now: now, ..old(self)@ }),
            final(self)@ == old(self)@.shown(now),
            final(self).trainer == old(self).trainer,
            r == (now != old(self)@.lives_now),
    {
        let same: bool = match (now, self.lives_now) {
            (Some(a), Some(b)) => a == b,
            (None, None) => true,
            _ => false,
        };
        self.lives_now = now;
        !same
    }

    /// What the window has to show.
    pub fn window(&self) -> (r: Window)
        ensures
            r.attached == self@.attached,
            r.busy == self@.busy,
            r.status_text@ == self@.status_text(),
            r.hint_text@ == self@.hint_text(),
            r.lives_now_text@ == self@.lives_text(),
            r.lives_known == self@.lives_known(),
            r.lives_addr_text@ == self@.address_text(),
            r.banner_tone == self@.banner.0,
            r.banner_text@ == self@.banner.1,
            self.lives_addr is Some && self.lives_now is Some ==> integer_of_text(r.lives_now_text@)
                == Some(self.lives_now->0 as int),
    {
        proof {
            law_the_window_shows_the_lives(self@);
        }
        let (status_text, hint_text) = if self.attached {
            match self.pid {
                Some(pid) => (
                    "已连接 ".to_owned().concat(dec(pid as u64).as_str()),
                    "已连接 · PID ".to_owned().concat(dec(pid as u64).as_str()).concat(
                        " · mono 运行时已解析",
                    ),
                ),
                None => ("已连接".to_owned(), "已连接".to_owned()),
            }
        } else {
            ("未连接".to_owned(), "先启动 Broforce，再点「连接」。".to_owned())
        };
        let (lives_now_text, lives_known) = match (self.lives_addr, self.lives_now) {
            (Some(_), Some(v)) => (dec_i32(v), true),
            _ => ("—".to_owned(), false),
        };
        let lives_addr_text: String = match self.lives_addr {
            Some(addr) => "已定位 0x".to_owned().concat(hex(addr).as_str()),
            None => "尚未定位内存地址".to_owned(),
        };
        Window {
            attached: self.attached,
            busy: self.busy,
            status_text,
            hint_text,
            lives_now_text,
            lives_known,
            lives_addr_text,
            banner_tone: self.banner.0,
            banner_text: self.banner.1.clone(),
        }
    }
}

// ---------------------------------------------------------------------------
// Laws
// ---------------------------------------------------------------------------
/// Logging steps changes the log and nothing else, and keeps it to its limit.
proof fn lemma_log_all(s: Scene, steps: Seq<Seq<char>>)
    ensures
        s.logs.len() <= MAX_LOG ==> s.log_all(steps).logs.len() <= MAX_LOG,
        s.log_all(steps) == (Scene { logs: s.log_all(steps).logs, ..s }),
    decreases steps.len(),
{
    if steps.len() > 0 {
        lemma_log_all(s, steps.drop_last());
    }
}

/// Every event leaves a valid state valid: attached, with a process and a handle on it, or
/// none of these; and a log that keeps to its limit.
pub proof fn law_state_stays_valid(
    s: Scene,
    exe_name: Seq<char>,
    pids: Seq<u32>,
    others: Seq<u32>,
    pid: u32,
    result: Result<Seq<char>, Seq<char>>,
    player: Seq<char>,
    lives: Seq<char>,
    outcome: Outcome,
    yes: bool,
)
    requires
        s.valid(),
    ensures
        Scene::first().valid(),
        s.searched(exe_name, pids, others).valid(),
        s.attached(pid, result).valid(),
        s.detached().valid(),
        s.applied(player, lives).valid(),
        s.detecting(player).valid(),
        s.log_cleared().valid(),
        s.log_copied(yes).valid(),
        s.finished(outcome).valid(),
        s.abandoned().valid(),
        s.watched(yes).valid(),
{
    match outcome {
        Outcome::Lives(report) => lemma_log_all(Scene { busy: false, ..s }, texts(report.steps@)),
        Outcome::Detection(DetectOutcome::Found { steps, .. }) => lemma_log_all(
            Scene { busy: false, ..s },
            texts(steps@),
        ),
        Outcome::Detection(DetectOutcome::NotFound { steps, .. }) => lemma_log_all(
            Scene { busy: false, ..s },
            texts(steps@),
        ),
        _ => {},
    }
}

/// However an operation ends, the window is free again: with an outcome, with the loss of the
/// background, by detaching, and when the game is gone.
pub proof fn law_no_end_leaves_the_window_busy(s: Scene, outcome: Outcome)
    ensures
        !s.finished(outcome).busy,
        !s.abandoned().busy,
        !s.detached().busy,
        s.attached ==> !s.watched(false).busy,
{
    match outcome {
        Outcome::Lives(report) => lemma_log_all(Scene { busy: false, ..s }, texts(report.steps@)),
        Outcome::Detection(DetectOutcome::Found { steps, .. }) => lemma_log_all(
            Scene { busy: false, ..s },
            texts(steps@),
        ),
        Outcome::Detection(DetectOutcome::NotFound { steps, .. }) => lemma_log_all(
            Scene { busy: false, ..s },
            texts(steps@),
        ),
        _ => {},
    }
}

/// An operation starts only on a process, and only with fields that make sense; otherwise
/// nothing but the log changes, and without a process not even that.
pub proof fn law_operations_start_in_order(s: Scene, player: Seq<char>, lives: Seq<char>)
    ensures
        s.applied(player, lives).busy <==> s.busy || (s.connected && player_of(player) is Some
            && lives_of(lives) is Some),
        s.detecting(player).busy <==> s.busy || (s.connected && player_of(player) is Some),
        player_of(player) is None || lives_of(lives) is None ==> s.applied(player, lives) == (Scene {
            logs: s.applied(player, lives).logs,
            ..s
        }),
        player_of(player) is None ==> s.detecting(player) == (Scene {
            logs: s.detecting(player).logs,
            ..s
        }),
        !s.connected ==> s.applied(player, lives) == s && s.detecting(player) == s,
{
}

/// After detaching, nothing of the process is left: no process, no address, no lives, no
/// banner.
pub proof fn law_detaching_forgets(s: Scene)
    ensures
        ({
            let d = s.detached();
            &&& !d.attached && !d.connected && d.pid is None
            &&& d.lives_addr is None && d.lives_now is None && !d.lives_known()
            &&& d.banner == (0i32, Seq::<char>::empty())
        }),
{
}

/// The steps of an operation are in the log in their order, as far as it holds them, whether
/// the operation succeeded or not.
pub proof fn law_steps_are_logged(s: Scene, steps: Seq<Seq<char>>)
    requires
        steps.len() <= MAX_LOG,
    ensures
        ({
            let log = s.log_all(steps).logs;
            &&& log.len() >= steps.len()
            &&& forall|i: int|
                0 <= i < steps.len() ==> #[trigger] log[log.len() - steps.len() + i] == (
                    mark_text(INFO),
                    steps[i],
                    INFO as int,
                )
        }),
    decreases steps.len(),
{
    if steps.len() > 0 {
        law_steps_are_logged(s, steps.drop_last());
        let n = steps.len();
        let before = s.log_all(steps.drop_last()).logs;
        let after = s.log_all(steps).logs;
        let room = with_room(before);
        assert(room.len() >= n - 1);
        assert forall|i: int| 0 <= i < n implies #[trigger] after[after.len() - n + i] == (
            mark_text(INFO),
            steps[i],
            INFO as int,
        ) by {
            if i < n - 1 {
                let k = before.len() - (n - 1) + i;
                assert(before[k] == (mark_text(INFO), steps.drop_last()[i], INFO as int));
                assert(after[after.len() - n + i] == room[room.len() - (n - 1) + i]);
            }
        }
    }
}

// ---------------------------------------------------------------------------
// What the user types, and what is shown
// ---------------------------------------------------------------------------
/// Whether there is nothing but white space.
pub open spec fn blank(s: Seq<char>) -> bool {
    forall|i: int| 0 <= i < s.len() ==> is_white(#[trigger] s[i])
}

/// Whether the text is a number with white space around it, or none.
pub open spec fn typed(text: Seq<char>, n: int) -> bool {
    exists|a: Seq<char>, b: Seq<char>|
        #[trigger] blank(a) && #[trigger] blank(b) && text == a + int_text(n) + b
}

/// The number that is typed is the number that is taken, whatever it is: of the lives every
/// number of 32 bits, of the player those from 0 to 3.
pub proof fn law_typed_numbers_are_taken(text: Seq<char>, n: i32)
    requires
        typed(text, n as int),
    ensures
        lives_of(text) == Some(n),
        player_of(text) == if n == 0 || n == 1 || n == 2 || n == 3 {
            Some(n)
        } else {
            None
        },
{
    let (a, b) = choose|a: Seq<char>, b: Seq<char>|
        #[trigger] blank(a) && #[trigger] blank(b) && text == a + int_text(n as int) + b;
    law_shown_numbers_read_back(n as int);
    lemma_numbers_are_bare(n as int);
    law_trimming_takes_white_space_off(a, int_text(n as int), b);
}

proof fn lemma_typed(text: Seq<char>)
    ensures
        forall|n: i32|
            #[trigger] typed(text, n as int) ==> lives_of(text) == Some(n) && (0 <= n <= 3
                ==> player_of(text) == Some(n)),
{
    assert forall|n: i32| #[trigger] typed(text, n as int) implies lives_of(text) == Some(n) && (0
        <= n <= 3 ==> player_of(text) == Some(n)) by {
        law_typed_numbers_are_taken(text, n);
    }
}

/// A number starts and ends with something else than white space.
proof fn lemma_numbers_are_bare(n: int)
    ensures
        int_text(n).len() > 0,
        !is_white(int_text(n)[0]),
        !is_white(int_text(n).last()),
{
    reveal_strlit("-");
    let v: nat = if n < 0 {
        (-n) as nat
    } else {
        n as nat
    };
    law_decimal_reads_back(v);
    assert('0' <= dec_text(v)[0] <= '9');
    assert('0' <= dec_text(v).last() <= '9');
    assert(int_text(n).last() == dec_text(v).last());
}

/// What is taken is what is typed: only white space is passed over, and the rest is a number.
pub proof fn law_taken_numbers_were_typed(text: Seq<char>) -> (r: (Seq<char>, Seq<char>, Seq<char>))
    ensures
        text == r.0 + r.1 + r.2,
        blank(r.0),
        blank(r.2),
        match integer_of_text(r.1) {
            Some(n) => if i32::MIN <= n <= i32::MAX {
                lives_of(text) == Some(n as i32)
            } else {
                lives_of(text) is None
            },
            None => lives_of(text) is None && player_of(text) is None,
        },
        player_of(text) matches Some(p) ==> integer_of_text(r.1) == Some(p as int) && 0 <= p <= 3,
{
    let k = law_trimming_only_takes_white_space_off(text);
    let m = trim_text(text);
    let r = (text.take(k), m, text.skip(k + m.len()));
    assert(text =~= r.0 + r.1 + r.2);
    assert forall|i: int| 0 <= i < r.2.len() implies is_white(#[trigger] r.2[i]) by {
        assert(r.2[i] == text[k + m.len() + i]);
    }
    r
}

/// The window shows the lives that are known, and no number where they are not.
pub proof fn law_the_window_shows_the_lives(s: Scene)
    ensures
        s.lives_addr is Some && s.lives_now is Some ==> s.lives_known() && integer_of_text(
            s.lives_text(),
        ) == Some(s.lives_now->0 as int),
        s.lives_addr is None || s.lives_now is None ==> !s.lives_known() && s.lives_text() == "—"@,
        integer_of_text("—"@) is None,
{
    reveal_strlit("—");
    if s.lives_now is Some {
        law_shown_numbers_read_back(s.lives_now->0 as int);
    }
}

/// The window shows the address that is located, and the process that is attached to.
pub proof fn law_the_window_shows_the_place(s: Scene)
    ensures
        match s.lives_addr {
            Some(addr) => locates(s.address_text(), "已定位 0x"@, addr as nat, Seq::empty()),
            None => s.address_text() == "尚未定位内存地址"@,
        },
        s.attached ==> match s.pid {
            Some(pid) => {
                &&& tells(s.status_text(), "已连接 "@, pid as int, Seq::empty())
                &&& tells(s.hint_text(), "已连接 · PID "@, pid as int, " · mono 运行时已解析"@)
            },
            None => s.status_text() == "已连接"@ && s.hint_text() == "已连接"@,
        },
        !s.attached ==> s.status_text() == "未连接"@ && s.hint_text()
            == "先启动 Broforce，再点「连接」。"@,
{
    if s.lives_addr is Some {
        let addr = s.lives_addr->0 as nat;
        law_hexadecimal_reads_back(addr);
        assert(s.address_text() =~= "已定位 0x"@ + hex_text(addr) + Seq::empty());
    }
    if s.pid is Some {
        let pid = s.pid->0 as int;
        law_shown_numbers_read_back(pid);
        assert(int_text(pid) == dec_text(pid as nat));
        if s.attached {
            assert(s.status_text() =~= "已连接 "@ + int_text(pid) + Seq::empty());
        }
    }
}

// ---------------------------------------------------------------------------
// What the events do
// ---------------------------------------------------------------------------
/// Whether the log ends with the steps in their order and a row behind them, and holds what was
/// there before them as far as there is room.
pub open spec fn ends_with(
    before: Seq<Line>,
    after: Seq<Line>,
    steps: Seq<Seq<char>>,
    row: Line,
) -> bool {
    &&& after.len() > 0 && after.last() == row
    &&& after.len() <= 300 || after.len() <= before.len()
    &&& steps.len() < 300 ==> after.len() > steps.len() && forall|i: int|
        0 <= i < steps.len() ==> #[trigger] after[after.len() - 1 - steps.len() + i] == (
            "·"@,
            steps[i],
            0int,
        )
    &&& before.len() + steps.len() < 300 ==> after.len() == before.len() + steps.len() + 1
        && after.take(before.len() as int) == before
}

proof fn lemma_steps_stay(s: Scene, steps: Seq<Seq<char>>)
    requires
        s.logs.len() + steps.len() <= 300,
    ensures
        s.log_all(steps).logs.len() == s.logs.len() + steps.len(),
        s.log_all(steps).logs.take(s.logs.len() as int) == s.logs,
    decreases steps.len(),
{
    if steps.len() > 0 {
        lemma_steps_stay(s, steps.drop_last());
        let b = s.log_all(steps.drop_last()).logs;
        let a = s.log_all(steps).logs;
        assert(a.take(s.logs.len() as int) =~= b.take(s.logs.len() as int));
    }
}

proof fn lemma_ends(s: Scene, steps: Seq<Seq<char>>, tone: i32, text: Seq<char>)
    ensures
        ends_with(
            s.logs,
            logged(s.log_all(steps).logs, tone, text),
            steps,
            (mark_text(tone), text, tone as int),
        ),
{
    let b = s.log_all(steps).logs;
    let a = logged(b, tone, text);
    let n = steps.len();
    if n < 300 {
        law_steps_are_logged(s, steps);
        assert forall|i: int| 0 <= i < n implies #[trigger] a[a.len() - 1 - n + i] == (
            "·"@,
            steps[i],
            0int,
        ) by {
            assert(b[b.len() - n + i] == (mark_text(INFO), steps[i], INFO as int));
            assert(a[a.len() - 1 - n + i] == with_room(b)[with_room(b).len() - n + i]);
        }
    }
    if s.logs.len() + n < 300 {
        lemma_steps_stay(s, steps);
        assert(a.take(s.logs.len() as int) =~= b.take(s.logs.len() as int));
    }
}

/// What was detected is what is located from then on, whatever was located before: the address
/// and the value are those found, and the address is read again at once. The log tells both.
pub proof fn law_detection_locates(s: Scene, addr: u64, value: Option<i32>, steps: Steps)
    ensures
        ({
            let r = s.detected(DetectOutcome::Found { addr, value, steps });
            &&& r.lives_addr == Some(addr)
            &&& r.lives_now == value
            &&& r.force_poll
            &&& forall|ms: u64| #[trigger] r.poll_due(ms)
            &&& !r.busy
            &&& r.lives_known() == (value is Some)
            &&& r.attached == s.attached && r.pid == s.pid && r.connected == s.connected && r.banner
                == s.banner
            &&& match value {
                Some(v) => exists|m: Seq<char>, k: Seq<char>|
                    {
                        &&& #[trigger] integer_of_text(m) == Some(v as int)
                        &&& #[trigger] hex_value(k) == Some(addr as nat)
                        &&& ends_with(
                            s.logs,
                            r.logs,
                            texts(steps@),
                            ("✓"@, "当前生命 = "@ + m + "（地址 0x"@ + k + "）"@, 1int),
                        )
                    },
                None => {
                    &&& locates(r.logs.last().1, "地址 0x"@, addr as nat, " 已定位，但读不到值。"@)
                    &&& ends_with(
                        s.logs,
                        r.logs,
                        texts(steps@),
                        ("!"@, r.logs.last().1, 2int),
                    )
                },
            }
        }),
{
    let free = Scene { busy: false, ..s };
    lemma_log_all(free, texts(steps@));
    law_hexadecimal_reads_back(addr as nat);
    let k = hex_text(addr as nat);
    match value {
        Some(v) => {
            law_shown_numbers_read_back(v as int);
            let m = int_text(v as int);
            assert(integer_of_text(m) == Some(v as int));
            assert(hex_value(k) == Some(addr as nat));
            lemma_ends(free, texts(steps@), OK, "当前生命 = "@ + m + "（地址 0x"@ + k + "）"@);
        },
        None => {
            let t = "地址 0x"@ + k + " 已定位，但读不到值。"@;
            assert(locates(t, "地址 0x"@, addr as nat, " 已定位，但读不到值。"@));
            lemma_ends(free, texts(steps@), WARN, t);
        },
    }
}

/// Where nothing was detected, nothing is located any more, and the log tells why. A panic
/// leaves what was located.
pub proof fn law_failed_detection(s: Scene, error: String, steps: Steps)
    ensures
        ({
            let r = s.detected(DetectOutcome::NotFound { error, steps });
            &&& r == (Scene { lives_addr: None, lives_now: None, busy: false, logs: r.logs, ..s })
            &&& forall|ms: u64| !#[trigger] r.poll_due(ms)
            &&& ends_with(s.logs, r.logs, texts(steps@), ("✕"@, error@, 3int))
        }),
        ({
            let r = s.detected(DetectOutcome::Panic(error));
            &&& r == (Scene { busy: false, logs: r.logs, ..s })
            &&& adds(s.logs, r.logs, ("✕"@, "内部错误（panic）："@ + error@, 3int))
        }),
{
    let free = Scene { busy: false, ..s };
    lemma_log_all(free, texts(steps@));
    lemma_ends(free, texts(steps@), ERR, error@);
    law_rows_are_added_at_the_end(s.logs, ERR, "内部错误（panic）："@ + error@);
}

/// After a write, the place written to is the place located, and is read at once; the value that
/// was shown stays until then. After a failure what was located stays. The log and the banner
/// tell which it was.
pub proof fn law_setting_the_lives_ends(s: Scene, report: Report)
    ensures
        ({
            let r = s.lives_set(report);
            match report.error {
                None => {
                    &&& r == (Scene {
                        lives_addr: report.addr,
                        force_poll: true,
                        busy: false,
                        banner: (1, "已写入，看游戏里的生命数。"@),
                        logs: r.logs,
                        ..s
                    })
                    &&& forall|ms: u64| #[trigger] r.poll_due(ms) == (report.addr is Some)
                    &&& ends_with(
                        s.logs,
                        r.logs,
                        texts(report.steps@),
                        ("✓"@, "写入成功。"@, 1int),
                    )
                },
                Some(e) => {
                    &&& r == (Scene { busy: false, banner: (2, e@), logs: r.logs, ..s })
                    &&& ends_with(s.logs, r.logs, texts(report.steps@), ("✕"@, e@, 3int))
                },
            }
        }),
        s.finished(Outcome::Lives(report)) == s.lives_set(report),
        forall|d: DetectOutcome| #[trigger] s.finished(Outcome::Detection(d)) == s.detected(d),
{
    let free = Scene { busy: false, ..s };
    lemma_log_all(free, texts(report.steps@));
    match report.error {
        None => lemma_ends(free, texts(report.steps@), OK, "写入成功。"@),
        Some(e) => lemma_ends(free, texts(report.steps@), ERR, e@),
    }
}

proof fn lemma_finished(s: Scene, outcome: Outcome)
    ensures
        !s.finished(outcome).busy,
        outcome matches Outcome::Detection(DetectOutcome::Found { addr, value, .. }) ==> {
            &&& s.finished(outcome).lives_addr == Some(addr)
            &&& s.finished(outcome).lives_now == value
            &&& s.finished(outcome).force_poll
        },
        outcome matches Outcome::Lives(report) ==> (report.error is None ==> {
            &&& s.finished(outcome).lives_addr == report.addr
            &&& s.finished(outcome).force_poll
        }),
{
    law_no_end_leaves_the_window_busy(s, outcome);
    match outcome {
        Outcome::Lives(report) => law_setting_the_lives_ends(s, report),
        Outcome::Detection(DetectOutcome::Found { addr, value, steps }) => law_detection_locates(
            s,
            addr,
            value,
            steps,
        ),
        _ => {},
    }
}

/// Attaching takes up the process and forgets what was located in another one; the log tells the
/// process and its mono runtime. A failure only shows in the log.
pub proof fn law_attaching(s: Scene, pid: u32, path: Seq<char>)
    ensures
        ({
            let r = s.attached(pid, Ok(path));
            &&& r == (Scene {
                connected: true,
                attached: true,
                pid: Some(pid),
                lives_addr: None,
                lives_now: None,
                banner: (0, Seq::empty()),
                logs: r.logs,
                ..s
            })
            &&& r.logs.last() == ("·"@, "mono 运行时："@ + path, 0int)
            &&& r.logs.len() > 1
            &&& r.logs[r.logs.len() - 2].0 == "·"@ && r.logs[r.logs.len() - 2].2 == 0
            &&& tells(r.logs[r.logs.len() - 2].1, "已连接 PID "@, pid as int, Seq::empty())
        }),
        ({
            let r = s.attached(pid, Err(path));
            &&& r == (Scene { logs: r.logs, ..s })
            &&& adds(s.logs, r.logs, ("✕"@, path, 3int))
        }),
{
    law_shown_numbers_read_back(pid as int);
    let t = "已连接 PID "@ + dec_text(pid as nat);
    assert(t =~= "已连接 PID "@ + int_text(pid as int) + Seq::empty());
    law_rows_are_added_at_the_end(s.logs, INFO, t);
    law_rows_are_added_at_the_end(logged(s.logs, INFO, t), INFO, "mono 运行时："@ + path);
    law_rows_are_added_at_the_end(s.logs, ERR, path);
}

/// Detaching lets go of the process; that the log tells. A game that is gone is let go of in the
/// same way, and one that runs changes nothing.
pub proof fn law_letting_go(s: Scene)
    ensures
        ({
            let r = s.detached();
            &&& r == (Scene {
                connected: false,
                attached: false,
                pid: None,
                busy: false,
                lives_addr: None,
                lives_now: None,
                banner: (0, Seq::empty()),
                logs: r.logs,
                ..s
            })
            &&& adds(s.logs, r.logs, ("·"@, "已断开连接。"@, 0int))
        }),
        s.watched(true) == s,
        !s.attached ==> s.watched(false) == s,
        s.attached ==> {
            let r = s.watched(false);
            &&& !r.attached && !r.connected && !r.busy && r.pid is None
            &&& r.lives_addr is None && r.lives_now is None
            &&& r.logs.len() > 1
            &&& r.logs.last() == ("·"@, "已断开连接。"@, 0int)
            &&& r.logs[r.logs.len() - 2] == ("✕"@, "游戏进程已退出。"@, 3int)
        },
        !s.busy ==> s.abandoned() == s,
        s.busy ==> {
            let r = s.abandoned();
            &&& r == (Scene { busy: false, logs: r.logs, ..s })
            &&& adds(s.logs, r.logs, ("✕"@, "后台线程异常退出，操作未完成。"@, 3int))
        },
{
    law_rows_are_added_at_the_end(s.logs, INFO, "已断开连接。"@);
    law_rows_are_added_at_the_end(s.logs, ERR, "游戏进程已退出。"@);
    law_rows_are_added_at_the_end(
        logged(s.logs, ERR, "游戏进程已退出。"@),
        INFO,
        "已断开连接。"@,
    );
    law_rows_are_added_at_the_end(s.logs, ERR, "后台线程异常退出，操作未完成。"@);
}

/// The process that is attached to is the first of those found under the name, or of those found
/// under the other name where there were none and the name was another.
pub proof fn law_the_first_process_is_taken(
    s: Scene,
    a: Seq<char>,
    name: Seq<char>,
    b: Seq<char>,
    pids: Seq<u32>,
    others: Seq<u32>,
)
    requires
        blank(a),
        blank(b),
        name.len() > 0 ==> !is_white(name[0]) && !is_white(name.last()),
    ensures
        ({
            let exe = a + name + b;
            let r = s.searched(exe, pids, others);
            let other = same_letters(name, "Broforce.exe"@);
            &&& pids.len() > 0 ==> candidates(exe, pids, others) == pids && r == s && !moved(
                exe,
                pids,
                others,
            )
            &&& pids.len() == 0 && !other ==> candidates(exe, pids, others) == others
            &&& pids.len() == 0 && !other && others.len() > 0 ==> {
                &&& moved(exe, pids, others)
                &&& r == (Scene { logs: r.logs, ..s })
                &&& adds(
                    s.logs,
                    r.logs,
                    ("·"@, "没找到 "@ + name + "，改用 "@ + "Broforce.exe"@, 0int),
                )
            }
            &&& pids.len() == 0 && (other || others.len() == 0) ==> {
                &&& candidates(exe, pids, others).len() == 0
                &&& !moved(exe, pids, others)
                &&& r == (Scene { logs: r.logs, ..s })
                &&& adds(s.logs, r.logs, ("✕"@, "没有找到进程 "@ + name + "，请先启动游戏。"@, 3int))
            }
            &&& falls_back(exe, pids) == (pids.len() == 0 && !other)
        }),
{
    law_trimming_takes_white_space_off(a, name, b);
    law_rows_are_added_at_the_end(
        s.logs,
        INFO,
        "没找到 "@ + name + "，改用 "@ + "Broforce.exe"@,
    );
    law_rows_are_added_at_the_end(s.logs, ERR, "没有找到进程 "@ + name + "，请先启动游戏。"@);
}

/// With a process, a player and a number of lives, setting them starts: the log tells both, and
/// the banner goes. What is located stays.
pub proof fn law_setting_the_lives_starts(
    s: Scene,
    player: Seq<char>,
    p: i32,
    lives: Seq<char>,
    n: i32,
)
    requires
        s.connected,
        typed(player, p as int),
        0 <= p <= 3,
    ensures
        typed(lives, n as int) ==> {
            let r = s.applied(player, lives);
            &&& r == (Scene { busy: true, banner: (0, Seq::empty()), logs: r.logs, ..s })
            &&& exists|a: Seq<char>, b: Seq<char>|
                {
                    &&& #[trigger] integer_of_text(a) == Some(p as int)
                    &&& #[trigger] integer_of_text(b) == Some(n as int)
                    &&& adds(
                        s.logs,
                        r.logs,
                        ("·"@, "正在把玩家 "@ + a + " 的生命设为 "@ + b + " …"@, 0int),
                    )
                }
        },
        ({
            let r = s.detecting(player);
            &&& r == (Scene { busy: true, banner: (0, Seq::empty()), logs: r.logs, ..s })
            &&& adds(s.logs, r.logs, ("·"@, r.logs.last().1, 0int))
            &&& tells(r.logs.last().1, "正在定位玩家 "@, p as int, " 的生命值 …"@)
        }),
{
    law_typed_numbers_are_taken(player, p);
    law_shown_numbers_read_back(p as int);
    law_shown_numbers_read_back(n as int);
    let a = int_text(p as int);
    let b = int_text(n as int);
    assert(integer_of_text(a) == Some(p as int));
    assert(integer_of_text(b) == Some(n as int));
    if typed(lives, n as int) {
        law_typed_numbers_are_taken(lives, n);
        law_rows_are_added_at_the_end(
            s.logs,
            INFO,
            "正在把玩家 "@ + a + " 的生命设为 "@ + b + " …"@,
        );
    }
    law_rows_are_added_at_the_end(s.logs, INFO, "正在定位玩家 "@ + a + " 的生命值 …"@);
}

/// With a process, a field that holds no fitting number is complained about: the player, the
/// lives, or both, one after the other.
pub proof fn law_fields_are_complained_about(s: Scene, player: Seq<char>, lives: Seq<char>)
    requires
        s.connected,
    ensures
        ({
            let of_player = ("✕"@, "玩家序号要填 0 到 3 之间的整数。"@, 3int);
            let of_lives = ("✕"@, "生命值要填整数。"@, 3int);
            let r = s.applied(player, lives);
            &&& player_of(player) is None ==> adds(s.logs, s.detecting(player).logs, of_player)
            &&& player_of(player) is None && lives_of(lives) is Some ==> adds(
                s.logs,
                r.logs,
                of_player,
            )
            &&& player_of(player) is Some && lives_of(lives) is None ==> adds(
                s.logs,
                r.logs,
                of_lives,
            )
            &&& player_of(player) is None && lives_of(lives) is None ==> exists|between: Seq<Line>|
                #[trigger] adds(s.logs, between, of_player) && adds(between, r.logs, of_lives)
        }),
{
    let t = "玩家序号要填 0 到 3 之间的整数。"@;
    law_rows_are_added_at_the_end(s.logs, ERR, t);
    law_rows_are_added_at_the_end(s.logs, ERR, "生命值要填整数。"@);
    law_rows_are_added_at_the_end(logged(s.logs, ERR, t), ERR, "生命值要填整数。"@);
}

/// Clearing the log leaves one row, which tells so; copying it adds one. Neither changes anything
/// else.
pub proof fn law_the_log_is_cleared_and_copied(s: Scene)
    ensures
        s.log_cleared() == (Scene { logs: seq![("·"@, "日志已清空。"@, 0int)], ..s }),
        s.log_copied(true) == (Scene { logs: s.log_copied(true).logs, ..s }),
        adds(s.logs, s.log_copied(true).logs, ("·"@, "日志已复制到剪贴板。"@, 0int)),
        s.log_copied(false) == (Scene { logs: s.log_copied(false).logs, ..s }),
        adds(
            s.logs,
            s.log_copied(false).logs,
            ("!"@, "剪贴板被别的程序占着，复制失败，稍后再试。"@, 2int),
        ),
{
    assert(s.log_cleared().logs =~= seq![("·"@, "日志已清空。"@, 0int)]);
    law_rows_are_added_at_the_end(s.logs, INFO, "日志已复制到剪贴板。"@);
    law_rows_are_added_at_the_end(s.logs, WARN, "剪贴板被别的程序占着，复制失败，稍后再试。"@);
}

/// What is located is read every 400 milliseconds, or sooner when that is asked for; what is not
/// located is never read.
pub proof fn law_lives_are_read_in_time(s: Scene, elapsed_ms: u64)
    ensures
        s.lives_addr is None ==> !s.poll_due(elapsed_ms),
        s.lives_addr is Some && s.force_poll ==> s.poll_due(elapsed_ms),
        s.lives_addr is Some && !s.force_poll ==> (s.poll_due(elapsed_ms) <==> elapsed_ms >= 400),
{
}

/// A poll that was asked for is made once: right behind it none is due until the time is up. What
/// is read is what the window then shows, and nothing else of the state changes.
pub proof fn law_polls_show_what_was_read(s: Scene, ms: u64, soon: u64, now: Option<i32>)
    requires
        s.poll_due(ms),
        soon < 400,
    ensures
        ({
            let r = s.polled(ms).shown(now);
            &&& !s.polled(ms).poll_due(soon)
            &&& s.polled(ms).poll_due(400)
            &&& r == (Scene { force_poll: false, lives_now: now, ..s })
            &&& now matches Some(v) ==> r.lives_known() && integer_of_text(r.lives_text()) == Some(
                v as int,
            )
            &&& now is None ==> !r.lives_known() && r.lives_text() == "—"@
            &&& r.address_text() == s.address_text()
        }),
{
    law_the_window_shows_the_lives(s.polled(ms).shown(now));
}

/// At first nothing is attached to, located or under way, and the log tells how to go about it.
pub proof fn law_the_first_state()
    ensures
        Scene::first() == (Scene {
            attached: false,
            pid: None,
            connected: false,
            busy: false,
            lives_addr: None,
            lives_now: None,
            force_poll: false,
            banner: (0, Seq::empty()),
            logs: seq![
                ("·"@, "用法：启动 Broforce 并进入关卡 → 连接 → 点「设为 999 生命」。"@, 0int),
                ("!"@, "仅限单人模式，联机使用会影响其他玩家。"@, 2int),
            ],
        }),
{
    assert(Scene::first().logs =~= seq![
        ("·"@, "用法：启动 Broforce 并进入关卡 → 连接 → 点「设为 999 生命」。"@, 0int),
        ("!"@, "仅限单人模式，联机使用会影响其他玩家。"@, 2int),
    ]);
}

} // verus!

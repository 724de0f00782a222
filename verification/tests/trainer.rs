use broforce::inject::{resolve_field, FieldLayout};
use broforce::mono::{MonoApi, MonoFunctions};
use broforce::remote::{Overflow, Progress, Reply, Request, RunResult};
use broforce::trainer::{pick_element, pick_length, Report, Trainer};
use broforce::win32::ModuleInfo;
use std::collections::HashMap;

const ARRAY_HEADER_LEN: usize = 0x40;

// ---------------------------------------------------------------------------
// Looking into an array
// ---------------------------------------------------------------------------

/// The layout as it was measured in the game:
/// +00 the vtable of the array class, +08 0, +10 0, +18 the length (4), +20 the first element.
#[test]
fn picks_element_from_measured_layout() {
    let mut header = [0u8; ARRAY_HEADER_LEN];
    header[0x00..0x08].copy_from_slice(&0x0000_018A_F8A0_5A68u64.to_le_bytes());
    header[0x18..0x20].copy_from_slice(&4u64.to_le_bytes());
    let player = 0x0000_018B_1DD8_44E0u64;
    header[0x20..0x28].copy_from_slice(&player.to_le_bytes());

    assert_eq!(
        pick_element(&header, 0, |p| p == player),
        Some((player, 0x20)),
        "应当认出 +0x20 处的元素"
    );
}

#[test]
fn rejects_non_player_pointers() {
    let mut header = [0u8; ARRAY_HEADER_LEN];
    header[0x20..0x28].copy_from_slice(&0xDEAD_BEEFu64.to_le_bytes());
    header[0x18..0x20].copy_from_slice(&0xDEAD_BEEFu64.to_le_bytes());
    assert_eq!(pick_element(&header, 0, |_| false), None);
}

#[test]
fn handles_null_and_out_of_range_elements() {
    let header = [0u8; ARRAY_HEADER_LEN];
    assert_eq!(pick_element(&header, 0, |_| true), None, "全 0 认不出东西");
    assert_eq!(
        pick_element(&header, 99, |_| true),
        None,
        "下标越界不能读越界内存"
    );
}

#[test]
fn length_probing_skips_implausible_values() {
    // measured: +0x10 is 0, and no length; +0x18 is 4
    assert_eq!(pick_length(&[Some(0), Some(4)]), Some(4));
    assert_eq!(pick_length(&[None, Some(2)]), Some(2));
    assert_eq!(pick_length(&[Some(0), Some(0)]), None);
    assert_eq!(pick_length(&[Some(9999), None]), None);
    assert_eq!(pick_length(&[None, None]), None);
}

#[test]
fn the_measured_place_comes_first() {
    let mut header = [0u8; ARRAY_HEADER_LEN];
    header[0x18..0x20].copy_from_slice(&11u64.to_le_bytes());
    header[0x20..0x28].copy_from_slice(&22u64.to_le_bytes());
    assert_eq!(pick_element(&header, 0, |_| true), Some((22, 0x20)));
    assert_eq!(pick_element(&header, 0, |p| p == 11), Some((11, 0x18)));
    assert_eq!(pick_element(&header, 1, |_| true), Some((22, 0x18)));
}

#[test]
fn a_length_is_from_1_to_64() {
    assert_eq!(pick_length(&[Some(1)]), Some(1));
    assert_eq!(pick_length(&[Some(64), Some(2)]), Some(64));
    assert_eq!(pick_length(&[Some(65), Some(2)]), Some(2));
    assert_eq!(pick_length(&[]), None);
}

// ---------------------------------------------------------------------------
// A game
// ---------------------------------------------------------------------------
const HERO_STATIC: u64 = 0x50_0000;
const PLAYERS_FIELD: u64 = HERO_STATIC + 0x18;
const ARRAY: u64 = 0x60_0000;
const PLAYER_VTABLE: u64 = 0x70_0000;
const LIVES_OFFSET: u64 = 0x88;

fn player(i: u64) -> u64 {
    0x80_0000 + 0x1000 * i
}

/// What mono answers about a field.
#[derive(Clone, Copy)]
struct Answers {
    klass: u64,
    offset: u64,
    vtable: u64,
    static_data: u64,
}

/// A process with a few bytes of memory, which answers requests.
struct Game {
    memory: HashMap<u64, u8>,
    fields: HashMap<String, Answers>,
    /// All requests, in short.
    asked: Vec<String>,
    notes: Vec<String>,
    blocks: Vec<u64>,
    next_block: u64,
    /// The error of the next allocation, or of writes to an address.
    alloc_error: Option<u32>,
    write_errors: HashMap<u64, u32>,
    /// Addresses whose writes are lost.
    stuck: Vec<u64>,
    run_result: RunResult,
}

impl Game {
    fn new() -> Game {
        let mut game = Game {
            memory: HashMap::new(),
            fields: HashMap::new(),
            asked: Vec::new(),
            notes: Vec::new(),
            blocks: Vec::new(),
            next_block: 0x10_0000,
            alloc_error: None,
            write_errors: HashMap::new(),
            stuck: Vec::new(),
            run_result: RunResult::Waited(0),
        };
        game.fields.insert(
            "HeroController.players".to_owned(),
            // the upper half of the offset is garbage
            Answers { klass: 0xA1, offset: 0xDEAD_0000_0018, vtable: 0xA2, static_data: HERO_STATIC },
        );
        game.fields.insert(
            "Player.lives".to_owned(),
            Answers { klass: 0xB1, offset: LIVES_OFFSET, vtable: PLAYER_VTABLE, static_data: 0xB3 },
        );
        game.put(PLAYERS_FIELD, &ARRAY.to_le_bytes());
        game.put(ARRAY, &[0; 0x40]);
        game.put(ARRAY + 0x18, &4u64.to_le_bytes());
        for i in 0..4 {
            game.put(ARRAY + 0x20 + 8 * i, &player(i).to_le_bytes());
            game.put(player(i), &PLAYER_VTABLE.to_le_bytes());
            game.put(player(i) + LIVES_OFFSET, &(3 + i as i32).to_le_bytes());
        }
        game
    }

    fn put(&mut self, addr: u64, data: &[u8]) {
        for (i, b) in data.iter().enumerate() {
            self.memory.insert(addr + i as u64, *b);
        }
    }

    fn get(&self, addr: u64, len: u64) -> Option<Vec<u8>> {
        (0..len).map(|i| self.memory.get(&addr.checked_add(i)?).copied()).collect()
    }

    fn lives(&self, i: u64) -> i32 {
        i32::from_le_bytes(self.get(player(i) + LIVES_OFFSET, 4).unwrap().try_into().unwrap())
    }

    fn text_at(&self, addr: u64) -> String {
        let mut bytes = Vec::new();
        let mut at = addr;
        while self.memory[&at] != 0 {
            bytes.push(self.memory[&at]);
            at += 1;
        }
        String::from_utf8(bytes).unwrap()
    }

    /// What the stub in a block comes to.
    fn run(&mut self, entry: u64) {
        assert!(self.blocks.contains(&entry), "only a block may run");
        assert_eq!(self.get(entry, 2), Some(vec![0x53, 0x57]), "the stub has to be there");
        assert_eq!(self.text_at(entry + 0x200), "Assembly-CSharp");
        assert_eq!(self.text_at(entry + 0x220), "");
        let name = format!("{}.{}", self.text_at(entry + 0x240), self.text_at(entry + 0x260));
        if let Some(a) = self.fields.get(&name).copied() {
            for (off, v) in [(0x300, a.klass), (0x308, a.offset), (0x310, a.vtable), (0x318, a.static_data)] {
                assert_eq!(self.get(entry + off, 8), Some(vec![0; 8]), "the slots have to be empty");
                self.put(entry + off, &v.to_le_bytes());
            }
        }
    }

    fn answer(&mut self, request: Request) -> Reply {
        match request {
            Request::Alloc { size } => {
                self.asked.push(format!("alloc {size:X}"));
                match self.alloc_error {
                    Some(code) => Reply::Allocated(Err(code)),
                    None => {
                        let base = self.next_block;
                        self.next_block = base.wrapping_add(0x1000);
                        self.blocks.push(base);
                        Reply::Allocated(Ok(base))
                    }
                }
            }
            Request::Free { addr } => {
                self.asked.push(format!("free {addr:X}"));
                let i = self.blocks.iter().position(|b| *b == addr).expect("a block");
                self.blocks.remove(i);
                Reply::Nothing
            }
            Request::Write { addr, data } => {
                self.asked.push(format!("write {addr:X} {}", data.len()));
                if let Some(code) = self.write_errors.get(&addr) {
                    return Reply::Written(Err(*code));
                }
                let mine = self.blocks.iter().any(|b| *b <= addr && addr - b + data.len() as u64 <= 0x1000);
                let lives = (0..4).any(|i| addr == player(i) + LIVES_OFFSET && data.len() == 4);
                assert!(mine || lives, "a write to {addr:X}");
                if !self.stuck.contains(&addr) {
                    self.put(addr, &data);
                }
                Reply::Written(Ok(()))
            }
            Request::Read { addr, len } => {
                self.asked.push(format!("read {addr:X} {len}"));
                Reply::Data(self.get(addr, len))
            }
            Request::Run { entry, timeout_ms } => {
                self.asked.push(format!("run {entry:X}"));
                assert_eq!(timeout_ms, 10_000);
                if let RunResult::Waited(0) = self.run_result {
                    self.run(entry);
                }
                Reply::Ran(self.run_result)
            }
            Request::Note { text } => {
                self.asked.push("note".to_owned());
                self.notes.push(text);
                Reply::Nothing
            }
        }
    }

    /// Runs an operation to its end.
    fn perform<T>(&mut self, operation: impl Fn(&Vec<Reply>) -> Progress<T>) -> Result<T, Overflow> {
        let mut log = Vec::new();
        loop {
            assert!(log.len() <= 43, "a conversation has to end");
            match operation(&log) {
                Progress::Ask(request) => {
                    let reply = self.answer(request);
                    log.push(reply);
                }
                Progress::Overflow(o) => return Err(o),
                Progress::Done(v) => {
                    assert!(self.blocks.is_empty(), "every block has to be released");
                    return Ok(v);
                }
            }
        }
    }

    fn set(&mut self, player: i32, lives: i32) -> Report {
        let t = trainer();
        self.perform(|log| t.set_lives(player, lives, log)).ok().unwrap()
    }

    fn find(&mut self, player: i32) -> Result<(u64, Vec<String>), (String, Vec<String>)> {
        let t = trainer();
        self.perform(|log| t.find_lives_address(player, log)).ok().unwrap()
    }

    fn find_error(&mut self, player: i32) -> String {
        self.find(player).err().unwrap().0
    }
}

fn functions() -> MonoFunctions {
    MonoFunctions {
        get_root_domain: 1,
        thread_attach: 2,
        thread_detach: 3,
        image_loaded: 4,
        class_from_name: 5,
        class_get_field_from_name: 6,
        field_get_offset: 7,
        class_vtable: 8,
        vtable_get_static_field_data: 9,
    }
}

/// A trainer on a mono.dll made by hand.
fn trainer() -> Trainer {
    fn put(d: &mut [u8], at: usize, v: u32) {
        d[at..at + 4].copy_from_slice(&v.to_le_bytes());
    }
    let names = [
        "mono_get_root_domain",
        "mono_thread_attach",
        "mono_thread_detach",
        "mono_image_loaded",
        "mono_class_from_name",
        "mono_class_get_field_from_name",
        "mono_field_get_offset",
        "mono_class_vtable",
        "mono_vtable_get_static_field_data",
    ];
    let mut d = vec![0u8; 0x1400];
    d[0..2].copy_from_slice(b"MZ");
    put(&mut d, 0x3C, 0x80);
    d[0x80..0x84].copy_from_slice(b"PE\0\0");
    d[0x86] = 1;
    d[0x94] = 240;
    d[0x98..0x9A].copy_from_slice(&0x20Bu16.to_le_bytes());
    put(&mut d, 0x108, 0x1000);
    for (at, v) in [(8, 0x1000), (12, 0x1000), (16, 0x1000), (20, 0x400)] {
        put(&mut d, 0x188 + at, v);
    }
    for (at, v) in [(20, 9), (24, 9), (28, 0x1100), (32, 0x1200), (36, 0x1300)] {
        put(&mut d, 0x400 + at, v);
    }
    let mut at = 0x1400;
    for (i, name) in names.iter().enumerate() {
        put(&mut d, 0x500 + 4 * i, 0x100 * (i as u32 + 1));
        put(&mut d, 0x600 + 4 * i, at as u32);
        d[0x700 + 2 * i] = i as u8;
        d[at - 0xC00..at - 0xC00 + name.len()].copy_from_slice(name.as_bytes());
        at += name.len() + 1;
    }
    let module =
        ModuleInfo { name: "mono.dll".to_owned(), base: 0x10_0000, path: "mono.dll".to_owned() };
    Trainer::attach(MonoApi::locate(&module, Ok(d)).ok().unwrap()).ok().unwrap()
}

// ---------------------------------------------------------------------------
// Looking up a field
// ---------------------------------------------------------------------------

#[test]
fn looks_up_a_field() {
    let mut game = Game::new();
    let fns = functions();
    let layout = game
        .perform(|log| resolve_field(&fns, "HeroController", "players", log))
        .ok()
        .unwrap()
        .ok()
        .unwrap();
    assert_eq!((layout.klass, layout.offset, layout.vtable), (0xA1, 0x18, 0xA2));
    assert_eq!(layout.static_data, HERO_STATIC);
    assert!(layout.is_complete());
    assert_eq!(layout.static_field_addr(), PLAYERS_FIELD);
    assert_eq!(
        game.asked,
        [
            "alloc 1000", "write 100200 16", "write 100220 1", "write 100240 15", "write 100260 8",
            "write 100300 8", "write 100308 8", "write 100310 8", "write 100318 8",
            "write 100000 300", "run 100000", "read 100300 8", "read 100308 8", "read 100310 8",
            "read 100318 8", "free 100000",
        ]
    );
}

#[test]
fn an_unknown_field_gives_an_incomplete_layout() {
    let mut game = Game::new();
    let fns = functions();
    let layout = game
        .perform(|log| resolve_field(&fns, "Nobody", "nothing", log))
        .ok()
        .unwrap()
        .ok()
        .unwrap();
    assert_eq!((layout.klass, layout.offset, layout.vtable, layout.static_data), (0, 0, 0, 0));
    assert!(!layout.is_complete());
}

#[test]
fn a_layout_is_complete_when_nothing_is_null() {
    let l = FieldLayout { klass: 1, vtable: 2, offset: -1, static_data: 3 };
    assert!(l.is_complete());
    assert!(!FieldLayout { klass: 0, ..l }.is_complete());
    assert!(!FieldLayout { vtable: 0, ..l }.is_complete());
    assert!(!FieldLayout { static_data: 0, ..l }.is_complete());
    assert_eq!(l.static_field_addr(), 3 + 0xFFFF_FFFF);
}

#[test]
fn a_lookup_that_fails_releases_its_block() {
    let mut game = Game::new();
    let fns = functions();
    let mut failed = |game: &mut Game| {
        game.asked.clear();
        game.next_block = 0x10_0000;
        game.perform(|log| resolve_field(&fns, "Player", "lives", log)).ok().unwrap().err().unwrap()
    };

    game.write_errors.insert(0x10_0240, 5);
    assert_eq!(failed(&mut game), "写入远程内存失败 @ +0x240");
    assert_eq!(game.asked.len(), 5);
    assert_eq!(game.asked.last().unwrap(), "free 100000");
    game.write_errors.clear();

    game.write_errors.insert(0x10_0000, 5);
    assert_eq!(failed(&mut game), "写入远程内存失败 @ +0x0");
    game.write_errors.clear();

    game.run_result = RunResult::Waited(258);
    assert_eq!(failed(&mut game), "远程线程超时（10000 ms）未返回");
    assert_eq!(game.asked.last().unwrap(), "free 100000");
    game.run_result = RunResult::NotStarted(8);
    assert_eq!(failed(&mut game), "CreateRemoteThread 失败（Win32 错误码 8）");
    game.run_result = RunResult::Waited(0);

    game.alloc_error = Some(5);
    assert_eq!(
        failed(&mut game),
        "VirtualAllocEx 失败（Win32 错误码 5）——目标进程可能已退出，或本程序需要以管理员身份运行"
    );
    assert_eq!(game.asked, ["alloc 1000"]);
}

#[test]
fn a_block_at_the_end_of_the_address_space_overflows() {
    let mut game = Game::new();
    game.next_block = u64::MAX - 0x250;
    let fns = functions();
    let r = game.perform(|log| resolve_field(&fns, "Player", "lives", log));
    assert!(matches!(r, Err(Overflow::Add)));
    // it is released nevertheless
    assert!(game.blocks.is_empty());
    assert!(game.asked.last().unwrap().starts_with("free"));
}

// ---------------------------------------------------------------------------
// Locating and setting the lives
// ---------------------------------------------------------------------------

#[test]
fn locates_the_lives_of_every_player() {
    for i in 0..4 {
        let mut game = Game::new();
        let (addr, steps) = game.find(i as i32).ok().unwrap();
        assert_eq!(addr, player(i) + LIVES_OFFSET);
        assert_eq!(
            steps,
            [
                "HeroController：klass=0xA1 vtable=0xA2 static=0x500000".to_owned(),
                "HeroController.players 字段偏移 24 → 字段地址 0x500018".to_owned(),
                "Player：klass=0xB1 vtable=0x700000，lives 偏移 136".to_owned(),
                "players 数组对象 @ 0x600000".to_owned(),
                format!("玩家 {i} 的对象 @ 0x{:X}（已按 vtable 校验确实是 Player）", player(i)),
            ]
        );
        assert!(game.notes.is_empty());
        for j in 0..4 {
            assert_eq!(game.lives(j), 3 + j as i32, "nothing is written");
        }
    }
}

#[test]
fn sets_the_lives_of_one_player() {
    let mut game = Game::new();
    let report = game.set(2, 999);
    assert_eq!(report.error, None);
    assert_eq!(report.addr, Some(player(2) + LIVES_OFFSET));
    assert_eq!(report.steps.len(), 6);
    assert_eq!(report.steps[5], "0x802088：Some(5) → Some(999)");
    assert_eq!(game.lives(2), 999);
    assert_eq!((game.lives(0), game.lives(1), game.lives(3)), (3, 4, 6));
    assert_eq!(
        &game.asked[game.asked.len() - 3..],
        ["read 802088 4", "write 802088 4", "read 802088 4"]
    );

    let report = game.set(0, -7);
    assert_eq!(report.error, None, "any number can be set");
    assert_eq!(game.lives(0), -7);
    // but a player with such a number is not recognised any more
    assert!(game.set(0, 3).error.unwrap().contains("0x800000 是 Player，但生命值 -7 不像话"));
    assert_eq!(game.lives(0), -7);
}

#[test]
fn reads_the_lives_as_they_are() {
    let mut game = Game::new();
    let t = trainer();
    let addr = player(1) + LIVES_OFFSET;
    assert_eq!(game.perform(|log| t.peek_i32(addr, log)).ok().unwrap(), Some(4));
    assert_eq!(game.perform(|log| t.peek_i32(1, log)).ok().unwrap(), None);
    assert_eq!(game.asked, ["read 801088 4", "read 1 4"]);
}

/// Lays the array out the other way: the length at +10, the elements from +18 on.
fn other_layout(game: &mut Game) {
    game.put(ARRAY, &[0; 0x40]);
    game.put(ARRAY + 0x10, &4u64.to_le_bytes());
    for i in 0..4 {
        game.put(ARRAY + 0x18 + 8 * i, &player(i).to_le_bytes());
    }
}

#[test]
fn elements_at_the_other_place_are_found_and_noted() {
    for i in 0..4 {
        let mut game = Game::new();
        other_layout(&mut game);
        let report = game.set(i as i32, 999);
        assert_eq!(report.addr, Some(player(i) + LIVES_OFFSET), "that player and no other");
        for j in 0..4 {
            assert_eq!(game.lives(j), if j == i { 999 } else { 3 + j as i32 });
        }
        assert_eq!(game.notes, ["提示：players 元素起点是 +18，不是预期的 +20"]);
    }
}

#[test]
fn a_missing_player_is_not_replaced_by_another() {
    // in the measured layout, the word in front of an element is the element before it
    let mut game = Game::new();
    game.put(ARRAY + 0x28, &[0; 8]);
    assert_eq!(
        game.find_error(1),
        "没能从 players 数组里认出玩家 1（期望的 Player vtable = 0x700000）。\n\
         对象头：+00=0000000000000000 +08=0000000000000000 +10=0000000000000000 \
         +18=0000000000000004 +20=0000000000800000 +28=0000000000000000 +30=0000000000802000 \
         +38=0000000000803000\n\
         0x4 的 vtable 是 None，不是 Player\n\
         （诊断：字段地址 0x500018，数组对象 0x600000）"
    );
    let report = game.set(1, 999);
    assert_eq!(report.addr, None);
    for j in 0..4 {
        assert_eq!(game.lives(j), 3 + j as i32, "nobody's lives are written");
    }

    // in the other layout, the word behind an element is the element after it
    for i in 0..4 {
        let mut game = Game::new();
        other_layout(&mut game);
        game.put(ARRAY + 0x18 + 8 * i, &[0; 8]);
        let report = game.set(i as i32, 999);
        assert!(report.error.unwrap().starts_with("没能从 players 数组里认出玩家"));
        for j in 0..4 {
            assert_eq!(game.lives(j), 3 + j as i32);
        }
    }
}

#[test]
fn an_unbelievable_player_is_not_replaced_by_another() {
    for other in [false, true] {
        for i in 0..4 {
            let mut game = Game::new();
            if other {
                other_layout(&mut game);
            }
            game.put(player(i) + LIVES_OFFSET, &(-1i32).to_le_bytes());
            assert!(game.find_error(i as i32).contains(" 是 Player，但生命值 -1 不像话"));
            for j in (0..4).filter(|j| *j != i) {
                assert_eq!(game.find(j as i32).ok().unwrap().0, player(j) + LIVES_OFFSET);
            }
        }
    }
}

#[test]
fn locating_agrees_with_picking_at_the_place_of_the_array() {
    for other in [false, true] {
        for i in 0..4u64 {
            let mut game = Game::new();
            if other {
                other_layout(&mut game);
            }
            let place = if other { 0x18 } else { 0x20 };
            let header = game.get(ARRAY, 0x40).unwrap();
            let is_player =
                |p: u64| game.get(p, 8) == Some(PLAYER_VTABLE.to_le_bytes().to_vec());
            let (ptr, at) = pick_element(&header, i as usize, is_player).unwrap();
            if at == place {
                assert_eq!(game.find(i as i32).ok().unwrap().0, ptr + LIVES_OFFSET);
            }
        }
    }
}

#[test]
fn tells_why_the_classes_cannot_be_found() {
    let mut game = Game::new();
    game.fields.get_mut("HeroController.players").unwrap().static_data = 0;
    let (error, steps) = game.find(0).err().unwrap();
    assert_eq!(error, "没能定位 HeroController.players：klass=0xA1 vtable=0xA2 static=0x0");
    assert!(steps.is_empty());

    let mut game = Game::new();
    game.fields.remove("Player.lives");
    let (error, steps) = game.find(0).err().unwrap();
    assert_eq!(error, "没能定位 Player.lives：klass=0x0 vtable=0x0 static=0x0");
    assert_eq!(steps.len(), 2, "the steps of a failure are kept");
}

#[test]
fn tells_why_there_is_no_array() {
    let mut game = Game::new();
    game.memory.remove(&PLAYERS_FIELD);
    assert_eq!(
        game.find_error(0),
        "读不到 HeroController.players 字段的内容（地址 0x500018 不可读）"
    );

    let mut game = Game::new();
    game.put(PLAYERS_FIELD, &[0; 8]);
    assert_eq!(
        game.find_error(0),
        "players 是 null —— 多半是还没进入关卡，玩家数组尚未建立。"
    );

    let mut game = Game::new();
    game.memory.remove(&(ARRAY + 0x3F));
    assert_eq!(
        game.find_error(0),
        "players 指向的 0x600000 读不到，多半不是有效对象（字段偏移算错了？）\n\
         （诊断：字段地址 0x500018，数组对象 0x600000）"
    );
}

#[test]
fn tells_that_there_is_no_such_player() {
    let mut game = Game::new();
    game.put(ARRAY + 0x18, &2u64.to_le_bytes());
    assert_eq!(
        game.find_error(2),
        "players 里只有 2 个玩家，没有第 2 号\n（诊断：字段地址 0x500018，数组对象 0x600000）"
    );
    assert_eq!(
        game.find_error(-1),
        "players 里只有 2 个玩家，没有第 18446744073709551615 号\n\
         （诊断：字段地址 0x500018，数组对象 0x600000）"
    );
    assert!(game.find(1).is_ok());
}

#[test]
fn tells_why_no_player_is_recognised() {
    let mut game = Game::new();
    game.put(player(0), &0x1234u64.to_le_bytes());
    assert_eq!(
        game.find_error(0),
        "没能从 players 数组里认出玩家 0（期望的 Player vtable = 0x700000）。\n\
         对象头：+00=0000000000000000 +08=0000000000000000 +10=0000000000000000 \
         +18=0000000000000004 +20=0000000000800000 +28=0000000000801000 +30=0000000000802000 \
         +38=0000000000803000\n\
         0x800000 的 vtable 是 Some(4660)，不是 Player\n\
         0x4 的 vtable 是 None，不是 Player\n\
         （诊断：字段地址 0x500018，数组对象 0x600000）"
    );

    let mut game = Game::new();
    game.put(player(0) + LIVES_OFFSET, &10_000i32.to_le_bytes());
    assert!(game.find_error(0).contains("\n0x800000 是 Player，但生命值 10000 不像话\n"));
    game.put(player(0) + LIVES_OFFSET, &9_999i32.to_le_bytes());
    assert!(game.find(0).is_ok());
    game.memory.remove(&(player(0) + LIVES_OFFSET));
    assert!(game.find_error(0).contains("\n0x800000 是 Player，但读不到生命值\n"));

    let mut game = Game::new();
    game.put(ARRAY + 0x18, &[0; 0x28]);
    assert!(game.find_error(0).contains("\n两个候选元素起点都没取到非空指针。\n"));
}

#[test]
fn a_null_at_the_other_place_is_a_missing_first_element() {
    // what the measured place has is not taken, but it is told
    let mut game = Game::new();
    game.put(ARRAY + 0x18, &[0; 0x28]);
    game.put(ARRAY + 0x20, &player(0).to_le_bytes());
    let error = game.find_error(0);
    assert!(
        error.contains("\n元素起点按 +18 算，没取到非空指针；+20 起算的是 0x800000，没有采用。\n"),
        "{error}"
    );
    assert_eq!(game.set(0, 999).addr, None);
    assert_eq!(game.lives(0), 3);

    // the other layout: the length at +10, no first player, and the second one behind
    let mut game = Game::new();
    other_layout(&mut game);
    game.put(ARRAY + 0x18, &[0; 8]);
    assert_eq!(game.find(1).ok().unwrap().0, player(1) + LIVES_OFFSET);
    assert!(game.find_error(0).contains("+20 起算的是 0x801000，没有采用。"));

    // an index behind the header
    let mut game = Game::new();
    game.put(ARRAY + 0x10, &64u64.to_le_bytes());
    game.put(ARRAY + 0x18, &[0; 8]);
    assert!(game.find_error(50).contains("\n两个候选元素起点都没取到非空指针。\n"));
}

#[test]
fn tells_that_the_header_cannot_be_shown() {
    // the array goes away while it is looked at
    let mut game = Game::new();
    game.put(player(0), &0x1234u64.to_le_bytes());
    let t = trainer();
    let mut log = Vec::new();
    let error = loop {
        match t.find_lives_address(0, &log) {
            Progress::Ask(request) => {
                if log.len() == 36 {
                    game.memory.remove(&ARRAY);
                }
                let reply = game.answer(request);
                log.push(reply);
            }
            Progress::Done(Err((error, _))) => break error,
            _ => panic!(),
        }
    };
    assert!(error.contains("\n对象头：0x600000 起 8 个 qword 读不到\n"), "{error}");
}

#[test]
fn tells_that_the_lives_could_not_be_written() {
    let addr = player(0) + LIVES_OFFSET;
    let mut game = Game::new();
    game.write_errors.insert(addr, 998);
    let report = game.set(0, 999);
    assert_eq!(report.error.unwrap(), "写入 0x800088 失败（Win32 错误码 998）");
    assert_eq!(report.addr, None);
    assert_eq!(report.steps.len(), 5);

    let mut game = Game::new();
    game.stuck.push(addr);
    let report = game.set(0, 999);
    assert_eq!(report.error.unwrap(), "写完读回来是 Some(3)，不是 999");
    assert_eq!(report.addr, None);
    assert_eq!(report.steps[5], "0x800088：Some(3) → Some(3)");
}

#[test]
fn addresses_that_do_not_fit_are_noticed() {
    let t = trainer();

    let mut game = Game::new();
    game.fields.get_mut("HeroController.players").unwrap().static_data = u64::MAX;
    assert!(matches!(game.perform(|log| t.find_lives_address(0, log)), Err(Overflow::Add)));

    // without a length, a negative number becomes an index that is too large
    let mut game = Game::new();
    game.put(ARRAY + 0x10, &[0; 0x10]);
    assert!(matches!(game.perform(|log| t.find_lives_address(-1, log)), Err(Overflow::Multiply)));

    // a negative offset is a large one
    let mut game = Game::new();
    game.fields.get_mut("Player.lives").unwrap().offset = 0xFFFF_FFFF;
    assert!(matches!(game.perform(|log| t.find_lives_address(0, log)), Err(Overflow::Add)));
}

#[test]
fn conversations_resume_with_the_same_requests() {
    // each call sees one answer more, and the request it names is the next one
    let t = trainer();
    let mut game = Game::new();
    let report = game.perform(|log| t.set_lives(0, 50, log)).ok().unwrap();
    assert_eq!(report.error, None);
    assert_eq!(game.asked.len(), 41);

    // a finished conversation does not look at further answers
    let mut game = Game::new();
    let mut log = Vec::new();
    let addr = loop {
        match t.find_lives_address(0, &log) {
            Progress::Ask(request) => {
                let reply = game.answer(request);
                log.push(reply);
            }
            Progress::Done(Ok((addr, _))) => break addr,
            _ => panic!(),
        }
    };
    log.push(Reply::Nothing);
    match t.find_lives_address(0, &log) {
        Progress::Done(Ok((again, _))) => assert_eq!(again, addr),
        _ => panic!(),
    }
}

#[test]
fn answers_that_do_not_fit_count_as_failures() {
    let t = trainer();
    // nothing but silence: the allocation fails without a code
    let r = t.set_lives(0, 1, &vec![Reply::Nothing]);
    match r {
        Progress::Done(report) => assert_eq!(
            report.error.unwrap(),
            "VirtualAllocEx 失败（Win32 错误码 0）——目标进程可能已退出，或本程序需要以管理员身份运行"
        ),
        _ => panic!(),
    }
    // a read of the wrong length is no read
    match t.peek_i32(8, &vec![Reply::Data(Some(vec![1, 2, 3]))]) {
        Progress::Done(v) => assert_eq!(v, None),
        _ => panic!(),
    }
}

use broforce::inject::build_resolve_code;
use broforce::mono::MonoFunctions;
use std::collections::HashMap;

const BASE: u64 = 0x7F00_0000;

fn functions() -> MonoFunctions {
    MonoFunctions {
        get_root_domain: 1,
        thread_attach: 2,
        thread_detach: 3,
        image_loaded: 4,
        class_from_name: 5,
        class_get_field_from_name: 6,
        field_get_offset: 7,
        class_vtable: 8,
        vtable_get_static_field_data: 9,
    }
}

/// A call: its target, and rcx, rdx and r8.
type Call = (u64, u64, u64, u64);

/// Runs machine code on a small processor. Every call returns what `answers` has for its
/// target and spoils the registers that a callee may spoil.
fn run(code: &[u8], answers: &HashMap<u64, u64>) -> (Vec<Call>, Vec<(u64, u64)>) {
    let mut regs = [0xEEEE_u64; 16];
    let (rbx, rdi, rsp) = (0xB0B0, 0xD1D1, 0x1_0008);
    regs[3] = rbx;
    regs[7] = rdi;
    regs[4] = rsp;
    let mut stack: HashMap<u64, u64> = HashMap::new();
    let (mut pc, mut zero) = (0usize, false);
    let (mut calls, mut stores) = (Vec::new(), Vec::new());
    for _ in 0..100 {
        let at = &code[pc..];
        let (reg, rm) = if at.len() > 2 {
            (((at[2] >> 3) & 7) as usize, (at[2] & 7) as usize)
        } else {
            (0, 0)
        };
        match at[0] {
            0x53 | 0x57 => {
                regs[4] -= 8;
                stack.insert(regs[4], regs[(at[0] - 0x50) as usize]);
                pc += 1;
            }
            0x5B | 0x5F => {
                regs[(at[0] - 0x58) as usize] = stack[&regs[4]];
                regs[4] += 8;
                pc += 1;
            }
            0xC3 => {
                assert_eq!((regs[4], regs[3], regs[7]), (rsp, rbx, rdi), "kept for the caller");
                assert_eq!(regs[0], 0, "the exit code");
                return (calls, stores);
            }
            0xFF => {
                assert_eq!(at[1], 0xD0);
                assert_eq!(regs[4] % 16, 0, "aligned at a call");
                assert!(rsp - regs[4] >= 32, "room for the shadow space");
                calls.push((regs[0], regs[1], regs[2], regs[8]));
                let answer = answers[&regs[0]];
                // the shadow space and the volatile registers belong to the callee
                for i in 0..4 {
                    stack.insert(regs[4] + 8 * i, 0xDEAD);
                }
                for r in [1, 2, 8, 9, 10, 11] {
                    regs[r] = 0xDEAD;
                }
                regs[0] = answer;
                pc += 2;
            }
            0x0F => {
                assert_eq!(at[1], 0x84);
                let d = i32::from_le_bytes(at[2..6].try_into().unwrap());
                pc += 6;
                if zero {
                    pc = (pc as i64 + d as i64) as usize;
                }
            }
            0x48 | 0x49 => match at[1] {
                0x83 => {
                    assert!(at[2] == 0xEC || at[2] == 0xC4);
                    let n = at[3] as u64;
                    regs[4] = if at[2] == 0xEC { regs[4] - n } else { regs[4] + n };
                    pc += 4;
                }
                0x85 => {
                    assert_eq!(at[2], 0xC0);
                    zero = regs[0] == 0;
                    pc += 3;
                }
                0x89 if at[2] >> 6 == 3 => {
                    assert_eq!(at[0], 0x48);
                    regs[rm] = regs[reg];
                    pc += 3;
                }
                0x89 => {
                    assert_eq!((at[0], at[2] >> 6), (0x48, 0));
                    stores.push((regs[rm], regs[reg]));
                    pc += 3;
                }
                0x31 => {
                    assert_eq!((at[0], at[2] >> 6), (0x48, 3));
                    regs[rm] ^= regs[reg];
                    zero = regs[rm] == 0;
                    pc += 3;
                }
                op => {
                    assert!((0xB8..=0xBF).contains(&op));
                    let r = (op - 0xB8) as usize + if at[0] == 0x49 { 8 } else { 0 };
                    regs[r] = u64::from_le_bytes(at[2..10].try_into().unwrap());
                    pc += 10;
                }
            },
            op => panic!("no such instruction: {op:02X}"),
        }
    }
    panic!("the code does not end");
}

fn answers() -> HashMap<u64, u64> {
    HashMap::from([
        (1, 0x10), // the domain
        (2, 0x20), // the thread
        (3, 0),
        (4, 0x40), // the image
        (5, 0x50), // the class
        (6, 0x60), // the field
        (7, 0x18), // the offset
        (8, 0x80), // the vtable
        (9, 0x90), // the static data
    ])
}

#[test]
fn the_stub_asks_for_everything_and_keeps_the_answers() {
    let stub = build_resolve_code(&functions(), BASE);
    assert_eq!(stub.code.len(), 300);
    let (calls, stores) = run(&stub.code, &answers());
    let targets: Vec<u64> = calls.iter().map(|c| c.0).collect();
    assert_eq!(targets, [1, 2, 4, 5, 6, 7, 1, 8, 9, 3]);
    assert_eq!(calls[1].1, 0x10, "attach the thread to the domain");
    assert_eq!(calls[2].1, BASE + 0x200, "the name of the image");
    assert_eq!(calls[3], (5, 0x40, BASE + 0x220, BASE + 0x240), "image, namespace, class");
    assert_eq!((calls[4].1, calls[4].2), (0x50, BASE + 0x260), "class, field");
    assert_eq!(calls[5].1, 0x60, "field");
    assert_eq!((calls[7].1, calls[7].2), (0x10, 0x50), "domain, class");
    assert_eq!(calls[8].1, 0x80, "vtable");
    assert_eq!(calls[9].1, 0x20, "detach the thread");
    assert_eq!(
        stores,
        [(BASE + 0x300, 0x50), (BASE + 0x308, 0x18), (BASE + 0x310, 0x80), (BASE + 0x318, 0x90)]
    );
}

#[test]
fn a_null_answer_ends_the_stub() {
    let stub = build_resolve_code(&functions(), BASE);
    for (null, made, kept) in [(4, 4, 0), (5, 5, 0), (6, 6, 1), (8, 9, 2)] {
        let mut a = answers();
        a.insert(null, 0);
        let (calls, stores) = run(&stub.code, &a);
        assert_eq!((calls.len(), stores.len()), (made, kept));
        assert_eq!(calls[made - 1], (3, 0x20, calls[made - 1].2, calls[made - 1].3));
        for c in &calls[2..made - 1] {
            assert!(c.1 != 0 && (c.0 == 1 || c.1 != 0xDEAD), "no null goes into the next function");
        }
    }
}

#[test]
fn null_static_data_is_kept_as_it_is() {
    let stub = build_resolve_code(&functions(), BASE);
    let mut a = answers();
    a.insert(9, 0);
    let (calls, stores) = run(&stub.code, &a);
    assert_eq!((calls.len(), stores.len()), (10, 4));
    assert_eq!(stores[3], (BASE + 0x318, 0));
}

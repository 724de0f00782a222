use broforce::inject::{build_resolve_code, Asm};
use broforce::mono::MonoFunctions;

#[test]
fn prologue_epilogue_are_symmetric() {
    let mut a = Asm::new();
    a.prologue();
    a.epilogue();
    assert_eq!(
        a.code,
        vec![
            0x53, 0x57, 0x48, 0x83, 0xEC, 0x28, // push rbx; push rdi; sub rsp,0x28
            0x48, 0x83, 0xC4, 0x28, // add rsp,0x28
            0x5F, 0x5B, // pop rdi; pop rbx
            0x48, 0x31, 0xC0, // xor rax,rax
            0xC3, // ret
        ]
    );
}

#[test]
fn mov_imm_encoding() {
    let mut a = Asm::new();
    a.mov_imm(1, 0x1122_3344_5566_7788);
    assert_eq!(
        a.code,
        vec![0x48, 0xB9, 0x88, 0x77, 0x66, 0x55, 0x44, 0x33, 0x22, 0x11]
    );

    let mut a = Asm::new();
    a.mov_imm(8, 2); // r8 needs REX.B
    assert_eq!(a.code[0..2], [0x49, 0xB8]);
    assert_eq!(a.code.len(), 10);
}

#[test]
fn mov_rr_and_store_encoding() {
    // mov rcx, rax
    let mut a = Asm::new();
    a.mov_rr(1, 0);
    assert_eq!(a.code, vec![0x48, 0x89, 0xC1]);

    // mov rbx, rax
    let mut a = Asm::new();
    a.mov_rr(3, 0);
    assert_eq!(a.code, vec![0x48, 0x89, 0xC3]);

    // mov rdx, rbx
    let mut a = Asm::new();
    a.mov_rr(2, 3);
    assert_eq!(a.code, vec![0x48, 0x89, 0xDA]);

    // mov rdi, rax
    let mut a = Asm::new();
    a.mov_rr(7, 0);
    assert_eq!(a.code, vec![0x48, 0x89, 0xC7]);

    // mov [rcx], rbx
    let mut a = Asm::new();
    a.mov_store(1, 3);
    assert_eq!(a.code, vec![0x48, 0x89, 0x19]);
}

#[test]
fn xor_and_call_encoding() {
    let mut a = Asm::new();
    a.xor_rr(2, 2); // xor rdx, rdx
    assert_eq!(a.code, vec![0x48, 0x31, 0xD2]);

    let mut a = Asm::new();
    a.xor_rr(9, 9); // xor r9, r9 needs REX.R and REX.B
    assert_eq!(a.code, vec![0x4D, 0x31, 0xC9]);

    let mut a = Asm::new();
    a.call_rax();
    assert_eq!(a.code, vec![0xFF, 0xD0]);
}

/// The `jz` is a rel32 (`0F 84`) and lands on its target once patched.
#[test]
fn jz_uses_rel32_and_patches_correctly() {
    let mut a = Asm::new();
    a.test_rax();
    let j = a.jz_placeholder();
    assert_eq!(&a.code[j - 2..j], &[0x0F, 0x84], "应当是 rel32 的 jz");
    a.bs(&[0x90, 0x90, 0x90]); // three nops to be skipped

    let target = a.code.len();
    a.patch_jz_to(j, target);

    let disp = i32::from_le_bytes(a.code[j..j + 4].try_into().unwrap());
    assert_eq!(j as i64 + 4 + disp as i64, target as i64);
}

/// Several jumps patched to one place do not disturb each other.
#[test]
fn multiple_jz_patches_all_target_same_spot() {
    let mut a = Asm::new();
    let j1 = a.jz_placeholder();
    a.bs(&[0x90, 0x90]);
    let j2 = a.jz_placeholder();
    a.bs(&[0x90]);
    let j3 = a.jz_placeholder();

    let target = a.code.len();
    for j in [j1, j2, j3] {
        a.patch_jz_to(j, target);
    }

    for j in [j1, j2, j3] {
        let disp = i32::from_le_bytes(a.code[j..j + 4].try_into().unwrap());
        assert_eq!(j as i64 + 4 + disp as i64, target as i64);
    }
}

#[test]
fn a_jump_can_be_patched_backwards() {
    let mut a = Asm::new();
    a.bs(&[0x90, 0x90]);
    let j = a.jz_placeholder();
    a.patch_jz_to(j, 0);
    assert_eq!(a.code, vec![0x90, 0x90, 0x0F, 0x84, 0xF8, 0xFF, 0xFF, 0xFF]);
}

fn fake_fns() -> MonoFunctions {
    MonoFunctions {
        get_root_domain: 0x1000,
        thread_attach: 0x1010,
        thread_detach: 0x1020,
        image_loaded: 0x1030,
        class_from_name: 0x1040,
        class_get_field_from_name: 0x1050,
        field_get_offset: 0x1060,
        class_vtable: 0x1070,
        vtable_get_static_field_data: 0x1080,
    }
}

/// All guards jump to the one place that detaches the thread and returns.
#[test]
fn resolve_stub_guards_land_on_the_epilogue() {
    let stub = build_resolve_code(&fake_fns(), 0x1_0000_0000);
    assert!(!stub.jumps.is_empty());

    for &j in &stub.jumps {
        assert_eq!(&stub.code[j - 2..j], &[0x0F, 0x84]);
        let disp = i32::from_le_bytes(stub.code[j..j + 4].try_into().unwrap());
        let target = j as i64 + 4 + disp as i64;
        assert_eq!(
            target, stub.guard_target as i64,
            "守卫没有跳到统一的收尾位置"
        );
    }
    assert!(
        stub.guard_target < stub.code.len(),
        "收尾位置应当在代码末尾之前"
    );
}

/// The first guard has to skip far more than a rel8 displacement reaches.
#[test]
fn resolve_stub_guard_span_exceeds_rel8_range() {
    let stub = build_resolve_code(&fake_fns(), 0x1_0000_0000);
    let first = stub.jumps[0];
    let span = stub.guard_target - (first + 4);
    println!("第一个守卫需要跳过 {span} 字节（rel8 上限 127）");
    assert!(
        span > i8::MAX as usize,
        "守卫跨度只有 {span} 字节；虽然这里断言的是「超过 rel8」，\
         但若真降到 127 以内，说明 stub 结构变了，rel32 的必要性要重新评估"
    );
}

/// Prologue and epilogue leave rsp where it was, and calls happen on an aligned stack.
#[test]
fn stack_is_balanced_and_aligned() {
    // on entry rsp is 8 modulo 16
    let mut rsp: i64 = 8;
    rsp -= 8; // push rbx
    rsp -= 8; // push rdi
    rsp -= 0x28; // sub rsp, 0x28
    assert_eq!(rsp % 16, 0, "call 之前 rsp 必须 16 字节对齐");

    rsp += 0x28;
    rsp += 8;
    rsp += 8;
    assert_eq!(rsp, 8, "收尾后必须回到进入时的栈位置");
}

use kernel_core::config::STACK_SIZE;
use kernel_core::context::{Context, SSTATUS_SPIE, SSTATUS_SPP};
use kernel_core::mapping::KernelLayout;
use kernel_core::process::{create_kernel_thread, Process, Thread};

fn layout() -> KernelLayout {
    KernelLayout {
        text_start: 0x1000,
        text_end: 0x2000,
        rodata_start: 0x2000,
        rodata_end: 0x3000,
        data_start: 0x3000,
        data_end: 0x4000,
        bss_start: 0x4000,
        bss_end: 0x5000,
        memory_start: 0x5000,
        memory_end: 0x9000,
    }
}

#[test]
fn fresh_context_holds_entry_stack_and_privilege() {
    let ctx = Context::new(0x1234, 0x8000, true);
    assert_eq!(ctx.sepc(), 0x1234);
    assert_eq!(ctx.sp(), 0x8000);
    assert_eq!(ctx.ra(), 0);
    assert_eq!(ctx.sstatus(), SSTATUS_SPP | SSTATUS_SPIE);
    let user_ctx = Context::new(0x1234, 0x8000, false);
    assert_eq!(user_ctx.sstatus(), SSTATUS_SPIE);
}

#[test]
fn context_setters_take_effect() {
    let mut ctx = Context::new(0x1000, 0x2000, true);
    ctx.set_ra(0xdead);
    assert_eq!(ctx.ra(), 0xdead);
    ctx.set_sepc(0x4242);
    assert_eq!(ctx.sepc(), 0x4242);
    ctx.set_arguments(&[7, 8, 9]);
    assert_eq!(ctx.argument(0), 7);
    assert_eq!(ctx.argument(1), 8);
    assert_eq!(ctx.argument(2), 9);
    assert_eq!(ctx.argument(3), 0);
}

#[test]
fn kernel_process_is_kernel_kind() {
    let p = Process::new_kernel(layout()).unwrap();
    assert!(!p.is_user());
    assert_eq!(p.segment_count(), 5);
}

#[test]
fn new_thread_is_ready_with_its_own_stack() {
    let mut p = Process::new_kernel(layout()).unwrap();
    let t1 = Thread::new(&mut p, 0x100, None, 1).unwrap();
    let t2 = Thread::new(&mut p, 0x200, None, 2).unwrap();
    assert_eq!(t1.id(), 1);
    assert!(!t1.is_dead());
    assert_eq!(t1.context().sepc(), 0x100);
    // Stacks are carved above the kernel segments, one after another.
    assert_eq!(t1.context().sp(), 0x9000 + STACK_SIZE);
    assert_eq!(t2.context().sp(), 0x9000 + 2 * STACK_SIZE);
    assert_eq!(p.segment_count(), 7);
}

#[test]
fn kernel_thread_gets_arguments_and_exit_routine() {
    let mut p = Process::new_kernel(layout()).unwrap();
    let args = [41usize, 42];
    let t = create_kernel_thread(&mut p, 0x300, Some(&args), 7, 0xe417).unwrap();
    assert_eq!(t.id(), 7);
    assert_eq!(t.context().sepc(), 0x300);
    assert_eq!(t.context().ra(), 0xe417);
    assert_eq!(t.context().argument(0), 41);
    assert_eq!(t.context().argument(1), 42);
    assert_eq!(t.context().argument(2), 0);
    assert!(!t.is_dead());
}

#[test]
fn marking_a_thread_dead_sets_the_flag() {
    let mut p = Process::new_kernel(layout()).unwrap();
    let mut t = Thread::new(&mut p, 0x100, None, 1).unwrap();
    t.mark_dead();
    assert!(t.is_dead());
}

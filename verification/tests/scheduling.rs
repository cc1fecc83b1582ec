use kernel_core::mapping::KernelLayout;
use kernel_core::process::{create_kernel_thread, Process, Thread};
use kernel_core::processor::{Processor, SchedulerError};
use kernel_core::trap::{handle_trap, TrapCause, TrapOutcome};

fn layout() -> KernelLayout {
    KernelLayout {
        text_start: 0x1000,
        text_end: 0x2000,
        rodata_start: 0x2000,
        rodata_end: 0x3000,
        data_start: 0x3000,
        data_end: 0x4000,
        bss_start: 0x4000,
        bss_end: 0x5000,
        memory_start: 0x5000,
        memory_end: 0x9000,
    }
}

fn processor_with_threads(entries: &[usize]) -> Processor {
    let mut p = Process::new_kernel(layout()).unwrap();
    let mut processor = Processor::new();
    for (i, &entry) in entries.iter().enumerate() {
        let t = Thread::new(&mut p, entry, None, i + 1).unwrap();
        processor.add_thread(t);
    }
    processor
}

#[test]
fn empty_processor_has_nothing_to_run() {
    let mut processor = Processor::new();
    assert_eq!(
        processor.prepare_next_thread().unwrap_err(),
        SchedulerError::NoRunnableThread
    );
}

#[test]
fn three_threads_run_fifo_then_cycle() {
    let mut processor = processor_with_threads(&[0x100, 0x200, 0x300]);
    // Three schedule decisions hand back the three contexts in FIFO order.
    let c1 = processor.prepare_next_thread().unwrap();
    assert_eq!(c1.sepc(), 0x100);
    assert_eq!(processor.current_thread().id(), 1);
    let c2 = processor.prepare_next_thread().unwrap();
    assert_eq!(c2.sepc(), 0x200);
    let c3 = processor.prepare_next_thread().unwrap();
    assert_eq!(c3.sepc(), 0x300);
    // The fourth decision returns the first thread again.
    let c4 = processor.prepare_next_thread().unwrap();
    assert_eq!(c4.sepc(), 0x100);
    assert_eq!(processor.current_thread().id(), 1);
}

#[test]
fn fairness_holds_over_many_rounds() {
    let mut processor = processor_with_threads(&[0x100, 0x200, 0x300, 0x400]);
    let entries = [0x100, 0x200, 0x300, 0x400];
    for round in 0..12 {
        let c = processor.prepare_next_thread().unwrap();
        assert_eq!(c.sepc(), entries[round % 4]);
    }
}

#[test]
fn dead_thread_is_never_scheduled_again() {
    let mut processor = processor_with_threads(&[0x100, 0x200, 0x300]);
    let _ = processor.prepare_next_thread().unwrap(); // thread 1 runs
    processor.mark_current_dead();
    // Thread 1 is excluded from every later decision.
    for _ in 0..6 {
        let c = processor.prepare_next_thread().unwrap();
        assert_ne!(c.sepc(), 0x100);
        assert_ne!(processor.current_thread().id(), 1);
    }
}

#[test]
fn park_stores_the_trapped_context_back() {
    let mut processor = processor_with_threads(&[0x100, 0x200]);
    let mut c1 = processor.prepare_next_thread().unwrap();
    c1.set_sepc(0x108); // the thread made progress before trapping
    processor.park_current_thread(c1);
    let _c2 = processor.prepare_next_thread().unwrap();
    // One more decision brings the first thread back, where it left off.
    let c3 = processor.prepare_next_thread().unwrap();
    assert_eq!(c3.sepc(), 0x108);
}

#[test]
fn breakpoint_trap_rotates_to_the_next_thread() {
    let mut processor = processor_with_threads(&[0x100, 0x200]);
    let c1 = processor.prepare_next_thread().unwrap();
    assert_eq!(c1.sepc(), 0x100);
    // The running thread yields with a breakpoint.
    match handle_trap(&mut processor, TrapCause::Breakpoint, c1) {
        TrapOutcome::Resume(c) => assert_eq!(c.sepc(), 0x200),
        _ => panic!("expected a thread to resume"),
    }
    assert_eq!(processor.current_thread().id(), 2);
}

#[test]
fn yielding_thread_resumes_past_the_break_instruction() {
    let mut processor = processor_with_threads(&[0x100]);
    let c1 = processor.prepare_next_thread().unwrap();
    // With one live thread, yielding schedules it again, two bytes on.
    match handle_trap(&mut processor, TrapCause::Breakpoint, c1) {
        TrapOutcome::Resume(c) => assert_eq!(c.sepc(), 0x102),
        _ => panic!("expected the same thread to resume"),
    }
}

#[test]
fn exiting_last_thread_halts_the_machine() {
    let mut processor = processor_with_threads(&[0x100]);
    let c1 = processor.prepare_next_thread().unwrap();
    processor.mark_current_dead();
    match handle_trap(&mut processor, TrapCause::Breakpoint, c1) {
        TrapOutcome::Halt => (),
        _ => panic!("expected the machine to halt"),
    }
}

#[test]
fn unrecognized_cause_is_fatal_with_cause_and_pc() {
    let mut processor = processor_with_threads(&[0x100]);
    let c1 = processor.prepare_next_thread().unwrap();
    match handle_trap(&mut processor, TrapCause::Other(13), c1) {
        TrapOutcome::Fatal { cause, pc } => {
            assert_eq!(cause, 13);
            assert_eq!(pc, 0x100);
        },
        _ => panic!("expected a fatal outcome"),
    }
}

#[test]
fn exit_protocol_runs_remaining_threads_to_completion() {
    // Each thread "runs" once and exits: mark dead, then trap.
    let mut processor = processor_with_threads(&[0x100, 0x200, 0x300]);
    let mut seen = Vec::new();
    let mut ctx = processor.prepare_next_thread().unwrap();
    loop {
        seen.push(processor.current_thread().id());
        processor.mark_current_dead();
        match handle_trap(&mut processor, TrapCause::Breakpoint, ctx) {
            TrapOutcome::Resume(c) => ctx = c,
            TrapOutcome::Halt => break,
            TrapOutcome::Fatal { .. } => panic!("unexpected fatal outcome"),
        }
    }
    assert_eq!(seen, vec![1, 2, 3]);
}

#[test]
fn eight_kernel_threads_created_and_scheduled_in_order() {
    let mut p = Process::new_kernel(layout()).unwrap();
    let mut processor = Processor::new();
    for i in 1..9usize {
        let args = [i];
        let t = create_kernel_thread(&mut p, 0x100, Some(&args), i, 0xe417).unwrap();
        processor.add_thread(t);
    }
    for i in 1..9usize {
        let c = processor.prepare_next_thread().unwrap();
        assert_eq!(c.argument(0), i);
        assert_eq!(c.ra(), 0xe417);
    }
}

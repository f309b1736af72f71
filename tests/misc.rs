use kmem::backtrace::{symbols_at, BacktraceGuard};
use kmem::color::Color;
use kmem::runner::RunnerCommand;

#[test]
fn color_from_packed_rgb() {
    let c = Color::from(0x76_26_71u32);
    assert_eq!(c, Color::new(0x76, 0x26, 0x71));
    let w = Color::from(0xff_c7_06u32);
    assert_eq!((w.r, w.g, w.b), (0xff, 0xc7, 0x06));
    assert_eq!(Color::from(0xab_00_00_ffu32), Color::new(0, 0, 0xff));
}

#[test]
fn backtrace_guard_turns_switch_off_and_back() {
    let mut switch = true;
    let g = BacktraceGuard::new(&mut switch);
    assert!(!switch);
    let inner = BacktraceGuard::new(&mut switch);
    assert!(!inner.enabled());
    let inner = BacktraceGuard::new(&mut switch);
    inner.release(&mut switch);
    assert!(!switch);
    g.release(&mut switch);
    assert!(switch);
    let g = BacktraceGuard::new(&mut switch);
    assert!(g.enabled());
}

#[test]
fn runner_commands_compare() {
    assert_eq!(RunnerCommand::Run { debug: true }, RunnerCommand::Run { debug: true });
    assert_ne!(RunnerCommand::Build, RunnerCommand::Run { debug: false });
}

#[test]
fn symbols_covering_an_address() {
    let syms = vec![(0x100, 0x10), (0x105, 0), (0x200, 0x50), (u64::MAX - 1, 5)];
    assert_eq!(symbols_at(&syms, 0x105), vec![0, 1]);
    assert_eq!(symbols_at(&syms, 0x110), vec![0]);
    assert_eq!(symbols_at(&syms, 0x111), Vec::<usize>::new());
    assert_eq!(symbols_at(&syms, u64::MAX), vec![3]);
    assert_eq!(symbols_at(&vec![], 0), Vec::<usize>::new());
}

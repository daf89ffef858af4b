use byteos_core::dentry::{DentryTree, WalkStep};
use byteos_core::errno::Errno;
use byteos_core::signal::{
    handle_signal, sigaction, sigprocmask, tkill_target, SigAction, SignalDisposition, SIGSEGV, SIG_BLOCK, SIG_DFL,
    SIG_IGN, SIG_SETMASK, SIG_UNBLOCK,
};

#[test]
fn dentry_walk_and_paths() {
    let mut t = DentryTree::new(100);
    let dev = t.add_child(0, "dev", 101);
    let shm = t.add_child(dev, "shm", 102);
    assert_eq!(t.step(0, "dev"), WalkStep::Go(dev));
    assert_eq!(t.step(dev, "."), WalkStep::Go(dev));
    assert_eq!(t.step(dev, ""), WalkStep::Go(dev));
    assert_eq!(t.step(shm, ".."), WalkStep::Go(dev));
    assert_eq!(t.step(0, ".."), WalkStep::Go(0));
    assert_eq!(t.step(dev, "null"), WalkStep::Open);
    assert_eq!(t.path(0), "/");
    assert_eq!(t.path(dev), "/dev");
    assert_eq!(t.path(shm), "/dev/shm");
    assert_eq!(t.node_of(shm), 102);
}

#[test]
fn dentry_mount_adds_sibling() {
    let mut t = DentryTree::new(1);
    let mnt = t.add_child(0, "mnt", 2);
    let m = t.mount_over(mnt, 9);
    assert_eq!(t.len(), 3);
    assert_eq!(t.node_of(m), 9);
    assert_eq!(t.path(m), "/mnt");
    assert_eq!(t.child_named(0, "mnt"), Some(mnt));
    // the root stays what `new` made it
    assert_eq!(t.node_of(0), 1);
    assert_eq!(t.path(0), "/");
}

#[test]
fn dentry_walk_whole_paths() {
    let mut t = DentryTree::new(100);
    let a = t.add_child(0, "a", 101);
    let b = t.add_child(a, "b", 102);
    assert_eq!(t.walk(0, "a/b"), Ok(b));
    assert_eq!(t.walk(0, "a/./b"), Ok(b));
    assert_eq!(t.walk(0, "a//b"), Ok(b));
    assert_eq!(t.walk(b, "/a"), Ok(a));
    assert_eq!(t.walk(b, ".."), Ok(a));
    assert_eq!(t.walk(0, "../.."), Ok(0));
    assert_eq!(t.walk(b, ""), Ok(b));
    assert_eq!(t.walk(0, "a/c/d"), Err((a, String::from("c"))));
    assert_eq!(t.walk(0, "a/./c"), Err((a, String::from("c"))));
    assert_eq!(t.walk(0, "a//c"), Err((a, String::from("c"))));
    assert_eq!(t.walk(b, "/a/./b"), t.walk(b, "/a/b"));
    assert_eq!(t.walk(b, "//a"), t.walk(b, "/a"));
}

fn action(handler: usize) -> SigAction {
    SigAction { handler, flags: 0, restorer: 0x5000, mask: 0b10 }
}

#[test]
fn signal_dispositions() {
    assert_eq!(handle_signal(action(SIG_IGN), SIGSEGV, 0x8000, 64, 0x42, 0b1), SignalDisposition::Ignore);
    assert_eq!(handle_signal(action(SIG_DFL), SIGSEGV, 0x8000, 64, 0x42, 0b1), SignalDisposition::Exit);
    assert_eq!(handle_signal(action(SIG_DFL), 17, 0x8000, 64, 0x42, 0b1), SignalDisposition::Nothing);
    match handle_signal(action(0x1234), 10, 0x8008, 0x30, 0x4242, 0b100) {
        SignalDisposition::Handle(f) => {
            assert_eq!(f.sp, 0x7fd0);
            assert_eq!(f.pc, 0x1234);
            assert_eq!(f.ra, 0x5000);
            assert_eq!(f.arg0, 10);
            assert_eq!(f.arg1, 0);
            assert_eq!(f.arg2, 0x7fd0);
            assert_eq!(f.mask, 0b10);
            assert_eq!(f.saved_pc, 0x4242);
            assert_eq!(f.saved_mask, 0b10);
            assert_eq!((f.pushed_sp, f.pushed_mask), (0x7fd0, 0b100));
        }
        _ => panic!("expected a handler frame"),
    }
}

#[test]
fn signal_masks() {
    assert_eq!(sigprocmask(0b0101, SIG_BLOCK, Some(0b0010)), Ok((0b0101, 0b0111)));
    assert_eq!(sigprocmask(0b0111, SIG_UNBLOCK, Some(0b0010)), Ok((0b0111, 0b0101)));
    assert_eq!(sigprocmask(0b0111, SIG_SETMASK, Some(0b1000)), Ok((0b0111, 0b1000)));
    assert_eq!(sigprocmask(0b0111, SIG_SETMASK, None), Ok((0b0111, 0b0111)));
    assert_eq!(sigprocmask(0b0111, 3, Some(0)), Err(Errno::EINVAL));
}

#[test]
fn signal_actions_and_targets() {
    let mut actions = vec![action(SIG_DFL); 4];
    let old = sigaction(&mut actions, 2, Some(action(0x42)));
    assert_eq!(old, action(SIG_DFL));
    assert_eq!(actions[2].handler, 0x42);
    assert_eq!(sigaction(&mut actions, 2, None).handler, 0x42);
    assert_eq!(tkill_target(&[Some(3), None, Some(5)], 1, 5), Some(5));
    assert_eq!(tkill_target(&[Some(3)], 1, 1), Some(1));
    assert_eq!(tkill_target(&[Some(3), None], 1, 4), None);
}

use byteos_core::consts::NetType;
use byteos_core::epoll::{epoll_ctl, epoll_deadline, epoll_round, EpollCtl, EpollFile};
use byteos_core::net::{bind_result, bind_step, read_sockaddr_in, recv_len, socket_kind, write_sockaddr_in, BindStep, SockAddrV4};

#[test]
fn epoll_interest_list() {
    let mut ep = EpollFile::new(0x80000);
    assert_eq!(ep.flags(), 0x80000);
    assert_eq!(epoll_ctl(&mut ep, 1, 4, true, (1, 40)), Ok(()));
    assert_eq!(epoll_ctl(&mut ep, 1, 5, true, (4, 50)), Ok(()));
    assert_eq!(epoll_ctl(&mut ep, 3, 5, true, (5, 55)), Ok(()));
    assert_eq!(epoll_ctl(&mut ep, 3, 9, true, (5, 99)), Ok(()));
    assert_eq!(epoll_ctl(&mut ep, 4, 5, true, (5, 55)), Err(Errno::EINVAL));
    assert_eq!(epoll_ctl(&mut ep, 1, 6, false, (5, 55)), Err(Errno::EBADF));
    let mut e = ep.entries();
    e.sort();
    assert_eq!(e, vec![(4, (1, 40)), (5, (5, 55))]);
    ep.ctl(EpollCtl::DEL, 4, (0, 0));
    assert_eq!(ep.entries(), vec![(5, (5, 55))]);
    assert_eq!(EpollCtl::from_usize(2), Some(EpollCtl::DEL));
}

#[test]
fn epoll_rounds() {
    let entries = [(4usize, (1u32, 40u64)), (5, (4, 50)), (6, (1, 60))];
    let (ev, done) = epoll_round(&entries, &[Some(1), None, Some(0)], 10, 100);
    assert_eq!(ev, vec![(1, 40)]);
    assert!(done);
    let (ev, done) = epoll_round(&entries, &[Some(0), Some(0), None], 10, 100);
    assert!(ev.is_empty());
    assert!(!done);
    let (_, done) = epoll_round(&entries, &[Some(0), Some(0), None], 100, 100);
    assert!(done);
    assert_eq!(epoll_deadline(5, usize::MAX), usize::MAX);
    assert_eq!(epoll_deadline(5, 2), 5 + 2 * 0x1000000);
}

#[test]
fn sockaddr_round_trip() {
    let mut buf = [0xaau8; 16];
    let a = SockAddrV4 { ip: [10, 0, 2, 15], port: 8080 };
    write_sockaddr_in(&mut buf, a);
    assert_eq!(&buf[0..8], &[2, 0, 0x1f, 0x90, 10, 0, 2, 15]);
    assert_eq!(buf[8], 0xaa);
    assert_eq!(read_sockaddr_in(&buf), Ok(a));
    let mut bad = buf;
    bad[0] = 10;
    assert_eq!(read_sockaddr_in(&bad), Err(Errno::EAFNOSUPPORT));
}

#[test]
fn bind_and_socket_decisions() {
    let mut buf = [0u8; 16];
    write_sockaddr_in(&mut buf, SockAddrV4 { ip: [0, 0, 0, 0], port: 80 });
    assert_eq!(bind_step(&buf, Some(NetType::STEAM), true), Ok(BindStep::Reuse(80)));
    assert_eq!(bind_step(&buf, Some(NetType::RAW), true), Ok(BindStep::Bind(SockAddrV4 { ip: [0, 0, 0, 0], port: 80 })));
    assert_eq!(bind_step(&buf, Some(NetType::DGRAME), false), Ok(BindStep::Bind(SockAddrV4 { ip: [0, 0, 0, 0], port: 80 })));
    buf[0] = 10;
    assert_eq!(bind_step(&buf, Some(NetType::STEAM), true), Err(Errno::EAFNOSUPPORT));
    assert_eq!(bind_step(&buf, None, true), Err(Errno::EINVAL));
    assert_eq!(bind_result(true), Ok(0));
    assert_eq!(bind_result(false), Err(Errno::EALREADY));
    assert_eq!(recv_len(10, 4), 4);
    assert_eq!(recv_len(3, 4), 3);
    assert_eq!(socket_kind(1), Ok(NetType::STEAM));
    assert_eq!(socket_kind(3), Err(Errno::EINVAL));
}

use byteos_core::tty::{tty_request, TtyInput, TtyIoctl, TtyReply, TtyState, WinSize, TCGETA, TIOCGPGRP, TIOCSWINSZ};

#[test]
fn tty_settings() {
    assert_eq!(tty_request(TCGETA, true), Ok(TtyIoctl::GetTermios));
    assert_eq!(tty_request(TIOCSWINSZ, true), Ok(TtyIoctl::SetWinsize));
    assert_eq!(tty_request(0x1234, false), Err(Errno::EINVAL));
    assert_eq!(tty_request(0x540e, true), Err(Errno::EPERM));
    assert_eq!(tty_request(TIOCGPGRP, true), Ok(TtyIoctl::GetPgrp));
    let mut t = TtyState::new(4);
    match t.ioctl(TtyIoctl::GetWinsize, true, TtyInput::Nothing) {
        Ok(TtyReply::Winsize(w)) => assert_eq!(w, WinSize { row: 24, col: 140, xpixel: 0, ypixel: 0 }),
        _ => panic!("expected the window size"),
    }
    assert!(matches!(t.ioctl(TtyIoctl::SetPgrp, true, TtyInput::Pgrp(7)), Ok(TtyReply::Done)));
    assert!(matches!(t.ioctl(TtyIoctl::GetPgrp, true, TtyInput::Nothing), Ok(TtyReply::Pgrp(7))));
    assert!(matches!(t.ioctl(TtyIoctl::GetPgrp, false, TtyInput::Nothing), Err(Errno::EINVAL)));
    assert!(matches!(t.ioctl(TtyIoctl::SetTermios, true, TtyInput::Termios(vec![1, 2, 3, 4])), Ok(TtyReply::Done)));
    match t.ioctl(TtyIoctl::GetTermios, true, TtyInput::Nothing) {
        Ok(TtyReply::Termios(v)) => assert_eq!(v, vec![1, 2, 3, 4]),
        _ => panic!("expected the settings"),
    }
}

use byteos_core::elf::{LoadPlan, TaskCache};
use byteos_core::syscall::{reap, wait_status, Reaped};

#[test]
fn wait_status_shifts_code() {
    assert_eq!(wait_status(0), 0);
    assert_eq!(wait_status(3), 768);
    assert_eq!(wait_status(255), 65280);
}

#[test]
fn reap_blocking_takes_first_exited() {
    let mut children = vec![(4usize, None), (5usize, Some(2usize)), (6usize, Some(1usize))];
    assert_eq!(reap(&mut children, -1, false), Reaped::Child { pid: 5, status: 512 });
    assert_eq!(children, vec![(4usize, None), (6usize, Some(1usize))]);
    assert_eq!(reap(&mut children, 4, false), Reaped::Pending);
    assert_eq!(children.len(), 2);
    assert_eq!(reap(&mut children, 6, false), Reaped::Child { pid: 6, status: 256 });
    assert_eq!(children, vec![(4usize, None)]);
}

#[test]
fn reap_nohang_takes_any_exited_child() {
    let mut children = vec![(4usize, None), (5usize, Some(2usize))];
    assert_eq!(reap(&mut children, -1, true), Reaped::Child { pid: 5, status: 512 });
    assert_eq!(children, vec![(4usize, None)]);
    assert_eq!(reap(&mut children, -1, true), Reaped::NotYet);
    assert_eq!(reap(&mut children, 4, true), Reaped::NotYet);
    assert_eq!(children, vec![(4usize, None)]);
    assert_eq!(reap(&mut children, 9, true), Reaped::NotYet);
}

fn plan(entry: usize) -> LoadPlan {
    LoadPlan { entry, base: 0, heap_bottom: 0x1000, ph_count: 1, ph_entry_size: 56, ph_addr: 0x40, areas: vec![] }
}

#[test]
fn task_cache_first_entry_wins() {
    let mut cache = TaskCache::new();
    assert!(cache.find("/bin/sh").is_none());
    cache.add("/bin/sh", plan(0x100));
    cache.add("/bin/ls", plan(0x200));
    cache.add("/bin/sh", plan(0x300));
    assert_eq!(cache.find("/bin/sh").map(|p| p.entry), Some(0x100));
    assert_eq!(cache.find("/bin/ls").map(|p| p.entry), Some(0x200));
    assert!(cache.find("/bin/cat").is_none());
}

#[test]
fn reaped_child_is_gone() {
    let mut children = vec![(7usize, Some(0usize)), (8usize, None), (7usize, Some(1usize))];
    assert_eq!(reap(&mut children, 7, false), Reaped::Child { pid: 7, status: 0 });
    assert!(children.iter().all(|c| c.0 != 7));
    assert_eq!(children, vec![(8usize, None)]);
}

use byteos_core::net::{accept_step, nonblocking_step, sockopt_value, SocketStep};

#[test]
fn socket_wait_rounds() {
    assert_eq!(accept_step(true, true), SocketStep::Ready);
    assert_eq!(accept_step(false, true), SocketStep::Fail(Errno::EINTR));
    assert_eq!(accept_step(false, false), SocketStep::Wait);
    assert_eq!(nonblocking_step(true, true), SocketStep::Ready);
    assert_eq!(nonblocking_step(false, true), SocketStep::Fail(Errno::EAGAIN));
    assert_eq!(nonblocking_step(false, false), SocketStep::Wait);
}

#[test]
fn socket_option_values() {
    assert_eq!(sockopt_value(7), Some(32000));
    assert_eq!(sockopt_value(8), Some(32000));
    assert_eq!(sockopt_value(2), Some(2000));
    assert_eq!(sockopt_value(1), None);
}

use byteos_core::syscall::syscall_ret;

#[test]
fn syscall_return_words() {
    assert_eq!(syscall_ret(Ok(5)), 5);
    assert_eq!(syscall_ret(Err(Errno::EPERM)), usize::MAX);
    assert_eq!(syscall_ret(Err(Errno::EINVAL)) as isize, -22);
    assert_eq!(syscall_ret(Err(Errno::ENOENT)) as isize, -2);
}

#[test]
fn return_words_tell_outcomes_apart() {
    let errs = [Errno::EPERM, Errno::ENOENT, Errno::EINVAL, Errno::EAGAIN, Errno::EALREADY];
    for (i, a) in errs.iter().enumerate() {
        assert!(syscall_ret(Err(*a)) > usize::MAX - 4096);
        for (j, b) in errs.iter().enumerate() {
            assert_eq!(syscall_ret(Err(*a)) == syscall_ret(Err(*b)), i == j);
        }
    }
    assert!(syscall_ret(Ok(usize::MAX - 4096)) != syscall_ret(Err(Errno::EPERM)));
}

use byteos_core::command::command_words;

#[test]
fn command_line_words() {
    assert_eq!(command_words("busybox sh basic/run-all.sh"), vec!["busybox", "sh", "basic/run-all.sh"]);
    assert_eq!(command_words("  ./runtest.exe   -w entry-dynamic.exe argv "), vec!["./runtest.exe", "-w", "entry-dynamic.exe", "argv"]);
    assert_eq!(command_words("time-test"), vec!["time-test"]);
    assert!(command_words("").is_empty());
    assert!(command_words("   ").is_empty());
}

use byteos_core::time::{sleep_deadline, sleep_result};

#[test]
fn sleep_deadlines_and_results() {
    assert_eq!(sleep_deadline(1, 500, 2_000).0, 2_000);
    assert_eq!(sleep_deadline(0, 500, 2_000).0, 2_500);
    assert_eq!(sleep_result(false), Ok(0));
    assert_eq!(sleep_result(true), Err(Errno::EINTR));
}

use byteos_core::signal::{rt_after_handled, rt_on_send};
use byteos_core::userloop::{thread_exit, user_step, UserAction, UserEvent, UserLoop};

#[test]
fn real_time_signal_queue() {
    let mut q = vec![0usize, 0, 0];
    assert!(rt_on_send(&mut q, false, Some(1)));
    assert_eq!(q, vec![0, 0, 0]);
    assert!(!rt_on_send(&mut q, true, Some(1)));
    assert!(!rt_on_send(&mut q, true, Some(1)));
    assert!(!rt_on_send(&mut q, true, None));
    assert_eq!(q, vec![0, 2, 0]);
    assert!(rt_after_handled(&mut q, Some(1)));
    assert_eq!(q, vec![0, 1, 0]);
    assert!(!rt_after_handled(&mut q, Some(0)));
    assert!(!rt_after_handled(&mut q, None));
    assert_eq!(q, vec![0, 1, 0]);
}

#[test]
fn user_loop_steps() {
    let st = UserLoop { rounds: 0 };
    assert_eq!(user_step(st, UserEvent::Checked { exit_code: None, thread_exit_code: None }), (st, UserAction::RunUser));
    assert_eq!(user_step(st, UserEvent::Checked { exit_code: None, thread_exit_code: Some(3) }), (st, UserAction::Exit));
    let back = UserEvent::Returned { stop: false, exit_code: None, thread_exit_code: None };
    assert_eq!(user_step(st, back), (UserLoop { rounds: 1 }, UserAction::Next));
    assert_eq!(user_step(UserLoop { rounds: 49 }, back), (UserLoop { rounds: 0 }, UserAction::Yield));
    let stop = UserEvent::Returned { stop: true, exit_code: None, thread_exit_code: None };
    assert_eq!(user_step(UserLoop { rounds: 7 }, stop), (UserLoop { rounds: 7 }, UserAction::Exit));
    assert_eq!(thread_exit(Some(1), Some(2)), Some(1));
    assert_eq!(thread_exit(None, Some(2)), Some(2));
    assert_eq!(thread_exit(None, None), None);
}

use byteos_core::consts::{decode_clone, from_vfs, futex_op, map_mprot_to_flags, rlimits_new, FutexFlags, NetType, CLONE_SETTLS, CLONE_THREAD, FILE_MAX, RLIMIT_NOFILE};
use byteos_core::devices::{cache_exec_file, HalImpl, MemInfo, NetMod, Sdx};
use byteos_core::elf::{code_area, exec_plan, get_ph_addr, heap_bottom, ExecPlan, LoadArea, Segment, SegmentKind};
use byteos_core::errno::Errno;
use byteos_core::fdset::select_scan;
use byteos_core::futex::{futex, FutexOutcome, FutexTable};
use byteos_core::memset::{mmap, MapTrack, MemArea, MemSet, MemType, MmapAction, MAP_FIXED, MAP_SHARED};
use byteos_core::stack::{auxv_entries, stack_words, AT_ENTRY, AT_EXECFN, AT_PHDR};
use byteos_core::syscall::{alignup, fcntl_action, lseek_whence, mkdir_check, shmget_action, to_node, wait4_mode, FcntlAction, NodeRef, ShmGet, WaitMode};
use byteos_core::time::{timespc_now, TimeVal};
use byteos_core::vfs::{SeekFrom, Stat, VfsError};

#[test]
fn futex_wait_then_wake_in_order() {
    let mut t = FutexTable::new();
    t.wait(0x1000, 7);
    t.wait(0x1000, 8);
    t.wait(0x2000, 9);
    assert!(t.in_futex(8));
    assert_eq!(t.wake(0x1000, 1), 1);
    assert!(!t.in_futex(7));
    assert!(t.in_futex(8));
    assert_eq!(t.wake(0x1000, 5), 1);
    assert_eq!(t.wake(0x3000, 5), 0);
    assert!(t.in_futex(9));
}

#[test]
fn futex_requeue_moves_waiters() {
    let mut t = FutexTable::new();
    for tid in 1..=4 {
        t.wait(0x10, tid);
    }
    assert_eq!(t.requeue(0x10, 1, 0x20, 2), 1);
    assert!(!t.in_futex(1));
    assert_eq!(t.wake(0x20, 10), 2);
    assert_eq!(t.wake(0x10, 10), 1);
    assert_eq!(t.requeue(0x99, 1, 0x20, 1), 0);
}

#[test]
fn futex_leave_on_signal() {
    let mut t = FutexTable::new();
    t.wait(0x10, 5);
    t.wait(0x10, 6);
    t.leave(5);
    assert!(!t.in_futex(5));
    assert_eq!(t.wake(0x10, 10), 1);
}

#[test]
fn futex_syscall_paths() {
    let mut t = FutexTable::new();
    assert_eq!(futex(&mut t, 0x80, 0x10, 3, 3, 0, 0, 1), Ok(FutexOutcome::Wait));
    assert_eq!(futex(&mut t, 0, 0x10, 4, 3, 0, 0, 2), Err(Errno::EAGAIN));
    assert_eq!(futex(&mut t, 1, 0x10, 0, 1, 0, 0, 2), Ok(FutexOutcome::Done(1)));
    assert_eq!(futex(&mut t, 9, 0x10, 0, 1, 0, 0, 2), Err(Errno::EPERM));
    assert_eq!(futex(&mut t, 10, 0x10, 0, 1, 0, 0, 2), Err(Errno::EINVAL));
    assert_eq!(futex_op(0x81), 1);
    assert_eq!(FutexFlags::from_usize(3), Some(FutexFlags::Requeue));
}

#[test]
fn stack_words_order() {
    let auxv = vec![(3usize, 100usize), (9, 200)];
    let words = stack_words(&[11, 12], &[21], &auxv);
    assert_eq!(words, vec![0, 100, 3, 200, 9, 0, 21, 0, 12, 11, 2]);
    let image: Vec<usize> = words.iter().rev().cloned().collect();
    assert_eq!(image, vec![2, 11, 12, 0, 21, 0, 9, 200, 3, 100, 0]);
}

#[test]
fn auxv_in_type_order() {
    let v = auxv_entries(0x1000, 0x20, 3, 56, 0x40, 1, 2, 3);
    assert_eq!(v.len(), 13);
    assert_eq!(v[0], (AT_PHDR, 0x1040));
    assert_eq!(v[4], (AT_ENTRY, 0x1020));
    assert_eq!(v[12], (AT_EXECFN, 2));
    assert!(v.windows(2).all(|w| w[0].0 < w[1].0));
}

fn elf_bytes(with_interp: bool) -> Vec<u8> {
    let mut b: Vec<u8> = vec![0x7f, b'E', b'L', b'F', 2, 1, 1, 0];
    b.extend_from_slice(&[0u8; 8]);
    b.extend_from_slice(&2u16.to_le_bytes());
    b.extend_from_slice(&0xf3u16.to_le_bytes());
    b.extend_from_slice(&1u32.to_le_bytes());
    b.extend_from_slice(&0x1000u64.to_le_bytes());
    b.extend_from_slice(&64u64.to_le_bytes());
    b.extend_from_slice(&0u64.to_le_bytes());
    b.extend_from_slice(&0u32.to_le_bytes());
    b.extend_from_slice(&64u16.to_le_bytes());
    b.extend_from_slice(&56u16.to_le_bytes());
    b.extend_from_slice(&(if with_interp { 2u16 } else { 1u16 }).to_le_bytes());
    b.extend_from_slice(&[0u8; 6]);
    let mut ph = |ty: u32, off: u64, vaddr: u64, fsz: u64, msz: u64| {
        b.extend_from_slice(&ty.to_le_bytes());
        b.extend_from_slice(&5u32.to_le_bytes());
        b.extend_from_slice(&off.to_le_bytes());
        b.extend_from_slice(&vaddr.to_le_bytes());
        b.extend_from_slice(&vaddr.to_le_bytes());
        b.extend_from_slice(&fsz.to_le_bytes());
        b.extend_from_slice(&msz.to_le_bytes());
        b.extend_from_slice(&0x1000u64.to_le_bytes());
    };
    ph(1, 0, 0x10000, 0x78, 0x2000);
    if with_interp {
        ph(3, 0, 0x10000, 0, 0);
    }
    b
}

#[test]
fn exec_plan_of_non_elf_runs_shell() {
    let args = vec![String::from("script.sh")];
    match exec_plan(b"#!/bin/sh\necho hi\n", &args) {
        Some(ExecPlan::Shell(a)) => assert_eq!(a, vec!["busybox", "sh", "script.sh"]),
        _ => panic!("expected the shell"),
    }
}

#[test]
fn exec_plan_of_static_elf() {
    let bytes = elf_bytes(false);
    let args = vec![String::from("prog")];
    match exec_plan(&bytes, &args) {
        Some(ExecPlan::Load(p)) => {
            assert_eq!(p.entry, 0x1000);
            assert_eq!(p.base, 0);
            assert_eq!(p.heap_bottom, 0x12000);
            assert_eq!(p.ph_count, 1);
            assert_eq!(p.ph_entry_size, 56);
            assert_eq!(p.ph_addr, 0x10040);
            assert_eq!(p.areas.len(), 1);
            assert_eq!(p.areas[0].start, 0x10000);
            assert_eq!(p.areas[0].page_count, 2);
            assert_eq!(p.areas[0].file_size, 0x78);
        }
        _ => panic!("expected a load plan"),
    }
}

#[test]
fn exec_plan_of_dynamic_elf_runs_loader() {
    let bytes = elf_bytes(true);
    let args = vec![String::from("prog"), String::from("-v")];
    match exec_plan(&bytes, &args) {
        Some(ExecPlan::Interp(a)) => assert_eq!(a, vec!["libc.so", "prog", "-v"]),
        _ => panic!("expected the loader"),
    }
}

#[test]
fn ph_addr_and_heap() {
    let load = Segment { kind: SegmentKind::Load, offset: 0, vaddr: 0x400000, file_size: 10, mem_size: 0x1001 };
    let phdr = Segment { kind: SegmentKind::Phdr, offset: 64, vaddr: 0x400040, file_size: 0, mem_size: 0 };
    assert_eq!(get_ph_addr(&[load, phdr], 64), Ok(0x400040));
    assert_eq!(get_ph_addr(&[load], 64), Ok(0x400040));
    let other = Segment { kind: SegmentKind::Other, offset: 8, vaddr: 1, file_size: 0, mem_size: 0 };
    assert_eq!(get_ph_addr(&[other], 64), Err(Errno::EBADF));
    assert_eq!(heap_bottom(&[load, other]), 0x402000);
}

#[test]
fn memset_unmap_cuts_areas() {
    let area = MemArea {
        mtype: MemType::Mmap,
        mtrackers: vec![
            MapTrack { vaddr: 0x1000, frame: 1, rwx: 0 },
            MapTrack { vaddr: 0x2000, frame: 2, rwx: 0 },
            MapTrack { vaddr: 0x3000, frame: 3, rwx: 0 },
        ],
        file: None,
        offset: 0,
        start: 0x1000,
        len: 0x3000,
    };
    let mut set = MemSet::new(vec![area]);
    assert!(set.overlapping(0x2000, 0x3000));
    let (write_back, unmap) = set.sub_area(0x1000, 0x2000);
    assert!(write_back.is_empty());
    assert!(unmap.is_empty());
    assert!(!set.overlapping(0x1000, 0x2000));
    assert!(set.overlapping(0x2000, 0x3000));
    let (_, unmap_all) = set.sub_area(0x1000, 0x5000);
    assert!(unmap_all.is_empty());
    assert!(!set.overlapping(0x2000, 0x3000));
}

#[test]
fn syscall_decisions() {
    assert_eq!(to_node(3, "/etc"), NodeRef::Root);
    assert_eq!(to_node(usize::MAX - 99, "etc"), NodeRef::Cwd);
    assert_eq!(to_node(3, "etc"), NodeRef::Fd(3));
    assert!(matches!(lseek_whence(5, 0), Ok(SeekFrom::SET(5))));
    assert!(matches!(lseek_whence(5, 2), Ok(SeekFrom::END(5))));
    assert!(matches!(lseek_whence(5, 3), Err(Errno::EINVAL)));
    assert_eq!(fcntl_action(1, 0), Ok(FcntlAction::Value(1)));
    assert_eq!(fcntl_action(0x406, 0), Ok(FcntlAction::Dup));
    assert_eq!(fcntl_action(4, 0o4000), Ok(FcntlAction::SetFlags(0o4000)));
    assert_eq!(fcntl_action(99, 0), Err(Errno::EINVAL));
    assert_eq!(mkdir_check("/"), Err(Errno::EEXIST));
    assert_eq!(mkdir_check("/a"), Ok(()));
    assert_eq!(alignup(1), 4096);
    assert_eq!(alignup(8192), 8192);
}

#[test]
fn wait4_and_shmget() {
    assert_eq!(wait4_mode(&[], -1, 0), Err(Errno::ECHILD));
    assert_eq!(wait4_mode(&[4, 5], 6, 0), Err(Errno::ECHILD));
    assert_eq!(wait4_mode(&[4, 5], 5, 1), Ok(WaitMode::NoHang));
    assert_eq!(wait4_mode(&[4, 5], -1, 0), Ok(WaitMode::Block));
    assert_eq!(wait4_mode(&[4, 5], -1, 7), Err(Errno::EPERM));
    assert_eq!(shmget_action(0, &[3, 9], 0o1000), Ok(ShmGet::Create(10)));
    assert_eq!(shmget_action(9, &[3, 9], 0), Ok(ShmGet::Existing(9)));
    assert_eq!(shmget_action(4, &[3, 9], 0), Err(Errno::ENOENT));
}

#[test]
fn consts_decoding() {
    let r = rlimits_new();
    assert_eq!(r.len(), 8);
    assert_eq!(r[RLIMIT_NOFILE], FILE_MAX);
    let c = decode_clone(CLONE_THREAD | CLONE_SETTLS | 17, 0x8000, 0x77, 0);
    assert_eq!(c.exit_signal, 17);
    assert!(c.thread);
    assert_eq!(c.tls, Some(0x77));
    assert_eq!(c.stack, Some(0x8000));
    assert!(!c.set_child_tid);
    assert_eq!(map_mprot_to_flags(0), 0);
    assert_ne!(map_mprot_to_flags(7), map_mprot_to_flags(1));
    assert_eq!(from_vfs(VfsError::FileNotFound), Errno::ENOENT);
    assert_eq!(Errno::ENOENT.code(), 2);
    assert_eq!(NetType::from_usize(99), None);
}

#[test]
fn time_values() {
    let t = TimeVal::now(3_500_000_000);
    assert_eq!(t, TimeVal { sec: 3, usec: 500_000 });
    assert!(TimeVal { sec: 1, usec: 5 }.before(&TimeVal { sec: 2, usec: 0 }));
    assert!(!t.before(&t));
    let s = timespc_now(1_000_002_000);
    assert_eq!(s.sec, 1);
    assert_eq!(s.nsec, 2000);
    assert_eq!(timespc_now(1_000_000).nsec, 1_000_000);
    let a = TimeVal { sec: 1, usec: 600_000 };
    let b = TimeVal { sec: 0, usec: 500_000 };
    assert_eq!(a.add(b), TimeVal { sec: 2, usec: 100_000 });
}

#[test]
fn select_marks_ready_fds() {
    let requested = [0b1011usize, 0, 0, 0];
    let mut result = [0usize; 4];
    let mut open = vec![false; 256];
    let mut ready = vec![None; 256];
    open[0] = true;
    open[1] = true;
    open[3] = true;
    ready[0] = Some(true);
    ready[1] = Some(false);
    ready[3] = Some(true);
    let n = select_scan(&requested, &mut result, 10, &open, &ready, true);
    assert_eq!(n, 2);
    assert_eq!(result[0], 0b1001);
}

#[test]
fn device_nodes() {
    let m = MemInfo::new();
    let mut buf = [5u8; 4];
    assert_eq!(m.readat(0, &mut buf), Ok(0));
    assert_eq!(buf, [5u8; 4]);
    let mut st = Stat::zeroed();
    m.stat(&mut st).unwrap();
    assert_eq!(st.uid, 1000);
    assert_eq!(st.blksize, 512);
    let mut sdx = Sdx::new(2);
    sdx.mount("/mnt/a");
    sdx.mount("/mnt/b");
    assert_eq!(sdx.umount(), "/mnt/b");
    assert_eq!(sdx.device_id(), 2);
    assert_eq!(NetMod::local_mac_address(), [0x52, 0x54, 0x00, 0x12, 0x34, 0x56]);
    assert_eq!(cache_exec_file(Err(VfsError::FileNotFound)), Err(Errno::ENOENT));
    assert_eq!(cache_exec_file(Ok(())), Ok(()));
}

#[test]
fn dma_bookkeeping() {
    let mut hal = HalImpl::new(0x9000_0000);
    assert_eq!(hal.dma_alloc(2), 0x9000_0000);
    assert_eq!(hal.dma_alloc(1), 0x9000_2000);
    assert_eq!(hal.cached_paddr(0x9000_0010), None);
    hal.record(0x9000_0010, 0x8020_0010);
    assert_eq!(hal.cached_paddr(0x9000_0123), Some(0x8020_0123));
    hal.record(0x9000_0010, 0x1234_5000);
    assert_eq!(hal.cached_paddr(0x9000_0000), Some(0x8020_0000));
}

#[test]
fn mmap_places_and_records_areas() {
    let mut set = MemSet::new(Vec::new());
    assert_eq!(mmap(&mut set, 0, 1, 3, 0, false, 0x1000), Ok((0x2_0000_0000, MmapAction::Done)));
    assert_eq!(set.0.len(), 1);
    assert_eq!(set.0[0].len, 4096);
    assert_eq!(mmap(&mut set, 0x2_0000_0000, 10, 3, 0, false, 0), Err(Errno::EINVAL));
    assert_eq!(mmap(&mut set, 0x2_0000_0000, 10, 3, MAP_FIXED, false, 0), Ok((0x2_0000_0000, MmapAction::Done)));
    assert_eq!(set.0.len(), 1);
    assert_eq!(mmap(&mut set, 0x5000, 8192, 1, MAP_SHARED, true, 0), Ok((0x5000, MmapAction::MapSharedFile { pages: 2 })));
    assert_eq!(mmap(&mut set, 0x9000, 1, 1, 0, true, 0), Ok((0x9000, MmapAction::AllocForFile { pages: 1 })));
    assert_eq!(mmap(&mut set, 0x9000, 0, 1, 0, true, 0), Ok((0x9000, MmapAction::Done)));
    assert_eq!(set.0.len(), 1);
}

use byteos_core::memset::FaultAction;
use byteos_core::poll::{poll_round, select_outcome, wait_deadline, PollFd};
use byteos_core::vfs::TimeSpec;

#[test]
fn poll_rounds() {
    let mut fds = [
        PollFd { fd: 0, events: 1, revents: 9 },
        PollFd { fd: 7, events: 4, revents: 9 },
    ];
    assert_eq!(poll_round(&mut fds, &[1, 0], 5, 10), (1, true));
    assert_eq!(fds[0].revents, 1);
    assert_eq!(fds[1].revents, 0);
    assert_eq!(fds[1].events, 4);
    assert_eq!(poll_round(&mut fds, &[0, 0], 5, 10), (0, false));
    assert_eq!(poll_round(&mut fds, &[0, 0], 10, 10), (0, true));
    assert_eq!(wait_deadline(100, None), usize::MAX);
    assert_eq!(wait_deadline(100, Some(TimeSpec { sec: 1, nsec: 5 })), 1_000_000_105);
    assert_eq!(select_outcome(2, 0, 0), Some(2));
    assert_eq!(select_outcome(0, 11, 10), Some(0));
    assert_eq!(select_outcome(0, 10, 10), None);
}

#[test]
fn page_faults() {
    let code = MemArea {
        mtype: MemType::CodeSection,
        mtrackers: vec![MapTrack { vaddr: 0x1000, frame: 5, rwx: 0 }],
        file: None,
        offset: 0,
        start: 0x1000,
        len: 0x2000,
    };
    let shared = MemArea {
        mtype: MemType::Shared,
        mtrackers: vec![MapTrack { vaddr: 0x8000, frame: 6, rwx: 0 }],
        file: Some(3),
        offset: 0x100,
        start: 0x8000,
        len: 0x2000,
    };
    let mut set = MemSet::new(vec![code, shared]);
    assert_eq!(set.page_fault(0x1234), FaultAction::Existing { area: 0, track: 0 });
    assert_eq!(set.page_fault(0x2fff), FaultAction::Fresh { area: 0, file_pos: 0x1000 });
    assert_eq!(set.page_fault(0x8010), FaultAction::Segv);
    assert_eq!(set.page_fault(0x9000), FaultAction::Fresh { area: 1, file_pos: 0x1100 });
    assert_eq!(set.page_fault(0x5000), FaultAction::Segv);
    set.add_page(0, 0x2000, 11);
    assert_eq!(set.page_fault(0x2fff), FaultAction::Existing { area: 0, track: 1 });
    set.replace_frame(0, 0, 12);
    assert_eq!(set.0[0].mtrackers[0].frame, 12);
    assert_eq!(set.0[0].mtrackers[1].rwx, 0b111);
}

use byteos_core::random::RandomState;
use byteos_core::time::{ITimerVal, ProcessTimer};

#[test]
fn random_stream_continues() {
    let mut one = RandomState::new();
    let mut whole = [0u8; 5];
    assert_eq!(one.fill(&mut whole), 5);
    let mut two = RandomState::new();
    let mut a = [0u8; 3];
    let mut b = [0u8; 2];
    two.fill(&mut a);
    two.fill(&mut b);
    assert_eq!(&whole[..3], &a);
    assert_eq!(&whole[3..], &b);
    assert_eq!(one.seed, two.seed);
}

#[test]
fn timer_fires_once_per_expiry() {
    let mut t = ProcessTimer::new();
    let now = TimeVal { sec: 10, usec: 0 };
    let setting = ITimerVal { interval: TimeVal { sec: 0, usec: 0 }, value: TimeVal { sec: 2, usec: 0 } };
    assert_eq!(t.set(0, Some(setting), now), Ok(ITimerVal::zero()));
    assert!(!t.check(TimeVal { sec: 11, usec: 0 }));
    assert!(t.check(TimeVal { sec: 12, usec: 0 }));
    assert!(!t.check(TimeVal { sec: 13, usec: 0 }));
    assert_eq!(t.set(1, None, now), Err(Errno::EPERM));
}

use byteos_core::elflayout::{ph_ok_check, section_read_check};

fn sh(b: &mut Vec<u8>, name: u32, ty: u32, off: u64, size: u64) {
    b.extend_from_slice(&name.to_le_bytes());
    b.extend_from_slice(&ty.to_le_bytes());
    b.extend_from_slice(&[0u8; 16]);
    b.extend_from_slice(&off.to_le_bytes());
    b.extend_from_slice(&size.to_le_bytes());
    b.extend_from_slice(&[0u8; 24]);
}

/// The static ELF file of `elf_bytes(false)` with the name table `names`
/// at 120, padding up to 144, and there the section headers `secs` (name,
/// type, data offset, size); section 1 is the name section.
fn elf_with(names: &[u8], secs: &[(u32, u32, u64, u64)]) -> Vec<u8> {
    let mut b = elf_bytes(false);
    assert_eq!(b.len(), 120);
    b.extend_from_slice(names);
    b.resize(144, b'y');
    for &(n, t, o, z) in secs {
        sh(&mut b, n, t, o, z);
    }
    b[40..48].copy_from_slice(&144u64.to_le_bytes());
    b[58..60].copy_from_slice(&64u16.to_le_bytes());
    b[60..62].copy_from_slice(&(secs.len() as u16).to_le_bytes());
    b[62..64].copy_from_slice(&1u16.to_le_bytes());
    b
}

/// A static ELF file with a name section and an empty `.rela.dyn`; the
/// last name is NUL-ended or, if not, has a byte 0xff there.
fn elf_with_sections(name_ends: bool) -> Vec<u8> {
    let names: &[u8] = if name_ends { b"\0.shstrtab\0.rela.dyn\0" } else { b"\0.shstrtab\0.rela.dyn\xff" };
    elf_with(names, &[(0, 0, 0, 0), (1, 3, 120, 21), (11, 4, 144, 0)])
}

fn load_base_of(bytes: &[u8]) -> Option<usize> {
    match exec_plan(bytes, &vec![String::from("prog")]) {
        Some(ExecPlan::Load(p)) => Some(p.base),
        _ => None,
    }
}

#[test]
fn elf_tables_inside_the_file() {
    let rela: &[u8] = b".rela.dyn";
    assert!(ph_ok_check(&elf_bytes(false), 0));
    assert!(!ph_ok_check(&elf_bytes(false), 1));
    assert!(section_read_check(&elf_with_sections(true), rela));
    // a name that is not UTF-8, read on the way to `.rela.dyn`
    let bad = elf_with_sections(false);
    assert!(!section_read_check(&bad, rela));
    assert!(exec_plan(&bad, &vec![String::from("prog")]).is_none());
    // program headers past the end of the file
    let mut long = elf_bytes(false);
    long[56..58].copy_from_slice(&5u16.to_le_bytes());
    assert!(ph_ok_check(&long, 0));
    assert!(!ph_ok_check(&long, 1));
    assert!(exec_plan(&long, &vec![String::from("prog")]).is_none());
    // section headers on a misaligned offset
    let mut skew = elf_with_sections(true);
    skew[40..48].copy_from_slice(&145u64.to_le_bytes());
    assert!(!section_read_check(&skew, rela));
    assert!(exec_plan(&skew, &vec![String::from("prog")]).is_none());
}

#[test]
fn elf_section_names_in_utf8() {
    let names: &[u8] = b"\0.shstrtab\0caf\xc3\xa9\0";
    let ok = elf_with(names, &[(0, 0, 0, 0), (1, 3, 120, 17), (11, 1, 0, 0)]);
    assert!(section_read_check(&ok, b".rela.dyn"));
    assert_eq!(load_base_of(&ok), Some(0));
    // the same name cut short of its second byte is no UTF-8
    let cut: &[u8] = b"\0.shstrtab\0caf\xc3\0\0";
    let bad = elf_with(cut, &[(0, 0, 0, 0), (1, 3, 120, 17), (11, 1, 0, 0)]);
    assert!(!section_read_check(&bad, b".rela.dyn"));
    assert_eq!(load_base_of(&bad), None);
}

#[test]
fn elf_rela_of_another_type_loads_at_zero() {
    // `.rela.dyn` holds program bits, its data inside the file
    let names: &[u8] = b"\0.shstrtab\0.rela.dyn\0";
    let b = elf_with(names, &[(0, 0, 0, 0), (1, 3, 120, 21), (11, 1, 120, 21)]);
    assert!(section_read_check(&b, b".rela.dyn"));
    assert_eq!(load_base_of(&b), Some(0));
    // the same data past the end of the file stops the reader
    let past = elf_with(names, &[(0, 0, 0, 0), (1, 3, 120, 21), (11, 1, 120, 4096)]);
    assert!(!section_read_check(&past, b".rela.dyn"));
    assert_eq!(load_base_of(&past), None);
}

#[test]
fn elf_dynsym_unread_without_relocations() {
    // a `.dynsym` on a misaligned offset, and no `.rela.dyn`
    let names: &[u8] = b"\0.shstrtab\0.dynsym\0";
    let b = elf_with(names, &[(0, 0, 0, 0), (1, 3, 120, 19), (11, 11, 121, 24)]);
    assert!(!section_read_check(&b, b".dynsym"));
    assert!(section_read_check(&b, b".rela.dyn"));
    assert_eq!(load_base_of(&b), Some(0));
}

#[test]
fn elf_interpreter_before_sections() {
    // sections that cannot be read do not matter to a dynamic program
    let mut b = elf_bytes(true);
    b[40..48].copy_from_slice(&145u64.to_le_bytes());
    b[58..60].copy_from_slice(&64u16.to_le_bytes());
    b[60..62].copy_from_slice(&3u16.to_le_bytes());
    let args = vec![String::from("prog")];
    match exec_plan(&b, &args) {
        Some(ExecPlan::Interp(a)) => assert_eq!(a, vec!["libc.so", "prog"]),
        _ => panic!("expected the loader"),
    }
    // an interpreter whose bytes lie past the end of the file
    let mut far = elf_bytes(true);
    far[128..136].copy_from_slice(&1000u64.to_le_bytes());
    far[152..160].copy_from_slice(&10u64.to_le_bytes());
    assert!(exec_plan(&far, &args).is_none());
    // a header after the interpreter's may lie anywhere
    let mut more = elf_bytes(true);
    more[56..58].copy_from_slice(&9u16.to_le_bytes());
    assert!(!ph_ok_check(&more, 2));
    match exec_plan(&more, &args) {
        Some(ExecPlan::Interp(_)) => {}
        _ => panic!("expected the loader"),
    }
}

#[test]
fn exec_plan_of_unaligned_bytes() {
    let mut v = vec![0u8];
    v.extend_from_slice(&elf_with_sections(true));
    let args = vec![String::from("prog")];
    match exec_plan(&v[1..], &args) {
        Some(ExecPlan::Load(p)) => assert_eq!(p.entry, 0x1000),
        _ => panic!("expected a load plan"),
    }
}

#[test]
fn cow_copies_shared_frames() {
    use_cow();
}

fn use_cow() {
    let mut set = byteos_core::memset::MemSet::new(Vec::new());
    set.push(byteos_core::memset::MemArea {
        mtype: byteos_core::memset::MemType::Mmap,
        mtrackers: vec![byteos_core::memset::MapTrack { vaddr: 0x1000, frame: 77, rwx: 7 }],
        file: None,
        offset: 0,
        start: 0x1000,
        len: 0x1000,
    });
    assert_eq!(set.cow_step(0, 0, 2), byteos_core::memset::CowStep::CopyFrom { frame: 77, flags: 0b11110 });
    assert_eq!(set.cow_step(0, 0, 1), byteos_core::memset::CowStep::Keep { frame: 77, flags: 0b11110 });
}

#[test]
fn cached_template_areas_put_in_place() {
    let old = MemArea {
        mtype: MemType::Mmap,
        mtrackers: vec![MapTrack { vaddr: 0x10000, frame: 1, rwx: 7 }],
        file: None,
        offset: 0,
        start: 0x10000,
        len: 0x1000,
    };
    let keep = MemArea {
        mtype: MemType::Stack,
        mtrackers: Vec::new(),
        file: None,
        offset: 0,
        start: 0x40000,
        len: 0x1000,
    };
    let mut set = MemSet::new(vec![old, keep]);
    let code = MemArea {
        mtype: MemType::CodeSection,
        mtrackers: vec![MapTrack { vaddr: 0x10000, frame: 5, rwx: 0 }, MapTrack { vaddr: 0x11000, frame: 6, rwx: 0 }],
        file: None,
        offset: 0,
        start: 0x10000,
        len: 0x2000,
    };
    let maps = set.apply_cached(&[code]);
    assert_eq!(maps, vec![(5, 0x10000, 0b10110), (6, 0x11000, 0b10110)]);
    // the area the code covers goes; the other stays, the code comes last
    assert_eq!(set.0.len(), 2);
    assert_eq!(set.0[0].start, 0x40000);
    assert_eq!(set.0[1].start, 0x10000);
    assert_eq!(set.0[1].len, 0x2000);
    assert_eq!(set.0[1].mtrackers.len(), 2);
}

/// A static ELF file with `.rela.dyn` holding one relocation of type `ty`
/// naming symbol 0, and `.dynsym` holding symbol 0 in section `shndx`.
fn elf_relocatable(ty: u32, shndx: u16) -> Vec<u8> {
    let mut b = elf_bytes(false);
    b.extend_from_slice(b"\0.shstrtab\0.rela.dyn\0.dynsym\0");
    b.resize(152, 0);
    sh(&mut b, 0, 0, 0, 0);
    sh(&mut b, 1, 3, 120, 29);
    sh(&mut b, 11, 4, 408, 24);
    sh(&mut b, 21, 11, 432, 24);
    assert_eq!(b.len(), 408);
    b.extend_from_slice(&0u64.to_le_bytes());
    b.extend_from_slice(&(ty as u64).to_le_bytes());
    b.extend_from_slice(&0u64.to_le_bytes());
    b.extend_from_slice(&[0u8; 6]);
    b.extend_from_slice(&shndx.to_le_bytes());
    b.extend_from_slice(&[0u8; 16]);
    b[40..48].copy_from_slice(&152u64.to_le_bytes());
    b[58..60].copy_from_slice(&64u16.to_le_bytes());
    b[60..62].copy_from_slice(&4u16.to_le_bytes());
    b[62..64].copy_from_slice(&1u16.to_le_bytes());
    b
}

#[test]
fn elf_relocatable_loads_at_dyn_base() {
    // a relative relocation: loaded at the dynamic base
    assert_eq!(load_base_of(&elf_relocatable(8, 0)), Some(0x2000_0000));
    // a GOT relocation naming a symbol that is defined
    assert_eq!(load_base_of(&elf_relocatable(6, 1)), Some(0x2000_0000));
    // a GOT relocation naming an undefined symbol stops the loader
    assert_eq!(load_base_of(&elf_relocatable(6, 0)), None);
    // a relocation type the loader does not know stops it too
    assert_eq!(load_base_of(&elf_relocatable(99, 1)), None);
}

#[test]
fn loaded_segment_becomes_code_area() {
    let area = LoadArea { virt_addr: 0x10010, start: 0x10000, page_count: 2, file_offset: 0, file_size: 0x78 };
    let a = code_area(&area, &[7, 9]);
    assert_eq!(a.mtype, MemType::CodeSection);
    assert_eq!(a.start, 0x10000);
    assert_eq!(a.len, 0x2000);
    assert_eq!(a.mtrackers.len(), 2);
    assert_eq!(a.mtrackers[1].vaddr, 0x11000);
    assert_eq!(a.mtrackers[1].frame, 9);
    let mut set = MemSet::new(Vec::new());
    let maps = set.apply_cached(&[a]);
    assert_eq!(maps, vec![(7, 0x10000, 0b10110), (9, 0x11000, 0b10110)]);
}

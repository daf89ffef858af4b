use byteos_core::dirent::getdents;
use byteos_core::errno::Errno;
use byteos_core::ext4disk::Ext4DiskWrapper;
use byteos_core::file::{open_steps, FileState, OpenStep};
use byteos_core::pathbuf::PathBuf;
use byteos_core::pipe::{PipeBuffer, PIPE_LIMIT};
use byteos_core::ramfile::RamFileInner;
use byteos_core::ramfs::RamDirInner;
use byteos_core::vfs::{DirEntry, FileType, SeekFrom, Stat, O_CREAT, O_DIRECTORY, O_RDONLY, O_RDWR, O_WRONLY};

#[test]
fn path_join_normalises() {
    let p = PathBuf::new().join("/a/b/../c/./d");
    assert_eq!(p.path(), "/a/c/d");
    assert_eq!(p.levels(), 3);
    assert_eq!(p.filename(), "d");
    assert_eq!(p.dir().path(), "/a/c");
}

#[test]
fn path_join_relative_and_absolute() {
    let base = PathBuf::from_str("/usr/lib");
    assert_eq!(base.join("x/y").path(), "/usr/lib/x/y");
    assert_eq!(base.join("/etc").path(), "/etc");
    assert_eq!(base.join("../..").path(), "/");
    assert_eq!(base.join("../../../..").path(), "/");
}

#[test]
fn path_root_cases() {
    let root = PathBuf::new();
    assert_eq!(root.path(), "/");
    assert_eq!(root.filename(), "/");
    assert_eq!(root.dir().levels(), 0);
    assert_eq!(root.levels(), 0);
}

#[test]
fn path_round_trip() {
    let p = PathBuf::from_str("/home/user/file.txt");
    let q = PathBuf::from_str(&p.path());
    assert_eq!(q.path(), p.path());
    assert_eq!(q.levels(), 3);
}

#[test]
fn path_join_twice_and_dir() {
    let p = PathBuf::from_str("/usr");
    assert_eq!(p.join("lib").join("x/../y").path(), p.join("lib/x/../y").path());
    assert_eq!(p.join("a/").join("./b").path(), p.join("a//./b").path());
    let q = PathBuf::from_str("/a/b/c");
    assert_eq!(q.dir().join(&q.filename()).path(), q.path());
    assert_eq!(PathBuf::new().join(&q.path()).path(), q.path());
}

#[test]
fn path_prefixes() {
    let p = PathBuf::from_str("/dev/shm/x");
    let dev = PathBuf::from_str("/dev");
    let tmp = PathBuf::from_str("/tmp");
    assert!(p.starts_with(&dev));
    assert!(!p.starts_with(&tmp));
    assert_eq!(p.trim_start(&dev).path(), "/shm/x");
    assert_eq!(p.iter().len(), 3);
}

#[test]
fn ramfile_read_after_write() {
    let mut f = RamFileInner::new(String::from("data"));
    assert_eq!(f.writeat(0, b"hello world"), Ok(11));
    let mut buf = [0u8; 5];
    assert_eq!(f.readat(6, &mut buf), Ok(5));
    assert_eq!(&buf, b"world");
    assert_eq!(f.size(), 11);
}

#[test]
fn ramfile_write_past_end_fills_zeros() {
    let mut f = RamFileInner::new(String::from("sparse"));
    assert_eq!(f.writeat(5000, b"xy"), Ok(2));
    assert_eq!(f.size(), 5002);
    let mut buf = [7u8; 4];
    assert_eq!(f.readat(4998, &mut buf), Ok(4));
    assert_eq!(buf, [0, 0, b'x', b'y']);
    let mut tail = [9u8; 4];
    assert_eq!(f.readat(5002, &mut tail), Ok(0));
    assert_eq!(tail, [9u8; 4]);
}

#[test]
fn ramfile_truncate_keeps_prefix() {
    let mut f = RamFileInner::new(String::from("t"));
    f.writeat(0, b"abcdef").unwrap();
    assert_eq!(f.truncate(3), Ok(()));
    assert_eq!(f.size(), 3);
    assert_eq!(f.truncate(6), Ok(()));
    let mut buf = [1u8; 6];
    assert_eq!(f.readat(0, &mut buf), Ok(6));
    assert_eq!(buf, [b'a', b'b', b'c', 0, 0, 0]);
}

#[test]
fn ramfile_stat() {
    let mut f = RamFileInner::new(String::from("prog.s"));
    f.writeat(0, b"12345").unwrap();
    let mut st = Stat::zeroed();
    f.stat(&mut st).unwrap();
    assert_eq!(st.size, 5);
    assert_eq!(st.ino, 2);
    assert_eq!(st.nlink, 1);
    assert_eq!(st.blksize, 512);
}

#[test]
fn ramdir_mkdir_and_lookup() {
    let mut d = RamDirInner::new(String::from("root"));
    assert_eq!(d.mkdir("a"), Ok(()));
    assert_eq!(d.mkdir("a"), Err(Errno::EEXIST));
    assert_eq!(d.lookup("a"), Ok(0));
    assert_eq!(d.lookup("b"), Err(Errno::ENOENT));
}

#[test]
fn ramdir_mkdir_then_rmdir() {
    let mut d = RamDirInner::new(String::from("root"));
    d.create("f", FileType::File).unwrap();
    d.mkdir("sub").unwrap();
    assert_eq!(d.rmdir("sub"), Ok(()));
    assert_eq!(d.lookup("sub"), Err(Errno::ENOENT));
    assert_eq!(d.rmdir("sub"), Err(Errno::ENOENT));
    assert_eq!(d.rmdir("f"), Err(Errno::ENOENT));
    assert_eq!(d.lookup("f"), Ok(0));
}

#[test]
fn ramdir_remove_and_listing() {
    let mut d = RamDirInner::new(String::from("root"));
    d.create("one", FileType::File).unwrap();
    d.mkdir("two").unwrap();
    d.link("three", 7).unwrap();
    let list = d.read_dir().unwrap();
    assert_eq!(list.len(), 3);
    assert_eq!(list[0].filename, "one");
    assert_eq!(list[1].file_type, FileType::Directory);
    assert_eq!(list[2].file_type, FileType::Link);
    assert_eq!(d.unlink("three"), Ok(()));
    assert_eq!(d.remove("one"), Ok(()));
    assert_eq!(d.remove("two"), Err(Errno::ENOENT));
    assert_eq!(d.read_dir().unwrap().len(), 1);
}

#[test]
fn pipe_is_fifo() {
    let mut p = PipeBuffer::new();
    assert_eq!(p.write(b"abc"), Ok(3));
    assert_eq!(p.write(b"de"), Ok(2));
    let mut buf = [0u8; 4];
    assert_eq!(p.read(&mut buf, true), Ok(4));
    assert_eq!(&buf, b"abcd");
    let mut rest = [0u8; 4];
    assert_eq!(p.read(&mut rest, true), Ok(1));
    assert_eq!(rest[0], b'e');
}

#[test]
fn pipe_empty_read_waits_or_ends() {
    let mut p = PipeBuffer::new();
    let mut buf = [0u8; 4];
    assert_eq!(p.read(&mut buf, true), Err(Errno::EAGAIN));
    assert_eq!(p.read(&mut buf, false), Ok(0));
}

#[test]
fn pipe_full_refuses_writes() {
    let mut p = PipeBuffer::new();
    let big = vec![1u8; PIPE_LIMIT + 1];
    assert_eq!(p.write(&big), Ok(PIPE_LIMIT + 1));
    assert_eq!(p.write(b"x"), Err(Errno::EAGAIN));
    assert_eq!(p.len(), PIPE_LIMIT + 1);
}

#[test]
fn disk_cursor_round_trip() {
    let mut d = Ext4DiskWrapper::new(0);
    d.set_position(1234);
    assert_eq!(d.position(), 1234);
    assert_eq!(d.seek(10, 1, 4096), Ok(1244));
    assert_eq!(d.seek(-10, 2, 4096), Ok(4086));
    assert_eq!(d.seek(-5000, 2, 4096), Err(-1));
    assert_eq!(d.position(), 4086);
}

fn entry(name: &str) -> DirEntry {
    DirEntry { filename: String::from(name), len: 0, file_type: FileType::File }
}

#[test]
fn getdents_layout() {
    let entries = vec![entry("ab"), entry("c")];
    let mut buf = [0xffu8; 64];
    let (written, next) = getdents(&entries, 0, &mut buf);
    assert_eq!(written, 27 + 26);
    assert_eq!(next, 2);
    assert_eq!(&buf[0..8], &[0u8; 8]);
    assert_eq!(buf[8], 27);
    assert_eq!(buf[16], 27);
    assert_eq!(buf[17], 0);
    assert_eq!(buf[18], 0);
    assert_eq!(&buf[19..21], b"ab");
    assert_eq!(buf[21], 0);
    assert_eq!(buf[22], 0xff);
    assert_eq!(buf[27 + 16], 26);
    assert_eq!(buf[27 + 19], b'c');
    assert_eq!(buf[60], 0xff);
}

#[test]
fn getdents_stops_when_full() {
    let entries = vec![entry("ab"), entry("c")];
    let mut buf = [0u8; 40];
    assert_eq!(getdents(&entries, 0, &mut buf), (27, 1));
    let mut small = [0u8; 10];
    assert_eq!(getdents(&entries, 1, &mut small), (0, 0));
    let mut more = [0u8; 40];
    assert_eq!(getdents(&entries, 1, &mut more), (26, 2));
    assert_eq!(getdents(&entries, 2, &mut more), (0, 0));
}

#[test]
fn open_steps_plain_and_create() {
    let p = PathBuf::from_str("/a/b/c");
    let steps = open_steps(&p, O_RDONLY);
    assert_eq!(steps.len(), 3);
    assert!(matches!(&steps[0], OpenStep::Lookup(n) if n == "a"));
    assert!(matches!(&steps[2], OpenStep::Lookup(n) if n == "c"));
    let created = open_steps(&p, O_CREAT | O_DIRECTORY);
    assert_eq!(created.len(), 4);
    assert!(matches!(&created[2], OpenStep::Create(n, FileType::Directory) if n == "c"));
    assert!(matches!(&open_steps(&p, O_CREAT)[2], OpenStep::Create(_, FileType::File)));
    assert_eq!(open_steps(&PathBuf::new(), O_CREAT).len(), 0);
}

#[test]
fn file_state_write_gate_and_seek() {
    let mut f = FileState::new(O_RDONLY);
    assert_eq!(f.check_writeable(), Err(Errno::EPERM));
    assert_eq!(f.write_start(3), Err(Errno::EPERM));
    let mut w = FileState::new(O_WRONLY);
    assert_eq!(w.write_start(0), Ok(None));
    assert_eq!(w.write_start(3), Ok(Some(0)));
    w.advance(3);
    assert_eq!(FileState::new(O_RDWR).check_writeable(), Ok(()));
    assert_eq!(w.seek(SeekFrom::CURRENT(-10), 100), Ok(0));
    assert_eq!(w.seek(SeekFrom::END(-1), 100), Ok(99));
    assert_eq!(w.seek(SeekFrom::SET(5), 100), Ok(5));
    assert_eq!(w.offset, 5);
    f.advance(2);
    assert_eq!(f.offset, 2);
}

use byteos_core::ext4disk::{assemble_block, read_offset_sectors, write_offset_sectors, write_sector};
use byteos_core::ext4path::path_deal_with;

#[test]
fn ext4_path_settling() {
    assert_eq!(path_deal_with("/home/", "./a//b/"), "/home/a/b");
    assert_eq!(path_deal_with("/x", "/"), "");
    assert_eq!(path_deal_with("/x", "."), "");
    assert_eq!(path_deal_with("/", "f"), "/f");
    assert_eq!(path_deal_with("/d", "..//./x"), "/d/.././x");
    assert_eq!(path_deal_with("/d", "a///b"), "/d/a/b");
}

#[test]
fn ext4_sector_reads() {
    assert_eq!(read_offset_sectors(1030), (2, 8));
    let sectors: Vec<u8> = (0..4096u32).map(|x| (x % 251) as u8).collect();
    let block = assemble_block(1030, &sectors);
    assert_eq!(block.len(), 4096);
    assert_eq!(block[0], sectors[6]);
    assert_eq!(block[4089], sectors[4095]);
    assert_eq!(block[4090], 0);
    assert_eq!(block[4095], 0);
}

#[test]
fn ext4_sector_writes() {
    assert_eq!(write_offset_sectors(1024, 1000), (2, 2));
    let old = [7u8; 512];
    let small = write_sector(1030, b"abc", 0, &old);
    assert_eq!(&small[6..9], b"abc");
    assert_eq!(small[5], 7);
    assert_eq!(small[9], 7);
    let buf: Vec<u8> = (0..700u32).map(|x| (x % 200) as u8).collect();
    let zeros = [0u8; 512];
    let first = write_sector(1024, &buf, 0, &zeros);
    assert_eq!(&first[..], &buf[..512]);
    let second = write_sector(1024, &buf, 1, &zeros);
    assert_eq!(&second[..188], &buf[512..]);
    assert_eq!(second[188], 0);
}

use byteos_core::devfs::{dev_dir_fill_stat, str_lt, DevDir, DevNode, ProcDir, ProcNode};

#[test]
fn dev_dir_lists_names_in_order() {
    let d = DevDir::<DevNode>::new();
    let names: Vec<String> = d.read_dir().into_iter().map(|e| e.filename).collect();
    assert_eq!(
        names,
        vec!["cpu_dma_latency", "null", "rtc", "shm", "stderr", "stdin", "stdout", "ttyv0", "urandom", "zero"]
    );
    assert_eq!(d.children(), 10);
    assert!(d.read_dir().iter().all(|e| e.len == 0 && e.file_type == byteos_core::vfs::FileType::Device));
}

#[test]
fn dev_dir_open_and_add() {
    let mut d = DevDir::<DevNode>::new();
    assert_eq!(d.open("null"), Ok(DevNode::Null));
    assert_eq!(d.open("ttyv0"), Ok(DevNode::Tty));
    assert_eq!(d.open("sda"), Err(byteos_core::vfs::VfsError::FileNotFound));
    d.add("sda", DevNode::Zero);
    assert_eq!(d.open("sda"), Ok(DevNode::Zero));
    assert_eq!(d.children(), 11);
    d.add("null", DevNode::Rtc);
    assert_eq!(d.open("null"), Ok(DevNode::Rtc));
    assert_eq!(d.open("zero"), Ok(DevNode::Zero));
    assert_eq!(d.children(), 11);
    let names: Vec<String> = d.read_dir().into_iter().map(|e| e.filename).collect();
    assert_eq!(names[3], "sda");
}

#[test]
fn name_order() {
    assert!(str_lt("abc", "abd"));
    assert!(str_lt("ab", "abc"));
    assert!(!str_lt("abc", "ab"));
    assert!(!str_lt("same", "same"));
    assert!(str_lt("Zebra", "apple"));
    assert!(str_lt("", "a"));
}

#[test]
fn dev_dir_stat_fields() {
    let mut st = byteos_core::vfs::Stat::zeroed();
    st.uid = 7;
    assert_eq!(dev_dir_fill_stat(&mut st), Ok(()));
    assert_eq!(st.mode, 0o040000);
    assert_eq!((st.ino, st.nlink, st.uid, st.blksize), (1, 1, 0, 512));
}

#[test]
fn proc_dir_nodes() {
    let p = ProcDir::new();
    let names: Vec<String> = p.read_dir().into_iter().map(|e| e.filename).collect();
    assert_eq!(names, vec!["interrupts", "meminfo", "mounts"]);
    assert_eq!(p.open("meminfo"), Ok(ProcNode::MemInfo));
    assert_eq!(p.open("cpuinfo"), Err(byteos_core::vfs::VfsError::FileNotFound));
}

use byteos_core::ramfs::FileContainer;

#[test]
fn ramdir_ops_keep_sibling_contents() {
    let mut d = RamDirInner::new(String::from("/"));
    d.create("f", byteos_core::vfs::FileType::File).unwrap();
    if let FileContainer::File(f) = &mut d.children[0] {
        f.writeat(0, b"hello").unwrap();
    }
    d.mkdir("sub").unwrap();
    d.link("l", 7).unwrap();
    d.rmdir("sub").unwrap();
    assert_eq!(d.children.len(), 2);
    if let FileContainer::File(f) = &d.children[0] {
        let mut buf = [0u8; 5];
        assert_eq!(f.readat(0, &mut buf), Ok(5));
        assert_eq!(&buf, b"hello");
    } else {
        panic!("the file should stay first");
    }
}

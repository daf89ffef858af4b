//! Loading a program: what of an ELF file decides where it goes, and the
//! plan that `execve` follows.
use vstd::prelude::*;
use crate::elflayout::{
    dynsym_name, elf64, has_name, hdr_len, le, lemma_ph_fields, ph_at, ph_count_read, ph_esz, ph_num, ph_off,
    ph_ok_at, ph_ok_check, rela_name, sec_offset, sec_size, sec_type, section_read_check, section_read_ok,
    sh_num,
};
use crate::errno::Errno;
use crate::memset::{MapTrack, MemArea, MemType};
use crate::pathbuf::strings_view;
use crate::ramfs::str_eq;
use crate::stack::USER_DYN_ADDR;
use xmas_elf::program::Type;
use xmas_elf::sections::SectionData;
use xmas_elf::symbol_table::Entry;

verus! {

/// The page size programs are loaded in.
pub const ELF_PAGE_SIZE: usize = 4096;

/// The kinds of program header the loader tells apart.
#[derive(Clone, Copy, Debug, PartialEq, Eq, Structural)]
pub enum SegmentKind {
    Load,
    Interp,
    Phdr,
    /// Any other valid kind.
    Other,
    /// A type number that is no kind at all.
    Invalid,
}

/// A program header.
#[derive(Clone, Copy, Debug, PartialEq, Eq, Structural)]
pub struct Segment {
    pub kind: SegmentKind,
    pub offset: u64,
    pub vaddr: u64,
    pub file_size: u64,
    pub mem_size: u64,
}

/// The fields of an ELF header the loader reads.
#[derive(Clone, Copy, Debug, PartialEq, Eq, Structural)]
pub struct ElfHeader {
    pub entry: u64,
    pub ph_offset: u64,
    pub ph_entry_size: u16,
    pub ph_count: u16,
}

/// What `xmas_elf` reads as the header of `bytes` (in the little-endian
/// order of the machines this kernel runs on), or `None` where it does not
/// take them for an ELF file: the magic number, a class of 32 or 64 bits,
/// and bytes enough for the header of that class.
pub open spec fn elf_header_of(bytes: Seq<u8>) -> Option<ElfHeader> {
    if bytes.len() >= 16 && bytes[0] == 0x7f && bytes[1] == 0x45 && bytes[2] == 0x4c && bytes[3] == 0x46
        && (bytes[4] == 1 || bytes[4] == 2) && bytes.len() >= hdr_len(bytes) {
        Some(
            ElfHeader {
                entry: (if elf64(bytes) { le(bytes, 24, 8) } else { le(bytes, 24, 4) }) as u64,
                ph_offset: ph_off(bytes) as u64,
                ph_entry_size: ph_esz(bytes) as u16,
                ph_count: ph_num(bytes) as u16,
            },
        )
    } else {
        None
    }
}

/// The kind of a program header with type number `t`, as `xmas_elf`'s
/// `get_type` tells them apart.
pub open spec fn seg_kind(t: int) -> SegmentKind {
    if t == 1 {
        SegmentKind::Load
    } else if t == 3 {
        SegmentKind::Interp
    } else if t == 6 {
        SegmentKind::Phdr
    } else if (0 <= t <= 7) || (0x6000_0000 <= t <= 0x7fff_ffff) {
        SegmentKind::Other
    } else {
        SegmentKind::Invalid
    }
}

/// Program header `i` of `b`, its fields read in place (little-endian).
pub open spec fn segment_at(b: Seq<u8>, i: int) -> Segment {
    let a = ph_at(b, i);
    if elf64(b) {
        Segment {
            kind: seg_kind(le(b, a, 4)),
            offset: le(b, a + 8, 8) as u64,
            vaddr: le(b, a + 16, 8) as u64,
            file_size: le(b, a + 32, 8) as u64,
            mem_size: le(b, a + 40, 8) as u64,
        }
    } else {
        Segment {
            kind: seg_kind(le(b, a, 4)),
            offset: le(b, a + 4, 4) as u64,
            vaddr: le(b, a + 8, 4) as u64,
            file_size: le(b, a + 16, 4) as u64,
            mem_size: le(b, a + 20, 4) as u64,
        }
    }
}

/// The program headers the ELF reader goes through in `bytes`, in order.
pub open spec fn elf_segments_of(bytes: Seq<u8>) -> Seq<Segment> {
    Seq::new(ph_count_read(bytes) as nat, |i: int| segment_at(bytes, i))
}

/// The first section named `x`: the one `find_section_by_name` stops at.
pub open spec fn first_named(b: Seq<u8>, x: Seq<u8>) -> Option<int> {
    if exists|i: int| 0 <= i < sh_num(b) && #[trigger] has_name(b, i, x) {
        Some(
            choose|i: int|
                0 <= i < sh_num(b) && #[trigger] has_name(b, i, x) && forall|j: int|
                    0 <= j < i ==> !#[trigger] has_name(b, j, x),
        )
    } else {
        None
    }
}

/// The (type, symbol index) of each relocation of the `.rela.dyn` section
/// of `bytes`: the low and the high half of the `info` word of each 24-byte
/// entry. `None` where there is no such section, or it is not of the
/// relocation type, or the file is not of the 64-bit class.
pub open spec fn elf_rela_of(bytes: Seq<u8>) -> Option<Seq<(u32, u32)>> {
    match first_named(bytes, rela_name()) {
        Some(i) => if elf64(bytes) && sec_type(bytes, i) == 4 {
            let off = sec_offset(bytes, i);
            Some(
                Seq::new(
                    (sec_size(bytes, i) / 24) as nat,
                    |k: int| (le(bytes, off + 24 * k + 8, 4) as u32, le(bytes, off + 24 * k + 12, 4) as u32),
                ),
            )
        } else {
            None
        },
        None => None,
    }
}

/// The section index (`shndx`) of each 24-byte symbol of the `.dynsym`
/// section of `bytes`; `None` where there is no such section, or it is not
/// of the dynamic symbol type, or the file is not of the 64-bit class.
pub open spec fn elf_dynsym_of(bytes: Seq<u8>) -> Option<Seq<u16>> {
    match first_named(bytes, dynsym_name()) {
        Some(i) => if elf64(bytes) && sec_type(bytes, i) == 11 {
            let off = sec_offset(bytes, i);
            Some(Seq::new((sec_size(bytes, i) / 24) as nat, |k: int| le(bytes, off + 24 * k + 6, 2) as u16))
        } else {
            None
        },
        None => None,
    }
}

/// `xmas_elf::ElfFile::new` and the getters of `header.pt2`: the entry
/// point, program header offset, size and count of the file, where it is
/// one. Claimed: the result is `elf_header_of` of the bytes (the crate's
/// `parse_header` and the field layout of its `HeaderPt1` and
/// `HeaderPt2_`). The crate reads the header in place and asserts its
/// alignment, so the bytes are first copied to an 8-byte boundary; its
/// length checks return an error rather than stop.
#[verifier::external_body]
fn parse_elf_header(bytes: &[u8]) -> (res: Option<ElfHeader>)
    ensures
        res == elf_header_of(bytes@),
{
    let mut buf = vec![0u8; bytes.len() + 8];
    let at = buf.as_ptr().align_offset(8);
    buf[at..at + bytes.len()].copy_from_slice(bytes);
    match xmas_elf::ElfFile::new(&buf[at..at + bytes.len()]) {
        Ok(elf) => Some(ElfHeader {
            entry: elf.header.pt2.entry_point(),
            ph_offset: elf.header.pt2.ph_offset(),
            ph_entry_size: elf.header.pt2.ph_entry_size(),
            ph_count: elf.header.pt2.ph_count(),
        }),
        Err(_) => None,
    }
}

/// `xmas_elf::ElfFile::program_header(index)`: program header `index`,
/// its `get_type` told apart as load, interpreter, header table, other or
/// invalid, with its offset, address and sizes. Claimed: the result is
/// `segment_at` of the bytes, that is the crate's `ProgramHeader32` and
/// `ProgramHeader64` layouts read in the little-endian order of the
/// machines this kernel runs on, and its `Type_::as_type`. `ph_ok_at` keeps
/// the crate's slice of the header inside the bytes, as large as a header
/// and on its alignment once the bytes are copied to an 8-byte boundary, so
/// neither its slicing nor its `read` stops.
#[verifier::external_body]
fn program_header(bytes: &[u8], index: u16) -> (res: Segment)
    requires
        elf_header_of(bytes@) is Some,
        ph_ok_at(bytes@, index as int),
    ensures
        res == segment_at(bytes@, index as int),
{
    let mut buf = vec![0u8; bytes.len() + 8];
    let at = buf.as_ptr().align_offset(8);
    buf[at..at + bytes.len()].copy_from_slice(bytes);
    let elf = xmas_elf::ElfFile::new(&buf[at..at + bytes.len()]).unwrap();
    let ph = elf.program_header(index).unwrap();
    let kind = match ph.get_type() {
        Ok(Type::Load) => SegmentKind::Load,
        Ok(Type::Interp) => SegmentKind::Interp,
        Ok(Type::Phdr) => SegmentKind::Phdr,
        Ok(_) => SegmentKind::Other,
        Err(_) => SegmentKind::Invalid,
    };
    Segment { kind, offset: ph.offset(), vaddr: ph.virtual_addr(), file_size: ph.file_size(), mem_size: ph.mem_size() }
}

/// `xmas_elf::ElfFile::find_section_by_name(".rela.dyn")` and its
/// `get_data`: the type and symbol index of each 64-bit relocation.
/// Claimed: the result is `elf_rela_of` of the bytes, its entries in order:
/// the search stops at the first section whose name reads as ".rela.dyn",
/// `get_data` gives 64-bit relocations for a section of that type in a
/// 64-bit file and nothing else gives them, and the crate's `Rela<P64>`
/// layout and `get_type` and `get_symbol_table_index` are read in the
/// little-endian order of the machines this kernel runs on.
/// The crate's search slices section headers and names out of the bytes
/// and `get_data` slices the data, reading them in place;
/// `section_read_ok` for the name keeps each of those inside the bytes, on
/// its alignment (once the bytes are copied to an 8-byte boundary), each
/// name NUL-ended UTF-8 and the data as large as its type reads, so that
/// none of them stops.
#[verifier::external_body]
fn rela_entries(bytes: &[u8]) -> (res: Option<Vec<(u32, u32)>>)
    requires
        elf_header_of(bytes@) is Some,
        section_read_ok(bytes@, rela_name()),
    ensures
        res is Some <==> elf_rela_of(bytes@) is Some,
        res matches Some(v) ==> v@ == elf_rela_of(bytes@)->0,
{
    let mut buf = vec![0u8; bytes.len() + 8];
    let at = buf.as_ptr().align_offset(8);
    buf[at..at + bytes.len()].copy_from_slice(bytes);
    let elf = xmas_elf::ElfFile::new(&buf[at..at + bytes.len()]).unwrap();
    match elf.find_section_by_name(".rela.dyn")?.get_data(&elf).ok()? {
        SectionData::Rela64(es) => Some(es.iter().map(|e| (e.get_type(), e.get_symbol_table_index())).collect()),
        _ => None,
    }
}

/// `xmas_elf::ElfFile::find_section_by_name(".dynsym")` and its
/// `get_data`: the section index (`shndx`) of each dynamic symbol. Claimed:
/// the result is `elf_dynsym_of` of the bytes, in order: the search stops
/// at the first section whose name reads as ".dynsym", `get_data` gives
/// 64-bit dynamic symbols for a section of that type in a 64-bit file and
/// nothing else gives them, and the crate's 24-byte `Entry64_` layout is
/// read in the little-endian order of the machines this kernel runs on.
/// What keeps the crate's reads in place inside the bytes is
/// `section_read_ok` for the name, as for `rela_entries`.
#[verifier::external_body]
fn dynsym_sections(bytes: &[u8]) -> (res: Option<Vec<u16>>)
    requires
        elf_header_of(bytes@) is Some,
        section_read_ok(bytes@, dynsym_name()),
    ensures
        res is Some <==> elf_dynsym_of(bytes@) is Some,
        res matches Some(v) ==> v@ == elf_dynsym_of(bytes@)->0,
{
    let mut buf = vec![0u8; bytes.len() + 8];
    let at = buf.as_ptr().align_offset(8);
    buf[at..at + bytes.len()].copy_from_slice(bytes);
    let elf = xmas_elf::ElfFile::new(&buf[at..at + bytes.len()]).unwrap();
    match elf.find_section_by_name(".dynsym")?.get_data(&elf).ok()? {
        SectionData::DynSymbolTable64(ds) => Some(ds.iter().map(|d| d.shndx()).collect()),
        _ => None,
    }
}

/// The relocation types the loader knows: those that name a symbol
/// (`GOT`, `PLT`, RISC-V `64`, AArch64 `GLOBAL_DATA`) and the relative ones.
pub open spec fn symbol_reloc(t: u32) -> bool {
    t == 6 || t == 7 || t == 2 || t == 0x401
}

pub open spec fn relative_reloc(t: u32) -> bool {
    t == 8 || t == 3 || t == 0x403
}

/// Relocations the loader can apply: each of a known type, and each that
/// names a symbol names one that is defined (in some section).
pub open spec fn relocs_ok(rela: Seq<(u32, u32)>, dynsym: Seq<u16>) -> bool {
    forall|i: int|
        0 <= i < rela.len() ==> (symbol_reloc((#[trigger] rela[i]).0) || relative_reloc(rela[i].0))
            && (symbol_reloc(rela[i].0) ==> rela[i].1 < dynsym.len() && dynsym[rela[i].1 as int] != 0)
}

/// Relocating a program loaded at `base`: it stays at `base` when it has
/// both relocation and dynamic symbol tables; without either it is not
/// relocatable (`Err`).
pub fn relocate(rela: &Option<Vec<(u32, u32)>>, dynsym: &Option<Vec<u16>>, base: usize) -> (res: Result<
    usize,
    (),
>)
    requires
        rela matches Some(r) ==> (dynsym matches Some(d) ==> relocs_ok(r@, d@)),
    ensures
        res == (if rela is Some && dynsym is Some {
            Ok::<usize, ()>(base)
        } else {
            Err::<usize, ()>(())
        }),
{
    let r = match rela {
        Some(r) => r,
        None => return Err(()),
    };
    let d = match dynsym {
        Some(d) => d,
        None => return Err(()),
    };
    let mut i: usize = 0;
    while i < r.len()
        invariant
            i <= r@.len(),
            relocs_ok(r@, d@),
        decreases r@.len() - i,
    {
        let (t, sym) = r[i];
        assert(r@[i as int] == (t, sym));
        if t == 6 || t == 7 || t == 2 || t == 0x401 {
            let shndx = d[sym as usize];
            assert(shndx != 0);
        }
        i = i + 1;
    }
    Ok(base)
}

/// The end of a segment in memory.
pub open spec fn seg_end(s: Segment) -> int {
    (s.vaddr + s.mem_size) as u64 as usize as int
}

/// The highest segment end.
pub open spec fn max_end(segs: Seq<Segment>) -> int
    decreases segs.len(),
{
    if segs.len() == 0 {
        0
    } else if segs.len() == 1 {
        seg_end(segs[0])
    } else {
        let m = max_end(segs.drop_last());
        if seg_end(segs.last()) > m {
            seg_end(segs.last())
        } else {
            m
        }
    }
}

/// `x` rounded up to a whole number of pages.
pub open spec fn page_round_up(x: int) -> int {
    (x + ELF_PAGE_SIZE - 1) / ELF_PAGE_SIZE as int * ELF_PAGE_SIZE
}

/// No segment's end overflows.
pub open spec fn ends_fit(segs: Seq<Segment>) -> bool {
    forall|i: int| 0 <= i < segs.len() ==> (#[trigger] segs[i]).vaddr + segs[i].mem_size <= u64::MAX
}

proof fn lemma_max_end_bound(segs: Seq<Segment>)
    ensures
        0 <= max_end(segs) <= usize::MAX,
    decreases segs.len(),
{
    if segs.len() > 1 {
        lemma_max_end_bound(segs.drop_last());
    }
}

/// Where the heap starts: after every segment, rounded up to a page.
pub fn heap_bottom(segs: &[Segment]) -> (res: usize)
    requires
        segs@.len() > 0,
        ends_fit(segs@),
        page_round_up(max_end(segs@)) <= usize::MAX,
    ensures
        res == page_round_up(max_end(segs@)),
{
    let mut m: usize = (segs[0].vaddr + segs[0].mem_size) as usize;
    let mut i: usize = 1;
    proof {
        assert(segs@.subrange(0, 1) =~= seq![segs@[0]]);
    }
    while i < segs.len()
        invariant
            1 <= i <= segs@.len(),
            ends_fit(segs@),
            m == max_end(segs@.subrange(0, i as int)),
        decreases segs@.len() - i,
    {
        let e = (segs[i].vaddr + segs[i].mem_size) as usize;
        proof {
            assert(segs@.subrange(0, i + 1).drop_last() =~= segs@.subrange(0, i as int));
        }
        if e > m {
            m = e;
        }
        i = i + 1;
    }
    proof {
        assert(segs@.subrange(0, segs@.len() as int) =~= segs@);
        lemma_max_end_bound(segs@);
    }
    assert(m + (ELF_PAGE_SIZE - 1) <= usize::MAX) by (nonlinear_arith)
        requires
            (m + 4095) / 4096 * 4096 <= usize::MAX,
            ELF_PAGE_SIZE == 4096,
    ;
    (m + (ELF_PAGE_SIZE - 1)) / ELF_PAGE_SIZE * ELF_PAGE_SIZE
}

/// The first segment that satisfies `p`, if any.
pub open spec fn first_where(segs: Seq<Segment>, p: spec_fn(Segment) -> bool) -> Option<int> {
    if exists|i: int| 0 <= i < segs.len() && p(#[trigger] segs[i]) {
        Some(choose|i: int| 0 <= i < segs.len() && p(#[trigger] segs[i]) && forall|j: int| 0 <= j < i ==> !p(#[trigger] segs[j]))
    } else {
        None
    }
}

/// Whether a segment is the program header table.
pub open spec fn is_phdr(s: Segment) -> bool {
    s.kind == SegmentKind::Phdr
}

/// Whether a segment is loaded from the start of the file.
pub open spec fn is_load_at_zero(s: Segment) -> bool {
    s.kind == SegmentKind::Load && s.offset == 0
}

/// Where the program headers are in memory: the address of the header
/// table's own segment where there is one, else that of the segment loaded
/// from the start of the file plus their offset in the file; else `EBADF`.
pub open spec fn ph_addr_spec(segs: Seq<Segment>, ph_offset: u64) -> Result<u64, Errno> {
    match first_where(segs, |s: Segment| is_phdr(s)) {
        Some(i) => Ok(segs[i].vaddr),
        None => match first_where(segs, |s: Segment| is_load_at_zero(s)) {
            Some(i) => Ok((segs[i].vaddr + ph_offset) as u64),
            None => Err(Errno::EBADF),
        },
    }
}

proof fn lemma_first_where(segs: Seq<Segment>, p: spec_fn(Segment) -> bool, i: int)
    requires
        0 <= i < segs.len(),
        p(segs[i]),
        forall|j: int| 0 <= j < i ==> !p(#[trigger] segs[j]),
    ensures
        first_where(segs, p) == Some(i),
{
    assert(p(segs[i]));
    let c = choose|c: int| 0 <= c < segs.len() && p(#[trigger] segs[c]) && forall|j: int| 0 <= j < c ==> !p(#[trigger] segs[j]);
    if c < i {
        assert(!p(segs[c]));
    } else if c > i {
        assert(!p(segs[i]));
    }
}

/// The address of the program headers in memory (`get_ph_addr`).
pub fn get_ph_addr(segs: &[Segment], ph_offset: u64) -> (res: Result<u64, Errno>)
    requires
        forall|i: int|
            0 <= i < segs@.len() && is_load_at_zero(#[trigger] segs@[i]) ==> segs@[i].vaddr + ph_offset
                <= u64::MAX,
    ensures
        res == ph_addr_spec(segs@, ph_offset),
{
    let mut i: usize = 0;
    while i < segs.len()
        invariant
            i <= segs@.len(),
            forall|j: int| 0 <= j < i ==> !is_phdr(#[trigger] segs@[j]),
        decreases segs@.len() - i,
    {
        if segs[i].kind == SegmentKind::Phdr {
            proof {
                lemma_first_where(segs@, |s: Segment| is_phdr(s), i as int);
            }
            return Ok(segs[i].vaddr);
        }
        i = i + 1;
    }
    proof {
        assert(first_where(segs@, |s: Segment| is_phdr(s)) is None);
    }
    let mut k: usize = 0;
    while k < segs.len()
        invariant
            k <= segs@.len(),
            forall|j: int| 0 <= j < segs@.len() ==> !is_phdr(#[trigger] segs@[j]),
            forall|j: int|
                0 <= j < segs@.len() && is_load_at_zero(#[trigger] segs@[j]) ==> segs@[j].vaddr + ph_offset
                    <= u64::MAX,
            forall|j: int| 0 <= j < k ==> !is_load_at_zero(#[trigger] segs@[j]),
        decreases segs@.len() - k,
    {
        if segs[k].kind == SegmentKind::Load && segs[k].offset == 0 {
            proof {
                lemma_first_where(segs@, |s: Segment| is_load_at_zero(s), k as int);
                assert(is_load_at_zero(segs@[k as int]));
            }
            return Ok(segs[k].vaddr + ph_offset);
        }
        k = k + 1;
    }
    proof {
        assert(first_where(segs@, |s: Segment| is_load_at_zero(s)) is None);
    }
    Err(Errno::EBADF)
}

/// Where one loaded segment goes: its first byte in memory, the page-aligned
/// area that holds it, and the bytes of the file that fill it.
#[derive(Clone, Copy, Debug, PartialEq, Eq, Structural)]
pub struct LoadArea {
    pub virt_addr: usize,
    pub start: usize,
    pub page_count: usize,
    pub file_offset: usize,
    pub file_size: usize,
}

/// The area of a segment loaded at `base`: from the page of its first byte
/// to the page of its last.
pub open spec fn load_area_of(s: Segment, base: usize) -> LoadArea {
    let virt = base + s.vaddr as usize;
    let vpn = virt / ELF_PAGE_SIZE as int;
    LoadArea {
        virt_addr: virt as usize,
        start: (vpn * ELF_PAGE_SIZE) as usize,
        page_count: ((virt + s.mem_size as usize + ELF_PAGE_SIZE - 1) / ELF_PAGE_SIZE as int - vpn) as usize,
        file_offset: s.offset as usize,
        file_size: s.file_size as usize,
    }
}

/// The loaded segments of a list, in order.
pub open spec fn loads(segs: Seq<Segment>) -> Seq<Segment> {
    segs.filter(|s: Segment| s.kind == SegmentKind::Load)
}

/// Segments that can be placed at `base`: every type valid, and each loaded
/// one's addresses fit.
pub open spec fn placeable(segs: Seq<Segment>, base: usize) -> bool {
    forall|i: int|
        0 <= i < segs.len() ==> (#[trigger] segs[i]).kind != SegmentKind::Invalid && (segs[i].kind
            == SegmentKind::Load ==> base + segs[i].vaddr as usize + segs[i].mem_size as usize
            + ELF_PAGE_SIZE <= usize::MAX)
}

/// Where each loaded segment goes when the program is loaded at `base`.
pub fn load_areas(segs: &[Segment], base: usize) -> (res: Vec<LoadArea>)
    requires
        placeable(segs@, base),
    ensures
        res@ == loads(segs@).map_values(|s: Segment| load_area_of(s, base)),
{
    let mut out: Vec<LoadArea> = Vec::new();
    let mut i: usize = 0;
    while i < segs.len()
        invariant
            i <= segs@.len(),
            placeable(segs@, base),
            out@ == loads(segs@.subrange(0, i as int)).map_values(|s: Segment| load_area_of(s, base)),
        decreases segs@.len() - i,
    {
        let s = segs[i];
        proof {
            segs@.subrange(0, i as int).lemma_filter_push(s, |s: Segment| s.kind == SegmentKind::Load);
            assert(segs@.subrange(0, i + 1) =~= segs@.subrange(0, i as int).push(s));
        }
        if s.kind == SegmentKind::Load {
            let virt = base + s.vaddr as usize;
            let vpn = virt / ELF_PAGE_SIZE;
            let end = virt + s.mem_size as usize;
            let page_count = (end + (ELF_PAGE_SIZE - 1)) / ELF_PAGE_SIZE - vpn;
            assert(vpn * ELF_PAGE_SIZE <= virt) by (nonlinear_arith)
                requires
                    vpn == virt / 4096,
                    ELF_PAGE_SIZE == 4096,
            ;
            assert((end + 4095) / 4096 >= vpn) by (nonlinear_arith)
                requires
                    vpn == virt / 4096,
                    end >= virt,
            ;
            out.push(
                LoadArea {
                    virt_addr: virt,
                    start: vpn * ELF_PAGE_SIZE,
                    page_count,
                    file_offset: s.offset as usize,
                    file_size: s.file_size as usize,
                },
            );
            proof {
                assert(out@ =~= loads(segs@.subrange(0, i + 1)).map_values(
                    |s: Segment| load_area_of(s, base),
                ));
            }
        } else {
            proof {
                assert(out@ =~= loads(segs@.subrange(0, i + 1)).map_values(
                    |s: Segment| load_area_of(s, base),
                ));
            }
        }
        i = i + 1;
    }
    proof {
        assert(segs@.subrange(0, segs@.len() as int) =~= segs@);
    }
    out
}

/// The code area a loaded segment becomes once `frames` hold its pages:
/// one page per frame, in order, from the area's start.
pub fn code_area(area: &LoadArea, frames: &[usize]) -> (res: MemArea)
    requires
        frames@.len() == area.page_count,
        area.start + area.page_count * ELF_PAGE_SIZE <= usize::MAX,
    ensures
        res.mtype == MemType::CodeSection,
        res.file is None,
        res.offset == 0,
        res.start == area.start,
        res.len == area.page_count * ELF_PAGE_SIZE,
        res.mtrackers@.len() == frames@.len(),
        forall|i: int|
            0 <= i < frames@.len() ==> #[trigger] res.mtrackers@[i] == (MapTrack {
                vaddr: (area.start + i * ELF_PAGE_SIZE) as usize,
                frame: frames@[i],
                rwx: 0,
            }),
{
    let mut tracks: Vec<MapTrack> = Vec::new();
    let mut i: usize = 0;
    while i < frames.len()
        invariant
            i <= frames@.len(),
            frames@.len() == area.page_count,
            area.start + area.page_count * ELF_PAGE_SIZE <= usize::MAX,
            tracks@.len() == i,
            forall|k: int|
                0 <= k < i ==> #[trigger] tracks@[k] == (MapTrack {
                    vaddr: (area.start + k * ELF_PAGE_SIZE) as usize,
                    frame: frames@[k],
                    rwx: 0,
                }),
        decreases frames@.len() - i,
    {
        assert(i * ELF_PAGE_SIZE <= area.page_count * ELF_PAGE_SIZE) by (nonlinear_arith)
            requires
                i < area.page_count,
        ;
        tracks.push(MapTrack { vaddr: area.start + i * ELF_PAGE_SIZE, frame: frames[i], rwx: 0 });
        i = i + 1;
    }
    MemArea {
        mtype: MemType::CodeSection,
        mtrackers: tracks,
        file: None,
        offset: 0,
        start: area.start,
        len: area.page_count * ELF_PAGE_SIZE,
    }
}

/// What a program is loaded as.
pub struct LoadPlan {
    pub entry: usize,
    pub base: usize,
    pub heap_bottom: usize,
    pub ph_count: usize,
    pub ph_entry_size: usize,
    pub ph_addr: usize,
    pub areas: Vec<LoadArea>,
}

/// What `execve` does with a file.
pub enum ExecPlan {
    /// Not an ELF file: run the shell, `busybox`, with these arguments
    /// (`busybox sh` and the ones given).
    Shell(Vec<String>),
    /// A program that names an interpreter: run the loader `libc.so` with
    /// these arguments (its name and the ones given).
    Interp(Vec<String>),
    /// Load the program itself.
    Load(LoadPlan),
}

/// The relocations held, by value.
pub open spec fn rela_view(o: Option<Vec<(u32, u32)>>) -> Option<Seq<(u32, u32)>> {
    match o {
        Some(r) => Some(r@),
        None => None,
    }
}

/// The symbol sections held, by value.
pub open spec fn dynsym_view(o: Option<Vec<u16>>) -> Option<Seq<u16>> {
    match o {
        Some(d) => Some(d@),
        None => None,
    }
}

/// Whether a program names an interpreter.
pub open spec fn has_interp(segs: Seq<Segment>) -> bool {
    exists|i: int| 0 <= i < segs.len() && (#[trigger] segs[i]).kind == SegmentKind::Interp
}

/// Where a program with these tables is loaded: at `USER_DYN_ADDR` when it
/// can be relocated, else where its addresses say.
pub open spec fn load_base(rela: Option<Seq<(u32, u32)>>, dynsym: Option<Seq<u16>>) -> usize {
    if rela is Some && dynsym is Some {
        USER_DYN_ADDR
    } else {
        0
    }
}

/// The inputs on which loading runs its course: some segment, ends and
/// heap that fit, relocations it knows, segments that can be placed, and a
/// header table address that fits.
pub open spec fn loadable(
    h: ElfHeader,
    segs: Seq<Segment>,
    rela: Option<Seq<(u32, u32)>>,
    dynsym: Option<Seq<u16>>,
) -> bool {
    &&& segs.len() > 0
    &&& ends_fit(segs)
    &&& page_round_up(max_end(segs)) <= usize::MAX
    &&& (rela matches Some(r) ==> (dynsym matches Some(d) ==> relocs_ok(r, d)))
    &&& placeable(segs, load_base(rela, dynsym))
    &&& forall|i: int|
        0 <= i < segs.len() && is_load_at_zero(#[trigger] segs[i]) ==> segs[i].vaddr + h.ph_offset
            <= u64::MAX
}

/// The plan to load a program with this header and these tables.
pub open spec fn load_plan_ok(
    p: LoadPlan,
    h: ElfHeader,
    segs: Seq<Segment>,
    rela: Option<Seq<(u32, u32)>>,
    dynsym: Option<Seq<u16>>,
) -> bool {
    let base = load_base(rela, dynsym);
    &&& p.entry == h.entry as usize
    &&& p.base == base
    &&& p.heap_bottom == page_round_up(max_end(segs))
    &&& p.ph_count == h.ph_count as usize
    &&& p.ph_entry_size == h.ph_entry_size as usize
    &&& p.ph_addr == (match ph_addr_spec(segs, h.ph_offset) {
        Ok(a) => a as usize,
        Err(_) => 0usize,
    })
    &&& p.areas@ == loads(segs).map_values(|s: Segment| load_area_of(s, base))
}

/// `busybox sh` followed by `args`.
pub open spec fn shell_args(args: Seq<Seq<char>>) -> Seq<Seq<char>> {
    seq!["busybox"@, "sh"@] + args
}

/// `libc.so` followed by `args`.
pub open spec fn interp_args(args: Seq<Seq<char>>) -> Seq<Seq<char>> {
    seq!["libc.so"@] + args
}

/// `front` followed by `args`.
fn prefixed(front: Vec<String>, args: &Vec<String>) -> (res: Vec<String>)
    ensures
        strings_view(res@) == strings_view(front@) + strings_view(args@),
{
    let mut res = front;
    let ghost f = strings_view(res@);
    let mut i: usize = 0;
    while i < args.len()
        invariant
            i <= args@.len(),
            strings_view(res@) == f + strings_view(args@.subrange(0, i as int)),
        decreases args@.len() - i,
    {
        let c = args[i].clone();
        let ghost before = res@;
        res.push(c);
        proof {
            assert(strings_view(res@) =~= strings_view(before).push(c@));
            assert(args@.subrange(0, i + 1) =~= args@.subrange(0, i as int).push(args@[i as int]));
            assert(strings_view(args@.subrange(0, i + 1)) =~= strings_view(args@.subrange(0, i as int)).push(
                c@,
            ));
            assert(strings_view(res@) =~= f + strings_view(args@.subrange(0, i + 1)));
        }
        i = i + 1;
    }
    proof {
        assert(args@.subrange(0, args@.len() as int) =~= args@);
    }
    res
}

/// What `execve` does, given what the file's bytes read as: not an ELF
/// file, run it with the shell; naming an interpreter, run `libc.so`; else
/// load it.
pub fn plan_from(
    header: Option<ElfHeader>,
    segs: &[Segment],
    rela: &Option<Vec<(u32, u32)>>,
    dynsym: &Option<Vec<u16>>,
    args: &Vec<String>,
) -> (res: ExecPlan)
    requires
        header matches Some(h) ==> !has_interp(segs@) ==> loadable(
            h,
            segs@,
            rela_view(*rela),
            dynsym_view(*dynsym),
        ),
    ensures
        header is None ==> (res matches ExecPlan::Shell(a) && strings_view(a@) == shell_args(
            strings_view(args@),
        )),
        header is Some && has_interp(segs@) ==> (res matches ExecPlan::Interp(a) && strings_view(a@)
            == interp_args(strings_view(args@))),
        header matches Some(h) ==> !has_interp(segs@) ==> (res matches ExecPlan::Load(p) && load_plan_ok(
            p,
            h,
            segs@,
            rela_view(*rela),
            dynsym_view(*dynsym),
        )),
{
    let h = match header {
        None => {
            let mut front: Vec<String> = Vec::new();
            front.push(String::from_str("busybox"));
            front.push(String::from_str("sh"));
            proof {
                assert(strings_view(front@) =~= seq!["busybox"@, "sh"@]);
            }
            return ExecPlan::Shell(prefixed(front, args));
        },
        Some(h) => h,
    };
    assert(header == Some(h));
    let mut i: usize = 0;
    while i < segs.len()
        invariant
            header == Some(h),
            i <= segs@.len(),
            forall|j: int| 0 <= j < i ==> (#[trigger] segs@[j]).kind != SegmentKind::Interp,
        decreases segs@.len() - i,
    {
        if segs[i].kind == SegmentKind::Interp {
            let mut front: Vec<String> = Vec::new();
            front.push(String::from_str("libc.so"));
            proof {
                assert(strings_view(front@) =~= seq!["libc.so"@]);
            }
            return ExecPlan::Interp(prefixed(front, args));
        }
        i = i + 1;
    }
    let ghost r = rela_view(*rela);
    let ghost d = dynsym_view(*dynsym);
    let base = match relocate(rela, dynsym, USER_DYN_ADDR) {
        Ok(b) => b,
        Err(()) => 0,
    };
    assert(base == load_base(r, d));
    let heap = heap_bottom(segs);
    let ph_addr = match get_ph_addr(segs, h.ph_offset) {
        Ok(a) => a as usize,
        Err(_) => 0,
    };
    let areas = load_areas(segs, base);
    ExecPlan::Load(
        LoadPlan {
            entry: h.entry as usize,
            base,
            heap_bottom: heap,
            ph_count: h.ph_count as usize,
            ph_entry_size: h.ph_entry_size as usize,
            ph_addr,
            areas,
        },
    )
}

/// Whether `m` rounded up to a page still fits.
fn round_up_fits(m: usize) -> (res: bool)
    ensures
        res == (page_round_up(m as int) <= usize::MAX),
{
    let q = m / ELF_PAGE_SIZE + if m % ELF_PAGE_SIZE == 0 {
        0
    } else {
        1
    };
    let lim = usize::MAX / ELF_PAGE_SIZE;
    assert((m + 4095) / 4096 == q) by (nonlinear_arith)
        requires
            q == m / 4096 + if m % 4096 == 0 {
                0int
            } else {
                1int
            },
    ;
    assert(q * 4096 <= usize::MAX <==> q <= lim) by (nonlinear_arith)
        requires
            lim == usize::MAX / 4096,
            q >= 0,
    ;
    q <= lim
}

/// Whether the loader can run its course on these inputs (`loadable`).
fn check_loadable(h: ElfHeader, segs: &[Segment], rela: &Option<Vec<(u32, u32)>>, dynsym: &Option<Vec<u16>>) -> (res: bool)
    ensures
        res == loadable(h, segs@, rela_view(*rela), dynsym_view(*dynsym)),
{
    if segs.len() == 0 {
        return false;
    }
    let mut i: usize = 0;
    while i < segs.len()
        invariant
            i <= segs@.len(),
            forall|j: int| 0 <= j < i ==> (#[trigger] segs@[j]).vaddr + segs@[j].mem_size <= u64::MAX,
        decreases segs@.len() - i,
    {
        if segs[i].vaddr > u64::MAX - segs[i].mem_size {
            return false;
        }
        i = i + 1;
    }
    let mut m: usize = (segs[0].vaddr + segs[0].mem_size) as usize;
    let mut k: usize = 1;
    proof {
        assert(segs@.subrange(0, 1) =~= seq![segs@[0]]);
    }
    while k < segs.len()
        invariant
            1 <= k <= segs@.len(),
            ends_fit(segs@),
            m == max_end(segs@.subrange(0, k as int)),
        decreases segs@.len() - k,
    {
        let e = (segs[k].vaddr + segs[k].mem_size) as usize;
        proof {
            assert(segs@.subrange(0, k + 1).drop_last() =~= segs@.subrange(0, k as int));
        }
        if e > m {
            m = e;
        }
        k = k + 1;
    }
    proof {
        assert(segs@.subrange(0, segs@.len() as int) =~= segs@);
    }
    if !round_up_fits(m) {
        return false;
    }
    let both = match (rela, dynsym) {
        (Some(_), Some(_)) => true,
        _ => false,
    };
    if both {
        let r = rela.as_ref().unwrap();
        let d = dynsym.as_ref().unwrap();
        assert(rela_view(*rela) == Some(r@));
        assert(dynsym_view(*dynsym) == Some(d@));
        let mut j: usize = 0;
        while j < r.len()
            invariant
                rela_view(*rela) == Some(r@),
                dynsym_view(*dynsym) == Some(d@),
                j <= r@.len(),
                forall|x: int|
                    0 <= x < j ==> (symbol_reloc((#[trigger] r@[x]).0) || relative_reloc(r@[x].0)) && (
                    symbol_reloc(r@[x].0) ==> r@[x].1 < d@.len() && d@[r@[x].1 as int] != 0),
            decreases r@.len() - j,
        {
            let (t, sym) = r[j];
            assert(r@[j as int] == (t, sym));
            let symbolic = t == 6 || t == 7 || t == 2 || t == 0x401;
            let relative = t == 8 || t == 3 || t == 0x403;
            if !symbolic && !relative {
                assert(!relocs_ok(r@, d@));
                return false;
            }
            if symbolic {
                if sym as usize >= d.len() || d[sym as usize] == 0 {
                    assert(!relocs_ok(r@, d@));
                    return false;
                }
            }
            j = j + 1;
        }
    }
    let base: usize = if both {
        USER_DYN_ADDR
    } else {
        0
    };
    assert(base == load_base(rela_view(*rela), dynsym_view(*dynsym)));
    let mut a: usize = 0;
    while a < segs.len()
        invariant
            base == load_base(rela_view(*rela), dynsym_view(*dynsym)),
            a <= segs@.len(),
            forall|j: int|
                0 <= j < a ==> (#[trigger] segs@[j]).kind != SegmentKind::Invalid && (segs@[j].kind
                    == SegmentKind::Load ==> base + segs@[j].vaddr as usize + segs@[j].mem_size as usize
                    + ELF_PAGE_SIZE <= usize::MAX),
        decreases segs@.len() - a,
    {
        let s = segs[a];
        if s.kind == SegmentKind::Invalid {
            assert(!placeable(segs@, base));
            return false;
        }
        if s.kind == SegmentKind::Load {
            let v = s.vaddr as usize;
            let ms = s.mem_size as usize;
            if v > usize::MAX - base || ms > usize::MAX - (base + v) || ELF_PAGE_SIZE > usize::MAX - (
            base + v + ms) {
                assert(!placeable(segs@, base));
                return false;
            }
        }
        a = a + 1;
    }
    let mut b: usize = 0;
    while b < segs.len()
        invariant
            b <= segs@.len(),
            forall|j: int|
                0 <= j < b && is_load_at_zero(#[trigger] segs@[j]) ==> segs@[j].vaddr + h.ph_offset
                    <= u64::MAX,
        decreases segs@.len() - b,
    {
        if segs[b].kind == SegmentKind::Load && segs[b].offset == 0 && segs[b].vaddr > u64::MAX
            - h.ph_offset {
            return false;
        }
        b = b + 1;
    }
    true
}

/// The first program header that names an interpreter.
pub open spec fn first_interp(segs: Seq<Segment>) -> Option<int> {
    first_where(segs, |s: Segment| s.kind == SegmentKind::Interp)
}

/// The ELF reader's search for an interpreter can be made: it reads the
/// program headers in order up to the first that names one (all of them
/// where none does), and each of those can be read in place.
pub open spec fn interp_search_ok(b: Seq<u8>) -> bool {
    forall|i: int|
        0 <= i < ph_count_read(b) && (forall|j: int|
            0 <= j < i ==> (#[trigger] segment_at(b, j)).kind != SegmentKind::Interp) ==> #[trigger] ph_ok_at(
            b,
            i,
        )
}

/// Program header `j` has been gone through by the search for an
/// interpreter: it can be read and names none.
pub open spec fn ph_passed(b: Seq<u8>, j: int) -> bool {
    ph_ok_at(b, j) && segment_at(b, j).kind != SegmentKind::Interp
}

/// The interpreter's bytes can be read: there are none, or they lie
/// inside the file.
pub open spec fn interp_data_ok(s: Segment, len: int) -> bool {
    s.file_size == 0 || s.offset + s.file_size <= len
}

/// The dynamic symbols the loader uses: those of `.dynsym`, which it looks
/// up only where `.rela.dyn` holds relocations.
pub open spec fn used_dynsym(b: Seq<u8>) -> Option<Seq<u16>> {
    if elf_rela_of(b) is Some {
        elf_dynsym_of(b)
    } else {
        None
    }
}

/// The sections the loader looks up can be read: `.rela.dyn`, and
/// `.dynsym` where `.rela.dyn` holds relocations.
pub open spec fn reloc_read_ok(b: Seq<u8>) -> bool {
    &&& section_read_ok(b, rela_name())
    &&& elf_rela_of(b) is Some ==> section_read_ok(b, dynsym_name())
}

/// The bytes of ".rela.dyn" and of ".dynsym".
fn rela_name_bytes() -> (r: Vec<u8>)
    ensures
        r@ == rela_name(),
{
    let r = vec![46u8, 114u8, 101u8, 108u8, 97u8, 46u8, 100u8, 121u8, 110u8];
    proof {
        assert(r@ =~= rela_name());
    }
    r
}

fn dynsym_name_bytes() -> (r: Vec<u8>)
    ensures
        r@ == dynsym_name(),
{
    let r = vec![46u8, 100u8, 121u8, 110u8, 115u8, 121u8, 109u8];
    proof {
        assert(r@ =~= dynsym_name());
    }
    r
}

/// What `execve` does with a file of these bytes and these arguments, as
/// the ELF reader sees it (see `plan_from`); `None` on the files on which
/// the reader, or the loader after it, would stop: a program header it
/// reads that does not lie in the file on its alignment, an interpreter
/// whose bytes do not, a relocation or symbol section that cannot be
/// looked up and read, or a program that is not `loadable`.
pub fn exec_plan(bytes: &[u8], args: &Vec<String>) -> (res: Option<ExecPlan>)
    ensures
        elf_header_of(bytes@) is None ==> (res matches Some(ExecPlan::Shell(a)) && strings_view(a@)
            == shell_args(strings_view(args@))),
        elf_header_of(bytes@) is Some && !interp_search_ok(bytes@) ==> res is None,
        elf_header_of(bytes@) is Some && interp_search_ok(bytes@) ==> (first_interp(elf_segments_of(bytes@)) matches Some(k)
            ==> if interp_data_ok(elf_segments_of(bytes@)[k], bytes@.len() as int) {
            res matches Some(ExecPlan::Interp(a)) && strings_view(a@) == interp_args(strings_view(args@))
        } else {
            res is None
        }),
        elf_header_of(bytes@) matches Some(h) ==> interp_search_ok(bytes@) ==> !has_interp(elf_segments_of(bytes@)) ==> (
        if !reloc_read_ok(bytes@) {
            res is None
        } else if loadable(h, elf_segments_of(bytes@), elf_rela_of(bytes@), used_dynsym(bytes@)) {
            res matches Some(ExecPlan::Load(p)) && load_plan_ok(
                p,
                h,
                elf_segments_of(bytes@),
                elf_rela_of(bytes@),
                used_dynsym(bytes@),
            )
        } else {
            res is None
        }),
{
    let header = parse_elf_header(bytes);
    let h = match header {
        None => {
            let empty: Vec<Segment> = Vec::new();
            return Some(plan_from(header, empty.as_slice(), &None, &None, args));
        },
        Some(h) => h,
    };
    let ghost b = bytes@;
    let ghost segs_all = elf_segments_of(b);
    proof {
        lemma_ph_fields(b);
    }
    let n: u16 = if h.ph_count > 0 && h.ph_offset > 0 && h.ph_entry_size > 0 {
        h.ph_count
    } else {
        0
    };
    assert(n == ph_count_read(b));
    let mut segs: Vec<Segment> = Vec::new();
    let mut i: u16 = 0;
    while i < n
        invariant
            b == bytes@,
            segs_all == elf_segments_of(b),
            header == Some(h),
            elf_header_of(b) == Some(h),
            n == ph_count_read(b),
            i <= n,
            segs@ == segs_all.subrange(0, i as int),
            forall|j: int| 0 <= j < i ==> #[trigger] ph_passed(b, j),
        decreases n - i,
    {
        if !ph_ok_check(bytes, i as u64) {
            proof {
                assert forall|j: int| 0 <= j < i implies (#[trigger] segment_at(b, j)).kind
                    != SegmentKind::Interp by {
                    assert(ph_passed(b, j));
                }
                assert(!ph_ok_at(b, i as int));
            }
            return None;
        }
        let s = program_header(bytes, i);
        assert(s == segs_all[i as int]);
        if s.kind == SegmentKind::Interp {
            proof {
                assert forall|k: int|
                    0 <= k < ph_count_read(b) && (forall|j: int|
                        0 <= j < k ==> (#[trigger] segment_at(b, j)).kind != SegmentKind::Interp) implies #[trigger] ph_ok_at(
                    b,
                    k,
                ) by {
                    if k > i {
                        assert(segment_at(b, i as int).kind == SegmentKind::Interp);
                    } else if k < i {
                        assert(ph_passed(b, k));
                    }
                }
                assert forall|j: int| 0 <= j < i implies !((#[trigger] segs_all[j]).kind
                    == SegmentKind::Interp) by {
                    assert(ph_passed(b, j));
                }
                lemma_first_where(segs_all, |s: Segment| s.kind == SegmentKind::Interp, i as int);
            }
            if s.file_size == 0 || s.offset as u128 + s.file_size as u128 <= bytes.len() as u128 {
                segs.push(s);
                proof {
                    assert(segs@[i as int].kind == SegmentKind::Interp);
                }
                return Some(plan_from(header, segs.as_slice(), &None, &None, args));
            }
            return None;
        }
        segs.push(s);
        proof {
            assert(segs@ =~= segs_all.subrange(0, i + 1));
            assert forall|j: int| 0 <= j < i + 1 implies #[trigger] ph_passed(b, j) by {
                if j < i {
                    assert(ph_passed(b, j));
                }
            }
        }
        i = i + 1;
    }
    proof {
        assert(segs@ =~= segs_all);
        assert forall|k: int|
            0 <= k < ph_count_read(b) && (forall|j: int|
                0 <= j < k ==> (#[trigger] segment_at(b, j)).kind != SegmentKind::Interp) implies #[trigger] ph_ok_at(
            b,
            k,
        ) by {
            assert(ph_passed(b, k));
        }
        assert forall|j: int| 0 <= j < segs_all.len() implies (#[trigger] segs_all[j]).kind
            != SegmentKind::Interp by {
            assert(ph_passed(b, j));
        }
    }
    let rname = rela_name_bytes();
    if !section_read_check(bytes, rname.as_slice()) {
        return None;
    }
    let rela = rela_entries(bytes);
    let dynsym = if rela.is_some() {
        let dname = dynsym_name_bytes();
        if !section_read_check(bytes, dname.as_slice()) {
            return None;
        }
        dynsym_sections(bytes)
    } else {
        None
    };
    proof {
        assert(rela_view(rela) == elf_rela_of(b));
        assert(dynsym_view(dynsym) == used_dynsym(b));
    }
    if !check_loadable(h, segs.as_slice(), &rela, &dynsym) {
        return None;
    }
    Some(plan_from(header, segs.as_slice(), &rela, &dynsym, args))
}

/// The programs whose loading was worked out ahead of time, by path; the
/// first entry for a path is the one used.
pub struct TaskCache {
    names: Vec<String>,
    plans: Vec<LoadPlan>,
}

impl TaskCache {
    /// The cached paths, in the order they were added.
    pub closed spec fn names(&self) -> Seq<Seq<char>> {
        strings_view(self.names@)
    }

    /// The cached plans, one per path.
    pub closed spec fn plans(&self) -> Seq<LoadPlan> {
        self.plans@
    }

    pub closed spec fn wf(&self) -> bool {
        self.names@.len() == self.plans@.len()
    }

    pub fn new() -> (res: Self)
        ensures
            res.wf(),
            res.names() == Seq::<Seq<char>>::empty(),
            res.plans() == Seq::<LoadPlan>::empty(),
    {
        let res = TaskCache { names: Vec::new(), plans: Vec::new() };
        proof {
            assert(res.names() =~= Seq::<Seq<char>>::empty());
            assert(res.plans() =~= Seq::<LoadPlan>::empty());
        }
        res
    }

    /// Adds the plan of the program at `path`.
    pub fn add(&mut self, path: &str, plan: LoadPlan)
        requires
            old(self).wf(),
        ensures
            final(self).wf(),
            final(self).names() == old(self).names().push(path@),
            final(self).plans() == old(self).plans().push(plan),
    {
        self.names.push(path.to_string());
        self.plans.push(plan);
        proof {
            assert(self.names() =~= old(self).names().push(path@));
        }
    }

    /// The plan of the first entry for `path`, if any.
    pub fn find(&self, path: &str) -> (res: Option<&LoadPlan>)
        requires
            self.wf(),
        ensures
            res is Some <==> self.names().contains(path@),
            res matches Some(p) ==> exists|i: int|
                0 <= i < self.names().len() && self.names()[i] == path@ && (forall|j: int|
                    0 <= j < i ==> #[trigger] self.names()[j] != path@) && *p == self.plans()[i],
    {
        let mut i: usize = 0;
        while i < self.names.len()
            invariant
                self.wf(),
                i <= self.names@.len(),
                forall|j: int| 0 <= j < i ==> #[trigger] self.names()[j] != path@,
            decreases self.names@.len() - i,
        {
            assert(self.names()[i as int] == self.names@[i as int]@);
            if str_eq(self.names[i].as_str(), path) {
                proof {
                    assert(self.names()[i as int] == path@);
                }
                return Some(&self.plans[i]);
            }
            i = i + 1;
        }
        proof {
            if self.names().contains(path@) {
                let j = choose|j: int| 0 <= j < self.names().len() && self.names()[j] == path@;
                assert(self.names()[j] != path@);
            }
        }
        None
    }
}

} // verus!

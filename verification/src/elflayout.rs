//! Where the tables of an ELF file lie, read from its bytes, and the
//! conditions under which the ELF reader can read a program header, or
//! look a section up by name and read its data, in place: inside the file,
//! on their alignment, with names that end and are UTF-8.
use vstd::prelude::*;

verus! {

/// The unsigned number of the `n` bytes at `o`, least significant first.
pub open spec fn le(b: Seq<u8>, o: int, n: nat) -> int
    decreases n,
{
    if n == 0 {
        0
    } else {
        b[o] as int + 256 * le(b, o + 1, (n - 1) as nat)
    }
}

/// 256 to the power `n`.
pub open spec fn pow256(n: nat) -> int
    decreases n,
{
    if n == 0 {
        1
    } else {
        256 * pow256((n - 1) as nat)
    }
}

proof fn lemma_le_bound(b: Seq<u8>, o: int, n: nat)
    requires
        0 <= o,
        o + n <= b.len(),
    ensures
        0 <= le(b, o, n) < pow256(n),
    decreases n,
{
    if n > 0 {
        lemma_le_bound(b, o + 1, (n - 1) as nat);
        let r = le(b, o + 1, (n - 1) as nat);
        let p = pow256((n - 1) as nat);
        assert(b[o] as int + 256 * r < 256 * p) by (nonlinear_arith)
            requires
                0 <= b[o] < 256,
                0 <= r < p,
        ;
        assert(0 <= b[o] as int + 256 * r) by (nonlinear_arith)
            requires
                0 <= b[o],
                0 <= r,
        ;
    }
}

/// Whether the file is of the 64-bit class (else 32-bit).
pub open spec fn elf64(b: Seq<u8>) -> bool {
    b[4] == 2
}

/// The alignment of the tables' entries: 8 bytes in 64-bit files, else 4.
pub open spec fn word(b: Seq<u8>) -> int {
    if elf64(b) { 8 } else { 4 }
}

/// The length of the file header.
pub open spec fn hdr_len(b: Seq<u8>) -> int {
    if elf64(b) { 64 } else { 52 }
}

pub open spec fn ph_off(b: Seq<u8>) -> int {
    if elf64(b) { le(b, 32, 8) } else { le(b, 28, 4) }
}

pub open spec fn sh_off(b: Seq<u8>) -> int {
    if elf64(b) { le(b, 40, 8) } else { le(b, 32, 4) }
}

pub open spec fn ph_esz(b: Seq<u8>) -> int {
    if elf64(b) { le(b, 54, 2) } else { le(b, 42, 2) }
}

pub open spec fn ph_num(b: Seq<u8>) -> int {
    if elf64(b) { le(b, 56, 2) } else { le(b, 44, 2) }
}

pub open spec fn sh_esz(b: Seq<u8>) -> int {
    if elf64(b) { le(b, 58, 2) } else { le(b, 46, 2) }
}

pub open spec fn sh_num(b: Seq<u8>) -> int {
    if elf64(b) { le(b, 60, 2) } else { le(b, 48, 2) }
}

pub open spec fn sh_str(b: Seq<u8>) -> int {
    if elf64(b) { le(b, 62, 2) } else { le(b, 50, 2) }
}

/// The size of one program header and of one section header.
pub open spec fn ph_min(b: Seq<u8>) -> int {
    if elf64(b) { 56 } else { 32 }
}

pub open spec fn sh_min(b: Seq<u8>) -> int {
    if elf64(b) { 64 } else { 40 }
}

/// The header fields are there: the file is as long as its header and of
/// one of the two classes.
pub open spec fn header_ok(b: Seq<u8>) -> bool {
    &&& b.len() >= 5
    &&& (b[4] == 1 || b[4] == 2)
    &&& b.len() >= hdr_len(b)
}

/// The file has program headers to read: a count, an offset and an entry
/// size that are not zero (else the ELF reader reads none).
pub open spec fn ph_present(b: Seq<u8>) -> bool {
    ph_num(b) > 0 && ph_off(b) > 0 && ph_esz(b) > 0
}

/// How many program headers the ELF reader goes through.
pub open spec fn ph_count_read(b: Seq<u8>) -> int {
    if ph_present(b) { ph_num(b) } else { 0 }
}

/// Where program header `i` starts.
pub open spec fn ph_at(b: Seq<u8>, i: int) -> int {
    ph_off(b) + i * ph_esz(b)
}

/// Program header `i` can be read in place as the ELF reader does: one of
/// the headers, inside the file, as large as a header, on the alignment of
/// its fields.
pub open spec fn ph_ok_at(b: Seq<u8>, i: int) -> bool {
    &&& header_ok(b)
    &&& ph_present(b)
    &&& 0 <= i < ph_num(b)
    &&& ph_at(b, i) % word(b) == 0
    &&& ph_esz(b) >= ph_min(b)
    &&& ph_at(b, i) + ph_esz(b) <= b.len()
}

/// Where section header `i` starts.
pub open spec fn sh_at(b: Seq<u8>, i: int) -> int {
    sh_off(b) + i * sh_esz(b)
}

pub open spec fn sec_name(b: Seq<u8>, i: int) -> int {
    le(b, sh_at(b, i), 4)
}

pub open spec fn sec_type(b: Seq<u8>, i: int) -> int {
    le(b, sh_at(b, i) + 4, 4)
}

pub open spec fn sec_offset(b: Seq<u8>, i: int) -> int {
    if elf64(b) { le(b, sh_at(b, i) + 24, 8) } else { le(b, sh_at(b, i) + 16, 4) }
}

pub open spec fn sec_size(b: Seq<u8>, i: int) -> int {
    if elf64(b) { le(b, sh_at(b, i) + 32, 8) } else { le(b, sh_at(b, i) + 20, 4) }
}

/// Section header `i` can be read in place: a valid index, inside the
/// file, as large as a header, on its alignment.
pub open spec fn shdr_ok(b: Seq<u8>, i: int) -> bool {
    &&& 0 <= i < 0xff00
    &&& sh_esz(b) >= sh_min(b)
    &&& sh_at(b, i) % word(b) == 0
    &&& sh_at(b, i) + sh_esz(b) <= b.len()
}

/// Where the section names start: the data of the name section.
pub open spec fn str_base(b: Seq<u8>) -> int {
    sec_offset(b, sh_str(b))
}

/// The name section's header can be read and its data starts in the file.
pub open spec fn str_table_ok(b: Seq<u8>) -> bool {
    shdr_ok(b, sh_str(b)) && str_base(b) <= b.len()
}

/// The section types whose names the ELF reader looks up (valid and not
/// the null section).
pub open spec fn named_type(t: int) -> bool {
    (1 <= t <= 11) || (14 <= t <= 18) || t >= 0x6000_0000
}

/// A continuation byte of UTF-8.
pub open spec fn cont(c: u8) -> bool {
    0x80 <= c <= 0xbf
}

/// The bytes from `i` up to `e` are well-formed UTF-8 (as `str::from_utf8`
/// takes it: no overlong forms, no surrogates, nothing past U+10FFFF).
pub open spec fn utf8_from(b: Seq<u8>, i: int, e: int) -> bool
    decreases e - i,
{
    if e - i <= 0 {
        true
    } else {
        let c = b[i];
        if c < 0x80 {
            utf8_from(b, i + 1, e)
        } else if 0xc2 <= c <= 0xdf {
            i + 1 < e && cont(b[i + 1]) && utf8_from(b, i + 2, e)
        } else if c == 0xe0 {
            i + 2 < e && 0xa0 <= b[i + 1] <= 0xbf && cont(b[i + 2]) && utf8_from(b, i + 3, e)
        } else if (0xe1 <= c <= 0xec) || c == 0xee || c == 0xef {
            i + 2 < e && cont(b[i + 1]) && cont(b[i + 2]) && utf8_from(b, i + 3, e)
        } else if c == 0xed {
            i + 2 < e && 0x80 <= b[i + 1] <= 0x9f && cont(b[i + 2]) && utf8_from(b, i + 3, e)
        } else if c == 0xf0 {
            i + 3 < e && 0x90 <= b[i + 1] <= 0xbf && cont(b[i + 2]) && cont(b[i + 3]) && utf8_from(
                b,
                i + 4,
                e,
            )
        } else if 0xf1 <= c <= 0xf3 {
            i + 3 < e && cont(b[i + 1]) && cont(b[i + 2]) && cont(b[i + 3]) && utf8_from(b, i + 4, e)
        } else if c == 0xf4 {
            i + 3 < e && 0x80 <= b[i + 1] <= 0x8f && cont(b[i + 2]) && cont(b[i + 3]) && utf8_from(
                b,
                i + 4,
                e,
            )
        } else {
            false
        }
    }
}

/// A name at `p`: UTF-8 up to a NUL byte inside the file.
pub open spec fn name_ok(b: Seq<u8>, p: int) -> bool {
    exists|k: int|
        #![trigger b[k]]
        p <= k < b.len() && b[k] == 0 && (forall|m: int| p <= m < k ==> #[trigger] b[m] != 0) && utf8_from(
            b,
            p,
            k,
        )
}

/// The name at `p` is `x` (which holds no NUL byte).
pub open spec fn name_is(b: Seq<u8>, p: int, x: Seq<u8>) -> bool {
    &&& 0 <= p
    &&& p + x.len() < b.len()
    &&& b.subrange(p, p + x.len()) == x
    &&& b[p + x.len()] == 0
}

/// Section `i` is one the reader finds by the name `x`.
pub open spec fn has_name(b: Seq<u8>, i: int, x: Seq<u8>) -> bool {
    named_type(sec_type(b, i)) && name_is(b, str_base(b) + sec_name(b, i), x)
}

/// Section `j` can be read by the search: its header and, where its type
/// is one whose name is looked up, the name section's header and the name.
pub open spec fn readable(b: Seq<u8>, j: int) -> bool {
    &&& shdr_ok(b, j)
    &&& named_type(sec_type(b, j)) ==> str_table_ok(b) && name_ok(b, str_base(b) + sec_name(b, j))
}

/// Section `j` has been gone through by the search for `x`: it can be
/// read and is not named `x`.
pub open spec fn passed(b: Seq<u8>, x: Seq<u8>, j: int) -> bool {
    readable(b, j) && !has_name(b, j, x)
}

/// Looking for the section named `x` (`find_section_by_name`) reads each
/// section up to the first of that name: all of these can be read.
pub open spec fn search_ok(b: Seq<u8>, x: Seq<u8>) -> bool {
    &&& header_ok(b)
    &&& forall|i: int|
        0 <= i < sh_num(b) && (forall|j: int| 0 <= j < i ==> !#[trigger] has_name(b, j, x)) ==> #[trigger] readable(
            b,
            i,
        )
}

/// The data of section `i` can be read as `get_data` reads it for the
/// section's type: its bytes lie inside the file, and tables of entries are
/// on their alignment and a whole number of entries long.
pub open spec fn found_data_ok(b: Seq<u8>, i: int) -> bool {
    let t = sec_type(b, i);
    let off = sec_offset(b, i);
    let sz = sec_size(b, i);
    let w = word(b);
    let raw = off + sz <= b.len();
    if t == 8 {
        true
    } else if t == 1 || t == 3 || t == 10 || t >= 0x6000_0000 {
        raw
    } else if t == 2 || t == 11 {
        raw && off % w == 0 && sz % (if elf64(b) { 24int } else { 16int }) == 0
    } else if 14 <= t <= 16 {
        raw && off % w == 0 && sz % w == 0
    } else if t == 4 {
        raw && off % w == 0 && sz % (if elf64(b) { 24int } else { 12int }) == 0
    } else if t == 6 || t == 9 {
        raw && off % w == 0 && sz % (2 * w) == 0
    } else if t == 18 {
        raw && off % 4 == 0 && sz % 4 == 0
    } else if t == 5 {
        raw && off % 4 == 0 && sz >= 12
    } else if t == 7 {
        raw && (elf64(b) ==> off % 4 == 0 && sz >= 12)
    } else if t == 17 {
        raw && off % 4 == 0 && sz >= 4 && (sz - 4) % 4 == 0
    } else {
        true
    }
}

/// The first section named `x`, where there is one, has data that can be
/// read as `get_data` reads it.
pub open spec fn data_ok(b: Seq<u8>, x: Seq<u8>) -> bool {
    forall|i: int|
        0 <= i < sh_num(b) && #[trigger] has_name(b, i, x) && (forall|j: int| 0 <= j < i ==> !has_name(b, j, x))
            ==> found_data_ok(b, i)
}

/// ".rela.dyn" and ".dynsym".
pub open spec fn rela_name() -> Seq<u8> {
    seq![46u8, 114u8, 101u8, 108u8, 97u8, 46u8, 100u8, 121u8, 110u8]
}

pub open spec fn dynsym_name() -> Seq<u8> {
    seq![46u8, 100u8, 121u8, 110u8, 115u8, 121u8, 109u8]
}

/// The section named `x` can be looked up and its data read.
pub open spec fn section_read_ok(b: Seq<u8>, x: Seq<u8>) -> bool {
    search_ok(b, x) && data_ok(b, x)
}

/// The number of the `n` bytes at `o`, least significant first.
fn read_le(b: &[u8], o: usize, n: usize) -> (r: u64)
    requires
        o + n <= b@.len(),
        n <= 8,
    ensures
        r == le(b@, o as int, n as nat),
{
    proof {
        lemma_le_bound(b@, o as int, n as nat);
        lemma_pow256_8(n as nat);
    }
    let blen = b.len();
    let mut r: u128 = 0;
    let mut k: usize = n;
    proof {
        lemma_pow256_mono(0, 8);
    }
    while k > 0
        invariant
            blen == b@.len(),
            o + n <= b@.len(),
            n <= 8,
            k <= n,
            r == le(b@, o + k, (n - k) as nat),
            0 <= r < pow256((n - k) as nat),
            pow256((n - k) as nat) <= pow256(8),
        decreases k,
    {
        proof {
            lemma_le_bound(b@, (o + k - 1) as int, (n - k + 1) as nat);
            lemma_pow256_mono((n - k + 1) as nat, 8);
            lemma_pow256_eight();
        }
        let byte = b[o + k - 1];
        assert(le(b@, o + k - 1, (n - k + 1) as nat) == byte as int + 256 * le(b@, o + k, (n - k) as nat));
        r = byte as u128 + 256 * r;
        k = k - 1;
    }
    proof {
        lemma_pow256_eight();
    }
    r as u64
}

proof fn lemma_pow256_mono(a: nat, c: nat)
    requires
        a <= c,
    ensures
        pow256(a) <= pow256(c),
        pow256(a) >= 1,
    decreases c,
{
    if c > 0 {
        if a < c {
            lemma_pow256_mono(a, (c - 1) as nat);
        } else {
            lemma_pow256_mono((a - 1) as nat, (c - 1) as nat);
        }
    }
}

proof fn lemma_pow256_eight()
    ensures
        pow256(8) == 0x1_0000_0000_0000_0000,
{
    reveal_with_fuel(pow256, 9);
}

proof fn lemma_pow256_8(n: nat)
    requires
        n <= 8,
    ensures
        pow256(n) <= 0x1_0000_0000_0000_0000,
{
    lemma_pow256_mono(n, 8);
    lemma_pow256_eight();
}

/// Whether the bytes from `i0` up to `e` are well-formed UTF-8
/// (`utf8_from`).
fn utf8_check(b: &[u8], i0: usize, e: usize) -> (res: bool)
    requires
        i0 <= e <= b@.len(),
    ensures
        res == utf8_from(b@, i0 as int, e as int),
{
    let mut i = i0;
    while i < e
        invariant
            i0 <= i <= e <= b@.len(),
            utf8_from(b@, i0 as int, e as int) == utf8_from(b@, i as int, e as int),
        decreases e - i,
    {
        let c = b[i];
        if c < 0x80 {
            i = i + 1;
        } else if 0xc2 <= c && c <= 0xdf {
            if !(i + 1 < e && 0x80 <= b[i + 1] && b[i + 1] <= 0xbf) {
                return false;
            }
            i = i + 2;
        } else if 0xe0 <= c && c <= 0xef {
            if !(e - i > 2) {
                return false;
            }
            let c1 = b[i + 1];
            let lo: u8 = if c == 0xe0 { 0xa0 } else { 0x80 };
            let hi: u8 = if c == 0xed { 0x9f } else { 0xbf };
            if !(lo <= c1 && c1 <= hi && 0x80 <= b[i + 2] && b[i + 2] <= 0xbf) {
                return false;
            }
            i = i + 3;
        } else if 0xf0 <= c && c <= 0xf4 {
            if !(e - i > 3) {
                return false;
            }
            let c1 = b[i + 1];
            let lo: u8 = if c == 0xf0 { 0x90 } else { 0x80 };
            let hi: u8 = if c == 0xf4 { 0x8f } else { 0xbf };
            if !(lo <= c1 && c1 <= hi && 0x80 <= b[i + 2] && b[i + 2] <= 0xbf && 0x80 <= b[i + 3] && b[i
                + 3] <= 0xbf) {
                return false;
            }
            i = i + 4;
        } else {
            return false;
        }
    }
    true
}

/// Whether a name can be read at `p` (`name_ok`): a NUL byte ends it
/// inside the file and the bytes before it are UTF-8.
fn scan_name(b: &[u8], p: u64) -> (res: bool)
    ensures
        res == name_ok(b@, p as int),
{
    if p >= b.len() as u64 {
        return false;
    }
    let q = p as usize;
    let mut k = q;
    while k < b.len() && b[k] != 0
        invariant
            q <= k <= b@.len(),
            q == p,
            forall|m: int| q <= m < k ==> b@[m] != 0,
        decreases b@.len() - k,
    {
        k = k + 1;
    }
    if k == b.len() {
        proof {
            if name_ok(b@, p as int) {
                let w = choose|w: int|
                    #![trigger b@[w]]
                    p <= w < b@.len() && b@[w] == 0 && (forall|m: int| p <= m < w ==> #[trigger] b@[m] != 0)
                        && utf8_from(b@, p as int, w);
                assert(b@[w] != 0);
            }
        }
        return false;
    }
    let r = utf8_check(b, q, k);
    proof {
        assert(b@[k as int] == 0);
        if name_ok(b@, p as int) {
            let w = choose|w: int|
                #![trigger b@[w]]
                p <= w < b@.len() && b@[w] == 0 && (forall|m: int| p <= m < w ==> #[trigger] b@[m] != 0)
                    && utf8_from(b@, p as int, w);
            if w < k {
                assert(b@[w] != 0);
            } else if w > k {
                assert(b@[k as int] != 0);
            }
        }
    }
    r
}

/// Whether the name at `p` is `x` (`p` may lie past the file).
fn name_at_is(b: &[u8], p: u64, x: &[u8]) -> (res: bool)
    ensures
        res == name_is(b@, p as int, x@),
{
    if p > b.len() as u64 || x.len() >= b.len() - p as usize {
        return false;
    }
    let q = p as usize;
    let blen = b.len();
    let mut k: usize = 0;
    while k < x.len()
        invariant
            blen == b@.len(),
            q + x@.len() < b@.len(),
            q == p,
            k <= x@.len(),
            forall|m: int| 0 <= m < k ==> b@[q + m] == x@[m],
        decreases x@.len() - k,
    {
        if b[q + k] != x[k] {
            proof {
                assert(b@.subrange(q as int, q + x@.len())[k as int] != x@[k as int]);
            }
            return false;
        }
        k = k + 1;
    }
    proof {
        assert(b@.subrange(q as int, q + x@.len()) =~= x@);
    }
    b[q + x.len()] == 0
}

proof fn lemma_mul_fits(a: u64, c: u64)
    ensures
        (a as int) * (c as int) <= 0xffff_ffff_ffff_fffe_0000_0000_0000_0001,
        0 <= (a as int) * (c as int),
{
    assert((a as int) * (c as int) <= 0xffff_ffff_ffff_ffff * 0xffff_ffff_ffff_ffff) by (nonlinear_arith)
        requires
            a <= 0xffff_ffff_ffff_ffff,
            c <= 0xffff_ffff_ffff_ffff,
            0 <= a,
            0 <= c,
    ;
    assert(0 <= (a as int) * (c as int)) by (nonlinear_arith)
        requires
            0 <= a,
            0 <= c,
    ;
}

/// The fields that place the program headers, as numbers of their widths.
pub proof fn lemma_ph_fields(b: Seq<u8>)
    requires
        header_ok(b),
    ensures
        0 <= ph_off(b) < 0x1_0000_0000_0000_0000,
        0 <= ph_esz(b) < 0x10000,
        0 <= ph_num(b) < 0x10000,
{
    reveal_with_fuel(pow256, 3);
    lemma_pow256_8(4);
    lemma_pow256_8(8);
    if elf64(b) {
        lemma_le_bound(b, 32, 8);
        lemma_le_bound(b, 54, 2);
        lemma_le_bound(b, 56, 2);
    } else {
        lemma_le_bound(b, 28, 4);
        lemma_le_bound(b, 42, 2);
        lemma_le_bound(b, 44, 2);
    }
}

/// Whether program header `i` can be read in place (`ph_ok_at`).
pub fn ph_ok_check(b: &[u8], i: u64) -> (res: bool)
    ensures
        res == ph_ok_at(b@, i as int),
{
    if b.len() < 5 {
        return false;
    }
    let c = b[4];
    if c != 1 && c != 2 {
        return false;
    }
    let is64 = c == 2;
    let hl: usize = if is64 { 64 } else { 52 };
    if b.len() < hl {
        return false;
    }
    let phoff = if is64 { read_le(b, 32, 8) } else { read_le(b, 28, 4) };
    let phesz = if is64 { read_le(b, 54, 2) } else { read_le(b, 42, 2) };
    let phnum = if is64 { read_le(b, 56, 2) } else { read_le(b, 44, 2) };
    if phnum == 0 || phoff == 0 || phesz == 0 || i >= phnum {
        return false;
    }
    let w: u128 = if is64 { 8 } else { 4 };
    let pmin: u64 = if is64 { 56 } else { 32 };
    proof {
        lemma_mul_fits(i, phesz);
    }
    let at: u128 = phoff as u128 + (i as u128) * (phesz as u128);
    at % w == 0 && phesz >= pmin && at + phesz as u128 <= b.len() as u128
}

/// Whether section type `ty` is one whose name the reader looks up.
fn named_type_exec(ty: u64) -> (res: bool)
    ensures
        res == named_type(ty as int),
{
    (1 <= ty && ty <= 11) || (14 <= ty && ty <= 18) || ty >= 0x6000_0000
}


/// Where the file header places the section headers: their offset, entry
/// size and count, and the index of the name section.
fn sh_fields(b: &[u8]) -> (r: (u64, u64, u64, u64))
    requires
        header_ok(b@),
    ensures
        r.0 == sh_off(b@),
        r.1 == sh_esz(b@),
        r.2 == sh_num(b@),
        r.3 == sh_str(b@),
{
    if b[4] == 2 {
        (read_le(b, 40, 8), read_le(b, 58, 2), read_le(b, 60, 2), read_le(b, 62, 2))
    } else {
        (read_le(b, 32, 4), read_le(b, 46, 2), read_le(b, 48, 2), read_le(b, 50, 2))
    }
}

/// Whether section header `i` can be read in place (`shdr_ok`).
fn shdr_check(b: &[u8], i: u64) -> (res: bool)
    requires
        header_ok(b@),
    ensures
        res == shdr_ok(b@, i as int),
{
    let (off, esz, _n, _s) = sh_fields(b);
    if i >= 0xff00 {
        return false;
    }
    let is64 = b[4] == 2;
    let w: u128 = if is64 { 8 } else { 4 };
    let smin: u64 = if is64 { 64 } else { 40 };
    proof {
        lemma_mul_fits(i, esz);
    }
    let at: u128 = off as u128 + (i as u128) * (esz as u128);
    esz >= smin && at % w == 0 && at + esz as u128 <= b.len() as u128
}

/// The name, type, offset and size of section `i`.
fn sec_fields(b: &[u8], i: u64) -> (r: (u64, u64, u64, u64))
    requires
        header_ok(b@),
        shdr_ok(b@, i as int),
    ensures
        r.0 == sec_name(b@, i as int),
        r.1 == sec_type(b@, i as int),
        r.2 == sec_offset(b@, i as int),
        r.3 == sec_size(b@, i as int),
{
    let (off, esz, _n, _s) = sh_fields(b);
    proof {
        lemma_mul_fits(i, esz);
    }
    let at = (off as u128 + (i as u128) * (esz as u128)) as usize;
    if b[4] == 2 {
        (read_le(b, at, 4), read_le(b, at + 4, 4), read_le(b, at + 24, 8), read_le(b, at + 32, 8))
    } else {
        (read_le(b, at, 4), read_le(b, at + 4, 4), read_le(b, at + 16, 4), read_le(b, at + 20, 4))
    }
}

/// Where the section names start, where the name section can be read and
/// its data starts in the file (`str_table_ok`).
fn str_table_check(b: &[u8]) -> (res: Option<u64>)
    requires
        header_ok(b@),
    ensures
        res is Some <==> str_table_ok(b@),
        res matches Some(p) ==> p == str_base(b@),
{
    let (_o, _e, _n, s) = sh_fields(b);
    if !shdr_check(b, s) {
        return None;
    }
    let (_nm, _t, off, _sz) = sec_fields(b, s);
    if off > b.len() as u64 {
        None
    } else {
        Some(off)
    }
}

/// Whether the data of section `i` can be read for its type
/// (`found_data_ok`).
fn found_data_check(b: &[u8], i: u64) -> (res: bool)
    requires
        header_ok(b@),
        shdr_ok(b@, i as int),
    ensures
        res == found_data_ok(b@, i as int),
{
    let (_nm, t, off, sz) = sec_fields(b, i);
    let is64 = b[4] == 2;
    let w: u128 = if is64 { 8 } else { 4 };
    let o = off as u128;
    let s = sz as u128;
    let raw = o + s <= b.len() as u128;
    if t == 8 {
        true
    } else if t == 1 || t == 3 || t == 10 || t >= 0x6000_0000 {
        raw
    } else if t == 2 || t == 11 {
        let e: u128 = if is64 { 24 } else { 16 };
        raw && o % w == 0 && s % e == 0
    } else if 14 <= t && t <= 16 {
        raw && o % w == 0 && s % w == 0
    } else if t == 4 {
        let e: u128 = if is64 { 24 } else { 12 };
        raw && o % w == 0 && s % e == 0
    } else if t == 6 || t == 9 {
        raw && o % w == 0 && s % (2 * w) == 0
    } else if t == 18 {
        raw && o % 4 == 0 && s % 4 == 0
    } else if t == 5 {
        raw && o % 4 == 0 && s >= 12
    } else if t == 7 {
        raw && (!is64 || (o % 4 == 0 && s >= 12))
    } else if t == 17 {
        raw && o % 4 == 0 && s >= 4 && (s - 4) % 4 == 0
    } else {
        true
    }
}

/// Whether the section named `x` can be looked up and its data read
/// (`section_read_ok`): goes through the sections in order as the ELF
/// reader's search does, up to the first of that name.
pub fn section_read_check(b: &[u8], x: &[u8]) -> (res: bool)
    ensures
        res == section_read_ok(b@, x@),
{
    if b.len() < 5 {
        return false;
    }
    let c = b[4];
    if c != 1 && c != 2 {
        return false;
    }
    let hl: usize = if c == 2 { 64 } else { 52 };
    if b.len() < hl {
        return false;
    }
    let (_o, _e, n, _s) = sh_fields(b);
    let mut i: u64 = 0;
    while i < n
        invariant
            header_ok(b@),
            n == sh_num(b@),
            i <= n,
            forall|j: int| 0 <= j < i ==> #[trigger] passed(b@, x@, j),
        decreases n - i,
    {
        let ghost gi = i as int;
        proof {
            lemma_search_at(b@, x@, gi);
        }
        if !shdr_check(b, i) {
            return false;
        }
        let (nm, t, _off, _sz) = sec_fields(b, i);
        if named_type_exec(t) {
            let base = match str_table_check(b) {
                Some(p) => p,
                None => {
                    return false;
                },
            };
            if nm >= b.len() as u64 - base {
                return false;
            }
            let p = base + nm;
            if !scan_name(b, p) {
                return false;
            }
            if name_at_is(b, p, x) {
                let r = found_data_check(b, i);
                proof {
                    assert(has_name(b@, gi, x@));
                    assert forall|k: int|
                        0 <= k < sh_num(b@) && (forall|j: int| 0 <= j < k ==> !#[trigger] has_name(b@, j, x@)) implies #[trigger] readable(
                        b@,
                        k,
                    ) by {
                        if k > gi {
                            assert(!has_name(b@, gi, x@));
                        } else if k < gi {
                            assert(passed(b@, x@, k));
                        }
                    }
                    if r {
                        assert forall|k: int|
                            0 <= k < sh_num(b@) && #[trigger] has_name(b@, k, x@) && (forall|j: int|
                                0 <= j < k ==> !has_name(b@, j, x@)) implies found_data_ok(b@, k) by {
                            if k > gi {
                                assert(!has_name(b@, gi, x@));
                            } else if k < gi {
                                assert(passed(b@, x@, k));
                            }
                        }
                    } else {
                        assert(forall|j: int| 0 <= j < gi ==> !has_name(b@, j, x@)) by {
                            assert forall|j: int| 0 <= j < gi implies !has_name(b@, j, x@) by {
                                assert(passed(b@, x@, j));
                            }
                        }
                    }
                }
                return r;
            }
        }
        proof {
            lemma_search_step(b@, x@, gi);
        }
        i = i + 1;
    }
    proof {
        assert forall|k: int|
            0 <= k < sh_num(b@) && (forall|j: int| 0 <= j < k ==> !#[trigger] has_name(b@, j, x@)) implies #[trigger] readable(
            b@,
            k,
        ) by {
            assert(passed(b@, x@, k));
        }
        assert forall|k: int|
            0 <= k < sh_num(b@) && #[trigger] has_name(b@, k, x@) && (forall|j: int|
                0 <= j < k ==> !has_name(b@, j, x@)) implies found_data_ok(b@, k) by {
            assert(passed(b@, x@, k));
        }
    }
    true
}

/// Section `i`, read and not named `x`, extends what the search has read.
proof fn lemma_search_step(b: Seq<u8>, x: Seq<u8>, i: int)
    requires
        forall|j: int| 0 <= j < i ==> #[trigger] passed(b, x, j),
        passed(b, x, i),
    ensures
        forall|j: int| 0 <= j < i + 1 ==> #[trigger] passed(b, x, j),
{
    assert forall|j: int| 0 <= j < i + 1 implies #[trigger] passed(b, x, j) by {
        if j < i {
            assert(passed(b, x, j));
        }
    }
}

/// Where the search for `x` reaches section `i` (none before it has that
/// name) and the search can be made, section `i` can be read, and so can
/// its name where its type has one.
proof fn lemma_search_at(b: Seq<u8>, x: Seq<u8>, i: int)
    requires
        0 <= i < sh_num(b),
        forall|j: int| 0 <= j < i ==> #[trigger] passed(b, x, j),
    ensures
        search_ok(b, x) ==> readable(b, i),
{
    if search_ok(b, x) {
        assert forall|j: int| 0 <= j < i implies !#[trigger] has_name(b, j, x) by {
            assert(passed(b, x, j));
        }
        assert(readable(b, i));
    }
}

} // verus!

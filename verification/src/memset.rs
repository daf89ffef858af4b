//! The memory areas of a user task and how an unmapped range cuts them.
use vstd::prelude::*;
use crate::consts::{map_mprot_to_flags, mapping_of_prot, MAPPING_URWX, MAPPING_URX};
use crate::errno::Errno;
use crate::syscall::alignup;

verus! {

/// What a memory area holds.
#[derive(Clone, PartialEq, Eq, Debug, Copy, Structural)]
pub enum MemType {
    CodeSection,
    Stack,
    Mmap,
    Shared,
    ShareFile,
}

/// One mapped page: its virtual address, the frame behind it, and its
/// access bits.
#[derive(Clone, Copy, Debug, PartialEq, Eq, Structural)]
pub struct MapTrack {
    pub vaddr: usize,
    pub frame: usize,
    pub rwx: u8,
}

/// A range of user memory and the pages mapped in it. `file` names the
/// file that backs the area, if any, and `offset` the position in it that
/// `start` maps.
#[derive(Debug)]
pub struct MemArea {
    pub mtype: MemType,
    pub mtrackers: Vec<MapTrack>,
    pub file: Option<usize>,
    pub offset: usize,
    pub start: usize,
    pub len: usize,
}

/// What cutting a range out of an area asks of its owner: the pages to write
/// back to the file (in order), and the pages to unmap (in order).
pub struct SubOutcome {
    pub split: Option<MemArea>,
    pub write_back: Vec<usize>,
    pub unmap: Vec<usize>,
}

/// Whether a page lies in `[lo, hi)`.
pub open spec fn track_in(t: MapTrack, lo: int, hi: int) -> bool {
    lo <= t.vaddr < hi
}

/// The pages that lie in `[lo, hi)` (`inside`) or outside it, in order.
pub open spec fn tracks_where(s: Seq<MapTrack>, lo: int, hi: int, inside: bool) -> Seq<MapTrack>
    decreases s.len(),
{
    if s.len() == 0 {
        s
    } else {
        let r = tracks_where(s.drop_last(), lo, hi, inside);
        if track_in(s.last(), lo, hi) == inside {
            r.push(s.last())
        } else {
            r
        }
    }
}

/// The addresses of a list of pages.
pub open spec fn addrs_of(s: Seq<MapTrack>) -> Seq<usize> {
    s.map_values(|t: MapTrack| t.vaddr)
}

/// Whether `[start, end)` meets the area `[s, s + len)`: it does unless it
/// ends at or before `s`, or starts at or after the end.
pub open spec fn overlaps(s: int, len: int, start: int, end: int) -> bool {
    let e = s + len;
    !((start <= s && end <= s) || (start >= e && end >= e))
}

/// The plain values of an area: kind, pages, backing file, file offset,
/// start and length.
pub open spec fn area_view(a: MemArea) -> (MemType, Seq<MapTrack>, Option<usize>, usize, usize, usize) {
    (a.mtype, a.mtrackers@, a.file, a.offset, a.start, a.len)
}

/// The area after `[start, end)` is cut out of `a`, the area split off its
/// far end (if any), the pages to write back and the pages to unmap.
///
/// When the range lies inside the area, the area keeps what lies before
/// `start`, drops the pages past `end` and hands a new area for
/// `[end, old end)` back, holding no page; the pages inside the range stay
/// with it. When the range covers the area, its length becomes 0 and every
/// page is unmapped. Otherwise the area is cut at `start` (when `start` lies
/// in it) or starts again at `end` (when its start lies in the range), and
/// the pages that fall outside it are unmapped. Pages inside the range are
/// written back when a file backs the area.
pub open spec fn sub_result(a: MemArea, start: usize, end: usize) -> (
    (MemType, Seq<MapTrack>, Option<usize>, usize, usize, usize),
    Option<(MemType, Seq<MapTrack>, Option<usize>, usize, usize, usize)>,
    Seq<usize>,
    Seq<usize>,
) {
    let s = a.start as int;
    let e = a.start + a.len;
    let t = a.mtrackers@;
    let writes = if a.file is Some {
        addrs_of(tracks_where(t, start as int, end as int, true))
    } else {
        Seq::<usize>::empty()
    };
    if !overlaps(s, a.len as int, start as int, end as int) {
        (area_view(a), None, Seq::<usize>::empty(), Seq::<usize>::empty())
    } else if s <= start < e && s <= end < e {
        (
            (a.mtype, tracks_where(t, end as int, e, false), a.file, a.offset, a.start, (start
                - a.start) as usize),
            Some(
                (
                    a.mtype,
                    Seq::<MapTrack>::empty(),
                    a.file,
                    (end - a.start) as usize,
                    end,
                    (e - end) as usize,
                ),
            ),
            writes,
            Seq::<usize>::empty(),
        )
    } else if start <= s < end && start <= e < end {
        (
            (a.mtype, Seq::<MapTrack>::empty(), a.file, a.offset, a.start, 0usize),
            None,
            writes,
            addrs_of(t),
        )
    } else {
        let new_start: usize = if s <= start < e {
            a.start
        } else if start <= s < end {
            end
        } else {
            a.start
        };
        let new_len: usize = if s <= start < e {
            (start - a.start) as usize
        } else if start <= s < end {
            (e - end) as usize
        } else {
            a.len
        };
        (
            (
                a.mtype,
                tracks_where(t, new_start as int, new_start + new_len, true),
                a.file,
                a.offset,
                new_start,
                new_len,
            ),
            None,
            writes,
            addrs_of(tracks_where(t, new_start as int, new_start + new_len, false)),
        )
    }
}

/// Splits a page list into those inside and those outside `[lo, hi)`, both
/// in order.
fn split_tracks(v: &Vec<MapTrack>, lo: usize, hi: usize) -> (res: (Vec<MapTrack>, Vec<MapTrack>))
    ensures
        res.0@ == tracks_where(v@, lo as int, hi as int, true),
        res.1@ == tracks_where(v@, lo as int, hi as int, false),
{
    let mut inside: Vec<MapTrack> = Vec::new();
    let mut outside: Vec<MapTrack> = Vec::new();
    let mut i: usize = 0;
    proof {
        assert(v@.subrange(0, 0) =~= Seq::<MapTrack>::empty());
    }
    while i < v.len()
        invariant
            i <= v@.len(),
            inside@ == tracks_where(v@.subrange(0, i as int), lo as int, hi as int, true),
            outside@ == tracks_where(v@.subrange(0, i as int), lo as int, hi as int, false),
        decreases v@.len() - i,
    {
        let t = v[i];
        proof {
            assert(v@.subrange(0, i + 1).drop_last() =~= v@.subrange(0, i as int));
            assert(v@.subrange(0, i + 1).last() == t);
        }
        if lo <= t.vaddr && t.vaddr < hi {
            inside.push(t);
        } else {
            outside.push(t);
        }
        i = i + 1;
    }
    proof {
        assert(v@.subrange(0, v@.len() as int) =~= v@);
    }
    (inside, outside)
}

/// The addresses of a page list.
fn addrs(v: &Vec<MapTrack>) -> (res: Vec<usize>)
    ensures
        res@ == addrs_of(v@),
{
    let mut res: Vec<usize> = Vec::new();
    let mut i: usize = 0;
    while i < v.len()
        invariant
            i <= v@.len(),
            res@ == addrs_of(v@.subrange(0, i as int)),
        decreases v@.len() - i,
    {
        res.push(v[i].vaddr);
        i = i + 1;
        proof {
            assert(addrs_of(v@.subrange(0, i as int)) =~= addrs_of(v@.subrange(0, i - 1)).push(
                v@[i - 1].vaddr,
            ));
        }
    }
    proof {
        assert(v@.subrange(0, v@.len() as int) =~= v@);
    }
    res
}

proof fn lemma_where_complement(s: Seq<MapTrack>, lo: int, hi: int)
    ensures
        tracks_where(tracks_where(s, lo, hi, false), lo, hi, true) == Seq::<MapTrack>::empty(),
    decreases s.len(),
{
    if s.len() > 0 {
        lemma_where_complement(s.drop_last(), lo, hi);
        let r = tracks_where(s.drop_last(), lo, hi, false);
        if !track_in(s.last(), lo, hi) {
            assert(r.push(s.last()).drop_last() =~= r);
        }
    }
}

impl MemArea {
    /// The area ends within the address space.
    pub open spec fn wf(&self) -> bool {
        self.start + self.len <= usize::MAX
    }

    /// Whether `[start, end)` meets this area.
    pub fn overlapping(&self, start: usize, end: usize) -> (res: bool)
        requires
            self.wf(),
        ensures
            res == overlaps(self.start as int, self.len as int, start as int, end as int),
    {
        let self_end = self.start + self.len;
        !((start <= self.start && end <= self.start) || (start >= self_end && end >= self_end))
    }

    /// Whether `addr` lies in this area.
    pub fn contains(&self, addr: usize) -> (res: bool)
        requires
            self.wf(),
        ensures
            res == (self.start <= addr < self.start + self.len),
    {
        self.start <= addr && addr < self.start + self.len
    }

    /// The position in the backing file of the page at `vaddr`:
    /// `vaddr + offset - start`, wrapping around the address space.
    pub fn file_pos(&self, vaddr: usize) -> (res: usize)
        ensures
            res == vstd::wrapping::usize_specs::wrapping_sub(
                vstd::wrapping::usize_specs::wrapping_add(vaddr, self.offset),
                self.start,
            ),
    {
        vaddr.wrapping_add(self.offset).wrapping_sub(self.start)
    }

    /// Cuts `[start, end)` out of this area; see `sub_result`. The owner then
    /// writes back the pages named in `write_back` (at `file_pos`, after the
    /// call) and unmaps those named in `unmap`.
    pub fn sub(&mut self, start: usize, end: usize) -> (res: SubOutcome)
        requires
            old(self).wf(),
        ensures
            final(self).wf(),
            ({
                let r = sub_result(*old(self), start, end);
                &&& area_view(*final(self)) == r.0
                &&& match res.split {
                    Some(a) => r.1 == Some(area_view(a)) && a.wf(),
                    None => r.1 is None,
                }
                &&& res.write_back@ == r.2
                &&& res.unmap@ == r.3
            }),
    {
        let ghost old_self = *self;
        if !self.overlapping(start, end) {
            return SubOutcome { split: None, write_back: Vec::new(), unmap: Vec::new() };
        }
        let s = self.start;
        let e = self.start + self.len;
        let (in_range, _) = split_tracks(&self.mtrackers, start, end);
        let write_back = if self.file.is_some() {
            addrs(&in_range)
        } else {
            Vec::new()
        };
        if s <= start && start < e && s <= end && end < e {
            self.len = start - self.start;
            let (_, keep) = split_tracks(&self.mtrackers, end, e);
            let (moved, _) = split_tracks(&keep, end, e);
            proof {
                lemma_where_complement(old_self.mtrackers@, end as int, e as int);
            }
            self.mtrackers = keep;
            let split = MemArea {
                mtype: self.mtype,
                mtrackers: moved,
                file: self.file,
                start: end,
                offset: end - self.start,
                len: e - end,
            };
            return SubOutcome { split: Some(split), write_back, unmap: Vec::new() };
        }
        if start <= s && s < end && start <= e && e < end {
            self.len = 0;
            let unmap = addrs(&self.mtrackers);
            self.mtrackers = Vec::new();
            return SubOutcome { split: None, write_back, unmap };
        }
        if s <= start && start < e {
            self.len = start - self.start;
        } else if start <= s && s < end {
            self.len = self.start + self.len - end;
            self.start = end;
        }
        let (stay, gone) = split_tracks(&self.mtrackers, self.start, self.start + self.len);
        let unmap = addrs(&gone);
        self.mtrackers = stay;
        SubOutcome { split: None, write_back, unmap }
    }
}

/// The memory areas of a task.
pub struct MemSet(pub Vec<MemArea>);

/// The areas after `[start, end)` is cut out of each of `areas` in turn:
/// those still with a length, the areas split off, the pages to write back
/// and the pages to unmap.
pub open spec fn sub_all(areas: Seq<MemArea>, start: usize, end: usize) -> (
    Seq<(MemType, Seq<MapTrack>, Option<usize>, usize, usize, usize)>,
    Seq<(MemType, Seq<MapTrack>, Option<usize>, usize, usize, usize)>,
    Seq<usize>,
    Seq<usize>,
)
    decreases areas.len(),
{
    if areas.len() == 0 {
        (Seq::empty(), Seq::empty(), Seq::empty(), Seq::empty())
    } else {
        let prev = sub_all(areas.drop_last(), start, end);
        let r = sub_result(areas.last(), start, end);
        (
            if r.0.5 != 0 {
                prev.0.push(r.0)
            } else {
                prev.0
            },
            match r.1 {
                Some(a) => prev.1.push(a),
                None => prev.1,
            },
            prev.2 + r.2,
            prev.3 + r.3,
        )
    }
}

/// Every area of a list ends within the address space.
pub open spec fn areas_wf(s: Seq<MemArea>) -> bool {
    forall|i: int| 0 <= i < s.len() ==> (#[trigger] s[i]).wf()
}

impl MemSet {
    /// A set holding `vec`.
    pub fn new(vec: Vec<MemArea>) -> (res: Self)
        ensures
            res.0@ == vec@,
    {
        MemSet(vec)
    }

    /// Whether `[start, end)` meets one of the areas.
    pub fn overlapping(&self, start: usize, end: usize) -> (res: bool)
        requires
            areas_wf(self.0@),
        ensures
            res == exists|i: int|
                0 <= i < self.0@.len() && overlaps(
                    (#[trigger] self.0@[i]).start as int,
                    self.0@[i].len as int,
                    start as int,
                    end as int,
                ),
    {
        let mut i: usize = 0;
        while i < self.0.len()
            invariant
                areas_wf(self.0@),
                i <= self.0@.len(),
                forall|j: int|
                    0 <= j < i ==> !overlaps(
                        (#[trigger] self.0@[j]).start as int,
                        self.0@[j].len as int,
                        start as int,
                        end as int,
                    ),
            decreases self.0@.len() - i,
        {
            if self.0[i].overlapping(start, end) {
                return true;
            }
            i = i + 1;
        }
        false
    }

    /// Cuts `[start, end)` out of every area, in order (see `sub_all`):
    /// areas left with no length go, the areas split off come last. Returns
    /// the pages to write back and to unmap, each area's in turn.
    pub fn sub_area(&mut self, start: usize, end: usize) -> (res: (Vec<usize>, Vec<usize>))
        requires
            areas_wf(old(self).0@),
        ensures
            areas_wf(final(self).0@),
            ({
                let r = sub_all(old(self).0@, start, end);
                &&& final(self).0@.map_values(|a: MemArea| area_view(a)) == r.0 + r.1
                &&& res.0@ == r.2
                &&& res.1@ == r.3
            }),
    {
        let mut areas: Vec<MemArea> = Vec::new();
        std::mem::swap(&mut areas, &mut self.0);
        let ghost orig = areas@;
        let mut kept: Vec<MemArea> = Vec::new();
        let mut new_set: Vec<MemArea> = Vec::new();
        let mut write_back: Vec<usize> = Vec::new();
        let mut unmap: Vec<usize> = Vec::new();
        let n = areas.len();
        let mut i: usize = 0;
        proof {
            assert(orig.subrange(0, 0) =~= Seq::<MemArea>::empty());
            assert(kept@.map_values(|a: MemArea| area_view(a)) =~= Seq::<
                (MemType, Seq<MapTrack>, Option<usize>, usize, usize, usize),
            >::empty());
            assert(new_set@.map_values(|a: MemArea| area_view(a)) =~= Seq::<
                (MemType, Seq<MapTrack>, Option<usize>, usize, usize, usize),
            >::empty());
        }
        while i < n
            invariant
                n == orig.len(),
                i <= n,
                areas@ == orig.subrange(i as int, n as int),
                areas_wf(orig),
                areas_wf(kept@),
                areas_wf(new_set@),
                ({
                    let r = sub_all(orig.subrange(0, i as int), start, end);
                    &&& kept@.map_values(|a: MemArea| area_view(a)) == r.0
                    &&& new_set@.map_values(|a: MemArea| area_view(a)) == r.1
                    &&& write_back@ == r.2
                    &&& unmap@ == r.3
                }),
            decreases n - i,
        {
            let mut area = areas.remove(0);
            let ghost a0 = area;
            proof {
                assert(a0 == orig[i as int]);
                assert(orig.subrange(0, i + 1).drop_last() =~= orig.subrange(0, i as int));
                assert(orig.subrange(0, i + 1).last() == a0);
                assert(areas@ =~= orig.subrange(i + 1, n as int));
            }
            let outcome = area.sub(start, end);
            let ghost ns0 = new_set@;
            let ghost k0 = kept@;
            match outcome.split {
                Some(a) => {
                    new_set.push(a);
                    proof {
                        assert(new_set@.map_values(|a: MemArea| area_view(a)) =~= ns0.map_values(
                            |a: MemArea| area_view(a),
                        ).push(area_view(a)));
                    }
                },
                None => {},
            }
            let mut wb = outcome.write_back;
            write_back.append(&mut wb);
            let mut um = outcome.unmap;
            unmap.append(&mut um);
            if area.len != 0 {
                let ghost ga = area;
                kept.push(area);
                proof {
                    assert(kept@.map_values(|a: MemArea| area_view(a)) =~= k0.map_values(
                        |a: MemArea| area_view(a),
                    ).push(area_view(ga)));
                }
            }
            i = i + 1;
        }
        proof {
            assert(orig.subrange(0, n as int) =~= orig);
        }
        let ghost k1 = kept@;
        let ghost ns1 = new_set@;
        kept.append(&mut new_set);
        proof {
            assert(kept@.map_values(|a: MemArea| area_view(a)) =~= k1.map_values(
                |a: MemArea| area_view(a),
            ) + ns1.map_values(|a: MemArea| area_view(a)));
        }
        self.0 = kept;
        (write_back, unmap)
    }

    /// Takes away every area.
    pub fn clear(&mut self)
        ensures
            final(self).0@ == Seq::<MemArea>::empty(),
    {
        self.0.clear();
    }
}

impl MemArea {
    /// A copy of this area.
    pub fn clone_area(&self) -> (res: MemArea)
        ensures
            area_view(res) == area_view(*self),
    {
        let mut v: Vec<MapTrack> = Vec::new();
        let mut i: usize = 0;
        while i < self.mtrackers.len()
            invariant
                i <= self.mtrackers@.len(),
                v@ == self.mtrackers@.subrange(0, i as int),
            decreases self.mtrackers@.len() - i,
        {
            v.push(self.mtrackers[i]);
            i = i + 1;
            proof {
                assert(v@ =~= self.mtrackers@.subrange(0, i as int));
            }
        }
        proof {
            assert(self.mtrackers@.subrange(0, self.mtrackers@.len() as int) =~= self.mtrackers@);
        }
        MemArea {
            mtype: self.mtype,
            mtrackers: v,
            file: self.file,
            offset: self.offset,
            start: self.start,
            len: self.len,
        }
    }
}

impl Clone for MemArea {
    fn clone(&self) -> (res: Self)
        ensures
            area_view(res) == area_view(*self),
    {
        self.clone_area()
    }
}

impl MemSet {
    /// Adds an area at the end.
    pub fn push(&mut self, area: MemArea)
        ensures
            final(self).0@ == old(self).0@.push(area),
    {
        self.0.push(area);
    }
}

/// The areas of a list, by value.
pub open spec fn views(s: Seq<MemArea>) -> Seq<(MemType, Seq<MapTrack>, Option<usize>, usize, usize, usize)> {
    s.map_values(|a: MemArea| area_view(a))
}

/// The areas, by value, once `c` is put in place among `s`: the range it
/// covers cut out of them (`sub_all`), then `c` added last.
pub open spec fn placed(s: Seq<MemArea>, c: MemArea) -> Seq<(MemType, Seq<MapTrack>, Option<usize>, usize, usize, usize)> {
    let r = sub_all(s, c.start, (c.start + c.len) as usize);
    (r.0 + r.1).push(area_view(c))
}

/// `after` holds what `before` holds once each area of `cached` is put in
/// place in turn (`placed`).
pub open spec fn placed_in_turn(before: Seq<MemArea>, cached: Seq<MemArea>, after: Seq<MemArea>) -> bool
    decreases cached.len(),
{
    if cached.len() == 0 {
        views(after) == views(before)
    } else {
        exists|mid: Seq<MemArea>|
            placed_in_turn(before, cached.drop_last(), mid) && views(after) == #[trigger] placed(mid, cached.last())
    }
}

/// The pages of `cached` to map, in order, each user-readable and
/// executable: (frame, address, mapping bits).
pub open spec fn urx_maps(cached: Seq<MemArea>) -> Seq<(usize, usize, u64)>
    decreases cached.len(),
{
    if cached.len() == 0 {
        Seq::empty()
    } else {
        urx_maps(cached.drop_last()) + cached.last().mtrackers@.map_values(
            |t: MapTrack| (t.frame, t.vaddr, MAPPING_URX),
        )
    }
}

impl MemSet {
    /// Puts area `c` in place: cuts the range it covers out of the areas
    /// (`sub_area`), then adds a copy of it. Returns the pages the cut asks
    /// to write back and to unmap.
    pub fn place_area(&mut self, c: &MemArea) -> (res: (Vec<usize>, Vec<usize>))
        requires
            areas_wf(old(self).0@),
            c.wf(),
        ensures
            areas_wf(final(self).0@),
            views(final(self).0@) == placed(old(self).0@, *c),
            ({
                let r = sub_all(old(self).0@, c.start, (c.start + c.len) as usize);
                res.0@ == r.2 && res.1@ == r.3
            }),
    {
        let res = self.sub_area(c.start, c.start + c.len);
        let ghost mid = self.0@;
        let copy = c.clone_area();
        self.0.push(copy);
        proof {
            assert(views(self.0@) =~= views(mid).push(area_view(*c)));
            assert forall|i: int| 0 <= i < self.0@.len() implies (#[trigger] self.0@[i]).wf() by {
                if i < mid.len() {
                    assert(self.0@[i] == mid[i]);
                }
            }
        }
        res
    }

    /// Puts the areas of a cached program in place, in turn (`place_area`),
    /// as `execve` does from a cached template, and returns the pages to
    /// map: each page of each area, user-readable and executable.
    pub fn apply_cached(&mut self, cached: &[MemArea]) -> (res: Vec<(usize, usize, u64)>)
        requires
            areas_wf(old(self).0@),
            areas_wf(cached@),
        ensures
            areas_wf(final(self).0@),
            placed_in_turn(old(self).0@, cached@, final(self).0@),
            res@ == urx_maps(cached@),
    {
        let mut maps: Vec<(usize, usize, u64)> = Vec::new();
        let ghost before = self.0@;
        proof {
            assert(cached@.subrange(0, 0) =~= Seq::<MemArea>::empty());
        }
        let mut k: usize = 0;
        while k < cached.len()
            invariant
                k <= cached@.len(),
                areas_wf(cached@),
                areas_wf(self.0@),
                placed_in_turn(before, cached@.subrange(0, k as int), self.0@),
                maps@ == urx_maps(cached@.subrange(0, k as int)),
            decreases cached@.len() - k,
        {
            let c = &cached[k];
            assert(c.wf());
            let ghost mid = self.0@;
            let _ = self.place_area(c);
            let mut j: usize = 0;
            let ghost m0 = maps@;
            while j < c.mtrackers.len()
                invariant
                    j <= c.mtrackers@.len(),
                    maps@ == m0 + c.mtrackers@.subrange(0, j as int).map_values(
                        |t: MapTrack| (t.frame, t.vaddr, MAPPING_URX),
                    ),
                decreases c.mtrackers@.len() - j,
            {
                let t = c.mtrackers[j];
                maps.push((t.frame, t.vaddr, MAPPING_URX));
                proof {
                    assert(c.mtrackers@.subrange(0, j + 1).map_values(|t: MapTrack| (t.frame, t.vaddr, MAPPING_URX))
                        =~= c.mtrackers@.subrange(0, j as int).map_values(
                        |t: MapTrack| (t.frame, t.vaddr, MAPPING_URX),
                    ).push((t.frame, t.vaddr, MAPPING_URX)));
                }
                j = j + 1;
            }
            proof {
                let pre = cached@.subrange(0, k + 1);
                assert(pre.drop_last() =~= cached@.subrange(0, k as int));
                assert(pre.last() == *c);
                assert(c.mtrackers@.subrange(0, c.mtrackers@.len() as int) =~= c.mtrackers@);
                assert(placed_in_turn(before, pre.drop_last(), mid));
                assert(views(self.0@) == placed(mid, pre.last()));
                assert(maps@ =~= urx_maps(pre));
            }
            k = k + 1;
        }
        proof {
            assert(cached@.subrange(0, cached@.len() as int) =~= cached@);
        }
        maps
    }
}

/// The `mmap` flag that asks for a shared mapping.
pub const MAP_SHARED: usize = 0x01;

/// The `mmap` flag that asks for the address as given, replacing what is
/// mapped there.
pub const MAP_FIXED: usize = 0x10;

/// Where `mmap` places new areas when no address is given, at the lowest
/// (the kernel runs on 64-bit machines, where this fits).
pub fn mmap_area_start() -> (res: usize)
    requires
        usize::MAX as int >= 0x2_0000_0000int,
    ensures
        res == 0x2_0000_0000int,
{
    0x2_0000usize * 0x1_0000usize
}

/// What is left to do for an `mmap` once its area is decided.
#[derive(Clone, Copy, Debug, PartialEq, Eq, Structural)]
pub enum MmapAction {
    /// Nothing: return the address.
    Done,
    /// Map `pages` pages of the file, shared, from the file offset.
    MapSharedFile { pages: usize },
    /// Allocate `pages` shared pages and map them with these bits.
    MapShared { pages: usize, flags: u64 },
    /// Allocate `pages` private pages for the file's contents.
    AllocForFile { pages: usize },
}

/// The address an `mmap` maps at: `start` when given, else the task's last
/// free address but never below `mmap_area_start()`.
pub open spec fn mmap_target(start: usize, last_free: usize) -> int {
    if start != 0 {
        start as int
    } else if last_free >= 0x2_0000_0000int {
        last_free as int
    } else {
        0x2_0000_0000int
    }
}

/// `len` rounded up to whole pages.
pub open spec fn pages_len(len: usize) -> int {
    (len + 4095) / 4096 * 4096
}

/// `mmap` on a task's areas: the address and what is left to do (or
/// `EINVAL`). The length is rounded up to pages; an empty mapping only
/// returns the address. With `MAP_FIXED` what lies in the range is
/// unmapped first; without it a range that meets an area is refused. A
/// shared mapping maps the file (`has_file`) or fresh pages; a private one
/// of a file takes fresh pages for its contents; an anonymous private one
/// is recorded as an empty area of the task.
pub fn mmap(
    set: &mut MemSet,
    start: usize,
    len: usize,
    prot: u32,
    flags: usize,
    has_file: bool,
    last_free: usize,
) -> (res: Result<(usize, MmapAction), Errno>)
    requires
        areas_wf(old(set).0@),
        len + 4095 <= usize::MAX,
        mmap_target(start, last_free) + pages_len(len) <= usize::MAX,
    ensures
        areas_wf(final(set).0@),
        ({
            let addr = mmap_target(start, last_free) as usize;
            let l = pages_len(len);
            let pages = (l / 4096) as usize;
            let end = (addr + l) as usize;
            let meets = exists|i: int|
                0 <= i < old(set).0@.len() && overlaps(
                    (#[trigger] old(set).0@[i]).start as int,
                    old(set).0@[i].len as int,
                    addr as int,
                    end as int,
                );
            let fixed = flags & MAP_FIXED != 0;
            let shared = flags & MAP_SHARED != 0;
            let cut = sub_all(old(set).0@, addr, end);
            let kept = if fixed && meets {
                cut.0 + cut.1
            } else {
                old(set).0@.map_values(|a: MemArea| area_view(a))
            };
            let added = (MemType::Mmap, Seq::<MapTrack>::empty(), None::<usize>, 0usize, addr, l as usize);
            if l == 0 {
                res == Ok::<(usize, MmapAction), Errno>((addr, MmapAction::Done)) && final(set).0@
                    == old(set).0@
            } else if !fixed && meets {
                res == Err::<(usize, MmapAction), Errno>(Errno::EINVAL) && final(set).0@ == old(
                    set,
                ).0@
            } else {
                &&& final(set).0@.map_values(|a: MemArea| area_view(a)) == (if !shared && !has_file {
                    kept.push(added)
                } else {
                    kept
                })
                &&& res == Ok::<(usize, MmapAction), Errno>(
                    (
                        addr,
                        if shared && has_file {
                            MmapAction::MapSharedFile { pages }
                        } else if shared {
                            MmapAction::MapShared { pages, flags: mapping_of_prot(prot) }
                        } else if has_file {
                            MmapAction::AllocForFile { pages }
                        } else {
                            MmapAction::Done
                        },
                    ),
                )
            }
        }),
{
    let l = alignup(len);
    assert(l == (len + 4095) / 4096 * 4096) by (nonlinear_arith)
        requires
            l % 4096 == 0,
            l >= len,
            l < len + 4096,
    ;
    let addr = if start != 0 {
        start
    } else {
        let lowest = mmap_area_start();
        if last_free >= lowest {
            last_free
        } else {
            lowest
        }
    };
    if l == 0 {
        return Ok((addr, MmapAction::Done));
    }
    let end = addr + l;
    let meets = set.overlapping(addr, end);
    let fixed = flags & MAP_FIXED != 0;
    let shared = flags & MAP_SHARED != 0;
    if fixed {
        if meets {
            let _ = set.sub_area(addr, end);
        }
    } else if meets {
        return Err(Errno::EINVAL);
    }
    let ghost mid = set.0@;
    proof {
        if !(fixed && meets) {
            assert(mid.map_values(|a: MemArea| area_view(a)) == old(set).0@.map_values(|a: MemArea| area_view(a)));
        }
    }
    assert(l % 4096 == 0 && l / 4096 <= usize::MAX) by (nonlinear_arith)
        requires
            l == (len + 4095) / 4096 * 4096,
    ;
    let pages = l / 4096;
    if shared {
        if has_file {
            Ok((addr, MmapAction::MapSharedFile { pages }))
        } else {
            Ok((addr, MmapAction::MapShared { pages, flags: map_mprot_to_flags(prot) }))
        }
    } else if has_file {
        Ok((addr, MmapAction::AllocForFile { pages }))
    } else {
        set.push(MemArea { mtype: MemType::Mmap, mtrackers: Vec::new(), file: None, offset: 0, start: addr, len: l });
        proof {
            assert(set.0@.map_values(|a: MemArea| area_view(a)) =~= mid.map_values(|a: MemArea| area_view(a)).push(
                (MemType::Mmap, Seq::<MapTrack>::empty(), None::<usize>, 0usize, addr, l),
            ));
        }
        Ok((addr, MmapAction::Done))
    }
}

/// What a write or instruction fault on a user page comes to.
#[derive(Clone, Copy, Debug, PartialEq, Eq, Structural)]
pub enum FaultAction {
    /// No area holds the address, or the page is a shared one: the task
    /// gets `SIGSEGV`.
    Segv,
    /// Page `track` of area `area` is mapped: copy its frame first if
    /// others share it, then map it writable.
    Existing { area: usize, track: usize },
    /// Area `area` has no page there yet: take a fresh frame (filled from
    /// the file at `file_pos` when a file backs the area), record it
    /// (`add_page`) and map it user-readable, writable and executable
    /// (`MAPPING_URWX`).
    Fresh { area: usize, file_pos: usize },
}

/// What a write fault on a mapped page does with its frame.
#[derive(Clone, Copy, Debug, PartialEq, Eq, Structural)]
pub enum CowStep {
    /// Others hold this frame too: copy it to a fresh frame (then
    /// `replace_frame`) and map that one with `flags`.
    CopyFrom { frame: usize, flags: u64 },
    /// The page alone holds this frame: map it again with `flags`.
    Keep { frame: usize, flags: u64 },
}

/// The first area holding `addr`, if any.
pub open spec fn first_holding(areas: Seq<MemArea>, addr: usize) -> Option<int> {
    if exists|i: int| 0 <= i < areas.len() && (#[trigger] areas[i]).start <= addr < areas[i].start + areas[i].len {
        Some(choose|i: int|
            0 <= i < areas.len() && (#[trigger] areas[i]).start <= addr < areas[i].start + areas[i].len && forall|j: int|
                0 <= j < i ==> !((#[trigger] areas[j]).start <= addr < areas[j].start + areas[j].len))
    } else {
        None
    }
}

/// The first page of a list at address `page`, if any.
pub open spec fn first_track_at(t: Seq<MapTrack>, page: usize) -> Option<int> {
    if exists|i: int| 0 <= i < t.len() && (#[trigger] t[i]).vaddr == page {
        Some(choose|i: int| 0 <= i < t.len() && (#[trigger] t[i]).vaddr == page && forall|j: int| 0 <= j < i ==> (#[trigger] t[j]).vaddr != page)
    } else {
        None
    }
}

impl MemArea {
    /// The first page of this area at address `page`, if any.
    pub fn track_at(&self, page: usize) -> (res: Option<usize>)
        ensures
            res matches Some(k) ==> first_track_at(self.mtrackers@, page) == Some(k as int) && k
                < self.mtrackers@.len(),
            res is None ==> first_track_at(self.mtrackers@, page) is None,
    {
        let mut k: usize = 0;
        while k < self.mtrackers.len()
            invariant
                k <= self.mtrackers@.len(),
                forall|j: int| 0 <= j < k ==> (#[trigger] self.mtrackers@[j]).vaddr != page,
            decreases self.mtrackers@.len() - k,
        {
            if self.mtrackers[k].vaddr == page {
                proof {
                    let t = self.mtrackers@;
                    let c = choose|c: int|
                        0 <= c < t.len() && (#[trigger] t[c]).vaddr == page && forall|j: int| 0 <= j < c ==> (#[trigger] t[j]).vaddr != page;
                    assert(t[k as int].vaddr == page);
                    if c < k {
                        assert(t[c].vaddr != page);
                    } else if c > k {
                        assert(t[k as int].vaddr != page);
                    }
                }
                return Some(k);
            }
            k = k + 1;
        }
        None
    }
}

impl MemSet {
    /// A write or instruction fault at `vaddr` (see `FaultAction`): the first
    /// area that holds it decides; in it, the first page at the page of
    /// `vaddr`.
    pub fn page_fault(&self, vaddr: usize) -> (res: FaultAction)
        requires
            areas_wf(self.0@),
        ensures
            ({
                let page = (vaddr / 4096 * 4096) as usize;
                match first_holding(self.0@, vaddr) {
                    None => res == FaultAction::Segv,
                    Some(i) => {
                        let a = self.0@[i];
                        match first_track_at(a.mtrackers@, page) {
                            Some(j) => res == (if a.mtype == MemType::Shared {
                                FaultAction::Segv
                            } else {
                                FaultAction::Existing { area: i as usize, track: j as usize }
                            }),
                            None => res == FaultAction::Fresh {
                                area: i as usize,
                                file_pos: vstd::wrapping::usize_specs::wrapping_sub(
                                    vstd::wrapping::usize_specs::wrapping_add(page, a.offset),
                                    a.start,
                                ),
                            },
                        }
                    },
                }
            }),
            res matches FaultAction::Existing { area, track } ==> area < self.0@.len() && track
                < self.0@[area as int].mtrackers@.len(),
            res matches FaultAction::Fresh { area, file_pos } ==> area < self.0@.len(),
    {
        let page = vaddr / 4096 * 4096;
        let mut i: usize = 0;
        while i < self.0.len()
            invariant
                areas_wf(self.0@),
                page == vaddr / 4096 * 4096,
                i <= self.0@.len(),
                forall|j: int| 0 <= j < i ==> !((#[trigger] self.0@[j]).start <= vaddr < self.0@[j].start + self.0@[j].len),
            decreases self.0@.len() - i,
        {
            let a = &self.0[i];
            assert(a.wf());
            if a.contains(vaddr) {
                proof {
                    let c = choose|c: int|
                        0 <= c < self.0@.len() && (#[trigger] self.0@[c]).start <= vaddr < self.0@[c].start + self.0@[c].len
                            && forall|j: int| 0 <= j < c ==> !((#[trigger] self.0@[j]).start <= vaddr < self.0@[j].start + self.0@[j].len);
                    assert(self.0@[i as int].start <= vaddr < self.0@[i as int].start + self.0@[i as int].len);
                    if c < i {
                        assert(!(self.0@[c].start <= vaddr < self.0@[c].start + self.0@[c].len));
                    } else if c > i {
                        assert(!(self.0@[i as int].start <= vaddr < self.0@[i as int].start + self.0@[i as int].len));
                    }
                    assert(first_holding(self.0@, vaddr) == Some(i as int));
                }
                match a.track_at(page) {
                    Some(k) => {
                        if a.mtype == MemType::Shared {
                            return FaultAction::Segv;
                        }
                        return FaultAction::Existing { area: i, track: k };
                    },
                    None => {},
                }
                return FaultAction::Fresh { area: i, file_pos: a.file_pos(page) };
            }
            i = i + 1;
        }
        FaultAction::Segv
    }

    /// How the page `track` of area `area` (an `Existing` fault) gets its
    /// frame, where `sharers` tasks hold its frame: a frame others hold too
    /// is copied to a fresh one first, else the page keeps its frame. Either
    /// way the page is then mapped user-readable, writable and executable
    /// (`MAPPING_URWX`).
    pub fn cow_step(&self, area: usize, track: usize, sharers: usize) -> (res: CowStep)
        requires
            area < self.0@.len(),
            track < self.0@[area as int].mtrackers@.len(),
        ensures
            res == (if sharers > 1 {
                CowStep::CopyFrom { frame: self.0@[area as int].mtrackers@[track as int].frame, flags: MAPPING_URWX }
            } else {
                CowStep::Keep { frame: self.0@[area as int].mtrackers@[track as int].frame, flags: MAPPING_URWX }
            }),
    {
        let frame = self.0[area].mtrackers[track].frame;
        if sharers > 1 {
            CowStep::CopyFrom { frame, flags: MAPPING_URWX }
        } else {
            CowStep::Keep { frame, flags: MAPPING_URWX }
        }
    }

    /// After a fresh frame was taken for page `page` of area `area`: the
    /// area records it, readable, writable and executable.
    pub fn add_page(&mut self, area: usize, page: usize, frame: usize)
        requires
            area < old(self).0@.len(),
        ensures
            final(self).0@.len() == old(self).0@.len(),
            forall|i: int| 0 <= i < old(self).0@.len() && i != area ==> #[trigger] final(self).0@[i] == old(self).0@[i],
            area_view(final(self).0@[area as int]) == ({
                let a = area_view(old(self).0@[area as int]);
                (a.0, a.1.push(MapTrack { vaddr: page, frame, rwx: 0b111 }), a.2, a.3, a.4, a.5)
            }),
    {
        let mut a = self.0.remove(area);
        a.mtrackers.push(MapTrack { vaddr: page, frame, rwx: 0b111 });
        self.0.insert(area, a);
    }

    /// After the frame of page `track` of area `area` was copied to
    /// `frame` (it was shared): the page now has that frame.
    pub fn replace_frame(&mut self, area: usize, track: usize, frame: usize)
        requires
            area < old(self).0@.len(),
            track < old(self).0@[area as int].mtrackers@.len(),
        ensures
            final(self).0@.len() == old(self).0@.len(),
            forall|i: int| 0 <= i < old(self).0@.len() && i != area ==> #[trigger] final(self).0@[i] == old(self).0@[i],
            area_view(final(self).0@[area as int]) == ({
                let a = area_view(old(self).0@[area as int]);
                (a.0, a.1.update(track as int, MapTrack { frame, ..a.1[track as int] }), a.2, a.3, a.4, a.5)
            }),
    {
        let mut a = self.0.remove(area);
        let mut t = a.mtrackers[track];
        t.frame = frame;
        a.mtrackers.set(track, t);
        self.0.insert(area, a);
    }
}

} // verus!

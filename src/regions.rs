//! Per-task region tables: sorted, non-overlapping address ranges, each with
//! an attribute set, kept in a fixed-capacity vector.
use vstd::prelude::*;

verus! {

/// One memory attribute of a region.
#[derive(Clone, Copy, Debug, PartialEq, Eq, Structural)]
pub enum RegionAttr {
    Write,
    Read,
    Exec,
    Device,
    Dma,
}

/// A set of region attributes.
#[derive(Clone, Copy, Debug, Default, PartialEq, Eq, Structural)]
pub struct RegionAttrs {
    pub write: bool,
    pub read: bool,
    pub executable: bool,
    pub device: bool,
    pub dma: bool,
}

impl RegionAttrs {
    pub open spec fn has(self, a: RegionAttr) -> bool {
        match a {
            RegionAttr::Write => self.write,
            RegionAttr::Read => self.read,
            RegionAttr::Exec => self.executable,
            RegionAttr::Device => self.device,
            RegionAttr::Dma => self.dma,
        }
    }

    pub open spec fn includes(self, o: RegionAttrs) -> bool {
        &&& (o.write ==> self.write)
        &&& (o.read ==> self.read)
        &&& (o.executable ==> self.executable)
        &&& (o.device ==> self.device)
        &&& (o.dma ==> self.dma)
    }

    /// The empty set.
    pub fn empty() -> (r: RegionAttrs)
        ensures
            forall|a: RegionAttr| !r.has(a),
            !r.write && !r.read && !r.executable && !r.device && !r.dma,
    {
        RegionAttrs { write: false, read: false, executable: false, device: false, dma: false }
    }

    /// The set holding exactly `a`.
    pub fn of(a: RegionAttr) -> (r: RegionAttrs)
        ensures
            forall|b: RegionAttr| r.has(b) <==> b == a,
            a == RegionAttr::Read ==> r == RegionAttrs::read_only(),
            a == RegionAttr::Write ==> r == RegionAttrs::write_only(),
            a == RegionAttr::Exec ==> r == RegionAttrs::exec_only(),
    {
        let e = RegionAttrs::empty();
        match a {
            RegionAttr::Write => RegionAttrs { write: true, ..e },
            RegionAttr::Read => RegionAttrs { read: true, ..e },
            RegionAttr::Exec => RegionAttrs { executable: true, ..e },
            RegionAttr::Device => RegionAttrs { device: true, ..e },
            RegionAttr::Dma => RegionAttrs { dma: true, ..e },
        }
    }

    /// This set with `a` added.
    pub fn with(self, a: RegionAttr) -> (r: RegionAttrs)
        ensures
            forall|b: RegionAttr| r.has(b) <==> (self.has(b) || b == a),
    {
        let mut r = self;
        match a {
            RegionAttr::Write => r.write = true,
            RegionAttr::Read => r.read = true,
            RegionAttr::Exec => r.executable = true,
            RegionAttr::Device => r.device = true,
            RegionAttr::Dma => r.dma = true,
        }
        r
    }

    pub open spec fn read_only() -> RegionAttrs {
        RegionAttrs { write: false, read: true, executable: false, device: false, dma: false }
    }

    pub open spec fn exec_only() -> RegionAttrs {
        RegionAttrs { write: false, read: false, executable: true, device: false, dma: false }
    }

    pub open spec fn write_only() -> RegionAttrs {
        RegionAttrs { write: true, read: false, executable: false, device: false, dma: false }
    }

    /// Whether `a` is in the set.
    pub fn contains(self, a: RegionAttr) -> (r: bool)
        ensures
            r == self.has(a),
    {
        match a {
            RegionAttr::Write => self.write,
            RegionAttr::Read => self.read,
            RegionAttr::Exec => self.executable,
            RegionAttr::Device => self.device,
            RegionAttr::Dma => self.dma,
        }
    }

    /// Whether every attribute of `o` is in the set.
    pub fn contains_all(self, o: RegionAttrs) -> (r: bool)
        ensures
            r == self.includes(o),
    {
        (!o.write || self.write) && (!o.read || self.read) && (!o.executable || self.executable) && (!o.device
            || self.device) && (!o.dma || self.dma)
    }
}

/// The half-open address range `start .. end` with its attributes.
#[derive(Clone, Copy, Debug, PartialEq, Eq, Structural)]
pub struct Region {
    pub start: usize,
    pub end: usize,
    pub attr: RegionAttrs,
}

impl Region {
    pub fn new(start: usize, end: usize, attr: RegionAttrs) -> (r: Region)
        ensures
            r == (Region { start, end, attr }),
    {
        Region { start, end, attr }
    }

    pub open spec fn has(self, a: int) -> bool {
        self.start <= a < self.end
    }
}

#[verifier::external_type_specification]
#[verifier::external_body]
#[verifier::reject_recursive_types(T)]
pub struct ExHeaplessVec<T, const N: usize>(heapless::Vec<T, N>);

/// The regions held by a region vector, in order.
pub uninterp spec fn region_items(v: heapless::Vec<Region, 8>) -> Seq<Region>;

/// Capacity of a region table.
pub const REGION_CAPACITY: usize = 8;

/// Relies on heapless::Vec::new: the vector starts empty.
#[verifier::external_body]
fn region_vec_new() -> (r: heapless::Vec<Region, 8>)
    ensures
        region_items(r) == Seq::<Region>::empty(),
{
    heapless::Vec::new()
}

/// Relies on heapless::Vec::push: appends while fewer than 8 items are held,
/// and otherwise hands the item back and leaves the vector as it was.
#[verifier::external_body]
fn region_vec_push(v: &mut heapless::Vec<Region, 8>, item: Region) -> (rejected: Option<Region>)
    ensures
        region_items(*old(v)).len() < 8 ==> rejected is None,
        region_items(*old(v)).len() < 8 ==> region_items(*final(v)) == region_items(*old(v)).push(item),
        region_items(*old(v)).len() >= 8 ==> rejected == Some(item),
        region_items(*old(v)).len() >= 8 ==> region_items(*final(v)) == region_items(*old(v)),
{
    v.push(item).err()
}

/// Relies on heapless::Vec's slice view: the number of items held, never above 8.
#[verifier::external_body]
fn region_vec_len(v: &heapless::Vec<Region, 8>) -> (r: usize)
    ensures
        r == region_items(*v).len(),
        r <= 8,
{
    v.as_slice().len()
}

/// Relies on heapless::Vec's slice view: the item at position `i`.
#[verifier::external_body]
fn region_vec_at(v: &heapless::Vec<Region, 8>, i: usize) -> (r: Region)
    requires
        i < region_items(*v).len(),
    ensures
        r == region_items(*v)[i as int],
{
    v.as_slice()[i]
}

} // verus!

verus! {

use crate::KernelError;
use crate::abi;

/// Every region is non-empty and regions appear in increasing address order
/// without overlapping.
pub open spec fn regions_sorted(s: Seq<Region>) -> bool {
    &&& forall|k: int| 0 <= k < s.len() ==> (#[trigger] s[k]).start < s[k].end
    &&& forall|k: int, l: int| 0 <= k < l < s.len() ==> (#[trigger] s[k]).end <= (#[trigger] s[l]).start
}

/// Address `a` lies in a region of `s` whose attributes are `t`.
pub open spec fn maps_to(s: Seq<Region>, a: int, t: RegionAttrs) -> bool {
    exists|k: int| 0 <= k < s.len() && (#[trigger] s[k]).has(a) && s[k].attr == t
}

/// Address `a` lies in some region of `s`.
pub open spec fn covers(s: Seq<Region>, a: int) -> bool {
    exists|k: int| 0 <= k < s.len() && (#[trigger] s[k]).has(a)
}

/// Some single region of `s` holds all of `addr .. addr + len` and has every
/// attribute of `need`.
pub open spec fn permits(s: Seq<Region>, addr: int, len: int, need: RegionAttrs) -> bool {
    exists|k: int|
        0 <= k < s.len() && (#[trigger] s[k]).start <= addr && addr + len <= s[k].end
            && s[k].attr.includes(need)
}

/// How many pieces of `r` lie outside `lo .. hi`.
pub open spec fn outside_pieces(r: Region, lo: int, hi: int) -> nat {
    if r.end <= lo || hi <= r.start {
        1
    } else {
        (if r.start < lo { 1nat } else { 0nat }) + (if hi < r.end { 1nat } else { 0nat })
    }
}

/// How many regions remain once `lo .. hi` is cut out of every region of `s`.
pub open spec fn cut_count(s: Seq<Region>, lo: int, hi: int) -> nat
    decreases s.len(),
{
    if s.len() == 0 {
        0
    } else {
        cut_count(s.drop_last(), lo, hi) + outside_pieces(s.last(), lo, hi)
    }
}

/// Cutting a range out of each region at most doubles their number.
pub proof fn lemma_cut_count_bound(s: Seq<Region>, lo: int, hi: int)
    ensures
        cut_count(s, lo, hi) <= 2 * s.len(),
    decreases s.len(),
{
    if s.len() > 0 {
        lemma_cut_count_bound(s.drop_last(), lo, hi);
    }
}

/// Removing the region at `i` and, where its two neighbours touch it and share
/// attributes, joining them into one.
pub open spec fn joins_neighbours(s: Seq<Region>, i: int) -> bool {
    &&& 0 < i < s.len() - 1
    &&& s[i - 1].end == s[i].start
    &&& s[i + 1].start == s[i].end
    &&& s[i - 1].attr == s[i + 1].attr
}

pub open spec fn popped(s: Seq<Region>, i: int) -> Seq<Region> {
    if joins_neighbours(s, i) {
        s.take(i - 1).push(Region { start: s[i - 1].start, end: s[i + 1].end, attr: s[i - 1].attr })
            + s.skip(i + 2)
    } else {
        s.remove(i)
    }
}

proof fn lemma_maps_to_push(s: Seq<Region>, r: Region)
    ensures
        forall|a: int, t: RegionAttrs|
            #[trigger] maps_to(s.push(r), a, t) <==> (maps_to(s, a, t) || (r.has(a) && r.attr == t)),
        forall|a: int| #[trigger] covers(s.push(r), a) <==> (covers(s, a) || r.has(a)),
{
    let s2 = s.push(r);
    assert forall|a: int, t: RegionAttrs|
        maps_to(s2, a, t) <==> (maps_to(s, a, t) || (r.has(a) && r.attr == t)) by {
        if maps_to(s, a, t) {
            let k = choose|k: int| 0 <= k < s.len() && (#[trigger] s[k]).has(a) && s[k].attr == t;
            assert(s2[k] == s[k]);
        }
        if r.has(a) && r.attr == t {
            assert(s2[s.len() as int] == r);
        }
        if maps_to(s2, a, t) {
            let k = choose|k: int| 0 <= k < s2.len() && (#[trigger] s2[k]).has(a) && s2[k].attr == t;
            if k < s.len() {
                assert(s[k] == s2[k]);
            }
        }
    }
    assert forall|a: int| covers(s2, a) <==> (covers(s, a) || r.has(a)) by {
        if covers(s, a) {
            let k = choose|k: int| 0 <= k < s.len() && (#[trigger] s[k]).has(a);
            assert(s2[k] == s[k]);
        }
        if r.has(a) {
            assert(s2[s.len() as int] == r);
        }
        if covers(s2, a) {
            let k = choose|k: int| 0 <= k < s2.len() && (#[trigger] s2[k]).has(a);
            if k < s.len() {
                assert(s[k] == s2[k]);
            }
        }
    }
}

proof fn lemma_maps_to_insert(s: Seq<Region>, j: int, r: Region)
    requires
        0 <= j <= s.len(),
    ensures
        forall|a: int, t: RegionAttrs|
            #[trigger] maps_to(s.insert(j, r), a, t) <==> (maps_to(s, a, t) || (r.has(a) && r.attr == t)),
        forall|a: int| #[trigger] covers(s.insert(j, r), a) <==> (covers(s, a) || r.has(a)),
{
    let s2 = s.insert(j, r);
    assert forall|a: int, t: RegionAttrs|
        maps_to(s2, a, t) <==> (maps_to(s, a, t) || (r.has(a) && r.attr == t)) by {
        if maps_to(s, a, t) {
            let k = choose|k: int| 0 <= k < s.len() && (#[trigger] s[k]).has(a) && s[k].attr == t;
            if k < j {
                assert(s2[k] == s[k]);
            } else {
                assert(s2[k + 1] == s[k]);
            }
        }
        if r.has(a) && r.attr == t {
            assert(s2[j] == r);
        }
        if maps_to(s2, a, t) {
            let k = choose|k: int| 0 <= k < s2.len() && (#[trigger] s2[k]).has(a) && s2[k].attr == t;
            if k < j {
                assert(s[k] == s2[k]);
            } else if k > j {
                assert(s[k - 1] == s2[k]);
            }
        }
    }
    assert forall|a: int| covers(s2, a) <==> (covers(s, a) || r.has(a)) by {
        if covers(s, a) {
            let k = choose|k: int| 0 <= k < s.len() && (#[trigger] s[k]).has(a);
            if k < j {
                assert(s2[k] == s[k]);
            } else {
                assert(s2[k + 1] == s[k]);
            }
        }
        if r.has(a) {
            assert(s2[j] == r);
        }
        if covers(s2, a) {
            let k = choose|k: int| 0 <= k < s2.len() && (#[trigger] s2[k]).has(a);
            if k < j {
                assert(s[k] == s2[k]);
            } else if k > j {
                assert(s[k - 1] == s2[k]);
            }
        }
    }
}


proof fn lemma_popped_sorted(s: Seq<Region>, i: int)
    requires
        regions_sorted(s),
        0 <= i < s.len(),
    ensures
        regions_sorted(popped(s, i)),
        popped(s, i).len() < s.len(),
{
    let o = popped(s, i);
    let join = joins_neighbours(s, i);
    assert forall|p: int| 0 <= p < o.len() implies (#[trigger] o[p]).start < o[p].end by {
        if join {
            if p < i - 1 {
            } else if p == i - 1 {
                assert(s[i - 1].end <= s[i + 1 as int].start);
            } else {
                assert(o[p] == s[p + 2]);
            }
        } else if p >= i {
            assert(o[p] == s[p + 1]);
        }
    }
    assert forall|p: int, q: int| 0 <= p < q < o.len() implies (#[trigger] o[p]).end
        <= (#[trigger] o[q]).start by {
        if join {
            if q < i - 1 {
            } else if q == i - 1 {
                assert(s[p].end <= s[i - 1].start);
            } else if p < i - 1 {
                assert(o[q] == s[q + 2]);
                assert(s[p].end <= s[q + 2].start);
            } else if p == i - 1 {
                assert(o[q] == s[q + 2]);
                if q + 2 > i + 1 {
                    assert(s[i + 1 as int].end <= s[q + 2].start);
                }
            } else {
                assert(o[q] == s[q + 2] && o[p] == s[p + 2]);
            }
        } else {
            if q < i {
            } else if p < i {
                assert(o[q] == s[q + 1]);
            } else {
                assert(o[q] == s[q + 1] && o[p] == s[p + 1]);
            }
        }
    }
}

/// A region table: at most eight sorted, non-overlapping regions.
pub struct RegionTable {
    regions: heapless::Vec<Region, 8>,
}

impl RegionTable {
    pub closed spec fn view(&self) -> Seq<Region> {
        region_items(self.regions)
    }

    pub open spec fn wf(&self) -> bool {
        self@.len() <= REGION_CAPACITY && regions_sorted(self@)
    }

    /// A table with no regions.
    pub fn new() -> (r: RegionTable)
        ensures
            r@ == Seq::<Region>::empty(),
            r.wf(),
    {
        RegionTable { regions: region_vec_new() }
    }

    /// A table holding `v`, which must already be sorted and fit.
    pub fn from_regions(v: &Vec<Region>) -> (r: RegionTable)
        requires
            v@.len() <= REGION_CAPACITY,
            regions_sorted(v@),
        ensures
            r@ == v@,
            r.wf(),
    {
        let mut regions = region_vec_new();
        let mut i: usize = 0;
        while i < v.len()
            invariant
                i <= v@.len() <= 8,
                region_items(regions) == v@.take(i as int),
            decreases v@.len() - i,
        {
            region_vec_push(&mut regions, v[i]);
            assert(v@.take(i as int).push(v@[i as int]) =~= v@.take(i + 1));
            i = i + 1;
        }
        assert(v@.take(v@.len() as int) =~= v@);
        RegionTable { regions }
    }

    /// The regions of the table, in address order.
    pub fn regions(&self) -> (r: Vec<Region>)
        ensures
            r@ == self@,
    {
        let n = region_vec_len(&self.regions);
        let mut out: Vec<Region> = Vec::new();
        let mut i: usize = 0;
        while i < n
            invariant
                n == self@.len(),
                i <= n,
                out@ == self@.take(i as int),
            decreases n - i,
        {
            out.push(region_vec_at(&self.regions, i));
            assert(self@.take(i as int).push(self@[i as int]) =~= self@.take(i + 1));
            i = i + 1;
        }
        assert(self@.take(n as int) =~= self@);
        out
    }

    /// The number of regions.
    pub fn len(&self) -> (r: usize)
        ensures
            r == self@.len(),
    {
        region_vec_len(&self.regions)
    }

    /// The regions that remain once `lo .. hi` is cut out of each region.
    fn cut(&self, lo: usize, hi: usize) -> (out: Vec<Region>)
        requires
            self.wf(),
            lo < hi,
        ensures
            regions_sorted(out@),
            out@.len() == cut_count(self@, lo as int, hi as int),
            forall|k: int| 0 <= k < out@.len() ==> (#[trigger] out@[k]).end <= lo || hi <= out@[k].start,
            forall|a: int, t: RegionAttrs|
                maps_to(out@, a, t) <==> (!(lo <= a < hi) && maps_to(self@, a, t)),
            forall|a: int| covers(out@, a) <==> (!(lo <= a < hi) && covers(self@, a)),
    {
        let s = Ghost(self@);
        let n = region_vec_len(&self.regions);
        let mut out: Vec<Region> = Vec::new();
        let mut i: usize = 0;
        while i < n
            invariant
                n == s@.len(),
                s@ == self@,
                self.wf(),
                lo < hi,
                i <= n,
                regions_sorted(out@),
                out@.len() == cut_count(s@.take(i as int), lo as int, hi as int),
                forall|k: int| 0 <= k < out@.len() ==> (#[trigger] out@[k]).end <= lo || hi <= out@[k].start,
                forall|k: int, j: int|
                    0 <= k < out@.len() && i <= j < n ==> (#[trigger] out@[k]).end <= (#[trigger] s@[j]).start,
                forall|a: int, t: RegionAttrs|
                    maps_to(out@, a, t) <==> (!(lo <= a < hi) && maps_to(s@.take(i as int), a, t)),
                forall|a: int| covers(out@, a) <==> (!(lo <= a < hi) && covers(s@.take(i as int), a)),
            decreases n - i,
        {
            let r = region_vec_at(&self.regions, i);
            let ghost before = out@;
            proof {
                assert(s@.take(i as int).push(r) =~= s@.take(i + 1));
                assert(s@.take(i + 1).drop_last() =~= s@.take(i as int));
                lemma_maps_to_push(s@.take(i as int), r);
            }
            if r.end <= lo || hi <= r.start {
                out.push(r);
                proof {
                    lemma_maps_to_push(before, r);
                }
            } else {
                if r.start < lo {
                    let left = Region { start: r.start, end: lo, attr: r.attr };
                    out.push(left);
                    proof {
                        lemma_maps_to_push(before, left);
                    }
                }
                let ghost mid = out@;
                assert forall|a: int, t: RegionAttrs| maps_to(mid, a, t) <==> (maps_to(before, a, t) || (r.has(a) && a < lo && r.attr == t)) by {
                    if r.start < lo {
                        lemma_maps_to_push(before, Region { start: r.start, end: lo, attr: r.attr });
                        assert(mid == before.push(Region { start: r.start, end: lo, attr: r.attr }));
                    } else {
                        assert(mid == before);
                    }
                }
                assert forall|a: int| covers(mid, a) <==> (covers(before, a) || (r.has(a) && a < lo)) by {
                    if r.start < lo {
                        lemma_maps_to_push(before, Region { start: r.start, end: lo, attr: r.attr });
                        assert(mid == before.push(Region { start: r.start, end: lo, attr: r.attr }));
                    } else {
                        assert(mid == before);
                    }
                }
                if hi < r.end {
                    let right = Region { start: hi, end: r.end, attr: r.attr };
                    out.push(right);
                    proof {
                        lemma_maps_to_push(mid, right);
                    }
                }
                assert forall|a: int, t: RegionAttrs| maps_to(out@, a, t) <==> (maps_to(mid, a, t) || (r.has(a) && hi <= a && r.attr == t)) by {
                    if hi < r.end {
                        lemma_maps_to_push(mid, Region { start: hi, end: r.end, attr: r.attr });
                        assert(out@ == mid.push(Region { start: hi, end: r.end, attr: r.attr }));
                    } else {
                        assert(out@ == mid);
                    }
                }
                assert forall|a: int| covers(out@, a) <==> (covers(mid, a) || (r.has(a) && hi <= a)) by {
                    if hi < r.end {
                        lemma_maps_to_push(mid, Region { start: hi, end: r.end, attr: r.attr });
                        assert(out@ == mid.push(Region { start: hi, end: r.end, attr: r.attr }));
                    } else {
                        assert(out@ == mid);
                    }
                }
            }
            proof {
                let ti = s@.take(i as int);
                let t1 = s@.take(i + 1);
                assert forall|a: int, t: RegionAttrs|
                    maps_to(out@, a, t) <==> (!(lo <= a < hi) && maps_to(t1, a, t)) by {
                    assert(maps_to(t1, a, t) <==> (maps_to(ti, a, t) || (r.has(a) && r.attr == t)));
                    assert(maps_to(before, a, t) <==> (!(lo <= a < hi) && maps_to(ti, a, t)));
                }
                assert forall|a: int| covers(out@, a) <==> (!(lo <= a < hi) && covers(t1, a)) by {
                    assert(covers(t1, a) <==> (covers(ti, a) || r.has(a)));
                    assert(covers(before, a) <==> (!(lo <= a < hi) && covers(ti, a)));
                }
                assert forall|k: int, j: int|
                    0 <= k < out@.len() && i + 1 <= j < n implies (#[trigger] out@[k]).end <= (
                    #[trigger] s@[j]).start by {
                    if k < before.len() {
                        assert(out@[k] == before[k]);
                    }
                    assert(s@[i as int].end <= s@[j].start);
                }
                assert forall|k: int, l: int| 0 <= k < l < out@.len() implies (#[trigger] out@[k]).end
                    <= (#[trigger] out@[l]).start by {
                    if l < before.len() {
                        assert(out@[k] == before[k] && out@[l] == before[l]);
                    } else if k < before.len() {
                        assert(out@[k] == before[k]);
                        assert(before[k].end <= s@[i as int].start);
                    }
                }
            }
            i = i + 1;
        }
        assert(s@.take(n as int) =~= s@);
        out
    }

    /// Adds `region`: the parts of existing regions that overlap it are cut
    /// away, so afterwards every address of `region` has exactly its
    /// attributes and every other address keeps what it had. When the result
    /// would need more than eight regions the table is left as it was and
    /// `BufferOverflow` is returned. An empty region changes nothing.
    pub fn push(&mut self, region: Region) -> (r: Result<(), KernelError>)
        requires
            old(self).wf(),
        ensures
            final(self).wf(),
            region.start >= region.end ==> r is Ok && final(self)@ == old(self)@,
            region.start < region.end ==> (r is Ok <==> cut_count(
                old(self)@,
                region.start as int,
                region.end as int,
            ) < REGION_CAPACITY),
            r is Err ==> r == Err::<(), KernelError>(KernelError::ABI(abi::Error::BufferOverflow))
                && final(self)@ == old(self)@,
            r is Ok ==> forall|a: int, t: RegionAttrs|
                maps_to(final(self)@, a, t) <==> (if region.has(a) {
                    t == region.attr
                } else {
                    maps_to(old(self)@, a, t)
                }),
            r is Ok ==> forall|a: int| covers(final(self)@, a) <==> (region.has(a) || covers(old(self)@, a)),
            r is Ok && region.start < region.end ==> final(self)@.len() == cut_count(old(self)@, region.start as int, region.end as int) + 1,
            r is Ok && region.start < region.end ==> final(self)@.contains(region),
    {
        if region.start >= region.end {
            return Ok(());
        }
        let out = self.cut(region.start, region.end);
        if out.len() >= REGION_CAPACITY {
            return Err(KernelError::ABI(abi::Error::BufferOverflow));
        }
        let mut j: usize = 0;
        while j < out.len() && out[j].start < region.end
            invariant
                j <= out@.len(),
                forall|k: int| 0 <= k < j ==> (#[trigger] out@[k]).end <= region.start,
                forall|k: int| 0 <= k < out@.len() ==> (#[trigger] out@[k]).end <= region.start || region.end <= out@[k].start,
                regions_sorted(out@),
            decreases out@.len() - j,
        {
            j = j + 1;
        }
        let ghost res = out@.insert(j as int, region);
        proof {
            lemma_maps_to_insert(out@, j as int, region);
            assert forall|k: int, l: int| 0 <= k < l < res.len() implies (#[trigger] res[k]).end
                <= (#[trigger] res[l]).start by {
                if l < j {
                } else if l == j {
                } else if k < j {
                    assert(res[l] == out@[l - 1]);
                } else if k == j {
                    assert(res[l] == out@[l - 1]);
                    assert(out@[j as int].start <= out@[l - 1].start) by {
                        if l - 1 > j {
                            assert(out@[j as int].end <= out@[l - 1].start);
                        }
                    }
                } else {
                    assert(res[l] == out@[l - 1] && res[k] == out@[k - 1]);
                }
            }
            assert forall|k: int| 0 <= k < res.len() implies (#[trigger] res[k]).start < res[k].end by {
                if k < j {
                } else if k > j {
                    assert(res[k] == out@[k - 1]);
                }
            }
        }
        let mut regions = region_vec_new();
        let mut i: usize = 0;
        while i < j
            invariant
                j <= out@.len() < 8,
                i <= j,
                region_items(regions) == out@.take(i as int),
            decreases j - i,
        {
            region_vec_push(&mut regions, out[i]);
            assert(out@.take(i as int).push(out@[i as int]) =~= out@.take(i + 1));
            i = i + 1;
        }
        region_vec_push(&mut regions, region);
        while i < out.len()
            invariant
                j <= i <= out@.len() < 8,
                region_items(regions) == out@.take(j as int).push(region) + out@.subrange(j as int, i as int),
            decreases out@.len() - i,
        {
            region_vec_push(&mut regions, out[i]);
            assert(out@.take(j as int).push(region) + out@.subrange(j as int, i + 1) =~= (out@.take(j as int).push(region) + out@.subrange(j as int, i as int)).push(out@[i as int]));
            i = i + 1;
        }
        assert(out@.take(j as int).push(region) + out@.subrange(j as int, out@.len() as int) =~= res);
        assert(res[j as int] == region);
        self.regions = regions;
        Ok(())
    }

    /// Removes the region equal to `region`. Where the regions on both sides
    /// touch it and have the same attributes they are joined into one. A
    /// table without such a region is left as it was.
    pub fn pop(&mut self, region: Region)
        requires
            old(self).wf(),
        ensures
            final(self).wf(),
            !old(self)@.contains(region) ==> final(self)@ == old(self)@,
            forall|i: int|
                0 <= i < old(self)@.len() && old(self)@[i] == region ==> final(self)@ == popped(
                    old(self)@,
                    i,
                ),
    {
        let s = Ghost(self@);
        let n = region_vec_len(&self.regions);
        let mut i: usize = 0;
        let mut found = false;
        while i < n && !found
            invariant
                n == s@.len(),
                s@ == self@,
                i <= n,
                found ==> i < n && s@[i as int] == region,
                forall|k: int| 0 <= k < i ==> s@[k] != region,
            decreases n - i + (if found { 0int } else { 1int }),
        {
            if region_vec_at(&self.regions, i) == region {
                found = true;
            } else {
                i = i + 1;
            }
        }
        if !found {
            assert(!s@.contains(region));
            return;
        }
        proof {
            assert forall|k: int| 0 <= k < s@.len() && s@[k] == region implies k == i by {
                if k != i {
                    if k < i {
                    } else {
                        assert(s@[i as int].end <= s@[k].start);
                        assert(s@[k].start < s@[k].end);
                    }
                }
            }
        }
        let mut out: Vec<Region> = Vec::new();
        let join = i > 0 && i + 1 < n && region_vec_at(&self.regions, i - 1).end == region.start
            && region_vec_at(&self.regions, i + 1).start == region.end
            && region_vec_at(&self.regions, i - 1).attr == region_vec_at(&self.regions, i + 1).attr;
        let ghost target = popped(s@, i as int);
        let skip_to: usize = if join { i + 2 } else { i + 1 };
        let keep_to: usize = if join { i - 1 } else { i };
        let mut k: usize = 0;
        while k < keep_to
            invariant
                n == s@.len(),
                s@ == self@,
                keep_to <= i < n,
                k <= keep_to,
                out@ == s@.take(k as int),
            decreases keep_to - k,
        {
            out.push(region_vec_at(&self.regions, k));
            assert(s@.take(k as int).push(s@[k as int]) =~= s@.take(k + 1));
            k = k + 1;
        }
        if join {
            out.push(
                Region {
                    start: region_vec_at(&self.regions, i - 1).start,
                    end: region_vec_at(&self.regions, i + 1).end,
                    attr: region_vec_at(&self.regions, i - 1).attr,
                },
            );
        }
        let ghost head = out@;
        k = skip_to;
        while k < n
            invariant
                n == s@.len(),
                s@ == self@,
                skip_to <= n,
                skip_to <= k <= n,
                out@ == head + s@.subrange(skip_to as int, k as int),
            decreases n - k,
        {
            out.push(region_vec_at(&self.regions, k));
            assert(head + s@.subrange(skip_to as int, k + 1) =~= (head + s@.subrange(skip_to as int, k as int)).push(s@[k as int]));
            k = k + 1;
        }
        proof {
            if join {
                assert(out@ =~= target);
            } else {
                assert(out@ =~= s@.remove(i as int));
            }
            lemma_popped_sorted(s@, i as int);
        }
        let t = RegionTable::from_regions(&out);
        self.regions = t.regions;
    }

    /// Whether one region holds all of `addr .. addr + len` and has every
    /// attribute in `need`. A range that runs past the end of the address
    /// space is never permitted.
    pub fn permits(&self, addr: usize, len: usize, need: RegionAttrs) -> (r: bool)
        ensures
            r == (addr + len <= usize::MAX && permits(self@, addr as int, len as int, need)),
    {
        if len > usize::MAX - addr {
            return false;
        }
        let end = addr + len;
        let n = region_vec_len(&self.regions);
        let mut i: usize = 0;
        while i < n
            invariant
                n == self@.len(),
                i <= n,
                end == addr + len,
                forall|k: int|
                    0 <= k < i ==> !((#[trigger] self@[k]).start <= addr && addr + len <= self@[k].end
                        && self@[k].attr.includes(need)),
            decreases n - i,
        {
            let r = region_vec_at(&self.regions, i);
            if r.start <= addr && end <= r.end && r.attr.contains_all(need) {
                return true;
            }
            i = i + 1;
        }
        false
    }

    /// Cuts `start .. end` out of every region, so that afterwards no address
    /// of that range is covered and every other address keeps its
    /// attributes. When more than eight regions would remain the table is
    /// left as it was and `BufferOverflow` is returned.
    pub fn carve(&mut self, start: usize, end: usize) -> (r: Result<(), KernelError>)
        requires
            old(self).wf(),
        ensures
            final(self).wf(),
            start >= end ==> r is Ok && final(self)@ == old(self)@,
            start < end ==> (r is Ok <==> cut_count(old(self)@, start as int, end as int) <= REGION_CAPACITY),
            r is Err ==> r == Err::<(), KernelError>(KernelError::ABI(abi::Error::BufferOverflow))
                && final(self)@ == old(self)@,
            r is Ok ==> forall|a: int, t: RegionAttrs|
                maps_to(final(self)@, a, t) <==> (!(start <= a < end) && maps_to(old(self)@, a, t)),
    {
        if start >= end {
            return Ok(());
        }
        let out = self.cut(start, end);
        if out.len() > REGION_CAPACITY {
            return Err(KernelError::ABI(abi::Error::BufferOverflow));
        }
        let t = RegionTable::from_regions(&out);
        self.regions = t.regions;
        Ok(())
    }
}

} // verus!

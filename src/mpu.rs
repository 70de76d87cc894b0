//! The memory-protection program derived from a region table: one slot per
//! region, with access, shareability, execute-never and memory-type bits
//! chosen from the region's attributes.
use vstd::prelude::*;
use crate::regions::{Region, RegionAttrs, RegionTable};

verus! {

/// Access-permission field: read/write, read-only or none.
pub open spec fn ap_of(a: RegionAttrs) -> u32 {
    if a.write {
        0b01
    } else if a.read {
        0b11
    } else {
        0b00
    }
}

/// Shareability field: device and DMA memory are outer shareable.
pub open spec fn sh_of(a: RegionAttrs) -> u32 {
    if a.device || a.dma {
        0b10
    } else {
        0b00
    }
}

/// Memory-type byte: device memory; non-cacheable DMA memory; or write-back
/// normal memory with read/write allocation hints from the attributes.
pub open spec fn mair_of(a: RegionAttrs) -> u32 {
    if a.device {
        0b0000_0000
    } else if a.dma {
        0b0100_0100
    } else {
        0b0100_0100 | rw_of(a) | (rw_of(a) << 4u32)
    }
}

pub open spec fn rw_of(a: RegionAttrs) -> u32 {
    (if a.read { 2u32 } else { 0u32 }) | (if a.write { 1u32 } else { 0u32 })
}

/// Execute-never bit.
pub open spec fn xn_of(a: RegionAttrs) -> u32 {
    if a.executable {
        0
    } else {
        1
    }
}

pub open spec fn rbar_of(r: Region) -> u32 {
    xn_of(r.attr) | (ap_of(r.attr) << 1u32) | (sh_of(r.attr) << 3u32) | (r.start as u32)
}

pub open spec fn rlar_of(slot: u32, r: Region) -> u32 {
    (r.end as u32) | (slot << 1u32) | 1u32
}

/// The words programmed into one MPU slot.
#[derive(Clone, Copy, Debug, PartialEq, Eq, Structural)]
pub struct MpuSlot {
    pub rnr: u32,
    pub rbar: u32,
    pub rlar: u32,
}

pub open spec fn slot_of(slot: u32, r: Region) -> MpuSlot {
    MpuSlot { rnr: slot, rbar: rbar_of(r), rlar: rlar_of(slot, r) }
}

/// The memory-type byte of slot `k`, zero where there is no region.
pub open spec fn mair_byte(s: Seq<Region>, k: int) -> u32 {
    if 0 <= k < s.len() {
        mair_of(s[k].attr)
    } else {
        0
    }
}

/// The memory-type word that covers slots `base .. base + 4`.
pub open spec fn mair_word(s: Seq<Region>, base: int) -> u32 {
    mair_byte(s, base) | (mair_byte(s, base + 1) << 8u32) | (mair_byte(s, base + 2) << 16u32) | (
    mair_byte(s, base + 3) << 24u32)
}

/// A complete MPU program: disable, write every slot and both memory-type
/// words, then enable with the privileged default map and issue barriers.
#[derive(Clone, Debug, PartialEq, Eq)]
pub struct MpuProgram {
    pub slots: Vec<MpuSlot>,
    pub mair0: u32,
    pub mair1: u32,
}

/// Number of MPU slots.
pub const MPU_SLOTS: usize = 8;

/// A slot with its enable bit clear.
pub open spec fn disabled_slot(slot: u32) -> MpuSlot {
    MpuSlot { rnr: slot, rbar: 0, rlar: 0 }
}

impl MpuProgram {
    /// The program is exactly the one derived from `s`: slot `k` holds
    /// region `k`, and every slot past the last region is disabled.
    pub open spec fn derived_from(&self, s: Seq<Region>) -> bool {
        &&& self.slots@.len() == MPU_SLOTS
        &&& forall|k: int| 0 <= k < s.len() ==> #[trigger] self.slots@[k] == slot_of(k as u32, s[k])
        &&& forall|k: int| s.len() <= k < MPU_SLOTS ==> #[trigger] self.slots@[k] == disabled_slot(k as u32)
        &&& self.mair0 == mair_word(s, 0)
        &&& self.mair1 == mair_word(s, 4)
    }
}

/// Control-register value while slots are written.
pub const MPU_CTRL_DISABLE: u32 = 0b100;

/// Control-register value once the program is in place.
pub const MPU_CTRL_ENABLE: u32 = 0b101;

fn mair_of_exec(a: RegionAttrs) -> (r: u32)
    ensures
        r == mair_of(a),
        r < 256,
{
    if a.device {
        0
    } else if a.dma {
        0b0100_0100
    } else {
        let hi: u32 = if a.read { 2u32 } else { 0u32 };
        let lo: u32 = if a.write { 1u32 } else { 0u32 };
        let rw: u32 = hi | lo;
        assert(rw < 4) by (bit_vector)
            requires
                hi == 0 || hi == 2,
                lo == 0 || lo == 1,
                rw == hi | lo,
        ;
        let m = 0b0100_0100u32 | rw | (rw << 4u32);
        assert(m < 256) by (bit_vector)
            requires
                rw < 4,
                m == 0b0100_0100u32 | rw | (rw << 4u32),
        ;
        m
    }
}

/// The words for slot `slot` holding `r`.
pub fn region_slot(slot: u32, r: &Region) -> (s: MpuSlot)
    ensures
        s == slot_of(slot, *r),
{
    let a = r.attr;
    let ap: u32 = if a.write {
        0b01
    } else if a.read {
        0b11
    } else {
        0b00
    };
    let sh: u32 = if a.device || a.dma {
        0b10
    } else {
        0b00
    };
    let xn: u32 = if a.executable {
        0
    } else {
        1
    };
    let rbar = xn | (ap << 1u32) | (sh << 3u32) | (r.start as u32);
    let rlar = (r.end as u32) | (slot << 1u32) | 1u32;
    MpuSlot { rnr: slot, rbar, rlar }
}

/// The program for a region table.
pub fn region_program(table: &RegionTable) -> (p: MpuProgram)
    requires
        table.wf(),
    ensures
        p.derived_from(table@),
{
    let regions = table.regions();
    let n = regions.len();
    let mut slots: Vec<MpuSlot> = Vec::new();
    let mut mairs: Vec<u32> = Vec::new();
    let mut i: usize = 0;
    while i < 8
        invariant
            regions@ == table@,
            n == regions@.len() <= 8,
            i <= 8,
            slots@.len() == i,
            mairs@.len() == i,
            forall|k: int| 0 <= k < i && k < n ==> #[trigger] slots@[k] == slot_of(k as u32, table@[k]),
            forall|k: int| n <= k < i ==> #[trigger] slots@[k] == disabled_slot(k as u32),
            forall|k: int| 0 <= k < i ==> #[trigger] mairs@[k] == mair_byte(table@, k),
        decreases 8 - i,
    {
        if i < n {
            slots.push(region_slot(i as u32, &regions[i]));
            mairs.push(mair_of_exec(regions[i].attr));
        } else {
            slots.push(MpuSlot { rnr: i as u32, rbar: 0, rlar: 0 });
            mairs.push(0);
        }
        i = i + 1;
    }
    let mair0 = mairs[0] | (mairs[1] << 8u32) | (mairs[2] << 16u32) | (mairs[3] << 24u32);
    let mair1 = mairs[4] | (mairs[5] << 8u32) | (mairs[6] << 16u32) | (mairs[7] << 24u32);
    MpuProgram { slots, mair0, mair1 }
}

/// What the hardware is given for a table: slot `k` of a program derived
/// from a table of 32-byte-aligned regions below 4 GiB has base `start` and
/// limit `end` of region `k`, execute-never exactly when the region is not
/// executable, and the access field of the region's attributes; slots past
/// the table's regions are disabled.
pub proof fn lemma_program_reflects_table(p: &MpuProgram, s: Seq<Region>, k: int)
    requires
        p.derived_from(s),
        0 <= k < s.len(),
        s[k].start < 0x1_0000_0000 && s[k].start % 32 == 0,
        s[k].end < 0x1_0000_0000 && s[k].end % 32 == 0,
        k < 8,
    ensures
        p.slots@.len() == MPU_SLOTS,
        p.slots@[k].rnr == k,
        p.slots@[k].rbar & !0x1fu32 == s[k].start as u32,
        p.slots@[k].rlar & !0x1fu32 == s[k].end as u32,
        p.slots@[k].rlar & 1u32 == 1u32,
        (p.slots@[k].rbar & 1u32 == 0u32) <==> s[k].attr.executable,
        (p.slots@[k].rbar >> 1u32) & 3u32 == ap_of(s[k].attr),
        forall|j: int| s.len() <= j < MPU_SLOTS ==> p.slots@[j].rlar & 1u32 == 0u32,
{
    assert(0u32 & 1u32 == 0u32) by (bit_vector);
    assert forall|j: int| s.len() <= j < MPU_SLOTS implies p.slots@[j].rlar & 1u32 == 0u32 by {
        assert(p.slots@[j] == disabled_slot(j as u32));
    }
    let a = s[k].attr;
    let st = s[k].start as u32;
    let en = s[k].end as u32;
    let xn = xn_of(a);
    let ap = ap_of(a);
    let sh = sh_of(a);
    let slot = k as u32;
    assert(st % 32 == 0 && en % 32 == 0);
    assert((xn | (ap << 1u32) | (sh << 3u32) | st) & !0x1fu32 == st
        && (((xn | (ap << 1u32) | (sh << 3u32) | st) & 1u32 == 0u32) <==> xn == 0)
        && ((xn | (ap << 1u32) | (sh << 3u32) | st) >> 1u32) & 3u32 == ap) by (bit_vector)
        requires
            xn < 2,
            ap < 4,
            sh < 4,
            st % 32 == 0,
    ;
    assert((en | (slot << 1u32) | 1u32) & !0x1fu32 == en && (en | (slot << 1u32) | 1u32) & 1u32 == 1u32)
        by (bit_vector)
        requires
            en % 32 == 0,
            slot < 8,
    ;
}

} // verus!

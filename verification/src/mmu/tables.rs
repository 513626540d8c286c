//! Multi-level page-table construction: a three-level hierarchy whose
//! first 2 MiB are mapped by 4 KiB page entries and whose remaining
//! span is mapped by 2 MiB block entries, with attributes derived per
//! region from the classifier inputs (RAM limits and kernel layout).

use vstd::prelude::*;
use crate::mmu::layout::{KernelLayout, MemLimits, MMIO_BASE};
use crate::mmu::paging::{
    block_out_addr, desc_af, desc_ap, desc_attr_idx, desc_out_addr, desc_pxn, desc_sh,
    desc_table_or_page, desc_valid, desc_xn, AccessPermission, BlockDescriptor, MemAttrIdx,
    PageDescriptor, Shareability, TableDescriptor, DESC_ADDR_MASK, L2_ADDR_MASK,
};

verus! {

/// Entries per table: one page of 64-bit words.
pub const ENTRIES_PER_PAGE: usize = 512;

/// Size of a level-2 block mapping: 2 MiB.
pub const BLOCK_SIZE: u64 = 0x0020_0000;

/// What a region of the address space is used for, and hence which
/// attributes its mapping carries.
#[derive(Clone, Copy, Debug, PartialEq, Eq, Structural)]
pub enum RegionKind {
    NormalWritable,
    NormalReadOnlyCode,
    Device,
    Unmapped,
}

/// The classifier inputs must name regions whose ends fit in the
/// address space.
pub open spec fn limits_wf(limits: MemLimits) -> bool {
    &&& limits.arm_base + limits.arm_size <= u64::MAX
    &&& limits.vc_base + limits.vc_size <= u64::MAX
}

/// Region of a page in the page-mapped span: below the loaded image it
/// is ordinary working memory, the image's code range is read-only
/// code, and everything after the code is working memory again.
pub open spec fn classify_page_s(layout: KernelLayout, addr: u64) -> RegionKind {
    if addr < layout.load_addr {
        RegionKind::NormalWritable
    } else if addr < layout.code_end {
        RegionKind::NormalReadOnlyCode
    } else {
        RegionKind::NormalWritable
    }
}

pub open spec fn sram_end_block_s(limits: MemLimits) -> int {
    (limits.arm_base + limits.arm_size) / (BLOCK_SIZE as int)
}

pub open spec fn vc_end_block_s(limits: MemLimits) -> int {
    (limits.vc_base + limits.vc_size) / (BLOCK_SIZE as int)
}

pub open spec fn mmio_start_block_s() -> int {
    MMIO_BASE as int / BLOCK_SIZE as int
}

/// Region of a 2 MiB block: RAM below the ARM memory limit, device
/// memory for the GPU-shared region and the peripheral window, and
/// unmapped in between.
pub open spec fn classify_block_s(limits: MemLimits, i: int) -> RegionKind {
    if i < sram_end_block_s(limits) {
        RegionKind::NormalWritable
    } else if i < vc_end_block_s(limits) || i >= mmio_start_block_s() {
        RegionKind::Device
    } else {
        RegionKind::Unmapped
    }
}

/// Attribute bits a terminal descriptor carries for each region kind:
/// access flag always set; normal memory inner-shareable with the
/// normal attribute index; device memory outer-shareable with the
/// device attribute index; execute-never at both privilege levels for
/// everything but the code range; the code range read-only.
pub open spec fn region_attr_bits(kind: RegionKind) -> u64 {
    match kind {
        RegionKind::NormalWritable => (1u64 << 54) | (1u64 << 53) | (1u64 << 10) | (0b11u64 << 8),
        RegionKind::NormalReadOnlyCode => (1u64 << 10) | (0b11u64 << 8) | (0b10u64 << 6),
        RegionKind::Device => (1u64 << 54) | (1u64 << 53) | (1u64 << 10) | (0b10u64 << 8) | (1u64
            << 2),
        RegionKind::Unmapped => 0,
    }
}

/// The 64-bit word of a level-3 page entry mapping `addr` as `kind`.
pub open spec fn page_entry_s(addr: u64, kind: RegionKind) -> u64 {
    if kind == RegionKind::Unmapped {
        0
    } else {
        0b11u64 | (addr & DESC_ADDR_MASK) | region_attr_bits(kind)
    }
}

/// The 64-bit word of a level-2 block entry mapping `addr` as `kind`.
pub open spec fn block_entry_s(addr: u64, kind: RegionKind) -> u64 {
    if kind == RegionKind::Unmapped {
        0
    } else {
        0b01u64 | (addr & L2_ADDR_MASK) | region_attr_bits(kind)
    }
}

/// The 64-bit word of a table entry pointing at the next level's table.
pub open spec fn table_entry_s(addr: u64) -> u64 {
    0b11u64 | (addr & DESC_ADDR_MASK) | (1u64 << 10)
}

/// The level-2 table the builder produces: slot 0 points at the
/// level-3 table, every other slot block-maps its 2 MiB of the span.
pub open spec fn built_l2_s(limits: MemLimits, l3_addr: u64) -> Seq<u64> {
    Seq::new(
        ENTRIES_PER_PAGE as nat,
        |i: int|
            if i == 0 {
                table_entry_s(l3_addr)
            } else {
                block_entry_s((i * BLOCK_SIZE) as u64, classify_block_s(limits, i))
            },
    )
}

/// The level-3 table the builder produces: one page entry per 4 KiB of
/// the first 2 MiB.
pub open spec fn built_l3_s(layout: KernelLayout) -> Seq<u64> {
    Seq::new(
        ENTRIES_PER_PAGE as nat,
        |j: int| page_entry_s((j * 4096) as u64, classify_page_s(layout, (j * 4096) as u64)),
    )
}

pub fn classify_page(layout: &KernelLayout, addr: u64) -> (r: RegionKind)
    ensures
        r == classify_page_s(*layout, addr),
{
    if addr < layout.load_addr {
        RegionKind::NormalWritable
    } else if addr < layout.code_end {
        RegionKind::NormalReadOnlyCode
    } else {
        RegionKind::NormalWritable
    }
}

pub fn classify_block(limits: &MemLimits, i: u64) -> (r: RegionKind)
    requires
        limits_wf(*limits),
    ensures
        r == classify_block_s(*limits, i as int),
{
    let sram_end = (limits.arm_base + limits.arm_size) / BLOCK_SIZE;
    let vc_end = (limits.vc_base + limits.vc_size) / BLOCK_SIZE;
    let mmio_start = MMIO_BASE / BLOCK_SIZE;
    if i < sram_end {
        RegionKind::NormalWritable
    } else if i < vc_end || i >= mmio_start {
        RegionKind::Device
    } else {
        RegionKind::Unmapped
    }
}

/// Builds the level-3 page entry word through the descriptor type.
pub fn page_entry(addr: u64, kind: RegionKind) -> (r: u64)
    ensures
        r == page_entry_s(addr, kind),
{
    match kind {
        RegionKind::Unmapped => PageDescriptor::invalid().value,
        RegionKind::NormalWritable => {
            let mut d = PageDescriptor::new(addr);
            d.set_af(true);
            d.set_sh(Shareability::Inner);
            d.set_attr_idx(MemAttrIdx::Normal);
            d.set_ap(AccessPermission::PrivilegedReadWrite);
            d.set_xn(true);
            d.set_pxn(true);
            proof {
                let a = addr;
                assert((((((((0b11u64 | (a & 0x0000_FFFF_FFFF_F000u64)) | (1u64 << 10)) & !(0b11u64
                    << 8) | (0b11u64 << 8)) & !(0b111u64 << 2) | (0u64 << 2)) & !(0b11u64 << 6) | (
                0u64 << 6)) | (1u64 << 54)) | (1u64 << 53)) == 0b11u64 | (a
                    & 0x0000_FFFF_FFFF_F000u64) | ((1u64 << 54) | (1u64 << 53) | (1u64 << 10) | (
                0b11u64 << 8))) by (bit_vector);
            }
            d.value
        },
        RegionKind::NormalReadOnlyCode => {
            let mut d = PageDescriptor::new(addr);
            d.set_af(true);
            d.set_sh(Shareability::Inner);
            d.set_attr_idx(MemAttrIdx::Normal);
            d.set_ap(AccessPermission::PrivilegedReadOnly);
            proof {
                let a = addr;
                assert(((((0b11u64 | (a & 0x0000_FFFF_FFFF_F000u64)) | (1u64 << 10)) & !(0b11u64
                    << 8) | (0b11u64 << 8)) & !(0b111u64 << 2) | (0u64 << 2)) & !(0b11u64 << 6) | (
                0b10u64 << 6) == 0b11u64 | (a & 0x0000_FFFF_FFFF_F000u64) | ((1u64 << 10) | (0b11u64
                    << 8) | (0b10u64 << 6))) by (bit_vector);
            }
            d.value
        },
        RegionKind::Device => {
            let mut d = PageDescriptor::new(addr);
            d.set_af(true);
            d.set_sh(Shareability::Outer);
            d.set_attr_idx(MemAttrIdx::Device);
            d.set_ap(AccessPermission::PrivilegedReadWrite);
            d.set_xn(true);
            d.set_pxn(true);
            proof {
                let a = addr;
                assert((((((((0b11u64 | (a & 0x0000_FFFF_FFFF_F000u64)) | (1u64 << 10)) & !(0b11u64
                    << 8) | (0b10u64 << 8)) & !(0b111u64 << 2) | (1u64 << 2)) & !(0b11u64 << 6) | (
                0u64 << 6)) | (1u64 << 54)) | (1u64 << 53)) == 0b11u64 | (a
                    & 0x0000_FFFF_FFFF_F000u64) | ((1u64 << 54) | (1u64 << 53) | (1u64 << 10) | (
                0b10u64 << 8) | (1u64 << 2))) by (bit_vector);
            }
            d.value
        },
    }
}

/// Builds the level-2 block entry word through the descriptor type.
pub fn block_entry(addr: u64, kind: RegionKind) -> (r: u64)
    ensures
        r == block_entry_s(addr, kind),
{
    match kind {
        RegionKind::Unmapped => BlockDescriptor::invalid().value,
        RegionKind::NormalWritable => {
            let mut d = BlockDescriptor::level2(addr);
            d.set_af(true);
            d.set_xn(true);
            d.set_pxn(true);
            d.set_sh(Shareability::Inner);
            d.set_attr_idx(MemAttrIdx::Normal);
            d.set_ap(AccessPermission::PrivilegedReadWrite);
            proof {
                let a = addr;
                assert((((((((0b01u64 | (a & 0x0000_FFFF_FFE0_0000u64)) | (1u64 << 10)) | (1u64
                    << 54)) | (1u64 << 53)) & !(0b11u64 << 8) | (0b11u64 << 8)) & !(0b111u64 << 2)
                    | (0u64 << 2)) & !(0b11u64 << 6) | (0u64 << 6)) == 0b01u64 | (a
                    & 0x0000_FFFF_FFE0_0000u64) | ((1u64 << 54) | (1u64 << 53) | (1u64 << 10) | (
                0b11u64 << 8))) by (bit_vector);
            }
            d.value
        },
        RegionKind::NormalReadOnlyCode => {
            let mut d = BlockDescriptor::level2(addr);
            d.set_af(true);
            d.set_sh(Shareability::Inner);
            d.set_attr_idx(MemAttrIdx::Normal);
            d.set_ap(AccessPermission::PrivilegedReadOnly);
            proof {
                let a = addr;
                assert(((((0b01u64 | (a & 0x0000_FFFF_FFE0_0000u64)) | (1u64 << 10)) & !(0b11u64
                    << 8) | (0b11u64 << 8)) & !(0b111u64 << 2) | (0u64 << 2)) & !(0b11u64 << 6) | (
                0b10u64 << 6) == 0b01u64 | (a & 0x0000_FFFF_FFE0_0000u64) | ((1u64 << 10) | (0b11u64
                    << 8) | (0b10u64 << 6))) by (bit_vector);
            }
            d.value
        },
        RegionKind::Device => {
            let mut d = BlockDescriptor::level2(addr);
            d.set_af(true);
            d.set_xn(true);
            d.set_pxn(true);
            d.set_sh(Shareability::Outer);
            d.set_attr_idx(MemAttrIdx::Device);
            d.set_ap(AccessPermission::PrivilegedReadWrite);
            proof {
                let a = addr;
                assert((((((((0b01u64 | (a & 0x0000_FFFF_FFE0_0000u64)) | (1u64 << 10)) | (1u64
                    << 54)) | (1u64 << 53)) & !(0b11u64 << 8) | (0b10u64 << 8)) & !(0b111u64 << 2)
                    | (1u64 << 2)) & !(0b11u64 << 6) | (0u64 << 6)) == 0b01u64 | (a
                    & 0x0000_FFFF_FFE0_0000u64) | ((1u64 << 54) | (1u64 << 53) | (1u64 << 10) | (
                0b10u64 << 8) | (1u64 << 2))) by (bit_vector);
            }
            d.value
        },
    }
}

/// Builds a table entry word through the descriptor type.
pub fn table_entry(addr: u64) -> (r: u64)
    ensures
        r == table_entry_s(addr),
{
    let mut d = TableDescriptor::new(addr);
    d.set_af(true);
    d.value
}

/// The three tables of the boot translation hierarchy, intended to
/// live consecutively (one page each) at `base`.
pub struct PageTables {
    base: u64,
    l1_table: Vec<u64>,
    l2_table: Vec<u64>,
    l3_table: Vec<u64>,
}

impl PageTables {
    pub closed spec fn base_addr(&self) -> u64 {
        self.base
    }

    pub closed spec fn l1s(&self) -> Seq<u64> {
        self.l1_table@
    }

    pub closed spec fn l2s(&self) -> Seq<u64> {
        self.l2_table@
    }

    pub closed spec fn l3s(&self) -> Seq<u64> {
        self.l3_table@
    }

    pub open spec fn wf(&self) -> bool {
        &&& self.l1s().len() == ENTRIES_PER_PAGE
        &&& self.l2s().len() == ENTRIES_PER_PAGE
        &&& self.l3s().len() == ENTRIES_PER_PAGE
        &&& self.base_addr() % 4096 == 0
        &&& self.base_addr() + 2 * 4096 <= DESC_ADDR_MASK
    }

    /// Address of the level-2 table within the hierarchy's storage.
    pub open spec fn l2_addr(&self) -> u64 {
        (self.base_addr() + 4096) as u64
    }

    /// Address of the level-3 table within the hierarchy's storage.
    pub open spec fn l3_addr(&self) -> u64 {
        (self.base_addr() + 2 * 4096) as u64
    }

    /// One entry of the top-level table.
    pub fn l1_entry(&self, i: usize) -> (r: u64)
        requires
            i < self.l1s().len(),
        ensures
            r == self.l1s()[i as int],
    {
        self.l1_table[i]
    }

    /// One entry of the level-2 table.
    pub fn l2_entry(&self, i: usize) -> (r: u64)
        requires
            i < self.l2s().len(),
        ensures
            r == self.l2s()[i as int],
    {
        self.l2_table[i]
    }

    /// One entry of the level-3 table.
    pub fn l3_entry(&self, i: usize) -> (r: u64)
        requires
            i < self.l3s().len(),
        ensures
            r == self.l3s()[i as int],
    {
        self.l3_table[i]
    }

    /// Fresh, fully invalid tables for storage at `base`.
    pub fn new(base: u64) -> (r: Self)
        requires
            base % 4096 == 0,
            base + 2 * 4096 <= DESC_ADDR_MASK,
        ensures
            r.wf(),
            r.base_addr() == base,
            r.l1s() == Seq::new(ENTRIES_PER_PAGE as nat, |i: int| 0u64),
            r.l2s() == Seq::new(ENTRIES_PER_PAGE as nat, |i: int| 0u64),
            r.l3s() == Seq::new(ENTRIES_PER_PAGE as nat, |i: int| 0u64),
    {
        PageTables {
            base,
            l1_table: zero_table(),
            l2_table: zero_table(),
            l3_table: zero_table(),
        }
    }

    /// Fills the hierarchy with an identity mapping of the configured
    /// 1 GiB span: the first 2 MiB through level-3 page entries, the
    /// rest through level-2 block entries, attributes derived from the
    /// classifier inputs.
    pub fn setup_identity_map(&mut self, mem_limits: &MemLimits, layout: &KernelLayout)
        requires
            old(self).wf(),
            limits_wf(*mem_limits),
        ensures
            final(self).wf(),
            final(self).base_addr() == old(self).base_addr(),
            final(self).l1s() == old(self).l1s().update(0, table_entry_s(old(self).l2_addr())),
            final(self).l2s() == built_l2_s(*mem_limits, old(self).l3_addr()),
            final(self).l3s() == built_l3_s(*layout),
    {
        let l2_addr = self.base + 4096;
        let l3_addr = self.base + 2 * 4096;
        let v = table_entry(l2_addr);
        self.l1_table[0] = v;
        let v = table_entry(l3_addr);
        self.l2_table[0] = v;

        // Map the first 2 MiB of space with one page entry each.
        let mut j: usize = 0;
        while j < ENTRIES_PER_PAGE
            invariant
                j <= ENTRIES_PER_PAGE,
                self.l3_table@.len() == ENTRIES_PER_PAGE,
                forall|k: int| 0 <= k < j ==> self.l3_table@[k] == built_l3_s(*layout)[k],
                self.base == old(self).base,
                self.l1_table@ == old(self).l1s().update(0, table_entry_s(old(self).l2_addr())),
                self.l2_table@ == old(self).l2s().update(0, table_entry_s(old(self).l3_addr())),
            decreases ENTRIES_PER_PAGE - j,
        {
            proof {
                assert(j as int * 4096 <= 512 * 4096) by (nonlinear_arith)
                    requires j as int <= 512,
                ;
            }
            let addr = (j as u64) * 4096;
            let kind = classify_page(layout, addr);
            let v = page_entry(addr, kind);
            self.l3_table[j] = v;
            j += 1;
        }

        // Map the rest of the span with one 2 MiB block entry each.
        let mut i: usize = 1;
        while i < ENTRIES_PER_PAGE
            invariant
                1 <= i <= ENTRIES_PER_PAGE,
                self.l2_table@.len() == ENTRIES_PER_PAGE,
                self.l2_table@[0] == table_entry_s(old(self).l3_addr()),
                forall|k: int| 1 <= k < i ==> self.l2_table@[k] == built_l2_s(
                    *mem_limits,
                    old(self).l3_addr(),
                )[k],
                forall|k: int| i <= k < ENTRIES_PER_PAGE ==> self.l2_table@[k] == old(self).l2s()[k],
                self.base == old(self).base,
                self.l1_table@ == old(self).l1s().update(0, table_entry_s(old(self).l2_addr())),
                self.l3_table@ == built_l3_s(*layout),
                limits_wf(*mem_limits),
            decreases ENTRIES_PER_PAGE - i,
        {
            proof {
                assert(i as int * BLOCK_SIZE as int <= 512 * BLOCK_SIZE as int)
                    by (nonlinear_arith)
                    requires i as int <= 512, BLOCK_SIZE as int > 0,
                ;
            }
            let addr = (i as u64) * BLOCK_SIZE;
            let kind = classify_block(mem_limits, i as u64);
            let v = block_entry(addr, kind);
            self.l2_table[i] = v;
            i += 1;
        }
        proof {
            assert(self.l3_table@ =~= built_l3_s(*layout));
            assert(self.l2_table@ =~= built_l2_s(*mem_limits, old(self).l3_addr()));
        }
    }
}

/// Field values of a page entry word, for each region kind.
pub proof fn lemma_page_entry_fields(a: u64, kind: RegionKind)
    ensures
        ({
            let v = page_entry_s(a, kind);
            &&& desc_valid(v) <==> kind != RegionKind::Unmapped
            &&& kind != RegionKind::Unmapped ==> desc_table_or_page(v) && desc_af(v)
                && desc_out_addr(v) == a & DESC_ADDR_MASK
            &&& kind == RegionKind::NormalWritable ==> desc_xn(v) && desc_pxn(v) && desc_ap(v)
                == 0b00 && desc_sh(v) == 0b11 && desc_attr_idx(v) == 0
            &&& kind == RegionKind::NormalReadOnlyCode ==> !desc_xn(v) && !desc_pxn(v) && desc_ap(
                v,
            ) == 0b10 && desc_sh(v) == 0b11 && desc_attr_idx(v) == 0
            &&& kind == RegionKind::Device ==> desc_xn(v) && desc_pxn(v) && desc_ap(v) == 0b00
                && desc_sh(v) == 0b10 && desc_attr_idx(v) == 1
        }),
{
    match kind {
        RegionKind::Unmapped => {
            assert(0u64 & 1 == 0) by (bit_vector);
        },
        RegionKind::NormalWritable => {
            let v = page_entry_s(a, kind);
            assert({
                let v = 0b11u64 | (a & 0x0000_FFFF_FFFF_F000u64) | ((1u64 << 54) | (1u64 << 53) | (
                1u64 << 10) | (0b11u64 << 8));
                &&& v & 1 == 1
                &&& (v >> 1) & 1 == 1
                &&& (v >> 10) & 1 == 1
                &&& (v >> 54) & 1 == 1
                &&& (v >> 53) & 1 == 1
                &&& (v >> 6) & 0b11 == 0b00
                &&& (v >> 8) & 0b11 == 0b11
                &&& (v >> 2) & 0b111 == 0
                &&& v & 0x0000_FFFF_FFFF_F000u64 == a & 0x0000_FFFF_FFFF_F000u64
            }) by (bit_vector);
        },
        RegionKind::NormalReadOnlyCode => {
            assert({
                let v = 0b11u64 | (a & 0x0000_FFFF_FFFF_F000u64) | ((1u64 << 10) | (0b11u64 << 8)
                    | (0b10u64 << 6));
                &&& v & 1 == 1
                &&& (v >> 1) & 1 == 1
                &&& (v >> 10) & 1 == 1
                &&& (v >> 54) & 1 == 0
                &&& (v >> 53) & 1 == 0
                &&& (v >> 6) & 0b11 == 0b10
                &&& (v >> 8) & 0b11 == 0b11
                &&& (v >> 2) & 0b111 == 0
                &&& v & 0x0000_FFFF_FFFF_F000u64 == a & 0x0000_FFFF_FFFF_F000u64
            }) by (bit_vector);
        },
        RegionKind::Device => {
            assert({
                let v = 0b11u64 | (a & 0x0000_FFFF_FFFF_F000u64) | ((1u64 << 54) | (1u64 << 53) | (
                1u64 << 10) | (0b10u64 << 8) | (1u64 << 2));
                &&& v & 1 == 1
                &&& (v >> 1) & 1 == 1
                &&& (v >> 10) & 1 == 1
                &&& (v >> 54) & 1 == 1
                &&& (v >> 53) & 1 == 1
                &&& (v >> 6) & 0b11 == 0b00
                &&& (v >> 8) & 0b11 == 0b10
                &&& (v >> 2) & 0b111 == 1
                &&& v & 0x0000_FFFF_FFFF_F000u64 == a & 0x0000_FFFF_FFFF_F000u64
            }) by (bit_vector);
        },
    }
}

/// Field values of a block entry word, for each region kind.  The type
/// bit is clear: a block entry is terminal, never a table pointer.
pub proof fn lemma_block_entry_fields(a: u64, kind: RegionKind)
    ensures
        ({
            let v = block_entry_s(a, kind);
            &&& desc_valid(v) <==> kind != RegionKind::Unmapped
            &&& kind != RegionKind::Unmapped ==> !desc_table_or_page(v) && desc_af(v)
                && block_out_addr(v) == a & L2_ADDR_MASK
            &&& kind == RegionKind::NormalWritable ==> desc_xn(v) && desc_pxn(v) && desc_ap(v)
                == 0b00 && desc_sh(v) == 0b11 && desc_attr_idx(v) == 0
            &&& kind == RegionKind::NormalReadOnlyCode ==> !desc_xn(v) && !desc_pxn(v) && desc_ap(
                v,
            ) == 0b10 && desc_sh(v) == 0b11 && desc_attr_idx(v) == 0
            &&& kind == RegionKind::Device ==> desc_xn(v) && desc_pxn(v) && desc_ap(v) == 0b00
                && desc_sh(v) == 0b10 && desc_attr_idx(v) == 1
        }),
{
    match kind {
        RegionKind::Unmapped => {
            assert(0u64 & 1 == 0) by (bit_vector);
        },
        RegionKind::NormalWritable => {
            assert({
                let v = 0b01u64 | (a & 0x0000_FFFF_FFE0_0000u64) | ((1u64 << 54) | (1u64 << 53) | (
                1u64 << 10) | (0b11u64 << 8));
                &&& v & 1 == 1
                &&& (v >> 1) & 1 == 0
                &&& (v >> 10) & 1 == 1
                &&& (v >> 54) & 1 == 1
                &&& (v >> 53) & 1 == 1
                &&& (v >> 6) & 0b11 == 0b00
                &&& (v >> 8) & 0b11 == 0b11
                &&& (v >> 2) & 0b111 == 0
                &&& v & 0x0000_FFFF_FFE0_0000u64 == a & 0x0000_FFFF_FFE0_0000u64
            }) by (bit_vector);
        },
        RegionKind::NormalReadOnlyCode => {
            assert({
                let v = 0b01u64 | (a & 0x0000_FFFF_FFE0_0000u64) | ((1u64 << 10) | (0b11u64 << 8)
                    | (0b10u64 << 6));
                &&& v & 1 == 1
                &&& (v >> 1) & 1 == 0
                &&& (v >> 10) & 1 == 1
                &&& (v >> 54) & 1 == 0
                &&& (v >> 53) & 1 == 0
                &&& (v >> 6) & 0b11 == 0b10
                &&& (v >> 8) & 0b11 == 0b11
                &&& (v >> 2) & 0b111 == 0
                &&& v & 0x0000_FFFF_FFE0_0000u64 == a & 0x0000_FFFF_FFE0_0000u64
            }) by (bit_vector);
        },
        RegionKind::Device => {
            assert({
                let v = 0b01u64 | (a & 0x0000_FFFF_FFE0_0000u64) | ((1u64 << 54) | (1u64 << 53) | (
                1u64 << 10) | (0b10u64 << 8) | (1u64 << 2));
                &&& v & 1 == 1
                &&& (v >> 1) & 1 == 0
                &&& (v >> 10) & 1 == 1
                &&& (v >> 54) & 1 == 1
                &&& (v >> 53) & 1 == 1
                &&& (v >> 6) & 0b11 == 0b00
                &&& (v >> 8) & 0b11 == 0b10
                &&& (v >> 2) & 0b111 == 1
                &&& v & 0x0000_FFFF_FFE0_0000u64 == a & 0x0000_FFFF_FFE0_0000u64
            }) by (bit_vector);
        },
    }
}

/// Field values of a table entry word: valid, marked as a table
/// pointer, accessed, targeting the masked address.
pub proof fn lemma_table_entry_fields(a: u64)
    ensures
        ({
            let v = table_entry_s(a);
            &&& desc_valid(v)
            &&& desc_table_or_page(v)
            &&& desc_af(v)
            &&& desc_out_addr(v) == a & DESC_ADDR_MASK
        }),
{
    assert({
        let v = 0b11u64 | (a & 0x0000_FFFF_FFFF_F000u64) | (1u64 << 10);
        &&& v & 1 == 1
        &&& (v >> 1) & 1 == 1
        &&& (v >> 10) & 1 == 1
        &&& v & 0x0000_FFFF_FFFF_F000u64 == a & 0x0000_FFFF_FFFF_F000u64
    }) by (bit_vector);
}

/// Law: for any classifier inputs, the built hierarchy maps the
/// configured 1 GiB span exactly once and with the mandated
/// attributes.  Slot 0 of the level-2 table is a table pointer to the
/// level-3 table — so the first 2 MiB are mapped only by its page
/// entries, never a second time at the block level — and every other
/// slot block-maps exactly its own 2 MiB.  Every mapping is an
/// identity mapping.  Every RAM page, and every RAM or device block,
/// is execute-never at both privilege levels; the loaded-code range is
/// read-only and executable.
pub proof fn lemma_identity_map_exactly_once(limits: MemLimits, layout: KernelLayout, l3_addr: u64)
    requires
        l3_addr % 4096 == 0,
        l3_addr <= DESC_ADDR_MASK,
    ensures
        ({
            let l2 = built_l2_s(limits, l3_addr);
            let l3 = built_l3_s(layout);
            &&& desc_valid(l2[0]) && desc_table_or_page(l2[0]) && desc_out_addr(l2[0]) == l3_addr
            &&& forall|j: int|
                0 <= j < 512 ==> {
                    let v = #[trigger] l3[j];
                    let kind = classify_page_s(layout, (j * 4096) as u64);
                    &&& desc_valid(v) && desc_table_or_page(v)
                    &&& desc_out_addr(v) == j * 4096
                    &&& desc_af(v)
                    &&& kind == RegionKind::NormalWritable ==> desc_xn(v) && desc_pxn(v) && desc_ap(
                        v,
                    ) == 0b00
                    &&& kind == RegionKind::NormalReadOnlyCode ==> !desc_xn(v) && !desc_pxn(v)
                        && desc_ap(v) == 0b10
                }
            &&& forall|i: int|
                1 <= i < 512 ==> {
                    let v = #[trigger] l2[i];
                    let kind = classify_block_s(limits, i);
                    &&& (desc_valid(v) <==> kind != RegionKind::Unmapped)
                    &&& kind != RegionKind::Unmapped ==> !desc_table_or_page(v) && block_out_addr(
                        v,
                    ) == i * BLOCK_SIZE && desc_af(v) && desc_xn(v) && desc_pxn(v) && desc_ap(v)
                        == 0b00
                    &&& kind == RegionKind::Device ==> desc_sh(v) == 0b10 && desc_attr_idx(v) == 1
                    &&& kind == RegionKind::NormalWritable ==> desc_sh(v) == 0b11 && desc_attr_idx(
                        v,
                    ) == 0
                }
        }),
{
    let l2 = built_l2_s(limits, l3_addr);
    let l3 = built_l3_s(layout);
    lemma_table_entry_fields(l3_addr);
    assert(l3_addr & 0x0000_FFFF_FFFF_F000u64 == l3_addr) by (bit_vector)
        requires
            l3_addr % 4096 == 0,
            l3_addr <= 0x0000_FFFF_FFFF_F000u64,
    ;
    assert forall|j: int| 0 <= j < 512 implies {
        let v = #[trigger] l3[j];
        let kind = classify_page_s(layout, (j * 4096) as u64);
        &&& desc_valid(v) && desc_table_or_page(v)
        &&& desc_out_addr(v) == j * 4096
        &&& desc_af(v)
        &&& kind == RegionKind::NormalWritable ==> desc_xn(v) && desc_pxn(v) && desc_ap(v) == 0b00
        &&& kind == RegionKind::NormalReadOnlyCode ==> !desc_xn(v) && !desc_pxn(v) && desc_ap(v)
            == 0b10
    } by {
        let a = (j * 4096) as u64;
        let kind = classify_page_s(layout, a);
        lemma_page_entry_fields(a, kind);
        assert(kind != RegionKind::Unmapped);
        assert(a & 0x0000_FFFF_FFFF_F000u64 == a) by (bit_vector)
            requires
                a < 0x200000u64,
                a % 4096 == 0,
        ;
        assert(a % 4096 == 0) by {
            vstd::arithmetic::div_mod::lemma_mod_multiples_basic(j, 4096int);
        };
    };
    assert forall|i: int| 1 <= i < 512 implies {
        let v = #[trigger] l2[i];
        let kind = classify_block_s(limits, i);
        &&& (desc_valid(v) <==> kind != RegionKind::Unmapped)
        &&& kind != RegionKind::Unmapped ==> !desc_table_or_page(v) && block_out_addr(v) == i
            * BLOCK_SIZE && desc_af(v) && desc_xn(v) && desc_pxn(v) && desc_ap(v) == 0b00
        &&& kind == RegionKind::Device ==> desc_sh(v) == 0b10 && desc_attr_idx(v) == 1
        &&& kind == RegionKind::NormalWritable ==> desc_sh(v) == 0b11 && desc_attr_idx(v) == 0
    } by {
        let a = (i * BLOCK_SIZE) as u64;
        let kind = classify_block_s(limits, i);
        lemma_block_entry_fields(a, kind);
        assert(i * BLOCK_SIZE <= 512 * BLOCK_SIZE) by (nonlinear_arith)
            requires i <= 512, BLOCK_SIZE as int > 0,
        ;
        assert(a & 0x0000_FFFF_FFE0_0000u64 == a) by (bit_vector)
            requires
                a <= 0x4000_0000u64,
                a % 0x0020_0000u64 == 0,
        ;
        assert(a % 0x0020_0000u64 == 0) by {
            vstd::arithmetic::div_mod::lemma_mod_multiples_basic(i, BLOCK_SIZE as int);
        };
    };
}

/// One page of invalid entries.
fn zero_table() -> (r: Vec<u64>)
    ensures
        r@ == Seq::new(ENTRIES_PER_PAGE as nat, |i: int| 0u64),
{
    let mut v: Vec<u64> = Vec::new();
    let mut i: usize = 0;
    while i < ENTRIES_PER_PAGE
        invariant
            i <= ENTRIES_PER_PAGE,
            v@ == Seq::new(i as nat, |k: int| 0u64),
        decreases ENTRIES_PER_PAGE - i,
    {
        proof {
            assert(v@.push(0u64) =~= Seq::new(i as nat + 1, |k: int| 0u64));
        }
        v.push(0);
        i += 1;
    }
    proof {
        assert(v@ =~= Seq::new(ENTRIES_PER_PAGE as nat, |k: int| 0u64));
    }
    v
}

} // verus!

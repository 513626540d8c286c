//! Hardware translation-table descriptor encoding: 64-bit words with a
//! valid bit, a type bit, an output-address field, and attribute fields
//! at the exact offsets the translation hardware reads.

use vstd::prelude::*;

verus! {

/// Output-address mask for table and page descriptors: bits 12..48.
pub const DESC_ADDR_MASK: u64 = 0x0000_FFFF_FFFF_F000;

/// Output-address mask for level-2 block descriptors: bits 21..48.
pub const L2_ADDR_MASK: u64 = 0x0000_FFFF_FFE0_0000;

/// The valid bit (bit 0) of any descriptor.
pub open spec fn desc_valid(v: u64) -> bool {
    v & 1 == 1
}

/// The type bit (bit 1): set for table and page descriptors, clear for
/// block descriptors.
pub open spec fn desc_table_or_page(v: u64) -> bool {
    (v >> 1) & 1 == 1
}

/// The access flag (bit 10).
pub open spec fn desc_af(v: u64) -> bool {
    (v >> 10) & 1 == 1
}

/// Unprivileged execute-never (bit 54 of page and block descriptors).
pub open spec fn desc_xn(v: u64) -> bool {
    (v >> 54) & 1 == 1
}

/// Privileged execute-never (bit 53 of page and block descriptors).
pub open spec fn desc_pxn(v: u64) -> bool {
    (v >> 53) & 1 == 1
}

/// Shareability field (bits 8..10).
pub open spec fn desc_sh(v: u64) -> u64 {
    (v >> 8) & 0b11
}

/// Access-permission field (bits 6..8).
pub open spec fn desc_ap(v: u64) -> u64 {
    (v >> 6) & 0b11
}

/// Memory-attribute index (bits 2..5).
pub open spec fn desc_attr_idx(v: u64) -> u64 {
    (v >> 2) & 0b111
}

/// Output address of a table or page descriptor.
pub open spec fn desc_out_addr(v: u64) -> u64 {
    v & DESC_ADDR_MASK
}

/// Output address of a level-2 block descriptor.
pub open spec fn block_out_addr(v: u64) -> u64 {
    v & L2_ADDR_MASK
}

/// Mask of the descriptor's output-address bits: the top sixteen bits
/// and the low page-offset bits drop out.
pub fn addr_mask() -> (r: u64)
    ensures
        r == DESC_ADDR_MASK,
{
    let mut mask: u64 = !0;
    mask &= !0xFFFF_0000_0000_0000u64;
    proof {
        assert(1u64 << 12 == 4096u64 && (!0u64 & !0xFFFF_0000_0000_0000u64) & !(((1u64 << 12) - 1)
            as u64) == 0x0000_FFFF_FFFF_F000u64) by (bit_vector);
    }
    mask &= !((1u64 << 12) - 1);
    mask
}

#[derive(Clone, Copy, Debug, PartialEq, Eq, Structural)]
pub enum Shareability {
    NonShareable,
    Outer,
    Inner,
}

impl Shareability {
    pub open spec fn spec_bits(self) -> u64 {
        match self {
            Shareability::NonShareable => 0b00,
            Shareability::Outer => 0b10,
            Shareability::Inner => 0b11,
        }
    }

    pub fn bits(self) -> (r: u64)
        ensures
            r == self.spec_bits(),
    {
        match self {
            Shareability::NonShareable => 0b00,
            Shareability::Outer => 0b10,
            Shareability::Inner => 0b11,
        }
    }
}

#[derive(Clone, Copy, Debug, PartialEq, Eq, Structural)]
pub enum AccessPermission {
    PrivilegedReadWrite,
    ReadWrite,
    PrivilegedReadOnly,
    ReadOnly,
}

impl AccessPermission {
    pub open spec fn spec_bits(self) -> u64 {
        match self {
            AccessPermission::PrivilegedReadWrite => 0b00,
            AccessPermission::ReadWrite => 0b01,
            AccessPermission::PrivilegedReadOnly => 0b10,
            AccessPermission::ReadOnly => 0b11,
        }
    }

    pub fn bits(self) -> (r: u64)
        ensures
            r == self.spec_bits(),
    {
        match self {
            AccessPermission::PrivilegedReadWrite => 0b00,
            AccessPermission::ReadWrite => 0b01,
            AccessPermission::PrivilegedReadOnly => 0b10,
            AccessPermission::ReadOnly => 0b11,
        }
    }
}

#[derive(Clone, Copy, Debug, PartialEq, Eq, Structural)]
pub enum MemAttrIdx {
    Normal,
    Device,
    NonCacheable,
}

impl MemAttrIdx {
    pub open spec fn spec_bits(self) -> u64 {
        match self {
            MemAttrIdx::Normal => 0,
            MemAttrIdx::Device => 1,
            MemAttrIdx::NonCacheable => 2,
        }
    }

    pub fn bits(self) -> (r: u64)
        ensures
            r == self.spec_bits(),
    {
        match self {
            MemAttrIdx::Normal => 0,
            MemAttrIdx::Device => 1,
            MemAttrIdx::NonCacheable => 2,
        }
    }
}

/// Points a slot of a non-terminal level at the next table.
#[derive(Clone, Copy, Debug, PartialEq, Eq, Structural)]
pub struct TableDescriptor {
    pub value: u64,
}

impl TableDescriptor {
    /// A valid table descriptor targeting `table_addr` (masked to the
    /// output-address field).
    pub fn new(table_addr: u64) -> (r: TableDescriptor)
        ensures
            r.value == 0b11u64 | (table_addr & DESC_ADDR_MASK),
    {
        let mut desc: u64 = 0b11;
        desc |= table_addr & addr_mask();
        TableDescriptor { value: desc }
    }

    pub fn invalid() -> (r: TableDescriptor)
        ensures
            r.value == 0,
    {
        TableDescriptor { value: 0 }
    }

    /// Sets the access flag.  Intermediate descriptors are always
    /// "accessed" by construction, so the builder sets this on every
    /// table it links.
    pub fn set_af(&mut self, val: bool)
        ensures
            final(self).value == if val {
                old(self).value | (1u64 << 10)
            } else {
                old(self).value & !(1u64 << 10)
            },
    {
        if val {
            self.value |= 1u64 << 10;
        } else {
            self.value &= !(1u64 << 10);
        }
    }
}

/// Terminal descriptor of the granule-native level: maps one page.
#[derive(Clone, Copy, Debug, PartialEq, Eq, Structural)]
pub struct PageDescriptor {
    pub value: u64,
}

impl PageDescriptor {
    /// A valid page descriptor targeting `page_addr` (masked to the
    /// output-address field), with every attribute clear.
    pub fn new(page_addr: u64) -> (r: PageDescriptor)
        ensures
            r.value == 0b11u64 | (page_addr & DESC_ADDR_MASK),
    {
        let mut desc: u64 = 0b11;
        desc |= page_addr & addr_mask();
        PageDescriptor { value: desc }
    }

    pub fn invalid() -> (r: PageDescriptor)
        ensures
            r.value == 0,
    {
        PageDescriptor { value: 0 }
    }

    pub fn set_xn(&mut self, val: bool)
        ensures
            final(self).value == if val {
                old(self).value | (1u64 << 54)
            } else {
                old(self).value & !(1u64 << 54)
            },
    {
        if val {
            self.value |= 1u64 << 54;
        } else {
            self.value &= !(1u64 << 54);
        }
    }

    pub fn set_pxn(&mut self, val: bool)
        ensures
            final(self).value == if val {
                old(self).value | (1u64 << 53)
            } else {
                old(self).value & !(1u64 << 53)
            },
    {
        if val {
            self.value |= 1u64 << 53;
        } else {
            self.value &= !(1u64 << 53);
        }
    }

    pub fn set_af(&mut self, val: bool)
        ensures
            final(self).value == if val {
                old(self).value | (1u64 << 10)
            } else {
                old(self).value & !(1u64 << 10)
            },
    {
        if val {
            self.value |= 1u64 << 10;
        } else {
            self.value &= !(1u64 << 10);
        }
    }

    pub fn set_sh(&mut self, sh: Shareability)
        ensures
            final(self).value == (old(self).value & !(0b11u64 << 8)) | (sh.spec_bits() << 8),
    {
        self.value = (self.value & !(0b11u64 << 8)) | (sh.bits() << 8);
    }

    pub fn set_ap(&mut self, ap: AccessPermission)
        ensures
            final(self).value == (old(self).value & !(0b11u64 << 6)) | (ap.spec_bits() << 6),
    {
        self.value = (self.value & !(0b11u64 << 6)) | (ap.bits() << 6);
    }

    pub fn set_attr_idx(&mut self, attr: MemAttrIdx)
        ensures
            final(self).value == (old(self).value & !(0b111u64 << 2)) | (attr.spec_bits() << 2),
    {
        self.value = (self.value & !(0b111u64 << 2)) | (attr.bits() << 2);
    }
}

/// Terminal descriptor one level above the leaf: maps one 2 MiB block.
#[derive(Clone, Copy, Debug, PartialEq, Eq, Structural)]
pub struct BlockDescriptor {
    pub value: u64,
}

impl BlockDescriptor {
    pub fn invalid() -> (r: BlockDescriptor)
        ensures
            r.value == 0,
    {
        BlockDescriptor { value: 0 }
    }

    /// A valid level-2 block descriptor targeting `block_addr` (masked
    /// to the block output-address field), with every attribute clear.
    pub fn level2(block_addr: u64) -> (r: BlockDescriptor)
        ensures
            r.value == 0b01u64 | (block_addr & L2_ADDR_MASK),
    {
        let mut desc: u64 = 0b01;
        desc |= block_addr & L2_ADDR_MASK;
        BlockDescriptor { value: desc }
    }

    pub fn set_xn(&mut self, val: bool)
        ensures
            final(self).value == if val {
                old(self).value | (1u64 << 54)
            } else {
                old(self).value & !(1u64 << 54)
            },
    {
        if val {
            self.value |= 1u64 << 54;
        } else {
            self.value &= !(1u64 << 54);
        }
    }

    pub fn set_pxn(&mut self, val: bool)
        ensures
            final(self).value == if val {
                old(self).value | (1u64 << 53)
            } else {
                old(self).value & !(1u64 << 53)
            },
    {
        if val {
            self.value |= 1u64 << 53;
        } else {
            self.value &= !(1u64 << 53);
        }
    }

    pub fn set_af(&mut self, val: bool)
        ensures
            final(self).value == if val {
                old(self).value | (1u64 << 10)
            } else {
                old(self).value & !(1u64 << 10)
            },
    {
        if val {
            self.value |= 1u64 << 10;
        } else {
            self.value &= !(1u64 << 10);
        }
    }

    pub fn set_sh(&mut self, sh: Shareability)
        ensures
            final(self).value == (old(self).value & !(0b11u64 << 8)) | (sh.spec_bits() << 8),
    {
        self.value = (self.value & !(0b11u64 << 8)) | (sh.bits() << 8);
    }

    pub fn set_ap(&mut self, ap: AccessPermission)
        ensures
            final(self).value == (old(self).value & !(0b11u64 << 6)) | (ap.spec_bits() << 6),
    {
        self.value = (self.value & !(0b11u64 << 6)) | (ap.bits() << 6);
    }

    pub fn set_attr_idx(&mut self, attr: MemAttrIdx)
        ensures
            final(self).value == (old(self).value & !(0b111u64 << 2)) | (attr.spec_bits() << 2),
    {
        self.value = (self.value & !(0b111u64 << 2)) | (attr.bits() << 2);
    }
}

} // verus!

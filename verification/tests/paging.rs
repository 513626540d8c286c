use littleos::mmu::activate::{
    classify_hw_update_support, sctlr_enable_value, tcr_value, ActivationError, ActivationStage,
    ActivatorAction, ActivatorEvent, AddressSpaceActivator, HwUpdateSupport, MAIR_VALUE,
};
use littleos::mmu::layout::{KernelLayout, MemLimits};
use littleos::mmu::paging::{addr_mask, BlockDescriptor, PageDescriptor, TableDescriptor};
use littleos::mmu::tables::PageTables;
use littleos::mmu::{align_down, align_up, is_aligned};

const AF: u64 = 1 << 10;
const XN: u64 = 1 << 54;
const PXN: u64 = 1 << 53;
const SH_INNER: u64 = 0b11 << 8;
const SH_OUTER: u64 = 0b10 << 8;
const AP_RO: u64 = 0b10 << 6;
const ATTR_DEVICE: u64 = 1 << 2;

#[test]
fn alignment_arithmetic() {
    assert_eq!(align_up(0, 8), 0);
    assert_eq!(align_up(1, 8), 8);
    assert_eq!(align_up(4095, 4096), 4096);
    assert_eq!(align_down(4095, 4096), 0);
    assert_eq!(align_down(8192, 4096), 8192);
    assert!(is_aligned(8192, 4096));
    assert!(!is_aligned(8193, 4096));
}

#[test]
fn descriptor_encodings_are_bit_exact() {
    assert_eq!(addr_mask(), 0x0000_FFFF_FFFF_F000);

    let mut td = TableDescriptor::new(0xFFFF_1234_5678_9ABC);
    assert_eq!(td.value, 0b11 | 0x0000_1234_5678_9000);
    td.set_af(true);
    assert_eq!(td.value, 0b11 | 0x0000_1234_5678_9000 | AF);
    assert_eq!(TableDescriptor::invalid().value, 0);

    let mut pd = PageDescriptor::new(0x8_2000);
    pd.set_af(true);
    pd.set_sh(littleos::mmu::paging::Shareability::Inner);
    pd.set_ap(littleos::mmu::paging::AccessPermission::PrivilegedReadOnly);
    assert_eq!(pd.value, 0b11 | 0x8_2000 | AF | SH_INNER | AP_RO);
    assert_eq!(PageDescriptor::invalid().value, 0);

    let mut bd = BlockDescriptor::level2(0x2030_4567);
    assert_eq!(bd.value, 0b01 | 0x2020_0000);
    bd.set_xn(true);
    bd.set_pxn(true);
    assert_eq!(bd.value, 0b01 | 0x2020_0000 | XN | PXN);
    assert_eq!(BlockDescriptor::invalid().value, 0);
}

fn test_limits() -> MemLimits {
    MemLimits {
        arm_base: 0,
        arm_size: 0x2000_0000,     // 512 MiB of RAM: blocks 0..256
        vc_base: 0x1E00_0000,
        vc_size: 0x0400_0000,      // GPU memory up to block 272
    }
}

fn test_layout() -> KernelLayout {
    KernelLayout { load_addr: 0x8_0000, code_end: 0x10_0000 }
}

#[test]
fn identity_map_links_tables_and_classifies_pages() {
    let base = 0x10_0000;
    let mut pt = PageTables::new(base);
    assert_eq!(pt.l1_entry(0), 0);
    pt.setup_identity_map(&test_limits(), &test_layout());

    // Table pointers carry the access flag and the next level's address.
    assert_eq!(pt.l1_entry(0), 0b11 | (base + 4096) | AF);
    assert_eq!(pt.l2_entry(0), 0b11 | (base + 8192) | AF);

    let writable = |addr: u64| 0b11 | addr | AF | SH_INNER | XN | PXN;
    let code = |addr: u64| 0b11 | addr | AF | SH_INNER | AP_RO;

    // Below the image: working memory, execute-never.
    assert_eq!(pt.l3_entry(0), writable(0));
    assert_eq!(pt.l3_entry(127), writable(127 * 4096));
    // The loaded code range: read-only, executable.
    assert_eq!(pt.l3_entry(128), code(128 * 4096));
    assert_eq!(pt.l3_entry(255), code(255 * 4096));
    // Past the code: working memory again.
    assert_eq!(pt.l3_entry(256), writable(256 * 4096));
}

#[test]
fn identity_map_classifies_blocks() {
    let base = 0x10_0000;
    let mut pt = PageTables::new(base);
    pt.setup_identity_map(&test_limits(), &test_layout());

    let normal = |addr: u64| 0b01 | addr | AF | SH_INNER | XN | PXN;
    let device = |addr: u64| 0b01 | addr | AF | SH_OUTER | ATTR_DEVICE | XN | PXN;

    // RAM blocks.
    assert_eq!(pt.l2_entry(1), normal(0x20_0000));
    assert_eq!(pt.l2_entry(255), normal(255 * 0x20_0000));
    // GPU-shared memory: device attributes.
    assert_eq!(pt.l2_entry(256), device(256 * 0x20_0000));
    assert_eq!(pt.l2_entry(271), device(271 * 0x20_0000));
    // The hole between GPU memory and the peripheral window is unmapped.
    assert_eq!(pt.l2_entry(272), 0);
    assert_eq!(pt.l2_entry(503), 0);
    // The peripheral window: device attributes.
    assert_eq!(pt.l2_entry(504), device(0x3F00_0000));
    assert_eq!(pt.l2_entry(511), device(511 * 0x20_0000));
}

#[test]
fn hw_update_probe_sets_exactly_its_bits() {
    let ha = 1u64 << 39;
    let hd = 1u64 << 40;
    let none = tcr_value(5, HwUpdateSupport::Unsupported);
    let af_only = tcr_value(5, HwUpdateSupport::AccessFlag);
    let both = tcr_value(5, HwUpdateSupport::AccessFlagAndDirtyBit);
    assert_eq!(none & (ha | hd), 0);
    assert_eq!(af_only & (ha | hd), ha);
    assert_eq!(both & (ha | hd), ha | hd);
    // The probe-independent fields agree.
    assert_eq!(none | ha | hd, both | ha | hd);
}

#[test]
fn hw_update_probe_decodes_known_encodings_only() {
    assert_eq!(classify_hw_update_support(0), Ok(HwUpdateSupport::Unsupported));
    assert_eq!(classify_hw_update_support(1), Ok(HwUpdateSupport::AccessFlag));
    assert_eq!(
        classify_hw_update_support(2),
        Ok(HwUpdateSupport::AccessFlagAndDirtyBit)
    );
    assert_eq!(
        classify_hw_update_support(3),
        Err(ActivationError::UnknownFeatureEncoding)
    );
}

#[test]
fn activation_runs_in_strict_order() {
    let mut act = AddressSpaceActivator::new(0x10_0000, 0);
    assert_eq!(act.stage, ActivationStage::Off);

    let a = act.step(ActivatorEvent::Probe { parange: 5, hafdbs: 2 });
    assert_eq!(a, Ok(ActivatorAction::WriteAttributes(MAIR_VALUE)));

    let a = act.step(ActivatorEvent::Written);
    assert_eq!(
        a,
        Ok(ActivatorAction::WriteControl(tcr_value(
            5,
            HwUpdateSupport::AccessFlagAndDirtyBit
        )))
    );

    let a = act.step(ActivatorEvent::Written);
    assert_eq!(a, Ok(ActivatorAction::WriteRoots { lower: 0x10_0000, upper: 0 }));

    let a = act.step(ActivatorEvent::Written);
    assert_eq!(a, Ok(ActivatorAction::Barrier));

    let current = 0x30D0_0800u64;
    let a = act.step(ActivatorEvent::SctlrRead(current));
    assert_eq!(a, Ok(ActivatorAction::WriteEnable(sctlr_enable_value(current))));
    assert_eq!(act.stage, ActivationStage::On);

    assert_eq!(act.step(ActivatorEvent::Written), Ok(ActivatorAction::Done));
}

#[test]
fn activation_refuses_out_of_order_events() {
    let mut act = AddressSpaceActivator::new(0, 0);
    assert_eq!(
        act.step(ActivatorEvent::Written),
        Err(ActivationError::UnexpectedEvent)
    );
    assert_eq!(act.stage, ActivationStage::Off);
    assert_eq!(
        act.step(ActivatorEvent::Probe { parange: 5, hafdbs: 9 }),
        Err(ActivationError::UnknownFeatureEncoding)
    );
    assert_eq!(act.stage, ActivationStage::Off);
}

#[test]
fn enable_value_sets_mandatory_bits_and_the_enable_bit() {
    let v = sctlr_enable_value(0);
    assert_eq!(v & 1, 1);
    assert_eq!((v >> 23) & 1, 1);
    assert_eq!((v >> 22) & 1, 1);
    assert_eq!((v >> 11) & 1, 1);
    // Caches, alignment checking and big-endian modes are cleared.
    let v = sctlr_enable_value(u64::MAX);
    assert_eq!((v >> 25) & 1, 0);
    assert_eq!((v >> 24) & 1, 0);
    assert_eq!((v >> 19) & 1, 0);
    assert_eq!((v >> 12) & 1, 0);
    assert_eq!((v >> 2) & 1, 0);
    assert_eq!((v >> 1) & 1, 0);
    assert_eq!(v & 1, 1);
}

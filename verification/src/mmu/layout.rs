//! Platform memory-layout values fed into the page-table builder: the
//! RAM and GPU-memory limits queried over the mailbox, and the
//! link-time kernel image layout.

use vstd::prelude::*;
use crate::driver::mailbox::{tag_result_word_s, tag_words_s, MailboxBuffer, PropertyTag};
use crate::error::OsError;

verus! {

/// Base of the memory-mapped peripheral window.
pub const MMIO_BASE: u64 = 0x3F00_0000;

/// Physical memory limits: the ARM's RAM region and the GPU-reserved
/// ("VideoCore") region, each as base and size in bytes.
#[derive(Clone, Copy, Debug, PartialEq, Eq, Structural)]
pub struct MemLimits {
    pub arm_base: u64,
    pub arm_size: u64,
    pub vc_base: u64,
    pub vc_size: u64,
}

/// Link-time layout of the kernel image: where the loaded binary
/// starts and where its code ends.  Addresses below `load_addr` are
/// ordinary data; `[load_addr, code_end)` is the read-only, executable
/// code range.
#[derive(Clone, Copy, Debug, PartialEq, Eq, Structural)]
pub struct KernelLayout {
    pub load_addr: u64,
    pub code_end: u64,
}

/// Queries the ARM's memory region.
#[derive(Clone, Copy, Debug, PartialEq, Eq, Structural)]
pub struct GetArmMemory;

/// Queries the GPU-reserved ("VideoCore") memory region.
#[derive(Clone, Copy, Debug, PartialEq, Eq, Structural)]
pub struct GetVcMemory;

impl PropertyTag for GetArmMemory {
    fn identifier(&self) -> (r: u32)
        ensures
            r == 0x0001_0005u32,
    {
        0x0001_0005
    }

    fn recv_word_count(&self) -> (r: usize)
        ensures
            r == 2,
    {
        2
    }
}

impl PropertyTag for GetVcMemory {
    fn identifier(&self) -> (r: u32)
        ensures
            r == 0x0001_0006u32,
    {
        0x0001_0006
    }

    fn recv_word_count(&self) -> (r: usize)
        ensures
            r == 2,
    {
        2
    }
}

/// The finished memory-limits request: the GPU region tag, the ARM
/// region tag, the end tag, and the total size in the leading word.
pub open spec fn memory_limits_request_s() -> Seq<u32> {
    (seq![0u32, 0u32] + tag_words_s(0x0001_0006u32, Seq::<u32>::empty(), 2) + tag_words_s(
        0x0001_0005u32,
        Seq::<u32>::empty(),
        2,
    )).push(0u32).update(0, 52u32)
}

/// Builds the request that asks the firmware for both memory regions.
pub fn memory_limits_request() -> (r: MailboxBuffer)
    ensures
        r.wf(),
        r.words() == memory_limits_request_s(),
        r.tags() == seq![2usize, 7usize],
        !r.has_result(),
{
    let mut mbox = MailboxBuffer::new();
    let empty: Vec<u32> = Vec::new();
    let vc = GetVcMemory;
    let arm = GetArmMemory;
    mbox.append_tag(vc.identifier(), &empty, vc.recv_word_count());
    mbox.append_tag(arm.identifier(), &empty, arm.recv_word_count());
    mbox.finalize();
    proof {
        assert(mbox.words() =~= memory_limits_request_s());
        assert(mbox.tags() =~= seq![2usize, 7usize]);
    }
    mbox
}

/// What `get_memory_limits` decodes from an exchanged buffer: the GPU
/// region from tag 0 and the ARM region from tag 1, or a response
/// error when any word is missing.
pub open spec fn memory_limits_s(words: Seq<u32>, tags: Seq<usize>, has: bool) -> Result<
    MemLimits,
    OsError,
> {
    let vc_base = tag_result_word_s(words, tags, has, 0, 0);
    let vc_size = tag_result_word_s(words, tags, has, 0, 1);
    let arm_base = tag_result_word_s(words, tags, has, 1, 0);
    let arm_size = tag_result_word_s(words, tags, has, 1, 1);
    if vc_base is Some && vc_size is Some && arm_base is Some && arm_size is Some {
        Ok(
            MemLimits {
                arm_base: arm_base->Some_0 as u64,
                arm_size: arm_size->Some_0 as u64,
                vc_base: vc_base->Some_0 as u64,
                vc_size: vc_size->Some_0 as u64,
            },
        )
    } else {
        Err(OsError::MailboxResponse)
    }
}

/// Reads the two `(base, size)` region descriptors out of an exchanged
/// memory-limits request.
pub fn get_memory_limits(mbox: &MailboxBuffer) -> (r: Result<MemLimits, OsError>)
    requires
        mbox.wf(),
    ensures
        r == memory_limits_s(mbox.words(), mbox.tags(), mbox.has_result()),
{
    let vc_base = mbox.read_tag_result(0, 0);
    let vc_size = mbox.read_tag_result(0, 1);
    let arm_base = mbox.read_tag_result(1, 0);
    let arm_size = mbox.read_tag_result(1, 1);
    match (vc_base, vc_size, arm_base, arm_size) {
        (Some(vb), Some(vs), Some(ab), Some(asz)) => Ok(
            MemLimits {
                arm_base: ab as u64,
                arm_size: asz as u64,
                vc_base: vb as u64,
                vc_size: vs as u64,
            },
        ),
        _ => Err(OsError::MailboxResponse),
    }
}

} // verus!

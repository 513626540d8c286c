//! Address-space activation: the strict sequence that programs the
//! memory-attribute table, the translation-control fields, the root
//! table pointers, a barrier, and only then the enable bit.  The
//! decisions live here as a state machine from stage and event to the
//! next stage and the register action to perform; the surrounding
//! program performs each action on the hardware and hands back the
//! event.

use vstd::prelude::*;

verus! {

/// Memory-attribute table value: attribute 0 is normal write-back
/// non-transient write-allocating memory (inner and outer), attribute
/// 1 is device memory (non-gathering, non-reordering, early write
/// acknowledge), attribute 2 is normal non-cacheable memory.
pub const MAIR_VALUE: u64 = 0x0044_0455;

/// What the hardware can update in descriptors on its own, probed from
/// the feature register's hardware-access-flag/dirty-bit field.
#[derive(Clone, Copy, Debug, PartialEq, Eq, Structural)]
pub enum HwUpdateSupport {
    Unsupported,
    AccessFlag,
    AccessFlagAndDirtyBit,
}

/// Decodes the feature register's hardware-update field: 0 means no
/// hardware updates, 1 access-flag updates, 2 access-flag and
/// dirty-bit updates.  Any other encoding is unknown and fatal:
/// continuing would silently mis-program control bits.
pub fn classify_hw_update_support(hafdbs: u64) -> (r: Result<HwUpdateSupport, ActivationError>)
    ensures
        r == classify_hw_update_support_s(hafdbs),
{
    if hafdbs == 0 {
        Ok(HwUpdateSupport::Unsupported)
    } else if hafdbs == 1 {
        Ok(HwUpdateSupport::AccessFlag)
    } else if hafdbs == 2 {
        Ok(HwUpdateSupport::AccessFlagAndDirtyBit)
    } else {
        Err(ActivationError::UnknownFeatureEncoding)
    }
}

pub open spec fn classify_hw_update_support_s(hafdbs: u64) -> Result<
    HwUpdateSupport,
    ActivationError,
> {
    if hafdbs == 0 {
        Ok(HwUpdateSupport::Unsupported)
    } else if hafdbs == 1 {
        Ok(HwUpdateSupport::AccessFlag)
    } else if hafdbs == 2 {
        Ok(HwUpdateSupport::AccessFlagAndDirtyBit)
    } else {
        Err(ActivationError::UnknownFeatureEncoding)
    }
}

/// The translation-control value: 4 KiB granules on both halves,
/// inner-shareable cacheable table walks, 39-bit address-space split,
/// the probed physical-address range, and the hardware access-flag
/// (bit 39) and dirty-bit (bit 40) update bits as the probe allows.
pub open spec fn tcr_value_s(parange: u64, support: HwUpdateSupport) -> u64 {
    match support {
        HwUpdateSupport::Unsupported => tcr_base_s(parange),
        HwUpdateSupport::AccessFlag => tcr_base_s(parange) | (1u64 << 39),
        HwUpdateSupport::AccessFlagAndDirtyBit => tcr_base_s(parange) | ((1u64 << 39) | (1u64
            << 40)),
    }
}

/// The control fields that do not depend on the probe: top-byte
/// ignored on both halves, the intermediate physical address size,
/// 4 KiB granules, inner-shareable write-back read- and
/// write-allocating table walks, walks enabled, and 39-bit regions
/// (size field 25) on both halves.
pub open spec fn tcr_base_s(parange: u64) -> u64 {
    (1u64 << 37) | (1u64 << 38) | ((parange & 0x7) << 32) | (0b10u64 << 30) | (0b11u64 << 28) | (
    0b01u64 << 26) | (0b01u64 << 24) | (25u64 << 16) | (0b00u64 << 14) | (0b11u64 << 12) | (0b01u64
        << 10) | (0b01u64 << 8) | 25u64
}

pub fn tcr_value(parange: u64, support: HwUpdateSupport) -> (r: u64)
    ensures
        r == tcr_value_s(parange, support),
{
    let base = (1u64 << 37) | (1u64 << 38) | ((parange & 0x7) << 32) | (0b10u64 << 30) | (0b11u64
        << 28) | (0b01u64 << 26) | (0b01u64 << 24) | (25u64 << 16) | (0b00u64 << 14) | (0b11u64
        << 12) | (0b01u64 << 10) | (0b01u64 << 8) | 25u64;
    match support {
        HwUpdateSupport::Unsupported => base,
        HwUpdateSupport::AccessFlag => base | (1u64 << 39),
        HwUpdateSupport::AccessFlagAndDirtyBit => base | ((1u64 << 39) | (1u64 << 40)),
    }
}

/// Law: the probe result controls exactly the two hardware-update
/// bits.  Access-flag-and-dirty-bit support sets both bit 39 and bit
/// 40; access-flag-only sets bit 39 alone; unsupported sets neither.
pub proof fn lemma_hw_update_control_bits(parange: u64, support: HwUpdateSupport)
    ensures
        ({
            let v = tcr_value_s(parange, support);
            &&& ((v >> 39) & 1 == 1) <==> support != HwUpdateSupport::Unsupported
            &&& ((v >> 40) & 1 == 1) <==> support == HwUpdateSupport::AccessFlagAndDirtyBit
        }),
{
    let p = parange;
    let b = tcr_base_s(p);
    assert({
        let b = (1u64 << 37) | (1u64 << 38) | ((p & 0x7) << 32) | (0b10u64 << 30) | (0b11u64 << 28)
            | (0b01u64 << 26) | (0b01u64 << 24) | (25u64 << 16) | (0b00u64 << 14) | (0b11u64 << 12)
            | (0b01u64 << 10) | (0b01u64 << 8) | 25u64;
        &&& (b >> 39) & 1 == 0
        &&& (b >> 40) & 1 == 0
        &&& ((b | (1u64 << 39)) >> 39) & 1 == 1
        &&& ((b | (1u64 << 39)) >> 40) & 1 == 0
        &&& ((b | ((1u64 << 39) | (1u64 << 40))) >> 39) & 1 == 1
        &&& ((b | ((1u64 << 39) | (1u64 << 40))) >> 40) & 1 == 1
    }) by (bit_vector);
}

/// The system-control transform that switches translation on: sets the
/// mandatory-one bits (bits 23, 22 and 11), clears big-endian modes,
/// write-execute-never, caches and alignment checking (bits 25, 24,
/// 19, 12, 4, 3, 2 and 1), and sets the enable bit (bit 0).
pub open spec fn sctlr_enable_s(current: u64) -> u64 {
    ((current | ((1u64 << 23) | (1u64 << 22) | (1u64 << 11))) & !((1u64 << 25) | (1u64 << 24) | (
    1u64 << 19) | (1u64 << 12) | (1u64 << 4) | (1u64 << 3) | (1u64 << 2) | (1u64 << 1))) | 1u64
}

pub fn sctlr_enable_value(current: u64) -> (r: u64)
    ensures
        r == sctlr_enable_s(current),
        r & 1 == 1,
{
    let r = ((current | ((1u64 << 23) | (1u64 << 22) | (1u64 << 11))) & !((1u64 << 25) | (1u64
        << 24) | (1u64 << 19) | (1u64 << 12) | (1u64 << 4) | (1u64 << 3) | (1u64 << 2) | (1u64
        << 1))) | 1u64;
    proof {
        let c = current;
        assert((((c | ((1u64 << 23) | (1u64 << 22) | (1u64 << 11))) & !((1u64 << 25) | (1u64 << 24)
            | (1u64 << 19) | (1u64 << 12) | (1u64 << 4) | (1u64 << 3) | (1u64 << 2) | (1u64 << 1)))
            | 1u64) & 1 == 1) by (bit_vector);
    }
    r
}

#[derive(Clone, Copy, Debug, PartialEq, Eq, Structural)]
pub enum ActivationStage {
    Off,
    AttributesWritten,
    ControlWritten,
    RootsWritten,
    Synchronized,
    On,
}

/// What the surrounding program must do next on the hardware.
#[derive(Clone, Copy, Debug, PartialEq, Eq, Structural)]
pub enum ActivatorAction {
    WriteAttributes(u64),
    WriteControl(u64),
    WriteRoots { lower: u64, upper: u64 },
    Barrier,
    WriteEnable(u64),
    Done,
}

/// What the hardware reported back.
#[derive(Clone, Copy, Debug, PartialEq, Eq, Structural)]
pub enum ActivatorEvent {
    /// Feature registers were read: the physical-address-range field
    /// and the hardware-update capability field.
    Probe { parange: u64, hafdbs: u64 },
    /// The previously requested action completed.
    Written,
    /// The current system-control value was read.
    SctlrRead(u64),
}

#[derive(Clone, Copy, Debug, PartialEq, Eq, Structural)]
pub enum ActivationError {
    /// The feature probe produced an encoding this machine does not
    /// know; continuing would silently mis-program control bits.
    UnknownFeatureEncoding,
    /// The event does not belong to the current stage.
    UnexpectedEvent,
}

/// The activator: a strict state machine from `Off` to `On`.  No
/// intermediate stage enables translation, and a failed step leaves
/// the stage unchanged.
#[derive(Clone, Copy, Debug, PartialEq, Eq, Structural)]
pub struct AddressSpaceActivator {
    pub stage: ActivationStage,
    pub lower_root: u64,
    pub upper_root: u64,
    pub parange: u64,
    pub support: HwUpdateSupport,
}

/// One step's outcome: the machine afterwards and the action or error.
#[verifier::ext_equal]
pub struct ActivatorStep {
    pub state: AddressSpaceActivator,
    pub result: Result<ActivatorAction, ActivationError>,
}

/// The transition function.  Stages advance one at a time, each
/// emitting its register action; the enable value is emitted only from
/// `Synchronized`, after the roots, the attributes and the barrier.
#[verifier::opaque]
pub open spec fn step_s(s: AddressSpaceActivator, ev: ActivatorEvent) -> ActivatorStep {
    match (s.stage, ev) {
        (ActivationStage::Off, ActivatorEvent::Probe { parange, hafdbs }) => match
            classify_hw_update_support_s(hafdbs) {
            Ok(support) => ActivatorStep {
                state: AddressSpaceActivator {
                    stage: ActivationStage::AttributesWritten,
                    parange,
                    support,
                    ..s
                },
                result: Ok(ActivatorAction::WriteAttributes(MAIR_VALUE)),
            },
            Err(e) => ActivatorStep { state: s, result: Err(e) },
        },
        (ActivationStage::AttributesWritten, ActivatorEvent::Written) => ActivatorStep {
            state: AddressSpaceActivator { stage: ActivationStage::ControlWritten, ..s },
            result: Ok(ActivatorAction::WriteControl(tcr_value_s(s.parange, s.support))),
        },
        (ActivationStage::ControlWritten, ActivatorEvent::Written) => ActivatorStep {
            state: AddressSpaceActivator { stage: ActivationStage::RootsWritten, ..s },
            result: Ok(
                ActivatorAction::WriteRoots { lower: s.lower_root, upper: s.upper_root },
            ),
        },
        (ActivationStage::RootsWritten, ActivatorEvent::Written) => ActivatorStep {
            state: AddressSpaceActivator { stage: ActivationStage::Synchronized, ..s },
            result: Ok(ActivatorAction::Barrier),
        },
        (ActivationStage::Synchronized, ActivatorEvent::SctlrRead(current)) => ActivatorStep {
            state: AddressSpaceActivator { stage: ActivationStage::On, ..s },
            result: Ok(ActivatorAction::WriteEnable(sctlr_enable_s(current))),
        },
        (ActivationStage::On, _) => ActivatorStep { state: s, result: Ok(ActivatorAction::Done) },
        _ => ActivatorStep { state: s, result: Err(ActivationError::UnexpectedEvent) },
    }
}

impl AddressSpaceActivator {
    /// A machine ready to activate translation with the given root
    /// table pointers.
    pub fn new(lower_root: u64, upper_root: u64) -> (r: Self)
        ensures
            r.stage == ActivationStage::Off,
            r.lower_root == lower_root,
            r.upper_root == upper_root,
    {
        AddressSpaceActivator {
            stage: ActivationStage::Off,
            lower_root,
            upper_root,
            parange: 0,
            support: HwUpdateSupport::Unsupported,
        }
    }

    /// Feeds one hardware event in and returns the next action to
    /// perform, exactly as `step_s` on the machine's state.
    pub fn step(&mut self, ev: ActivatorEvent) -> (r: Result<ActivatorAction, ActivationError>)
        ensures
            *final(self) == step_s(*old(self), ev).state,
            r == step_s(*old(self), ev).result,
    {
        proof {
            reveal(step_s);
        }
        match (self.stage, ev) {
            (ActivationStage::Off, ActivatorEvent::Probe { parange, hafdbs }) => {
                match classify_hw_update_support(hafdbs) {
                    Ok(support) => {
                        self.stage = ActivationStage::AttributesWritten;
                        self.parange = parange;
                        self.support = support;
                        Ok(ActivatorAction::WriteAttributes(MAIR_VALUE))
                    },
                    Err(e) => Err(e),
                }
            },
            (ActivationStage::AttributesWritten, ActivatorEvent::Written) => {
                self.stage = ActivationStage::ControlWritten;
                Ok(ActivatorAction::WriteControl(tcr_value(self.parange, self.support)))
            },
            (ActivationStage::ControlWritten, ActivatorEvent::Written) => {
                self.stage = ActivationStage::RootsWritten;
                Ok(ActivatorAction::WriteRoots { lower: self.lower_root, upper: self.upper_root })
            },
            (ActivationStage::RootsWritten, ActivatorEvent::Written) => {
                self.stage = ActivationStage::Synchronized;
                Ok(ActivatorAction::Barrier)
            },
            (ActivationStage::Synchronized, ActivatorEvent::SctlrRead(current)) => {
                self.stage = ActivationStage::On;
                Ok(ActivatorAction::WriteEnable(sctlr_enable_value(current)))
            },
            (ActivationStage::On, _) => Ok(ActivatorAction::Done),
            _ => Err(ActivationError::UnexpectedEvent),
        }
    }
}

/// Position of a stage in the activation order.
pub open spec fn stage_rank(st: ActivationStage) -> int {
    match st {
        ActivationStage::Off => 0,
        ActivationStage::AttributesWritten => 1,
        ActivationStage::ControlWritten => 2,
        ActivationStage::RootsWritten => 3,
        ActivationStage::Synchronized => 4,
        ActivationStage::On => 5,
    }
}

pub open spec fn emits_attributes(r: Result<ActivatorAction, ActivationError>) -> bool {
    r matches Ok(ActivatorAction::WriteAttributes(_))
}

pub open spec fn emits_control(r: Result<ActivatorAction, ActivationError>) -> bool {
    r matches Ok(ActivatorAction::WriteControl(_))
}

pub open spec fn emits_roots(r: Result<ActivatorAction, ActivationError>) -> bool {
    r matches Ok(ActivatorAction::WriteRoots { .. })
}

pub open spec fn emits_barrier(r: Result<ActivatorAction, ActivationError>) -> bool {
    r == Ok::<ActivatorAction, ActivationError>(ActivatorAction::Barrier)
}

pub open spec fn emits_enable(r: Result<ActivatorAction, ActivationError>) -> bool {
    r matches Ok(ActivatorAction::WriteEnable(_))
}

/// The result emits the action that enters the stage of rank `t`.
pub open spec fn emits_entering(t: int, r: Result<ActivatorAction, ActivationError>) -> bool {
    if t == 1 {
        emits_attributes(r)
    } else if t == 2 {
        emits_control(r)
    } else if t == 3 {
        emits_roots(r)
    } else if t == 4 {
        emits_barrier(r)
    } else if t == 5 {
        emits_enable(r)
    } else {
        false
    }
}

/// The machine states along a run: `run_states(s, evs)[i]` is the
/// state before event `i`, and the run has one state more than there
/// are events.
pub open spec fn run_states(s: AddressSpaceActivator, evs: Seq<ActivatorEvent>) -> Seq<
    AddressSpaceActivator,
>
    decreases evs.len(),
{
    if evs.len() <= 0 {
        seq![s]
    } else {
        seq![s] + run_states(step_s(s, evs[0]).state, evs.drop_first())
    }
}

/// The result of the `k`-th step of a run.
pub open spec fn run_result(s: AddressSpaceActivator, evs: Seq<ActivatorEvent>, k: int) -> Result<
    ActivatorAction,
    ActivationError,
> {
    step_s(run_states(s, evs)[k], evs[k]).result
}

#[verifier::rlimit(100)]
pub proof fn lemma_run_states_shape(s: AddressSpaceActivator, evs: Seq<ActivatorEvent>)
    ensures
        run_states(s, evs).len() == evs.len() + 1,
        run_states(s, evs)[0] == s,
        forall|i: int|
            0 <= i < evs.len() ==> run_states(s, evs)[i + 1] == step_s(
                #[trigger] run_states(s, evs)[i],
                evs[i],
            ).state,
    decreases evs.len(),
{
    if evs.len() > 0 {
        let s1 = step_s(s, evs[0]).state;
        lemma_run_states_shape(s1, evs.drop_first());
        assert forall|i: int|
            0 <= i < evs.len() implies run_states(s, evs)[i + 1] == step_s(
            #[trigger] run_states(s, evs)[i],
            evs[i],
        ).state by {
            if i == 0 {
            } else {
                assert(run_states(s, evs)[i] == run_states(s1, evs.drop_first())[i - 1]);
                assert(run_states(s, evs)[i + 1] == run_states(s1, evs.drop_first())[i]);
                assert(evs.drop_first()[i - 1] == evs[i]);
            }
        };
    }
}

/// Each step keeps the stage or advances it by one; when it advances
/// to rank `t`, the step's result is exactly the action that enters
/// rank `t`.
pub proof fn lemma_step_rank(s: AddressSpaceActivator, ev: ActivatorEvent)
    ensures
        ({
            let o = step_s(s, ev);
            &&& stage_rank(s.stage) <= stage_rank(o.state.stage) <= stage_rank(s.stage) + 1
            &&& stage_rank(o.state.stage) == stage_rank(s.stage) + 1 ==> emits_entering(
                stage_rank(o.state.stage),
                o.result,
            )
            &&& emits_enable(o.result) ==> s.stage == ActivationStage::Synchronized
                && o.state.stage == ActivationStage::On
        }),
{
    reveal(step_s);
}

/// In a run, if the stage has reached rank `t` by position `k`, some
/// earlier step emitted the action that enters rank `t` from rank
/// `t - 1`.
#[verifier::rlimit(100)]
pub proof fn lemma_rank_entered(
    s: AddressSpaceActivator,
    evs: Seq<ActivatorEvent>,
    k: int,
    t: int,
) -> (j: int)
    requires
        0 <= k <= evs.len(),
        stage_rank(run_states(s, evs)[k].stage) >= t,
        stage_rank(s.stage) < t,
    ensures
        0 <= j < k,
        emits_entering(t, run_result(s, evs, j)),
        stage_rank(run_states(s, evs)[j].stage) == t - 1,
    decreases k,
{
    lemma_run_states_shape(s, evs);
    let prev = run_states(s, evs)[k - 1];
    lemma_step_rank(prev, evs[k - 1]);
    if stage_rank(prev.stage) >= t {
        lemma_rank_entered(s, evs, k - 1, t)
    } else {
        k - 1
    }
}

/// Law: in any run from `Off`, the enable value is emitted only after
/// the attribute table, the root pointers, and a barrier, in that
/// order.  No intermediate stage makes translation observable.
#[verifier::rlimit(100)]
pub proof fn lemma_enable_only_after_sequence(
    s: AddressSpaceActivator,
    evs: Seq<ActivatorEvent>,
    k: int,
)
    requires
        s.stage == ActivationStage::Off,
        0 <= k < evs.len(),
        emits_enable(run_result(s, evs, k)),
    ensures
        exists|ka: int, kr: int, kb: int|
            {
                &&& 0 <= ka < kr < kb < k
                &&& emits_attributes(#[trigger] run_result(s, evs, ka))
                &&& emits_roots(#[trigger] run_result(s, evs, kr))
                &&& emits_barrier(#[trigger] run_result(s, evs, kb))
            },
{
    lemma_run_states_shape(s, evs);
    let sk = run_states(s, evs)[k];
    lemma_step_rank(sk, evs[k]);
    assert(stage_rank(sk.stage) == 4);
    let kb = lemma_rank_entered(s, evs, k, 4);
    let kr = lemma_rank_entered(s, evs, kb, 3);
    let kc = lemma_rank_entered(s, evs, kr, 2);
    let ka = lemma_rank_entered(s, evs, kc, 1);
    assert(0 <= ka < kr < kb < k);
    assert(emits_attributes(run_result(s, evs, ka)));
    assert(emits_roots(run_result(s, evs, kr)));
    assert(emits_barrier(run_result(s, evs, kb)));
}

} // verus!

use vstd::prelude::*;
use crate::breakpoint::{
    debug_register_offset, lemma_control_round_trip, lemma_hardware_disable_effect,
    lemma_hardware_enable_effect, lemma_software_disable_effect, lemma_software_enable_effect,
    slot_bits, BreakpointView, HardwareView, SoftwareView, DEBUG_CONTROL_REGISTER, TRAP_OPCODE,
};
use crate::debugee::{
    coherent, free_slot, holds, index_of, lemma_coherent_push, lemma_coherent_remove, slot_used,
    uses_slot, DebugeeView,
};
use crate::tracing::{all_fit, answers, lemma_answers_fit, run, Request, Target};

verus! {

/// One change to the breakpoints of a traced process.
pub enum Change {
    /// A software breakpoint is added at `address`, on an instruction of
    /// `size` bytes.
    AddSoftware { address: u64, size: u64 },
    /// A hardware breakpoint is added at `address`.
    AddHardware { address: u64 },
    /// The breakpoint at `address` is taken out.
    Remove { address: u64 },
}

/// A traced process together with what the debugger holds of it.
pub struct Traced {
    pub target: Target,
    pub debugee: DebugeeView,
}

/// Whether `target` holds what `breakpoint` asks for. A software breakpoint
/// asks for the trap at its address, where the target has memory there. A
/// hardware breakpoint asks for its address in the register of its slot and
/// for the slot's two bits in the control register.
pub open spec fn in_place(breakpoint: BreakpointView, target: Target) -> bool {
    match breakpoint {
        BreakpointView::Software(inner) => target.memory.dom().contains(inner.address as int)
            ==> target.memory[inner.address as int] == TRAP_OPCODE,
        BreakpointView::Hardware(inner) => {
            &&& target.user[debug_register_offset(inner.register_index as nat) as int]
                == inner.address
            &&& target.user[debug_register_offset(DEBUG_CONTROL_REGISTER as nat) as int] & slot_bits(
                inner.register_index as nat,
            ) == slot_bits(inner.register_index as nat)
        },
    }
}

/// Whether `target` holds what each of `breakpoints` asks for.
pub open spec fn all_in_place(breakpoints: Seq<BreakpointView>, target: Target) -> bool {
    forall|i: int| 0 <= i < breakpoints.len() ==> in_place(#[trigger] breakpoints[i], target)
}

impl Traced {
    /// The breakpoints can stand together and the target holds what each of
    /// them asks for.
    pub open spec fn in_step(self) -> bool {
        &&& self.debugee.well_formed()
        &&& all_in_place(self.debugee.breakpoints, self.target)
    }

    /// Whether the debugger refuses `change`: a breakpoint stands where one
    /// is to be added, or a hardware breakpoint finds no free slot.
    pub open spec fn refuses(self, change: Change) -> bool {
        match change {
            Change::AddSoftware { address, size } => holds(self.debugee.breakpoints, address),
            Change::AddHardware { address } => holds(self.debugee.breakpoints, address)
                || free_slot(self.debugee.breakpoints) is None,
            Change::Remove { address } => false,
        }
    }

    /// The requests that `change` sends to the target: none where it is refused.
    pub open spec fn plan(self, change: Change) -> Seq<Request> {
        if self.refuses(change) {
            Seq::empty()
        } else {
            match change {
                Change::AddSoftware { address, size } => self.debugee.software_plan(address, size),
                Change::AddHardware { address } => self.debugee.hardware_plan(address),
                Change::Remove { address } => self.debugee.removal_plan(address),
            }
        }
    }

    /// The process and the debugger's side of it after `change`: the target
    /// has carried out the requests, and the debugger has taken note of the
    /// answers. A change that is refused changes nothing.
    pub open spec fn step(self, change: Change) -> Traced {
        if self.refuses(change) {
            self
        } else {
            let replies = answers(self.target, self.plan(change));
            Traced {
                target: run(self.target, self.plan(change)),
                debugee: match change {
                    Change::AddSoftware { address, size } => self.debugee.with_breakpoint(
                        self.debugee.software_made(address, size, replies),
                    ),
                    Change::AddHardware { address } => self.debugee.with_breakpoint(
                        self.debugee.hardware_made(address),
                    ),
                    Change::Remove { address } => self.debugee.without_breakpoint(address),
                },
            }
        }
    }

    /// The process and the debugger's side of it after `changes`, one after
    /// the other.
    pub open spec fn steps(self, changes: Seq<Change>) -> Traced
        decreases changes.len(),
    {
        if changes.len() == 0 {
            self
        } else {
            self.steps(changes.drop_last()).step(changes.last())
        }
    }
}

/// A hardware breakpoint that is in place stays so while its register and
/// its two bits of the control register are as before.
proof fn lemma_hardware_stays(breakpoint: HardwareView, before: Target, after: Target)
    requires
        in_place(BreakpointView::Hardware(breakpoint), before),
        after.user[debug_register_offset(breakpoint.register_index as nat) as int]
            == before.user[debug_register_offset(breakpoint.register_index as nat) as int],
        after.user[debug_register_offset(DEBUG_CONTROL_REGISTER as nat) as int] & slot_bits(
            breakpoint.register_index as nat,
        ) == before.user[debug_register_offset(DEBUG_CONTROL_REGISTER as nat) as int] & slot_bits(
            breakpoint.register_index as nat,
        ),
    ensures
        in_place(BreakpointView::Hardware(breakpoint), after),
{
}

/// Adding a hardware breakpoint in a free slot puts it in place and leaves
/// every other breakpoint in place.
proof fn lemma_add_hardware_in_step(traced: Traced, address: u64)
    requires
        traced.in_step(),
        !traced.refuses(Change::AddHardware { address }),
    ensures
        traced.step(Change::AddHardware { address }).in_step(),
{
    let change = Change::AddHardware { address };
    let before = traced.debugee.breakpoints;
    let slot = free_slot(before).unwrap();
    let fresh = HardwareView { address, register_index: slot, enabled: false };
    let made = traced.debugee.hardware_made(address);
    let target = traced.target;
    let after = traced.step(change);
    let control = target.user[debug_register_offset(DEBUG_CONTROL_REGISTER as nat) as int];
    assert(!slot_used(before, slot));
    lemma_hardware_enable_effect(target, fresh);
    lemma_coherent_push(before, made);
    lemma_control_round_trip(control, slot as nat, ((slot + 1) % 4) as nat);
    assert forall|i: int| 0 <= i < after.debugee.breakpoints.len() implies in_place(
        #[trigger] after.debugee.breakpoints[i],
        after.target,
    ) by {
        if i < before.len() {
            assert(after.debugee.breakpoints[i] == before[i]);
            assert(in_place(before[i], target));
            assert(before[i].well_formed());
            match before[i] {
                BreakpointView::Software(inner) => {},
                BreakpointView::Hardware(inner) => {
                    assert(!uses_slot(before[i], slot));
                    lemma_control_round_trip(control, slot as nat, inner.register_index as nat);
                    lemma_hardware_stays(inner, target, after.target);
                },
            }
        }
    }
}

/// Adding a software breakpoint at a new address puts it in place and leaves
/// every other breakpoint in place.
proof fn lemma_add_software_in_step(traced: Traced, address: u64, size: u64)
    requires
        traced.in_step(),
        !traced.refuses(Change::AddSoftware { address, size }),
    ensures
        traced.step(Change::AddSoftware { address, size }).in_step(),
{
    let change = Change::AddSoftware { address, size };
    let before = traced.debugee.breakpoints;
    let fresh = SoftwareView {
        address,
        size: size as usize,
        enabled: false,
        original_bytes: Seq::empty(),
    };
    let target = traced.target;
    let after = traced.step(change);
    let made = traced.debugee.software_made(address, size, answers(target, traced.plan(change)));
    lemma_software_enable_effect(target, fresh);
    lemma_coherent_push(before, made);
    assert forall|i: int| 0 <= i < after.debugee.breakpoints.len() implies in_place(
        #[trigger] after.debugee.breakpoints[i],
        after.target,
    ) by {
        if i < before.len() {
            assert(after.debugee.breakpoints[i] == before[i]);
            assert(in_place(before[i], target));
            assert(before[i].address() != address);
        }
    }
}

/// Taking a breakpoint out leaves every other breakpoint in place.
proof fn lemma_remove_in_step(traced: Traced, address: u64)
    requires
        traced.in_step(),
    ensures
        traced.step(Change::Remove { address }).in_step(),
{
    let change = Change::Remove { address };
    let before = traced.debugee.breakpoints;
    let target = traced.target;
    let after = traced.step(change);
    if holds(before, address) {
        let index = index_of(before, address);
        let control = target.user[debug_register_offset(DEBUG_CONTROL_REGISTER as nat) as int];
        lemma_coherent_remove(before, index);
        assert(before[index].well_formed() && before[index].enabled());
        match before[index] {
            BreakpointView::Software(gone) => {
                lemma_software_disable_effect(target, gone);
            },
            BreakpointView::Hardware(gone) => {
                lemma_hardware_disable_effect(target, gone);
            },
        }
        assert forall|i: int| 0 <= i < after.debugee.breakpoints.len() implies in_place(
            #[trigger] after.debugee.breakpoints[i],
            after.target,
        ) by {
            let at = if i < index { i } else { i + 1 };
            assert(after.debugee.breakpoints[i] == before[at]);
            assert(in_place(before[at], target));
            assert(before[at].well_formed());
            if at < index {
                assert(before[at].address() != before[index].address());
            } else {
                assert(before[index].address() != before[at].address());
            }
            match before[at] {
                BreakpointView::Software(inner) => {},
                BreakpointView::Hardware(inner) => {
                    match before[index] {
                        BreakpointView::Software(gone) => {},
                        BreakpointView::Hardware(gone) => {
                            assert(before[at] is Hardware && before[index] is Hardware);
                            assert(inner.register_index != gone.register_index);
                            lemma_control_round_trip(
                                control,
                                gone.register_index as nat,
                                inner.register_index as nat,
                            );
                            lemma_hardware_stays(inner, target, after.target);
                        },
                    }
                },
            }
        }
    } else {
        assert(traced.plan(change) =~= Seq::<Request>::empty());
    }
}

/// A process without breakpoints is in step with the debugger, whatever it
/// holds: so it is when it was just attached.
pub proof fn lemma_attached_in_step(traced: Traced)
    requires
        traced.debugee.breakpoints.len() == 0,
    ensures
        traced.in_step(),
{
}

/// One change keeps the debugger and the target in step: the target answers
/// the requests of the change, and afterwards the breakpoints can stand
/// together and the target holds what each of them asks for. In particular
/// the register of each hardware breakpoint holds its address, and its two
/// bits of the control register are set, whatever was added or taken out
/// beside it.
pub proof fn lemma_change_in_step(traced: Traced, change: Change)
    requires
        traced.in_step(),
    ensures
        all_fit(traced.plan(change), answers(traced.target, traced.plan(change))),
        traced.step(change).in_step(),
{
    lemma_answers_fit(traced.target, traced.plan(change));
    if !traced.refuses(change) {
        match change {
            Change::AddSoftware { address, size } => lemma_add_software_in_step(
                traced,
                address,
                size,
            ),
            Change::AddHardware { address } => lemma_add_hardware_in_step(traced, address),
            Change::Remove { address } => lemma_remove_in_step(traced, address),
        }
    }
}

/// Any number of changes keeps the debugger and the target in step: after
/// any breakpoints were added and taken out, each hardware breakpoint that is
/// installed has its address in the register of its slot and its two bits set
/// in the control register, each software breakpoint has its trap in memory,
/// and no two breakpoints share an address or a slot.
pub proof fn lemma_changes_in_step(traced: Traced, changes: Seq<Change>)
    requires
        traced.in_step(),
    ensures
        traced.steps(changes).in_step(),
    decreases changes.len(),
{
    if changes.len() > 0 {
        lemma_changes_in_step(traced, changes.drop_last());
        lemma_change_in_step(traced.steps(changes.drop_last()), changes.last());
    }
}

} // verus!

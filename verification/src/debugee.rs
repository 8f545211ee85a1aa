use vstd::prelude::*;
use crate::breakpoint::{
    lemma_software_round_trip, Breakpoint, BreakpointView, HardwareBreakpoint, HardwareView,
    SoftwareBreakpoint, SoftwareView, HARDWARE_SLOTS,
};
use crate::error::DebugError;
use crate::memory::{
    read_bytes, read_plan, read_requests, read_result, reachable, write_plan, write_requests,
};
use crate::registers::{Register, Registers};
use crate::status::{classified, classify, StopEvent};
use crate::tracing::{
    all_fit, answers, confirm, lemma_answers_fit, lemma_run_push, registers_in, run, Reply, Request,
    Target,
};

verus! {

/// The debugger's side of one traced process: whether it is stopped, the
/// registers as they were last fetched, and the breakpoints that are installed.
pub struct Debugee {
    stopped: bool,
    pid: u32,
    breakpoints: Vec<Breakpoint>,
    context: Registers,
}

/// What a [`Debugee`] holds.
pub struct DebugeeView {
    pub stopped: bool,
    pub pid: u32,
    pub breakpoints: Seq<BreakpointView>,
    pub context: Registers,
}

/// What a stop of the process calls for.
#[derive(Clone, Copy, Debug, PartialEq, Eq, Structural)]
pub struct StopReport {
    /// What the wait status told.
    pub event: StopEvent,
    /// Where the instruction pointer has to be set before the process runs on,
    /// where the stop came from the trap of a software breakpoint.
    pub resume_at: Option<u64>,
}

/// What a click on an instruction does to the breakpoint there.
#[derive(Clone, Copy, Debug, PartialEq, Eq, Structural)]
pub enum Toggle {
    /// No breakpoint stands there: a software breakpoint is added.
    AddSoftware,
    /// A software breakpoint stands there: it is taken out and a hardware
    /// breakpoint is added in its place.
    ReplaceByHardware,
    /// A hardware breakpoint stands there: it is taken out.
    Remove,
}

/// Whether `breakpoint` is a hardware breakpoint in slot `slot`.
pub open spec fn uses_slot(breakpoint: BreakpointView, slot: usize) -> bool {
    breakpoint matches BreakpointView::Hardware(inner) && inner.register_index == slot
}

/// Whether a breakpoint stands at `address`.
pub open spec fn holds(breakpoints: Seq<BreakpointView>, address: u64) -> bool {
    exists|i: int| 0 <= i < breakpoints.len() && (#[trigger] breakpoints[i]).address() == address
}

/// Position of a breakpoint that stands at `address`.
pub open spec fn index_of(breakpoints: Seq<BreakpointView>, address: u64) -> int {
    choose|i: int| 0 <= i < breakpoints.len() && (#[trigger] breakpoints[i]).address() == address
}

/// Whether a hardware breakpoint uses slot `slot`.
pub open spec fn slot_used(breakpoints: Seq<BreakpointView>, slot: usize) -> bool {
    exists|i: int| 0 <= i < breakpoints.len() && uses_slot(#[trigger] breakpoints[i], slot)
}

/// The lowest slot that no hardware breakpoint uses.
pub open spec fn free_slot(breakpoints: Seq<BreakpointView>) -> Option<usize> {
    if !slot_used(breakpoints, 0) {
        Some(0usize)
    } else if !slot_used(breakpoints, 1) {
        Some(1usize)
    } else if !slot_used(breakpoints, 2) {
        Some(2usize)
    } else if !slot_used(breakpoints, 3) {
        Some(3usize)
    } else {
        None
    }
}

/// Number of hardware breakpoints.
pub open spec fn hardware_count(breakpoints: Seq<BreakpointView>) -> nat
    decreases breakpoints.len(),
{
    if breakpoints.len() == 0 {
        0
    } else {
        hardware_count(breakpoints.drop_last()) + if breakpoints.last() is Hardware {
            1nat
        } else {
            0nat
        }
    }
}

/// Whether the breakpoints can stand together: each is installed, no two
/// stand at one address, and no two use one slot.
pub open spec fn coherent(breakpoints: Seq<BreakpointView>) -> bool {
    &&& forall|i: int|
        0 <= i < breakpoints.len() ==> (#[trigger] breakpoints[i]).well_formed()
            && breakpoints[i].enabled()
    &&& forall|i: int, j: int|
        0 <= i < j < breakpoints.len() ==> (#[trigger] breakpoints[i]).address()
            != (#[trigger] breakpoints[j]).address()
    &&& forall|i: int, j: int|
        0 <= i < j < breakpoints.len() && (#[trigger] breakpoints[i]) is Hardware
            && (#[trigger] breakpoints[j]) is Hardware ==> breakpoints[i]->Hardware_0.register_index
            != breakpoints[j]->Hardware_0.register_index
}

/// Where the process has to go on after a stop: past the instruction under a
/// software breakpoint when the stop is a trap and the instruction pointer
/// stands one byte behind the breakpoint's address; nowhere else otherwise.
pub open spec fn correction(breakpoints: Seq<BreakpointView>, event: StopEvent, rip: u64) -> Option<
    u64,
> {
    if event.spec_is_trap() && rip >= 1 && holds(breakpoints, (rip - 1) as u64) && breakpoints[index_of(
        breakpoints,
        (rip - 1) as u64,
    )] is Software && rip - 1 + breakpoints[index_of(breakpoints, (rip - 1) as u64)].size()
        <= u64::MAX {
        Some((rip - 1 + breakpoints[index_of(breakpoints, (rip - 1) as u64)].size()) as u64)
    } else {
        None
    }
}

impl DebugeeView {
    /// Whether the breakpoints can stand together.
    pub open spec fn well_formed(self) -> bool {
        coherent(self.breakpoints)
    }

    /// The requests that install a software breakpoint at `address`.
    pub open spec fn software_plan(self, address: u64, size: u64) -> Seq<Request> {
        (SoftwareView {
            address,
            size: size as usize,
            enabled: false,
            original_bytes: Seq::empty(),
        }).enable_plan()
    }

    /// The software breakpoint at `address` once `replies` tell that it is installed.
    pub open spec fn software_made(self, address: u64, size: u64, replies: Seq<Reply>) -> BreakpointView {
        BreakpointView::Software(
            (SoftwareView {
                address,
                size: size as usize,
                enabled: false,
                original_bytes: Seq::empty(),
            }).enabled_by(replies),
        )
    }

    /// The requests that install a hardware breakpoint at `address` in the
    /// lowest free slot.
    pub open spec fn hardware_plan(self, address: u64) -> Seq<Request> {
        (HardwareView {
            address,
            register_index: free_slot(self.breakpoints).unwrap(),
            enabled: false,
        }).enable_plan()
    }

    /// The hardware breakpoint at `address` in the lowest free slot, installed.
    pub open spec fn hardware_made(self, address: u64) -> BreakpointView {
        BreakpointView::Hardware(
            HardwareView {
                address,
                register_index: free_slot(self.breakpoints).unwrap(),
                enabled: true,
            },
        )
    }

    /// The requests that take out the breakpoint at `address`: none where
    /// none stands there.
    pub open spec fn removal_plan(self, address: u64) -> Seq<Request> {
        if holds(self.breakpoints, address) {
            self.breakpoints[index_of(self.breakpoints, address)].disable_plan()
        } else {
            Seq::empty()
        }
    }

    /// The debugee with `breakpoint` added behind the others.
    pub open spec fn with_breakpoint(self, breakpoint: BreakpointView) -> DebugeeView {
        DebugeeView { breakpoints: self.breakpoints.push(breakpoint), ..self }
    }

    /// The debugee without the breakpoint at `address`.
    pub open spec fn without_breakpoint(self, address: u64) -> DebugeeView {
        if holds(self.breakpoints, address) {
            DebugeeView {
                breakpoints: self.breakpoints.remove(index_of(self.breakpoints, address)),
                ..self
            }
        } else {
            self
        }
    }

    /// The requests that a wait status calls for: the registers are fetched
    /// where it tells of a stop, the one case in which they can be had.
    pub open spec fn status_plan(self, status: i32) -> Seq<Request> {
        if classified(status) is Stopped {
            seq![Request::GetRegisters]
        } else {
            Seq::empty()
        }
    }
}

impl View for Debugee {
    type V = DebugeeView;

    closed spec fn view(&self) -> DebugeeView {
        DebugeeView {
            stopped: self.stopped,
            pid: self.pid,
            breakpoints: Seq::new(self.breakpoints@.len(), |i: int| self.breakpoints@[i]@),
            context: self.context,
        }
    }
}

impl Debugee {
    /// The breakpoints can stand together: each is installed, no two stand
    /// at one address, and no two use one slot.
    #[verifier::type_invariant]
    spec fn holds_together(&self) -> bool {
        self@.well_formed()
    }

    /// The request that begins tracing a process.
    pub fn attach_requests() -> (requests: Vec<Request>)
        ensures
            requests@ == seq![Request::Seize],
    {
        let mut requests: Vec<Request> = Vec::new();
        requests.push(Request::Seize);
        requests
    }

    /// The debugger's side of the process `pid`, once `replies` tell that
    /// tracing has begun: it runs, no breakpoint is installed and every
    /// register of the snapshot is zero.
    ///
    /// Fails with `AttachError` unless `replies` answer the request of
    /// [`Self::attach_requests`].
    pub fn new(pid: u32, replies: &Vec<Reply>) -> (debugee: Result<Self, DebugError>)
        ensures
            match debugee {
                Ok(made) => {
                    &&& all_fit(seq![Request::Seize], replies@)
                    &&& made@.well_formed()
                    &&& made@.pid == pid
                    &&& !made@.stopped
                    &&& made@.breakpoints == Seq::<BreakpointView>::empty()
                    &&& forall|register: Register| made@.context.spec_get(register) == 0
                },
                Err(error) => error == DebugError::AttachError && !all_fit(
                    seq![Request::Seize],
                    replies@,
                ),
            },
    {
        let requests = Self::attach_requests();
        match confirm(&requests, replies) {
            Ok(_) => {
                let made = Self {
                    stopped: false,
                    pid,
                    breakpoints: Vec::new(),
                    context: Registers::zeroed(),
                };
                assert(made@.breakpoints =~= Seq::<BreakpointView>::empty());
                Ok(made)
            },
            Err(_) => Err(DebugError::AttachError),
        }
    }

    /// Identity of the traced process.
    pub fn pid(&self) -> (pid: u32)
        ensures
            pid == self@.pid,
    {
        self.pid
    }

    /// Whether the process is stopped, as far as the debugger has been told.
    pub fn stopped(&self) -> (stopped: bool)
        ensures
            stopped == self@.stopped,
    {
        self.stopped
    }

    /// The registers as they were last fetched.
    pub fn context(&self) -> (context: &Registers)
        ensures
            *context == self@.context,
    {
        &self.context
    }

    /// The installed breakpoints, in the order in which they were added.
    pub fn breakpoints(&self) -> (breakpoints: &Vec<Breakpoint>)
        ensures
            self@.well_formed(),
            breakpoints@.len() == self@.breakpoints.len(),
            forall|i: int| 0 <= i < breakpoints@.len() ==> (#[trigger] breakpoints@[i])@
                == self@.breakpoints[i],
    {
        proof {
            use_type_invariant(self);
        }
        &self.breakpoints
    }

    /// Number of hardware breakpoints, from 0 to 4.
    pub fn hardware_breakpoints(&self) -> (count: usize)
        ensures
            count == hardware_count(self@.breakpoints),
            count <= HARDWARE_SLOTS,
    {
        proof {
            use_type_invariant(self);
            lemma_slots_counted(self@.breakpoints);
        }
        let mut count: usize = 0;
        let mut index: usize = 0;
        while index < self.breakpoints.len()
            invariant
                index <= self.breakpoints.len(),
                count == hardware_count(self@.breakpoints.take(index as int)),
                count <= index,
            decreases self.breakpoints.len() - index,
        {
            proof {
                assert(self@.breakpoints.take(index + 1).drop_last() =~= self@.breakpoints.take(
                    index as int,
                ));
            }
            if self.breakpoints[index].hardware() {
                count += 1;
            }
            index += 1;
        }
        assert(self@.breakpoints.take(index as int) =~= self@.breakpoints);
        count
    }

    /// Position of the breakpoint at `address`.
    fn position(&self, address: u64) -> (found: Option<usize>)
        ensures
            self@.well_formed(),
            match found {
                Some(index) => {
                    &&& holds(self@.breakpoints, address)
                    &&& index == index_of(self@.breakpoints, address)
                    &&& index < self.breakpoints@.len()
                    &&& self.breakpoints@[index as int]@ == self@.breakpoints[index as int]
                    &&& self@.breakpoints[index as int].address() == address
                },
                None => !holds(self@.breakpoints, address),
            },
    {
        proof {
            use_type_invariant(self);
        }
        let mut index: usize = 0;
        while index < self.breakpoints.len()
            invariant
                index <= self.breakpoints.len(),
                self@.well_formed(),
                forall|i: int| 0 <= i < index ==> (#[trigger] self@.breakpoints[i]).address() != address,
            decreases self.breakpoints.len() - index,
        {
            if self.breakpoints[index].address() == address {
                assert(self@.breakpoints[index as int].address() == address);
                return Some(index);
            }
            index += 1;
        }
        None
    }

    /// The breakpoint at `address`.
    pub fn breakpoint_at_address(&self, address: u64) -> (found: Option<&Breakpoint>)
        ensures
            match found {
                Some(breakpoint) => holds(self@.breakpoints, address) && breakpoint@
                    == self@.breakpoints[index_of(self@.breakpoints, address)] && breakpoint@.address()
                    == address,
                None => !holds(self@.breakpoints, address),
            },
    {
        match self.position(address) {
            Some(index) => Some(&self.breakpoints[index]),
            None => None,
        }
    }

    /// What a click on the instruction at `address` does: breakpoints go from
    /// none to software, from software to hardware, and from hardware to none.
    pub fn toggle_at(&self, address: u64) -> (toggle: Toggle)
        ensures
            toggle == if !holds(self@.breakpoints, address) {
                Toggle::AddSoftware
            } else if self@.breakpoints[index_of(self@.breakpoints, address)] is Software {
                Toggle::ReplaceByHardware
            } else {
                Toggle::Remove
            },
    {
        match self.breakpoint_at_address(address) {
            None => Toggle::AddSoftware,
            Some(breakpoint) => if breakpoint.hardware() {
                Toggle::Remove
            } else {
                Toggle::ReplaceByHardware
            },
        }
    }

    /// Whether a hardware breakpoint uses slot `slot`.
    fn slot_in_use(&self, slot: usize) -> (used: bool)
        ensures
            used == slot_used(self@.breakpoints, slot),
    {
        let mut index: usize = 0;
        while index < self.breakpoints.len()
            invariant
                index <= self.breakpoints.len(),
                forall|i: int| 0 <= i < index ==> !uses_slot(#[trigger] self@.breakpoints[i], slot),
            decreases self.breakpoints.len() - index,
        {
            match &self.breakpoints[index] {
                Breakpoint::Hardware(inner) => {
                    if inner.register_index() == slot {
                        assert(uses_slot(self@.breakpoints[index as int], slot));
                        return true;
                    }
                },
                Breakpoint::Software(_) => {},
            }
            index += 1;
        }
        false
    }

    /// The lowest slot that no hardware breakpoint uses.
    pub fn free_hardware_slot(&self) -> (slot: Option<usize>)
        ensures
            slot == free_slot(self@.breakpoints),
            slot matches Some(index) ==> index < HARDWARE_SLOTS,
    {
        if !self.slot_in_use(0) {
            Some(0)
        } else if !self.slot_in_use(1) {
            Some(1)
        } else if !self.slot_in_use(2) {
            Some(2)
        } else if !self.slot_in_use(3) {
            Some(3)
        } else {
            None
        }
    }
}

impl Debugee {
    /// The request that stops tracing and lets the process run on.
    pub fn detach_requests(&self) -> (requests: Vec<Request>)
        ensures
            requests@ == seq![Request::Detach],
    {
        let mut requests: Vec<Request> = Vec::new();
        requests.push(Request::Detach);
        requests
    }

    /// Takes note that tracing has stopped.
    ///
    /// Fails with `IoError` unless `replies` answer the request of
    /// [`Self::detach_requests`].
    pub fn detach(&self, replies: &Vec<Reply>) -> (outcome: Result<(), DebugError>)
        ensures
            outcome is Ok <==> all_fit(seq![Request::Detach], replies@),
            outcome is Err ==> outcome == Err::<(), DebugError>(DebugError::IoError),
    {
        confirm(&self.detach_requests(), replies)
    }

    /// The requests that terminate the process and stop tracing it.
    pub fn kill_requests(&self) -> (requests: Vec<Request>)
        ensures
            requests@ == seq![Request::Kill, Request::Detach],
    {
        let mut requests: Vec<Request> = Vec::new();
        requests.push(Request::Kill);
        requests.push(Request::Detach);
        requests
    }

    /// Takes note that the process was terminated and tracing has stopped.
    /// What the debugger holds of the process stays as it is, so that the
    /// same may be asked again.
    ///
    /// Fails with `IoError` unless `replies` answer the requests of
    /// [`Self::kill_requests`].
    pub fn kill(&self, replies: &Vec<Reply>) -> (outcome: Result<(), DebugError>)
        ensures
            outcome is Ok <==> all_fit(seq![Request::Kill, Request::Detach], replies@),
            outcome is Err ==> outcome == Err::<(), DebugError>(DebugError::IoError),
    {
        confirm(&self.kill_requests(), replies)
    }

    /// The requests that stop the running process and fetch its registers.
    ///
    /// What the kernel does when it is asked to stop a process that is
    /// stopped already is its own affair, and it may kill the process: look at
    /// [`Self::stopped`] first.
    pub fn stop_requests(&self) -> (requests: Vec<Request>)
        ensures
            requests@ == seq![Request::Interrupt, Request::GetRegisters],
    {
        let mut requests: Vec<Request> = Vec::new();
        requests.push(Request::Interrupt);
        requests.push(Request::GetRegisters);
        requests
    }

    /// Takes note that the process was stopped: it is stopped and the
    /// snapshot holds the registers that were fetched.
    ///
    /// Fails with `IoError`, and changes nothing, unless `replies` answer the
    /// requests of [`Self::stop_requests`].
    pub fn stop(&mut self, replies: &Vec<Reply>) -> (outcome: Result<(), DebugError>)
        ensures
            match outcome {
                Ok(_) => {
                    &&& all_fit(seq![Request::Interrupt, Request::GetRegisters], replies@)
                    &&& final(self)@ == (DebugeeView {
                        stopped: true,
                        context: replies@[1]->Registers_0,
                        ..old(self)@
                    })
                },
                Err(error) => {
                    &&& error == DebugError::IoError
                    &&& !all_fit(seq![Request::Interrupt, Request::GetRegisters], replies@)
                    &&& final(self)@ == old(self)@
                },
            },
    {
        proof {
            use_type_invariant(&*self);
        }
        let requests = self.stop_requests();
        match confirm(&requests, replies) {
            Ok(_) => {
                if let Reply::Registers(registers) = replies[1] {
                    self.context = registers;
                }
                self.stopped = true;
                Ok(())
            },
            Err(error) => Err(error),
        }
    }

    /// The requests that fetch the registers and let the stopped process run.
    /// The kernel is asked twice to let it run: once does not do.
    pub fn resume_requests(&self) -> (requests: Vec<Request>)
        ensures
            requests@ == seq![Request::GetRegisters, Request::Continue, Request::Continue],
    {
        let mut requests: Vec<Request> = Vec::new();
        requests.push(Request::GetRegisters);
        requests.push(Request::Continue);
        requests.push(Request::Continue);
        requests
    }

    /// Takes note that the process runs again: it is no longer stopped, and
    /// the snapshot holds the registers as they were just before.
    ///
    /// Fails with `IoError`, and changes nothing, unless `replies` answer the
    /// requests of [`Self::resume_requests`].
    pub fn resume(&mut self, replies: &Vec<Reply>) -> (outcome: Result<(), DebugError>)
        ensures
            match outcome {
                Ok(_) => {
                    &&& all_fit(
                        seq![Request::GetRegisters, Request::Continue, Request::Continue],
                        replies@,
                    )
                    &&& final(self)@ == (DebugeeView {
                        stopped: false,
                        context: replies@[0]->Registers_0,
                        ..old(self)@
                    })
                },
                Err(error) => {
                    &&& error == DebugError::IoError
                    &&& !all_fit(
                        seq![Request::GetRegisters, Request::Continue, Request::Continue],
                        replies@,
                    )
                    &&& final(self)@ == old(self)@
                },
            },
    {
        proof {
            use_type_invariant(&*self);
        }
        let requests = self.resume_requests();
        match confirm(&requests, replies) {
            Ok(_) => {
                if let Reply::Registers(registers) = replies[0] {
                    self.context = registers;
                }
                self.stopped = false;
                Ok(())
            },
            Err(error) => Err(error),
        }
    }

    /// The requests that let the stopped process execute one instruction and
    /// fetch its registers.
    pub fn single_step_requests(&self) -> (requests: Vec<Request>)
        ensures
            requests@ == seq![Request::SingleStep, Request::GetRegisters],
    {
        let mut requests: Vec<Request> = Vec::new();
        requests.push(Request::SingleStep);
        requests.push(Request::GetRegisters);
        requests
    }

    /// Takes note that the process has executed one instruction: the snapshot
    /// holds the registers that were fetched.
    ///
    /// Fails with `IoError`, and changes nothing, unless `replies` answer the
    /// requests of [`Self::single_step_requests`].
    pub fn single_step(&mut self, replies: &Vec<Reply>) -> (outcome: Result<(), DebugError>)
        ensures
            match outcome {
                Ok(_) => {
                    &&& all_fit(seq![Request::SingleStep, Request::GetRegisters], replies@)
                    &&& final(self)@ == (DebugeeView {
                        context: replies@[1]->Registers_0,
                        ..old(self)@
                    })
                },
                Err(error) => {
                    &&& error == DebugError::IoError
                    &&& !all_fit(seq![Request::SingleStep, Request::GetRegisters], replies@)
                    &&& final(self)@ == old(self)@
                },
            },
    {
        proof {
            use_type_invariant(&*self);
        }
        let requests = self.single_step_requests();
        match confirm(&requests, replies) {
            Ok(_) => {
                if let Reply::Registers(registers) = replies[1] {
                    self.context = registers;
                }
                Ok(())
            },
            Err(error) => Err(error),
        }
    }

    /// The request that fetches the registers.
    pub fn update_context_requests(&self) -> (requests: Vec<Request>)
        ensures
            requests@ == seq![Request::GetRegisters],
    {
        let mut requests: Vec<Request> = Vec::new();
        requests.push(Request::GetRegisters);
        requests
    }

    /// Puts the registers that were fetched into the snapshot and hands the
    /// snapshot out.
    ///
    /// Fails with `IoError`, and changes nothing, unless `replies` answer the
    /// request of [`Self::update_context_requests`].
    pub fn update_context(&mut self, replies: &Vec<Reply>) -> (outcome: Result<Registers, DebugError>)
        ensures
            match outcome {
                Ok(context) => {
                    &&& all_fit(seq![Request::GetRegisters], replies@)
                    &&& context == replies@[0]->Registers_0
                    &&& final(self)@ == (DebugeeView { context, ..old(self)@ })
                },
                Err(error) => {
                    &&& error == DebugError::IoError
                    &&& !all_fit(seq![Request::GetRegisters], replies@)
                    &&& final(self)@ == old(self)@
                },
            },
    {
        proof {
            use_type_invariant(&*self);
        }
        let requests = self.update_context_requests();
        match confirm(&requests, replies) {
            Ok(_) => {
                if let Reply::Registers(registers) = replies[0] {
                    self.context = registers;
                }
                Ok(self.context)
            },
            Err(error) => Err(error),
        }
    }

    /// The requests that fetch `size` bytes of memory from `address` on.
    ///
    /// Fails with `IoError` where a word to be read would lie beyond the end
    /// of the address space.
    pub fn read_memory_requests(&self, address: u64, size: usize) -> (requests: Result<
        Vec<Request>,
        DebugError,
    >)
        ensures
            match requests {
                Ok(list) => reachable(address, size as nat) && list@ == read_plan(
                    address,
                    size as nat,
                ),
                Err(error) => error == DebugError::IoError && !reachable(address, size as nat),
            },
    {
        read_requests(address, size)
    }

    /// The `size` bytes that were fetched from `address` on.
    ///
    /// Fails with `IoError` unless `replies` answer the requests of
    /// [`Self::read_memory_requests`] one for one.
    pub fn read_memory(&self, address: u64, size: usize, replies: &Vec<Reply>) -> (bytes: Result<
        Vec<u8>,
        DebugError,
    >)
        ensures
            match bytes {
                Ok(list) => {
                    &&& reachable(address, size as nat)
                    &&& all_fit(read_plan(address, size as nat), replies@)
                    &&& list@ == read_bytes(replies@, size as nat)
                },
                Err(error) => {
                    &&& error == DebugError::IoError
                    &&& !(reachable(address, size as nat) && all_fit(
                        read_plan(address, size as nat),
                        replies@,
                    ))
                },
            },
    {
        read_result(address, size, replies)
    }

    /// The requests that write `data` to memory from `address` on.
    ///
    /// Fails with `IoError` where a word to be written would lie beyond the
    /// end of the address space.
    pub fn write_memory_requests(&self, address: u64, data: &Vec<u8>) -> (requests: Result<
        Vec<Request>,
        DebugError,
    >)
        ensures
            match requests {
                Ok(list) => reachable(address, data@.len()) && list@ == write_plan(address, data@),
                Err(error) => error == DebugError::IoError && !reachable(address, data@.len()),
            },
    {
        write_requests(address, data)
    }

    /// Takes note that `data` was written from `address` on.
    ///
    /// Fails with `IoError` unless `replies` answer the requests of
    /// [`Self::write_memory_requests`] one for one.
    pub fn write_memory(&self, address: u64, data: &Vec<u8>, replies: &Vec<Reply>) -> (outcome:
        Result<(), DebugError>)
        ensures
            outcome is Ok <==> reachable(address, data@.len()) && all_fit(
                write_plan(address, data@),
                replies@,
            ),
            outcome is Err ==> outcome == Err::<(), DebugError>(DebugError::IoError),
    {
        match write_requests(address, data) {
            Ok(requests) => confirm(&requests, replies),
            Err(error) => Err(error),
        }
    }

    /// The request that reads the word of the user area at `offset`.
    pub fn read_user_requests(&self, offset: u64) -> (requests: Vec<Request>)
        ensures
            requests@ == seq![Request::PeekUser { offset }],
    {
        let mut requests: Vec<Request> = Vec::new();
        requests.push(Request::PeekUser { offset });
        requests
    }

    /// The word of the user area that was read at `offset`.
    ///
    /// Fails with `IoError` unless `replies` answer the request of
    /// [`Self::read_user_requests`].
    pub fn read_user(&self, offset: u64, replies: &Vec<Reply>) -> (word: Result<u64, DebugError>)
        ensures
            match word {
                Ok(value) => all_fit(seq![Request::PeekUser { offset }], replies@) && value
                    == replies@[0]->Word_0,
                Err(error) => error == DebugError::IoError && !all_fit(
                    seq![Request::PeekUser { offset }],
                    replies@,
                ),
            },
    {
        let requests = self.read_user_requests(offset);
        match confirm(&requests, replies) {
            Ok(_) => match replies[0] {
                Reply::Word(value) => Ok(value),
                _ => Err(DebugError::IoError),
            },
            Err(error) => Err(error),
        }
    }

    /// The request that writes `value` to the user area at `offset`.
    pub fn write_user_requests(&self, offset: u64, value: u64) -> (requests: Vec<Request>)
        ensures
            requests@ == seq![Request::PokeUser { offset, value }],
    {
        let mut requests: Vec<Request> = Vec::new();
        requests.push(Request::PokeUser { offset, value });
        requests
    }

    /// Takes note that `value` was written to the user area at `offset`.
    ///
    /// Fails with `IoError` unless `replies` answer the request of
    /// [`Self::write_user_requests`].
    pub fn write_user(&self, offset: u64, value: u64, replies: &Vec<Reply>) -> (outcome: Result<
        (),
        DebugError,
    >)
        ensures
            outcome is Ok <==> all_fit(seq![Request::PokeUser { offset, value }], replies@),
            outcome is Err ==> outcome == Err::<(), DebugError>(DebugError::IoError),
    {
        confirm(&self.write_user_requests(offset, value), replies)
    }

    /// The requests that write `value` to `register` and fetch the registers.
    pub fn write_register_requests(&self, register: Register, value: u64) -> (requests: Vec<Request>)
        ensures
            requests@ == seq![
                Request::PokeUser { offset: register.spec_offset(), value },
                Request::GetRegisters,
            ],
    {
        let mut requests: Vec<Request> = Vec::new();
        requests.push(Request::PokeUser { offset: register.offset(), value });
        requests.push(Request::GetRegisters);
        requests
    }

    /// Takes note that `value` was written to `register`: the snapshot holds
    /// the registers that were fetched after the write.
    ///
    /// Fails with `IoError`, and changes nothing, unless `replies` answer the
    /// requests of [`Self::write_register_requests`].
    pub fn write_register(&mut self, register: Register, value: u64, replies: &Vec<Reply>) -> (outcome:
        Result<(), DebugError>)
        ensures
            match outcome {
                Ok(_) => {
                    &&& all_fit(
                        seq![
                            Request::PokeUser { offset: register.spec_offset(), value },
                            Request::GetRegisters,
                        ],
                        replies@,
                    )
                    &&& final(self)@ == (DebugeeView {
                        context: replies@[1]->Registers_0,
                        ..old(self)@
                    })
                },
                Err(error) => {
                    &&& error == DebugError::IoError
                    &&& !all_fit(
                        seq![
                            Request::PokeUser { offset: register.spec_offset(), value },
                            Request::GetRegisters,
                        ],
                        replies@,
                    )
                    &&& final(self)@ == old(self)@
                },
            },
    {
        proof {
            use_type_invariant(&*self);
        }
        let requests = self.write_register_requests(register, value);
        match confirm(&requests, replies) {
            Ok(_) => {
                if let Reply::Registers(registers) = replies[1] {
                    self.context = registers;
                }
                Ok(())
            },
            Err(error) => Err(error),
        }
    }

    /// The request that writes `rip` to the instruction pointer.
    pub fn set_rip_requests(&self, rip: u64) -> (requests: Vec<Request>)
        ensures
            requests@ == seq![Request::PokeUser { offset: Register::Rip.spec_offset(), value: rip }],
    {
        let mut requests: Vec<Request> = Vec::new();
        requests.push(Request::PokeUser { offset: Register::Rip.offset(), value: rip });
        requests
    }

    /// Takes note that `rip` was written to the instruction pointer: the
    /// snapshot holds it too, and every other register as before.
    ///
    /// Fails with `IoError`, and changes nothing, unless `replies` answer the
    /// request of [`Self::set_rip_requests`].
    pub fn set_rip(&mut self, rip: u64, replies: &Vec<Reply>) -> (outcome: Result<(), DebugError>)
        ensures
            match outcome {
                Ok(_) => {
                    &&& all_fit(
                        seq![Request::PokeUser { offset: Register::Rip.spec_offset(), value: rip }],
                        replies@,
                    )
                    &&& final(self)@ == (DebugeeView {
                        context: old(self)@.context.spec_with(Register::Rip, rip),
                        ..old(self)@
                    })
                },
                Err(error) => {
                    &&& error == DebugError::IoError
                    &&& !all_fit(
                        seq![Request::PokeUser { offset: Register::Rip.spec_offset(), value: rip }],
                        replies@,
                    )
                    &&& final(self)@ == old(self)@
                },
            },
    {
        proof {
            use_type_invariant(&*self);
        }
        let requests = self.set_rip_requests(rip);
        match confirm(&requests, replies) {
            Ok(_) => {
                self.context = self.context.with(Register::Rip, rip);
                Ok(())
            },
            Err(error) => Err(error),
        }
    }
}

impl Debugee {
    /// The requests that install a software breakpoint at `address`, on an
    /// instruction of `size` bytes.
    ///
    /// Fails with `DuplicateBreakpoint` where a breakpoint stands at `address`.
    pub fn add_software_breakpoint_requests(&self, address: u64, size: u64) -> (requests: Result<
        Vec<Request>,
        DebugError,
    >)
        ensures
            match requests {
                Ok(list) => !holds(self@.breakpoints, address) && list@ == self@.software_plan(
                    address,
                    size,
                ),
                Err(error) => error == DebugError::DuplicateBreakpoint && holds(
                    self@.breakpoints,
                    address,
                ),
            },
    {
        match self.position(address) {
            Some(_) => Err(DebugError::DuplicateBreakpoint),
            None => Ok(SoftwareBreakpoint::new(address, size).enable_requests()),
        }
    }

    /// Takes note that a software breakpoint was installed at `address`: it
    /// joins the breakpoints, with the byte that its trap displaced.
    ///
    /// Fails with `DuplicateBreakpoint` where a breakpoint stands at
    /// `address`, and else with `IoError` unless `replies` answer the requests
    /// of [`Self::add_software_breakpoint_requests`] one for one. Changes
    /// nothing where it fails.
    pub fn add_software_breakpoint(&mut self, address: u64, size: u64, replies: &Vec<Reply>) -> (outcome:
        Result<(), DebugError>)
        ensures
            final(self)@.well_formed(),
            match outcome {
                Ok(_) => {
                    &&& !holds(old(self)@.breakpoints, address)
                    &&& all_fit(old(self)@.software_plan(address, size), replies@)
                    &&& final(self)@ == old(self)@.with_breakpoint(
                        old(self)@.software_made(address, size, replies@),
                    )
                },
                Err(error) => {
                    &&& final(self)@ == old(self)@
                    &&& error == if holds(old(self)@.breakpoints, address) {
                        DebugError::DuplicateBreakpoint
                    } else {
                        DebugError::IoError
                    }
                    &&& holds(old(self)@.breakpoints, address) || !all_fit(
                        old(self)@.software_plan(address, size),
                        replies@,
                    )
                },
            },
    {
        if self.position(address).is_some() {
            return Err(DebugError::DuplicateBreakpoint);
        }
        let mut breakpoint = SoftwareBreakpoint::new(address, size);
        match breakpoint.enable(replies) {
            Ok(_) => {},
            Err(error) => {
                return Err(error);
            },
        }
        let ghost before = self@;
        let made = Breakpoint::Software(breakpoint);
        let mut list: Vec<Breakpoint> = Vec::new();
        std::mem::swap(&mut self.breakpoints, &mut list);
        list.push(made);
        proof {
            lemma_coherent_push(before.breakpoints, made@);
            assert(before.breakpoints.push(made@) =~= Seq::new(list@.len(), |i: int| list@[i]@));
        }
        std::mem::swap(&mut self.breakpoints, &mut list);
        Ok(())
    }

    /// The requests that install a hardware breakpoint at `address` in the
    /// lowest free slot.
    ///
    /// Fails with `DuplicateBreakpoint` where a breakpoint stands at
    /// `address`, and else with `SlotExhausted` where all four slots are in use.
    pub fn add_hardware_breakpoint_requests(&self, address: u64) -> (requests: Result<
        Vec<Request>,
        DebugError,
    >)
        ensures
            match requests {
                Ok(list) => {
                    &&& !holds(self@.breakpoints, address)
                    &&& free_slot(self@.breakpoints) is Some
                    &&& list@ == self@.hardware_plan(address)
                },
                Err(error) => {
                    &&& holds(self@.breakpoints, address) || free_slot(self@.breakpoints) is None
                    &&& error == if holds(self@.breakpoints, address) {
                        DebugError::DuplicateBreakpoint
                    } else {
                        DebugError::SlotExhausted
                    }
                },
            },
    {
        if self.position(address).is_some() {
            return Err(DebugError::DuplicateBreakpoint);
        }
        match self.free_hardware_slot() {
            None => Err(DebugError::SlotExhausted),
            Some(slot) => match HardwareBreakpoint::new(address, slot) {
                Ok(breakpoint) => Ok(breakpoint.enable_requests()),
                Err(_) => Err(DebugError::SlotExhausted),
            },
        }
    }

    /// Takes note that a hardware breakpoint was installed at `address` in
    /// the lowest free slot: it joins the breakpoints.
    ///
    /// Fails with `DuplicateBreakpoint` where a breakpoint stands at
    /// `address`, else with `SlotExhausted` where all four slots are in use,
    /// and else with `IoError` unless `replies` answer the requests of
    /// [`Self::add_hardware_breakpoint_requests`] one for one. Changes nothing
    /// where it fails.
    pub fn add_hardware_breakpoint(&mut self, address: u64, replies: &Vec<Reply>) -> (outcome: Result<
        (),
        DebugError,
    >)
        ensures
            final(self)@.well_formed(),
            match outcome {
                Ok(_) => {
                    &&& !holds(old(self)@.breakpoints, address)
                    &&& free_slot(old(self)@.breakpoints) is Some
                    &&& all_fit(old(self)@.hardware_plan(address), replies@)
                    &&& final(self)@ == old(self)@.with_breakpoint(old(self)@.hardware_made(address))
                },
                Err(error) => {
                    &&& final(self)@ == old(self)@
                    &&& error == if holds(old(self)@.breakpoints, address) {
                        DebugError::DuplicateBreakpoint
                    } else if free_slot(old(self)@.breakpoints) is None {
                        DebugError::SlotExhausted
                    } else {
                        DebugError::IoError
                    }
                    &&& holds(old(self)@.breakpoints, address) || free_slot(old(self)@.breakpoints)
                        is None || !all_fit(old(self)@.hardware_plan(address), replies@)
                },
            },
    {
        if self.position(address).is_some() {
            return Err(DebugError::DuplicateBreakpoint);
        }
        let slot = match self.free_hardware_slot() {
            None => {
                return Err(DebugError::SlotExhausted);
            },
            Some(slot) => slot,
        };
        let mut breakpoint = match HardwareBreakpoint::new(address, slot) {
            Ok(breakpoint) => breakpoint,
            Err(_) => {
                return Err(DebugError::SlotExhausted);
            },
        };
        match breakpoint.enable(replies) {
            Ok(_) => {},
            Err(error) => {
                return Err(error);
            },
        }
        let ghost before = self@;
        let made = Breakpoint::Hardware(breakpoint);
        let mut list: Vec<Breakpoint> = Vec::new();
        std::mem::swap(&mut self.breakpoints, &mut list);
        list.push(made);
        proof {
            lemma_coherent_push(before.breakpoints, made@);
            assert(before.breakpoints.push(made@) =~= Seq::new(list@.len(), |i: int| list@[i]@));
        }
        std::mem::swap(&mut self.breakpoints, &mut list);
        Ok(())
    }

    /// The requests that take out the breakpoint at `address`: none where
    /// none stands there.
    pub fn try_remove_breakpoint_requests(&self, address: u64) -> (requests: Vec<Request>)
        ensures
            requests@ == self@.removal_plan(address),
    {
        match self.position(address) {
            Some(index) => self.breakpoints[index].disable_requests(),
            None => Vec::new(),
        }
    }

    /// Takes note that the breakpoint at `address` was taken out: it leaves
    /// the breakpoints, and with it goes its slot where it had one. Where no
    /// breakpoint stands at `address`, nothing changes.
    ///
    /// Fails with `IoError`, and changes nothing, unless `replies` answer the
    /// requests of [`Self::try_remove_breakpoint_requests`] one for one.
    pub fn try_remove_breakpoint(&mut self, address: u64, replies: &Vec<Reply>) -> (outcome: Result<
        (),
        DebugError,
    >)
        ensures
            final(self)@.well_formed(),
            match outcome {
                Ok(_) => {
                    &&& all_fit(old(self)@.removal_plan(address), replies@)
                    &&& final(self)@ == old(self)@.without_breakpoint(address)
                },
                Err(error) => {
                    &&& error == DebugError::IoError
                    &&& !all_fit(old(self)@.removal_plan(address), replies@)
                    &&& final(self)@ == old(self)@
                },
            },
    {
        let requests = self.try_remove_breakpoint_requests(address);
        match confirm(&requests, replies) {
            Ok(_) => {},
            Err(error) => {
                proof {
                    use_type_invariant(&*self);
                }
                return Err(error);
            },
        }
        match self.position(address) {
            Some(index) => {
                let ghost before = self@;
                let mut list: Vec<Breakpoint> = Vec::new();
                std::mem::swap(&mut self.breakpoints, &mut list);
                let removed = list.remove(index);
                proof {
                    lemma_coherent_remove(before.breakpoints, index as int);
                    assert(before.breakpoints.remove(index as int) =~= Seq::new(
                        list@.len(),
                        |i: int| list@[i]@,
                    ));
                }
                std::mem::swap(&mut self.breakpoints, &mut list);
            },
            None => {},
        }
        Ok(())
    }

    /// The requests that a wait status calls for: the registers are fetched
    /// where it tells of a stop.
    pub fn handle_status_requests(&self, status: i32) -> (requests: Vec<Request>)
        ensures
            requests@ == self@.status_plan(status),
    {
        let mut requests: Vec<Request> = Vec::new();
        match classify(status) {
            StopEvent::Stopped { .. } => {
                requests.push(Request::GetRegisters);
            },
            _ => {},
        }
        assert(requests@ =~= self@.status_plan(status));
        requests
    }

    /// Takes note of a wait status. After an exit or a stop the process counts
    /// as stopped. After a stop the snapshot holds the registers that were
    /// fetched. Where a trap stopped it one byte behind the address of a
    /// software breakpoint, the report tells where the instruction pointer
    /// has to be set: behind the instruction that the breakpoint covers.
    ///
    /// Fails with `IoError`, and changes nothing, unless `replies` answer the
    /// requests of [`Self::handle_status_requests`] one for one.
    pub fn handle_status(&mut self, status: i32, replies: &Vec<Reply>) -> (outcome: Result<
        StopReport,
        DebugError,
    >)
        ensures
            final(self)@.well_formed(),
            match outcome {
                Ok(report) => {
                    &&& all_fit(old(self)@.status_plan(status), replies@)
                    &&& report.event == classified(status)
                    &&& final(self)@ == (DebugeeView {
                        stopped: old(self)@.stopped || report.event.spec_halts(),
                        context: if report.event is Stopped {
                            replies@[0]->Registers_0
                        } else {
                            old(self)@.context
                        },
                        ..old(self)@
                    })
                    &&& report.resume_at == correction(
                        old(self)@.breakpoints,
                        report.event,
                        final(self)@.context.rip,
                    )
                },
                Err(error) => {
                    &&& error == DebugError::IoError
                    &&& !all_fit(old(self)@.status_plan(status), replies@)
                    &&& final(self)@ == old(self)@
                },
            },
    {
        proof {
            use_type_invariant(&*self);
        }
        let requests = self.handle_status_requests(status);
        match confirm(&requests, replies) {
            Ok(_) => {},
            Err(error) => {
                return Err(error);
            },
        }
        let event = classify(status);
        match event {
            StopEvent::Stopped { .. } => {
                if let Reply::Registers(registers) = replies[0] {
                    self.context = registers;
                }
            },
            _ => {},
        }
        if event.halts() {
            self.stopped = true;
        }
        let resume_at = self.resume_address(event);
        Ok(StopReport { event, resume_at })
    }

    /// Where the process has to go on after `event`, by the snapshot's
    /// instruction pointer.
    pub fn resume_address(&self, event: StopEvent) -> (resume_at: Option<u64>)
        ensures
            resume_at == correction(self@.breakpoints, event, self@.context.rip),
    {
        if !event.is_trap() || self.context.rip < 1 {
            return None;
        }
        let address: u64 = self.context.rip - 1;
        match self.position(address) {
            Some(index) => match &self.breakpoints[index] {
                Breakpoint::Software(inner) => {
                    let size: usize = inner.size();
                    if size as u128 + address as u128 <= u64::MAX as u128 {
                        Some(address + size as u64)
                    } else {
                        None
                    }
                },
                Breakpoint::Hardware(_) => None,
            },
            None => None,
        }
    }
}

/// Coherent breakpoints stay coherent when an installed breakpoint joins them
/// that stands at a new address and, where it uses a slot, in a new slot.
pub proof fn lemma_coherent_push(breakpoints: Seq<BreakpointView>, breakpoint: BreakpointView)
    requires
        coherent(breakpoints),
        breakpoint.well_formed(),
        breakpoint.enabled(),
        !holds(breakpoints, breakpoint.address()),
        breakpoint matches BreakpointView::Hardware(inner) ==> !slot_used(
            breakpoints,
            inner.register_index,
        ),
    ensures
        coherent(breakpoints.push(breakpoint)),
{
    let after = breakpoints.push(breakpoint);
    assert forall|i: int, j: int| 0 <= i < j < after.len() implies (#[trigger] after[i]).address()
        != (#[trigger] after[j]).address() by {
        if j == breakpoints.len() {
            assert(breakpoints[i].address() != breakpoint.address());
        }
    }
    assert forall|i: int, j: int|
        0 <= i < j < after.len() && (#[trigger] after[i]) is Hardware && (#[trigger] after[j])
            is Hardware implies after[i]->Hardware_0.register_index
        != after[j]->Hardware_0.register_index by {
        if j == breakpoints.len() {
            assert(!uses_slot(breakpoints[i], breakpoint->Hardware_0.register_index));
        }
    }
}

/// Coherent breakpoints stay coherent when one of them leaves.
pub proof fn lemma_coherent_remove(breakpoints: Seq<BreakpointView>, index: int)
    requires
        coherent(breakpoints),
        0 <= index < breakpoints.len(),
    ensures
        coherent(breakpoints.remove(index)),
{
    let after = breakpoints.remove(index);
    assert forall|i: int| 0 <= i < after.len() implies (#[trigger] after[i]).well_formed()
        && after[i].enabled() by {
        if i < index {
            assert(after[i] == breakpoints[i]);
        } else {
            assert(after[i] == breakpoints[i + 1]);
        }
    }
    assert forall|i: int, j: int| 0 <= i < j < after.len() implies (#[trigger] after[i]).address()
        != (#[trigger] after[j]).address() by {
        let a = if i < index { i } else { i + 1 };
        let b = if j < index { j } else { j + 1 };
        assert(after[i] == breakpoints[a] && after[j] == breakpoints[b]);
    }
    assert forall|i: int, j: int|
        0 <= i < j < after.len() && (#[trigger] after[i]) is Hardware && (#[trigger] after[j])
            is Hardware implies after[i]->Hardware_0.register_index
        != after[j]->Hardware_0.register_index by {
        let a = if i < index { i } else { i + 1 };
        let b = if j < index { j } else { j + 1 };
        assert(after[i] == breakpoints[a] && after[j] == breakpoints[b]);
    }
}

/// The hardware breakpoints of coherent breakpoints are as many as the slots
/// in use: there are at most four, and no slot is free exactly when there are
/// four.
pub proof fn lemma_slots_counted(breakpoints: Seq<BreakpointView>)
    requires
        coherent(breakpoints),
    ensures
        hardware_count(breakpoints) == slots_in_use(breakpoints),
        hardware_count(breakpoints) <= HARDWARE_SLOTS,
        free_slot(breakpoints) is None <==> hardware_count(breakpoints) == HARDWARE_SLOTS,
    decreases breakpoints.len(),
{
    if breakpoints.len() == 0 {
    } else {
        let front = breakpoints.drop_last();
        let last = breakpoints.last();
        assert(forall|i: int| 0 <= i < front.len() ==> front[i] == breakpoints[i]);
        lemma_slots_counted(front);
        assert forall|slot: usize| !uses_slot(last, slot) implies (slot_used(breakpoints, slot)
            <==> slot_used(front, slot)) by {
            if slot_used(breakpoints, slot) {
                let i = choose|i: int|
                    0 <= i < breakpoints.len() && uses_slot(#[trigger] breakpoints[i], slot);
                assert(uses_slot(front[i], slot));
            }
            if slot_used(front, slot) {
                let i = choose|i: int| 0 <= i < front.len() && uses_slot(#[trigger] front[i], slot);
                assert(uses_slot(breakpoints[i], slot));
            }
        }
        match last {
            BreakpointView::Software(_) => {},
            BreakpointView::Hardware(inner) => {
                let own = inner.register_index;
                assert(breakpoints[breakpoints.len() - 1].well_formed());
                assert(uses_slot(breakpoints[breakpoints.len() - 1], own));
                if slot_used(front, own) {
                    let i = choose|i: int| 0 <= i < front.len() && uses_slot(#[trigger] front[i], own);
                    assert(breakpoints[i] is Hardware);
                    assert(false);
                }
            },
        }
    }
}

/// Where coherent breakpoints hold one at `address`, it is the only one there.
pub proof fn lemma_index_unique(breakpoints: Seq<BreakpointView>, address: u64, index: int)
    requires
        coherent(breakpoints),
        0 <= index < breakpoints.len(),
        breakpoints[index].address() == address,
    ensures
        holds(breakpoints, address),
        index_of(breakpoints, address) == index,
{
    let found = index_of(breakpoints, address);
    if found < index {
        assert(breakpoints[found].address() != breakpoints[index].address());
    }
    if index < found {
        assert(breakpoints[index].address() != breakpoints[found].address());
    }
}

/// Taking a breakpoint out lowers the number of hardware breakpoints by one
/// where it is a hardware breakpoint, and leaves it otherwise.
pub proof fn lemma_count_remove(breakpoints: Seq<BreakpointView>, index: int)
    requires
        0 <= index < breakpoints.len(),
    ensures
        hardware_count(breakpoints.remove(index)) + (if breakpoints[index] is Hardware {
            1nat
        } else {
            0nat
        }) == hardware_count(breakpoints),
    decreases breakpoints.len(),
{
    if index == breakpoints.len() - 1 {
        assert(breakpoints.remove(index) =~= breakpoints.drop_last());
    } else {
        lemma_count_remove(breakpoints.drop_last(), index);
        assert(breakpoints.remove(index).drop_last() =~= breakpoints.drop_last().remove(index));
        assert(breakpoints.remove(index).last() == breakpoints.last());
    }
}

/// A hardware breakpoint can be added exactly while fewer than four are
/// installed, and adding one raises their number by one.
pub proof fn lemma_hardware_added(debugee: DebugeeView, address: u64)
    requires
        debugee.well_formed(),
        !holds(debugee.breakpoints, address),
    ensures
        free_slot(debugee.breakpoints) is Some <==> hardware_count(debugee.breakpoints)
            < HARDWARE_SLOTS,
        free_slot(debugee.breakpoints) is Some ==> {
            let after = debugee.with_breakpoint(debugee.hardware_made(address));
            &&& after.well_formed()
            &&& hardware_count(after.breakpoints) == hardware_count(debugee.breakpoints) + 1
        },
{
    lemma_slots_counted(debugee.breakpoints);
    if free_slot(debugee.breakpoints) is Some {
        let made = debugee.hardware_made(address);
        lemma_coherent_push(debugee.breakpoints, made);
        assert(debugee.breakpoints.push(made).drop_last() =~= debugee.breakpoints);
    }
}

/// Taking out a hardware breakpoint frees exactly its slot: one hardware
/// breakpoint less is installed, its slot is free, and every other slot is in
/// use exactly if it was.
pub proof fn lemma_hardware_removed(debugee: DebugeeView, address: u64, slot: usize)
    requires
        debugee.well_formed(),
        holds(debugee.breakpoints, address),
        debugee.breakpoints[index_of(debugee.breakpoints, address)] is Hardware,
    ensures
        ({
            let after = debugee.without_breakpoint(address);
            let freed = debugee.breakpoints[index_of(
                debugee.breakpoints,
                address,
            )]->Hardware_0.register_index;
            &&& after.well_formed()
            &&& hardware_count(after.breakpoints) + 1 == hardware_count(debugee.breakpoints)
            &&& free_slot(after.breakpoints) is Some
            &&& !slot_used(after.breakpoints, freed)
            &&& slot != freed ==> (slot_used(after.breakpoints, slot) <==> slot_used(
                debugee.breakpoints,
                slot,
            ))
        }),
{
    let before = debugee.breakpoints;
    let index = index_of(before, address);
    let after = before.remove(index);
    let freed = before[index]->Hardware_0.register_index;
    lemma_coherent_remove(before, index);
    lemma_count_remove(before, index);
    lemma_slots_counted(before);
    lemma_slots_counted(after);
    if slot_used(after, freed) {
        let i = choose|i: int| 0 <= i < after.len() && uses_slot(#[trigger] after[i], freed);
        let at = if i < index { i } else { i + 1 };
        assert(after[i] == before[at]);
        assert(before[at] is Hardware && before[index] is Hardware);
        assert(false);
    }
    if slot != freed {
        if slot_used(after, slot) {
            let i = choose|i: int| 0 <= i < after.len() && uses_slot(#[trigger] after[i], slot);
            let at = if i < index { i } else { i + 1 };
            assert(after[i] == before[at]);
            assert(uses_slot(before[at], slot));
        }
        if slot_used(before, slot) {
            let i = choose|i: int| 0 <= i < before.len() && uses_slot(#[trigger] before[i], slot);
            let at = if i < index { i } else { i - 1 };
            assert(after[at] == before[i]);
            assert(uses_slot(after[at], slot));
        }
    }
}

/// Installing a software breakpoint at a new address and taking it out again
/// leaves the target, byte for byte, and the breakpoints as they were.
pub proof fn lemma_breakpoint_round_trip(target: Target, debugee: DebugeeView, address: u64, size: u64)
    requires
        debugee.well_formed(),
        !holds(debugee.breakpoints, address),
    ensures
        ({
            let plan = debugee.software_plan(address, size);
            let installed = debugee.with_breakpoint(
                debugee.software_made(address, size, answers(target, plan)),
            );
            &&& all_fit(plan, answers(target, plan))
            &&& installed.well_formed()
            &&& holds(installed.breakpoints, address)
            &&& run(run(target, plan), installed.removal_plan(address)) == target
            &&& installed.without_breakpoint(address) == debugee
        }),
{
    let fresh = SoftwareView {
        address,
        size: size as usize,
        enabled: false,
        original_bytes: Seq::empty(),
    };
    let plan = debugee.software_plan(address, size);
    let made = debugee.software_made(address, size, answers(target, plan));
    let installed = debugee.with_breakpoint(made);
    lemma_answers_fit(target, plan);
    lemma_software_round_trip(target, fresh);
    lemma_coherent_push(debugee.breakpoints, made);
    lemma_index_unique(installed.breakpoints, address, debugee.breakpoints.len() as int);
    assert(installed.breakpoints.remove(debugee.breakpoints.len() as int) =~= debugee.breakpoints);
}

/// After a trap that leaves the instruction pointer one byte behind the
/// address of a software breakpoint, the process has to go on behind the
/// instruction that the breakpoint covers: at the breakpoint's address plus
/// the length of the instruction.
pub proof fn lemma_trap_correction(
    breakpoints: Seq<BreakpointView>,
    index: int,
    event: StopEvent,
    rip: u64,
)
    requires
        coherent(breakpoints),
        0 <= index < breakpoints.len(),
        breakpoints[index] is Software,
        event.spec_is_trap(),
        rip == breakpoints[index].address() + 1,
        breakpoints[index].address() + breakpoints[index].size() <= u64::MAX,
    ensures
        correction(breakpoints, event, rip) == Some(
            (breakpoints[index].address() + breakpoints[index].size()) as u64,
        ),
{
    lemma_index_unique(breakpoints, (rip - 1) as u64, index);
}

/// A stop that is no trap, or that leaves the instruction pointer one byte
/// behind the address of a hardware breakpoint or of none, calls for no
/// change of the instruction pointer.
pub proof fn lemma_no_correction(breakpoints: Seq<BreakpointView>, event: StopEvent, rip: u64)
    requires
        coherent(breakpoints),
        !event.spec_is_trap() || rip == 0 || !holds(breakpoints, (rip - 1) as u64)
            || breakpoints[index_of(breakpoints, (rip - 1) as u64)] is Hardware,
    ensures
        correction(breakpoints, event, rip) is None,
{
}

/// Setting the instruction pointer leaves the snapshot and the target in
/// step: both hold the new instruction pointer, and of the target's registers
/// none else has changed.
pub proof fn lemma_set_rip_in_step(target: Target, context: Registers, rip: u64)
    ensures
        ({
            let plan = seq![Request::PokeUser { offset: Register::Rip.spec_offset(), value: rip }];
            &&& all_fit(plan, answers(target, plan))
            &&& run(target, plan).memory == target.memory
            &&& registers_in(run(target, plan).user) == registers_in(target.user).spec_with(
                Register::Rip,
                rip,
            )
            &&& registers_in(run(target, plan).user).rip == context.spec_with(Register::Rip, rip).rip
        }),
{
    let request = Request::PokeUser { offset: Register::Rip.spec_offset(), value: rip };
    lemma_run_push(target, Seq::empty(), request);
    assert(Seq::<Request>::empty().push(request) =~= seq![request]);
    lemma_answers_fit(target, seq![request]);
}

/// Number of slots that a hardware breakpoint uses.
pub open spec fn slots_in_use(breakpoints: Seq<BreakpointView>) -> nat {
    (if slot_used(breakpoints, 0) { 1nat } else { 0nat }) + (if slot_used(breakpoints, 1) {
        1nat
    } else {
        0nat
    }) + (if slot_used(breakpoints, 2) { 1nat } else { 0nat }) + (if slot_used(breakpoints, 3) {
        1nat
    } else {
        0nat
    })
}

} // verus!

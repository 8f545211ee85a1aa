use vstd::prelude::*;
use crate::error::DebugError;
use crate::memory::lemma_patch_effect;
use crate::registers::USER_DEBUG_REGISTERS_OFFSET;
use crate::tracing::{
    all_fit, answered, answers, lemma_run_push, load, run, store, Reply, Request, Target,
};
use crate::word::{byte_at, byte_of_word, lemma_bytes_of_their_word, masked_word, word_bytes};

verus! {

/// The one-byte instruction that traps into the debugger.
pub const TRAP_OPCODE: u8 = 0xCC;

/// Number of address slots among the debug registers.
pub const HARDWARE_SLOTS: usize = 4;

/// Index of the debug register that holds the status bits.
pub const DEBUG_STATUS_REGISTER: usize = 6;

/// Index of the debug register that holds the control bits.
pub const DEBUG_CONTROL_REGISTER: usize = 7;

/// The control bits that every enabled hardware breakpoint needs besides its
/// own: bits 8 to 10.
pub const CONTROL_FIXED_BITS: u64 = 0x700;

/// Byte offset of debug register `index` within the user area.
pub open spec fn debug_register_offset(index: nat) -> u64 {
    (USER_DEBUG_REGISTERS_OFFSET + 8 * index) as u64
}

/// The two enable bits of slot `index` in the control register: bits
/// `2 * index` and `2 * index + 1`.
pub open spec fn slot_bits(index: nat) -> u64 {
    3u64 << ((2 * index) as u64)
}

/// The control register after slot `index` was enabled.
pub open spec fn control_enabled(control: u64, index: nat) -> u64 {
    masked_word(control, 0, slot_bits(index) | CONTROL_FIXED_BITS)
}

/// The control register after slot `index` was disabled.
pub open spec fn control_disabled(control: u64, index: nat) -> u64 {
    masked_word(control, slot_bits(index), 0)
}

/// Byte offset of debug register `index` within the user area.
fn debug_register(index: usize) -> (offset: u64)
    requires
        index < 8,
    ensures
        offset == debug_register_offset(index as nat),
{
    USER_DEBUG_REGISTERS_OFFSET + 8 * (index as u64)
}

/// The two enable bits of slot `index` in the control register.
fn slot_mask(index: usize) -> (bits: u64)
    requires
        index < HARDWARE_SLOTS,
    ensures
        bits == slot_bits(index as nat),
{
    let shift: u64 = 2 * (index as u64);
    3u64 << shift
}

/// Enabling a slot and disabling it again leaves the slot's two bits as they
/// were when they were clear before, and neither step touches the bits of
/// another slot.
pub proof fn lemma_control_round_trip(control: u64, index: nat, other: nat)
    requires
        index < HARDWARE_SLOTS,
        other < HARDWARE_SLOTS,
        other != index,
    ensures
        control_enabled(control, index) & slot_bits(index) == slot_bits(index),
        control_disabled(control, index) & slot_bits(index) == 0,
        control & slot_bits(index) == 0 ==> control_disabled(control_enabled(control, index), index)
            & slot_bits(index) == control & slot_bits(index),
        control_enabled(control, index) & slot_bits(other) == control & slot_bits(other),
        control_disabled(control, index) & slot_bits(other) == control & slot_bits(other),
        control_disabled(control_enabled(control, index), index) & slot_bits(other) == control
            & slot_bits(other),
        control & slot_bits(index) == 0 ==> control_disabled(control_enabled(control, index), index)
            == control | CONTROL_FIXED_BITS,
{
    let i: u64 = index as u64;
    let o: u64 = other as u64;
    let own: u64 = slot_bits(index);
    let far: u64 = slot_bits(other);
    let on: u64 = control_enabled(control, index);
    let off: u64 = control_disabled(control, index);
    let back: u64 = control_disabled(on, index);
    assert(on & own == own && off & own == 0 && on & far == control & far && off & far == control
        & far && back & far == control & far && (control & own == 0 ==> back & own == control & own)
        && (control & own == 0 ==> back == control | 0x700)) by (bit_vector)
        requires
            i < 4,
            o < 4,
            i != o,
            own == 3u64 << ((2 * i) as u64),
            far == 3u64 << ((2 * o) as u64),
            on == (control & !0u64) | (own | 0x700),
            off == (control & !own) | 0u64,
            back == (on & !own) | 0u64,
    ;
}

/// A breakpoint that overwrites the first byte of an instruction with a trap.
#[derive(Debug, PartialEq, Eq)]
pub struct SoftwareBreakpoint {
    enabled: bool,
    address: u64,
    size: usize,
    original_bytes: Vec<u8>,
}

/// A breakpoint that one of the four address slots of the debug registers holds.
#[derive(Clone, Copy, Debug, PartialEq, Eq)]
pub struct HardwareBreakpoint {
    enabled: bool,
    address: u64,
    register_index: usize,
}

/// A breakpoint of either kind.
#[derive(Debug, PartialEq, Eq)]
pub enum Breakpoint {
    Software(SoftwareBreakpoint),
    Hardware(HardwareBreakpoint),
}

/// What a software breakpoint is: where it stands, how long the instruction
/// under it is, whether its trap is installed, and the byte that the trap
/// displaced.
pub struct SoftwareView {
    pub address: u64,
    pub size: usize,
    pub enabled: bool,
    pub original_bytes: Seq<u8>,
}

/// What a hardware breakpoint is: where it stands, which slot it uses and
/// whether it is installed.
pub struct HardwareView {
    pub address: u64,
    pub register_index: usize,
    pub enabled: bool,
}

/// What a breakpoint of either kind is.
pub enum BreakpointView {
    Software(SoftwareView),
    Hardware(HardwareView),
}

impl SoftwareView {
    /// While the trap is installed the byte that it displaced is saved, and
    /// nothing is saved otherwise.
    pub open spec fn well_formed(self) -> bool {
        self.original_bytes.len() == if self.enabled { 1nat } else { 0nat }
    }

    /// The requests that install the trap: none where it is installed already.
    pub open spec fn enable_plan(self) -> Seq<Request> {
        if self.enabled {
            Seq::empty()
        } else {
            seq![Request::PatchData { address: self.address, word: TRAP_OPCODE as u64, count: 1 }]
        }
    }

    /// The breakpoint once the trap is installed: the first byte of the word
    /// that the patch found is saved.
    pub open spec fn enabled_by(self, replies: Seq<Reply>) -> SoftwareView {
        if self.enabled {
            self
        } else {
            SoftwareView {
                enabled: true,
                original_bytes: seq![byte_at(replies[0]->Word_0, 0)],
                ..self
            }
        }
    }

    /// The requests that put the displaced byte back: none where no trap is installed.
    pub open spec fn disable_plan(self) -> Seq<Request> {
        if self.enabled {
            seq![
                Request::PatchData {
                    address: self.address,
                    word: self.original_bytes[0] as u64,
                    count: 1,
                },
            ]
        } else {
            Seq::empty()
        }
    }

    /// The breakpoint once the displaced byte is back.
    pub open spec fn disabled(self) -> SoftwareView {
        SoftwareView { enabled: false, original_bytes: Seq::empty(), ..self }
    }

    /// The byte that the installed trap displaced.
    pub open spec fn displaced(self) -> Option<u8> {
        if self.enabled && self.original_bytes.len() >= 1 {
            Some(self.original_bytes[0])
        } else {
            None
        }
    }
}

impl HardwareView {
    /// The slot is one of the four that the processor has.
    pub open spec fn well_formed(self) -> bool {
        self.register_index < HARDWARE_SLOTS
    }

    /// The requests that install the breakpoint: the address goes into the
    /// slot's register, the status register is cleared, and the slot's two bits
    /// and the fixed bits are set in the control register. None where it is
    /// installed already.
    pub open spec fn enable_plan(self) -> Seq<Request> {
        if self.enabled {
            Seq::empty()
        } else {
            seq![
                Request::PokeUser {
                    offset: debug_register_offset(self.register_index as nat),
                    value: self.address,
                },
                Request::PokeUser {
                    offset: debug_register_offset(DEBUG_STATUS_REGISTER as nat),
                    value: 0,
                },
                Request::PatchUser {
                    offset: debug_register_offset(DEBUG_CONTROL_REGISTER as nat),
                    clear: 0,
                    set: slot_bits(self.register_index as nat) | CONTROL_FIXED_BITS,
                },
            ]
        }
    }

    /// The requests that take the breakpoint out: the slot's register is
    /// zeroed and the slot's two bits are cleared in the control register.
    pub open spec fn disable_plan(self) -> Seq<Request> {
        seq![
            Request::PokeUser { offset: debug_register_offset(self.register_index as nat), value: 0 },
            Request::PatchUser {
                offset: debug_register_offset(DEBUG_CONTROL_REGISTER as nat),
                clear: slot_bits(self.register_index as nat),
                set: 0,
            },
        ]
    }
}

impl BreakpointView {
    /// Whether the breakpoint is sound, as its kind has it.
    pub open spec fn well_formed(self) -> bool {
        match self {
            BreakpointView::Software(inner) => inner.well_formed(),
            BreakpointView::Hardware(inner) => inner.well_formed(),
        }
    }

    /// Address of the instruction that the breakpoint is on.
    pub open spec fn address(self) -> u64 {
        match self {
            BreakpointView::Software(inner) => inner.address,
            BreakpointView::Hardware(inner) => inner.address,
        }
    }

    /// Whether the breakpoint is installed in the target.
    pub open spec fn enabled(self) -> bool {
        match self {
            BreakpointView::Software(inner) => inner.enabled,
            BreakpointView::Hardware(inner) => inner.enabled,
        }
    }

    /// Length in bytes of the instruction that a software breakpoint covers;
    /// 0 for a hardware breakpoint.
    pub open spec fn size(self) -> usize {
        match self {
            BreakpointView::Software(inner) => inner.size,
            BreakpointView::Hardware(_) => 0,
        }
    }

    /// The requests that install the breakpoint.
    pub open spec fn enable_plan(self) -> Seq<Request> {
        match self {
            BreakpointView::Software(inner) => inner.enable_plan(),
            BreakpointView::Hardware(inner) => inner.enable_plan(),
        }
    }

    /// The breakpoint once it is installed.
    pub open spec fn enabled_by(self, replies: Seq<Reply>) -> BreakpointView {
        match self {
            BreakpointView::Software(inner) => BreakpointView::Software(inner.enabled_by(replies)),
            BreakpointView::Hardware(inner) => BreakpointView::Hardware(
                HardwareView { enabled: true, ..inner },
            ),
        }
    }

    /// The requests that take the breakpoint out.
    pub open spec fn disable_plan(self) -> Seq<Request> {
        match self {
            BreakpointView::Software(inner) => inner.disable_plan(),
            BreakpointView::Hardware(inner) => inner.disable_plan(),
        }
    }

    /// The byte that the installed trap of a software breakpoint displaced.
    pub open spec fn displaced(self) -> Option<u8> {
        match self {
            BreakpointView::Software(inner) => inner.displaced(),
            BreakpointView::Hardware(_) => None,
        }
    }

    /// The breakpoint once it is taken out.
    pub open spec fn disabled(self) -> BreakpointView {
        match self {
            BreakpointView::Software(inner) => BreakpointView::Software(inner.disabled()),
            BreakpointView::Hardware(inner) => BreakpointView::Hardware(
                HardwareView { enabled: false, ..inner },
            ),
        }
    }
}

impl View for SoftwareBreakpoint {
    type V = SoftwareView;

    closed spec fn view(&self) -> SoftwareView {
        SoftwareView {
            address: self.address,
            size: self.size,
            enabled: self.enabled,
            original_bytes: self.original_bytes@,
        }
    }
}

impl View for HardwareBreakpoint {
    type V = HardwareView;

    closed spec fn view(&self) -> HardwareView {
        HardwareView {
            address: self.address,
            register_index: self.register_index,
            enabled: self.enabled,
        }
    }
}

impl View for Breakpoint {
    type V = BreakpointView;

    open spec fn view(&self) -> BreakpointView {
        match self {
            Breakpoint::Software(inner) => BreakpointView::Software(inner@),
            Breakpoint::Hardware(inner) => BreakpointView::Hardware(inner@),
        }
    }
}

impl SoftwareBreakpoint {
    /// While the trap is installed the byte that it displaced is saved, and
    /// nothing is saved otherwise.
    #[verifier::type_invariant]
    spec fn holds_together(&self) -> bool {
        self@.well_formed()
    }

    /// A disabled breakpoint at `address` on an instruction of `instruction_size` bytes.
    pub fn new(address: u64, instruction_size: u64) -> (breakpoint: Self)
        ensures
            breakpoint@ == (SoftwareView {
                address,
                size: instruction_size as usize,
                enabled: false,
                original_bytes: Seq::empty(),
            }),
    {
        Self { enabled: false, address, size: instruction_size as usize, original_bytes: Vec::new() }
    }

    /// Address of the instruction whose first byte the trap overwrites.
    pub fn address(&self) -> (address: u64)
        ensures
            address == self@.address,
    {
        self.address
    }

    /// Whether the trap is installed.
    pub fn enabled(&self) -> (enabled: bool)
        ensures
            enabled == self@.enabled,
    {
        self.enabled
    }

    /// Always `false`.
    pub fn hardware(&self) -> (hardware: bool)
        ensures
            !hardware,
    {
        false
    }

    /// Length in bytes of the instruction that the breakpoint covers.
    pub fn size(&self) -> (size: usize)
        ensures
            size == self@.size,
    {
        self.size
    }

    /// The byte that the trap displaced, while the breakpoint is enabled; no
    /// byte otherwise.
    pub fn original_bytes(&self) -> (bytes: Option<&[u8]>)
        ensures
            self@.well_formed(),
            bytes matches Some(slice) && slice@ == self@.original_bytes,
    {
        proof {
            use_type_invariant(self);
        }
        Some(self.original_bytes.as_slice())
    }

    /// The byte that the installed trap displaced.
    pub fn displaced(&self) -> (byte: Option<u8>)
        ensures
            byte == self@.displaced(),
    {
        proof {
            use_type_invariant(self);
        }
        if self.enabled {
            Some(self.original_bytes[0])
        } else {
            None
        }
    }

    /// The requests that install the trap.
    pub fn enable_requests(&self) -> (requests: Vec<Request>)
        ensures
            requests@ == self@.enable_plan(),
    {
        let mut requests: Vec<Request> = Vec::new();
        if !self.enabled {
            requests.push(
                Request::PatchData { address: self.address, word: TRAP_OPCODE as u64, count: 1 },
            );
        }
        assert(requests@ =~= self@.enable_plan());
        requests
    }

    /// Takes note that the trap was installed: `replies` holds the word that
    /// the patch found, whose first byte is the one displaced.
    ///
    /// Fails with `IoError`, and changes nothing, unless `replies` answer the
    /// requests of [`Self::enable_requests`] one for one.
    pub fn enable(&mut self, replies: &Vec<Reply>) -> (outcome: Result<(), DebugError>)
        ensures
            final(self)@.well_formed(),
            match outcome {
                Ok(_) => {
                    &&& all_fit(old(self)@.enable_plan(), replies@)
                    &&& final(self)@ == old(self)@.enabled_by(replies@)
                },
                Err(error) => {
                    &&& error == DebugError::IoError
                    &&& !all_fit(old(self)@.enable_plan(), replies@)
                    &&& *final(self) == *old(self)
                },
            },
    {
        proof {
            use_type_invariant(&*self);
        }
        let requests = self.enable_requests();
        if !answered(&requests, replies) {
            return Err(DebugError::IoError);
        }
        if !self.enabled {
            if let Reply::Word(word) = replies[0] {
                let mut saved: Vec<u8> = Vec::new();
                saved.push(byte_of_word(word, 0));
                assert(saved@ =~= seq![byte_at(word, 0)]);
                *self =
                Self { enabled: true, address: self.address, size: self.size, original_bytes: saved };
            }
        }
        Ok(())
    }

    /// The requests that put the displaced byte back.
    pub fn disable_requests(&self) -> (requests: Vec<Request>)
        ensures
            requests@ == self@.disable_plan(),
    {
        proof {
            use_type_invariant(self);
        }
        let mut requests: Vec<Request> = Vec::new();
        if self.enabled {
            requests.push(
                Request::PatchData {
                    address: self.address,
                    word: self.original_bytes[0] as u64,
                    count: 1,
                },
            );
        }
        assert(requests@ =~= self@.disable_plan());
        requests
    }

    /// Takes note that the displaced byte was put back.
    ///
    /// Fails with `IoError`, and changes nothing, unless `replies` answer the
    /// requests of [`Self::disable_requests`] one for one.
    pub fn disable(&mut self, replies: &Vec<Reply>) -> (outcome: Result<(), DebugError>)
        ensures
            final(self)@.well_formed(),
            match outcome {
                Ok(_) => {
                    &&& all_fit(old(self)@.disable_plan(), replies@)
                    &&& final(self)@ == old(self)@.disabled()
                },
                Err(error) => {
                    &&& error == DebugError::IoError
                    &&& !all_fit(old(self)@.disable_plan(), replies@)
                    &&& *final(self) == *old(self)
                },
            },
    {
        proof {
            use_type_invariant(&*self);
        }
        let requests = self.disable_requests();
        if !answered(&requests, replies) {
            return Err(DebugError::IoError);
        }
        *self =
        Self { enabled: false, address: self.address, size: self.size, original_bytes: Vec::new() };
        Ok(())
    }
}

impl HardwareBreakpoint {
    /// The slot is one of the four that the processor has.
    #[verifier::type_invariant]
    spec fn holds_together(&self) -> bool {
        self@.well_formed()
    }

    /// A disabled breakpoint at `address` for slot `register_index`.
    ///
    /// Fails with `InvalidRegisterIndex` where `register_index` is 4 or more.
    pub fn new(address: u64, register_index: usize) -> (breakpoint: Result<Self, DebugError>)
        ensures
            match breakpoint {
                Ok(made) => {
                    &&& register_index < HARDWARE_SLOTS
                    &&& made@ == (HardwareView { address, register_index, enabled: false })
                },
                Err(error) => error == DebugError::InvalidRegisterIndex && register_index
                    >= HARDWARE_SLOTS,
            },
    {
        if register_index >= HARDWARE_SLOTS {
            Err(DebugError::InvalidRegisterIndex)
        } else {
            Ok(Self { enabled: false, address, register_index })
        }
    }

    /// Address of the instruction that the breakpoint is on.
    pub fn address(&self) -> (address: u64)
        ensures
            address == self@.address,
    {
        self.address
    }

    /// Whether the breakpoint is installed.
    pub fn enabled(&self) -> (enabled: bool)
        ensures
            enabled == self@.enabled,
    {
        self.enabled
    }

    /// Always `true`.
    pub fn hardware(&self) -> (hardware: bool)
        ensures
            hardware,
    {
        true
    }

    /// Always 0: a hardware breakpoint changes no byte of the code.
    pub fn size(&self) -> (size: usize)
        ensures
            size == 0,
    {
        0
    }

    /// Always nothing: a hardware breakpoint displaces no byte.
    pub fn original_bytes(&self) -> (bytes: Option<&[u8]>)
        ensures
            bytes is None,
    {
        None
    }

    /// The slot that the breakpoint uses, from 0 to 3.
    pub fn register_index(&self) -> (index: usize)
        ensures
            index == self@.register_index,
            self@.well_formed(),
    {
        proof {
            use_type_invariant(self);
        }
        self.register_index
    }

    /// The requests that install the breakpoint.
    pub fn enable_requests(&self) -> (requests: Vec<Request>)
        ensures
            requests@ == self@.enable_plan(),
    {
        proof {
            use_type_invariant(self);
        }
        let mut requests: Vec<Request> = Vec::new();
        if !self.enabled {
            requests.push(
                Request::PokeUser { offset: debug_register(self.register_index), value: self.address },
            );
            requests.push(
                Request::PokeUser { offset: debug_register(DEBUG_STATUS_REGISTER), value: 0 },
            );
            requests.push(
                Request::PatchUser {
                    offset: debug_register(DEBUG_CONTROL_REGISTER),
                    clear: 0,
                    set: slot_mask(self.register_index) | CONTROL_FIXED_BITS,
                },
            );
        }
        assert(requests@ =~= self@.enable_plan());
        requests
    }

    /// Takes note that the breakpoint was installed.
    ///
    /// Fails with `IoError`, and changes nothing, unless `replies` answer the
    /// requests of [`Self::enable_requests`] one for one.
    pub fn enable(&mut self, replies: &Vec<Reply>) -> (outcome: Result<(), DebugError>)
        ensures
            final(self)@.well_formed(),
            match outcome {
                Ok(_) => {
                    &&& all_fit(old(self)@.enable_plan(), replies@)
                    &&& final(self)@ == (HardwareView { enabled: true, ..old(self)@ })
                },
                Err(error) => {
                    &&& error == DebugError::IoError
                    &&& !all_fit(old(self)@.enable_plan(), replies@)
                    &&& *final(self) == *old(self)
                },
            },
    {
        proof {
            use_type_invariant(&*self);
        }
        let requests = self.enable_requests();
        if !answered(&requests, replies) {
            return Err(DebugError::IoError);
        }
        self.enabled = true;
        Ok(())
    }

    /// The requests that take the breakpoint out.
    pub fn disable_requests(&self) -> (requests: Vec<Request>)
        ensures
            requests@ == self@.disable_plan(),
    {
        proof {
            use_type_invariant(self);
        }
        let mut requests: Vec<Request> = Vec::new();
        requests.push(Request::PokeUser { offset: debug_register(self.register_index), value: 0 });
        requests.push(
            Request::PatchUser {
                offset: debug_register(DEBUG_CONTROL_REGISTER),
                clear: slot_mask(self.register_index),
                set: 0,
            },
        );
        assert(requests@ =~= self@.disable_plan());
        requests
    }

    /// Takes note that the breakpoint was taken out.
    ///
    /// Fails with `IoError`, and changes nothing, unless `replies` answer the
    /// requests of [`Self::disable_requests`] one for one.
    pub fn disable(&mut self, replies: &Vec<Reply>) -> (outcome: Result<(), DebugError>)
        ensures
            final(self)@.well_formed(),
            match outcome {
                Ok(_) => {
                    &&& all_fit(old(self)@.disable_plan(), replies@)
                    &&& final(self)@ == (HardwareView { enabled: false, ..old(self)@ })
                },
                Err(error) => {
                    &&& error == DebugError::IoError
                    &&& !all_fit(old(self)@.disable_plan(), replies@)
                    &&& *final(self) == *old(self)
                },
            },
    {
        proof {
            use_type_invariant(&*self);
        }
        let requests = self.disable_requests();
        if !answered(&requests, replies) {
            return Err(DebugError::IoError);
        }
        self.enabled = false;
        Ok(())
    }
}

impl Breakpoint {
    /// Address of the instruction that the breakpoint is on.
    pub fn address(&self) -> (address: u64)
        ensures
            address == self@.address(),
    {
        match self {
            Breakpoint::Software(inner) => inner.address(),
            Breakpoint::Hardware(inner) => inner.address(),
        }
    }

    /// Whether the breakpoint is installed in the target.
    pub fn enabled(&self) -> (enabled: bool)
        ensures
            enabled == self@.enabled(),
    {
        match self {
            Breakpoint::Software(inner) => inner.enabled(),
            Breakpoint::Hardware(inner) => inner.enabled(),
        }
    }

    /// Whether the breakpoint uses a debug register.
    pub fn hardware(&self) -> (hardware: bool)
        ensures
            hardware == (self@ is Hardware),
    {
        match self {
            Breakpoint::Software(inner) => inner.hardware(),
            Breakpoint::Hardware(inner) => inner.hardware(),
        }
    }

    /// Length in bytes of the instruction that a software breakpoint covers;
    /// 0 for a hardware breakpoint.
    pub fn size(&self) -> (size: usize)
        ensures
            size == self@.size(),
    {
        match self {
            Breakpoint::Software(inner) => inner.size(),
            Breakpoint::Hardware(inner) => inner.size(),
        }
    }

    /// The byte that the trap of an enabled software breakpoint displaced; no
    /// byte for a disabled one, and nothing for a hardware breakpoint.
    pub fn original_bytes(&self) -> (bytes: Option<&[u8]>)
        ensures
            match self@ {
                BreakpointView::Software(inner) => bytes matches Some(slice) && slice@
                    == inner.original_bytes && inner.well_formed(),
                BreakpointView::Hardware(_) => bytes is None,
            },
    {
        match self {
            Breakpoint::Software(inner) => inner.original_bytes(),
            Breakpoint::Hardware(inner) => inner.original_bytes(),
        }
    }

    /// The byte that the installed trap of a software breakpoint displaced.
    pub fn displaced(&self) -> (byte: Option<u8>)
        ensures
            byte == self@.displaced(),
    {
        match self {
            Breakpoint::Software(inner) => inner.displaced(),
            Breakpoint::Hardware(_) => None,
        }
    }

    /// The requests that install the breakpoint.
    pub fn enable_requests(&self) -> (requests: Vec<Request>)
        ensures
            requests@ == self@.enable_plan(),
    {
        match self {
            Breakpoint::Software(inner) => inner.enable_requests(),
            Breakpoint::Hardware(inner) => inner.enable_requests(),
        }
    }

    /// Takes note that the breakpoint was installed.
    ///
    /// Fails with `IoError`, and changes nothing, unless `replies` answer the
    /// requests of [`Self::enable_requests`] one for one.
    pub fn enable(&mut self, replies: &Vec<Reply>) -> (outcome: Result<(), DebugError>)
        ensures
            final(self)@.well_formed(),
            match outcome {
                Ok(_) => {
                    &&& all_fit(old(self)@.enable_plan(), replies@)
                    &&& final(self)@ == old(self)@.enabled_by(replies@)
                },
                Err(error) => {
                    &&& error == DebugError::IoError
                    &&& !all_fit(old(self)@.enable_plan(), replies@)
                    &&& *final(self) == *old(self)
                },
            },
    {
        match self {
            Breakpoint::Software(inner) => inner.enable(replies),
            Breakpoint::Hardware(inner) => inner.enable(replies),
        }
    }

    /// The requests that take the breakpoint out.
    pub fn disable_requests(&self) -> (requests: Vec<Request>)
        ensures
            requests@ == self@.disable_plan(),
    {
        match self {
            Breakpoint::Software(inner) => inner.disable_requests(),
            Breakpoint::Hardware(inner) => inner.disable_requests(),
        }
    }

    /// Takes note that the breakpoint was taken out.
    ///
    /// Fails with `IoError`, and changes nothing, unless `replies` answer the
    /// requests of [`Self::disable_requests`] one for one.
    pub fn disable(&mut self, replies: &Vec<Reply>) -> (outcome: Result<(), DebugError>)
        ensures
            final(self)@.well_formed(),
            match outcome {
                Ok(_) => {
                    &&& all_fit(old(self)@.disable_plan(), replies@)
                    &&& final(self)@ == old(self)@.disabled()
                },
                Err(error) => {
                    &&& error == DebugError::IoError
                    &&& !all_fit(old(self)@.disable_plan(), replies@)
                    &&& *final(self) == *old(self)
                },
            },
    {
        match self {
            Breakpoint::Software(inner) => inner.disable(replies),
            Breakpoint::Hardware(inner) => inner.disable(replies),
        }
    }
}

/// Installing a software breakpoint puts the trap on the first byte of the
/// instruction, saves the byte that was there, and changes nothing else.
pub proof fn lemma_software_enable_effect(target: Target, breakpoint: SoftwareView)
    requires
        !breakpoint.enabled,
    ensures
        run(target, breakpoint.enable_plan()).memory == store(
            target.memory,
            breakpoint.address as int,
            seq![TRAP_OPCODE],
        ),
        run(target, breakpoint.enable_plan()).user == target.user,
        breakpoint.enabled_by(answers(target, breakpoint.enable_plan())).original_bytes == load(
            target.memory,
            breakpoint.address as int,
            1,
        ),
        breakpoint.enabled_by(answers(target, breakpoint.enable_plan())).well_formed(),
{
    let address = breakpoint.address;
    let request = Request::PatchData { address, word: TRAP_OPCODE as u64, count: 1 };
    lemma_run_push(target, Seq::empty(), request);
    assert(Seq::<Request>::empty().push(request) =~= breakpoint.enable_plan());
    lemma_patch_effect(target, address, TRAP_OPCODE as u64, 1);
    assert(byte_at(0xCC, 0) == 0xCC) by (bit_vector);
    assert(word_bytes(TRAP_OPCODE as u64).take(1) =~= seq![TRAP_OPCODE]);
    lemma_bytes_of_their_word(load(target.memory, address as int, 8));
    let found = answers(target, breakpoint.enable_plan())[0]->Word_0;
    assert(word_bytes(found)[0] == load(target.memory, address as int, 8)[0]);
    assert(breakpoint.enabled_by(answers(target, breakpoint.enable_plan())).original_bytes =~= load(
        target.memory,
        address as int,
        1,
    ));
}

/// Taking out an enabled software breakpoint puts the saved byte back on the
/// first byte of the instruction and changes nothing else.
pub proof fn lemma_software_disable_effect(target: Target, breakpoint: SoftwareView)
    requires
        breakpoint.well_formed(),
        breakpoint.enabled,
    ensures
        run(target, breakpoint.disable_plan()).memory == store(
            target.memory,
            breakpoint.address as int,
            breakpoint.original_bytes,
        ),
        run(target, breakpoint.disable_plan()).user == target.user,
{
    let address = breakpoint.address;
    let saved: u8 = breakpoint.original_bytes[0];
    let request = Request::PatchData { address, word: saved as u64, count: 1 };
    lemma_run_push(target, Seq::empty(), request);
    assert(Seq::<Request>::empty().push(request) =~= breakpoint.disable_plan());
    lemma_patch_effect(target, address, saved as u64, 1);
    assert(((saved as u64 >> 0u64) & 0xff) as u8 == saved) by (bit_vector);
    assert(word_bytes(saved as u64).take(1) =~= breakpoint.original_bytes);
}

/// Installing a software breakpoint and taking it out again leaves the memory
/// of the target, byte for byte, and its user area as they were.
pub proof fn lemma_software_round_trip(target: Target, breakpoint: SoftwareView)
    requires
        !breakpoint.enabled,
    ensures
        ({
            let installed = breakpoint.enabled_by(answers(target, breakpoint.enable_plan()));
            let trapped = run(target, breakpoint.enable_plan());
            run(trapped, installed.disable_plan()) == target
        }),
{
    let installed = breakpoint.enabled_by(answers(target, breakpoint.enable_plan()));
    let trapped = run(target, breakpoint.enable_plan());
    lemma_software_enable_effect(target, breakpoint);
    lemma_software_disable_effect(trapped, installed);
    assert(run(trapped, installed.disable_plan()).memory =~= target.memory);
}

/// Installing a hardware breakpoint writes its address to the slot's register,
/// clears the status register, sets the slot's bits and the fixed bits in the
/// control register, and leaves memory alone.
pub proof fn lemma_hardware_enable_effect(target: Target, breakpoint: HardwareView)
    requires
        breakpoint.well_formed(),
        !breakpoint.enabled,
    ensures
        run(target, breakpoint.enable_plan()).memory == target.memory,
        run(target, breakpoint.enable_plan()).user == target.user.insert(
            debug_register_offset(breakpoint.register_index as nat) as int,
            breakpoint.address,
        ).insert(debug_register_offset(DEBUG_STATUS_REGISTER as nat) as int, 0).insert(
            debug_register_offset(DEBUG_CONTROL_REGISTER as nat) as int,
            control_enabled(
                target.user[debug_register_offset(DEBUG_CONTROL_REGISTER as nat) as int],
                breakpoint.register_index as nat,
            ),
        ),
{
    let plan = breakpoint.enable_plan();
    lemma_run_push(target, Seq::empty(), plan[0]);
    lemma_run_push(target, seq![plan[0]], plan[1]);
    lemma_run_push(target, seq![plan[0], plan[1]], plan[2]);
    assert(Seq::<Request>::empty().push(plan[0]) =~= seq![plan[0]]);
    assert(seq![plan[0]].push(plan[1]) =~= seq![plan[0], plan[1]]);
    assert(seq![plan[0], plan[1]].push(plan[2]) =~= plan);
}

/// Taking out a hardware breakpoint zeroes the slot's register, clears the
/// slot's bits in the control register, and leaves memory alone.
pub proof fn lemma_hardware_disable_effect(target: Target, breakpoint: HardwareView)
    requires
        breakpoint.well_formed(),
    ensures
        run(target, breakpoint.disable_plan()).memory == target.memory,
        run(target, breakpoint.disable_plan()).user == target.user.insert(
            debug_register_offset(breakpoint.register_index as nat) as int,
            0,
        ).insert(
            debug_register_offset(DEBUG_CONTROL_REGISTER as nat) as int,
            control_disabled(
                target.user[debug_register_offset(DEBUG_CONTROL_REGISTER as nat) as int],
                breakpoint.register_index as nat,
            ),
        ),
{
    let plan = breakpoint.disable_plan();
    lemma_run_push(target, Seq::empty(), plan[0]);
    lemma_run_push(target, seq![plan[0]], plan[1]);
    assert(Seq::<Request>::empty().push(plan[0]) =~= seq![plan[0]]);
    assert(seq![plan[0]].push(plan[1]) =~= plan);
}

/// Installing a hardware breakpoint in a slot whose bits were clear and taking
/// it out again leaves the slot's bits in the control register clear as
/// before, and the bits of every other slot as they were throughout.
pub proof fn lemma_hardware_round_trip(target: Target, breakpoint: HardwareView, other: nat)
    requires
        breakpoint.well_formed(),
        !breakpoint.enabled,
        other < HARDWARE_SLOTS,
        other != breakpoint.register_index,
    ensures
        ({
            let control = debug_register_offset(DEBUG_CONTROL_REGISTER as nat) as int;
            let own = slot_bits(breakpoint.register_index as nat);
            let far = slot_bits(other);
            let before = target.user[control];
            let installed = run(target, breakpoint.enable_plan());
            let removed = run(
                installed,
                (HardwareView { enabled: true, ..breakpoint }).disable_plan(),
            );
            &&& installed.user[control] & own == own
            &&& installed.user[control] & far == before & far
            &&& removed.user[control] & far == before & far
            &&& before & own == 0 ==> removed.user[control] & own == before & own
            &&& removed.memory == target.memory
        }),
{
    let installed = run(target, breakpoint.enable_plan());
    let control = debug_register_offset(DEBUG_CONTROL_REGISTER as nat) as int;
    lemma_hardware_enable_effect(target, breakpoint);
    lemma_hardware_disable_effect(installed, HardwareView { enabled: true, ..breakpoint });
    lemma_control_round_trip(target.user[control], breakpoint.register_index as nat, other);
}

} // verus!

use std::collections::HashMap;

use dbgcore::breakpoint::{Breakpoint, HardwareBreakpoint, SoftwareBreakpoint};
use dbgcore::debugee::{Debugee, StopReport, Toggle};
use dbgcore::error::DebugError;
use dbgcore::registers::{Register, Registers};
use dbgcore::status::StopEvent;
use dbgcore::tracing::{Reply, Request};

/// A process as the tracing interface shows it, held in memory: one block of
/// mapped bytes and the user area.
struct FakeTarget {
    base: u64,
    memory: Vec<u8>,
    user: HashMap<u64, u64>,
    performed: Vec<Request>,
}

impl FakeTarget {
    fn new(base: u64, memory: Vec<u8>) -> Self {
        Self { base, memory, user: HashMap::new(), performed: Vec::new() }
    }

    fn peek(&self, address: u64) -> Option<u64> {
        let from = address.checked_sub(self.base)? as usize;
        let bytes = self.memory.get(from..from.checked_add(8)?)?;
        let mut word = [0u8; 8];
        word.copy_from_slice(bytes);
        Some(u64::from_le_bytes(word))
    }

    fn poke(&mut self, address: u64, word: u64) -> bool {
        if self.peek(address).is_none() {
            return false;
        }
        let from = (address - self.base) as usize;
        self.memory[from..from + 8].copy_from_slice(&word.to_le_bytes());
        true
    }

    fn registers(&self) -> Registers {
        let mut registers = Registers::zeroed();
        for register in [Register::Rip, Register::Rax, Register::Rsp, Register::R15] {
            let value = self.user.get(&register.offset()).copied().unwrap_or(0);
            registers = registers.with(register, value);
        }
        registers
    }

    fn perform(&mut self, request: &Request) -> Reply {
        self.performed.push(*request);
        match *request {
            Request::PeekData { address } => match self.peek(address) {
                Some(word) => Reply::Word(word),
                None => Reply::Failed,
            },
            Request::PokeData { address, word } => {
                if self.poke(address, word) {
                    Reply::Done
                } else {
                    Reply::Failed
                }
            }
            Request::PatchData { address, .. } => match self.peek(address) {
                Some(old) => {
                    self.poke(address, request.patched(old));
                    Reply::Word(old)
                }
                None => Reply::Failed,
            },
            Request::PeekUser { offset } => Reply::Word(self.user.get(&offset).copied().unwrap_or(0)),
            Request::PokeUser { offset, value } => {
                self.user.insert(offset, value);
                Reply::Done
            }
            Request::PatchUser { offset, .. } => {
                let old = self.user.get(&offset).copied().unwrap_or(0);
                self.user.insert(offset, request.patched(old));
                Reply::Word(old)
            }
            Request::GetRegisters => Reply::Registers(self.registers()),
            _ => Reply::Done,
        }
    }

    fn run(&mut self, requests: &Vec<Request>) -> Vec<Reply> {
        let mut replies = Vec::new();
        for request in requests {
            let reply = self.perform(request);
            let failed = reply == Reply::Failed;
            replies.push(reply);
            if failed {
                break;
            }
        }
        replies
    }
}

fn attached(pid: u32) -> Debugee {
    Debugee::new(pid, &vec![Reply::Done]).unwrap()
}

fn code() -> Vec<u8> {
    (0u8..64).collect()
}

fn add_software(debugee: &mut Debugee, target: &mut FakeTarget, address: u64, size: u64) -> Result<(), DebugError> {
    let requests = debugee.add_software_breakpoint_requests(address, size)?;
    let replies = target.run(&requests);
    debugee.add_software_breakpoint(address, size, &replies)
}

fn add_hardware(debugee: &mut Debugee, target: &mut FakeTarget, address: u64) -> Result<(), DebugError> {
    let requests = debugee.add_hardware_breakpoint_requests(address)?;
    let replies = target.run(&requests);
    debugee.add_hardware_breakpoint(address, &replies)
}

fn remove(debugee: &mut Debugee, target: &mut FakeTarget, address: u64) -> Result<(), DebugError> {
    let requests = debugee.try_remove_breakpoint_requests(address);
    let replies = target.run(&requests);
    debugee.try_remove_breakpoint(address, &replies)
}

fn read(debugee: &Debugee, target: &mut FakeTarget, address: u64, size: usize) -> Result<Vec<u8>, DebugError> {
    let requests = debugee.read_memory_requests(address, size)?;
    let replies = target.run(&requests);
    debugee.read_memory(address, size, &replies)
}

fn write(debugee: &Debugee, target: &mut FakeTarget, address: u64, data: &Vec<u8>) -> Result<(), DebugError> {
    let requests = debugee.write_memory_requests(address, data)?;
    let replies = target.run(&requests);
    debugee.write_memory(address, data, &replies)
}

#[test]
fn attach_needs_the_kernel_to_agree() {
    assert_eq!(Debugee::attach_requests(), vec![Request::Seize]);
    assert_eq!(Debugee::new(7, &vec![Reply::Failed]).err(), Some(DebugError::AttachError));
    assert_eq!(Debugee::new(7, &vec![]).err(), Some(DebugError::AttachError));
    let debugee = attached(7);
    assert_eq!(debugee.pid(), 7);
    assert!(!debugee.stopped());
    assert!(debugee.breakpoints().is_empty());
    assert_eq!(*debugee.context(), Registers::zeroed());
}

#[test]
fn read_memory_returns_the_bytes_asked_for() {
    let debugee = attached(1);
    let mut target = FakeTarget::new(0x1000, code());
    assert_eq!(read(&debugee, &mut target, 0x1003, 11).unwrap(), (3u8..14).collect::<Vec<u8>>());
    assert_eq!(
        target.performed,
        vec![Request::PeekData { address: 0x1003 }, Request::PeekData { address: 0x100b }]
    );
    assert_eq!(read(&debugee, &mut target, 0x1000, 0).unwrap(), Vec::<u8>::new());
}

#[test]
fn read_memory_of_unmapped_memory_fails() {
    let debugee = attached(1);
    let mut target = FakeTarget::new(0x1000, code());
    assert_eq!(read(&debugee, &mut target, 0x1038, 16), Err(DebugError::IoError));
    assert_eq!(read(&debugee, &mut target, u64::MAX - 3, 2), Err(DebugError::IoError));
    assert_eq!(debugee.read_memory_requests(u64::MAX - 7, 8).map(|list| list.len()), Ok(1));
}

#[test]
fn partial_word_write_leaves_the_bytes_around_it_alone() {
    let debugee = attached(1);
    let mut target = FakeTarget::new(0x1000, code());
    let before = target.memory.clone();
    write(&debugee, &mut target, 0x1003, &vec![0xaa, 0xbb, 0xcc]).unwrap();
    let mut expected = before.clone();
    expected[3] = 0xaa;
    expected[4] = 0xbb;
    expected[5] = 0xcc;
    assert_eq!(target.memory, expected);
    assert_eq!(
        target.performed,
        vec![Request::PatchData { address: 0x1003, word: 0xccbbaa, count: 3 }]
    );
}

#[test]
fn write_of_eleven_bytes_is_one_word_and_a_patch() {
    let debugee = attached(1);
    let mut target = FakeTarget::new(0x1000, code());
    let data: Vec<u8> = (0xa0u8..0xab).collect();
    write(&debugee, &mut target, 0x1005, &data).unwrap();
    assert_eq!(
        target.performed,
        vec![
            Request::PokeData { address: 0x1005, word: 0xa7a6_a5a4_a3a2_a1a0 },
            Request::PatchData { address: 0x100d, word: 0xaaa9a8, count: 3 },
        ]
    );
    let mut expected = code();
    expected[5..16].copy_from_slice(&data);
    assert_eq!(target.memory, expected);
    assert_eq!(read(&debugee, &mut target, 0x1005, 11).unwrap(), data);
}

#[test]
fn write_of_whole_words_needs_no_patch() {
    let debugee = attached(1);
    let data: Vec<u8> = (1u8..17).collect();
    assert_eq!(
        debugee.write_memory_requests(0x2000, &data).unwrap(),
        vec![
            Request::PokeData { address: 0x2000, word: 0x0807_0605_0403_0201 },
            Request::PokeData { address: 0x2008, word: 0x100f_0e0d_0c0b_0a09 },
        ]
    );
    assert_eq!(debugee.write_memory_requests(0x2000, &vec![]).unwrap(), vec![]);
    assert_eq!(debugee.write_memory(0x2000, &data, &vec![Reply::Done]), Err(DebugError::IoError));
    assert_eq!(debugee.write_memory(0x2000, &data, &vec![Reply::Done, Reply::Done]), Ok(()));
    assert_eq!(
        debugee.write_memory_requests(u64::MAX - 1, &vec![1, 2, 3]),
        Err(DebugError::IoError)
    );
}

#[test]
fn software_breakpoint_round_trip_restores_memory() {
    let mut debugee = attached(1);
    let mut target = FakeTarget::new(0x1000, code());
    let before = target.memory.clone();
    add_software(&mut debugee, &mut target, 0x1011, 5).unwrap();
    assert_eq!(target.memory[0x11], 0xcc);
    assert_eq!(target.memory[0x10], 0x10);
    assert_eq!(target.memory[0x12], 0x12);
    let found = debugee.breakpoint_at_address(0x1011).unwrap();
    assert!(found.enabled());
    assert!(!found.hardware());
    assert_eq!(found.address(), 0x1011);
    assert_eq!(found.size(), 5);
    assert_eq!(found.original_bytes(), Some(&[0x11u8][..]));
    remove(&mut debugee, &mut target, 0x1011).unwrap();
    assert_eq!(target.memory, before);
    assert!(debugee.breakpoint_at_address(0x1011).is_none());
    assert!(debugee.breakpoints().is_empty());
}

#[test]
fn a_second_breakpoint_at_an_address_is_refused() {
    let mut debugee = attached(1);
    let mut target = FakeTarget::new(0x1000, code());
    add_software(&mut debugee, &mut target, 0x1008, 2).unwrap();
    assert_eq!(add_software(&mut debugee, &mut target, 0x1008, 2), Err(DebugError::DuplicateBreakpoint));
    assert_eq!(add_hardware(&mut debugee, &mut target, 0x1008), Err(DebugError::DuplicateBreakpoint));
    assert_eq!(debugee.breakpoints().len(), 1);
    assert_eq!(target.memory[8], 0xcc);
}

#[test]
fn a_failed_installation_changes_nothing() {
    let mut debugee = attached(1);
    let mut target = FakeTarget::new(0x1000, code());
    assert_eq!(add_software(&mut debugee, &mut target, 0x9000, 1), Err(DebugError::IoError));
    assert!(debugee.breakpoints().is_empty());
    assert_eq!(debugee.add_hardware_breakpoint(0x1000, &vec![Reply::Done]), Err(DebugError::IoError));
    assert!(debugee.breakpoints().is_empty());
    assert_eq!(debugee.hardware_breakpoints(), 0);
}

#[test]
fn removing_what_is_not_there_does_nothing() {
    let mut debugee = attached(1);
    let mut target = FakeTarget::new(0x1000, code());
    add_software(&mut debugee, &mut target, 0x1008, 2).unwrap();
    assert_eq!(debugee.try_remove_breakpoint_requests(0x1009), vec![]);
    assert_eq!(remove(&mut debugee, &mut target, 0x1009), Ok(()));
    assert_eq!(debugee.breakpoints().len(), 1);
    assert_eq!(debugee.try_remove_breakpoint(0x1008, &vec![]), Err(DebugError::IoError));
    assert_eq!(debugee.breakpoints().len(), 1);
}

#[test]
fn fifth_hardware_breakpoint_is_refused_and_a_freed_slot_is_used_again() {
    let mut debugee = attached(1);
    let mut target = FakeTarget::new(0x1000, code());
    for slot in 0..4u64 {
        assert_eq!(debugee.free_hardware_slot(), Some(slot as usize));
        add_hardware(&mut debugee, &mut target, 0x1000 + slot).unwrap();
        assert_eq!(target.user[&(848 + 8 * slot)], 0x1000 + slot);
    }
    assert_eq!(debugee.hardware_breakpoints(), 4);
    assert_eq!(debugee.free_hardware_slot(), None);
    assert_eq!(target.user[&904], 0x7ff);
    assert_eq!(debugee.add_hardware_breakpoint_requests(0x2000), Err(DebugError::SlotExhausted));
    assert_eq!(add_hardware(&mut debugee, &mut target, 0x2000), Err(DebugError::SlotExhausted));
    assert_eq!(debugee.add_hardware_breakpoint(0x2000, &vec![]), Err(DebugError::SlotExhausted));
    assert_eq!(debugee.breakpoints().len(), 4);

    remove(&mut debugee, &mut target, 0x1001).unwrap();
    assert_eq!(debugee.hardware_breakpoints(), 3);
    assert_eq!(debugee.free_hardware_slot(), Some(1));
    assert_eq!(target.user[&856], 0);
    assert_eq!(target.user[&904], 0x7f3);

    add_hardware(&mut debugee, &mut target, 0x2000).unwrap();
    assert_eq!(target.user[&856], 0x2000);
    assert_eq!(target.user[&904], 0x7ff);
    assert_eq!(debugee.hardware_breakpoints(), 4);
    assert_eq!(add_hardware(&mut debugee, &mut target, 0x3000), Err(DebugError::SlotExhausted));
    let found = debugee.breakpoint_at_address(0x2000).unwrap();
    assert!(found.hardware());
    assert_eq!(found.size(), 0);
    assert_eq!(found.original_bytes(), None);
    match found {
        Breakpoint::Hardware(inner) => assert_eq!(inner.register_index(), 1),
        Breakpoint::Software(_) => panic!("a hardware breakpoint was added"),
    }
}

#[test]
fn hardware_breakpoint_installs_in_three_requests() {
    let mut target = FakeTarget::new(0x1000, code());
    target.user.insert(904, 0x3);
    let mut breakpoint = HardwareBreakpoint::new(0xdead_beef, 2).unwrap();
    let requests = breakpoint.enable_requests();
    assert_eq!(
        requests,
        vec![
            Request::PokeUser { offset: 864, value: 0xdead_beef },
            Request::PokeUser { offset: 896, value: 0 },
            Request::PatchUser { offset: 904, clear: 0, set: 0x730 },
        ]
    );
    let replies = target.run(&requests);
    assert_eq!(breakpoint.enable(&replies), Ok(()));
    assert!(breakpoint.enabled());
    assert_eq!(target.user[&904], 0x733);
    assert_eq!(breakpoint.enable_requests(), vec![]);
    assert_eq!(breakpoint.enable(&vec![]), Ok(()));

    let requests = breakpoint.disable_requests();
    assert_eq!(
        requests,
        vec![
            Request::PokeUser { offset: 864, value: 0 },
            Request::PatchUser { offset: 904, clear: 0x30, set: 0 },
        ]
    );
    let replies = target.run(&requests);
    assert_eq!(breakpoint.disable(&replies), Ok(()));
    assert!(!breakpoint.enabled());
    assert_eq!(target.user[&904], 0x703);
    assert_eq!(target.user[&864], 0);
}

#[test]
fn enabling_and_disabling_a_slot_leaves_the_other_slots_alone() {
    for index in 0..4usize {
        for control in [0u64, 0xff, 0x55, 0xaa, 0xffff_0000, 0x1_0000_0403] {
            let own = 3u64 << (2 * index);
            let free = control & !own;
            let mut target = FakeTarget::new(0x1000, code());
            target.user.insert(904, free);
            let mut breakpoint = HardwareBreakpoint::new(0x4000, index).unwrap();
            let replies = target.run(&breakpoint.enable_requests());
            breakpoint.enable(&replies).unwrap();
            assert_eq!(target.user[&904], free | own | 0x700);
            let replies = target.run(&breakpoint.disable_requests());
            breakpoint.disable(&replies).unwrap();
            assert_eq!(target.user[&904], free | 0x700);
            assert_eq!(target.user[&904] & own, free & own);
            assert_eq!(target.user[&904] & 0xff & !own, free & 0xff & !own);
        }
    }
}

#[test]
fn hardware_breakpoint_needs_a_slot_below_four() {
    assert_eq!(HardwareBreakpoint::new(0x10, 4).err(), Some(DebugError::InvalidRegisterIndex));
    assert_eq!(HardwareBreakpoint::new(0x10, usize::MAX).err(), Some(DebugError::InvalidRegisterIndex));
    let breakpoint = HardwareBreakpoint::new(0x10, 3).unwrap();
    assert_eq!(breakpoint.address(), 0x10);
    assert_eq!(breakpoint.register_index(), 3);
    assert!(!breakpoint.enabled());
    assert!(breakpoint.hardware());
    assert_eq!(breakpoint.size(), 0);
    assert_eq!(breakpoint.original_bytes(), None);
}

#[test]
fn software_breakpoint_saves_the_byte_under_the_trap() {
    let mut target = FakeTarget::new(0x1000, code());
    let mut breakpoint = SoftwareBreakpoint::new(0x1020, 3);
    assert_eq!(breakpoint.address(), 0x1020);
    assert_eq!(breakpoint.size(), 3);
    assert!(!breakpoint.enabled());
    assert!(!breakpoint.hardware());
    assert_eq!(breakpoint.original_bytes(), Some(&[][..]));
    assert_eq!(breakpoint.displaced(), None);
    assert_eq!(breakpoint.disable_requests(), vec![]);

    let requests = breakpoint.enable_requests();
    assert_eq!(requests, vec![Request::PatchData { address: 0x1020, word: 0xcc, count: 1 }]);
    let replies = target.run(&requests);
    assert_eq!(replies, vec![Reply::Word(0x2726_2524_2322_2120)]);
    assert_eq!(breakpoint.enable(&replies), Ok(()));
    assert!(breakpoint.enabled());
    assert_eq!(breakpoint.original_bytes(), Some(&[0x20u8][..]));
    assert_eq!(breakpoint.displaced(), Some(0x20));
    assert_eq!(target.memory[0x20], 0xcc);
    assert_eq!(breakpoint.enable_requests(), vec![]);

    assert_eq!(breakpoint.disable(&vec![]), Err(DebugError::IoError));
    assert!(breakpoint.enabled());
    let requests = breakpoint.disable_requests();
    assert_eq!(requests, vec![Request::PatchData { address: 0x1020, word: 0x20, count: 1 }]);
    let replies = target.run(&requests);
    assert_eq!(breakpoint.disable(&replies), Ok(()));
    assert!(!breakpoint.enabled());
    assert_eq!(breakpoint.original_bytes(), Some(&[][..]));
    assert_eq!(target.memory, code());
}

#[test]
fn trap_behind_a_software_breakpoint_moves_the_instruction_pointer_past_it() {
    let mut debugee = attached(1);
    let mut target = FakeTarget::new(0x401000, code());
    add_software(&mut debugee, &mut target, 0x401010, 5).unwrap();
    target.user.insert(Register::Rip.offset(), 0x401011);
    let status = (5 << 8) | 0x7f;
    let requests = debugee.handle_status_requests(status);
    assert_eq!(requests, vec![Request::GetRegisters]);
    let replies = target.run(&requests);
    let report = debugee.handle_status(status, &replies).unwrap();
    assert_eq!(
        report,
        StopReport { event: StopEvent::Stopped { signal: 5 }, resume_at: Some(0x401015) }
    );
    assert!(debugee.stopped());
    assert_eq!(debugee.context().rip, 0x401011);

    let requests = debugee.set_rip_requests(0x401015);
    assert_eq!(requests, vec![Request::PokeUser { offset: 128, value: 0x401015 }]);
    let replies = target.run(&requests);
    debugee.set_rip(0x401015, &replies).unwrap();
    assert_eq!(debugee.context().rip, 0x401015);
    assert_eq!(target.user[&128], 0x401015);
}

#[test]
fn other_stops_call_for_no_correction() {
    let mut debugee = attached(1);
    let mut target = FakeTarget::new(0x401000, code());
    add_software(&mut debugee, &mut target, 0x401010, 5).unwrap();
    add_hardware(&mut debugee, &mut target, 0x401020).unwrap();

    target.user.insert(128, 0x401011);
    let stop = (19 << 8) | 0x7f;
    let replies = target.run(&debugee.handle_status_requests(stop));
    let report = debugee.handle_status(stop, &replies).unwrap();
    assert_eq!(report, StopReport { event: StopEvent::Stopped { signal: 19 }, resume_at: None });

    let trap = (5 << 8) | 0x7f;
    target.user.insert(128, 0x401021);
    let replies = target.run(&debugee.handle_status_requests(trap));
    assert_eq!(debugee.handle_status(trap, &replies).unwrap().resume_at, None);

    target.user.insert(128, 0x401012);
    let replies = target.run(&debugee.handle_status_requests(trap));
    assert_eq!(debugee.handle_status(trap, &replies).unwrap().resume_at, None);

    target.user.insert(128, 0);
    let replies = target.run(&debugee.handle_status_requests(trap));
    assert_eq!(debugee.handle_status(trap, &replies).unwrap().resume_at, None);
    assert_eq!(debugee.resume_address(StopEvent::Stopped { signal: 5 }), None);
}

#[test]
fn exit_is_told_without_the_registers() {
    let mut debugee = attached(1);
    let status = 3 << 8;
    assert_eq!(debugee.handle_status_requests(status), vec![]);
    let report = debugee.handle_status(status, &vec![]).unwrap();
    assert_eq!(report, StopReport { event: StopEvent::Exited { code: 3 }, resume_at: None });
    assert!(debugee.stopped());
    assert_eq!(*debugee.context(), Registers::zeroed());
}

#[test]
fn a_status_that_is_neither_exit_nor_stop_leaves_the_process_running() {
    let mut debugee = attached(1);
    assert_eq!(debugee.handle_status_requests(0xffff), vec![]);
    let report = debugee.handle_status(0xffff, &vec![]).unwrap();
    assert_eq!(report, StopReport { event: StopEvent::Other { signal: 0xff }, resume_at: None });
    assert!(!debugee.stopped());
    assert_eq!(debugee.handle_status(9, &vec![Reply::Done]), Err(DebugError::IoError));
}

#[test]
fn a_status_without_an_answer_changes_nothing() {
    let mut debugee = attached(1);
    let status = (5 << 8) | 0x7f;
    assert_eq!(debugee.handle_status(status, &vec![]), Err(DebugError::IoError));
    assert_eq!(debugee.handle_status(status, &vec![Reply::Failed]), Err(DebugError::IoError));
    assert!(!debugee.stopped());
}

#[test]
fn stop_resume_and_step_keep_the_flag_and_the_snapshot() {
    let mut debugee = attached(1);
    let mut target = FakeTarget::new(0x1000, code());
    target.user.insert(Register::Rax.offset(), 42);

    assert_eq!(debugee.stop_requests(), vec![Request::Interrupt, Request::GetRegisters]);
    let replies = target.run(&debugee.stop_requests());
    debugee.stop(&replies).unwrap();
    assert!(debugee.stopped());
    assert_eq!(debugee.context().rax, 42);

    target.user.insert(Register::Rax.offset(), 43);
    assert_eq!(debugee.single_step_requests(), vec![Request::SingleStep, Request::GetRegisters]);
    let replies = target.run(&debugee.single_step_requests());
    debugee.single_step(&replies).unwrap();
    assert!(debugee.stopped());
    assert_eq!(debugee.context().rax, 43);

    target.user.insert(Register::Rax.offset(), 44);
    assert_eq!(
        debugee.resume_requests(),
        vec![Request::GetRegisters, Request::Continue, Request::Continue]
    );
    let replies = target.run(&debugee.resume_requests());
    debugee.resume(&replies).unwrap();
    assert!(!debugee.stopped());
    assert_eq!(debugee.context().rax, 44);

    assert_eq!(debugee.stop(&vec![Reply::Done, Reply::Failed]), Err(DebugError::IoError));
    assert!(!debugee.stopped());
    assert_eq!(debugee.resume(&vec![]), Err(DebugError::IoError));
    assert_eq!(
        debugee.resume(&vec![Reply::Registers(Registers::zeroed()), Reply::Done]),
        Err(DebugError::IoError)
    );
    assert_eq!(
        debugee.resume(&vec![Reply::Registers(Registers::zeroed()), Reply::Done, Reply::Failed]),
        Err(DebugError::IoError)
    );
    assert_eq!(debugee.single_step(&vec![Reply::Done]), Err(DebugError::IoError));
    assert_eq!(debugee.context().rax, 44);

    target.user.insert(Register::Rax.offset(), 45);
    let replies = target.run(&debugee.update_context_requests());
    assert_eq!(debugee.update_context(&replies).map(|context| context.rax), Ok(45));
    assert_eq!(debugee.update_context(&vec![Reply::Word(1)]), Err(DebugError::IoError));
}

#[test]
fn kill_and_detach_are_plain_requests() {
    let debugee = attached(1);
    assert_eq!(debugee.detach_requests(), vec![Request::Detach]);
    assert_eq!(debugee.detach(&vec![Reply::Done]), Ok(()));
    assert_eq!(debugee.detach(&vec![Reply::Failed]), Err(DebugError::IoError));
    assert_eq!(debugee.kill_requests(), vec![Request::Kill, Request::Detach]);
    assert_eq!(debugee.kill(&vec![Reply::Done]), Err(DebugError::IoError));
    assert_eq!(debugee.kill(&vec![Reply::Done, Reply::Failed]), Err(DebugError::IoError));
    assert_eq!(debugee.kill(&vec![Reply::Done, Reply::Done]), Ok(()));
    assert_eq!(debugee.kill(&vec![Reply::Done, Reply::Done]), Ok(()));
    assert!(!debugee.stopped());
    assert!(debugee.breakpoints().is_empty());
}

#[test]
fn registers_are_written_through_the_user_area() {
    let mut debugee = attached(1);
    let mut target = FakeTarget::new(0x1000, code());
    let requests = debugee.write_register_requests(Register::Rsp, 0x7fff_0000);
    assert_eq!(
        requests,
        vec![Request::PokeUser { offset: 152, value: 0x7fff_0000 }, Request::GetRegisters]
    );
    let replies = target.run(&requests);
    debugee.write_register(Register::Rsp, 0x7fff_0000, &replies).unwrap();
    assert_eq!(debugee.context().rsp, 0x7fff_0000);
    assert_eq!(
        debugee.write_register(Register::Rsp, 1, &vec![Reply::Done]),
        Err(DebugError::IoError)
    );
    assert_eq!(debugee.context().rsp, 0x7fff_0000);

    let replies = target.run(&debugee.write_user_requests(904, 0x55));
    assert_eq!(debugee.write_user(904, 0x55, &replies), Ok(()));
    let replies = target.run(&debugee.read_user_requests(904));
    assert_eq!(debugee.read_user(904, &replies), Ok(0x55));
    assert_eq!(debugee.read_user(904, &vec![Reply::Done]), Err(DebugError::IoError));
    assert_eq!(debugee.set_rip(5, &vec![]), Err(DebugError::IoError));
    assert_eq!(debugee.context().rip, 0);
}

#[test]
fn a_click_goes_from_none_to_software_to_hardware_to_none() {
    let mut debugee = attached(1);
    let mut target = FakeTarget::new(0x1000, code());
    assert_eq!(debugee.toggle_at(0x1010), Toggle::AddSoftware);
    add_software(&mut debugee, &mut target, 0x1010, 2).unwrap();
    assert_eq!(debugee.toggle_at(0x1010), Toggle::ReplaceByHardware);
    assert_eq!(debugee.toggle_at(0x1011), Toggle::AddSoftware);
    remove(&mut debugee, &mut target, 0x1010).unwrap();
    add_hardware(&mut debugee, &mut target, 0x1010).unwrap();
    assert_eq!(debugee.toggle_at(0x1010), Toggle::Remove);
    assert_eq!(target.memory, code());
    remove(&mut debugee, &mut target, 0x1010).unwrap();
    assert_eq!(debugee.toggle_at(0x1010), Toggle::AddSoftware);
}

#[test]
fn a_session_runs_from_a_breakpoint_to_the_exit() {
    let entry = 0x401000u64;
    let mut target = FakeTarget::new(entry, code());
    let replies = target.run(&Debugee::attach_requests());
    let mut debugee = Debugee::new(4242, &replies).unwrap();
    add_software(&mut debugee, &mut target, entry, 3).unwrap();

    let replies = target.run(&debugee.resume_requests());
    debugee.resume(&replies).unwrap();
    assert!(!debugee.stopped());

    target.user.insert(Register::Rip.offset(), entry + 1);
    let status = (5 << 8) | 0x7f;
    let replies = target.run(&debugee.handle_status_requests(status));
    let report = debugee.handle_status(status, &replies).unwrap();
    assert!(debugee.stopped());
    assert_eq!(debugee.context().rip, entry + 1);
    assert_eq!(report.resume_at, Some(entry + 3));
    let replies = target.run(&debugee.set_rip_requests(entry + 3));
    debugee.set_rip(entry + 3, &replies).unwrap();
    assert_eq!(target.registers().rip, entry + 3);
    assert_eq!(debugee.context().rip, entry + 3);

    remove(&mut debugee, &mut target, entry).unwrap();
    assert_eq!(target.memory, code());
    let replies = target.run(&debugee.resume_requests());
    debugee.resume(&replies).unwrap();
    assert!(!debugee.stopped());

    let report = debugee.handle_status(0, &vec![]).unwrap();
    assert_eq!(report.event, StopEvent::Exited { code: 0 });
    assert!(debugee.stopped());
    assert_eq!(
        target.performed,
        vec![
            Request::Seize,
            Request::PatchData { address: entry, word: 0xcc, count: 1 },
            Request::GetRegisters,
            Request::Continue,
            Request::Continue,
            Request::GetRegisters,
            Request::PokeUser { offset: 128, value: entry + 3 },
            Request::PatchData { address: entry, word: 0x00, count: 1 },
            Request::GetRegisters,
            Request::Continue,
            Request::Continue,
        ]
    );
}

/// Whether the target holds what every breakpoint of `debugee` asks for.
fn all_in_place(debugee: &Debugee, target: &FakeTarget) -> bool {
    debugee.breakpoints().iter().all(|breakpoint| match breakpoint {
        Breakpoint::Software(inner) => target.memory[(inner.address() - target.base) as usize] == 0xcc,
        Breakpoint::Hardware(inner) => {
            let bits = 3u64 << (2 * inner.register_index());
            target.user[&(848 + 8 * inner.register_index() as u64)] == inner.address()
                && target.user[&904] & bits == bits
        }
    })
}

#[test]
fn every_breakpoint_stays_in_place_through_adds_and_removes() {
    let mut debugee = attached(1);
    let mut target = FakeTarget::new(0x1000, code());
    assert!(all_in_place(&debugee, &target));
    add_hardware(&mut debugee, &mut target, 0x1010).unwrap();
    add_software(&mut debugee, &mut target, 0x1004, 1).unwrap();
    add_hardware(&mut debugee, &mut target, 0x1020).unwrap();
    add_hardware(&mut debugee, &mut target, 0x1030).unwrap();
    assert!(all_in_place(&debugee, &target));
    assert_eq!(target.user[&904], 0x73f);

    remove(&mut debugee, &mut target, 0x1010).unwrap();
    assert!(all_in_place(&debugee, &target));
    assert_eq!(target.user[&848], 0);
    assert_eq!(target.user[&856], 0x1020);
    assert_eq!(target.user[&864], 0x1030);
    assert_eq!(target.user[&904], 0x73c);

    add_software(&mut debugee, &mut target, 0x1005, 1).unwrap();
    remove(&mut debugee, &mut target, 0x1004).unwrap();
    add_hardware(&mut debugee, &mut target, 0x1040).unwrap();
    assert!(all_in_place(&debugee, &target));
    assert_eq!(target.user[&848], 0x1040);
    assert_eq!(target.user[&856], 0x1020);
    assert_eq!(target.user[&864], 0x1030);
    assert_eq!(target.user[&904], 0x73f);
    assert_eq!(target.memory[4], code()[4]);
    assert_eq!(target.memory[5], 0xcc);

    assert_eq!(add_hardware(&mut debugee, &mut target, 0x1020), Err(DebugError::DuplicateBreakpoint));
    assert_eq!(add_software(&mut debugee, &mut target, 0x1005, 1), Err(DebugError::DuplicateBreakpoint));
    remove(&mut debugee, &mut target, 0x5000).unwrap();
    assert!(all_in_place(&debugee, &target));
    assert_eq!(debugee.breakpoints().len(), 4);
    assert_eq!(debugee.hardware_breakpoints(), 3);
}

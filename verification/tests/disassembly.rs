use dbgcore::debugee::Debugee;
use dbgcore::decoder::Decoded;
use dbgcore::disassembly::{
    confirms, decode_window, overlay, record_of, recover_previous, DisassemblyView, Instruction,
    CACHE_RANGE,
};
use dbgcore::error::DebugError;
use dbgcore::tracing::{Reply, Request};

const BASE: u64 = 0x400000;

/// Mapped code: no-operations, and at offset 0x20 an instruction of five
/// bytes followed by one of two.
fn code() -> Vec<u8> {
    let mut bytes = vec![0x90u8; 0x400];
    bytes[0x20..0x27].copy_from_slice(&[0xb8, 0x06, 0x06, 0x06, 0x06, 0x31, 0xc0]);
    bytes
}

fn perform(memory: &mut Vec<u8>, request: &Request) -> Reply {
    let (address, patch) = match *request {
        Request::PeekData { address } => (address, false),
        Request::PatchData { address, .. } => (address, true),
        _ => return Reply::Done,
    };
    let from = match address.checked_sub(BASE) {
        Some(from) if from as usize + 8 <= memory.len() => from as usize,
        _ => return Reply::Failed,
    };
    let mut word = [0u8; 8];
    word.copy_from_slice(&memory[from..from + 8]);
    let old = u64::from_le_bytes(word);
    if patch {
        memory[from..from + 8].copy_from_slice(&request.patched(old).to_le_bytes());
    }
    Reply::Word(old)
}

fn run(memory: &mut Vec<u8>, requests: &Vec<Request>) -> Vec<Reply> {
    requests.iter().map(|request| perform(memory, request)).collect()
}

fn attached() -> Debugee {
    Debugee::new(1, &vec![Reply::Done]).unwrap()
}

fn refresh(view: &mut DisassemblyView, debugee: &Debugee, memory: &mut Vec<u8>) -> Result<(), DebugError> {
    let requests = view.refresh_cache_requests()?;
    let replies = run(memory, &requests);
    view.refresh_cache(debugee, &replies)
}

fn extend_back(view: &mut DisassemblyView, debugee: &Debugee, memory: &mut Vec<u8>) -> Result<Option<u64>, DebugError> {
    let requests = view.extend_back_requests()?;
    let replies = run(memory, &requests);
    view.extend_back(debugee, &replies)
}

#[test]
fn two_instructions_decode_to_two_records() {
    let window = vec![0xb8, 0x06, 0x06, 0x06, 0x06, 0x31, 0xc0];
    let records = decode_window(&window, 0x1000).unwrap();
    assert_eq!(records.len(), 2);
    assert_eq!(records[0].addr(), 0x1000);
    assert_eq!(records[0].len(), 5);
    assert_eq!(records[0].bytes(), &vec![0xb8, 0x06, 0x06, 0x06, 0x06]);
    assert_eq!(records[0].code(), iced_x86::Code::Mov_r32_imm32 as u32);
    assert_eq!(records[1].addr(), 0x1005);
    assert_eq!(records[1].len(), 2);
    assert_eq!(records[1].bytes(), &vec![0x31, 0xc0]);
    assert_eq!(records[1].code(), iced_x86::Code::Xor_rm32_r32 as u32);
    assert!(records[0].addr() + records[0].len() as u64 <= records[1].addr());
}

#[test]
fn an_empty_window_decodes_to_nothing() {
    assert_eq!(decode_window(&vec![], 0x1000).unwrap(), vec![]);
    assert_eq!(decode_window(&vec![0x90], u64::MAX).unwrap().len(), 1);
    assert_eq!(decode_window(&vec![0x90, 0x90], u64::MAX), Err(DebugError::DecodeUnavailable));
}

#[test]
fn bytes_that_are_no_instruction_get_the_code_zero() {
    let records = decode_window(&vec![0x90, 0x06, 0x90, 0x0f], 0).unwrap();
    assert_eq!(records.len(), 3);
    assert_eq!(records[0].code(), iced_x86::Code::Nopd as u32);
    assert_eq!(records[0].len(), 1);
    assert_eq!(records[1].code(), 0);
    assert_eq!(records[1].addr(), 1);
    assert_eq!(records[1].bytes(), &vec![0x06, 0x90]);
    assert_eq!(records[2].code(), 0);
    assert_eq!(records[2].addr(), 3);
    assert_eq!(records[2].bytes(), &vec![0x0f]);
}

#[test]
fn refresh_fills_the_cache_from_the_anchor_on() {
    let debugee = attached();
    let mut memory = code();
    let mut view = DisassemblyView::new();
    assert_eq!(view.rip(), 0);
    assert_eq!(view.len(), 0);
    view.set_rip(BASE + 0x20);
    assert_eq!(view.instruction_index(), None);
    assert!(view.needs_refresh(1));
    assert_eq!(view.listing(4).err(), Some(DebugError::DecodeUnavailable));

    let requests = view.refresh_cache_requests().unwrap();
    assert_eq!(requests.len(), (CACHE_RANGE / 8) as usize);
    assert_eq!(requests[0], Request::PeekData { address: BASE + 0x20 });
    assert_eq!(requests[41], Request::PeekData { address: BASE + 0x20 + 41 * 8 });
    refresh(&mut view, &debugee, &mut memory).unwrap();

    assert_eq!(view.len(), 2 + 0x150 - 7);
    assert_eq!(view.instruction_index(), Some(0));
    let cache = view.cache();
    assert_eq!(cache[0].addr(), BASE + 0x20);
    assert_eq!(cache[0].len(), 5);
    assert_eq!(cache[1].addr(), BASE + 0x25);
    assert_eq!(cache[1].len(), 2);
    assert_eq!(cache[2].addr(), BASE + 0x27);
    assert_eq!(cache[2].bytes(), &vec![0x90]);
    for pair in cache.windows(2) {
        assert!(pair[0].addr() < pair[1].addr());
        assert_eq!(pair[0].addr() + pair[0].len() as u64, pair[1].addr());
    }

    let shown = view.listing(2).unwrap();
    assert_eq!(shown.len(), 2);
    assert_eq!(shown[1].addr(), BASE + 0x25);
    assert!(!view.needs_refresh(10));
    assert!(view.needs_refresh(0x200));
}

#[test]
fn refresh_twice_keeps_one_record_for_each_address() {
    let debugee = attached();
    let mut memory = code();
    let mut view = DisassemblyView::new();
    view.set_rip(BASE + 0x20);
    refresh(&mut view, &debugee, &mut memory).unwrap();
    let first = view.len();
    refresh(&mut view, &debugee, &mut memory).unwrap();
    assert_eq!(view.len(), first);
    view.set_rip(BASE + 0x25);
    refresh(&mut view, &debugee, &mut memory).unwrap();
    assert_eq!(view.len(), first + 5);
    assert_eq!(view.instruction_index(), Some(1));
}

#[test]
fn the_decoder_never_sees_a_trap() {
    let mut debugee = attached();
    let mut memory = code();
    let requests = debugee.add_software_breakpoint_requests(BASE + 0x25, 2).unwrap();
    let replies = run(&mut memory, &requests);
    debugee.add_software_breakpoint(BASE + 0x25, 2, &replies).unwrap();
    assert_eq!(memory[0x25], 0xcc);

    let mut view = DisassemblyView::new();
    view.set_rip(BASE + 0x20);
    refresh(&mut view, &debugee, &mut memory).unwrap();
    let cache = view.cache();
    assert_eq!(cache[1].addr(), BASE + 0x25);
    assert_eq!(cache[1].bytes(), &vec![0x31, 0xc0]);
    assert_eq!(cache[1].code(), iced_x86::Code::Xor_rm32_r32 as u32);

    let mut window = memory[0x20..0x30].to_vec();
    overlay(&mut window, BASE + 0x20, &debugee);
    assert_eq!(window, code()[0x20..0x30].to_vec());
    let mut elsewhere = memory[0x26..0x30].to_vec();
    overlay(&mut elsewhere, BASE + 0x26, &debugee);
    assert_eq!(elsewhere, memory[0x26..0x30].to_vec());
}

#[test]
fn the_instruction_before_is_found_by_search() {
    let debugee = attached();
    let mut memory = code();
    let mut view = DisassemblyView::new();
    view.set_rip(BASE + 0x25);
    refresh(&mut view, &debugee, &mut memory).unwrap();
    assert_eq!(view.instruction_index(), Some(0));
    assert!(!view.retreat());

    let requests = view.extend_back_requests().unwrap();
    assert_eq!(
        requests,
        vec![Request::PeekData { address: BASE + 0x16 }, Request::PeekData { address: BASE + 0x1e }]
    );
    assert_eq!(extend_back(&mut view, &debugee, &mut memory), Ok(Some(BASE + 0x20)));
    assert_eq!(view.rip(), BASE + 0x25);
    assert_eq!(view.instruction_index(), Some(1));
    assert_eq!(view.cache()[0].addr(), BASE + 0x20);
    assert_eq!(view.cache()[0].bytes(), &vec![0xb8, 0x06, 0x06, 0x06, 0x06]);
    assert_eq!(view.cache()[0].code(), iced_x86::Code::Mov_r32_imm32 as u32);

    assert!(view.retreat());
    assert_eq!(view.rip(), BASE + 0x20);
    assert!(!view.retreat());
    assert_eq!(extend_back(&mut view, &debugee, &mut memory), Ok(Some(BASE + 0x1f)));
    assert!(view.retreat());
    assert_eq!(view.rip(), BASE + 0x1f);
    assert!(view.advance());
    assert!(view.advance());
    assert_eq!(view.rip(), BASE + 0x25);
}

#[test]
fn search_before_a_known_instruction_takes_the_first_length_that_fits() {
    let known = Instruction::new(0x1005, vec![0x31, 0xc0], iced_x86::Code::Xor_rm32_r32 as u32);
    let before = vec![0x90, 0x90, 0xb8, 0x06, 0x06, 0x06, 0x06];
    let found = recover_previous(&before, &known).unwrap().unwrap();
    assert_eq!(found.addr(), 0x1000);
    assert_eq!(found.len(), 5);
    assert_eq!(found.code(), iced_x86::Code::Mov_r32_imm32 as u32);

    let found = recover_previous(&vec![0x06, 0x90], &known).unwrap().unwrap();
    assert_eq!(found.addr(), 0x1004);
    assert_eq!(found.bytes(), &vec![0x90]);

    assert_eq!(recover_previous(&vec![0x06, 0x06], &known).unwrap(), None);
    assert_eq!(recover_previous(&vec![], &known).unwrap(), None);
    let other = Instruction::new(0x1005, vec![0x31, 0xc0], iced_x86::Code::Nopd as u32);
    assert_eq!(recover_previous(&before, &other).unwrap(), None);
    let low = Instruction::new(0, vec![0x31, 0xc0], iced_x86::Code::Xor_rm32_r32 as u32);
    assert_eq!(recover_previous(&before, &low).unwrap(), None);
    let empty = Instruction::new(0x1005, vec![], 0);
    assert_eq!(recover_previous(&before, &empty).unwrap(), None);
}

#[test]
fn nothing_lies_before_address_zero() {
    let debugee = attached();
    let mut view = DisassemblyView::new();
    view.merge(&vec![Instruction::new(0, vec![0x90], iced_x86::Code::Nopd as u32)]);
    assert_eq!(view.extend_back_requests(), Ok(vec![]));
    assert_eq!(view.extend_back(&debugee, &vec![]), Ok(None));
    view.set_rip(7);
    assert_eq!(view.extend_back(&debugee, &vec![]), Err(DebugError::DecodeUnavailable));
}

#[test]
fn an_unmapped_anchor_is_told_as_unavailable() {
    let debugee = attached();
    let mut memory = code();
    let mut view = DisassemblyView::new();
    view.set_rip(0x10);
    assert_eq!(refresh(&mut view, &debugee, &mut memory), Err(DebugError::DecodeUnavailable));
    assert_eq!(view.len(), 0);
    assert_eq!(view.listing(1).err(), Some(DebugError::DecodeUnavailable));
    view.set_rip(u64::MAX - 8);
    assert_eq!(view.refresh_cache_requests(), Err(DebugError::DecodeUnavailable));
    assert_eq!(view.refresh_cache(&debugee, &vec![]), Err(DebugError::DecodeUnavailable));
    assert!(!view.advance());
}

#[test]
fn merge_keeps_the_record_that_was_there() {
    let mut view = DisassemblyView::new();
    view.merge(&vec![
        Instruction::new(0x30, vec![3], 3),
        Instruction::new(0x10, vec![1], 1),
        Instruction::new(0x20, vec![2, 2], 2),
    ]);
    view.merge(&vec![Instruction::new(0x20, vec![9], 9), Instruction::new(0x18, vec![8], 8)]);
    let addresses: Vec<u64> = view.cache().iter().map(|record| record.addr()).collect();
    assert_eq!(addresses, vec![0x10, 0x18, 0x20, 0x30]);
    assert_eq!(view.cache()[2], Instruction::new(0x20, vec![2, 2], 2));
    view.set_rip(0x20);
    assert_eq!(view.instruction_index(), Some(2));
    assert!(!view.retreat());
    assert!(view.advance());
    assert_eq!(view.rip(), 0x22);
    assert!(!view.advance());
    view.purge_cache();
    assert_eq!(view.len(), 0);
    assert_eq!(view.rip(), 0x22);
}

#[test]
fn records_far_from_the_anchor_are_dropped() {
    let mut view = DisassemblyView::new();
    let at = 0x10000u64;
    let addresses = [
        at - 0x5000,
        at - 0x2a1,
        at - 0x2a0,
        at - 0x29f,
        at - 1,
        at,
        at + 0x29f,
        at + 0x2a0,
        at + 0x2a1,
        at + 0x5000,
    ];
    let records: Vec<Instruction> =
        addresses.iter().map(|&addr| Instruction::new(addr, vec![0x90], 1)).collect();
    view.merge(&records);
    view.set_rip(at);
    view.clean_cache();
    let kept: Vec<u64> = view.cache().iter().map(|record| record.addr()).collect();
    assert_eq!(kept, vec![at - 0x2a0, at - 0x29f, at - 1, at, at + 0x29f, at + 0x2a0]);
    assert_eq!(view.rip(), at);
}

#[test]
fn a_record_is_made_of_what_the_decoder_told() {
    let window = vec![0x10, 0x11, 0x12, 0x13, 0x14];
    let record = record_of(&window, 0x7000, 1, Decoded { length: 3, code: 77 }).unwrap();
    assert_eq!(record, Instruction::new(0x7001, vec![0x11, 0x12, 0x13], 77));
    assert_eq!(record.len(), 3);
    let last = record_of(&window, 0x7000, 4, Decoded { length: 1, code: 0 }).unwrap();
    assert_eq!(last, Instruction::new(0x7004, vec![0x14], 0));
    assert_eq!(record_of(&window, 0x7000, 1, Decoded { length: 0, code: 77 }), None);
    assert_eq!(record_of(&window, 0x7000, 3, Decoded { length: 3, code: 77 }), None);
    assert_eq!(record_of(&window, 0x7000, 6, Decoded { length: 1, code: 77 }), None);
    assert_eq!(record_of(&window, 0x7000, 0, Decoded { length: usize::MAX, code: 77 }), None);
    assert_eq!(record_of(&window, u64::MAX - 1, 2, Decoded { length: 1, code: 77 }), None);
    assert!(record_of(&window, u64::MAX - 1, 1, Decoded { length: 1, code: 77 }).is_some());
}

#[test]
fn two_decodes_confirm_the_instruction_before() {
    let known = Instruction::new(0x1005, vec![0x31, 0xc0], 9);
    let second = Decoded { length: 2, code: 9 };
    assert!(confirms(Decoded { length: 5, code: 4 }, second, 5, &known));
    assert!(!confirms(Decoded { length: 5, code: 4 }, second, 4, &known));
    assert!(!confirms(Decoded { length: 5, code: 0 }, second, 5, &known));
    assert!(!confirms(Decoded { length: 5, code: 4 }, Decoded { length: 3, code: 9 }, 5, &known));
    assert!(!confirms(Decoded { length: 5, code: 4 }, Decoded { length: 2, code: 8 }, 5, &known));
}

#[test]
fn no_record_is_empty_or_longer_than_fifteen_bytes() {
    let mut window = vec![0x66u8; 40];
    window.extend_from_slice(&[0x90, 0xb8, 0x06, 0x06, 0x06, 0x06, 0x0f]);
    let records = decode_window(&window, 0x2000).unwrap();
    assert!(!records.is_empty());
    assert_eq!(records[0].addr(), 0x2000);
    let mut next: u64 = 0x2000;
    for record in &records {
        assert!(1 <= record.len() && record.len() <= 15);
        assert_eq!(record.addr(), next);
        assert_eq!(record.bytes(), &window[(next - 0x2000) as usize..][..record.len()].to_vec());
        next += record.len() as u64;
    }
    assert_eq!(next, 0x2000 + window.len() as u64);
}

#[test]
fn the_instruction_found_ends_where_the_anchor_begins() {
    let debugee = attached();
    let mut memory = code();
    let mut view = DisassemblyView::new();
    view.set_rip(BASE + 0x27);
    refresh(&mut view, &debugee, &mut memory).unwrap();
    let found = extend_back(&mut view, &debugee, &mut memory).unwrap().unwrap();
    assert_eq!(found, BASE + 0x25);
    assert!(found < view.rip());
    assert_eq!(found + view.cache()[0].len() as u64, view.rip());
    assert_eq!(view.cache()[0].bytes(), &vec![0x31, 0xc0]);
    assert_eq!(view.cache()[1].addr(), BASE + 0x27);
}

use dbgcore::address::{digit, parse_address};
use dbgcore::error::DebugError;
use dbgcore::hex_view::{CursorStep, HexView};
use dbgcore::registers::{Register, Registers, USER_DEBUG_REGISTERS_OFFSET};
use dbgcore::status::{classify, notify, StopEvent};
use dbgcore::tracing::{answered, confirm, Reply, Request};

fn words(from: u64, count: u64) -> Vec<Reply> {
    (0..count)
        .map(|index| {
            let first = from + 8 * index;
            let mut word = [0u8; 8];
            for (offset, byte) in word.iter_mut().enumerate() {
                *byte = (first + offset as u64) as u8;
            }
            Reply::Word(u64::from_le_bytes(word))
        })
        .collect()
}

#[test]
fn a_new_hex_view_is_empty() {
    let view = HexView::new();
    assert_eq!(view.address(), 0);
    assert_eq!(view.cursor_address(), 0);
    assert!(!view.is_display_dirty());
    assert_eq!(view.get(0), None);
}

#[test]
fn set_address_moves_display_and_cursor() {
    let mut view = HexView::new();
    view.set_address(0x1234);
    assert_eq!(view.address(), 0x1234);
    assert_eq!(view.cursor_address(), 0x1234);
}

#[test]
fn update_fills_the_cache_around_the_address() {
    let mut view = HexView::new();
    view.set_address(0x1000);
    let requests = view.update_cache_requests().unwrap();
    assert_eq!(requests.len(), 64);
    assert_eq!(requests[0], Request::PeekData { address: 0xf00 });
    assert_eq!(requests[63], Request::PeekData { address: 0xf00 + 63 * 8 });
    view.update_cache(&words(0xf00, 64)).unwrap();
    assert!(view.is_display_dirty());
    assert_eq!(view.get(0xeff), None);
    assert_eq!(view.get(0xf00), Some(0x00));
    assert_eq!(view.get(0x1000), Some(0x00));
    assert_eq!(view.get(0x1003), Some(0x03));
    assert_eq!(view.get(0x10ff), Some(0xff));
    assert_eq!(view.get(0x1100), None);
    view.mark_drawn();
    assert!(!view.is_display_dirty());
    assert_eq!(view.update_cache(&words(0xf00, 63)), Err(DebugError::IoError));
    assert!(!view.is_display_dirty());
}

#[test]
fn update_near_address_zero_starts_at_zero() {
    let mut view = HexView::new();
    view.set_address(0x10);
    assert_eq!(view.update_cache_requests().unwrap()[0], Request::PeekData { address: 0 });
    view.update_cache(&words(0, 64)).unwrap();
    assert_eq!(view.get(0), Some(0));
    assert_eq!(view.get(0x1ff), Some(0xff));
    assert_eq!(view.get(0x200), None);
    view.set_address(u64::MAX);
    assert_eq!(view.update_cache_requests(), Err(DebugError::IoError));
}

#[test]
fn clean_drops_what_is_far_and_purge_drops_all() {
    let mut view = HexView::new();
    view.set_address(0x1000);
    view.update_cache(&words(0xf00, 64)).unwrap();
    view.set_address(0x1300);
    view.update_cache(&words(0x1200, 64)).unwrap();
    view.clean_cache();
    assert_eq!(view.get(0x1000), None);
    assert_eq!(view.get(0x10ff), None);
    assert_eq!(view.get(0x1200), Some(0x00));
    assert_eq!(view.get(0x13ff), Some(0xff));
    view.set_address(0x1200 + 0x1ff);
    view.clean_cache();
    assert_eq!(view.get(0x1200), Some(0x00));
    view.set_address(0x1200 + 0x200);
    view.clean_cache();
    assert_eq!(view.get(0x1200), None);
    assert_eq!(view.get(0x1201), Some(0x01));
    view.purge_cache();
    assert_eq!(view.get(0x1201), None);
    assert_eq!(view.address(), 0x1400);
}

#[test]
fn scrolling_takes_the_cursor_along() {
    let mut view = HexView::new();
    view.set_address(0x100);
    view.scroll_down();
    assert_eq!((view.address(), view.cursor_address()), (0x110, 0x110));
    view.move_cursor(CursorStep::Down);
    view.move_cursor(CursorStep::Right);
    assert_eq!(view.cursor_address(), 0x121);
    view.scroll_down();
    assert_eq!((view.address(), view.cursor_address()), (0x120, 0x121));
    view.move_cursor(CursorStep::Left);
    view.move_cursor(CursorStep::Up);
    assert_eq!(view.cursor_address(), 0x110);
    view.set_address(0x100);
    view.move_cursor(CursorStep::Down);
    view.move_cursor(CursorStep::Down);
    view.move_cursor(CursorStep::Down);
    view.scroll_up(1);
    assert_eq!((view.address(), view.cursor_address()), (0xf0, 0x100));
    view.scroll_up(u64::MAX);
    assert_eq!((view.address(), view.cursor_address()), (0xe0, 0x100));
    view.set_address(5);
    view.scroll_up(0);
    assert_eq!((view.address(), view.cursor_address()), (0, 0));
    view.move_cursor(CursorStep::Left);
    view.move_cursor(CursorStep::Up);
    assert_eq!(view.cursor_address(), 0);
    view.set_address(u64::MAX - 3);
    view.scroll_down();
    view.move_cursor(CursorStep::Right);
    view.move_cursor(CursorStep::Down);
    assert_eq!((view.address(), view.cursor_address()), (u64::MAX, u64::MAX));
}

#[test]
fn the_display_follows_the_cursor() {
    let mut view = HexView::new();
    view.set_address(0x100);
    view.set_cursor(0x1a5);
    assert_eq!((view.address(), view.cursor_address()), (0x100, 0x1a5));
    view.follow_cursor(4);
    assert_eq!((view.address(), view.cursor_address()), (0x170, 0x1a5));
    view.follow_cursor(4);
    assert_eq!(view.address(), 0x170);
    view.set_cursor(0x50);
    view.follow_cursor(4);
    assert_eq!((view.address(), view.cursor_address()), (0x50, 0x50));
    view.set_cursor(0x45);
    view.follow_cursor(0);
    assert_eq!(view.address(), 0x40);
    view.set_cursor(3);
    view.follow_cursor(u64::MAX);
    assert_eq!(view.address(), 0);
    view.set_address(u64::MAX - 40);
    view.set_cursor(u64::MAX);
    view.follow_cursor(1);
    assert_eq!(view.address(), u64::MAX - 8);
}

#[test]
fn wait_status_is_taken_apart() {
    assert_eq!(classify(0), StopEvent::Exited { code: 0 });
    assert_eq!(classify(0x2a00), StopEvent::Exited { code: 42 });
    assert_eq!(classify(0x057f), StopEvent::Stopped { signal: 5 });
    assert_eq!(classify(0x137f), StopEvent::Stopped { signal: 19 });
    assert_eq!(classify(0x0009), StopEvent::Other { signal: 0 });
    assert_eq!(classify(0xffff), StopEvent::Other { signal: 0xff });
    assert_eq!(classify(0x0100), StopEvent::Exited { code: 1 });
    assert!(StopEvent::Stopped { signal: 5 }.is_trap());
    assert!(!StopEvent::Stopped { signal: 11 }.is_trap());
    assert!(!StopEvent::Exited { code: 5 }.is_trap());
    assert!(!StopEvent::Other { signal: 5 }.is_trap());
    assert!(StopEvent::Exited { code: 0 }.halts());
    assert!(StopEvent::Stopped { signal: 2 }.halts());
    assert!(!StopEvent::Other { signal: 0 }.halts());
    assert_eq!(notify(-1, 0x57f), None);
    assert_eq!(notify(1234, 0x57f), Some(0x57f));
    assert_eq!(notify(0, 0), Some(0));
}

#[test]
fn registers_lie_in_the_order_of_the_user_area() {
    assert_eq!(Register::R15.offset(), 0);
    assert_eq!(Register::Rax.offset(), 80);
    assert_eq!(Register::Rip.offset(), 128);
    assert_eq!(Register::Eflags.offset(), 144);
    assert_eq!(Register::Rsp.offset(), 152);
    assert_eq!(Register::Gs.offset(), 208);
    assert_eq!(USER_DEBUG_REGISTERS_OFFSET, 848);
    let registers = Registers::zeroed().with(Register::Rip, 7).with(Register::OrigRax, 9);
    assert_eq!(registers.rip, 7);
    assert_eq!(registers.orig_rax, 9);
    assert_eq!(registers.get(Register::Rip), 7);
    assert_eq!(registers.get(Register::Rax), 0);
    assert_eq!(registers.with(Register::Rip, 8).get(Register::OrigRax), 9);
}

#[test]
fn replies_must_answer_the_requests_one_for_one() {
    let requests = vec![
        Request::PeekData { address: 1 },
        Request::PokeData { address: 1, word: 2 },
        Request::GetRegisters,
        Request::PatchUser { offset: 904, clear: 0, set: 1 },
        Request::Continue,
    ];
    let replies = vec![
        Reply::Word(0),
        Reply::Done,
        Reply::Registers(Registers::zeroed()),
        Reply::Word(9),
        Reply::Done,
    ];
    assert!(answered(&requests, &replies));
    assert_eq!(confirm(&requests, &replies), Ok(()));
    assert!(!answered(&requests, &replies[..4].to_vec()));
    let mut wrong = replies.clone();
    wrong[1] = Reply::Word(0);
    assert!(!answered(&requests, &wrong));
    wrong[1] = Reply::Failed;
    assert_eq!(confirm(&requests, &wrong), Err(DebugError::IoError));
    assert!(answered(&vec![], &vec![]));
    assert!(Request::Seize.fits(&Reply::Done));
    assert!(!Request::Seize.fits(&Reply::Failed));
    assert!(!Request::PeekUser { offset: 0 }.fits(&Reply::Done));
    assert_eq!(Request::PatchData { address: 0, word: 0xcc, count: 1 }.patched(0x1122), 0x11cc);
    assert_eq!(Request::PatchUser { offset: 0, clear: 0xf0, set: 0x1 }.patched(0xff), 0x0f);
    assert_eq!(Request::PokeData { address: 0, word: 5 }.patched(0x1122), 0x1122);
}

#[test]
fn addresses_are_read_as_hexadecimal() {
    let parse = |text: &str| parse_address(&text.as_bytes().to_vec());
    assert_eq!(parse("0x401000"), Some(0x401000));
    assert_eq!(parse("401000"), Some(0x401000));
    assert_eq!(parse("DeadBeef"), Some(0xdead_beef));
    assert_eq!(parse("0x000000000000000000000001f"), Some(0x1f));
    assert_eq!(parse("0xffffffffffffffff"), Some(u64::MAX));
    assert_eq!(parse("0x10000000000000000"), None);
    assert_eq!(parse("+1f"), Some(0x1f));
    assert_eq!(parse("0x+1f"), Some(0x1f));
    assert_eq!(parse("12x34x56"), Some(0x56));
    assert_eq!(parse(""), None);
    assert_eq!(parse("0x"), None);
    assert_eq!(parse("+"), None);
    assert_eq!(parse("-1"), None);
    assert_eq!(parse("++1"), None);
    assert_eq!(parse("12g"), None);
    assert_eq!(parse(" 12"), None);
    assert_eq!(parse("0X12"), None);
    for text in ["0x401000", "", "zz", "0x+7", "10000000000000000", "fffffffffffffffff0"] {
        let expected = u64::from_str_radix(text.split('x').last().unwrap(), 16).ok();
        assert_eq!(parse(text), expected);
    }
    assert_eq!(digit(b'7'), Some(7));
    assert_eq!(digit(b'a'), Some(10));
    assert_eq!(digit(b'F'), Some(15));
    assert_eq!(digit(b'g'), None);
    assert_eq!(digit(b'/'), None);
}

#[test]
fn each_error_has_its_text() {
    let all = [
        DebugError::AttachError,
        DebugError::IoError,
        DebugError::SlotExhausted,
        DebugError::InvalidRegisterIndex,
        DebugError::DuplicateBreakpoint,
        DebugError::DecodeUnavailable,
    ];
    for (index, error) in all.iter().enumerate() {
        assert!(!error.message().is_empty());
        for other in &all[index + 1..] {
            assert_ne!(error.message(), other.message());
        }
    }
    assert_eq!(DebugError::SlotExhausted.message(), "no hardware breakpoint slot is free");
}

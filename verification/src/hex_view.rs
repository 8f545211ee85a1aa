use std::collections::HashMap;
use vstd::prelude::*;
use crate::error::DebugError;
use crate::memory::{read_bytes, read_plan, read_requests, read_result, reachable};
use crate::tracing::{all_fit, Reply, Request};

verus! {

broadcast use vstd::std_specs::hash::group_hash_axioms;

/// Number of bytes that one update of the cache fetches on each side of the
/// address on display.
pub const HEX_CACHE_RANGE: usize = 256;

/// Number of bytes in one row of the display.
pub const HEX_ROW: u64 = 16;

/// The bytes of memory that a hex display shows: the address of its first
/// row, the address under the cursor, and the bytes fetched so far.
pub struct HexView {
    address: u64,
    cursor_address: u64,
    cache: HashMap<u64, u8>,
    is_display_dirty: bool,
}

/// What a [`HexView`] holds.
pub struct HexViewState {
    pub address: u64,
    pub cursor_address: u64,
    pub cache: Map<u64, u8>,
    pub is_display_dirty: bool,
}

/// A step of the cursor.
#[derive(Clone, Copy, Debug, PartialEq, Eq, Structural)]
pub enum CursorStep {
    Up,
    Down,
    Left,
    Right,
}

/// How far two addresses lie apart.
pub open spec fn distance(a: u64, b: u64) -> int {
    if a >= b {
        a - b
    } else {
        b - a
    }
}

/// Whether a cached byte at `key` is kept when the display stands at
/// `address`: it lies less than twice the cache range away.
pub open spec fn kept(address: u64, key: u64) -> bool {
    distance(address, key) < 2 * HEX_CACHE_RANGE
}

/// `a + b`, held at the largest address.
pub open spec fn clamped_add(a: u64, b: int) -> u64 {
    if a + b > u64::MAX {
        u64::MAX
    } else {
        (a + b) as u64
    }
}

/// `a - b`, held at zero.
pub open spec fn clamped_sub(a: u64, b: int) -> u64 {
    if a - b < 0 {
        0
    } else {
        (a - b) as u64
    }
}

/// Where an update of the cache begins: the cache range below the address on
/// display, or at zero.
pub open spec fn update_start(address: u64) -> u64 {
    clamped_sub(address, HEX_CACHE_RANGE as int)
}

/// The address of the first row once it was moved down, a row at a time,
/// until the cursor lies no more than `page` bytes below it.
pub open spec fn raised(address: u64, cursor: u64, page: u64) -> u64
    decreases u64::MAX - address,
{
    if cursor > clamped_add(address, page as int) {
        raised(clamped_add(address, HEX_ROW as int), cursor, page)
    } else {
        address
    }
}

/// The address of the first row once it was moved up, a row at a time, until
/// the cursor lies no longer above it.
pub open spec fn lowered(address: u64, cursor: u64) -> u64
    decreases address,
{
    if cursor < address {
        lowered(clamped_sub(address, HEX_ROW as int), cursor)
    } else {
        address
    }
}

/// The address under the cursor after `step`.
pub open spec fn stepped(cursor: u64, step: CursorStep) -> u64 {
    match step {
        CursorStep::Up => clamped_sub(cursor, HEX_ROW as int),
        CursorStep::Down => clamped_add(cursor, HEX_ROW as int),
        CursorStep::Left => clamped_sub(cursor, 1),
        CursorStep::Right => clamped_add(cursor, 1),
    }
}

impl View for HexView {
    type V = HexViewState;

    closed spec fn view(&self) -> HexViewState {
        HexViewState {
            address: self.address,
            cursor_address: self.cursor_address,
            cache: self.cache@,
            is_display_dirty: self.is_display_dirty,
        }
    }
}

impl HexView {
    /// A display at address zero with nothing cached.
    pub fn new() -> (view: Self)
        ensures
            view@ == (HexViewState {
                address: 0,
                cursor_address: 0,
                cache: Map::empty(),
                is_display_dirty: false,
            }),
    {
        Self { address: 0, cursor_address: 0, cache: HashMap::new(), is_display_dirty: false }
    }

    /// Address of the first row on display.
    pub fn address(&self) -> (address: u64)
        ensures
            address == self@.address,
    {
        self.address
    }

    /// Address under the cursor.
    pub fn cursor_address(&self) -> (address: u64)
        ensures
            address == self@.cursor_address,
    {
        self.cursor_address
    }

    /// Whether the cache has changed since the display was last drawn.
    pub fn is_display_dirty(&self) -> (dirty: bool)
        ensures
            dirty == self@.is_display_dirty,
    {
        self.is_display_dirty
    }

    /// Takes note that the display was drawn.
    pub fn mark_drawn(&mut self)
        ensures
            final(self)@ == (HexViewState { is_display_dirty: false, ..old(self)@ }),
    {
        self.is_display_dirty = false;
    }

    /// The cached byte at `address`.
    pub fn get(&self, address: u64) -> (byte: Option<u8>)
        ensures
            byte == if self@.cache.contains_key(address) {
                Some(self@.cache[address])
            } else {
                None
            },
    {
        match self.cache.get(&address) {
            Some(byte) => Some(*byte),
            None => None,
        }
    }

    /// Moves the display and the cursor to `address`.
    pub fn set_address(&mut self, address: u64)
        ensures
            final(self)@ == (HexViewState { address, cursor_address: address, ..old(self)@ }),
    {
        self.address = address;
        self.cursor_address = address;
    }

    /// Puts the cursor on `address`.
    pub fn set_cursor(&mut self, address: u64)
        ensures
            final(self)@ == (HexViewState { cursor_address: address, ..old(self)@ }),
    {
        self.cursor_address = address;
    }

    /// Drops every cached byte that lies twice the cache range or more away
    /// from the address on display.
    pub fn clean_cache(&mut self)
        ensures
            final(self)@ == (HexViewState {
                cache: Map::new(
                    |key: u64| old(self)@.cache.contains_key(key) && kept(old(self)@.address, key),
                    |key: u64| old(self)@.cache[key],
                ),
                ..old(self)@
            }),
    {
        let low: u64 = self.address.saturating_sub(2 * HEX_CACHE_RANGE as u64 - 1);
        let high: u64 = self.address.saturating_add(2 * HEX_CACHE_RANGE as u64 - 1);
        let count: u64 = high - low;
        let mut near: HashMap<u64, u8> = HashMap::new();
        let mut index: u64 = 0;
        while index <= count
            invariant
                low <= high,
                count == high - low,
                count < 4 * HEX_CACHE_RANGE,
                index <= count + 1,
                near@ == Map::new(
                    |key: u64| self.cache@.contains_key(key) && low <= key < low + index,
                    |key: u64| self.cache@[key],
                ),
            decreases count + 1 - index,
        {
            let key: u64 = low + index;
            match self.cache.get(&key) {
                Some(byte) => {
                    near.insert(key, *byte);
                },
                None => {},
            }
            index += 1;
            assert(near@ =~= Map::new(
                |key: u64| self.cache@.contains_key(key) && low <= key < low + index,
                |key: u64| self.cache@[key],
            ));
        }
        assert(near@ =~= Map::new(
            |key: u64| self.cache@.contains_key(key) && kept(self.address, key),
            |key: u64| self.cache@[key],
        ));
        self.cache = near;
    }

    /// Drops every cached byte.
    pub fn purge_cache(&mut self)
        ensures
            final(self)@ == (HexViewState { cache: Map::empty(), ..old(self)@ }),
    {
        self.cache = HashMap::new();
    }

    /// The requests that fetch the bytes around the address on display: twice
    /// the cache range, from the cache range below it on.
    ///
    /// Fails with `IoError` where a word to be read would lie beyond the end
    /// of the address space.
    pub fn update_cache_requests(&self) -> (requests: Result<Vec<Request>, DebugError>)
        ensures
            match requests {
                Ok(list) => {
                    &&& reachable(update_start(self@.address), 2 * HEX_CACHE_RANGE as nat)
                    &&& list@ == read_plan(update_start(self@.address), 2 * HEX_CACHE_RANGE as nat)
                },
                Err(error) => error == DebugError::IoError && !reachable(
                    update_start(self@.address),
                    2 * HEX_CACHE_RANGE as nat,
                ),
            },
    {
        read_requests(self.address.saturating_sub(HEX_CACHE_RANGE as u64), 2 * HEX_CACHE_RANGE)
    }

    /// Puts the bytes that were fetched into the cache, over what it held at
    /// their addresses, and marks the display as changed.
    ///
    /// Fails with `IoError`, and changes nothing, unless `replies` answer the
    /// requests of [`Self::update_cache_requests`] one for one.
    pub fn update_cache(&mut self, replies: &Vec<Reply>) -> (outcome: Result<(), DebugError>)
        ensures
            match outcome {
                Ok(_) => {
                    let start = update_start(old(self)@.address);
                    let bytes = read_bytes(replies@, 2 * HEX_CACHE_RANGE as nat);
                    &&& reachable(start, 2 * HEX_CACHE_RANGE as nat)
                    &&& all_fit(read_plan(start, 2 * HEX_CACHE_RANGE as nat), replies@)
                    &&& final(self)@ == (HexViewState {
                        cache: Map::new(
                            |key: u64|
                                old(self)@.cache.contains_key(key) || start <= key < start + 2
                                    * HEX_CACHE_RANGE,
                            |key: u64|
                                if start <= key < start + 2 * HEX_CACHE_RANGE {
                                    bytes[key - start]
                                } else {
                                    old(self)@.cache[key]
                                },
                        ),
                        is_display_dirty: true,
                        ..old(self)@
                    })
                },
                Err(error) => {
                    let start = update_start(old(self)@.address);
                    &&& error == DebugError::IoError
                    &&& !(reachable(start, 2 * HEX_CACHE_RANGE as nat) && all_fit(
                        read_plan(start, 2 * HEX_CACHE_RANGE as nat),
                        replies@,
                    ))
                    &&& final(self)@ == old(self)@
                },
            },
    {
        let start: u64 = self.address.saturating_sub(HEX_CACHE_RANGE as u64);
        let bytes = match read_result(start, 2 * HEX_CACHE_RANGE, replies) {
            Ok(bytes) => bytes,
            Err(error) => {
                return Err(error);
            },
        };
        let ghost before = self.cache@;
        let mut index: usize = 0;
        while index < 2 * HEX_CACHE_RANGE
            invariant
                index <= 2 * HEX_CACHE_RANGE,
                bytes@.len() == 2 * HEX_CACHE_RANGE,
                start + 2 * HEX_CACHE_RANGE <= 0x1_0000_0000_0000_0000,
                self.address == old(self).address,
                self.cursor_address == old(self).cursor_address,
                self.cache@ == Map::new(
                    |key: u64| before.contains_key(key) || start <= key < start + index,
                    |key: u64|
                        if start <= key < start + index {
                            bytes@[key - start]
                        } else {
                            before[key]
                        },
                ),
            decreases 2 * HEX_CACHE_RANGE - index,
        {
            self.cache.insert(start + index as u64, bytes[index]);
            index += 1;
            assert(self.cache@ =~= Map::new(
                |key: u64| before.contains_key(key) || start <= key < start + index,
                |key: u64|
                    if start <= key < start + index {
                        bytes@[key - start]
                    } else {
                        before[key]
                    },
            ));
        }
        self.is_display_dirty = true;
        Ok(())
    }

    /// Moves the display one row down; the cursor follows where it would be
    /// left above the display.
    pub fn scroll_down(&mut self)
        ensures
            final(self)@ == (HexViewState {
                address: clamped_add(old(self)@.address, HEX_ROW as int),
                cursor_address: if old(self)@.cursor_address < clamped_add(
                    old(self)@.address,
                    HEX_ROW as int,
                ) {
                    clamped_add(old(self)@.address, HEX_ROW as int)
                } else {
                    old(self)@.cursor_address
                },
                ..old(self)@
            }),
    {
        self.address = self.address.saturating_add(HEX_ROW);
        if self.cursor_address < self.address {
            self.cursor_address = self.address;
        }
    }

    /// Moves the display one row up; the cursor follows where it would be
    /// left more than `rows` rows below the first.
    pub fn scroll_up(&mut self, rows: u64)
        ensures
            final(self)@ == (HexViewState {
                address: clamped_sub(old(self)@.address, HEX_ROW as int),
                cursor_address: if old(self)@.cursor_address > clamped_add(
                    clamped_sub(old(self)@.address, HEX_ROW as int),
                    rows * HEX_ROW,
                ) {
                    clamped_add(clamped_sub(old(self)@.address, HEX_ROW as int), rows * HEX_ROW)
                } else {
                    old(self)@.cursor_address
                },
                ..old(self)@
            }),
    {
        self.address = self.address.saturating_sub(HEX_ROW);
        let page: u64 = match rows.checked_mul(HEX_ROW) {
            Some(page) => page,
            None => u64::MAX,
        };
        let last: u64 = self.address.saturating_add(page);
        if self.cursor_address > last {
            self.cursor_address = last;
        }
    }

    /// Moves the display, a row at a time, to where the cursor is: down until
    /// the cursor lies no more than `rows` rows below the first row, then up
    /// until it lies no longer above it.
    pub fn follow_cursor(&mut self, rows: u64)
        ensures
            final(self)@ == (HexViewState {
                address: lowered(
                    raised(
                        old(self)@.address,
                        old(self)@.cursor_address,
                        clamped_add(0, rows * HEX_ROW),
                    ),
                    old(self)@.cursor_address,
                ),
                ..old(self)@
            }),
    {
        let page: u64 = match rows.checked_mul(HEX_ROW) {
            Some(page) => page,
            None => u64::MAX,
        };
        while self.cursor_address > self.address.saturating_add(page)
            invariant
                self.cursor_address == old(self).cursor_address,
                self.cache == old(self).cache,
                self.is_display_dirty == old(self).is_display_dirty,
                raised(self.address, self.cursor_address, page) == raised(
                    old(self).address,
                    old(self).cursor_address,
                    page,
                ),
            decreases u64::MAX - self.address,
        {
            self.address = self.address.saturating_add(HEX_ROW);
        }
        while self.cursor_address < self.address
            invariant
                self.cursor_address == old(self).cursor_address,
                self.cache == old(self).cache,
                self.is_display_dirty == old(self).is_display_dirty,
                lowered(self.address, self.cursor_address) == lowered(
                    raised(old(self).address, old(self).cursor_address, page),
                    old(self).cursor_address,
                ),
            decreases self.address,
        {
            self.address = self.address.saturating_sub(HEX_ROW);
        }
    }

    /// Moves the cursor by `step`, held within the address space.
    pub fn move_cursor(&mut self, step: CursorStep)
        ensures
            final(self)@ == (HexViewState {
                cursor_address: stepped(old(self)@.cursor_address, step),
                ..old(self)@
            }),
    {
        self.cursor_address =
        match step {
            CursorStep::Up => self.cursor_address.saturating_sub(HEX_ROW),
            CursorStep::Down => self.cursor_address.saturating_add(HEX_ROW),
            CursorStep::Left => self.cursor_address.saturating_sub(1),
            CursorStep::Right => self.cursor_address.saturating_add(1),
        };
    }
}

} // verus!

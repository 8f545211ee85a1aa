use vstd::prelude::*;
use crate::breakpoint::{lemma_software_enable_effect, BreakpointView, SoftwareView};
use crate::debugee::{holds, lemma_breakpoint_round_trip, Debugee, DebugeeView};
use crate::decoder::{decode_at, decoded, Decoded, INVALID_CODE, MAX_INSTRUCTION_LENGTH};
use crate::error::DebugError;
use crate::hex_view::distance;
use crate::memory::{
    lemma_read_returns_memory, read_bytes, read_plan, read_requests, read_result, reachable,
};
use crate::tracing::{all_fit, answers, load, run, Reply, Request, Target};

verus! {

/// Number of bytes that one refresh of the cache fetches and decodes.
pub const CACHE_RANGE: u64 = 0x150;

/// One decoded instruction: where it stands, the bytes that it is made of,
/// and which instruction it is.
#[derive(Debug, PartialEq, Eq)]
pub struct Instruction {
    addr: u64,
    bytes: Vec<u8>,
    code: u32,
}

/// What an [`Instruction`] holds.
pub struct InstructionView {
    pub addr: u64,
    pub bytes: Seq<u8>,
    pub code: u32,
}

impl View for Instruction {
    type V = InstructionView;

    closed spec fn view(&self) -> InstructionView {
        InstructionView { addr: self.addr, bytes: self.bytes@, code: self.code }
    }
}

impl InstructionView {
    /// The address just behind the instruction.
    pub open spec fn end(self) -> int {
        self.addr + self.bytes.len()
    }
}

/// The record of the instruction that the decoder finds at `position` of a
/// window that starts at the address `start`.
pub open spec fn record_at(window: Seq<u8>, start: u64, position: nat) -> InstructionView {
    let found = decoded(window.skip(position as int));
    InstructionView {
        addr: (start + position) as u64,
        bytes: window.subrange(position as int, position + found.length),
        code: found.code,
    }
}

/// The records of the instructions that the decoder finds one after the
/// other from `position` of a window on, until the window is used up.
pub open spec fn decoding(window: Seq<u8>, start: u64, position: nat) -> Seq<InstructionView>
    decreases window.len() - position,
{
    if position >= window.len() {
        Seq::empty()
    } else {
        let found = decoded(window.skip(position as int));
        if found.length == 0 || position + found.length > window.len() {
            Seq::empty()
        } else {
            seq![record_at(window, start, position)] + decoding(
                window,
                start,
                (position + found.length) as nat,
            )
        }
    }
}

/// The bytes of `source` from `from` up to `to`.
fn copy_range(source: &Vec<u8>, from: usize, to: usize) -> (bytes: Vec<u8>)
    requires
        from <= to <= source.len(),
    ensures
        bytes@ == source@.subrange(from as int, to as int),
{
    let mut bytes: Vec<u8> = Vec::new();
    let mut index: usize = from;
    while index < to
        invariant
            from <= index <= to <= source.len(),
            bytes@ == source@.subrange(from as int, index as int),
        decreases to - index,
    {
        bytes.push(source[index]);
        index += 1;
        assert(bytes@ =~= source@.subrange(from as int, index as int));
    }
    bytes
}

impl Instruction {
    /// The record of an instruction at `addr`, made of `bytes`, with the
    /// decoder's number `code`.
    pub fn new(addr: u64, bytes: Vec<u8>, code: u32) -> (instruction: Self)
        ensures
            instruction@ == (InstructionView { addr, bytes: bytes@, code }),
    {
        Self { addr, bytes, code }
    }

    /// Address of the instruction.
    pub fn addr(&self) -> (addr: u64)
        ensures
            addr == self@.addr,
    {
        self.addr
    }

    /// The bytes that the instruction is made of.
    pub fn bytes(&self) -> (bytes: &Vec<u8>)
        ensures
            bytes@ == self@.bytes,
    {
        &self.bytes
    }

    /// The decoder's number for the instruction; 0 for bytes that are no
    /// valid instruction.
    pub fn code(&self) -> (code: u32)
        ensures
            code == self@.code,
    {
        self.code
    }

    /// Length of the instruction in bytes.
    pub fn len(&self) -> (length: usize)
        ensures
            length == self@.bytes.len(),
    {
        self.bytes.len()
    }

    /// A second record of the same instruction.
    pub fn duplicate(&self) -> (copy: Self)
        ensures
            copy@ == self@,
    {
        let bytes = copy_range(&self.bytes, 0, self.bytes.len());
        assert(bytes@ =~= self.bytes@);
        Self { addr: self.addr, bytes, code: self.code }
    }
}

/// What a list of records holds.
pub open spec fn views(list: Seq<Instruction>) -> Seq<InstructionView> {
    Seq::new(list.len(), |i: int| list[i]@)
}

/// Whether the records stand in the order of their addresses, no address twice.
pub open spec fn sorted(cache: Seq<InstructionView>) -> bool {
    forall|i: int, j: int|
        0 <= i < j < cache.len() ==> (#[trigger] cache[i]).addr < (#[trigger] cache[j]).addr
}

/// Whether a record stands at `addr`.
pub open spec fn cached(cache: Seq<InstructionView>, addr: u64) -> bool {
    exists|i: int| 0 <= i < cache.len() && (#[trigger] cache[i]).addr == addr
}

/// Position of a record that stands at `addr`.
pub open spec fn place_of(cache: Seq<InstructionView>, addr: u64) -> int {
    choose|i: int| 0 <= i < cache.len() && (#[trigger] cache[i]).addr == addr
}

/// Number of records that stand below `addr`.
pub open spec fn rank(cache: Seq<InstructionView>, addr: u64) -> int
    decreases cache.len(),
{
    if cache.len() == 0 {
        0
    } else {
        rank(cache.drop_last(), addr) + if cache.last().addr < addr {
            1int
        } else {
            0int
        }
    }
}

/// The records with `record` put in at its place, unless one stands at its
/// address already: then that one stays.
pub open spec fn inserted(cache: Seq<InstructionView>, record: InstructionView) -> Seq<
    InstructionView,
> {
    if cached(cache, record.addr) {
        cache
    } else {
        cache.insert(rank(cache, record.addr), record)
    }
}

/// The records with those of `fresh` put in one after the other.
pub open spec fn merged(cache: Seq<InstructionView>, fresh: Seq<InstructionView>) -> Seq<
    InstructionView,
>
    decreases fresh.len(),
{
    if fresh.len() == 0 {
        cache
    } else {
        inserted(merged(cache, fresh.drop_last()), fresh.last())
    }
}

/// Whether a record at `addr` is kept when the anchor stands at `rip`: it
/// lies no farther than twice the cache range away.
pub open spec fn near(rip: u64, addr: u64) -> bool {
    distance(rip, addr) <= 2 * CACHE_RANGE
}

/// The records that are kept when the anchor stands at `rip`, in their order.
pub open spec fn retained(cache: Seq<InstructionView>, rip: u64) -> Seq<InstructionView>
    decreases cache.len(),
{
    if cache.len() == 0 {
        cache
    } else if near(rip, cache.last().addr) {
        retained(cache.drop_last(), rip).push(cache.last())
    } else {
        retained(cache.drop_last(), rip)
    }
}

/// The window with the byte that `breakpoint` displaced put back, where the
/// breakpoint is an installed software breakpoint whose trap lies within the
/// window; `start` is the address of the window's first byte.
pub open spec fn patched(window: Seq<u8>, start: u64, breakpoint: BreakpointView) -> Seq<u8> {
    if breakpoint.displaced() is Some && start <= breakpoint.address() < start + window.len() {
        window.update(breakpoint.address() - start, breakpoint.displaced().unwrap())
    } else {
        window
    }
}

/// The window with every displaced byte put back.
pub open spec fn overlaid(window: Seq<u8>, start: u64, breakpoints: Seq<BreakpointView>) -> Seq<u8>
    decreases breakpoints.len(),
{
    if breakpoints.len() == 0 {
        window
    } else {
        patched(overlaid(window, start, breakpoints.drop_last()), start, breakpoints.last())
    }
}

/// In records that stand in order, those below an address are the first
/// `rank` ones.
pub proof fn lemma_rank(cache: Seq<InstructionView>, addr: u64)
    requires
        sorted(cache),
    ensures
        0 <= rank(cache, addr) <= cache.len(),
        forall|i: int| 0 <= i < rank(cache, addr) ==> (#[trigger] cache[i]).addr < addr,
        forall|i: int| rank(cache, addr) <= i < cache.len() ==> (#[trigger] cache[i]).addr >= addr,
    decreases cache.len(),
{
    if cache.len() > 0 {
        let front = cache.drop_last();
        assert(forall|i: int| 0 <= i < front.len() ==> front[i] == cache[i]);
        lemma_rank(front, addr);
        if cache.last().addr < addr {
            assert forall|i: int| 0 <= i < front.len() implies (#[trigger] cache[i]).addr < addr by {
                assert(cache[i].addr < cache[cache.len() - 1].addr);
            }
            if rank(front, addr) < front.len() {
                assert(front[rank(front, addr)].addr >= addr);
            }
        }
    }
}

/// Putting a record into records that stand in order leaves them in order,
/// keeps every record that was there, and adds the address of the new one
/// and no other.
pub proof fn lemma_inserted(cache: Seq<InstructionView>, record: InstructionView)
    requires
        sorted(cache),
    ensures
        sorted(inserted(cache, record)),
        forall|addr: u64|
            cached(inserted(cache, record), addr) <==> cached(cache, addr) || addr == record.addr,
        forall|i: int|
            0 <= i < cache.len() ==> cached(inserted(cache, record), (#[trigger] cache[i]).addr)
                && inserted(cache, record)[place_of(inserted(cache, record), cache[i].addr)]
                == cache[i],
        !cached(cache, record.addr) ==> inserted(cache, record)[place_of(
            inserted(cache, record),
            record.addr,
        )] == record,
{
    let after = inserted(cache, record);
    lemma_rank(cache, record.addr);
    let at = rank(cache, record.addr);
    if !cached(cache, record.addr) {
        assert forall|i: int, j: int| 0 <= i < j < after.len() implies (#[trigger] after[i]).addr < (
        #[trigger] after[j]).addr by {
            let a = if i < at { i } else { i - 1 };
            let b = if j < at { j } else { j - 1 };
            if i != at {
                assert(after[i] == cache[a]);
            }
            if j != at {
                assert(after[j] == cache[b]);
            }
            if i == at {
                assert(cache[b].addr >= record.addr);
                assert(cache[b].addr != record.addr);
            }
        }
        assert(after[at] == record);
    }
    assert forall|addr: u64| cached(after, addr) <==> cached(cache, addr) || addr
        == record.addr by {
        if cached(after, addr) && !cached(cache, record.addr) {
            let i = place_of(after, addr);
            if i != at {
                let a = if i < at { i } else { i - 1 };
                assert(after[i] == cache[a]);
            }
        }
        if cached(cache, addr) && !cached(cache, record.addr) {
            let i = place_of(cache, addr);
            let a = if i < at { i } else { i + 1 };
            assert(after[a] == cache[i]);
        }
        if addr == record.addr && !cached(cache, record.addr) {
            assert(after[at].addr == addr);
        }
    }
    assert forall|i: int| 0 <= i < cache.len() implies cached(after, (#[trigger] cache[i]).addr)
        && after[place_of(after, cache[i].addr)] == cache[i] by {
        let a = if cached(cache, record.addr) || i < at { i } else { i + 1 };
        assert(after[a] == cache[i]);
        lemma_place_unique(after, a);
    }
    if !cached(cache, record.addr) {
        lemma_place_unique(after, at);
    }
}

/// In records that stand in order, the record at an address is the only one there.
pub proof fn lemma_place_unique(cache: Seq<InstructionView>, index: int)
    requires
        sorted(cache),
        0 <= index < cache.len(),
    ensures
        cached(cache, cache[index].addr),
        place_of(cache, cache[index].addr) == index,
{
    let found = place_of(cache, cache[index].addr);
    if found < index {
        assert(cache[found].addr < cache[index].addr);
    }
    if index < found {
        assert(cache[index].addr < cache[found].addr);
    }
}

/// Merging fresh records into records that stand in order leaves them in
/// order, with a record at exactly the addresses of both.
pub proof fn lemma_merged(cache: Seq<InstructionView>, fresh: Seq<InstructionView>)
    requires
        sorted(cache),
    ensures
        sorted(merged(cache, fresh)),
        forall|addr: u64|
            cached(merged(cache, fresh), addr) <==> cached(cache, addr) || cached(fresh, addr),
        forall|i: int|
            0 <= i < cache.len() ==> cached(merged(cache, fresh), (#[trigger] cache[i]).addr)
                && merged(cache, fresh)[place_of(merged(cache, fresh), cache[i].addr)] == cache[i],
    decreases fresh.len(),
{
    if fresh.len() > 0 {
        let front = fresh.drop_last();
        let middle = merged(cache, front);
        lemma_merged(cache, front);
        lemma_inserted(middle, fresh.last());
        assert forall|addr: u64| cached(merged(cache, fresh), addr) <==> cached(cache, addr)
            || cached(fresh, addr) by {
            if cached(front, addr) {
                let i = place_of(front, addr);
                assert(fresh[i].addr == addr);
            }
            if cached(fresh, addr) {
                let i = place_of(fresh, addr);
                if i < front.len() {
                    assert(front[i].addr == addr);
                }
            }
            assert(fresh[fresh.len() - 1].addr == fresh.last().addr);
        }
        assert forall|i: int| 0 <= i < cache.len() implies cached(
            merged(cache, fresh),
            (#[trigger] cache[i]).addr,
        ) && merged(cache, fresh)[place_of(merged(cache, fresh), cache[i].addr)] == cache[i] by {
            let at = place_of(middle, cache[i].addr);
            assert(middle[at] == cache[i]);
        }
    } else {
        assert forall|i: int| 0 <= i < cache.len() implies cached(cache, (#[trigger] cache[i]).addr)
            && cache[place_of(cache, cache[i].addr)] == cache[i] by {
            lemma_place_unique(cache, i);
        }
    }
}

/// Merging records that stand in order into an empty cache gives just them.
pub proof fn lemma_merged_into_empty(fresh: Seq<InstructionView>)
    requires
        sorted(fresh),
    ensures
        merged(Seq::empty(), fresh) == fresh,
    decreases fresh.len(),
{
    if fresh.len() > 0 {
        let front = fresh.drop_last();
        let last = fresh.last();
        assert(forall|i: int| 0 <= i < front.len() ==> front[i] == fresh[i]);
        lemma_merged_into_empty(front);
        lemma_rank(front, last.addr);
        if cached(front, last.addr) {
            let at = place_of(front, last.addr);
            assert(fresh[at].addr < fresh[fresh.len() - 1].addr);
        }
        if rank(front, last.addr) < front.len() {
            let at = rank(front, last.addr);
            assert(fresh[at].addr < fresh[fresh.len() - 1].addr);
        }
        assert(front.insert(front.len() as int, last) =~= fresh);
    } else {
        assert(fresh =~= Seq::<InstructionView>::empty());
    }
}

/// The records that are kept around an anchor are those near it, each as it
/// was, and they stand in order as before.
pub proof fn lemma_retained(cache: Seq<InstructionView>, rip: u64)
    requires
        sorted(cache),
    ensures
        sorted(retained(cache, rip)),
        forall|i: int|
            0 <= i < retained(cache, rip).len() ==> {
                let record = #[trigger] retained(cache, rip)[i];
                &&& near(rip, record.addr)
                &&& cached(cache, record.addr)
                &&& cache[place_of(cache, record.addr)] == record
            },
        forall|j: int|
            0 <= j < cache.len() && near(rip, (#[trigger] cache[j]).addr) ==> cached(
                retained(cache, rip),
                cache[j].addr,
            ),
    decreases cache.len(),
{
    if cache.len() > 0 {
        let front = cache.drop_last();
        let kept = retained(front, rip);
        let all = retained(cache, rip);
        assert(forall|i: int| 0 <= i < front.len() ==> front[i] == cache[i]);
        lemma_retained(front, rip);
        assert forall|i: int| 0 <= i < kept.len() implies cached(cache, (#[trigger] kept[i]).addr)
            && cache[place_of(cache, kept[i].addr)] == kept[i] && kept[i].addr
            < cache.last().addr by {
            let at = place_of(front, kept[i].addr);
            assert(cache[at] == front[at]);
            lemma_place_unique(cache, at);
            assert(cache[at].addr < cache[cache.len() - 1].addr);
        }
        lemma_place_unique(cache, cache.len() - 1);
        assert forall|i: int| 0 <= i < all.len() implies {
            let record = #[trigger] all[i];
            &&& near(rip, record.addr)
            &&& cached(cache, record.addr)
            &&& cache[place_of(cache, record.addr)] == record
        } by {
            if i < kept.len() {
                assert(all[i] == kept[i]);
            }
        }
        assert forall|i: int, j: int| 0 <= i < j < all.len() implies (#[trigger] all[i]).addr < (
        #[trigger] all[j]).addr by {
            assert(all[i] == kept[i]);
            if j < kept.len() {
                assert(all[j] == kept[j]);
            }
        }
        assert forall|j: int| 0 <= j < cache.len() && near(rip, (#[trigger] cache[j]).addr) implies cached(
            all,
            cache[j].addr,
        ) by {
            if j < front.len() {
                assert(front[j] == cache[j]);
                let at = place_of(kept, cache[j].addr);
                assert(all[at] == kept[at]);
            } else {
                assert(all[all.len() - 1] == cache[j]);
            }
        }
    }
}

/// The records of one decoding stand one behind the other within the window:
/// the first where the decoding began, each next one where the one before it
/// ends, none empty and none beyond the window's end.
pub proof fn lemma_decoding_in_order(window: Seq<u8>, start: u64, position: nat)
    requires
        position <= window.len(),
        start + window.len() <= 0x1_0000_0000_0000_0000,
    ensures
        sorted(decoding(window, start, position)),
        decoding(window, start, position).len() > 0 ==> decoding(window, start, position)[0].addr
            == start + position,
        forall|i: int|
            0 <= i < decoding(window, start, position).len() ==> {
                let record = #[trigger] decoding(window, start, position)[i];
                &&& record.bytes.len() >= 1
                &&& start + position <= record.addr
                &&& record.end() <= start + window.len()
                &&& record.bytes == window.subrange(record.addr - start, record.end() - start)
            },
        forall|i: int|
            0 <= i < decoding(window, start, position).len() - 1 ==> (#[trigger] decoding(
                window,
                start,
                position,
            )[i]).end() == decoding(window, start, position)[i + 1].addr,
    decreases window.len() - position,
{
    let records = decoding(window, start, position);
    if position < window.len() {
        let found = decoded(window.skip(position as int));
        if !(found.length == 0 || position + found.length > window.len()) {
            let next = (position + found.length) as nat;
            let rest = decoding(window, start, next);
            let first = record_at(window, start, position);
            lemma_decoding_in_order(window, start, next);
            assert(records =~= seq![first] + rest);
            assert(records[0] == first);
            assert forall|i: int| 1 <= i < records.len() implies #[trigger] records[i] == rest[i
                - 1] by {}
            assert forall|i: int| 0 <= i < records.len() implies {
                let record = #[trigger] records[i];
                &&& record.bytes.len() >= 1
                &&& start + position <= record.addr
                &&& record.end() <= start + window.len()
                &&& record.bytes == window.subrange(record.addr - start, record.end() - start)
            } by {
                if i > 0 {
                    assert(records[i] == rest[i - 1]);
                }
            }
            assert forall|i: int| 0 <= i < records.len() - 1 implies (#[trigger] records[i]).end()
                == records[i + 1].addr by {
                assert(records[i + 1] == rest[i]);
                if i > 0 {
                    assert(records[i] == rest[i - 1]);
                }
            }
            assert forall|i: int, j: int| 0 <= i < j < records.len() implies (
            #[trigger] records[i]).addr < (#[trigger] records[j]).addr by {
                assert(records[j] == rest[j - 1]);
                if i > 0 {
                    assert(records[i] == rest[i - 1]);
                } else {
                    assert(rest[j - 1].addr >= start + next);
                }
            }
        }
    }
}

/// Puts `record` into `list` at its place, unless a record stands at its
/// address already.
fn insert_record(list: &mut Vec<Instruction>, record: Instruction)
    requires
        sorted(views(old(list)@)),
    ensures
        views(final(list)@) == inserted(views(old(list)@), record@),
        sorted(views(final(list)@)),
{
    let ghost before = views(list@);
    proof {
        lemma_rank(before, record@.addr);
        lemma_inserted(before, record@);
    }
    let mut index: usize = 0;
    while index < list.len() && list[index].addr() < record.addr()
        invariant
            index <= list.len(),
            list@ == old(list)@,
            before == views(list@),
            forall|i: int| 0 <= i < index ==> (#[trigger] before[i]).addr < record@.addr,
        decreases list.len() - index,
    {
        index += 1;
    }
    proof {
        if index < list.len() {
            assert(before[index as int].addr >= record@.addr);
        }
        let at = rank(before, record@.addr);
        if at < index {
            assert(before[at].addr < record@.addr);
        }
        if index < at {
            assert(before[index as int].addr < record@.addr);
        }
        assert(at == index);
        if cached(before, record@.addr) {
            let found = place_of(before, record@.addr);
            if found < index {
                assert(before[found].addr < record@.addr);
            }
            if found > index {
                assert(before[index as int].addr < before[found].addr);
            }
        }
    }
    if index < list.len() && list[index].addr() == record.addr() {
        assert(before[index as int].addr == record@.addr);
        assert(views(list@) == before);
    } else {
        list.insert(index, record);
        assert(views(list@) =~= before.insert(index as int, record@));
    }
}

/// Puts the byte that each installed software breakpoint of `debugee`
/// displaced back into `window`, where its trap lies within the window;
/// `start` is the address of the window's first byte.
pub fn overlay(window: &mut Vec<u8>, start: u64, debugee: &Debugee)
    ensures
        final(window)@ == overlaid(old(window)@, start, debugee@.breakpoints),
{
    let breakpoints = debugee.breakpoints();
    let ghost all = debugee@.breakpoints;
    let mut index: usize = 0;
    while index < breakpoints.len()
        invariant
            index <= breakpoints.len(),
            breakpoints@.len() == all.len(),
            forall|i: int| 0 <= i < breakpoints@.len() ==> (#[trigger] breakpoints@[i])@ == all[i],
            window@.len() == old(window)@.len(),
            window@ == overlaid(old(window)@, start, all.take(index as int)),
        decreases breakpoints.len() - index,
    {
        proof {
            assert(all.take(index + 1).drop_last() =~= all.take(index as int));
            assert(all.take(index + 1).last() == breakpoints@[index as int]@);
        }
        let breakpoint = &breakpoints[index];
        match breakpoint.displaced() {
            Some(byte) => {
                let address = breakpoint.address();
                if address >= start && ((address - start) as u128) < window.len() as u128 {
                    window.set((address - start) as usize, byte);
                }
            },
            None => {},
        }
        index += 1;
    }
    assert(all.take(index as int) =~= all);
}

/// Whether what the decoder told of the instruction at `position` of a window
/// can be: it takes at least one byte and none beyond the window's end.
pub open spec fn plausible(window: Seq<u8>, position: nat, found: Decoded) -> bool {
    found.length >= 1 && position + found.length <= window.len()
}

/// The record of the instruction at `position` of `window`, which starts at
/// the address `start`, of which the decoder has told `found`; nothing where
/// that cannot be or the instruction would lie beyond the address space.
pub fn record_of(window: &Vec<u8>, start: u64, position: usize, found: Decoded) -> (record: Option<
    Instruction,
>)
    ensures
        match record {
            Some(made) => {
                &&& plausible(window@, position as nat, found)
                &&& start + position <= u64::MAX
                &&& made@ == (InstructionView {
                    addr: (start + position) as u64,
                    bytes: window@.subrange(position as int, position + found.length),
                    code: found.code,
                })
            },
            None => !plausible(window@, position as nat, found) || start + position > u64::MAX,
        },
{
    if found.length < 1 || position > window.len() || found.length > window.len() - position
        || position as u128 + start as u128 > u64::MAX as u128 {
        return None;
    }
    let bytes = copy_range(window, position, position + found.length);
    Some(Instruction::new(start + position as u64, bytes, found.code))
}

/// The records of the instructions in `window`, which starts at the address
/// `start`, as the decoder finds them one after the other.
///
/// Fails with `DecodeUnavailable` where the window reaches beyond the end of
/// the address space or the decoder cannot be made.
///
/// An empty window always decodes, to no record. No record is longer than an
/// instruction can be.
pub fn decode_window(window: &Vec<u8>, start: u64) -> (records: Result<Vec<Instruction>, DebugError>)
    ensures
        match records {
            Ok(list) => {
                &&& start + window@.len() <= 0x1_0000_0000_0000_0000
                &&& list@.len() == decoding(window@, start, 0).len()
                &&& forall|i: int|
                    0 <= i < list@.len() ==> (#[trigger] list@[i])@ == decoding(window@, start, 0)[i]
                &&& forall|i: int|
                    0 <= i < list@.len() ==> 1 <= (#[trigger] list@[i])@.bytes.len()
                        <= MAX_INSTRUCTION_LENGTH
            },
            Err(error) => error == DebugError::DecodeUnavailable,
        },
        start + window@.len() > 0x1_0000_0000_0000_0000 ==> records is Err,
        window@.len() == 0 ==> records is Ok,
{
    if window.len() as u128 + start as u128 > 0x1_0000_0000_0000_0000u128 {
        return Err(DebugError::DecodeUnavailable);
    }
    let mut list: Vec<Instruction> = Vec::new();
    let mut position: usize = 0;
    while position < window.len()
        invariant
            position <= window.len(),
            start + window@.len() <= 0x1_0000_0000_0000_0000,
            Seq::new(list@.len(), |i: int| list@[i]@) + decoding(window@, start, position as nat)
                == decoding(window@, start, 0),
            forall|i: int|
                0 <= i < list@.len() ==> 1 <= (#[trigger] list@[i])@.bytes.len()
                    <= MAX_INSTRUCTION_LENGTH,
        decreases window.len() - position,
    {
        let found = match decode_at(window, position) {
            Some(found) => found,
            None => {
                return Err(DebugError::DecodeUnavailable);
            },
        };
        let record = match record_of(window, start, position, found) {
            Some(record) => record,
            None => {
                return Err(DebugError::DecodeUnavailable);
            },
        };
        let ghost before = Seq::new(list@.len(), |i: int| list@[i]@);
        list.push(record);
        proof {
            assert(record@ == record_at(window@, start, position as nat));
            assert(Seq::new(list@.len(), |i: int| list@[i]@) =~= before.push(record@));
            assert(before.push(record@) + decoding(
                window@,
                start,
                (position + found.length) as nat,
            ) =~= before + decoding(window@, start, position as nat));
        }
        position += found.length;
    }
    proof {
        let views = Seq::new(list@.len(), |i: int| list@[i]@);
        assert(views + Seq::<InstructionView>::empty() =~= views);
        assert(views == decoding(window@, start, 0));
        assert forall|i: int| 0 <= i < list@.len() implies (#[trigger] list@[i])@ == decoding(
            window@,
            start,
            0,
        )[i] by {
            assert(views[i] == list@[i]@);
        }
    }
    Ok(list)
}

/// Putting displaced bytes back leaves bytes alone at which no breakpoint
/// stands, and the window as long as it was.
pub proof fn lemma_overlaid_elsewhere(
    window: Seq<u8>,
    start: u64,
    breakpoints: Seq<BreakpointView>,
    index: int,
)
    requires
        0 <= index < window.len(),
        !holds(breakpoints, (start + index) as u64) || start + index > u64::MAX,
    ensures
        overlaid(window, start, breakpoints).len() == window.len(),
        overlaid(window, start, breakpoints)[index] == window[index],
    decreases breakpoints.len(),
{
    if breakpoints.len() > 0 {
        let front = breakpoints.drop_last();
        assert(forall|i: int| 0 <= i < front.len() ==> front[i] == breakpoints[i]);
        lemma_overlaid_elsewhere(window, start, front, index);
        assert(breakpoints[breakpoints.len() - 1].address() != start + index);
    }
}

/// Whatever stands in the window at a place at which no breakpoint stands,
/// putting displaced bytes back goes by it.
proof fn lemma_overlaid_update(
    window: Seq<u8>,
    start: u64,
    breakpoints: Seq<BreakpointView>,
    index: int,
    byte: u8,
)
    requires
        0 <= index < window.len(),
        !holds(breakpoints, (start + index) as u64) || start + index > u64::MAX,
    ensures
        overlaid(window.update(index, byte), start, breakpoints) == overlaid(
            window,
            start,
            breakpoints,
        ).update(index, byte),
    decreases breakpoints.len(),
{
    if breakpoints.len() > 0 {
        let front = breakpoints.drop_last();
        assert(forall|i: int| 0 <= i < front.len() ==> front[i] == breakpoints[i]);
        lemma_overlaid_update(window, start, front, index, byte);
        lemma_overlaid_elsewhere(window, start, front, index);
        lemma_overlaid_elsewhere(window.update(index, byte), start, front, index);
        assert(breakpoints[breakpoints.len() - 1].address() != start + index);
        assert(overlaid(window.update(index, byte), start, breakpoints) =~= overlaid(
            window,
            start,
            breakpoints,
        ).update(index, byte));
    }
}

/// A window of memory looks the same through the breakpoints after a
/// software breakpoint was installed as it did before: where the trap lies,
/// the byte that it displaced is seen, never the trap.
pub proof fn lemma_overlay_hides_trap(
    target: Target,
    debugee: DebugeeView,
    address: u64,
    size: u64,
    start: u64,
    count: nat,
)
    requires
        debugee.well_formed(),
        !holds(debugee.breakpoints, address),
        start + count <= 0x1_0000_0000_0000_0000,
        forall|at: int| start <= at < start + count ==> target.memory.dom().contains(at),
    ensures
        ({
            let plan = debugee.software_plan(address, size);
            let installed = debugee.with_breakpoint(
                debugee.software_made(address, size, answers(target, plan)),
            );
            overlaid(load(run(target, plan).memory, start as int, count), start, installed.breakpoints)
                == overlaid(load(target.memory, start as int, count), start, debugee.breakpoints)
        }),
{
    let fresh = SoftwareView {
        address,
        size: size as usize,
        enabled: false,
        original_bytes: Seq::empty(),
    };
    let plan = debugee.software_plan(address, size);
    let made = debugee.software_made(address, size, answers(target, plan));
    let installed = debugee.with_breakpoint(made);
    let clean = load(target.memory, start as int, count);
    let trapped = load(run(target, plan).memory, start as int, count);
    lemma_software_enable_effect(target, fresh);
    assert(installed.breakpoints.drop_last() =~= debugee.breakpoints);
    assert(made.displaced() == Some(target.memory[address as int]));
    if start <= address < start + count {
        let index = address - start;
        assert(trapped =~= clean.update(index, 0xCCu8));
        lemma_overlaid_update(clean, start, debugee.breakpoints, index, 0xCCu8);
        lemma_overlaid_elsewhere(clean, start, debugee.breakpoints, index);
        assert(overlaid(trapped, start, installed.breakpoints) =~= overlaid(
            clean,
            start,
            debugee.breakpoints,
        ));
    } else {
        assert(trapped =~= clean);
        lemma_overlaid_length(clean, start, debugee.breakpoints);
    }
}

/// Putting displaced bytes back leaves the window as long as it was.
pub proof fn lemma_overlaid_length(window: Seq<u8>, start: u64, breakpoints: Seq<BreakpointView>)
    ensures
        overlaid(window, start, breakpoints).len() == window.len(),
    decreases breakpoints.len(),
{
    if breakpoints.len() > 0 {
        lemma_overlaid_length(window, start, breakpoints.drop_last());
    }
}

/// The bytes that are tried as the instruction before `known` and `known`
/// itself: the last `length` bytes of `before`, then the bytes of `known`.
pub open spec fn candidate(before: Seq<u8>, known: InstructionView, length: nat) -> Seq<u8> {
    before.skip(before.len() - length) + known.bytes
}

/// Whether the last `length` bytes of `before` are an instruction that
/// stands just before `known`: the candidate decodes to exactly two
/// instructions, a valid one of `length` bytes and then `known` again.
pub open spec fn precedes(before: Seq<u8>, known: InstructionView, length: nat) -> bool {
    &&& known.bytes.len() >= 1
    &&& confirmed(
        decoded(candidate(before, known, length)),
        decoded(candidate(before, known, length).skip(length as int)),
        length,
        known,
    )
}

/// Whether two instructions, as the decoder told them of a candidate, show
/// that its first `length` bytes are an instruction just before `known`: the
/// first is valid and takes just those bytes, and the second is `known` again.
pub open spec fn confirmed(first: Decoded, second: Decoded, length: nat, known: InstructionView) -> bool {
    &&& first.length == length
    &&& first.code != INVALID_CODE
    &&& second == (Decoded { length: known.bytes.len() as usize, code: known.code })
}

/// Whether two instructions, as the decoder told them of a candidate, show
/// that its first `length` bytes are an instruction just before `known`.
pub fn confirms(first: Decoded, second: Decoded, length: usize, known: &Instruction) -> (fit: bool)
    ensures
        fit == confirmed(first, second, length as nat, known@),
{
    first.length == length && first.code != INVALID_CODE && second.length == known.len()
        && second.code == known.code()
}

/// How many bytes before `known` are tried at most: the longest an
/// instruction can be, as many as `before` holds, and as many as lie above
/// address zero.
pub open spec fn reach_back(before: Seq<u8>, known: InstructionView) -> nat {
    let most = if before.len() < MAX_INSTRUCTION_LENGTH {
        before.len()
    } else {
        MAX_INSTRUCTION_LENGTH as nat
    };
    if known.addr < most {
        known.addr as nat
    } else {
        most
    }
}

/// The instruction that stands just before `known`, found by trying the last
/// byte of `before`, then the last two, and so on: the first number of bytes
/// that [`precedes`] `known` is taken. Where `known` has no bytes or no byte
/// can be tried, nothing is found and nothing is asked of the decoder.
///
/// Fails with `DecodeUnavailable` where the decoder cannot be made.
pub fn recover_previous(before: &Vec<u8>, known: &Instruction) -> (found: Result<
    Option<Instruction>,
    DebugError,
>)
    ensures
        match found {
            Ok(Some(record)) => {
                let length = record@.bytes.len();
                &&& 1 <= length <= reach_back(before@, known@)
                &&& precedes(before@, known@, length)
                &&& forall|shorter: nat| 1 <= shorter < length ==> !precedes(before@, known@, shorter)
                &&& record@.addr == known@.addr - length
                &&& record@.bytes == before@.skip(before@.len() - length)
                &&& record@.code == decoded(candidate(before@, known@, length)).code
            },
            Ok(None) => forall|length: nat|
                1 <= length <= reach_back(before@, known@) ==> !precedes(before@, known@, length),
            Err(error) => error == DebugError::DecodeUnavailable,
        },
        known@.bytes.len() == 0 || reach_back(before@, known@) == 0 ==> found matches Ok(None),
{
    if known.len() == 0 {
        return Ok(None);
    }
    let mut most: usize = if before.len() < MAX_INSTRUCTION_LENGTH {
        before.len()
    } else {
        MAX_INSTRUCTION_LENGTH
    };
    if known.addr() < most as u64 {
        most = known.addr() as usize;
    }
    let mut length: usize = 1;
    while length <= most
        invariant
            1 <= length <= most + 1,
            most == reach_back(before@, known@),
            most <= MAX_INSTRUCTION_LENGTH,
            most <= before.len(),
            known@.bytes.len() >= 1,
            forall|shorter: nat| 1 <= shorter < length ==> !precedes(before@, known@, shorter),
        decreases most + 1 - length,
    {
        let mut window = copy_range(before, before.len() - length, before.len());
        let tail = known.bytes();
        let mut index: usize = 0;
        while index < tail.len()
            invariant
                index <= tail.len(),
                tail@ == known@.bytes,
                window@ == before@.skip(before@.len() - length) + tail@.take(index as int),
            decreases tail.len() - index,
        {
            window.push(tail[index]);
            index += 1;
            assert(window@ =~= before@.skip(before@.len() - length) + tail@.take(index as int));
        }
        proof {
            assert(tail@.take(index as int) =~= tail@);
            assert(window@ == candidate(before@, known@, length as nat));
            assert(window@.skip(0) =~= window@);
        }
        let first = match decode_at(&window, 0) {
            Some(first) => first,
            None => {
                return Err(DebugError::DecodeUnavailable);
            },
        };
        if first.length == length {
            let second = match decode_at(&window, length) {
                Some(second) => second,
                None => {
                    return Err(DebugError::DecodeUnavailable);
                },
            };
            if confirms(first, second, length, known) {
                let bytes = copy_range(before, before.len() - length, before.len());
                let record = Instruction::new(known.addr() - length as u64, bytes, first.code);
                return Ok(Some(record));
            }
        }
        length += 1;
    }
    Ok(None)
}

/// A cache of the instructions around an anchor, which is the instruction
/// pointer as a rule: the records stand in the order of their addresses, no
/// address twice.
pub struct DisassemblyView {
    rip: u64,
    cache: Vec<Instruction>,
}

/// What a [`DisassemblyView`] holds.
pub struct DisassemblyState {
    pub rip: u64,
    pub cache: Seq<InstructionView>,
}

impl View for DisassemblyView {
    type V = DisassemblyState;

    closed spec fn view(&self) -> DisassemblyState {
        DisassemblyState { rip: self.rip, cache: views(self.cache@) }
    }
}

impl DisassemblyState {
    /// Whether the records stand in the order of their addresses, no address twice.
    pub open spec fn well_formed(self) -> bool {
        sorted(self.cache)
    }

    /// The bytes that a refresh decodes: what was fetched, with every
    /// displaced byte put back.
    pub open spec fn refresh_window(self, debugee: Seq<BreakpointView>, replies: Seq<Reply>) -> Seq<
        u8,
    > {
        overlaid(read_bytes(replies, CACHE_RANGE as nat), self.rip, debugee)
    }

    /// Number of bytes that are fetched to find the instruction before the anchor.
    pub open spec fn back_size(self) -> nat {
        if self.rip < MAX_INSTRUCTION_LENGTH {
            self.rip as nat
        } else {
            MAX_INSTRUCTION_LENGTH as nat
        }
    }

    /// The bytes that are searched for the instruction before the anchor:
    /// what was fetched, with every displaced byte put back.
    pub open spec fn back_window(self, debugee: Seq<BreakpointView>, replies: Seq<Reply>) -> Seq<
        u8,
    > {
        overlaid(
            read_bytes(replies, self.back_size()),
            (self.rip - self.back_size()) as u64,
            debugee,
        )
    }
}

impl DisassemblyView {
    /// The records stand in the order of their addresses, no address twice.
    #[verifier::type_invariant]
    spec fn holds_together(&self) -> bool {
        self@.well_formed()
    }

    /// An empty cache with its anchor at address zero.
    pub fn new() -> (view: Self)
        ensures
            view@ == (DisassemblyState { rip: 0, cache: Seq::empty() }),
    {
        let view = Self { rip: 0, cache: Vec::new() };
        assert(views(view.cache@) =~= Seq::<InstructionView>::empty());
        view
    }

    /// Address of the anchor.
    pub fn rip(&self) -> (rip: u64)
        ensures
            rip == self@.rip,
    {
        self.rip
    }

    /// Number of records in the cache.
    pub fn len(&self) -> (length: usize)
        ensures
            length == self@.cache.len(),
    {
        self.cache.len()
    }

    /// The records of the cache, in the order of their addresses.
    pub fn cache(&self) -> (cache: &Vec<Instruction>)
        ensures
            self@.well_formed(),
            views(cache@) == self@.cache,
    {
        proof {
            use_type_invariant(self);
        }
        &self.cache
    }

    /// Moves the anchor to `rip`.
    pub fn set_rip(&mut self, rip: u64)
        ensures
            final(self)@ == (DisassemblyState { rip, ..old(self)@ }),
    {
        proof {
            use_type_invariant(&*self);
        }
        self.rip = rip;
    }

    /// Drops every record that lies farther than twice the cache range away
    /// from the anchor.
    pub fn clean_cache(&mut self)
        ensures
            final(self)@ == (DisassemblyState {
                cache: retained(old(self)@.cache, old(self)@.rip),
                ..old(self)@
            }),
    {
        proof {
            use_type_invariant(&*self);
        }
        let ghost before = self@.cache;
        let mut near_ones: Vec<Instruction> = Vec::new();
        let mut index: usize = 0;
        while index < self.cache.len()
            invariant
                index <= self.cache.len(),
                before == views(self.cache@),
                views(near_ones@) == retained(before.take(index as int), self.rip),
            decreases self.cache.len() - index,
        {
            proof {
                assert(before.take(index + 1).drop_last() =~= before.take(index as int));
                assert(before.take(index + 1).last() == before[index as int]);
            }
            let record = &self.cache[index];
            let apart: u64 = if record.addr() >= self.rip {
                record.addr() - self.rip
            } else {
                self.rip - record.addr()
            };
            if apart <= 2 * CACHE_RANGE {
                let ghost kept_before = views(near_ones@);
                near_ones.push(record.duplicate());
                assert(views(near_ones@) =~= kept_before.push(before[index as int]));
            }
            index += 1;
        }
        proof {
            assert(before.take(index as int) =~= before);
            lemma_retained(before, self.rip);
        }
        std::mem::swap(&mut self.cache, &mut near_ones);
    }

    /// Drops every record.
    pub fn purge_cache(&mut self)
        ensures
            final(self)@ == (DisassemblyState { cache: Seq::empty(), ..old(self)@ }),
    {
        let mut none: Vec<Instruction> = Vec::new();
        assert(views(none@) =~= Seq::<InstructionView>::empty());
        std::mem::swap(&mut self.cache, &mut none);
    }

    /// Puts each of `records` into the cache at its place, unless a record
    /// stands at its address already.
    pub fn merge(&mut self, records: &Vec<Instruction>)
        ensures
            final(self)@.well_formed(),
            final(self)@ == (DisassemblyState {
                cache: merged(old(self)@.cache, views(records@)),
                ..old(self)@
            }),
    {
        proof {
            use_type_invariant(&*self);
        }
        let ghost before = self@.cache;
        let ghost fresh = views(records@);
        let mut list: Vec<Instruction> = Vec::new();
        assert(sorted(views(list@)));
        std::mem::swap(&mut self.cache, &mut list);
        let mut index: usize = 0;
        while index < records.len()
            invariant
                index <= records.len(),
                fresh == views(records@),
                sorted(views(list@)),
                views(list@) == merged(before, fresh.take(index as int)),
            decreases records.len() - index,
        {
            proof {
                assert(fresh.take(index + 1).drop_last() =~= fresh.take(index as int));
                assert(fresh.take(index + 1).last() == records@[index as int]@);
            }
            insert_record(&mut list, records[index].duplicate());
            index += 1;
        }
        assert(fresh.take(index as int) =~= fresh);
        std::mem::swap(&mut self.cache, &mut list);
    }

    /// Position of the record at the anchor.
    pub fn instruction_index(&self) -> (found: Option<usize>)
        ensures
            self@.well_formed(),
            match found {
                Some(index) => cached(self@.cache, self@.rip) && index == place_of(
                    self@.cache,
                    self@.rip,
                ) && index < self@.cache.len() && self@.cache[index as int].addr == self@.rip,
                None => !cached(self@.cache, self@.rip),
            },
    {
        proof {
            use_type_invariant(self);
        }
        let mut index: usize = 0;
        while index < self.cache.len()
            invariant
                index <= self.cache.len(),
                sorted(self@.cache),
                forall|i: int| 0 <= i < index ==> (#[trigger] self@.cache[i]).addr != self@.rip,
            decreases self.cache.len() - index,
        {
            if self.cache[index].addr() == self.rip {
                proof {
                    lemma_place_unique(self@.cache, index as int);
                }
                return Some(index);
            }
            index += 1;
        }
        None
    }

    /// Whether the cache has to be refreshed before `rows` instructions from
    /// the anchor on can be shown: no record stands at the anchor, or fewer
    /// than `rows` records stand from there on.
    pub fn needs_refresh(&self, rows: usize) -> (needed: bool)
        ensures
            needed == (!cached(self@.cache, self@.rip) || place_of(self@.cache, self@.rip) + rows
                > self@.cache.len()),
    {
        match self.instruction_index() {
            None => true,
            Some(index) => rows > self.cache.len() - index,
        }
    }

    /// The records from the anchor on, `rows` of them or as many as there are.
    ///
    /// Fails with `DecodeUnavailable` where no record stands at the anchor.
    pub fn listing(&self, rows: usize) -> (records: Result<Vec<Instruction>, DebugError>)
        ensures
            match records {
                Ok(list) => {
                    let from = place_of(self@.cache, self@.rip);
                    let to = if from + rows > self@.cache.len() {
                        self@.cache.len() as int
                    } else {
                        from + rows
                    };
                    cached(self@.cache, self@.rip) && views(list@) == self@.cache.subrange(from, to)
                },
                Err(error) => error == DebugError::DecodeUnavailable && !cached(
                    self@.cache,
                    self@.rip,
                ),
            },
    {
        let from = match self.instruction_index() {
            Some(from) => from,
            None => {
                return Err(DebugError::DecodeUnavailable);
            },
        };
        let to: usize = if rows > self.cache.len() - from {
            self.cache.len()
        } else {
            from + rows
        };
        let mut list: Vec<Instruction> = Vec::new();
        let mut index: usize = from;
        while index < to
            invariant
                from <= index <= to <= self.cache.len(),
                views(list@) == self@.cache.subrange(from as int, index as int),
            decreases to - index,
        {
            let ghost shown = views(list@);
            list.push(self.cache[index].duplicate());
            assert(views(list@) =~= shown.push(self@.cache[index as int]));
            index += 1;
            assert(views(list@) =~= self@.cache.subrange(from as int, index as int));
        }
        Ok(list)
    }

    /// Moves the anchor to the instruction behind the one at the anchor.
    /// Tells whether it moved: it stays where no record stands at the anchor
    /// or the next address lies beyond the address space.
    pub fn advance(&mut self) -> (moved: bool)
        ensures
            moved == (cached(old(self)@.cache, old(self)@.rip) && old(self)@.cache[place_of(
                old(self)@.cache,
                old(self)@.rip,
            )].end() <= u64::MAX),
            final(self)@ == (DisassemblyState {
                rip: if moved {
                    old(self)@.cache[place_of(old(self)@.cache, old(self)@.rip)].end() as u64
                } else {
                    old(self)@.rip
                },
                ..old(self)@
            }),
    {
        match self.instruction_index() {
            Some(index) => {
                let length = self.cache[index].len();
                if length as u128 + self.rip as u128 <= u64::MAX as u128 {
                    self.rip = self.rip + length as u64;
                    true
                } else {
                    false
                }
            },
            None => false,
        }
    }

    /// Moves the anchor to the instruction before the one at the anchor,
    /// where the cache holds it: the record before the anchor's that ends at
    /// the anchor. Tells whether it moved.
    pub fn retreat(&mut self) -> (moved: bool)
        ensures
            moved == ({
                let at = place_of(old(self)@.cache, old(self)@.rip);
                cached(old(self)@.cache, old(self)@.rip) && at > 0 && old(self)@.cache[at - 1].end()
                    == old(self)@.rip
            }),
            final(self)@ == (DisassemblyState {
                rip: if moved {
                    old(self)@.cache[place_of(old(self)@.cache, old(self)@.rip) - 1].addr
                } else {
                    old(self)@.rip
                },
                ..old(self)@
            }),
    {
        match self.instruction_index() {
            Some(index) => {
                if index > 0 {
                    let previous = &self.cache[index - 1];
                    if previous.len() as u128 + previous.addr() as u128 == self.rip as u128 {
                        let target = previous.addr();
                        self.rip = target;
                        return true;
                    }
                }
                false
            },
            None => false,
        }
    }

    /// The requests that fetch the window that a refresh decodes: the cache
    /// range from the anchor on.
    ///
    /// Fails with `DecodeUnavailable` where a word to be read would lie
    /// beyond the end of the address space.
    pub fn refresh_cache_requests(&self) -> (requests: Result<Vec<Request>, DebugError>)
        ensures
            match requests {
                Ok(list) => reachable(self@.rip, CACHE_RANGE as nat) && list@ == read_plan(
                    self@.rip,
                    CACHE_RANGE as nat,
                ),
                Err(error) => error == DebugError::DecodeUnavailable && !reachable(
                    self@.rip,
                    CACHE_RANGE as nat,
                ),
            },
    {
        match read_requests(self.rip, CACHE_RANGE as usize) {
            Ok(list) => Ok(list),
            Err(_) => Err(DebugError::DecodeUnavailable),
        }
    }

    /// Decodes the window that was fetched, with the bytes that the software
    /// breakpoints of `debugee` displaced put back, and merges the records
    /// into the cache.
    ///
    /// Fails with `DecodeUnavailable`, and changes nothing, where `replies`
    /// do not answer the requests of [`Self::refresh_cache_requests`] one for
    /// one, or the decoder cannot be made.
    pub fn refresh_cache(&mut self, debugee: &Debugee, replies: &Vec<Reply>) -> (outcome: Result<
        (),
        DebugError,
    >)
        ensures
            final(self)@.well_formed(),
            match outcome {
                Ok(_) => {
                    &&& reachable(old(self)@.rip, CACHE_RANGE as nat)
                    &&& all_fit(read_plan(old(self)@.rip, CACHE_RANGE as nat), replies@)
                    &&& final(self)@ == (DisassemblyState {
                        cache: merged(
                            old(self)@.cache,
                            decoding(
                                old(self)@.refresh_window(debugee@.breakpoints, replies@),
                                old(self)@.rip,
                                0,
                            ),
                        ),
                        ..old(self)@
                    })
                    &&& forall|i: int|
                        0 <= i < decoding(
                            old(self)@.refresh_window(debugee@.breakpoints, replies@),
                            old(self)@.rip,
                            0,
                        ).len() ==> 1 <= (#[trigger] decoding(
                            old(self)@.refresh_window(debugee@.breakpoints, replies@),
                            old(self)@.rip,
                            0,
                        )[i]).bytes.len() <= MAX_INSTRUCTION_LENGTH
                },
                Err(error) => error == DebugError::DecodeUnavailable && final(self)@ == old(self)@,
            },
            !(reachable(old(self)@.rip, CACHE_RANGE as nat) && all_fit(
                read_plan(old(self)@.rip, CACHE_RANGE as nat),
                replies@,
            )) ==> outcome is Err,
    {
        proof {
            use_type_invariant(&*self);
        }
        let mut window = match read_result(self.rip, CACHE_RANGE as usize, replies) {
            Ok(window) => window,
            Err(_) => {
                return Err(DebugError::DecodeUnavailable);
            },
        };
        overlay(&mut window, self.rip, debugee);
        let records = match decode_window(&window, self.rip) {
            Ok(records) => records,
            Err(error) => {
                return Err(error);
            },
        };
        assert(views(records@) =~= decoding(window@, self.rip, 0));
        self.merge(&records);
        Ok(())
    }

    /// The requests that fetch the bytes before the anchor in which the
    /// instruction before it is searched: up to fifteen.
    ///
    /// Fails with `DecodeUnavailable` where a word to be read would lie
    /// beyond the end of the address space.
    pub fn extend_back_requests(&self) -> (requests: Result<Vec<Request>, DebugError>)
        ensures
            match requests {
                Ok(list) => {
                    &&& reachable((self@.rip - self@.back_size()) as u64, self@.back_size())
                    &&& list@ == read_plan((self@.rip - self@.back_size()) as u64, self@.back_size())
                },
                Err(error) => error == DebugError::DecodeUnavailable && !reachable(
                    (self@.rip - self@.back_size()) as u64,
                    self@.back_size(),
                ),
            },
    {
        let size: usize = if self.rip < MAX_INSTRUCTION_LENGTH as u64 {
            self.rip as usize
        } else {
            MAX_INSTRUCTION_LENGTH
        };
        match read_requests(self.rip - size as u64, size) {
            Ok(list) => Ok(list),
            Err(_) => Err(DebugError::DecodeUnavailable),
        }
    }

    /// Searches the bytes that were fetched, with the bytes that the software
    /// breakpoints of `debugee` displaced put back, for the instruction
    /// before the one at the anchor, and puts it into the cache. Hands out
    /// its address, or nothing where no number of bytes decodes to an
    /// instruction that stands just before the anchor's.
    ///
    /// Fails with `DecodeUnavailable`, and changes nothing, where no record
    /// stands at the anchor, `replies` do not answer the requests of
    /// [`Self::extend_back_requests`] one for one, or the decoder cannot be made.
    pub fn extend_back(&mut self, debugee: &Debugee, replies: &Vec<Reply>) -> (outcome: Result<
        Option<u64>,
        DebugError,
    >)
        ensures
            final(self)@.well_formed(),
            final(self)@.rip == old(self)@.rip,
            match outcome {
                Ok(found) => {
                    let before = old(self)@.back_window(debugee@.breakpoints, replies@);
                    let known = old(self)@.cache[place_of(old(self)@.cache, old(self)@.rip)];
                    &&& cached(old(self)@.cache, old(self)@.rip)
                    &&& all_fit(
                        read_plan(
                            (old(self)@.rip - old(self)@.back_size()) as u64,
                            old(self)@.back_size(),
                        ),
                        replies@,
                    )
                    &&& match found {
                        Some(addr) => {
                            let length = (old(self)@.rip - addr) as nat;
                            &&& addr < old(self)@.rip
                            &&& addr + length == old(self)@.rip
                            &&& 1 <= length <= reach_back(before, known)
                            &&& precedes(before, known, length)
                            &&& forall|shorter: nat|
                                1 <= shorter < length ==> !precedes(before, known, shorter)
                            &&& final(self)@.cache == inserted(
                                old(self)@.cache,
                                InstructionView {
                                    addr,
                                    bytes: before.skip(before.len() - length),
                                    code: decoded(candidate(before, known, length)).code,
                                },
                            )
                        },
                        None => {
                            &&& final(self)@ == old(self)@
                            &&& forall|length: nat|
                                1 <= length <= reach_back(before, known) ==> !precedes(
                                    before,
                                    known,
                                    length,
                                )
                        },
                    }
                },
                Err(error) => error == DebugError::DecodeUnavailable && final(self)@ == old(self)@,
            },
            !(cached(old(self)@.cache, old(self)@.rip) && reachable(
                (old(self)@.rip - old(self)@.back_size()) as u64,
                old(self)@.back_size(),
            ) && all_fit(
                read_plan((old(self)@.rip - old(self)@.back_size()) as u64, old(self)@.back_size()),
                replies@,
            )) ==> outcome is Err,
            cached(old(self)@.cache, old(self)@.rip) && all_fit(
                read_plan((old(self)@.rip - old(self)@.back_size()) as u64, old(self)@.back_size()),
                replies@,
            ) && (old(self)@.rip == 0 || old(self)@.cache[place_of(
                old(self)@.cache,
                old(self)@.rip,
            )].bytes.len() == 0) && reachable(
                (old(self)@.rip - old(self)@.back_size()) as u64,
                old(self)@.back_size(),
            ) ==> outcome matches Ok(None),
    {
        proof {
            use_type_invariant(&*self);
        }
        let index = match self.instruction_index() {
            Some(index) => index,
            None => {
                return Err(DebugError::DecodeUnavailable);
            },
        };
        let size: usize = if self.rip < MAX_INSTRUCTION_LENGTH as u64 {
            self.rip as usize
        } else {
            MAX_INSTRUCTION_LENGTH
        };
        let mut before = match read_result(self.rip - size as u64, size, replies) {
            Ok(before) => before,
            Err(_) => {
                return Err(DebugError::DecodeUnavailable);
            },
        };
        overlay(&mut before, self.rip - size as u64, debugee);
        let found = match recover_previous(&before, &self.cache[index]) {
            Ok(found) => found,
            Err(error) => {
                return Err(error);
            },
        };
        match found {
            Some(record) => {
                let addr = record.addr();
                let mut list: Vec<Instruction> = Vec::new();
                assert(sorted(views(list@)));
                std::mem::swap(&mut self.cache, &mut list);
                insert_record(&mut list, record);
                std::mem::swap(&mut self.cache, &mut list);
                Ok(Some(addr))
            },
            None => Ok(None),
        }
    }
}

/// A refresh decodes the same bytes after a software breakpoint was
/// installed as it would have before: the cache never shows the trap.
pub proof fn lemma_refresh_hides_trap(
    target: Target,
    debugee: DebugeeView,
    view: DisassemblyState,
    address: u64,
    size: u64,
)
    requires
        debugee.well_formed(),
        !holds(debugee.breakpoints, address),
        reachable(view.rip, CACHE_RANGE as nat),
        forall|at: int| view.rip <= at < view.rip + CACHE_RANGE ==> target.memory.dom().contains(at),
    ensures
        ({
            let plan = debugee.software_plan(address, size);
            let installed = debugee.with_breakpoint(
                debugee.software_made(address, size, answers(target, plan)),
            );
            let fetch = read_plan(view.rip, CACHE_RANGE as nat);
            view.refresh_window(installed.breakpoints, answers(run(target, plan), fetch))
                == view.refresh_window(debugee.breakpoints, answers(target, fetch))
        }),
{
    let plan = debugee.software_plan(address, size);
    lemma_read_returns_memory(target, view.rip, CACHE_RANGE as nat);
    lemma_read_returns_memory(run(target, plan), view.rip, CACHE_RANGE as nat);
    lemma_overlay_hides_trap(target, debugee, address, size, view.rip, CACHE_RANGE as nat);
}

/// After a software breakpoint was installed and taken out again, a read of
/// memory yields what it would have yielded before, and so does the window
/// that a refresh decodes.
pub proof fn lemma_round_trip_unseen(
    target: Target,
    debugee: DebugeeView,
    view: DisassemblyState,
    address: u64,
    size: u64,
    from: u64,
    count: nat,
)
    requires
        debugee.well_formed(),
        !holds(debugee.breakpoints, address),
        reachable(from, count),
        reachable(view.rip, CACHE_RANGE as nat),
    ensures
        ({
            let plan = debugee.software_plan(address, size);
            let installed = debugee.with_breakpoint(
                debugee.software_made(address, size, answers(target, plan)),
            );
            let after = run(run(target, plan), installed.removal_plan(address));
            let left = installed.without_breakpoint(address);
            let fetch = read_plan(view.rip, CACHE_RANGE as nat);
            &&& read_bytes(answers(after, read_plan(from, count)), count) == load(
                target.memory,
                from as int,
                count,
            )
            &&& view.refresh_window(left.breakpoints, answers(after, fetch)) == view.refresh_window(
                debugee.breakpoints,
                answers(target, fetch),
            )
        }),
{
    lemma_breakpoint_round_trip(target, debugee, address, size);
    lemma_read_returns_memory(target, from, count);
}

} // verus!

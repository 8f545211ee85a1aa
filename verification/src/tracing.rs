use vstd::prelude::*;
use crate::error::DebugError;
use crate::registers::Registers;
use crate::word::{bytes_word, mask_word, masked_word, patch_word, patched_word, word_bytes};

verus! {

/// One request to the kernel's tracing interface, on behalf of the traced process.
///
/// The two patch requests stand for a read of one word followed by a write of
/// that word with some of it replaced: the driver reads, asks
/// [`Request::patched`] for the new word and writes it.
#[derive(Clone, Copy, Debug, PartialEq, Eq, Structural)]
pub enum Request {
    /// Begin tracing the process.
    Seize,
    /// Stop tracing and let the process run on.
    Detach,
    /// Stop the running process.
    Interrupt,
    /// Let the stopped process run.
    Continue,
    /// Let the stopped process execute one instruction.
    SingleStep,
    /// Terminate the process.
    Kill,
    /// Fetch the general-purpose registers.
    GetRegisters,
    /// Read the word of memory at `address`.
    PeekData { address: u64 },
    /// Write `word` to memory at `address`.
    PokeData { address: u64, word: u64 },
    /// Replace the first `count` bytes of the word of memory at `address` by the
    /// first `count` bytes of `word`.
    PatchData { address: u64, word: u64, count: u8 },
    /// Read the word of the user area at `offset`.
    PeekUser { offset: u64 },
    /// Write `value` to the user area at `offset`.
    PokeUser { offset: u64, value: u64 },
    /// In the word of the user area at `offset`, take out the bits of `clear` and
    /// then put in those of `set`.
    PatchUser { offset: u64, clear: u64, set: u64 },
}

/// What the driver hands back for one request.
#[derive(Clone, Copy, Debug, PartialEq, Eq, Structural)]
pub enum Reply {
    /// The request was carried out and yields no value.
    Done,
    /// The word that was read; for a patch request, the word before the patch.
    Word(u64),
    /// The registers that were fetched.
    Registers(Registers),
    /// The kernel rejected the request.
    Failed,
}

/// The traced process as the tracing interface shows it: its memory byte by
/// byte and its user area word by word, each keyed by address or offset.
pub struct Target {
    pub memory: Map<int, u8>,
    pub user: Map<int, u64>,
}

/// The `count` bytes of `memory` from `address` on.
pub open spec fn load(memory: Map<int, u8>, address: int, count: nat) -> Seq<u8> {
    Seq::new(count, |k: int| memory[address + k])
}

/// `memory` with `bytes` written from `address` on. Addresses that `memory`
/// does not hold stay out of it.
pub open spec fn store(memory: Map<int, u8>, address: int, bytes: Seq<u8>) -> Map<int, u8> {
    Map::new(
        |k: int| memory.dom().contains(k),
        |k: int| if address <= k < address + bytes.len() { bytes[k - address] } else { memory[k] },
    )
}

/// The word of `memory` at `address`.
pub open spec fn word_at(memory: Map<int, u8>, address: int) -> u64 {
    bytes_word(load(memory, address, 8))
}

/// The general-purpose registers as the user area holds them.
pub open spec fn registers_in(user: Map<int, u64>) -> Registers {
    Registers {
        r15: user[0],
        r14: user[8],
        r13: user[16],
        r12: user[24],
        rbp: user[32],
        rbx: user[40],
        r11: user[48],
        r10: user[56],
        r9: user[64],
        r8: user[72],
        rax: user[80],
        rcx: user[88],
        rdx: user[96],
        rsi: user[104],
        rdi: user[112],
        orig_rax: user[120],
        rip: user[128],
        cs: user[136],
        eflags: user[144],
        rsp: user[152],
        ss: user[160],
        fs_base: user[168],
        gs_base: user[176],
        ds: user[184],
        es: user[192],
        fs: user[200],
        gs: user[208],
    }
}

/// The word that a patch request writes where `old` was read; `old` itself for
/// every other request.
pub open spec fn patched(request: Request, old: u64) -> u64 {
    match request {
        Request::PatchData { address, word, count } => patched_word(old, word, count as nat),
        Request::PatchUser { offset, clear, set } => masked_word(old, clear, set),
        _ => old,
    }
}

/// The target after `request` was carried out. Only what the request itself
/// writes is described: what the process does while it runs is not.
pub open spec fn effect(target: Target, request: Request) -> Target {
    match request {
        Request::PokeData { address, word } => Target {
            memory: store(target.memory, address as int, word_bytes(word)),
            ..target
        },
        Request::PatchData { address, word, count } => Target {
            memory: store(
                target.memory,
                address as int,
                word_bytes(patched(request, word_at(target.memory, address as int))),
            ),
            ..target
        },
        Request::PokeUser { offset, value } => Target {
            user: target.user.insert(offset as int, value),
            ..target
        },
        Request::PatchUser { offset, clear, set } => Target {
            user: target.user.insert(offset as int, patched(request, target.user[offset as int])),
            ..target
        },
        _ => target,
    }
}

/// What the driver hands back when `request` is carried out on `target`.
pub open spec fn answer(target: Target, request: Request) -> Reply {
    match request {
        Request::PeekData { address } => Reply::Word(word_at(target.memory, address as int)),
        Request::PatchData { address, word, count } => Reply::Word(
            word_at(target.memory, address as int),
        ),
        Request::PeekUser { offset } => Reply::Word(target.user[offset as int]),
        Request::PatchUser { offset, clear, set } => Reply::Word(target.user[offset as int]),
        Request::GetRegisters => Reply::Registers(registers_in(target.user)),
        _ => Reply::Done,
    }
}

/// The target after `requests` were carried out one after the other.
pub open spec fn run(target: Target, requests: Seq<Request>) -> Target
    decreases requests.len(),
{
    if requests.len() == 0 {
        target
    } else {
        effect(run(target, requests.drop_last()), requests.last())
    }
}

/// What the driver hands back when `requests` are carried out one after the other.
pub open spec fn answers(target: Target, requests: Seq<Request>) -> Seq<Reply>
    decreases requests.len(),
{
    if requests.len() == 0 {
        Seq::empty()
    } else {
        answers(target, requests.drop_last()).push(
            answer(run(target, requests.drop_last()), requests.last()),
        )
    }
}

/// Whether `reply` is of the kind that answers `request`.
pub open spec fn fits(request: Request, reply: Reply) -> bool {
    match request {
        Request::PeekData { .. } | Request::PatchData { .. } | Request::PeekUser { .. }
        | Request::PatchUser { .. } => reply is Word,
        Request::GetRegisters => reply is Registers,
        _ => reply is Done,
    }
}

/// Whether `replies` answer `requests` one for one.
pub open spec fn all_fit(requests: Seq<Request>, replies: Seq<Reply>) -> bool {
    &&& replies.len() == requests.len()
    &&& forall|i: int| 0 <= i < requests.len() ==> fits(requests[i], #[trigger] replies[i])
}

impl Request {
    /// The word that a patch request writes where `old` was read; `old` itself
    /// for every other request.
    pub fn patched(&self, old: u64) -> (word: u64)
        ensures
            word == patched(*self, old),
    {
        match self {
            Request::PatchData { address, word, count } => patch_word(old, *word, *count),
            Request::PatchUser { offset, clear, set } => mask_word(old, *clear, *set),
            _ => old,
        }
    }

    /// Whether `reply` is of the kind that answers this request.
    pub fn fits(&self, reply: &Reply) -> (fit: bool)
        ensures
            fit == fits(*self, *reply),
    {
        match self {
            Request::PeekData { .. } | Request::PatchData { .. } | Request::PeekUser { .. }
            | Request::PatchUser { .. } => match reply {
                Reply::Word(_) => true,
                _ => false,
            },
            Request::GetRegisters => match reply {
                Reply::Registers(_) => true,
                _ => false,
            },
            _ => match reply {
                Reply::Done => true,
                _ => false,
            },
        }
    }
}

/// Whether `replies` answer `requests` one for one.
pub fn answered(requests: &Vec<Request>, replies: &Vec<Reply>) -> (fit: bool)
    ensures
        fit == all_fit(requests@, replies@),
{
    if requests.len() != replies.len() {
        return false;
    }
    let mut index: usize = 0;
    while index < requests.len()
        invariant
            index <= requests.len(),
            requests.len() == replies.len(),
            forall|i: int| 0 <= i < index ==> fits(requests@[i], #[trigger] replies@[i]),
        decreases requests.len() - index,
    {
        if !requests[index].fits(&replies[index]) {
            return false;
        }
        index += 1;
    }
    true
}

/// Checks that `replies` answer `requests` one for one.
///
/// Fails with `IoError` where they do not: a request was rejected or left out.
pub fn confirm(requests: &Vec<Request>, replies: &Vec<Reply>) -> (outcome: Result<(), DebugError>)
    ensures
        outcome is Ok <==> all_fit(requests@, replies@),
        outcome is Err ==> outcome == Err::<(), DebugError>(DebugError::IoError),
{
    if answered(requests, replies) {
        Ok(())
    } else {
        Err(DebugError::IoError)
    }
}

/// Carrying out one more request: the target and the answers go on from where
/// the requests before it left them.
pub proof fn lemma_run_push(target: Target, requests: Seq<Request>, request: Request)
    ensures
        run(target, requests.push(request)) == effect(run(target, requests), request),
        answers(target, requests.push(request)) == answers(target, requests).push(
            answer(run(target, requests), request),
        ),
        answers(target, requests).len() == requests.len(),
    decreases requests.len(),
{
    assert(requests.push(request).drop_last() =~= requests);
    if requests.len() > 0 {
        lemma_run_push(target, requests.drop_last(), requests.last());
        assert(requests.drop_last().push(requests.last()) =~= requests);
    }
}

/// What the driver hands back on a target answers the requests one for one.
pub proof fn lemma_answers_fit(target: Target, requests: Seq<Request>)
    ensures
        all_fit(requests, answers(target, requests)),
    decreases requests.len(),
{
    if requests.len() > 0 {
        lemma_answers_fit(target, requests.drop_last());
        lemma_run_push(target, requests.drop_last(), requests.last());
        assert(requests.drop_last().push(requests.last()) =~= requests);
    }
}

} // verus!

use vstd::prelude::*;
use crate::error::DebugError;
use crate::tracing::{
    all_fit, answers, effect, lemma_answers_fit, lemma_run_push, load, run, store, word_at, Reply,
    Request, Target,
};
use crate::word::{
    byte_at, byte_of_word, bytes_word, lemma_bytes_of_their_word, lemma_patched_word_bytes,
    word_bytes, word_of_bytes,
};

verus! {

/// Number of words that hold `size` bytes.
pub open spec fn word_count(size: nat) -> nat {
    (size + 7) / 8
}

/// Whether the words that hold `size` bytes from `address` on all lie within
/// the address space.
pub open spec fn reachable(address: u64, size: nat) -> bool {
    address + 8 * word_count(size) <= 0x1_0000_0000_0000_0000
}

/// The reads that fetch `size` bytes from `address` on: one word after the other.
pub open spec fn read_plan(address: u64, size: nat) -> Seq<Request> {
    Seq::new(word_count(size), |i: int| Request::PeekData { address: (address + 8 * i) as u64 })
}

/// The first `size` bytes of the words that `replies` hold.
pub open spec fn read_bytes(replies: Seq<Reply>, size: nat) -> Seq<u8> {
    Seq::new(size, |k: int| byte_at(replies[k / 8]->Word_0, k % 8))
}

/// The word that starts with `tail` and is zero above it.
pub open spec fn tail_word(tail: Seq<u8>) -> u64 {
    bytes_word(Seq::new(8, |i: int| if i < tail.len() { tail[i] } else { 0u8 }))
}

/// The writes of the first `words` whole words of `data` from `address` on.
pub open spec fn poke_plan(address: u64, data: Seq<u8>, words: nat) -> Seq<Request> {
    Seq::new(
        words,
        |i: int|
            Request::PokeData {
                address: (address + 8 * i) as u64,
                word: bytes_word(data.subrange(8 * i, 8 * i + 8)),
            },
    )
}

/// The requests that write `data` from `address` on: every whole word of it is
/// written as it is, and what is left over is patched into the word after them.
pub open spec fn write_plan(address: u64, data: Seq<u8>) -> Seq<Request> {
    let whole = data.len() / 8;
    let rest = data.len() % 8;
    if rest == 0 {
        poke_plan(address, data, whole)
    } else {
        poke_plan(address, data, whole).push(
            Request::PatchData {
                address: (address + 8 * whole) as u64,
                word: tail_word(data.subrange(8 * whole as int, data.len() as int)),
                count: rest as u8,
            },
        )
    }
}

/// Whether the words that hold `size` bytes from `address` on all lie within
/// the address space.
pub fn in_reach(address: u64, size: usize) -> (fit: bool)
    ensures
        fit == reachable(address, size as nat),
{
    let words: u128 = (size as u128 + 7) / 8;
    address as u128 + 8 * words <= 0x1_0000_0000_0000_0000u128
}

/// The requests that fetch `size` bytes from `address` on.
///
/// Fails with `IoError` where a word to be read would lie beyond the end of
/// the address space.
pub fn read_requests(address: u64, size: usize) -> (requests: Result<Vec<Request>, DebugError>)
    ensures
        match requests {
            Ok(list) => reachable(address, size as nat) && list@ == read_plan(address, size as nat),
            Err(error) => error == DebugError::IoError && !reachable(address, size as nat),
        },
{
    if !in_reach(address, size) {
        return Err(DebugError::IoError);
    }
    let words: usize = size / 8 + if size % 8 == 0 { 0 } else { 1 };
    assert(words == word_count(size as nat));
    let mut list: Vec<Request> = Vec::new();
    let mut index: usize = 0;
    while index < words
        invariant
            index <= words,
            address + 8 * words <= 0x1_0000_0000_0000_0000,
            list@ == Seq::new(
                index as nat,
                |i: int| Request::PeekData { address: (address + 8 * i) as u64 },
            ),
        decreases words - index,
    {
        list.push(Request::PeekData { address: address + 8 * (index as u64) });
        index += 1;
        assert(list@ =~= Seq::new(
            index as nat,
            |i: int| Request::PeekData { address: (address + 8 * i) as u64 },
        ));
    }
    Ok(list)
}

/// The bytes that were fetched: the first `size` bytes of the words in `replies`.
///
/// Fails with `IoError` unless `replies` answer the requests of
/// [`read_requests`] one for one.
pub fn read_result(address: u64, size: usize, replies: &Vec<Reply>) -> (bytes: Result<
    Vec<u8>,
    DebugError,
>)
    ensures
        match bytes {
            Ok(list) => {
                &&& reachable(address, size as nat)
                &&& all_fit(read_plan(address, size as nat), replies@)
                &&& list@ == read_bytes(replies@, size as nat)
            },
            Err(error) => {
                &&& error == DebugError::IoError
                &&& !(reachable(address, size as nat) && all_fit(
                    read_plan(address, size as nat),
                    replies@,
                ))
            },
        },
{
    if !in_reach(address, size) {
        return Err(DebugError::IoError);
    }
    let words: usize = size / 8 + if size % 8 == 0 { 0 } else { 1 };
    assert(words == word_count(size as nat));
    if replies.len() != words {
        return Err(DebugError::IoError);
    }
    let mut list: Vec<u8> = Vec::new();
    let mut index: usize = 0;
    while index < size
        invariant
            index <= size,
            replies.len() == words,
            words == word_count(size as nat),
            list@.len() == index,
            forall|i: int| 0 <= i < word_count(index as nat) ==> #[trigger] replies@[i] is Word,
            forall|k: int|
                0 <= k < index ==> list@[k] == byte_at(replies@[k / 8]->Word_0, k % 8),
        decreases size - index,
    {
        match replies[index / 8] {
            Reply::Word(word) => {
                list.push(byte_of_word(word, index % 8));
            },
            _ => {
                assert(!all_fit(read_plan(address, size as nat), replies@)) by {
                    let i = (index / 8) as int;
                    assert(read_plan(address, size as nat)[i] is PeekData);
                }
                return Err(DebugError::IoError);
            },
        }
        index += 1;
    }
    assert(list@ =~= read_bytes(replies@, size as nat));
    Ok(list)
}

/// The requests that write `data` from `address` on.
///
/// Fails with `IoError` where a word to be written would lie beyond the end of
/// the address space.
pub fn write_requests(address: u64, data: &Vec<u8>) -> (requests: Result<Vec<Request>, DebugError>)
    ensures
        match requests {
            Ok(list) => reachable(address, data@.len()) && list@ == write_plan(address, data@),
            Err(error) => error == DebugError::IoError && !reachable(address, data@.len()),
        },
{
    if !in_reach(address, data.len()) {
        return Err(DebugError::IoError);
    }
    let whole: usize = data.len() / 8;
    let rest: usize = data.len() % 8;
    let mut list: Vec<Request> = Vec::new();
    let mut index: usize = 0;
    while index < whole
        invariant
            index <= whole,
            whole == data.len() / 8,
            address + 8 * whole <= 0x1_0000_0000_0000_0000,
            list@ == poke_plan(address, data@, index as nat),
        decreases whole - index,
    {
        let word = word_of_bytes(data, 8 * index);
        list.push(Request::PokeData { address: address + 8 * (index as u64), word });
        index += 1;
        assert(list@ =~= poke_plan(address, data@, index as nat));
    }
    if rest != 0 {
        let mut padded: Vec<u8> = Vec::with_capacity(8);
        let mut fill: usize = 0;
        while fill < 8
            invariant
                fill <= 8,
                rest == data.len() % 8,
                whole == data.len() / 8,
                padded@.len() == fill,
                forall|i: int|
                    0 <= i < fill ==> padded@[i] == if i < rest {
                        data@[8 * whole + i]
                    } else {
                        0u8
                    },
            decreases 8 - fill,
        {
            if fill < rest {
                padded.push(data[8 * whole + fill]);
            } else {
                padded.push(0);
            }
            fill += 1;
        }
        let ghost tail = data@.subrange(8 * whole as int, data@.len() as int);
        assert(padded@.subrange(0, 8) =~= Seq::new(
            8,
            |i: int| if i < tail.len() { tail[i] } else { 0u8 },
        ));
        let word = word_of_bytes(&padded, 0);
        list.push(
            Request::PatchData { address: address + 8 * (whole as u64), word, count: rest as u8 },
        );
    }
    Ok(list)
}

/// Patching the first `count` bytes of a word in memory changes those bytes
/// and nothing else.
pub proof fn lemma_patch_effect(target: Target, address: u64, word: u64, count: u8)
    requires
        count <= 8,
    ensures
        effect(target, Request::PatchData { address, word, count }).memory == store(
            target.memory,
            address as int,
            word_bytes(word).take(count as int),
        ),
        effect(target, Request::PatchData { address, word, count }).user == target.user,
{
    let old = word_at(target.memory, address as int);
    lemma_patched_word_bytes(old, word, count as nat);
    lemma_bytes_of_their_word(load(target.memory, address as int, 8));
    assert(effect(target, Request::PatchData { address, word, count }).memory =~= store(
        target.memory,
        address as int,
        word_bytes(word).take(count as int),
    ));
}

/// Fetching bytes changes nothing, is answered word for word, and yields what
/// the memory holds from the address on.
pub proof fn lemma_read_returns_memory(target: Target, address: u64, size: nat)
    requires
        reachable(address, size),
    ensures
        run(target, read_plan(address, size)) == target,
        all_fit(read_plan(address, size), answers(target, read_plan(address, size))),
        read_bytes(answers(target, read_plan(address, size)), size) == load(
            target.memory,
            address as int,
            size,
        ),
{
    let plan = read_plan(address, size);
    let replies = answers(target, plan);
    lemma_read_prefix(target, address, size, word_count(size));
    lemma_answers_fit(target, plan);
    assert(plan.take(word_count(size) as int) =~= plan);
    assert forall|k: int| 0 <= k < size implies #[trigger] read_bytes(replies, size)[k]
        == target.memory[address + k] by {
        let i = k / 8;
        lemma_bytes_of_their_word(load(target.memory, address + 8 * i, 8));
        assert(word_bytes(word_at(target.memory, address + 8 * i))[k % 8] == load(
            target.memory,
            address + 8 * i,
            8,
        )[k % 8]);
    }
    assert(read_bytes(replies, size) =~= load(target.memory, address as int, size));
}

/// The first reads of a fetch change nothing, and each is answered by the
/// word of memory at its address.
proof fn lemma_read_prefix(target: Target, address: u64, size: nat, words: nat)
    requires
        words <= word_count(size),
        reachable(address, size),
    ensures
        run(target, read_plan(address, size).take(words as int)) == target,
        answers(target, read_plan(address, size).take(words as int)).len() == words,
        forall|i: int|
            0 <= i < words ==> #[trigger] answers(
                target,
                read_plan(address, size).take(words as int),
            )[i] == Reply::Word(word_at(target.memory, address + 8 * i)),
    decreases words,
{
    let plan = read_plan(address, size);
    if words == 0 {
        assert(plan.take(0) =~= Seq::<Request>::empty());
    } else {
        let before = plan.take(words - 1);
        lemma_read_prefix(target, address, size, (words - 1) as nat);
        lemma_run_push(target, before, plan[words - 1]);
        assert(before.push(plan[words - 1]) =~= plan.take(words as int));
    }
}

/// Writing the first whole words of `data` puts them into memory and changes
/// nothing else.
proof fn lemma_poke_prefix(target: Target, address: u64, data: Seq<u8>, words: nat)
    requires
        8 * words <= data.len(),
        address + 8 * words <= 0x1_0000_0000_0000_0000,
    ensures
        run(target, poke_plan(address, data, words)).memory == store(
            target.memory,
            address as int,
            data.take(8 * words as int),
        ),
        run(target, poke_plan(address, data, words)).user == target.user,
    decreases words,
{
    if words == 0 {
        assert(poke_plan(address, data, 0) =~= Seq::<Request>::empty());
        assert(store(target.memory, address as int, data.take(0)) =~= target.memory);
    } else {
        let before = (words - 1) as nat;
        let front = poke_plan(address, data, before);
        let request = poke_plan(address, data, words)[before as int];
        lemma_poke_prefix(target, address, data, before);
        lemma_run_push(target, front, request);
        assert(front.push(request) =~= poke_plan(address, data, words));
        let part = data.subrange(8 * before as int, 8 * before as int + 8);
        lemma_bytes_of_their_word(part);
        assert(store(
            store(target.memory, address as int, data.take(8 * before as int)),
            address + 8 * before,
            part,
        ) =~= store(target.memory, address as int, data.take(8 * words as int)));
    }
}

/// Writing bytes puts them into memory from the address on and leaves every
/// other byte, and the user area, as it was.
pub proof fn lemma_write_effect(target: Target, address: u64, data: Seq<u8>)
    requires
        reachable(address, data.len()),
    ensures
        run(target, write_plan(address, data)).memory == store(
            target.memory,
            address as int,
            data,
        ),
        run(target, write_plan(address, data)).user == target.user,
        all_fit(write_plan(address, data), answers(target, write_plan(address, data))),
{
    lemma_answers_fit(target, write_plan(address, data));
    let whole = data.len() / 8;
    let rest = data.len() % 8;
    lemma_poke_prefix(target, address, data, whole);
    let front = poke_plan(address, data, whole);
    let after = run(target, front);
    if rest == 0 {
        assert(data.take(8 * whole as int) =~= data);
    } else {
        let tail = data.subrange(8 * whole as int, data.len() as int);
        let padded = Seq::new(8, |i: int| if i < tail.len() { tail[i] } else { 0u8 });
        let request = Request::PatchData {
            address: (address + 8 * whole) as u64,
            word: tail_word(tail),
            count: rest as u8,
        };
        lemma_run_push(target, front, request);
        lemma_patch_effect(after, (address + 8 * whole) as u64, tail_word(tail), rest as u8);
        lemma_bytes_of_their_word(padded);
        assert(word_bytes(tail_word(tail)).take(rest as int) =~= tail);
        assert(store(
            store(target.memory, address as int, data.take(8 * whole as int)),
            address + 8 * whole,
            tail,
        ) =~= store(target.memory, address as int, data));
    }
}

} // verus!

use vstd::prelude::*;

verus! {

/// The byte of `word` that lies `index` bytes above its lowest address.
pub open spec fn byte_at(word: u64, index: int) -> u8 {
    ((word >> ((8 * index) as u64)) & 0xff) as u8
}

/// The eight bytes of `word` in the order in which they lie in memory.
pub open spec fn word_bytes(word: u64) -> Seq<u8> {
    Seq::new(8, |index: int| byte_at(word, index))
}

/// The word whose bytes in memory are the first eight of `bytes`.
pub open spec fn bytes_word(bytes: Seq<u8>) -> u64 {
    (bytes[0] as u64) | ((bytes[1] as u64) << 8) | ((bytes[2] as u64) << 16) | ((bytes[3] as u64)
        << 24) | ((bytes[4] as u64) << 32) | ((bytes[5] as u64) << 40) | ((bytes[6] as u64) << 48)
        | ((bytes[7] as u64) << 56)
}

/// `old` with its first `count` bytes in memory replaced by those of `new`.
pub open spec fn patched_word(old: u64, new: u64, count: nat) -> u64 {
    bytes_word(Seq::new(8, |index: int| if index < count { byte_at(new, index) } else { byte_at(old, index) }))
}

/// `old` with the bits of `clear` taken out and then those of `set` put in.
pub open spec fn masked_word(old: u64, clear: u64, set: u64) -> u64 {
    (old & !clear) | set
}

/// Taking a word apart into bytes and putting it together again gives the word.
pub proof fn lemma_word_of_its_bytes(word: u64)
    ensures
        bytes_word(word_bytes(word)) == word,
{
    let b0 = byte_at(word, 0);
    let b1 = byte_at(word, 1);
    let b2 = byte_at(word, 2);
    let b3 = byte_at(word, 3);
    let b4 = byte_at(word, 4);
    let b5 = byte_at(word, 5);
    let b6 = byte_at(word, 6);
    let b7 = byte_at(word, 7);
    assert((b0 as u64) | ((b1 as u64) << 8) | ((b2 as u64) << 16) | ((b3 as u64) << 24) | ((b4 as u64)
        << 32) | ((b5 as u64) << 40) | ((b6 as u64) << 48) | ((b7 as u64) << 56) == word)
        by (bit_vector)
        requires
            b0 == ((word >> 0u64) & 0xff) as u8,
            b1 == ((word >> 8u64) & 0xff) as u8,
            b2 == ((word >> 16u64) & 0xff) as u8,
            b3 == ((word >> 24u64) & 0xff) as u8,
            b4 == ((word >> 32u64) & 0xff) as u8,
            b5 == ((word >> 40u64) & 0xff) as u8,
            b6 == ((word >> 48u64) & 0xff) as u8,
            b7 == ((word >> 56u64) & 0xff) as u8,
    ;
}

/// Putting eight bytes together into a word and taking it apart again gives the bytes.
pub proof fn lemma_bytes_of_their_word(bytes: Seq<u8>)
    requires
        bytes.len() == 8,
    ensures
        word_bytes(bytes_word(bytes)) == bytes,
{
    let b0 = bytes[0];
    let b1 = bytes[1];
    let b2 = bytes[2];
    let b3 = bytes[3];
    let b4 = bytes[4];
    let b5 = bytes[5];
    let b6 = bytes[6];
    let b7 = bytes[7];
    let word = bytes_word(bytes);
    assert(((word >> 0u64) & 0xff) as u8 == b0 && ((word >> 8u64) & 0xff) as u8 == b1 && ((word
        >> 16u64) & 0xff) as u8 == b2 && ((word >> 24u64) & 0xff) as u8 == b3 && ((word >> 32u64)
        & 0xff) as u8 == b4 && ((word >> 40u64) & 0xff) as u8 == b5 && ((word >> 48u64) & 0xff) as u8
        == b6 && ((word >> 56u64) & 0xff) as u8 == b7) by (bit_vector)
        requires
            word == (b0 as u64) | ((b1 as u64) << 8) | ((b2 as u64) << 16) | ((b3 as u64) << 24) | ((
            b4 as u64) << 32) | ((b5 as u64) << 40) | ((b6 as u64) << 48) | ((b7 as u64) << 56),
    ;
    assert(word_bytes(word) =~= bytes);
}

/// The bytes of a patched word: the first `count` are those of `new`, the rest those of `old`.
pub proof fn lemma_patched_word_bytes(old: u64, new: u64, count: nat)
    ensures
        word_bytes(patched_word(old, new, count)) == Seq::new(
            8,
            |index: int| if index < count { byte_at(new, index) } else { byte_at(old, index) },
        ),
        count == 0 ==> patched_word(old, new, count) == old,
        count >= 8 ==> patched_word(old, new, count) == new,
{
    let mixed = Seq::new(
        8,
        |index: int| if index < count { byte_at(new, index) } else { byte_at(old, index) },
    );
    lemma_bytes_of_their_word(mixed);
    if count == 0 {
        assert(mixed =~= word_bytes(old));
        lemma_word_of_its_bytes(old);
    }
    if count >= 8 {
        assert(mixed =~= word_bytes(new));
        lemma_word_of_its_bytes(new);
    }
}

/// The byte of `word` that lies `index` bytes above its lowest address.
pub fn byte_of_word(word: u64, index: usize) -> (byte: u8)
    requires
        index < 8,
    ensures
        byte == byte_at(word, index as int),
{
    let shift: u64 = 8 * (index as u64);
    ((word >> shift) & 0xff) as u8
}

/// The word whose bytes in memory are the eight bytes of `bytes` from `start` on.
pub fn word_of_bytes(bytes: &Vec<u8>, start: usize) -> (word: u64)
    requires
        start + 8 <= bytes.len(),
    ensures
        word == bytes_word(bytes@.subrange(start as int, start + 8)),
{
    let ghost part = bytes@.subrange(start as int, start + 8);
    assert(forall|k: int| 0 <= k < 8 ==> part[k] == bytes@[start + k]);
    (bytes[start] as u64) | ((bytes[start + 1] as u64) << 8) | ((bytes[start + 2] as u64) << 16) | ((
    bytes[start + 3] as u64) << 24) | ((bytes[start + 4] as u64) << 32) | ((bytes[start + 5] as u64)
        << 40) | ((bytes[start + 6] as u64) << 48) | ((bytes[start + 7] as u64) << 56)
}

/// `old` with its first `count` bytes in memory replaced by those of `new`.
pub fn patch_word(old: u64, new: u64, count: u8) -> (word: u64)
    ensures
        word == patched_word(old, new, count as nat),
{
    let mut mixed: Vec<u8> = Vec::with_capacity(8);
    let mut index: usize = 0;
    while index < 8
        invariant
            index <= 8,
            mixed@.len() == index,
            forall|k: int|
                0 <= k < index ==> mixed@[k] == if k < count {
                    byte_at(new, k)
                } else {
                    byte_at(old, k)
                },
        decreases 8 - index,
    {
        if index < count as usize {
            mixed.push(byte_of_word(new, index));
        } else {
            mixed.push(byte_of_word(old, index));
        }
        index += 1;
    }
    assert(mixed@.subrange(0, 8) =~= Seq::new(
        8,
        |index: int| if index < count { byte_at(new, index) } else { byte_at(old, index) },
    ));
    word_of_bytes(&mixed, 0)
}

/// `old` with the bits of `clear` taken out and then those of `set` put in.
pub fn mask_word(old: u64, clear: u64, set: u64) -> (word: u64)
    ensures
        word == masked_word(old, clear, set),
{
    (old & !clear) | set
}

} // verus!

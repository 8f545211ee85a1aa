use vstd::prelude::*;

verus! {

/// The value of a hexadecimal digit, in either case.
pub open spec fn digit_value(byte: u8) -> Option<int> {
    if 0x30 <= byte <= 0x39 {
        Some(byte - 0x30)
    } else if 0x61 <= byte <= 0x66 {
        Some(byte - 0x61 + 10)
    } else if 0x41 <= byte <= 0x46 {
        Some(byte - 0x41 + 10)
    } else {
        None
    }
}

/// The number that hexadecimal digits stand for; nothing where a byte is no
/// digit. No digits stand for zero.
pub open spec fn digits_value(digits: Seq<u8>) -> Option<int>
    decreases digits.len(),
{
    if digits.len() == 0 {
        Some(0int)
    } else {
        match (digits_value(digits.drop_last()), digit_value(digits.last())) {
            (Some(front), Some(last)) => Some(16 * front + last),
            _ => None,
        }
    }
}

/// Where the part of `text` behind its last `x` begins: at 0 where it holds none.
pub open spec fn tail_start(text: Seq<u8>) -> int
    decreases text.len(),
{
    if text.len() == 0 {
        0
    } else if text.last() == 0x78 {
        text.len() as int
    } else {
        tail_start(text.drop_last())
    }
}

/// The digits of `text`: what stands behind its last `x`, without one plus
/// sign in front.
pub open spec fn digits_of(text: Seq<u8>) -> Seq<u8> {
    let tail = text.skip(tail_start(text));
    if tail.len() > 0 && tail[0] == 0x2b {
        tail.skip(1)
    } else {
        tail
    }
}

/// The address that `text` stands for: the hexadecimal number behind its last
/// `x`, or all of it where it holds no `x`. Nothing where no digit is left,
/// a byte is no digit, or the number does not fit.
pub open spec fn address_of(text: Seq<u8>) -> Option<u64> {
    let digits = digits_of(text);
    if digits.len() == 0 {
        None
    } else {
        match digits_value(digits) {
            Some(value) => if value <= u64::MAX {
                Some(value as u64)
            } else {
                None
            },
            None => None,
        }
    }
}

/// Digits stand for a number only if each beginning of them does, and for one
/// that is no smaller.
pub proof fn lemma_digits_grow(digits: Seq<u8>, count: int)
    requires
        0 <= count <= digits.len(),
        digits_value(digits) is Some,
    ensures
        digits_value(digits.take(count)) is Some,
        0 <= digits_value(digits.take(count)).unwrap() <= digits_value(digits).unwrap(),
    decreases digits.len() - count,
{
    if count == digits.len() {
        assert(digits.take(count) =~= digits);
        lemma_digits_grow_zero(digits);
    } else {
        assert(digits.drop_last().take(count) =~= digits.take(count));
        lemma_digits_grow(digits.drop_last(), count);
    }
}

/// Digits never stand for a number below zero.
proof fn lemma_digits_grow_zero(digits: Seq<u8>)
    requires
        digits_value(digits) is Some,
    ensures
        digits_value(digits).unwrap() >= 0,
    decreases digits.len(),
{
    if digits.len() > 0 {
        lemma_digits_grow_zero(digits.drop_last());
    }
}

/// The value of a hexadecimal digit, in either case.
pub fn digit(byte: u8) -> (value: Option<u8>)
    ensures
        match value {
            Some(found) => digit_value(byte) == Some(found as int) && found < 16,
            None => digit_value(byte) is None,
        },
{
    if 0x30 <= byte && byte <= 0x39 {
        Some(byte - 0x30)
    } else if 0x61 <= byte && byte <= 0x66 {
        Some(byte - 0x61 + 10)
    } else if 0x41 <= byte && byte <= 0x46 {
        Some(byte - 0x41 + 10)
    } else {
        None
    }
}

/// The address that `text` stands for: the hexadecimal number behind its last
/// `x`, with or without a plus sign in front, or all of it where it holds no
/// `x`.
pub fn parse_address(text: &Vec<u8>) -> (address: Option<u64>)
    ensures
        address == address_of(text@),
{
    let mut start: usize = 0;
    let mut index: usize = 0;
    while index < text.len()
        invariant
            index <= text.len(),
            start == tail_start(text@.take(index as int)),
            start <= index,
        decreases text.len() - index,
    {
        proof {
            assert(text@.take(index + 1).drop_last() =~= text@.take(index as int));
        }
        if text[index] == 0x78 {
            start = index + 1;
        }
        index += 1;
    }
    assert(text@.take(index as int) =~= text@);
    if start < text.len() && text[start] == 0x2b {
        start += 1;
    }
    let ghost digits = digits_of(text@);
    assert(digits =~= text@.skip(start as int));
    if start == text.len() {
        return None;
    }
    let mut value: u64 = 0;
    let mut at: usize = start;
    while at < text.len()
        invariant
            start <= at <= text.len(),
            start < text.len(),
            digits == digits_of(text@),
            digits == text@.skip(start as int),
            digits_value(digits.take(at - start)) == Some(value as int),
        decreases text.len() - at,
    {
        proof {
            assert(digits.take(at - start + 1).drop_last() =~= digits.take(at - start));
            assert(digits.take(at - start + 1).last() == text@[at as int]);
        }
        let found = match digit(text[at]) {
            Some(found) => found,
            None => {
                proof {
                    if digits_value(digits) is Some {
                        lemma_digits_grow(digits, at - start + 1);
                    }
                }
                return None;
            },
        };
        let next = match value.checked_mul(16) {
            Some(shifted) => shifted.checked_add(found as u64),
            None => None,
        };
        value =
        match next {
            Some(next) => next,
            None => {
                proof {
                    assert(digits_value(digits.take(at - start + 1)) == Some(
                        16 * value + found as int,
                    ));
                    if digits_value(digits) is Some {
                        lemma_digits_grow(digits, at - start + 1);
                    }
                }
                return None;
            },
        };
        at += 1;
    }
    assert(digits.take(at - start) =~= digits);
    Some(value)
}

} // verus!

use vstd::prelude::*;

verus! {

/// The longest that one instruction can be, in bytes.
pub const MAX_INSTRUCTION_LENGTH: usize = 15;

/// The decoder's number for bytes that are no valid instruction.
pub const INVALID_CODE: u32 = 0;

/// What the decoder tells of one instruction: how many bytes it takes and
/// which instruction it is, by the decoder's own number for it. The number 0
/// stands for bytes that are no valid instruction.
#[derive(Clone, Copy, Debug, PartialEq, Eq, Structural)]
pub struct Decoded {
    pub length: usize,
    pub code: u32,
}

/// What the decoder makes, in 64-bit mode and with no option set, of the
/// instruction that starts with the first of `bytes`.
pub uninterp spec fn decoded(bytes: Seq<u8>) -> Decoded;

/// `iced_x86::Decoder::decode`, on a decoder made by `Decoder::try_new` for
/// 64-bit code with no option set and moved by `Decoder::set_position` to
/// `position`; of the instruction that comes out, `Instruction::len` and
/// `Instruction::code`.
///
/// The decoder reads `window` from `position` on and nothing before it, so
/// what comes out is what the bytes from there on decode to. It takes at
/// least the one byte that is there, at most fifteen, and never more than are
/// left. Nothing comes out where the decoder cannot be made.
#[verifier::external_body]
pub(crate) fn decode_at(window: &Vec<u8>, position: usize) -> (found: Option<Decoded>)
    requires
        position < window@.len(),
    ensures
        found matches Some(instruction) ==> {
            &&& instruction == decoded(window@.skip(position as int))
            &&& 1 <= instruction.length <= MAX_INSTRUCTION_LENGTH
            &&& position + instruction.length <= window@.len()
        },
{
    let mut decoder =
        iced_x86::Decoder::try_new(64, window.as_slice(), iced_x86::DecoderOptions::NONE).ok()?;
    decoder.set_position(position).ok()?;
    let instruction = decoder.decode();
    Some(Decoded { length: instruction.len(), code: instruction.code() as u32 })
}

} // verus!

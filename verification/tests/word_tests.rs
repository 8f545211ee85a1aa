use dbgcore::word::{byte_of_word, mask_word, patch_word, word_of_bytes};

#[test]
fn word_is_little_endian() {
    let bytes = vec![0x11u8, 0x22, 0x33, 0x44, 0x55, 0x66, 0x77, 0x88];
    assert_eq!(word_of_bytes(&bytes, 0), 0x8877_6655_4433_2211);
    assert_eq!(word_of_bytes(&vec![0, 1, 2, 3, 4, 5, 6, 7, 8, 9], 2), 0x0908_0706_0504_0302);
    assert_eq!(byte_of_word(0x8877_6655_4433_2211, 2), 0x33);
}

#[test]
fn patch_replaces_low_bytes_only() {
    assert_eq!(patch_word(0x8877_6655_4433_2211, 0xCC, 1), 0x8877_6655_4433_22CC);
    assert_eq!(patch_word(0x8877_6655_4433_2211, 0xAABBCC, 3), 0x8877_6655_44AA_BBCC);
    assert_eq!(patch_word(0x8877_6655_4433_2211, 0xAABBCC, 0), 0x8877_6655_4433_2211);
    assert_eq!(mask_word(0b1111, 0b0110, 0x700), 0x709);
}

use mix_node::cipher::Cipher;

#[test]
fn bit_pair() {
    let cipher = Cipher::new([0b00011011, 0b11100100]);

    assert_eq!(cipher.bit_pair(0), 0b00);
    assert_eq!(cipher.bit_pair(2), 0b10);
    assert_eq!(cipher.bit_pair(4), 0b11);
    assert_eq!(cipher.bit_pair(6), 0b01);
}

#[test]
fn set_bit_pair() {
    let mut cipher = Cipher::new([0b00011011, 0b11100100]);

    cipher.set_bit_pair(0, 0b11);
    assert_eq!(cipher.as_bytes(), &[0b11011011, 0b11100100]);
    cipher.set_bit_pair(2, 0b01);
    assert_eq!(cipher.as_bytes(), &[0b11010111, 0b11100100]);
    cipher.set_bit_pair(4, 0b00);
    assert_eq!(cipher.as_bytes(), &[0b11010111, 0b00100100]);
    cipher.set_bit_pair(6, 0b10);
    assert_eq!(cipher.as_bytes(), &[0b11010111, 0b00101000]);

    assert_eq!(cipher.bit_pair(0), 0b11);
    assert_eq!(cipher.bit_pair(2), 0b01);
    assert_eq!(cipher.bit_pair(4), 0b00);
    assert_eq!(cipher.bit_pair(6), 0b10);
}

#[test]
fn swap_bit_pair() {
    let mut c = Cipher::new([0b00011011, 0b11100100]);

    for idx in 0..8 {
        c.swap_bits_on_pair(idx);
    }

    assert_eq!(c.as_bytes(), &[0b00100111, 0b11011000]);
}

#[test]
fn swap_pair_moves_both_pairs() {
    let mut c = Cipher::new([0b00011011]);

    c.swap_pair(0, 3);

    assert_eq!(c.bit_pair(0), 0b11);
    assert_eq!(c.bit_pair(3), 0b00);
    assert_eq!(c.bit_pair(1), 0b01);
    assert_eq!(c.bit_pair(2), 0b10);
}

#[test]
fn cipher_len_and_empty() {
    let c = Cipher::new([1, 2, 3]);
    assert_eq!(c.len(), 3);
    assert!(!c.is_empty());

    let e = Cipher::new([]);
    assert_eq!(e.len(), 0);
    assert!(e.is_empty());
}

#[test]
fn hex_rendering() {
    let c = Cipher::new([0x1B, 0xE4, 0x00, 0xFF]);
    assert_eq!(c.to_hex_string(), "1BE400FF");

    let e = Cipher::new([]);
    assert_eq!(e.to_hex_string(), "");
}

#[test]
fn binary_rendering() {
    let c = Cipher::new([0b00011011, 0b11100100]);
    assert_eq!(c.to_binary_string(), "0001101111100100");

    let e = Cipher::new([]);
    assert_eq!(e.to_binary_string(), "");
}

#[test]
fn set_bit_pair_masks_high_bits() {
    let mut c = Cipher::new([0u8]);
    c.set_bit_pair(1, 0b111);
    assert_eq!(c.as_bytes(), &[0b00110000]);
}

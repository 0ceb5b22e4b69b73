use base64::engine::general_purpose::STANDARD;
use base64::Engine;
use pty_sessions::transport::{base64_decode, base64_encode};

fn sample(len: usize, seed: u32) -> Vec<u8> {
    let mut state = seed;
    let mut bytes = Vec::with_capacity(len);
    for _ in 0..len {
        state = state.wrapping_mul(1_103_515_245).wrapping_add(12_345);
        bytes.push((state >> 16) as u8);
    }
    bytes
}

#[test]
fn encodes_the_empty_sequence_as_the_empty_text() {
    assert_eq!(base64_encode(&[]), "");
}

#[test]
fn encodes_the_standard_test_vectors() {
    assert_eq!(base64_encode(b"f"), "Zg==");
    assert_eq!(base64_encode(b"fo"), "Zm8=");
    assert_eq!(base64_encode(b"foo"), "Zm9v");
    assert_eq!(base64_encode(b"foob"), "Zm9vYg==");
    assert_eq!(base64_encode(b"fooba"), "Zm9vYmE=");
    assert_eq!(base64_encode(b"foobar"), "Zm9vYmFy");
}

#[test]
fn pads_one_leftover_byte_with_two_symbols() {
    assert_eq!(base64_encode(&[0x00]), "AA==");
    assert_eq!(base64_encode(&[0xff]), "/w==");
    assert_eq!(base64_encode(&[1, 2, 3, 4]), "AQIDBA==");
}

#[test]
fn pads_two_leftover_bytes_with_one_symbol() {
    assert_eq!(base64_encode(&[0x00, 0x00]), "AAA=");
    assert_eq!(base64_encode(&[0xff, 0xff]), "//8=");
    assert_eq!(base64_encode(&[1, 2, 3, 4, 5]), "AQIDBAU=");
}

#[test]
fn uses_every_symbol_of_the_standard_alphabet_in_order() {
    // The 64 digits 0..=63 packed four to three bytes.
    let mut bytes = Vec::new();
    let mut digit: u32 = 0;
    while digit < 64 {
        let triple = (digit << 18) | ((digit + 1) << 12) | ((digit + 2) << 6) | (digit + 3);
        bytes.push((triple >> 16) as u8);
        bytes.push((triple >> 8) as u8);
        bytes.push(triple as u8);
        digit += 4;
    }
    assert_eq!(
        base64_encode(&bytes),
        "ABCDEFGHIJKLMNOPQRSTUVWXYZabcdefghijklmnopqrstuvwxyz0123456789+/"
    );
}

#[test]
fn encodes_control_bytes_and_malformed_text() {
    assert_eq!(base64_encode(&[0x1b, b'[', b'0', b'm']), "G1swbQ==");
    assert_eq!(base64_encode(&[0xc3, 0x28, 0x00, 0x0a]), "wygACg==");
    assert_eq!(base64_encode(&[0xff, 0xfe, 0xfd]), "//79");
}

#[test]
fn text_has_four_symbols_for_each_group_of_three_bytes() {
    for len in 0..200usize {
        let text = base64_encode(&sample(len, 7));
        assert_eq!(text.len(), (len + 2) / 3 * 4);
    }
    assert_eq!(base64_encode(&sample(4096, 11)).len(), 5464);
}

#[test]
fn decoding_gives_back_every_encoded_sequence() {
    assert_eq!(base64_decode(&base64_encode(&[])), Some(vec![]));
    for len in 0..130usize {
        let bytes = sample(len, len as u32 + 1);
        assert_eq!(base64_decode(&base64_encode(&bytes)), Some(bytes));
    }
}

#[test]
fn decoding_gives_back_every_single_byte_and_every_pair_with_it() {
    for byte in 0..=255u8 {
        assert_eq!(base64_decode(&base64_encode(&[byte])), Some(vec![byte]));
        assert_eq!(base64_decode(&base64_encode(&[byte, !byte])), Some(vec![byte, !byte]));
        assert_eq!(
            base64_decode(&base64_encode(&[!byte, 0x5a, byte])),
            Some(vec![!byte, 0x5a, byte])
        );
    }
}

#[test]
fn a_full_read_chunk_survives_the_round_trip() {
    let chunk = sample(4096, 99);
    assert_eq!(base64_decode(&base64_encode(&chunk)), Some(chunk));
}

#[test]
fn a_standard_decoder_reads_what_the_encoder_writes() {
    for len in 0..130usize {
        let bytes = sample(len, 1000 + len as u32);
        let text = base64_encode(&bytes);
        assert_eq!(STANDARD.decode(text.as_bytes()).unwrap(), bytes);
    }
}

#[test]
fn the_encoder_writes_what_a_standard_encoder_writes() {
    for len in 0..130usize {
        let bytes = sample(len, 2000 + len as u32);
        assert_eq!(base64_encode(&bytes), STANDARD.encode(&bytes));
    }
    let chunk = sample(4096, 5);
    assert_eq!(base64_encode(&chunk), STANDARD.encode(&chunk));
}

#[test]
fn the_decoder_reads_what_a_standard_encoder_writes() {
    for len in 0..130usize {
        let bytes = sample(len, 3000 + len as u32);
        assert_eq!(base64_decode(&STANDARD.encode(&bytes)), Some(bytes));
    }
}

#[test]
fn decodes_the_standard_test_vectors() {
    assert_eq!(base64_decode(""), Some(b"".to_vec()));
    assert_eq!(base64_decode("Zg=="), Some(b"f".to_vec()));
    assert_eq!(base64_decode("Zm8="), Some(b"fo".to_vec()));
    assert_eq!(base64_decode("Zm9v"), Some(b"foo".to_vec()));
    assert_eq!(base64_decode("Zm9vYg=="), Some(b"foob".to_vec()));
    assert_eq!(base64_decode("Zm9vYmE="), Some(b"fooba".to_vec()));
    assert_eq!(base64_decode("Zm9vYmFy"), Some(b"foobar".to_vec()));
}

#[test]
fn rejects_text_whose_length_is_no_multiple_of_four() {
    assert_eq!(base64_decode("Z"), None);
    assert_eq!(base64_decode("Zg"), None);
    assert_eq!(base64_decode("Zg="), None);
    assert_eq!(base64_decode("Zm9vY"), None);
    assert_eq!(base64_decode("Zm9vYmF"), None);
}

#[test]
fn rejects_characters_outside_the_alphabet() {
    assert_eq!(base64_decode("Zm9-"), None);
    assert_eq!(base64_decode("Zm9_"), None);
    assert_eq!(base64_decode("Zm 9"), None);
    assert_eq!(base64_decode("Zm9v\n"), None);
    assert_eq!(base64_decode("Zm9vZm9\u{0}"), None);
    assert_eq!(base64_decode("Zm\u{e9}v"), None);
    assert_eq!(base64_decode("\u{1f600}"), None);
}

#[test]
fn rejects_padding_that_is_out_of_place() {
    assert_eq!(base64_decode("===="), None);
    assert_eq!(base64_decode("Z==="), None);
    assert_eq!(base64_decode("=m9v"), None);
    assert_eq!(base64_decode("Zg=v"), None);
    assert_eq!(base64_decode("Zg==Zm9v"), None);
    assert_eq!(base64_decode("Zm8=Zm9v"), None);
}

#[test]
fn rejects_padded_groups_with_unused_bits_set() {
    assert_eq!(base64_decode("Zh=="), None);
    assert_eq!(base64_decode("Zm9="), None);
    assert_eq!(base64_decode("Zg=="), Some(vec![b'f']));
    assert_eq!(base64_decode("Zm8="), Some(vec![b'f', b'o']));
}

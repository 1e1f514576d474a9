use tickit_sync::token::{generate_token, token_from_bytes};

const ALPHABET: &str = "ABCDEFGHIJKLMNOPQRSTUVWXYZabcdefghijklmnopqrstuvwxyz0123456789";

#[test]
fn token_of_given_bytes() {
    let mut bytes = [0u8; 32];
    for (i, b) in bytes.iter_mut().enumerate() {
        *b = i as u8;
    }
    assert_eq!(token_from_bytes(&bytes), "tks_ABCDEFGHIJKLMNOPQRSTUVWXYZabcdef");
    assert_eq!(token_from_bytes(&[0u8; 32]), format!("tks_{}", "A".repeat(32)));
}

#[test]
fn bytes_are_counted_round_the_alphabet() {
    let mut bytes = [0u8; 32];
    bytes[0] = 25;
    bytes[1] = 26;
    bytes[2] = 51;
    bytes[3] = 52;
    bytes[4] = 61;
    bytes[5] = 62;
    bytes[6] = 123;
    bytes[7] = 124;
    bytes[8] = 255;
    let token = token_from_bytes(&bytes);
    assert_eq!(&token[..13], "tks_Zaz09A9AH");
}

#[test]
fn fresh_tokens() {
    let one = generate_token();
    let other = generate_token();
    assert_eq!(one.len(), 36);
    assert!(one.starts_with("tks_"));
    assert!(one[4..].chars().all(|c| ALPHABET.contains(c)));
    assert_ne!(one, other);
}

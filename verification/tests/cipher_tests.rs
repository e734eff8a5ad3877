use vigenere::cipher::CipherError;
use vigenere::{dec, enc, reverse_rotate_index, rotate_index, to_alpha_index, to_char};

#[test]
fn test_to_alpha_pos() {
    assert_eq!(0, to_alpha_index(&'A'));
}

#[test]
fn test_to_char() {
    assert_eq!('A', to_char(0));
}

#[test]
fn test_rotate_index() {
    assert_eq!(0, rotate_index(25, 1));
}

#[test]
fn test_enc() {
    let cipher_key = String::from("DUH");
    let plain_text = String::from("CRYPTO");
    assert_eq!("FLFSNV", enc(cipher_key, plain_text).unwrap());

    let cipher_key = String::from("DUH");
    let plain_text = String::from("THEYDRINKTHETEA");
    assert_eq!("WBLBXYLHRWBLWYH", enc(cipher_key, plain_text).unwrap());
}

#[test]
fn test_dec() {
    let cipher_key = String::from("DUH");
    let plain_text = String::from("FLFSNV");
    assert_eq!("CRYPTO", dec(cipher_key, plain_text).unwrap());

    let cipher_key = String::from("DUH");
    let plain_text = String::from("WBLBXYLHRWBLWYH");
    assert_eq!("THEYDRINKTHETEA", dec(cipher_key, plain_text).unwrap());
}

#[test]
fn test_mapper_inverse_all_letters() {
    for i in 0..26u8 {
        let c = to_char(i);
        assert!(('A'..='Z').contains(&c));
        assert_eq!(i, to_alpha_index(&c));
    }
}

#[test]
fn test_reverse_rotate_wraps() {
    assert_eq!(25, reverse_rotate_index(0, 1));
}

#[test]
fn test_rotate_inverse_sweep() {
    for p in 0..26u8 {
        for amt in 0..26u8 {
            assert_eq!(p, reverse_rotate_index(rotate_index(p, amt), amt));
            assert_eq!(p, rotate_index(reverse_rotate_index(p, amt), amt));
        }
    }
}

#[test]
fn test_round_trip() {
    let encrypted = enc(String::from("LEMON"), String::from("ATTACKATDAWN")).unwrap();
    assert_eq!("LXFOPVEFRNHR", encrypted);
    assert_eq!(
        "ATTACKATDAWN",
        dec(String::from("LEMON"), encrypted).unwrap()
    );

    let decrypted = dec(String::from("LEMON"), String::from("ATTACKATDAWN")).unwrap();
    assert_eq!(
        "ATTACKATDAWN",
        enc(String::from("LEMON"), decrypted).unwrap()
    );
}

#[test]
fn test_same_length() {
    let out = enc(String::from("KEY"), String::from("HELLOWORLD")).unwrap();
    assert_eq!(10, out.len());
    let back = dec(String::from("KEY"), out).unwrap();
    assert_eq!(10, back.len());
}

#[test]
fn test_empty_text() {
    assert_eq!("", enc(String::from("KEY"), String::new()).unwrap());
    assert_eq!("", dec(String::from("KEY"), String::new()).unwrap());
}

#[test]
fn test_key_cycling() {
    // With a key of length 3, text positions 0 and 3 get the same shift.
    assert_eq!("DUHDUH", enc(String::from("DUH"), String::from("AAAAAA")).unwrap());
}

#[test]
fn test_empty_key() {
    assert_eq!(
        Err(CipherError::EmptyKey),
        enc(String::new(), String::from("ANY"))
    );
    assert_eq!(
        Err(CipherError::EmptyKey),
        dec(String::new(), String::from("ANY"))
    );
}

#[test]
fn test_invalid_character_in_key() {
    assert_eq!(
        Err(CipherError::InvalidCharacter),
        enc(String::from("AB1"), String::from("TEXT"))
    );
    assert_eq!(
        Err(CipherError::InvalidCharacter),
        dec(String::from("AB1"), String::from("TEXT"))
    );
}

#[test]
fn test_invalid_character_in_text() {
    assert_eq!(
        Err(CipherError::InvalidCharacter),
        enc(String::from("KEY"), String::from("hello"))
    );
    assert_eq!(
        Err(CipherError::InvalidCharacter),
        dec(String::from("KEY"), String::from("A B"))
    );
}

use telio::keys::{decode_hex, encode_hex, PublicKey, SecretKey};

#[test]
fn public_key_is_derived_as_x25519_does() {
    // the first test vector of RFC 7748, section 6.1
    let secret = SecretKey::from_hex(
        "77076d0a7318a57d3c16c17251b26645df4c2f87ebc0992ab177fba51db92c2a",
    )
    .unwrap();
    assert_eq!(
        secret.public().to_hex(),
        "8520f0098930a754748b7ddcb43ef75a0dbf3a0d26381af4eba4a98eaa9b4e6a"
    );
    assert_ne!(secret.public().to_bytes(), secret.to_bytes());
    assert_eq!(secret.public(), secret.public());
}

#[test]
fn keys_are_read_from_64_hexadecimal_digits() {
    let text = "000102030405060708090a0b0c0d0e0f101112131415161718191a1b1c1d1e1f";
    let key = PublicKey::from_hex(text).unwrap();
    let bytes: Vec<u8> = (0u8..32).collect();
    assert_eq!(key.to_bytes().to_vec(), bytes);
    assert_eq!(key.hi, 0x0001_0203_0405_0607_0809_0a0b_0c0d_0e0f);
    assert_eq!(key.lo, 0x1011_1213_1415_1617_1819_1a1b_1c1d_1e1f);
    assert_eq!(key.to_hex(), text);
    assert_eq!(key.to_hex(), hex::encode(key.to_bytes()));
    assert_eq!(PublicKey::from_hex(&text.to_uppercase()), Some(key));
    assert_eq!(PublicKey::from_hex(&text[1..]), None);
    assert_eq!(PublicKey::from_hex(&format!("{text}00")), None);
    assert_eq!(PublicKey::from_hex(&text.replace('f', "g")), None);
    assert_eq!(PublicKey::from_hex(""), None);
    assert_eq!(SecretKey::from_hex(text).unwrap().to_bytes(), key.to_bytes());
    assert_eq!(SecretKey::from_hex("xyz"), None);
}

#[test]
fn keys_are_ordered_byte_by_byte() {
    let mut low = [0u8; 32];
    let mut high = [0u8; 32];
    low[31] = 0xff;
    high[0] = 1;
    let (low, high) = (PublicKey::from_bytes(&low), PublicKey::from_bytes(&high));
    assert!(low.lt(&high));
    assert!(!high.lt(&low));
    assert!(!low.lt(&low));
    assert!(low < high);
    let mut a = [9u8; 32];
    let mut b = [9u8; 32];
    a[15] = 1;
    b[16] = 1;
    assert!(PublicKey::from_bytes(&a).lt(&PublicKey::from_bytes(&b)));
    assert!(a < b);
    assert_eq!(PublicKey::from_bytes(&a).to_bytes(), a);
    assert_eq!(SecretKey::from_bytes(&b).to_bytes(), b);
    assert_eq!(PublicKey::default().to_bytes(), [0u8; 32]);
}

#[test]
fn hexadecimal_text_is_two_digits_a_byte() {
    let bytes = vec![0x00u8, 0x0f, 0xa5, 0xff];
    let mut out = vec!['x'];
    encode_hex(&mut out, &bytes);
    assert_eq!(out.iter().collect::<String>(), "x000fa5ff");
    assert_eq!(
        decode_hex(&"000FA5ff".chars().collect()),
        Some(bytes.clone())
    );
    assert_eq!(decode_hex(&"0".chars().collect()), None);
    assert_eq!(decode_hex(&"0x".chars().collect()), None);
    assert_eq!(decode_hex(&Vec::new()), Some(vec![]));
    assert_eq!(hex::decode("000FA5ff").unwrap(), bytes);
}

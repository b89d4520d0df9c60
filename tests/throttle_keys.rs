use mailgate::throttle::{ThrottleKey, ThrottleKeyHasherBuilder};

#[test]
fn fast_hash_is_first_eight_bytes_little_endian() {
    let mut hash = [0u8; 32];
    for (i, b) in hash.iter_mut().enumerate() {
        *b = i as u8 + 1;
    }
    let key = ThrottleKey::from_digest(hash);
    assert_eq!(key.fast_hash(), u64::from_le_bytes([1, 2, 3, 4, 5, 6, 7, 8]));
    let mut hasher = ThrottleKeyHasherBuilder::new().build_hasher();
    hasher.write(&[0xff, 0, 0, 0, 0, 0, 0, 0x01, 0xaa, 0xbb]);
    assert_eq!(hasher.finish(), 0x0100_0000_0000_00ff);
}

#[test]
fn keys_compare_by_the_whole_digest() {
    let mut a = [7u8; 32];
    let b = a;
    assert!(ThrottleKey::from_digest(a).eq(&ThrottleKey::from_digest(b)));
    a[31] = 8;
    let ka = ThrottleKey::from_digest(a);
    let kb = ThrottleKey::from_digest(b);
    assert_eq!(ka.fast_hash(), kb.fast_hash());
    assert!(!ka.eq(&kb));
}

#[test]
fn derived_keys_depend_on_the_input() {
    let a = ThrottleKey::derive(b"10.0.0.1");
    let b = ThrottleKey::derive(b"10.0.0.1");
    let c = ThrottleKey::derive(b"10.0.0.2");
    assert!(a.eq(&b));
    assert!(!a.eq(&c));
    assert_ne!(a.as_ref(), b"10.0.0.1".as_slice());
    assert_eq!(a.as_ref().len(), 32);
}

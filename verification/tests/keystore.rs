use schnorr_nizk::get_key_instance;
use schnorr_nizk::secret_management::{
    slot_name, store_key, KeyStore, MyKey, SecretKeyErrors, CONST_SLOT_PERMISSIONS,
};

#[test]
fn slot_names_are_hexadecimal_descriptions() {
    assert_eq!(slot_name("PublicKey:10000"), "5075626c69634b65793a3130303030");
    assert_eq!(
        slot_name("SharedSecretKey:10000:20000"),
        "5368617265645365637265744b65793a31303030303a3230303030"
    );
    assert_eq!(slot_name(""), "");
    assert_eq!(slot_name("\u{e9}\u{20ac}"), "c3a9e282ac");
    assert_eq!(slot_name("\u{0}\n\u{7f}"), "000a7f");
}

#[test]
fn opening_a_missing_slot_without_a_key_fails() {
    let mut store = KeyStore::new();
    let opened = MyKey::new(&mut store, "PublicKey:10000", 32, None);
    assert!(matches!(opened, Err(SecretKeyErrors::KeyNotProvided)));
    assert!(!store.contains_slot(&slot_name("PublicKey:10000")));
}

#[test]
fn opening_a_missing_slot_with_a_key_creates_it() {
    let mut store = KeyStore::new();
    let key = MyKey::new(&mut store, "PublicKey:10000", 32, Some(vec![7u8; 32])).unwrap();
    assert_eq!(key.get_key(), &vec![7u8; 32]);
    assert_eq!(key.key_description, b"PublicKey:10000".to_vec());
    assert_eq!(key.get_key_description(), "5075626c69634b65793a3130303030");
    let name = slot_name("PublicKey:10000");
    assert_eq!(store.read(&name), Some(vec![7u8; 32]));
    assert_eq!(store.permissions_of(&name), Some(0x3f3f0100));
    assert_eq!(CONST_SLOT_PERMISSIONS, 0x3f3f0100);
}

#[test]
fn opening_an_existing_slot_loads_its_value() {
    let mut store = KeyStore::new();
    MyKey::new(&mut store, "PrivateKey:10000", 32, Some(vec![7u8; 32])).unwrap();
    let again = MyKey::new(&mut store, "PrivateKey:10000", 32, Some(vec![9u8; 32])).unwrap();
    assert_eq!(again.get_key(), &vec![7u8; 32]);
    let third = get_key_instance(&mut store, "PrivateKey:10000", 32, None).unwrap();
    assert_eq!(third.get_key(), &vec![7u8; 32]);
    assert_eq!(store.read(&slot_name("PrivateKey:10000")), Some(vec![7u8; 32]));
}

#[test]
fn size_argument_does_not_shape_the_value() {
    let mut store = KeyStore::new();
    let key = get_key_instance(&mut store, "SharedCounter:1:2", 4, Some(vec![0, 0, 0, 1])).unwrap();
    assert_eq!(key.get_key(), &vec![0u8, 0, 0, 1]);
    let key = get_key_instance(&mut store, "odd", 32, Some(vec![1, 2, 3])).unwrap();
    assert_eq!(key.get_key(), &vec![1u8, 2, 3]);
}

#[test]
fn update_replaces_the_value() {
    let mut store = KeyStore::new();
    let mut key = MyKey::new(&mut store, "PublicKey:1", 32, Some(vec![1u8; 32])).unwrap();
    assert_eq!(key.update_key_in_ring(&mut store, vec![2u8; 32]), Ok(()));
    assert_eq!(key.get_key(), &vec![2u8; 32]);
    assert_eq!(store.read(&slot_name("PublicKey:1")), Some(vec![2u8; 32]));
    assert_eq!(store.permissions_of(&slot_name("PublicKey:1")), Some(0x3f3f0100));
}

#[test]
fn update_of_a_removed_slot_fails_and_keeps_the_value() {
    let mut store = KeyStore::new();
    let mut key = MyKey::new(&mut store, "PublicKey:1", 32, Some(vec![1u8; 32])).unwrap();
    assert_eq!(key.delete_key_from_ring(&mut store), Ok(()));
    assert_eq!(store.read(&slot_name("PublicKey:1")), None);
    assert_eq!(
        key.update_key_in_ring(&mut store, vec![2u8; 32]),
        Err(SecretKeyErrors::UnableToGetKeyFromOS)
    );
    assert_eq!(key.get_key(), &vec![1u8; 32]);
    assert_eq!(store.read(&slot_name("PublicKey:1")), None);
    assert_eq!(
        key.delete_key_from_ring(&mut store),
        Err(SecretKeyErrors::UnableToGetKeyFromOS)
    );
}

#[test]
fn slots_do_not_disturb_each_other() {
    let mut store = KeyStore::new();
    let mut a = MyKey::new(&mut store, "PublicKey:1", 32, Some(vec![1u8; 32])).unwrap();
    let b = MyKey::new(&mut store, "PublicKey:10", 32, Some(vec![2u8; 32])).unwrap();
    let c = MyKey::new(&mut store, "PrivateKey:1", 32, Some(vec![3u8; 32])).unwrap();
    a.update_key_in_ring(&mut store, vec![4u8; 32]).unwrap();
    assert_eq!(store.read(&slot_name("PublicKey:10")), Some(vec![2u8; 32]));
    assert_eq!(store.read(&slot_name("PrivateKey:1")), Some(vec![3u8; 32]));
    b.delete_key_from_ring(&mut store).unwrap();
    assert_eq!(store.read(&slot_name("PublicKey:1")), Some(vec![4u8; 32]));
    assert_eq!(store.read(&slot_name("PrivateKey:1")), Some(vec![3u8; 32]));
    assert_eq!(c.get_key(), &vec![3u8; 32]);
    assert!(!store.contains_slot(&slot_name("PublicKey:10")));
    assert!(store.contains_slot(&slot_name("PublicKey:1")));
}

#[test]
fn store_operations_report_what_they_did() {
    let mut store = KeyStore::new();
    let name = slot_name("k");
    assert!(!store.update(&name, vec![1]));
    assert!(!store.invalidate(&name));
    assert!(store.add_key(slot_name("k"), vec![1], 5));
    assert!(!store.add_key(slot_name("k"), vec![2], 6));
    assert_eq!(store.read(&name), Some(vec![1]));
    assert_eq!(store.permissions_of(&name), Some(5));
    assert!(store.update(&name, vec![3]));
    assert_eq!(store.read(&name), Some(vec![3]));
    assert_eq!(store.permissions_of(&name), Some(5));
    assert!(store.invalidate(&name));
    assert_eq!(store.read(&name), None);
    assert_eq!(store.permissions_of(&name), None);
}

#[test]
fn store_key_creates_or_replaces() {
    let mut store = KeyStore::new();
    store_key(&mut store, "SharedCounter:1:2", vec![0, 0, 0, 1]);
    let name = slot_name("SharedCounter:1:2");
    assert_eq!(store.read(&name), Some(vec![0, 0, 0, 1]));
    assert_eq!(store.permissions_of(&name), Some(0x3f3f0100));
    store_key(&mut store, "SharedCounter:1:2", vec![0, 0, 0, 9]);
    assert_eq!(store.read(&name), Some(vec![0, 0, 0, 9]));
}

#[test]
fn random_keys_have_the_requested_size() {
    let mut store = KeyStore::new();
    let key = MyKey::new(&mut store, "k", 32, Some(vec![0u8; 32])).unwrap();
    assert_eq!(key.generate_random_key(0).len(), 0);
    assert_eq!(key.generate_random_key(16).len(), 16);
    let a = key.generate_random_key(32);
    let b = key.generate_random_key(32);
    assert_eq!(a.len(), 32);
    assert_ne!(a, b);
}

use rsvm::hash_table::{is_prime, next_prime, HashTable};
use rsvm::string::{equals_chars, StringTable};
use rsvm::symbol::{hash_utf8, SymbolTable};

#[test]
fn symbol_identity_same_bytes_same_symbol() {
    let mut t = SymbolTable::new();
    let a = t.get_or_insert(b"java/lang/Object");
    let b = t.get_or_insert(b"java/lang/String");
    let c = t.get_or_insert(b"java/lang/Object");
    assert_eq!(a, c);
    assert_ne!(a, b);
    assert_eq!(t.as_bytes(a), b"java/lang/Object");
    assert_eq!(t.len(), 2);
}

#[test]
fn symbol_table_survives_resizing() {
    let mut t = SymbolTable::new();
    let mut ids = Vec::new();
    for i in 0..500 {
        ids.push(t.get_or_insert(format!("sym{}", i).as_bytes()));
    }
    for i in 0..500 {
        assert_eq!(t.get_or_insert(format!("sym{}", i).as_bytes()), ids[i]);
        assert_eq!(t.get(format!("sym{}", i).as_bytes()), Some(ids[i]));
    }
    assert_eq!(t.get(b"missing"), None);
    assert_eq!(t.len(), 500);
}

#[test]
fn symbol_hash_is_fnv_like() {
    assert_eq!(hash_utf8(b""), 0);
    // (0 ^ 'a') * 0x01000193 mod 2^32
    assert_eq!(hash_utf8(b"a"), 97u32.wrapping_mul(0x01000193));
    let h1 = 97u32.wrapping_mul(0x01000193);
    assert_eq!(hash_utf8(b"ab"), (h1 ^ 98).wrapping_mul(0x01000193));
}

#[test]
fn string_interning_gives_canonical_strings() {
    let mut t = StringTable::new();
    let hello: Vec<u16> = "Hello".encode_utf16().collect();
    let world: Vec<u16> = "World".encode_utf16().collect();
    let a = t.intern(&hello);
    let b = t.intern(&world);
    let c = t.intern(&hello);
    assert_eq!(a, c);
    assert_ne!(a, b);
    assert!(equals_chars(t.chars(a), &hello));
    assert_eq!(t.len(), 2);
}

#[test]
fn string_table_keys_distinguish_high_bytes() {
    let mut t = StringTable::new();
    let a = t.intern(&[0x0102u16]);
    let b = t.intern(&[0x0201u16]);
    assert_ne!(a, b);
    assert_eq!(t.intern(&[0x0102u16]), a);
}

#[test]
fn primes() {
    assert!(is_prime(2));
    assert!(is_prime(13));
    assert!(!is_prime(15));
    assert!(!is_prime(1));
    assert_eq!(next_prime(0), 2);
    assert_eq!(next_prime(8), 11);
    assert_eq!(next_prime(13), 13);
    assert_eq!(next_prime(24), 29);
}

#[test]
fn hash_table_starts_empty() {
    let t = HashTable::new();
    assert!(t.capacity() >= 8);
}

#[test]
fn hash_table_lookup_over_an_arena() {
    let keys: Vec<Vec<u8>> = (0..40).map(|i| format!("k{}", i).into_bytes()).collect();
    let hashes: Vec<u32> = keys.iter().map(|k| hash_utf8(k)).collect();
    let mut t = HashTable::new();
    for e in 0..40 {
        t.insert(&hashes, e);
    }
    for e in 0..40 {
        assert_eq!(t.get_value_by_str(&hashes, &keys, &keys[e], hashes[e]), Some(e));
    }
    assert_eq!(t.get_value_by_str(&hashes, &keys, b"zz", hash_utf8(b"zz")), None);
    let mut all = t.foreach_entries();
    all.sort();
    assert_eq!(all, (0..40).collect::<Vec<usize>>());
    assert!(t.capacity() > 40);
}

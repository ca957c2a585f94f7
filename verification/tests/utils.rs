use engine::utils::{hash_tmb, FNV_OFFSET_BASIS, FNV_PRIME};

#[test]
fn hash_of_nothing_is_the_offset_basis() {
    assert_eq!(hash_tmb(String::new()), 2166136261);
    assert_eq!(FNV_OFFSET_BASIS, 0x811c9dc5);
    assert_eq!(FNV_PRIME, 0x01000193);
}

#[test]
fn hash_matches_known_fnv1a_values() {
    assert_eq!(hash_tmb("a".to_string()), 0xe40c292c);
    assert_eq!(hash_tmb("foobar".to_string()), 0xbf9cf968);
}

#[test]
fn hash_of_one_byte_follows_the_formula() {
    let expected = (2166136261u32 ^ (b'p' as u32)).wrapping_mul(16777619);
    assert_eq!(hash_tmb("p".to_string()), expected);
}

#[test]
fn hash_reads_the_bytes_of_the_encoding() {
    let mut expected: u32 = 2166136261;
    for byte in "é~".as_bytes() {
        expected = (expected ^ (*byte as u32)).wrapping_mul(16777619);
    }
    assert_eq!(hash_tmb("é~".to_string()), expected);
}

#[test]
fn hash_tells_seeds_apart() {
    assert_ne!(hash_tmb("pokemon".to_string()), hash_tmb("pokemoN".to_string()));
    assert_eq!(hash_tmb("pokemon".to_string()), hash_tmb("pokemon".to_string()));
}

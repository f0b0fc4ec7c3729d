use universal_devops_converter::hash::fingerprint;

#[test]
fn is_stable_and_hex() {
    let a = fingerprint(&["src/a.rs", "no-unused", "12"]);
    assert_eq!(a.len(), 32);
    assert!(a.chars().all(|c| c.is_ascii_hexdigit()));
    assert_eq!(a, fingerprint(&["src/a.rs", "no-unused", "12"]));
}

#[test]
fn separator_disambiguates_parts() {
    assert_ne!(fingerprint(&["ab", "c"]), fingerprint(&["a", "bc"]));
}

use m3u_core::generate_id;

fn is_hex(s: &str) -> bool {
    s.chars().all(|c| c.is_ascii_hexdigit() && !c.is_ascii_uppercase())
}

#[test]
fn id_of_empty_inputs_is_offset_basis() {
    // FNV-1a of the empty byte sequence is the offset basis.
    assert_eq!(generate_id("", ""), "cbf29ce484222325");
}

#[test]
fn id_of_single_byte() {
    assert_eq!(generate_id("a", ""), "af63dc4c8601ec8c");
    // The identifier hashes the concatenation, so the split does not matter.
    assert_eq!(generate_id("", "a"), "af63dc4c8601ec8c");
}

#[test]
fn id_is_deterministic() {
    let a = generate_id("BBC One", "http://stream.example/bbc1.m3u8");
    let b = generate_id("BBC One", "http://stream.example/bbc1.m3u8");
    assert_eq!(a, b);
    assert_eq!(a, "b33ca7c386933526");
}

#[test]
fn id_is_short_lowercase_hex() {
    for (n, u) in [
        ("", ""),
        ("BBC One", "http://stream.example/bbc1.m3u8"),
        ("x", "y"),
        ("ünïcode", "http://example/ü"),
        ("a very long channel name indeed", "http://example/some/long/path.m3u8"),
    ] {
        let id = generate_id(n, u);
        assert!(id.len() <= 16, "id too long: {}", id);
        assert!(!id.is_empty());
        assert!(is_hex(&id), "not lowercase hex: {}", id);
    }
}

#[test]
fn distinct_inputs_give_distinct_ids_here() {
    let a = generate_id("BBC One", "http://stream.example/bbc1.m3u8");
    let b = generate_id("BBC Two", "http://stream.example/bbc2.m3u8");
    assert_ne!(a, b);
}

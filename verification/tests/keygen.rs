use timetagger_shortcuts::keygen::generate_key;

#[test]
fn test_key_length() {
    let key = generate_key(8);
    assert_eq!(key.len(), 8);
}

#[test]
fn test_key_alphabet() {
    let key = generate_key(8);
    for c in key.chars() {
        assert!(c.is_alphanumeric());
    }
}

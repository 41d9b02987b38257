//! Identifiers.

use agentharbor::EntityId;

#[test]
fn identifiers_are_written_hyphenated_in_lower_case() {
    let id = EntityId { value: 0x0123_4567_89AB_CDEF_0011_2233_4455_6677 };
    assert_eq!(id.text(), "01234567-89ab-cdef-0011-223344556677");
    assert_eq!(EntityId { value: 0 }.text(), "00000000-0000-0000-0000-000000000000");
    assert_eq!(EntityId { value: u128::MAX }.text(), "ffffffff-ffff-ffff-ffff-ffffffffffff");
}

#[test]
fn random_identifiers_are_of_version_four() {
    for _ in 0..64 {
        let text = EntityId::random().text();
        let characters: Vec<char> = text.chars().collect();
        assert_eq!(characters.len(), 36);
        assert_eq!(characters[14], '4');
        assert!(matches!(characters[19], '8' | '9' | 'a' | 'b'));
    }
    assert_ne!(EntityId::random(), EntityId::random());
}

#[test]
fn different_identifiers_have_different_texts() {
    let a = EntityId { value: 0x10 };
    let b = EntityId { value: 0x01 };
    assert_ne!(a.text(), b.text());
}

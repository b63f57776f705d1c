use dexios::format::{read_le16, write_le16, Algorithm, HashAlgorithm, Mode, Version};
use dexios::format::{CHUNK_LEN, FIXED_LEN, FULL_HEADER_LEN, MAX_SLOTS, SEALED_CHUNK_LEN, SLOT_LEN};

#[test]
fn version_tags_are_the_registered_values() {
    assert_eq!(Version::V3.to_tag(), 0x0A01);
    assert_eq!(Version::V4.to_tag(), 0x0B01);
    assert_eq!(Version::V5.to_tag(), 0x0C01);
    assert_eq!(Version::from_tag(0x0A01), Some(Version::V3));
    assert_eq!(Version::from_tag(0x0B01), Some(Version::V4));
    assert_eq!(Version::from_tag(0x0C01), Some(Version::V5));
    assert_eq!(Version::from_tag(0x0D01), None);
    assert_eq!(Version::from_tag(0x010A), None);
    assert_eq!(Version::from_tag(0), None);
}

#[test]
fn algorithm_tags_are_the_registered_values() {
    assert_eq!(Algorithm::Aes256Gcm.to_tag(), 0x0E01);
    assert_eq!(Algorithm::XChaCha20Poly1305.to_tag(), 0x0E02);
    assert_eq!(Algorithm::DeoxysII256.to_tag(), 0x0E03);
    assert_eq!(Algorithm::from_tag(0x0E01), Some(Algorithm::Aes256Gcm));
    assert_eq!(Algorithm::from_tag(0x0E02), Some(Algorithm::XChaCha20Poly1305));
    assert_eq!(Algorithm::from_tag(0x0E03), Some(Algorithm::DeoxysII256));
    assert_eq!(Algorithm::from_tag(0x0E04), None);
    assert_eq!(Algorithm::from_tag(0x0E00), None);
}

#[test]
fn mode_tags_are_the_registered_values() {
    assert_eq!(Mode::Stream.to_tag(), 0x0C01);
    assert_eq!(Mode::Memory.to_tag(), 0x0C02);
    assert_eq!(Mode::from_tag(0x0C01), Some(Mode::Stream));
    assert_eq!(Mode::from_tag(0x0C02), Some(Mode::Memory));
    assert_eq!(Mode::from_tag(0x0C03), None);
}

#[test]
fn hash_tags_are_the_registered_values() {
    assert_eq!(HashAlgorithm::Argon2id.to_tag(), 0xDF01);
    assert_eq!(HashAlgorithm::Blake3Balloon.to_tag(), 0xDF02);
    assert_eq!(HashAlgorithm::from_tag(0xDF01), Some(HashAlgorithm::Argon2id));
    assert_eq!(HashAlgorithm::from_tag(0xDF02), Some(HashAlgorithm::Blake3Balloon));
    assert_eq!(HashAlgorithm::from_tag(0xDF03), None);
    assert_eq!(HashAlgorithm::from_tag(0), None);
}

#[test]
fn tags_are_stored_low_byte_first() {
    assert_eq!(write_le16(0x0A01), (0x01, 0x0A));
    assert_eq!(write_le16(0xDF02), (0x02, 0xDF));
    assert_eq!(read_le16(0x01, 0x0A), 0x0A01);
    assert_eq!(read_le16(0xFF, 0xFF), 0xFFFF);
    assert_eq!(read_le16(0, 0), 0);
    for t in [0u16, 1, 255, 256, 0x0C01, 0xFFFF] {
        let (lo, hi) = write_le16(t);
        assert_eq!(read_le16(lo, hi), t);
    }
}

#[test]
fn nonce_lengths_follow_the_algorithm_and_the_mode() {
    assert_eq!(Algorithm::Aes256Gcm.nonce_len(), 12);
    assert_eq!(Algorithm::XChaCha20Poly1305.nonce_len(), 24);
    assert_eq!(Algorithm::DeoxysII256.nonce_len(), 15);
    assert_eq!(Algorithm::Aes256Gcm.stored_nonce_len(Mode::Stream), 8);
    assert_eq!(Algorithm::XChaCha20Poly1305.stored_nonce_len(Mode::Stream), 20);
    assert_eq!(Algorithm::DeoxysII256.stored_nonce_len(Mode::Stream), 11);
    assert_eq!(Algorithm::Aes256Gcm.stored_nonce_len(Mode::Memory), 12);
    assert_eq!(Algorithm::XChaCha20Poly1305.stored_nonce_len(Mode::Memory), 24);
    assert_eq!(Algorithm::DeoxysII256.stored_nonce_len(Mode::Memory), 15);
}

#[test]
fn only_v3_lacks_a_keyslot_table() {
    assert!(!Version::V3.uses_keyslots());
    assert!(Version::V4.uses_keyslots());
    assert!(Version::V5.uses_keyslots());
}

#[test]
fn sizes_add_up() {
    assert_eq!(FIXED_LEN, 64);
    assert_eq!(SLOT_LEN, 156);
    assert_eq!(MAX_SLOTS, 4);
    assert_eq!(FULL_HEADER_LEN, FIXED_LEN + MAX_SLOTS * SLOT_LEN);
    assert_eq!(CHUNK_LEN, 1024 * 1024);
    assert_eq!(SEALED_CHUNK_LEN, CHUNK_LEN + 16);
}

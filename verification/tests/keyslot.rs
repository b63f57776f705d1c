use dexios::error::Error;
use dexios::file::{decrypt_with, encrypt_with};
use dexios::format::{Algorithm, HashAlgorithm, Mode, Version};
use dexios::header::{Header, Keyslot};
use dexios::keyslot::{
    add_key, add_key_with, change_key, change_key_with, del_key, del_key_with, first_empty_slot,
    open_slot, populated_count, unwrap_key, wrap_key,
};
use dexios::primitives::{derive_key, open, seal, Costs};
use dexios::stream::encrypt_stream;

const MK: [u8; 32] = [0x4D; 32];

fn light() -> Costs {
    Costs {
        argon2_memory_kib: 64,
        argon2_passes: 1,
        argon2_lanes: 1,
        balloon_space: 16,
        balloon_rounds: 1,
    }
}

fn slot_for(secret: &[u8], seed: u8) -> Keyslot {
    wrap_key(&light(), secret, &[seed; 16], &[seed ^ 0xFF; 24], &MK)
}

fn header_with(keyslots: Vec<Option<Keyslot>>) -> Header {
    Header {
        version: Version::V5,
        algorithm: Algorithm::Aes256Gcm,
        mode: Mode::Stream,
        nonce: vec![5u8; 8],
        salt: vec![],
        keyslots,
    }
}

fn file_with(keyslots: Vec<Option<Keyslot>>, pt: &[u8]) -> Vec<u8> {
    let mut file = header_with(keyslots).serialize();
    let body = encrypt_stream(Algorithm::Aes256Gcm, &MK, &[5u8; 8], &file, pt).unwrap();
    file.extend_from_slice(&body);
    file
}

fn slots_of(file: &[u8]) -> Vec<Option<Keyslot>> {
    Header::deserialize(file).unwrap().0.keyslots
}

#[test]
fn a_keyslot_seals_the_master_key_under_the_derived_key() {
    let slot = slot_for(b"a", 1);
    assert_eq!(slot.hash_algorithm, HashAlgorithm::Argon2id);
    assert_eq!(slot.salt, vec![1u8; 16]);
    assert_eq!(slot.nonce, vec![0xFEu8; 24]);
    assert_eq!(slot.encrypted_key.len(), 48);
    let kek = derive_key(&light(), HashAlgorithm::Argon2id, b"a", &[1u8; 16]);
    let sealed = seal(Algorithm::XChaCha20Poly1305, &kek, &[0xFEu8; 24], b"", &MK).unwrap();
    assert_eq!(slot.encrypted_key, sealed);
    assert_eq!(
        open(Algorithm::XChaCha20Poly1305, &kek, &slot.nonce, b"", &slot.encrypted_key),
        Some(MK.to_vec())
    );
}

#[test]
fn a_keyslot_opens_under_its_secret_only() {
    let slot = slot_for(b"a", 1);
    assert_eq!(open_slot(&light(), &slot, b"a"), Some(MK.to_vec()));
    assert_eq!(open_slot(&light(), &slot, b"b"), None);
    assert_eq!(open_slot(&light(), &slot, b""), None);
    let heavier = Costs { argon2_passes: 2, ..light() };
    assert_eq!(open_slot(&heavier, &slot, b"a"), None);
}

#[test]
fn a_keyslot_that_was_hashed_with_balloon_opens_too() {
    let kek = derive_key(&light(), HashAlgorithm::Blake3Balloon, b"a", &[1u8; 16]);
    let slot = Keyslot {
        hash_algorithm: HashAlgorithm::Blake3Balloon,
        encrypted_key: seal(Algorithm::XChaCha20Poly1305, &kek, &[2u8; 24], b"", &MK).unwrap(),
        nonce: vec![2u8; 24],
        salt: vec![1u8; 16],
    };
    assert_eq!(open_slot(&light(), &slot, b"a"), Some(MK.to_vec()));
    let as_argon = Keyslot { hash_algorithm: HashAlgorithm::Argon2id, ..slot.clone() };
    assert_eq!(open_slot(&light(), &as_argon, b"a"), None);
    let file = file_with(vec![Some(slot), None, None, None], b"text");
    assert_eq!(decrypt_with(&light(), &file, b"a"), Ok(b"text".to_vec()));
}

#[test]
fn the_first_keyslot_that_opens_is_taken() {
    let header = header_with(vec![
        Some(slot_for(b"a", 1)),
        None,
        Some(slot_for(b"b", 2)),
        Some(slot_for(b"a", 3)),
    ]);
    assert_eq!(unwrap_key(&light(), &header, b"a"), Some((0, MK.to_vec())));
    assert_eq!(unwrap_key(&light(), &header, b"b"), Some((2, MK.to_vec())));
    assert_eq!(unwrap_key(&light(), &header, b"c"), None);
    assert_eq!(unwrap_key(&light(), &header_with(vec![]), b"a"), None);
    assert_eq!(unwrap_key(&light(), &header_with(vec![None, None]), b"a"), None);
}

#[test]
fn empty_and_populated_keyslots_are_counted() {
    let header = header_with(vec![Some(slot_for(b"a", 1)), None, Some(slot_for(b"b", 2)), None]);
    assert_eq!(first_empty_slot(&header), Some(1));
    assert_eq!(populated_count(&header), 2);
    let full = header_with(vec![Some(slot_for(b"a", 1)), Some(slot_for(b"b", 2))]);
    assert_eq!(first_empty_slot(&full), None);
    assert_eq!(populated_count(&full), 2);
    assert_eq!(first_empty_slot(&header_with(vec![])), None);
    assert_eq!(populated_count(&header_with(vec![None, None, None, None])), 0);
    assert_eq!(first_empty_slot(&header_with(vec![None, None, None, None])), Some(0));
}

#[test]
fn a_file_opens_with_either_of_its_two_secrets() {
    let file = file_with(
        vec![Some(slot_for(b"a", 1)), Some(slot_for(b"b", 2)), None, None],
        b"plain",
    );
    assert_eq!(decrypt_with(&light(), &file, b"b"), Ok(b"plain".to_vec()));
    assert_eq!(decrypt_with(&light(), &file, b"a"), Ok(b"plain".to_vec()));
    assert_eq!(decrypt_with(&light(), &file, b"c"), Err(Error::WrongPassword));
}

#[test]
fn an_added_key_fills_the_first_empty_keyslot() {
    let before = file_with(vec![Some(slot_for(b"a", 1)), None, None, None], b"plain");
    let mut file = before.clone();
    assert_eq!(add_key_with(&light(), &mut file, b"a", b"b", &[8u8; 16], &[9u8; 24]), Ok(()));
    assert_eq!(file.len(), before.len());
    assert_eq!(&file[..220], &before[..220]);
    assert_ne!(&file[220..376], &before[220..376]);
    assert_eq!(&file[376..], &before[376..]);
    let slots = slots_of(&file);
    assert_eq!(slots[0], Some(slot_for(b"a", 1)));
    assert_eq!(slots[1], Some(wrap_key(&light(), b"b", &[8u8; 16], &[9u8; 24], &MK)));
    assert_eq!(slots[2], None);
    assert_eq!(slots[3], None);
    let header = Header::deserialize(&file).unwrap().0;
    assert_eq!(unwrap_key(&light(), &header, b"a"), Some((0, MK.to_vec())));
    assert_eq!(unwrap_key(&light(), &header, b"b"), Some((1, MK.to_vec())));
    assert_eq!(unwrap_key(&light(), &header, b"c"), None);
}

#[test]
fn an_added_key_goes_into_a_gap() {
    let mut file = file_with(
        vec![None, Some(slot_for(b"a", 1)), None, Some(slot_for(b"z", 2))],
        b"",
    );
    assert_eq!(add_key_with(&light(), &mut file, b"a", b"b", &[8u8; 16], &[9u8; 24]), Ok(()));
    let header = Header::deserialize(&file).unwrap().0;
    assert_eq!(unwrap_key(&light(), &header, b"b"), Some((0, MK.to_vec())));
    assert_eq!(unwrap_key(&light(), &header, b"a"), Some((1, MK.to_vec())));
    assert_eq!(first_empty_slot(&header), Some(2));
}

#[test]
fn a_key_cannot_be_added_to_four_populated_keyslots() {
    let before = file_with(
        vec![
            Some(slot_for(b"a", 1)),
            Some(slot_for(b"b", 2)),
            Some(slot_for(b"c", 3)),
            Some(slot_for(b"d", 4)),
        ],
        b"plain",
    );
    let mut file = before.clone();
    let r = add_key_with(&light(), &mut file, b"a", b"e", &[8u8; 16], &[9u8; 24]);
    assert_eq!(r, Err(Error::MaxSlots));
    assert_eq!(file, before);
    let r = add_key_with(&light(), &mut file, b"wrong", b"e", &[8u8; 16], &[9u8; 24]);
    assert_eq!(r, Err(Error::MaxSlots));
}

#[test]
fn a_header_without_a_keyslot_table_has_no_room_for_a_key() {
    let v3 = Header {
        version: Version::V3,
        algorithm: Algorithm::Aes256Gcm,
        mode: Mode::Stream,
        nonce: vec![5u8; 8],
        salt: vec![6u8; 16],
        keyslots: vec![],
    };
    let mut file = v3.serialize();
    let r = add_key_with(&light(), &mut file, b"a", b"b", &[8u8; 16], &[9u8; 24]);
    assert_eq!(r, Err(Error::MaxSlots));
    assert_eq!(del_key_with(&light(), &mut file, b"a"), Err(Error::WrongPassword));
}

#[test]
fn key_operations_need_the_right_secret_and_a_header() {
    let before = file_with(vec![Some(slot_for(b"a", 1)), Some(slot_for(b"b", 2)), None], b"");
    let mut file = before.clone();
    let r = add_key_with(&light(), &mut file, b"x", b"c", &[8u8; 16], &[9u8; 24]);
    assert_eq!(r, Err(Error::WrongPassword));
    let r = change_key_with(&light(), &mut file, b"x", b"c", &[8u8; 16], &[9u8; 24]);
    assert_eq!(r, Err(Error::WrongPassword));
    assert_eq!(del_key_with(&light(), &mut file, b"x"), Err(Error::WrongPassword));
    assert_eq!(file, before);
    let mut junk = vec![0u8; 700];
    let r = add_key_with(&light(), &mut junk, b"a", b"c", &[8u8; 16], &[9u8; 24]);
    assert_eq!(r, Err(Error::InvalidFormat));
    let r = change_key_with(&light(), &mut junk, b"a", b"c", &[8u8; 16], &[9u8; 24]);
    assert_eq!(r, Err(Error::InvalidFormat));
    assert_eq!(del_key_with(&light(), &mut junk, b"a"), Err(Error::InvalidFormat));
    assert_eq!(junk, vec![0u8; 700]);
}

#[test]
fn a_changed_key_replaces_the_keyslot_of_the_old_secret() {
    let before = file_with(vec![Some(slot_for(b"a", 1)), Some(slot_for(b"b", 2)), None, None], b"");
    let mut file = before.clone();
    assert_eq!(change_key_with(&light(), &mut file, b"b", b"c", &[8u8; 16], &[9u8; 24]), Ok(()));
    assert_eq!(&file[..220], &before[..220]);
    assert_eq!(&file[376..], &before[376..]);
    let header = Header::deserialize(&file).unwrap().0;
    assert_eq!(unwrap_key(&light(), &header, b"a"), Some((0, MK.to_vec())));
    assert_eq!(unwrap_key(&light(), &header, b"b"), None);
    assert_eq!(unwrap_key(&light(), &header, b"c"), Some((1, MK.to_vec())));
    assert_eq!(populated_count(&header), 2);
}

#[test]
fn the_last_keyslot_cannot_be_deleted() {
    let before = file_with(vec![None, Some(slot_for(b"a", 1)), None, None], b"plain");
    let mut file = before.clone();
    assert_eq!(del_key_with(&light(), &mut file, b"a"), Err(Error::LastSlot));
    assert_eq!(file, before);
    assert_eq!(decrypt_with(&light(), &file, b"a"), Ok(b"plain".to_vec()));
}

#[test]
fn deleting_one_of_two_keys_leaves_the_other_working() {
    let before = file_with(vec![Some(slot_for(b"a", 1)), Some(slot_for(b"b", 2)), None, None], b"");
    let mut file = before.clone();
    assert_eq!(del_key_with(&light(), &mut file, b"a"), Ok(()));
    assert_eq!(&file[..64], &before[..64]);
    assert_eq!(&file[64..220], &[0u8; 156][..]);
    assert_eq!(&file[220..], &before[220..]);
    let header = Header::deserialize(&file).unwrap().0;
    assert_eq!(unwrap_key(&light(), &header, b"b"), Some((1, MK.to_vec())));
    assert_eq!(unwrap_key(&light(), &header, b"a"), None);
    assert_eq!(populated_count(&header), 1);
    assert_eq!(del_key_with(&light(), &mut file, b"b"), Err(Error::LastSlot));
}

#[test]
fn the_body_is_bound_to_the_keyslots_it_was_sealed_with() {
    let mut file = encrypt_with(
        &light(),
        b"a",
        b"plain",
        Algorithm::Aes256Gcm,
        &MK,
        &[5u8; 8],
        &[1u8; 16],
        &[2u8; 24],
    );
    assert_eq!(decrypt_with(&light(), &file, b"a"), Ok(b"plain".to_vec()));
    assert_eq!(add_key_with(&light(), &mut file, b"a", b"b", &[8u8; 16], &[9u8; 24]), Ok(()));
    assert_eq!(decrypt_with(&light(), &file, b"a"), Err(Error::AuthenticationFailure));
    assert_eq!(decrypt_with(&light(), &file, b"b"), Err(Error::AuthenticationFailure));
    assert_eq!(decrypt_with(&light(), &file, b"c"), Err(Error::WrongPassword));
}

#[test]
fn key_operations_at_standard_costs_reject_before_they_derive() {
    let full = file_with(
        vec![
            Some(slot_for(b"a", 1)),
            Some(slot_for(b"b", 2)),
            Some(slot_for(b"c", 3)),
            Some(slot_for(b"d", 4)),
        ],
        b"",
    );
    let mut file = full.clone();
    assert_eq!(add_key(&mut file, b"a", b"e"), Err(Error::MaxSlots));
    assert_eq!(file, full);
    let mut junk = vec![1u8; 700];
    assert_eq!(add_key(&mut junk, b"a", b"e"), Err(Error::InvalidFormat));
    assert_eq!(change_key(&mut junk, b"a", b"e"), Err(Error::InvalidFormat));
    assert_eq!(del_key(&mut junk, b"a"), Err(Error::InvalidFormat));
    assert_eq!(junk, vec![1u8; 700]);
    let mut empty = header_with(vec![None, None, None, None]).serialize();
    assert_eq!(change_key(&mut empty, b"a", b"e"), Err(Error::WrongPassword));
    assert_eq!(del_key(&mut empty, b"a"), Err(Error::WrongPassword));
    assert_eq!(add_key(&mut empty, b"a", b"e"), Err(Error::WrongPassword));
}

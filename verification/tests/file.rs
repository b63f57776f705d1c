use dexios::error::Error;
use dexios::file::{
    decrypt, decrypt_with, encrypt, encrypt_with, fresh_header, start_decrypt, start_decrypt_with,
    start_encrypt, start_encrypt_with,
};
use dexios::format::{Algorithm, HashAlgorithm, Mode, Version};
use dexios::header::{Header, Keyslot};
use dexios::keyslot::wrap_key;
use dexios::primitives::{derive_key, seal, Costs};
use dexios::stream::encrypt_stream;

const KEK_HUNTER2: [u8; 32] = [
    60, 164, 48, 94, 22, 55, 135, 82, 132, 80, 128, 198, 162, 59, 17, 160, 190, 155, 97, 249, 156,
    48, 210, 126, 57, 20, 57, 97, 150, 240, 255, 57,
];

fn light() -> Costs {
    Costs {
        argon2_memory_kib: 64,
        argon2_passes: 1,
        argon2_lanes: 1,
        balloon_space: 16,
        balloon_rounds: 1,
    }
}

fn light_file(secret: &[u8], pt: &[u8], alg: Algorithm) -> Vec<u8> {
    let nonce = vec![2u8; alg.nonce_len() - 4];
    encrypt_with(&light(), secret, pt, alg, &[1u8; 32], &nonce, &[3u8; 16], &[4u8; 24])
}

#[test]
fn an_empty_file_encrypts_to_the_header_and_one_tag() {
    let file = light_file(b"hunter2", b"", Algorithm::XChaCha20Poly1305);
    assert_eq!(file.len(), 688 + 16);
    assert_eq!(decrypt_with(&light(), &file, b"hunter2"), Ok(vec![]));
}

#[test]
fn encrypt_writes_a_v5_stream_header_with_one_keyslot() {
    let file = encrypt(b"hunter2", b"", Algorithm::XChaCha20Poly1305);
    assert_eq!(file.len(), 688 + 16);
    let (header, aad) = Header::deserialize(&file).unwrap();
    assert_eq!(aad.len(), 688);
    assert_eq!(header.version, Version::V5);
    assert_eq!(header.algorithm, Algorithm::XChaCha20Poly1305);
    assert_eq!(header.mode, Mode::Stream);
    assert_eq!(header.nonce.len(), 20);
    assert_eq!(header.keyslots.len(), 4);
    let slot = header.keyslots[0].clone().unwrap();
    assert_eq!(slot.hash_algorithm, HashAlgorithm::Argon2id);
    assert!(slot.is_wf());
    assert_eq!(&header.keyslots[1..], &[None, None, None]);
}

#[test]
fn decrypt_derives_the_key_at_standard_costs() {
    let slot = Keyslot {
        hash_algorithm: HashAlgorithm::Argon2id,
        encrypted_key: seal(Algorithm::XChaCha20Poly1305, &KEK_HUNTER2, &[4u8; 24], b"", &[1u8; 32])
            .unwrap(),
        nonce: vec![4u8; 24],
        salt: vec![7u8; 16],
    };
    let mut file = fresh_header(Algorithm::XChaCha20Poly1305, &[2u8; 20], slot).serialize();
    let body =
        encrypt_stream(Algorithm::XChaCha20Poly1305, &[1u8; 32], &[2u8; 20], &file, b"").unwrap();
    file.extend_from_slice(&body);
    assert_eq!(file.len(), 688 + 16);
    assert_eq!(decrypt(&file, b"hunter2"), Ok(vec![]));
}

#[test]
fn decrypt_rejects_what_is_not_a_file() {
    assert_eq!(decrypt(&[], b"hunter2"), Err(Error::InvalidFormat));
    assert_eq!(decrypt(&[0u8; 1000], b"hunter2"), Err(Error::InvalidFormat));
    assert_eq!(decrypt(b"DX", b"hunter2"), Err(Error::InvalidFormat));
}

#[test]
fn encrypt_with_is_the_header_followed_by_the_stream() {
    let file = light_file(b"pw", b"some text", Algorithm::DeoxysII256);
    let slot = wrap_key(&light(), b"pw", &[3u8; 16], &[4u8; 24], &[1u8; 32]);
    let head = fresh_header(Algorithm::DeoxysII256, &[2u8; 11], slot).serialize();
    assert_eq!(&file[..688], &head[..]);
    let body =
        encrypt_stream(Algorithm::DeoxysII256, &[1u8; 32], &[2u8; 11], &head, b"some text").unwrap();
    assert_eq!(&file[688..], &body[..]);
}

#[test]
fn all_byte_values_round_trip_under_aes() {
    let pt: Vec<u8> = (0..=255).collect();
    let file = light_file(b"pw", &pt, Algorithm::Aes256Gcm);
    assert_eq!(file.len(), 688 + 256 + 16);
    assert_eq!(decrypt_with(&light(), &file, b"pw"), Ok(pt));
    let mut bent = file.clone();
    bent[688 + 100] ^= 0xFF;
    assert_eq!(decrypt_with(&light(), &bent, b"pw"), Err(Error::AuthenticationFailure));
}

#[test]
fn a_file_round_trips_under_each_cipher() {
    for alg in [Algorithm::Aes256Gcm, Algorithm::XChaCha20Poly1305, Algorithm::DeoxysII256] {
        let pt = vec![0x5Au8; 70_000];
        let file = light_file(b"pw", &pt, alg);
        assert_eq!(file.len(), 688 + 70_000 + 16);
        assert_eq!(decrypt_with(&light(), &file, b"pw"), Ok(pt));
    }
}

#[test]
fn a_flipped_bit_is_noticed_wherever_it_is() {
    let file = light_file(b"pw", b"some text", Algorithm::XChaCha20Poly1305);
    let flipped = |at: usize, bit: u8| {
        let mut bent = file.clone();
        bent[at] ^= 1 << bit;
        decrypt_with(&light(), &bent, b"pw")
    };
    assert_eq!(flipped(0, 0), Err(Error::InvalidFormat));
    assert_eq!(flipped(3, 7), Err(Error::InvalidFormat));
    assert_eq!(flipped(8, 0), Err(Error::AuthenticationFailure));
    assert_eq!(flipped(40, 3), Err(Error::AuthenticationFailure));
    assert_eq!(flipped(64, 0), Err(Error::WrongPassword));
    assert_eq!(flipped(64 + 60, 0), Err(Error::WrongPassword));
    assert_eq!(flipped(64 + 80, 0), Err(Error::WrongPassword));
    assert_eq!(flipped(64 + 89, 0), Err(Error::InvalidFormat));
    assert_eq!(flipped(64 + 100, 0), Err(Error::AuthenticationFailure));
    assert_eq!(flipped(300, 0), Err(Error::InvalidFormat));
    for at in 688..file.len() {
        for bit in 0..8 {
            assert_eq!(flipped(at, bit), Err(Error::AuthenticationFailure));
        }
    }
}

#[test]
fn the_wrong_secret_opens_no_keyslot() {
    let file = light_file(b"pw", b"some text", Algorithm::Aes256Gcm);
    assert_eq!(decrypt_with(&light(), &file, b"pW"), Err(Error::WrongPassword));
    assert_eq!(decrypt_with(&light(), &file, b""), Err(Error::WrongPassword));
    let heavier = Costs { argon2_memory_kib: 128, ..light() };
    assert_eq!(decrypt_with(&heavier, &file, b"pw"), Err(Error::WrongPassword));
}

#[test]
fn a_header_without_its_keyslots_opens_nothing() {
    let file = light_file(b"pw", b"some text", Algorithm::Aes256Gcm);
    assert_eq!(decrypt_with(&light(), &file[..64], b"pw"), Err(Error::WrongPassword));
}

#[test]
fn a_file_that_was_cut_short_does_not_decrypt() {
    let file = light_file(b"pw", b"some text", Algorithm::Aes256Gcm);
    assert_eq!(
        decrypt_with(&light(), &file[..file.len() - 1], b"pw"),
        Err(Error::AuthenticationFailure)
    );
    assert_eq!(decrypt_with(&light(), &file[..688], b"pw"), Err(Error::AuthenticationFailure));
}

#[test]
fn a_v3_file_is_opened_with_the_key_that_its_salt_derives() {
    let header = Header {
        version: Version::V3,
        algorithm: Algorithm::XChaCha20Poly1305,
        mode: Mode::Stream,
        nonce: vec![6u8; 20],
        salt: vec![9u8; 16],
        keyslots: vec![],
    };
    let key = derive_key(&light(), HashAlgorithm::Argon2id, b"old", &[9u8; 16]);
    let mut file = header.serialize();
    let body = encrypt_stream(Algorithm::XChaCha20Poly1305, &key, &[6u8; 20], &file, b"legacy");
    file.extend_from_slice(&body.unwrap());
    assert_eq!(file.len(), 64 + 6 + 16);
    assert_eq!(decrypt_with(&light(), &file, b"old"), Ok(b"legacy".to_vec()));
    assert_eq!(decrypt_with(&light(), &file, b"new"), Err(Error::AuthenticationFailure));
}

#[test]
fn a_memory_mode_body_is_one_sealed_message() {
    let slot = wrap_key(&light(), b"pw", &[3u8; 16], &[4u8; 24], &[1u8; 32]);
    let header = Header {
        version: Version::V4,
        algorithm: Algorithm::Aes256Gcm,
        mode: Mode::Memory,
        nonce: vec![6u8; 12],
        salt: vec![],
        keyslots: vec![Some(slot), None, None, None],
    };
    let mut file = header.serialize();
    let body = seal(Algorithm::Aes256Gcm, &[1u8; 32], &[6u8; 12], &file, b"in one piece").unwrap();
    file.extend_from_slice(&body);
    assert_eq!(decrypt_with(&light(), &file, b"pw"), Ok(b"in one piece".to_vec()));
    let last = file.len() - 1;
    file[last] ^= 1;
    assert_eq!(decrypt_with(&light(), &file, b"pw"), Err(Error::AuthenticationFailure));
}

#[test]
fn a_file_can_be_written_and_read_piece_by_piece() {
    let pt: Vec<u8> = (0..1_048_576 + 5000).map(|i| (i % 253) as u8).collect();
    let (head, mut sealer) = start_encrypt_with(
        &light(),
        b"pw",
        Algorithm::XChaCha20Poly1305,
        &[1u8; 32],
        &[2u8; 20],
        &[3u8; 16],
        &[4u8; 24],
    );
    assert_eq!(head.len(), 688);
    let mut file = head.clone();
    file.extend(sealer.push(&pt[..1_048_576]).unwrap());
    file.extend(sealer.push(&pt[1_048_576..]).unwrap());
    assert!(sealer.is_finished());
    assert_eq!(file, light_file(b"pw", &pt, Algorithm::XChaCha20Poly1305));

    let (body_at, mode, mut opener) = start_decrypt_with(&light(), &file[..688], b"pw").unwrap();
    assert_eq!(body_at, 688);
    assert_eq!(mode, Mode::Stream);
    let mut back = opener.push(&file[688..688 + 1_048_592]).unwrap();
    back.extend(opener.push(&file[688 + 1_048_592..]).unwrap());
    assert!(opener.is_finished());
    assert_eq!(back, pt);
}

#[test]
fn starting_to_decrypt_fails_as_decrypting_does() {
    let file = light_file(b"pw", b"text", Algorithm::Aes256Gcm);
    assert_eq!(start_decrypt_with(&light(), &file, b"no").err(), Some(Error::WrongPassword));
    assert_eq!(start_decrypt_with(&light(), &file[..60], b"pw").err(), Some(Error::InvalidFormat));
    assert_eq!(start_decrypt(&[0u8; 688], b"pw").err(), Some(Error::InvalidFormat));
    let (body_at, _, mut opener) = start_decrypt_with(&light(), &file, b"pw").unwrap();
    assert_eq!(body_at, 688);
    assert_eq!(opener.push(&file[688..]), Some(b"text".to_vec()));
}

#[test]
fn start_encrypt_writes_a_header_that_its_stream_is_bound_to() {
    let (head, mut sealer) = start_encrypt(b"hunter2", Algorithm::Aes256Gcm);
    let (header, aad) = Header::deserialize(&head).unwrap();
    assert_eq!(aad, head);
    assert_eq!(header.version, Version::V5);
    assert_eq!(header.algorithm, Algorithm::Aes256Gcm);
    assert_eq!(header.mode, Mode::Stream);
    assert_eq!(header.nonce.len(), 8);
    let sealed = sealer.push(b"text").unwrap();
    assert_eq!(sealed.len(), 20);
    assert!(sealer.is_finished());
}

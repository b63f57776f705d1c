//! Whole files: a header followed by the sealed body.
//!
//! To encrypt, a random master key is sealed into the first keyslot of a new
//! V5 header for the secret, and the plaintext is sealed as a stream under
//! the master key, with the bytes of the header as associated data. To
//! decrypt, the header is read, the master key is unwrapped with the secret,
//! and the body is opened with the bytes of the header, as they were read, as
//! associated data.

use crate::bytes::{append, copy_range};
use crate::error::Error;
use crate::format::{Algorithm, HashAlgorithm, Mode, Version, CHUNK_LEN};
use crate::header::{
    header_len, lemma_parse_serialized, lemma_slots_bytes, parse_header, Header, HeaderView,
    Keyslot, KeyslotView,
};
use crate::keyslot::{slot_opens, unwrap_key, unwrapped, wrap_key, wrapped};
use crate::primitives::{
    derive_key, derived, open, open_spec, random_key, random_nonce, random_salt, wipe, Costs,
    MAX_INPUT_LEN,
};
use crate::stream::{
    decrypt_chunks, decrypt_stream, encrypt_chunks, encrypt_stream, prefixed, sealed_len, Opener,
    Sealer,
};
use vstd::prelude::*;
use vstd::slice::slice_subrange;

verus! {

/// The header of a newly encrypted file: version V5, stream mode, and four
/// keyslots of which the first is populated.
pub open spec fn new_header(alg: Algorithm, nonce: Seq<u8>, slot: KeyslotView) -> HeaderView {
    HeaderView {
        version: Version::V5,
        algorithm: alg,
        mode: Mode::Stream,
        nonce,
        salt: Seq::empty(),
        keyslots: seq![Some(slot), None, None, None],
    }
}

/// The bytes of the header of a newly encrypted file, whose first keyslot
/// seals the master key for the secret.
pub open spec fn header_spec(
    costs: Costs,
    secret: Seq<u8>,
    alg: Algorithm,
    mk: Seq<u8>,
    nonce: Seq<u8>,
    salt: Seq<u8>,
    slot_nonce: Seq<u8>,
) -> Seq<u8> {
    new_header(alg, nonce, wrapped(costs, secret, salt, slot_nonce, mk)).to_bytes()
}

/// The file that [`encrypt_with`] writes: the header, then the plaintext
/// sealed as a stream under the master key, with the header as associated
/// data.
pub open spec fn encrypt_spec(
    costs: Costs,
    secret: Seq<u8>,
    pt: Seq<u8>,
    alg: Algorithm,
    mk: Seq<u8>,
    nonce: Seq<u8>,
    salt: Seq<u8>,
    slot_nonce: Seq<u8>,
) -> Option<Seq<u8>> {
    let head = header_spec(costs, secret, alg, mk, nonce, salt, slot_nonce);
    prefixed(head, encrypt_chunks(alg, mk, nonce, head, pt, 0))
}

/// The key of the body: the master key that the secret unwraps from the
/// keyslots, or, for a V3 header, the key that Argon2id derives from the
/// secret and the salt of the header.
pub open spec fn body_key(costs: Costs, h: HeaderView, secret: Seq<u8>) -> Option<Seq<u8>> {
    if h.version.has_keyslots() {
        match unwrapped(costs, h.keyslots, secret) {
            Some((_, mk)) => Some(mk),
            None => None,
        }
    } else {
        derived(costs, HashAlgorithm::Argon2id, secret, h.salt)
    }
}

/// The plaintext of a body: in stream mode that of its chunks, in memory
/// mode that of the one sealed message that the body is.
pub open spec fn open_body(h: HeaderView, key: Seq<u8>, aad: Seq<u8>, body: Seq<u8>) -> Option<
    Seq<u8>,
> {
    match h.mode {
        Mode::Stream => decrypt_chunks(h.algorithm, key, h.nonce, aad, body, 0),
        Mode::Memory => open_spec(h.algorithm, key, h.nonce, aad, body),
    }
}

/// What [`decrypt_with`] returns: the plaintext of the body, opened under
/// the key that the secret yields, with the bytes of the header as they
/// stand in the file as associated data. `InvalidFormat` where the file
/// does not start with a header, `WrongPassword` where the secret yields no
/// key, `AuthenticationFailure` where the body does not open.
pub open spec fn decrypt_spec(costs: Costs, file: Seq<u8>, secret: Seq<u8>) -> Result<
    Seq<u8>,
    Error,
> {
    match parse_header(file) {
        None => Err(Error::InvalidFormat),
        Some(h) => match body_key(costs, h, secret) {
            None => Err(Error::WrongPassword),
            Some(key) => {
                let n = header_len(file) as int;
                match open_body(h, key, file.subrange(0, n), file.subrange(n, file.len() as int)) {
                    Some(pt) => Ok(pt),
                    None => Err(Error::AuthenticationFailure),
                }
            },
        },
    }
}

/// The header of a newly encrypted file.
pub fn fresh_header(alg: Algorithm, nonce: &[u8], slot: Keyslot) -> (header: Header)
    requires
        nonce@.len() == alg.header_nonce_len(Mode::Stream),
        slot@.wf(),
    ensures
        header@ == new_header(alg, nonce@, slot@),
        header@.wf(),
{
    let ghost slot_view = slot@;
    let mut keyslots: Vec<Option<Keyslot>> = Vec::new();
    keyslots.push(Some(slot));
    keyslots.push(None);
    keyslots.push(None);
    keyslots.push(None);
    assert(nonce@.subrange(0, nonce@.len() as int) =~= nonce@);
    let header = Header {
        version: Version::V5,
        algorithm: alg,
        mode: Mode::Stream,
        nonce: copy_range(nonce, 0, nonce.len()),
        salt: Vec::new(),
        keyslots,
    };
    assert(header@.keyslots =~= seq![Some(slot_view), None, None, None]);
    header
}

/// A new header that is followed by a stream which opens, under the master
/// key and with the header as associated data, to a plaintext, is a file
/// that decrypts to that plaintext with every secret that opens the keyslot
/// to the master key.
pub proof fn lemma_encrypted_decrypts(
    costs: Costs,
    secret: Seq<u8>,
    pt: Seq<u8>,
    alg: Algorithm,
    mk: Seq<u8>,
    nonce: Seq<u8>,
    slot: KeyslotView,
    body: Seq<u8>,
)
    requires
        nonce.len() == alg.header_nonce_len(Mode::Stream),
        slot.wf(),
        slot_opens(costs, slot, secret) == Some(mk),
        decrypt_chunks(alg, mk, nonce, new_header(alg, nonce, slot).to_bytes(), body, 0) == Some(
            pt,
        ),
    ensures
        new_header(alg, nonce, slot).to_bytes().len() == 688,
        decrypt_spec(costs, new_header(alg, nonce, slot).to_bytes() + body, secret) == Ok::<
            Seq<u8>,
            Error,
        >(pt),
{
    let h = new_header(alg, nonce, slot);
    let head = h.to_bytes();
    let file = head + body;
    assert(h.wf());
    lemma_parse_serialized(h, body);
    lemma_slots_bytes(h.keyslots);
    assert(head.len() == 688);
    assert(file.subrange(688, file.len() as int) =~= body);
    assert(file.subrange(0, 688) =~= head);
    assert(unwrapped(costs, h.keyslots, secret) == Some((0nat, mk)));
    assert(body_key(costs, h, secret) == Some(mk));
    assert(open_body(h, mk, head, body) == Some(pt));
}

/// Encrypts a plaintext for a secret with the given master key, nonces and
/// salt. The file decrypts again, with the secret, to the plaintext.
pub fn encrypt_with(
    costs: &Costs,
    secret: &[u8],
    pt: &[u8],
    alg: Algorithm,
    mk: &[u8],
    nonce: &[u8],
    salt: &[u8],
    slot_nonce: &[u8],
) -> (out: Vec<u8>)
    requires
        costs.valid(),
        secret@.len() <= MAX_INPUT_LEN,
        pt@.len() / (CHUNK_LEN as nat) <= u32::MAX,
        mk@.len() == 32,
        nonce@.len() == alg.header_nonce_len(Mode::Stream),
        salt@.len() == 16,
        slot_nonce@.len() == 24,
    ensures
        Some(out@) == encrypt_spec(
            *costs,
            secret@,
            pt@,
            alg,
            mk@,
            nonce@,
            salt@,
            slot_nonce@,
        ),
        out@.len() == 688 + sealed_len(pt@.len()),
        decrypt_spec(*costs, out@, secret@) == Ok::<Seq<u8>, Error>(pt@),
{
    let slot = wrap_key(costs, secret, salt, slot_nonce, mk);
    let ghost slot_view = slot@;
    let header = fresh_header(alg, nonce, slot);
    let mut out = header.serialize();
    let body = encrypt_stream(alg, mk, nonce, out.as_slice(), pt).unwrap();
    append(&mut out, body.as_slice());
    proof {
        lemma_encrypted_decrypts(*costs, secret@, pt@, alg, mk@, nonce@, slot_view, body@);
    }
    out
}

/// Encrypts a plaintext for a secret under the standard costs, with a fresh
/// master key, fresh nonces and a fresh salt. The file decrypts again, with
/// the secret, to the plaintext.
pub fn encrypt(secret: &[u8], pt: &[u8], alg: Algorithm) -> (out: Vec<u8>)
    requires
        secret@.len() <= MAX_INPUT_LEN,
        pt@.len() / (CHUNK_LEN as nat) <= u32::MAX,
    ensures
        exists|mk: Seq<u8>, nonce: Seq<u8>, salt: Seq<u8>, slot_nonce: Seq<u8>|
            mk.len() == 32 && nonce.len() == alg.header_nonce_len(Mode::Stream) && salt.len()
                == 16 && slot_nonce.len() == 24 && Some(out@) == #[trigger] encrypt_spec(
                Costs::standard_spec(),
                secret@,
                pt@,
                alg,
                mk,
                nonce,
                salt,
                slot_nonce,
            ),
        out@.len() == 688 + sealed_len(pt@.len()),
        decrypt_spec(Costs::standard_spec(), out@, secret@) == Ok::<Seq<u8>, Error>(pt@),
{
    let costs = Costs::standard();
    let mut mk = random_key();
    let nonce = random_nonce(alg, Mode::Stream);
    let salt = random_salt();
    let slot_nonce = random_nonce(Algorithm::XChaCha20Poly1305, Mode::Memory);
    let out = encrypt_with(
        &costs,
        secret,
        pt,
        alg,
        mk.as_slice(),
        nonce.as_slice(),
        salt.as_slice(),
        slot_nonce.as_slice(),
    );
    wipe(&mut mk);
    out
}

/// Starts to encrypt for a secret, for a plaintext that is read piece by
/// piece: returns the bytes of the header and the stream that seals the
/// body under the master key, with those bytes as associated data.
pub fn start_encrypt_with(
    costs: &Costs,
    secret: &[u8],
    alg: Algorithm,
    mk: &[u8],
    nonce: &[u8],
    salt: &[u8],
    slot_nonce: &[u8],
) -> (r: (Vec<u8>, Sealer))
    requires
        costs.valid(),
        secret@.len() <= MAX_INPUT_LEN,
        mk@.len() == 32,
        nonce@.len() == alg.header_nonce_len(Mode::Stream),
        salt@.len() == 16,
        slot_nonce@.len() == 24,
    ensures
        r.0@ == header_spec(*costs, secret@, alg, mk@, nonce@, salt@, slot_nonce@),
        r.0@.len() == 688,
        slot_opens(*costs, wrapped(*costs, secret@, salt@, slot_nonce@, mk@), secret@) == Some(mk@),
        wrapped(*costs, secret@, salt@, slot_nonce@, mk@).wf(),
        r.1.wf(),
        r.1.algorithm() == alg,
        r.1.key() == mk@,
        r.1.base() == nonce@,
        r.1.aad() == r.0@,
        r.1.index() == 0,
        r.1.taken() == Seq::<u8>::empty(),
        r.1.given() == Seq::<u8>::empty(),
        !r.1.finished(),
{
    let slot = wrap_key(costs, secret, salt, slot_nonce, mk);
    let head = fresh_header(alg, nonce, slot).serialize();
    let sealer = Sealer::new(alg, mk, nonce, head.as_slice()).unwrap();
    (head, sealer)
}

/// Starts to encrypt for a secret under the standard costs, with a fresh
/// master key, fresh nonces and a fresh salt.
pub fn start_encrypt(secret: &[u8], alg: Algorithm) -> (r: (Vec<u8>, Sealer))
    requires
        secret@.len() <= MAX_INPUT_LEN,
    ensures
        exists|mk: Seq<u8>, nonce: Seq<u8>, salt: Seq<u8>, slot_nonce: Seq<u8>|
            {
                let slot = wrapped(Costs::standard_spec(), secret@, salt, slot_nonce, mk);
                &&& r.0@ == #[trigger] header_spec(
                    Costs::standard_spec(),
                    secret@,
                    alg,
                    mk,
                    nonce,
                    salt,
                    slot_nonce,
                )
                &&& slot_opens(Costs::standard_spec(), slot, secret@) == Some(mk)
                &&& slot.wf()
                &&& nonce.len() == alg.header_nonce_len(Mode::Stream)
                &&& r.1.key() == mk
                &&& r.1.base() == nonce
            },
        r.0@.len() == 688,
        r.1.wf(),
        r.1.algorithm() == alg,
        r.1.aad() == r.0@,
        r.1.index() == 0,
        r.1.taken() == Seq::<u8>::empty(),
        r.1.given() == Seq::<u8>::empty(),
        !r.1.finished(),
{
    let costs = Costs::standard();
    let mut mk = random_key();
    let nonce = random_nonce(alg, Mode::Stream);
    let salt = random_salt();
    let slot_nonce = random_nonce(Algorithm::XChaCha20Poly1305, Mode::Memory);
    let r = start_encrypt_with(
        &costs,
        secret,
        alg,
        mk.as_slice(),
        nonce.as_slice(),
        salt.as_slice(),
        slot_nonce.as_slice(),
    );
    proof {
        assert(r.0@ == header_spec(
            Costs::standard_spec(),
            secret@,
            alg,
            mk@,
            nonce@,
            salt@,
            slot_nonce@,
        ));
    }
    wipe(&mut mk);
    r
}

/// What [`start_decrypt_with`] finds in the leading bytes of a file: the
/// length of the header and the key of the body.
pub open spec fn start_decrypt_spec(costs: Costs, leading: Seq<u8>, secret: Seq<u8>) -> Result<
    (nat, Seq<u8>),
    Error,
> {
    match parse_header(leading) {
        None => Err(Error::InvalidFormat),
        Some(h) => match body_key(costs, h, secret) {
            None => Err(Error::WrongPassword),
            Some(key) => Ok((header_len(leading), key)),
        },
    }
}

/// Starts to decrypt a file that is read piece by piece, from its leading
/// bytes: reads the header, unwraps the key of the body with the secret, and
/// returns the length of the header, behind which the body starts, the
/// mode of the body, and the stream that opens a body in stream mode.
pub fn start_decrypt_with(costs: &Costs, leading: &[u8], secret: &[u8]) -> (r: Result<
    (usize, Mode, Opener),
    Error,
>)
    requires
        costs.valid(),
        secret@.len() <= MAX_INPUT_LEN,
    ensures
        match start_decrypt_spec(*costs, leading@, secret@) {
            Ok((n, key)) => r matches Ok((len, mode, opener)) && {
                let h = parse_header(leading@)->Some_0;
                &&& len == n
                &&& len <= leading@.len()
                &&& mode == h.mode
                &&& opener.wf()
                &&& opener.algorithm() == h.algorithm
                &&& opener.key() == key
                &&& opener.base() == h.nonce
                &&& opener.aad() == leading@.subrange(0, n as int)
                &&& opener.index() == 0
                &&& opener.taken() == Seq::<u8>::empty()
                &&& opener.given() == Seq::<u8>::empty()
                &&& !opener.finished()
            },
            Err(e) => r matches Err(x) && x == e,
        },
{
    let (header, aad) = match Header::deserialize(leading) {
        Ok(read) => read,
        Err(_) => {
            return Err(Error::InvalidFormat);
        },
    };
    let mut key = if header.version.uses_keyslots() {
        match unwrap_key(costs, &header, secret) {
            Some((_, mk)) => mk,
            None => {
                return Err(Error::WrongPassword);
            },
        }
    } else {
        derive_key(costs, HashAlgorithm::Argon2id, secret, header.salt.as_slice())
    };
    let opener = Opener::new(
        header.algorithm,
        key.as_slice(),
        header.nonce.as_slice(),
        aad.as_slice(),
    );
    wipe(&mut key);
    Ok((aad.len(), header.mode, opener))
}

/// Starts to decrypt a file under the standard costs.
pub fn start_decrypt(leading: &[u8], secret: &[u8]) -> (r: Result<(usize, Mode, Opener), Error>)
    requires
        secret@.len() <= MAX_INPUT_LEN,
    ensures
        match start_decrypt_spec(Costs::standard_spec(), leading@, secret@) {
            Ok((n, key)) => r matches Ok((len, mode, opener)) && {
                let h = parse_header(leading@)->Some_0;
                &&& len == n
                &&& len <= leading@.len()
                &&& mode == h.mode
                &&& opener.wf()
                &&& opener.algorithm() == h.algorithm
                &&& opener.key() == key
                &&& opener.base() == h.nonce
                &&& opener.aad() == leading@.subrange(0, n as int)
                &&& opener.index() == 0
                &&& opener.taken() == Seq::<u8>::empty()
                &&& opener.given() == Seq::<u8>::empty()
                &&& !opener.finished()
            },
            Err(e) => r matches Err(x) && x == e,
        },
{
    let costs = Costs::standard();
    start_decrypt_with(&costs, leading, secret)
}

/// Decrypts a file with a secret: fails with `InvalidFormat` where the file
/// does not start with a header, with `WrongPassword` where the secret
/// opens no keyslot, and with `AuthenticationFailure` where the body does
/// not open; no part of a body that does not open is returned.
pub fn decrypt_with(costs: &Costs, file: &[u8], secret: &[u8]) -> (r: Result<Vec<u8>, Error>)
    requires
        costs.valid(),
        secret@.len() <= MAX_INPUT_LEN,
    ensures
        match decrypt_spec(*costs, file@, secret@) {
            Ok(pt) => r matches Ok(out) && out@ == pt,
            Err(e) => r matches Err(x) && x == e,
        },
{
    let (header, aad) = match Header::deserialize(file) {
        Ok(read) => read,
        Err(_) => {
            return Err(Error::InvalidFormat);
        },
    };
    let body = slice_subrange(file, aad.len(), file.len());
    let mut key = if header.version.uses_keyslots() {
        match unwrap_key(costs, &header, secret) {
            Some((_, mk)) => mk,
            None => {
                return Err(Error::WrongPassword);
            },
        }
    } else {
        derive_key(costs, HashAlgorithm::Argon2id, secret, header.salt.as_slice())
    };
    let opened = match header.mode {
        Mode::Stream => decrypt_stream(
            header.algorithm,
            key.as_slice(),
            header.nonce.as_slice(),
            aad.as_slice(),
            body,
        ),
        Mode::Memory => open(
            header.algorithm,
            key.as_slice(),
            header.nonce.as_slice(),
            aad.as_slice(),
            body,
        ),
    };
    wipe(&mut key);
    match opened {
        Some(pt) => Ok(pt),
        None => Err(Error::AuthenticationFailure),
    }
}

/// Decrypts a file with a secret under the standard costs.
pub fn decrypt(file: &[u8], secret: &[u8]) -> (r: Result<Vec<u8>, Error>)
    requires
        secret@.len() <= MAX_INPUT_LEN,
    ensures
        match decrypt_spec(Costs::standard_spec(), file@, secret@) {
            Ok(pt) => r matches Ok(out) && out@ == pt,
            Err(e) => r matches Err(x) && x == e,
        },
{
    let costs = Costs::standard();
    decrypt_with(&costs, file, secret)
}

} // verus!

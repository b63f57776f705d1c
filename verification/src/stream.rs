//! The body of a file: the plaintext cut into chunks of 1 MiB, each sealed
//! on its own under a nonce that holds its position.
//!
//! The nonce of chunk `i` is the nonce of the header followed by `i` as four
//! little-endian bytes. Every chunk before the last is full. The last chunk
//! is shorter than a full one, possibly empty, and the first byte of its
//! nonce has its top bit flipped, so that a stream cannot be cut short
//! unnoticed. Chunks are not framed: a reader takes sealed chunks of full
//! length as long as that many bytes are left, and what is left then is the
//! last chunk.

use crate::bytes::append;
use crate::format::{Algorithm, CHUNK_LEN, SEALED_CHUNK_LEN};
use crate::primitives::{bytes_of, open, open_spec, seal, seal_spec, MAX_INPUT_LEN};
use vstd::prelude::*;
use vstd::slice::{slice_subrange, slice_to_vec};

verus! {

/// The four bytes of a chunk counter, lowest first.
pub open spec fn counter_bytes(i: u32) -> Seq<u8> {
    seq![
        (i % 256) as u8,
        ((i / 256) % 256) as u8,
        ((i / 65536) % 256) as u8,
        (i / 16777216) as u8,
    ]
}

/// The nonce of chunk `i`: the base nonce, then the counter; for the last
/// chunk of a stream the first byte is xor-ed with `0x80`.
pub open spec fn chunk_nonce(base: Seq<u8>, i: u32, last: bool) -> Seq<u8> {
    let plain = base + counter_bytes(i);
    if last {
        plain.update(0, plain[0] ^ 0x80)
    } else {
        plain
    }
}

/// `prefix` put before an optional rest.
pub open spec fn prefixed(prefix: Seq<u8>, rest: Option<Seq<u8>>) -> Option<Seq<u8>> {
    match rest {
        Some(r) => Some(prefix + r),
        None => None,
    }
}

/// The sealed chunks of `pt`, of which the first has the index `i`: nothing
/// where the AEAD refuses a chunk or an index does not fit the counter.
pub open spec fn encrypt_chunks(
    alg: Algorithm,
    key: Seq<u8>,
    base: Seq<u8>,
    aad: Seq<u8>,
    pt: Seq<u8>,
    i: nat,
) -> Option<Seq<u8>>
    decreases pt.len(),
{
    if i > u32::MAX {
        None
    } else if pt.len() >= CHUNK_LEN {
        match seal_spec(
            alg,
            key,
            chunk_nonce(base, i as u32, false),
            aad,
            pt.subrange(0, CHUNK_LEN as int),
        ) {
            Some(c) => prefixed(
                c,
                encrypt_chunks(
                    alg,
                    key,
                    base,
                    aad,
                    pt.subrange(CHUNK_LEN as int, pt.len() as int),
                    i + 1,
                ),
            ),
            None => None,
        }
    } else {
        seal_spec(alg, key, chunk_nonce(base, i as u32, true), aad, pt)
    }
}

/// The plaintext of the sealed chunks `ct`, of which the first has the
/// index `i`: nothing where a chunk does not open or an index does not fit
/// the counter.
pub open spec fn decrypt_chunks(
    alg: Algorithm,
    key: Seq<u8>,
    base: Seq<u8>,
    aad: Seq<u8>,
    ct: Seq<u8>,
    i: nat,
) -> Option<Seq<u8>>
    decreases ct.len(),
{
    if i > u32::MAX {
        None
    } else if ct.len() >= SEALED_CHUNK_LEN {
        match open_spec(
            alg,
            key,
            chunk_nonce(base, i as u32, false),
            aad,
            ct.subrange(0, SEALED_CHUNK_LEN as int),
        ) {
            Some(p) => prefixed(
                p,
                decrypt_chunks(
                    alg,
                    key,
                    base,
                    aad,
                    ct.subrange(SEALED_CHUNK_LEN as int, ct.len() as int),
                    i + 1,
                ),
            ),
            None => None,
        }
    } else {
        open_spec(alg, key, chunk_nonce(base, i as u32, true), aad, ct)
    }
}

/// The length of the stream that seals `n` bytes: each chunk, the last one
/// included, is 16 bytes longer than its plaintext.
pub open spec fn sealed_len(n: nat) -> nat {
    n + 16 * (n / (CHUNK_LEN as nat) + 1)
}

/// Whether sealed chunks that go on from index `i` and open to `rest_pt`
/// make, put behind `done_ct`, a stream that opens to `done_pt` and then
/// `rest_pt`.
pub open spec fn goes_on(
    alg: Algorithm,
    key: Seq<u8>,
    base: Seq<u8>,
    aad: Seq<u8>,
    done_ct: Seq<u8>,
    done_pt: Seq<u8>,
    i: nat,
    rest_ct: Seq<u8>,
    rest_pt: Seq<u8>,
) -> bool {
    decrypt_chunks(alg, key, base, aad, rest_ct, i) == Some(rest_pt) ==> decrypt_chunks(
        alg,
        key,
        base,
        aad,
        done_ct + rest_ct,
        0,
    ) == Some(done_pt + rest_pt)
}

/// The nonce of one chunk.
pub fn nonce_of_chunk(base: &[u8], i: u32, last: bool) -> (out: Vec<u8>)
    ensures
        out@ == chunk_nonce(base@, i, last),
        out@.len() == base@.len() + 4,
{
    let mut out: Vec<u8> = Vec::new();
    append(&mut out, base);
    out.push((i % 256) as u8);
    out.push(((i / 256) % 256) as u8);
    out.push(((i / 65536) % 256) as u8);
    out.push((i / 16777216) as u8);
    assert(out@ =~= base@ + counter_bytes(i));
    if last {
        let first: u8 = out[0];
        out[0] = first ^ 0x80;
    }
    out
}

/// Seals one chunk of a stream.
pub fn encrypt_chunk(
    alg: Algorithm,
    key: &[u8],
    base: &[u8],
    aad: &[u8],
    i: u32,
    last: bool,
    chunk: &[u8],
) -> (out: Option<Vec<u8>>)
    ensures
        bytes_of(out) == seal_spec(alg, key@, chunk_nonce(base@, i, last), aad@, chunk@),
        out matches Some(ct) ==> ct@.len() == chunk@.len() + 16 && open_spec(
            alg,
            key@,
            chunk_nonce(base@, i, last),
            aad@,
            ct@,
        ) == Some(chunk@),
        ({
            &&& key@.len() == 32
            &&& base@.len() + 4 == alg.aead_nonce_len()
            &&& chunk@.len() <= MAX_INPUT_LEN
            &&& aad@.len() <= MAX_INPUT_LEN
        }) ==> out is Some,
{
    let nonce = nonce_of_chunk(base, i, last);
    seal(alg, key, nonce.as_slice(), aad, chunk)
}

/// Opens one sealed chunk of a stream.
pub fn decrypt_chunk(
    alg: Algorithm,
    key: &[u8],
    base: &[u8],
    aad: &[u8],
    i: u32,
    last: bool,
    chunk: &[u8],
) -> (out: Option<Vec<u8>>)
    ensures
        bytes_of(out) == open_spec(alg, key@, chunk_nonce(base@, i, last), aad@, chunk@),
        out matches Some(pt) ==> pt@.len() + 16 == chunk@.len(),
{
    let nonce = nonce_of_chunk(base, i, last);
    open(alg, key, nonce.as_slice(), aad, chunk)
}

/// Whether the sealed chunks `done_ct` of the plaintext `done_pt` go on with
/// the sealed chunks of whatever plaintext follows, from index `i` on.
pub open spec fn seals_on(
    alg: Algorithm,
    key: Seq<u8>,
    base: Seq<u8>,
    aad: Seq<u8>,
    done_ct: Seq<u8>,
    done_pt: Seq<u8>,
    i: nat,
    rest_pt: Seq<u8>,
) -> bool {
    encrypt_chunks(alg, key, base, aad, done_pt + rest_pt, 0) == prefixed(
        done_ct,
        encrypt_chunks(alg, key, base, aad, rest_pt, i),
    )
}

/// Whether the plaintext `done_pt` of the sealed chunks `done_ct` goes on
/// with the plaintext of whatever sealed chunks follow, from index `i` on.
pub open spec fn opens_on(
    alg: Algorithm,
    key: Seq<u8>,
    base: Seq<u8>,
    aad: Seq<u8>,
    done_ct: Seq<u8>,
    done_pt: Seq<u8>,
    i: nat,
    rest_ct: Seq<u8>,
) -> bool {
    decrypt_chunks(alg, key, base, aad, done_ct + rest_ct, 0) == prefixed(
        done_pt,
        decrypt_chunks(alg, key, base, aad, rest_ct, i),
    )
}

/// Sealing one more whole chunk keeps a stream in step: what was sealed so
/// far, with the new chunk, still goes on with whatever follows.
pub proof fn lemma_seal_step(
    alg: Algorithm,
    key: Seq<u8>,
    base: Seq<u8>,
    aad: Seq<u8>,
    done_ct: Seq<u8>,
    done_pt: Seq<u8>,
    i: nat,
    read: Seq<u8>,
    c: Seq<u8>,
)
    requires
        i <= u32::MAX,
        read.len() == CHUNK_LEN,
        c.len() == SEALED_CHUNK_LEN,
        seal_spec(alg, key, chunk_nonce(base, i as u32, false), aad, read) == Some(c),
        open_spec(alg, key, chunk_nonce(base, i as u32, false), aad, c) == Some(read),
        forall|rest: Seq<u8>| #[trigger] seals_on(alg, key, base, aad, done_ct, done_pt, i, rest),
        forall|rc: Seq<u8>, rp: Seq<u8>| #[trigger]
            goes_on(alg, key, base, aad, done_ct, done_pt, i, rc, rp),
    ensures
        forall|rest: Seq<u8>| #[trigger]
            seals_on(alg, key, base, aad, done_ct + c, done_pt + read, i + 1, rest),
        forall|rc: Seq<u8>, rp: Seq<u8>| #[trigger]
            goes_on(alg, key, base, aad, done_ct + c, done_pt + read, i + 1, rc, rp),
{
    let now_ct = done_ct + c;
    let now_pt = done_pt + read;
    assert forall|rest: Seq<u8>| #[trigger]
        seals_on(alg, key, base, aad, now_ct, now_pt, i + 1, rest) by {
        let tail = read + rest;
        assert(seals_on(alg, key, base, aad, done_ct, done_pt, i, tail));
        assert(tail.subrange(0, CHUNK_LEN as int) =~= read);
        assert(tail.subrange(CHUNK_LEN as int, tail.len() as int) =~= rest);
        assert(done_pt + tail =~= now_pt + rest);
        match encrypt_chunks(alg, key, base, aad, rest, i + 1) {
            Some(r) => {
                assert(done_ct + (c + r) =~= now_ct + r);
            },
            None => {},
        }
    }
    assert forall|rc: Seq<u8>, rp: Seq<u8>| #[trigger]
        goes_on(alg, key, base, aad, now_ct, now_pt, i + 1, rc, rp) by {
        if decrypt_chunks(alg, key, base, aad, rc, i + 1) == Some(rp) {
            let tail = c + rc;
            assert(tail.subrange(0, SEALED_CHUNK_LEN as int) =~= c);
            assert(tail.subrange(SEALED_CHUNK_LEN as int, tail.len() as int) =~= rc);
            assert(decrypt_chunks(alg, key, base, aad, tail, i) == Some(read + rp));
            assert(goes_on(alg, key, base, aad, done_ct, done_pt, i, tail, read + rp));
            assert(done_ct + tail =~= now_ct + rc);
            assert(done_pt + (read + rp) =~= now_pt + rp);
        }
    }
}

/// Sealing the last chunk makes a stream whole: what was given out is the
/// plaintext that was taken, sealed, and opens to it again.
pub proof fn lemma_seal_last(
    alg: Algorithm,
    key: Seq<u8>,
    base: Seq<u8>,
    aad: Seq<u8>,
    done_ct: Seq<u8>,
    done_pt: Seq<u8>,
    i: nat,
    read: Seq<u8>,
    c: Seq<u8>,
)
    requires
        i <= u32::MAX,
        read.len() < CHUNK_LEN,
        c.len() == read.len() + 16,
        seal_spec(alg, key, chunk_nonce(base, i as u32, true), aad, read) == Some(c),
        open_spec(alg, key, chunk_nonce(base, i as u32, true), aad, c) == Some(read),
        seals_on(alg, key, base, aad, done_ct, done_pt, i, read),
        goes_on(alg, key, base, aad, done_ct, done_pt, i, c, read),
    ensures
        encrypt_chunks(alg, key, base, aad, done_pt + read, 0) == Some(done_ct + c),
        decrypt_chunks(alg, key, base, aad, done_ct + c, 0) == Some(done_pt + read),
{
    assert(encrypt_chunks(alg, key, base, aad, read, i) == Some(c));
    assert(decrypt_chunks(alg, key, base, aad, c, i) == Some(read));
}

/// Where a chunk is refused, or is a whole chunk whose successor has no
/// index left, no stream goes on with it.
pub proof fn lemma_seal_none(
    alg: Algorithm,
    key: Seq<u8>,
    base: Seq<u8>,
    aad: Seq<u8>,
    done_ct: Seq<u8>,
    done_pt: Seq<u8>,
    i: nat,
    read: Seq<u8>,
    rest: Seq<u8>,
)
    requires
        i <= u32::MAX,
        read.len() <= CHUNK_LEN,
        read.len() < CHUNK_LEN ==> rest.len() == 0,
        seals_on(alg, key, base, aad, done_ct, done_pt, i, read + rest),
        seal_spec(alg, key, chunk_nonce(base, i as u32, read.len() < CHUNK_LEN), aad, read)
            is None || (read.len() == CHUNK_LEN && i == u32::MAX),
    ensures
        encrypt_chunks(alg, key, base, aad, done_pt + (read + rest), 0) is None,
{
    let tail = read + rest;
    if read.len() == CHUNK_LEN {
        assert(tail.subrange(0, CHUNK_LEN as int) =~= read);
        if i == u32::MAX {
            assert(encrypt_chunks(
                alg,
                key,
                base,
                aad,
                tail.subrange(CHUNK_LEN as int, tail.len() as int),
                i + 1,
            ) is None);
        }
    } else {
        assert(tail =~= read);
    }
}

/// Opening one more whole chunk keeps a stream in step.
pub proof fn lemma_open_step(
    alg: Algorithm,
    key: Seq<u8>,
    base: Seq<u8>,
    aad: Seq<u8>,
    done_ct: Seq<u8>,
    done_pt: Seq<u8>,
    i: nat,
    read: Seq<u8>,
    p: Seq<u8>,
)
    requires
        i <= u32::MAX,
        read.len() == SEALED_CHUNK_LEN,
        open_spec(alg, key, chunk_nonce(base, i as u32, false), aad, read) == Some(p),
        forall|rest: Seq<u8>| #[trigger] opens_on(alg, key, base, aad, done_ct, done_pt, i, rest),
    ensures
        forall|rest: Seq<u8>| #[trigger]
            opens_on(alg, key, base, aad, done_ct + read, done_pt + p, i + 1, rest),
{
    let now_ct = done_ct + read;
    let now_pt = done_pt + p;
    assert forall|rest: Seq<u8>| #[trigger]
        opens_on(alg, key, base, aad, now_ct, now_pt, i + 1, rest) by {
        let tail = read + rest;
        assert(opens_on(alg, key, base, aad, done_ct, done_pt, i, tail));
        assert(tail.subrange(0, SEALED_CHUNK_LEN as int) =~= read);
        assert(tail.subrange(SEALED_CHUNK_LEN as int, tail.len() as int) =~= rest);
        assert(done_ct + tail =~= now_ct + rest);
        match decrypt_chunks(alg, key, base, aad, rest, i + 1) {
            Some(r) => {
                assert(done_pt + (p + r) =~= now_pt + r);
            },
            None => {},
        }
    }
}

/// Where a chunk does not open, or is a whole chunk whose successor has no
/// index left, no stream that goes on with it opens.
pub proof fn lemma_open_none(
    alg: Algorithm,
    key: Seq<u8>,
    base: Seq<u8>,
    aad: Seq<u8>,
    done_ct: Seq<u8>,
    done_pt: Seq<u8>,
    i: nat,
    read: Seq<u8>,
    rest: Seq<u8>,
)
    requires
        i <= u32::MAX,
        read.len() <= SEALED_CHUNK_LEN,
        read.len() < SEALED_CHUNK_LEN ==> rest.len() == 0,
        opens_on(alg, key, base, aad, done_ct, done_pt, i, read + rest),
        open_spec(alg, key, chunk_nonce(base, i as u32, read.len() < SEALED_CHUNK_LEN), aad, read)
            is None || (read.len() == SEALED_CHUNK_LEN && i == u32::MAX),
    ensures
        decrypt_chunks(alg, key, base, aad, done_ct + (read + rest), 0) is None,
{
    let tail = read + rest;
    if read.len() == SEALED_CHUNK_LEN {
        assert(tail.subrange(0, SEALED_CHUNK_LEN as int) =~= read);
        if i == u32::MAX {
            assert(decrypt_chunks(
                alg,
                key,
                base,
                aad,
                tail.subrange(SEALED_CHUNK_LEN as int, tail.len() as int),
                i + 1,
            ) is None);
        }
    } else {
        assert(tail =~= read);
    }
}

/// A stream that is being sealed, one read of the plaintext after the
/// other. It holds no more of the plaintext than the chunk it is given.
pub struct Sealer {
    algorithm: Algorithm,
    key: Vec<u8>,
    base: Vec<u8>,
    aad: Vec<u8>,
    index: u32,
    finished: bool,
    taken: Ghost<Seq<u8>>,
    given: Ghost<Seq<u8>>,
}

impl Sealer {
    /// The cipher of the stream.
    pub closed spec fn algorithm(&self) -> Algorithm {
        self.algorithm
    }

    /// The key of the stream.
    pub closed spec fn key(&self) -> Seq<u8> {
        self.key@
    }

    /// The nonce that the nonce of every chunk starts with.
    pub closed spec fn base(&self) -> Seq<u8> {
        self.base@
    }

    /// The associated data of every chunk.
    pub closed spec fn aad(&self) -> Seq<u8> {
        self.aad@
    }

    /// The index of the chunk that comes next.
    pub closed spec fn index(&self) -> nat {
        self.index as nat
    }

    /// The plaintext that was taken so far.
    pub closed spec fn taken(&self) -> Seq<u8> {
        self.taken@
    }

    /// The sealed chunks that were given out so far.
    pub closed spec fn given(&self) -> Seq<u8> {
        self.given@
    }

    /// Whether the last chunk was sealed.
    pub closed spec fn finished(&self) -> bool {
        self.finished
    }

    /// Whether the stream is whole: what was given out is the plaintext
    /// that was taken, sealed as a stream, and opens to it again.
    pub open spec fn complete(&self) -> bool {
        &&& self.finished()
        &&& encrypt_chunks(self.algorithm(), self.key(), self.base(), self.aad(), self.taken(), 0)
            == Some(self.given())
        &&& decrypt_chunks(self.algorithm(), self.key(), self.base(), self.aad(), self.given(), 0)
            == Some(self.taken())
    }

    /// Whether the stream is in step: key and nonce fit the cipher; a
    /// finished stream is whole; and one that is not has taken whole chunks
    /// only, and what it has given out goes on, at its index, with the
    /// sealed chunks of whatever plaintext follows.
    pub open spec fn wf(&self) -> bool {
        &&& self.key().len() == 32
        &&& self.base().len() + 4 == self.algorithm().aead_nonce_len()
        &&& self.index() <= u32::MAX
        &&& if self.finished() {
            self.complete()
        } else {
            &&& self.taken().len() == self.index() * CHUNK_LEN
            &&& self.given().len() == self.index() * SEALED_CHUNK_LEN
            &&& forall|rest: Seq<u8>| #[trigger]
                seals_on(
                    self.algorithm(),
                    self.key(),
                    self.base(),
                    self.aad(),
                    self.given(),
                    self.taken(),
                    self.index(),
                    rest,
                )
            &&& forall|rc: Seq<u8>, rp: Seq<u8>| #[trigger]
                goes_on(
                    self.algorithm(),
                    self.key(),
                    self.base(),
                    self.aad(),
                    self.given(),
                    self.taken(),
                    self.index(),
                    rc,
                    rp,
                )
        }
    }

    /// What [`Sealer::push`] returns for a read: nothing after the last
    /// chunk, for more than a chunk, or where a whole chunk has the last
    /// index; else the chunk sealed under the nonce of its index.
    pub open spec fn pushed(&self, read: Seq<u8>) -> Option<Seq<u8>> {
        if self.finished() || read.len() > CHUNK_LEN || (read.len() == CHUNK_LEN && self.index()
            == u32::MAX) {
            None
        } else {
            seal_spec(
                self.algorithm(),
                self.key(),
                chunk_nonce(self.base(), self.index() as u32, read.len() < CHUNK_LEN),
                self.aad(),
                read,
            )
        }
    }

    /// Starts a stream. There is none for a key that is not 32 bytes long or
    /// a nonce that is not four bytes shorter than the nonce of the cipher.
    pub fn new(alg: Algorithm, key: &[u8], base: &[u8], aad: &[u8]) -> (r: Option<Sealer>)
        ensures
            r is Some <==> key@.len() == 32 && base@.len() + 4 == alg.aead_nonce_len(),
            r matches Some(s) ==> {
                &&& s.wf()
                &&& s.algorithm() == alg
                &&& s.key() == key@
                &&& s.base() == base@
                &&& s.aad() == aad@
                &&& s.index() == 0
                &&& s.taken() == Seq::<u8>::empty()
                &&& s.given() == Seq::<u8>::empty()
                &&& !s.finished()
            },
    {
        if key.len() != 32 || base.len() != alg.nonce_len() - 4 {
            return None;
        }
        let ghost empty = Seq::<u8>::empty();
        proof {
            assert forall|rest: Seq<u8>| #[trigger]
                seals_on(alg, key@, base@, aad@, empty, empty, 0, rest) by {
                assert(empty + rest =~= rest);
                match encrypt_chunks(alg, key@, base@, aad@, rest, 0) {
                    Some(c) => {
                        assert(empty + c =~= c);
                    },
                    None => {},
                }
            }
            assert forall|rc: Seq<u8>, rp: Seq<u8>| #[trigger]
                goes_on(alg, key@, base@, aad@, empty, empty, 0, rc, rp) by {
                assert(empty + rc =~= rc);
                assert(empty + rp =~= rp);
            }
        }
        Some(
            Sealer {
                algorithm: alg,
                key: slice_to_vec(key),
                base: slice_to_vec(base),
                aad: slice_to_vec(aad),
                index: 0,
                finished: false,
                taken: Ghost(empty),
                given: Ghost(empty),
            },
        )
    }

    /// Whether the last chunk was sealed.
    pub fn is_finished(&self) -> (b: bool)
        ensures
            b == self.finished(),
    {
        self.finished
    }

    /// Seals what one read of the plaintext returned: a whole chunk, after
    /// which the stream goes on, or less than a chunk, possibly nothing,
    /// which is the last chunk. Nothing is returned, and the stream stays as
    /// it is, after the last chunk, for more than a chunk, and where the
    /// cipher refuses the chunk or the chunk after it would have no index
    /// left.
    pub fn push(&mut self, read: &[u8]) -> (r: Option<Vec<u8>>)
        requires
            old(self).wf(),
        ensures
            final(self).wf(),
            final(self).algorithm() == old(self).algorithm(),
            final(self).key() == old(self).key(),
            final(self).base() == old(self).base(),
            final(self).aad() == old(self).aad(),
            bytes_of(r) == old(self).pushed(read@),
            match r {
                Some(out) => {
                    &&& final(self).taken() == old(self).taken() + read@
                    &&& final(self).given() == old(self).given() + out@
                    &&& out@.len() == read@.len() + 16
                    &&& final(self).finished() == (read@.len() < CHUNK_LEN)
                    &&& final(self).index() == if read@.len() < CHUNK_LEN {
                        old(self).index()
                    } else {
                        old(self).index() + 1
                    }
                },
                None => {
                    &&& final(self).taken() == old(self).taken()
                    &&& final(self).given() == old(self).given()
                    &&& final(self).finished() == old(self).finished()
                    &&& final(self).index() == old(self).index()
                },
            },
            ({
                &&& !old(self).finished()
                &&& old(self).aad().len() <= MAX_INPUT_LEN
                &&& read@.len() < CHUNK_LEN || (read@.len() == CHUNK_LEN && old(self).index()
                    < u32::MAX)
            }) ==> r is Some,
    {
        let last = read.len() < CHUNK_LEN;
        if self.finished || read.len() > CHUNK_LEN || (!last && self.index == u32::MAX) {
            return None;
        }
        let ghost alg = self.algorithm();
        let ghost key = self.key();
        let ghost base = self.base();
        let ghost aad = self.aad();
        let ghost i = self.index();
        let ghost done_pt = self.taken();
        let ghost done_ct = self.given();
        let sealed_chunk = match encrypt_chunk(
            self.algorithm,
            self.key.as_slice(),
            self.base.as_slice(),
            self.aad.as_slice(),
            self.index,
            last,
            read,
        ) {
            Some(c) => c,
            None => {
                return None;
            },
        };
        proof {
            if last {
                assert(seals_on(alg, key, base, aad, done_ct, done_pt, i, read@));
                assert(goes_on(alg, key, base, aad, done_ct, done_pt, i, sealed_chunk@, read@));
                lemma_seal_last(alg, key, base, aad, done_ct, done_pt, i, read@, sealed_chunk@);
            } else {
                lemma_seal_step(alg, key, base, aad, done_ct, done_pt, i, read@, sealed_chunk@);
            }
        }
        self.taken = Ghost(done_pt + read@);
        self.given = Ghost(done_ct + sealed_chunk@);
        if last {
            self.finished = true;
        } else {
            self.index = self.index + 1;
        }
        proof {
            assert(self.algorithm() == alg && self.key() == key && self.base() == base
                && self.aad() == aad);
            assert(self.taken() == done_pt + read@ && self.given() == done_ct + sealed_chunk@);
            if !last {
                assert(self.index() == i + 1);
                assert(self.taken().len() == self.index() * CHUNK_LEN);
                assert(self.given().len() == self.index() * SEALED_CHUNK_LEN);
            }
        }
        Some(sealed_chunk)
    }
}

/// A stream that is being opened, one read of the sealed chunks after the
/// other. It holds no more of the stream than the chunk it is given.
pub struct Opener {
    algorithm: Algorithm,
    key: Vec<u8>,
    base: Vec<u8>,
    aad: Vec<u8>,
    index: u32,
    finished: bool,
    taken: Ghost<Seq<u8>>,
    given: Ghost<Seq<u8>>,
}

impl Opener {
    /// The cipher of the stream.
    pub closed spec fn algorithm(&self) -> Algorithm {
        self.algorithm
    }

    /// The key of the stream.
    pub closed spec fn key(&self) -> Seq<u8> {
        self.key@
    }

    /// The nonce that the nonce of every chunk starts with.
    pub closed spec fn base(&self) -> Seq<u8> {
        self.base@
    }

    /// The associated data of every chunk.
    pub closed spec fn aad(&self) -> Seq<u8> {
        self.aad@
    }

    /// The index of the chunk that comes next.
    pub closed spec fn index(&self) -> nat {
        self.index as nat
    }

    /// The sealed chunks that were taken so far.
    pub closed spec fn taken(&self) -> Seq<u8> {
        self.taken@
    }

    /// The plaintext that was given out so far.
    pub closed spec fn given(&self) -> Seq<u8> {
        self.given@
    }

    /// Whether the last chunk was opened.
    pub closed spec fn finished(&self) -> bool {
        self.finished
    }

    /// Whether the stream is in step: a finished stream has given out the
    /// plaintext of what it has taken; what one that is not finished has
    /// given out goes on, at its index, with the plaintext of whatever
    /// sealed chunks follow.
    pub open spec fn wf(&self) -> bool {
        &&& self.index() <= u32::MAX
        &&& if self.finished() {
            decrypt_chunks(
                self.algorithm(),
                self.key(),
                self.base(),
                self.aad(),
                self.taken(),
                0,
            ) == Some(self.given())
        } else {
            forall|rest: Seq<u8>| #[trigger]
                opens_on(
                    self.algorithm(),
                    self.key(),
                    self.base(),
                    self.aad(),
                    self.taken(),
                    self.given(),
                    self.index(),
                    rest,
                )
        }
    }

    /// What [`Opener::push`] returns for a read: nothing after the last
    /// chunk, for more than a sealed chunk, or where a whole chunk has the
    /// last index; else the chunk opened under the nonce of its index.
    pub open spec fn pushed(&self, read: Seq<u8>) -> Option<Seq<u8>> {
        if self.finished() || read.len() > SEALED_CHUNK_LEN || (read.len() == SEALED_CHUNK_LEN
            && self.index() == u32::MAX) {
            None
        } else {
            open_spec(
                self.algorithm(),
                self.key(),
                chunk_nonce(self.base(), self.index() as u32, read.len() < SEALED_CHUNK_LEN),
                self.aad(),
                read,
            )
        }
    }

    /// Starts to open a stream.
    pub fn new(alg: Algorithm, key: &[u8], base: &[u8], aad: &[u8]) -> (s: Opener)
        ensures
            s.wf(),
            s.algorithm() == alg,
            s.key() == key@,
            s.base() == base@,
            s.aad() == aad@,
            s.index() == 0,
            s.taken() == Seq::<u8>::empty(),
            s.given() == Seq::<u8>::empty(),
            !s.finished(),
    {
        let ghost empty = Seq::<u8>::empty();
        proof {
            assert forall|rest: Seq<u8>| #[trigger]
                opens_on(alg, key@, base@, aad@, empty, empty, 0, rest) by {
                assert(empty + rest =~= rest);
                match decrypt_chunks(alg, key@, base@, aad@, rest, 0) {
                    Some(p) => {
                        assert(empty + p =~= p);
                    },
                    None => {},
                }
            }
        }
        Opener {
            algorithm: alg,
            key: slice_to_vec(key),
            base: slice_to_vec(base),
            aad: slice_to_vec(aad),
            index: 0,
            finished: false,
            taken: Ghost(empty),
            given: Ghost(empty),
        }
    }

    /// Whether the last chunk was opened.
    pub fn is_finished(&self) -> (b: bool)
        ensures
            b == self.finished(),
    {
        self.finished
    }

    /// Opens what one read of the stream returned: a whole sealed chunk,
    /// after which the stream goes on, or less, which is the last chunk.
    /// Nothing is returned, and the stream stays as it is, after the last
    /// chunk, for more than a sealed chunk, and where the chunk does not
    /// open or the chunk after it would have no index left.
    pub fn push(&mut self, read: &[u8]) -> (r: Option<Vec<u8>>)
        requires
            old(self).wf(),
        ensures
            final(self).wf(),
            final(self).algorithm() == old(self).algorithm(),
            final(self).key() == old(self).key(),
            final(self).base() == old(self).base(),
            final(self).aad() == old(self).aad(),
            bytes_of(r) == old(self).pushed(read@),
            match r {
                Some(out) => {
                    &&& final(self).taken() == old(self).taken() + read@
                    &&& final(self).given() == old(self).given() + out@
                    &&& out@.len() + 16 == read@.len()
                    &&& final(self).finished() == (read@.len() < SEALED_CHUNK_LEN)
                    &&& final(self).index() == if read@.len() < SEALED_CHUNK_LEN {
                        old(self).index()
                    } else {
                        old(self).index() + 1
                    }
                },
                None => {
                    &&& final(self).taken() == old(self).taken()
                    &&& final(self).given() == old(self).given()
                    &&& final(self).finished() == old(self).finished()
                    &&& final(self).index() == old(self).index()
                },
            },
    {
        let last = read.len() < SEALED_CHUNK_LEN;
        if self.finished || read.len() > SEALED_CHUNK_LEN || (!last && self.index == u32::MAX) {
            return None;
        }
        let ghost alg = self.algorithm();
        let ghost key = self.key();
        let ghost base = self.base();
        let ghost aad = self.aad();
        let ghost i = self.index();
        let ghost done_ct = self.taken();
        let ghost done_pt = self.given();
        let opened_chunk = match decrypt_chunk(
            self.algorithm,
            self.key.as_slice(),
            self.base.as_slice(),
            self.aad.as_slice(),
            self.index,
            last,
            read,
        ) {
            Some(p) => p,
            None => {
                return None;
            },
        };
        proof {
            if last {
                assert(opens_on(alg, key, base, aad, done_ct, done_pt, i, read@));
            } else {
                lemma_open_step(alg, key, base, aad, done_ct, done_pt, i, read@, opened_chunk@);
            }
        }
        self.taken = Ghost(done_ct + read@);
        self.given = Ghost(done_pt + opened_chunk@);
        if last {
            self.finished = true;
        } else {
            self.index = self.index + 1;
        }
        proof {
            assert(self.algorithm() == alg && self.key() == key && self.base() == base
                && self.aad() == aad);
            assert(self.taken() == done_ct + read@ && self.given() == done_pt + opened_chunk@);
            if !last {
                assert(self.index() == i + 1);
            }
        }
        Some(opened_chunk)
    }
}

/// Seals a plaintext as a stream of chunks. The stream opens again, under
/// the same key, nonce and associated data, to the plaintext.
pub fn encrypt_stream(alg: Algorithm, key: &[u8], base: &[u8], aad: &[u8], pt: &[u8]) -> (out:
    Option<Vec<u8>>)
    ensures
        bytes_of(out) == encrypt_chunks(alg, key@, base@, aad@, pt@, 0),
        out matches Some(ct) ==> ct@.len() == sealed_len(pt@.len()) && decrypt_chunks(
            alg,
            key@,
            base@,
            aad@,
            ct@,
            0,
        ) == Some(pt@),
        ({
            &&& key@.len() == 32
            &&& base@.len() + 4 == alg.aead_nonce_len()
            &&& aad@.len() <= MAX_INPUT_LEN
            &&& pt@.len() / (CHUNK_LEN as nat) <= u32::MAX
        }) ==> out is Some,
{
    let mut sealer = match Sealer::new(alg, key, base, aad) {
        Some(s) => s,
        None => {
            return None;
        },
    };
    let mut out: Vec<u8> = Vec::new();
    let mut pos: usize = 0;
    let mut count: usize = 0;
    while pt.len() - pos >= CHUNK_LEN
        invariant
            pos <= pt@.len(),
            sealer.wf(),
            !sealer.finished(),
            sealer.algorithm() == alg,
            sealer.key() == key@,
            sealer.base() == base@,
            sealer.aad() == aad@,
            sealer.index() == count,
            sealer.taken() == pt@.subrange(0, pos as int),
            sealer.given() == out@,
            out@.len() == pos + 16 * count,
            pos == count * CHUNK_LEN,
        decreases pt@.len() - pos,
    {
        let chunk = slice_subrange(pt, pos, pos + CHUNK_LEN);
        let ghost rest = pt@.subrange(pos + CHUNK_LEN, pt@.len() as int);
        assert(pt@.subrange(0, pos as int) + (chunk@ + rest) =~= pt@);
        assert(pt@.len() / (CHUNK_LEN as nat) > count) by {
            assert(pt@.len() >= (count + 1) * CHUNK_LEN);
        }
        match sealer.push(chunk) {
            Some(sealed_chunk) => {
                append(&mut out, sealed_chunk.as_slice());
            },
            None => {
                proof {
                    lemma_seal_none(
                        alg,
                        key@,
                        base@,
                        aad@,
                        out@,
                        pt@.subrange(0, pos as int),
                        count as nat,
                        chunk@,
                        rest,
                    );
                }
                return None;
            },
        }
        assert(pt@.subrange(0, pos as int) + chunk@ =~= pt@.subrange(0, pos + CHUNK_LEN));
        pos += CHUNK_LEN;
        count += 1;
    }
    let tail = slice_subrange(pt, pos, pt.len());
    assert(pt@.subrange(0, pos as int) + tail@ =~= pt@);
    assert(tail@ + Seq::<u8>::empty() =~= tail@);
    assert(pt@.len() / (CHUNK_LEN as nat) == count) by {
        assert(count * CHUNK_LEN <= pt@.len() < (count + 1) * CHUNK_LEN);
    }
    match sealer.push(tail) {
        Some(sealed_tail) => {
            append(&mut out, sealed_tail.as_slice());
            Some(out)
        },
        None => {
            proof {
                lemma_seal_none(
                    alg,
                    key@,
                    base@,
                    aad@,
                    out@,
                    pt@.subrange(0, pos as int),
                    count as nat,
                    tail@,
                    Seq::empty(),
                );
            }
            None
        },
    }
}

/// Opens a stream of sealed chunks. Returns nothing as soon as a chunk does
/// not open.
pub fn decrypt_stream(alg: Algorithm, key: &[u8], base: &[u8], aad: &[u8], ct: &[u8]) -> (out:
    Option<Vec<u8>>)
    ensures
        bytes_of(out) == decrypt_chunks(alg, key@, base@, aad@, ct@, 0),
{
    let mut opener = Opener::new(alg, key, base, aad);
    let mut out: Vec<u8> = Vec::new();
    let mut pos: usize = 0;
    while ct.len() - pos >= SEALED_CHUNK_LEN
        invariant
            pos <= ct@.len(),
            opener.wf(),
            !opener.finished(),
            opener.algorithm() == alg,
            opener.key() == key@,
            opener.base() == base@,
            opener.aad() == aad@,
            opener.taken() == ct@.subrange(0, pos as int),
            opener.given() == out@,
        decreases ct@.len() - pos,
    {
        let chunk = slice_subrange(ct, pos, pos + SEALED_CHUNK_LEN);
        let ghost rest = ct@.subrange(pos + SEALED_CHUNK_LEN, ct@.len() as int);
        let ghost i = opener.index();
        assert(ct@.subrange(0, pos as int) + (chunk@ + rest) =~= ct@);
        match opener.push(chunk) {
            Some(opened_chunk) => {
                append(&mut out, opened_chunk.as_slice());
            },
            None => {
                proof {
                    lemma_open_none(
                        alg,
                        key@,
                        base@,
                        aad@,
                        ct@.subrange(0, pos as int),
                        out@,
                        i,
                        chunk@,
                        rest,
                    );
                }
                return None;
            },
        }
        assert(ct@.subrange(0, pos as int) + chunk@ =~= ct@.subrange(0, pos + SEALED_CHUNK_LEN));
        pos += SEALED_CHUNK_LEN;
    }
    let tail = slice_subrange(ct, pos, ct.len());
    let ghost i = opener.index();
    assert(ct@.subrange(0, pos as int) + tail@ =~= ct@);
    assert(tail@ + Seq::<u8>::empty() =~= tail@);
    match opener.push(tail) {
        Some(opened_tail) => {
            append(&mut out, opened_tail.as_slice());
            Some(out)
        },
        None => {
            proof {
                lemma_open_none(
                    alg,
                    key@,
                    base@,
                    aad@,
                    ct@.subrange(0, pos as int),
                    out@,
                    i,
                    tail@,
                    Seq::empty(),
                );
            }
            None
        },
    }
}

} // verus!

//! The header of an encrypted file: a fixed block of 64 bytes and, from
//! version V4 on, up to four keyslot regions of 156 bytes each.
//!
//! Fixed block: `D X`, then the version, algorithm and mode tags, then the
//! stream nonce from offset 8 on, then zeros. A V3 header keeps its salt in
//! the last 16 bytes of the block.
//!
//! Keyslot region: the sealed master key (48 bytes), the nonce it was sealed
//! under (24), the salt of the password hash (16), the tag of the password
//! hash (2) and 66 reserved bytes. A region of zeros is an empty keyslot.

use crate::bytes::{all_zero, append, append_zeros, copy_range, is_zero, zeros};
use crate::error::Error;
use crate::format::{hi_byte, le16, lo_byte, read_le16, write_le16};
use crate::format::{
    Algorithm, HashAlgorithm, Mode, Version, FIXED_LEN, FULL_HEADER_LEN, MAGIC_0, MAGIC_1,
    SLOT_LEN,
};
use vstd::slice::slice_subrange;
use vstd::prelude::*;

verus! {

/// One populated keyslot: the master key, sealed under a key that a
/// password hash derives from a secret and this slot's salt.
#[derive(Clone, Debug, PartialEq, Eq)]
pub struct Keyslot {
    pub hash_algorithm: HashAlgorithm,
    pub encrypted_key: Vec<u8>,
    pub nonce: Vec<u8>,
    pub salt: Vec<u8>,
}

/// What a [`Keyslot`] holds.
pub struct KeyslotView {
    pub hash_algorithm: HashAlgorithm,
    pub encrypted_key: Seq<u8>,
    pub nonce: Seq<u8>,
    pub salt: Seq<u8>,
}

impl View for Keyslot {
    type V = KeyslotView;

    open spec fn view(&self) -> KeyslotView {
        KeyslotView {
            hash_algorithm: self.hash_algorithm,
            encrypted_key: self.encrypted_key@,
            nonce: self.nonce@,
            salt: self.salt@,
        }
    }
}

impl KeyslotView {
    /// Whether each field has the length that its place in a region has.
    pub open spec fn wf(self) -> bool {
        &&& self.encrypted_key.len() == 48
        &&& self.nonce.len() == 24
        &&& self.salt.len() == 16
    }

    /// The 156 bytes of the region that holds this keyslot.
    pub open spec fn to_bytes(self) -> Seq<u8> {
        self.encrypted_key + self.nonce + self.salt + seq![
            lo_byte(self.hash_algorithm.tag()),
            hi_byte(self.hash_algorithm.tag()),
        ] + zeros(66)
    }
}

/// What an optional keyslot holds.
pub open spec fn slot_view(slot: Option<Keyslot>) -> Option<KeyslotView> {
    match slot {
        Some(k) => Some(k@),
        None => None,
    }
}

/// What a table of keyslots holds.
pub open spec fn slots_view(slots: Seq<Option<Keyslot>>) -> Seq<Option<KeyslotView>> {
    Seq::new(slots.len(), |i: int| slot_view(slots[i]))
}

/// The 156 bytes of a region: those of its keyslot, or zeros.
pub open spec fn slot_bytes(slot: Option<KeyslotView>) -> Seq<u8> {
    match slot {
        Some(k) => k.to_bytes(),
        None => zeros(156),
    }
}

/// The regions of a table of keyslots, one after the other.
pub open spec fn slots_bytes(slots: Seq<Option<KeyslotView>>) -> Seq<u8>
    decreases slots.len(),
{
    if slots.len() == 0 {
        Seq::empty()
    } else {
        slots_bytes(slots.drop_last()) + slot_bytes(slots.last())
    }
}

/// What a region of 156 bytes holds: no keyslot where it is all zeros, else
/// the keyslot whose password hash its tag names. A region that is not zero
/// and carries an unknown tag is malformed, and so is one of another length.
pub open spec fn parse_slot(region: Seq<u8>) -> Result<Option<KeyslotView>, Error> {
    if region.len() != 156 {
        Err(Error::InvalidFormat)
    } else if is_zero(region) {
        Ok(None)
    } else {
        match HashAlgorithm::of_tag(le16(region[88], region[89])) {
            Some(h) => Ok(
                Some(
                    KeyslotView {
                        hash_algorithm: h,
                        encrypted_key: region.subrange(0, 48),
                        nonce: region.subrange(48, 72),
                        salt: region.subrange(72, 88),
                    },
                ),
            ),
            None => Err(Error::InvalidFormat),
        }
    }
}

/// The offset of the `i`-th keyslot region in a file.
pub open spec fn region_start(i: nat) -> int {
    (64 + 156 * i) as int
}

/// The `i`-th keyslot region of a file.
pub open spec fn slot_region(bytes: Seq<u8>, i: int) -> Seq<u8> {
    bytes.subrange(64 + 156 * i, 220 + 156 * i)
}

/// How many whole keyslot regions, at most four, follow the fixed block in
/// a buffer of `len` bytes.
pub open spec fn region_count(len: nat) -> nat {
    if len < 220 {
        0
    } else if len < 376 {
        1
    } else if len < 532 {
        2
    } else if len < 688 {
        3
    } else {
        4
    }
}

/// A header, as its fields.
#[derive(Clone, Debug, PartialEq, Eq)]
pub struct Header {
    pub version: Version,
    pub algorithm: Algorithm,
    pub mode: Mode,
    /// The nonce of the body: the whole AEAD nonce in memory mode, all but
    /// its last four bytes in stream mode.
    pub nonce: Vec<u8>,
    /// The salt of the one implicit key of a V3 header; empty otherwise.
    pub salt: Vec<u8>,
    /// The keyslot table, an entry per region; empty in a V3 header.
    pub keyslots: Vec<Option<Keyslot>>,
}

/// What a [`Header`] holds.
pub struct HeaderView {
    pub version: Version,
    pub algorithm: Algorithm,
    pub mode: Mode,
    pub nonce: Seq<u8>,
    pub salt: Seq<u8>,
    pub keyslots: Seq<Option<KeyslotView>>,
}

impl View for Header {
    type V = HeaderView;

    open spec fn view(&self) -> HeaderView {
        HeaderView {
            version: self.version,
            algorithm: self.algorithm,
            mode: self.mode,
            nonce: self.nonce@,
            salt: self.salt@,
            keyslots: slots_view(self.keyslots@),
        }
    }
}

impl HeaderView {
    /// Whether the fields fit the format: the nonce has the length that
    /// algorithm and mode call for; a V3 header has its salt and no keyslot
    /// table; a later one has no salt and at most four keyslots, each with
    /// fields of the right length. A later header without any keyslot is
    /// what the fixed block alone reads as; in a file it has from one to
    /// four.
    pub open spec fn wf(self) -> bool {
        &&& self.nonce.len() == self.algorithm.header_nonce_len(self.mode)
        &&& if self.version.has_keyslots() {
            &&& self.salt.len() == 0
            &&& self.keyslots.len() <= 4
            &&& forall|i: int|
                0 <= i < self.keyslots.len() ==> (#[trigger] self.keyslots[i] matches Some(k)
                    ==> k.wf())
        } else {
            &&& self.salt.len() == 16
            &&& self.keyslots.len() == 0
        }
    }

    /// The 64 bytes of the fixed block.
    pub open spec fn fixed_bytes(self) -> Seq<u8> {
        let tags = seq![
            0x44u8,
            0x58u8,
            lo_byte(self.version.tag()),
            hi_byte(self.version.tag()),
            lo_byte(self.algorithm.tag()),
            hi_byte(self.algorithm.tag()),
            lo_byte(self.mode.tag()),
            hi_byte(self.mode.tag()),
        ];
        if self.version.has_keyslots() {
            tags + self.nonce + zeros((56 - self.nonce.len()) as nat)
        } else {
            tags + self.nonce + zeros((40 - self.nonce.len()) as nat) + self.salt
        }
    }

    /// The serialized header: the fixed block, then one region per keyslot.
    pub open spec fn to_bytes(self) -> Seq<u8> {
        self.fixed_bytes() + slots_bytes(self.keyslots)
    }
}

/// The three tags of a fixed block, where the block is at least 64 bytes
/// long, starts with `DX` and all three tags are known.
pub open spec fn parse_tags(bytes: Seq<u8>) -> Option<(Version, Algorithm, Mode)> {
    if bytes.len() < 64 || bytes[0] != 0x44 || bytes[1] != 0x58 {
        None
    } else {
        match (
            Version::of_tag(le16(bytes[2], bytes[3])),
            Algorithm::of_tag(le16(bytes[4], bytes[5])),
            Mode::of_tag(le16(bytes[6], bytes[7])),
        ) {
            (Some(v), Some(a), Some(m)) => Some((v, a, m)),
            _ => None,
        }
    }
}

/// The keyslots of the first `n` regions of a file.
pub open spec fn parse_slots(bytes: Seq<u8>, n: nat) -> Seq<Option<KeyslotView>> {
    Seq::new(n, |i: int| parse_slot(slot_region(bytes, i)).unwrap())
}

/// Whether each of the first `n` regions of a file is well-formed.
pub open spec fn slots_ok(bytes: Seq<u8>, n: nat) -> bool {
    forall|i: int| 0 <= i < n ==> #[trigger] parse_slot(slot_region(bytes, i)) is Ok
}

/// The header that a file starts with, or nothing where there is none: the
/// file is shorter than 64 bytes, does not start with `DX`, carries an
/// unknown version, algorithm or mode tag, or holds a keyslot region that is
/// not zero and carries an unknown hash tag. Padding and reserved bytes are
/// skipped. From V4 on, as many whole keyslot regions are read as the file
/// holds after the fixed block, at most four.
pub open spec fn parse_header(bytes: Seq<u8>) -> Option<HeaderView> {
    match parse_tags(bytes) {
        None => None,
        Some((version, algorithm, mode)) => {
            let nonce = bytes.subrange(8, 8 + algorithm.header_nonce_len(mode) as int);
            if version.has_keyslots() {
                let n = region_count(bytes.len());
                if slots_ok(bytes, n) {
                    Some(
                        HeaderView {
                            version,
                            algorithm,
                            mode,
                            nonce,
                            salt: Seq::empty(),
                            keyslots: parse_slots(bytes, n),
                        },
                    )
                } else {
                    None
                }
            } else {
                Some(
                    HeaderView {
                        version,
                        algorithm,
                        mode,
                        nonce,
                        salt: bytes.subrange(48, 64),
                        keyslots: Seq::empty(),
                    },
                )
            }
        },
    }
}

/// How many bytes of a file its header takes: 64 for V3, and from V4 on 156
/// more for each keyslot region read. Zero where the fixed block is not one.
pub open spec fn header_len(bytes: Seq<u8>) -> nat {
    match parse_tags(bytes) {
        None => 0,
        Some((version, _, _)) => if version.has_keyslots() {
            64 + 156 * region_count(bytes.len())
        } else {
            64
        },
    }
}

impl Keyslot {
    /// Whether each field has the length that its place in a region has.
    pub fn is_wf(&self) -> (b: bool)
        ensures
            b == self@.wf(),
    {
        self.encrypted_key.len() == 48 && self.nonce.len() == 24 && self.salt.len() == 16
    }

    /// The region that holds this keyslot.
    pub fn to_bytes(&self) -> (out: Vec<u8>)
        requires
            self@.wf(),
        ensures
            out@ == self@.to_bytes(),
            out@.len() == 156,
    {
        let mut out: Vec<u8> = Vec::new();
        append(&mut out, self.encrypted_key.as_slice());
        append(&mut out, self.nonce.as_slice());
        append(&mut out, self.salt.as_slice());
        let tag = write_le16(self.hash_algorithm.to_tag());
        out.push(tag.0);
        out.push(tag.1);
        append_zeros(&mut out, 66);
        assert(out@ =~= self@.to_bytes());
        out
    }

    /// Reads one keyslot region.
    pub fn parse(region: &[u8]) -> (r: Result<Option<Keyslot>, Error>)
        ensures
            match parse_slot(region@) {
                Ok(slot) => r matches Ok(s) && slot_view(s) == slot,
                Err(e) => r matches Err(x) && x == e,
            },
            r matches Ok(Some(k)) ==> k@.wf(),
    {
        if region.len() != SLOT_LEN {
            return Err(Error::InvalidFormat);
        }
        assert(region@.subrange(0, 156) =~= region@);
        if all_zero(region, 0, SLOT_LEN) {
            return Ok(None);
        }
        match HashAlgorithm::from_tag(read_le16(region[88], region[89])) {
            Some(h) => Ok(
                Some(
                    Keyslot {
                        hash_algorithm: h,
                        encrypted_key: copy_range(region, 0, 48),
                        nonce: copy_range(region, 48, 72),
                        salt: copy_range(region, 72, 88),
                    },
                ),
            ),
            None => Err(Error::InvalidFormat),
        }
    }
}

/// The offset of the `i`-th keyslot region in a file.
pub fn region_offset(i: usize) -> (at: usize)
    requires
        i < 4,
    ensures
        at == region_start(i as nat),
        at + 156 <= 688,
{
    FIXED_LEN + SLOT_LEN * i
}

/// How many whole keyslot regions, at most four, a buffer of `len` bytes
/// holds after the fixed block.
pub fn count_regions(len: usize) -> (n: usize)
    ensures
        n == region_count(len as nat),
        n <= 4,
        n > 0 ==> 64 + 156 * n <= len,
{
    if len >= FULL_HEADER_LEN {
        4
    } else if len < FIXED_LEN {
        0
    } else {
        (len - FIXED_LEN) / SLOT_LEN
    }
}

impl Header {
    /// Whether the fields fit the format, which is what [`Header::serialize`]
    /// asks for.
    pub fn is_wf(&self) -> (b: bool)
        ensures
            b == self@.wf(),
    {
        if self.nonce.len() != self.algorithm.stored_nonce_len(self.mode) {
            return false;
        }
        if !self.version.uses_keyslots() {
            return self.salt.len() == 16 && self.keyslots.len() == 0;
        }
        if self.salt.len() != 0 || self.keyslots.len() > 4 {
            return false;
        }
        let mut i: usize = 0;
        while i < self.keyslots.len()
            invariant
                i <= self.keyslots@.len(),
                forall|j: int|
                    0 <= j < i ==> (#[trigger] self@.keyslots[j] matches Some(k) ==> k.wf()),
            decreases self.keyslots@.len() - i,
        {
            match &self.keyslots[i] {
                Some(k) => {
                    assert(self@.keyslots[i as int] == Some(k@));
                    if !k.is_wf() {
                        return false;
                    }
                },
                None => {
                    assert(self@.keyslots[i as int] is None);
                },
            }
            i += 1;
        }
        true
    }

    /// Reads the header that `bytes` starts with. Returns it together with
    /// the bytes that were read, which are the associated data of the body.
    pub fn deserialize(bytes: &[u8]) -> (r: Result<(Header, Vec<u8>), Error>)
        ensures
            match parse_header(bytes@) {
                Some(h) => r matches Ok((header, aad)) && header@ == h && h.wf() && aad@
                    == bytes@.subrange(0, header_len(bytes@) as int) && header_len(bytes@)
                    <= bytes@.len(),
                None => r matches Err(e) && e == Error::InvalidFormat,
            },
    {
        if bytes.len() < FIXED_LEN || bytes[0] != MAGIC_0 || bytes[1] != MAGIC_1 {
            return Err(Error::InvalidFormat);
        }
        let version = match Version::from_tag(read_le16(bytes[2], bytes[3])) {
            Some(v) => v,
            None => {
                return Err(Error::InvalidFormat);
            },
        };
        let algorithm = match Algorithm::from_tag(read_le16(bytes[4], bytes[5])) {
            Some(a) => a,
            None => {
                return Err(Error::InvalidFormat);
            },
        };
        let mode = match Mode::from_tag(read_le16(bytes[6], bytes[7])) {
            Some(m) => m,
            None => {
                return Err(Error::InvalidFormat);
            },
        };
        let n: usize = algorithm.stored_nonce_len(mode);
        let nonce = copy_range(bytes, 8, 8 + n);
        if !version.uses_keyslots() {
            let header = Header {
                version,
                algorithm,
                mode,
                nonce,
                salt: copy_range(bytes, 48, 64),
                keyslots: Vec::new(),
            };
            assert(header@.keyslots =~= Seq::empty());
            return Ok((header, copy_range(bytes, 0, FIXED_LEN)));
        }
        let count: usize = count_regions(bytes.len());
        let mut keyslots: Vec<Option<Keyslot>> = Vec::new();
        let mut i: usize = 0;
        while i < count
            invariant
                i <= count <= 4,
                count == region_count(bytes@.len()),
                parse_tags(bytes@) == Some((version, algorithm, mode)),
                version.has_keyslots(),
                count > 0 ==> 64 + 156 * count <= bytes@.len(),
                keyslots@.len() == i,
                forall|j: int|
                    0 <= j < i ==> #[trigger] parse_slot(slot_region(bytes@, j)) == Ok::<
                        Option<KeyslotView>,
                        Error,
                    >(slot_view(keyslots@[j])),
                forall|j: int|
                    0 <= j < i ==> (#[trigger] keyslots@[j] matches Some(k) ==> k@.wf()),
            decreases count - i,
        {
            let at: usize = region_offset(i);
            let region = slice_subrange(bytes, at, at + SLOT_LEN);
            match Keyslot::parse(region) {
                Ok(slot) => {
                    keyslots.push(slot);
                },
                Err(_) => {
                    assert(parse_slot(slot_region(bytes@, i as int)) is Err);
                    return Err(Error::InvalidFormat);
                },
            }
            i += 1;
        }
        let aad = copy_range(bytes, 0, FIXED_LEN + SLOT_LEN * count);
        let header = Header {
            version,
            algorithm,
            mode,
            nonce,
            salt: Vec::new(),
            keyslots,
        };
        assert(header@.keyslots =~= parse_slots(bytes@, count as nat));
        Ok((header, aad))
    }

    /// The bytes of this header: its fixed block, then a region for each
    /// entry of its keyslot table.
    pub fn serialize(&self) -> (out: Vec<u8>)
        requires
            self@.wf(),
        ensures
            out@ == self@.to_bytes(),
            out@.len() == 64 + 156 * self.keyslots@.len(),
    {
        let mut out: Vec<u8> = Vec::new();
        out.push(MAGIC_0);
        out.push(MAGIC_1);
        let v = write_le16(self.version.to_tag());
        out.push(v.0);
        out.push(v.1);
        let a = write_le16(self.algorithm.to_tag());
        out.push(a.0);
        out.push(a.1);
        let m = write_le16(self.mode.to_tag());
        out.push(m.0);
        out.push(m.1);
        append(&mut out, self.nonce.as_slice());
        if self.version.uses_keyslots() {
            append_zeros(&mut out, 56 - self.nonce.len());
        } else {
            append_zeros(&mut out, 40 - self.nonce.len());
            append(&mut out, self.salt.as_slice());
        }
        assert(out@ =~= self@.fixed_bytes());
        let mut i: usize = 0;
        while i < self.keyslots.len()
            invariant
                i <= self.keyslots@.len(),
                self@.wf(),
                out@ == self@.fixed_bytes() + slots_bytes(self@.keyslots.take(i as int)),
                out@.len() == 64 + 156 * i,
            decreases self.keyslots@.len() - i,
        {
            assert(self@.keyslots.take(i + 1).drop_last() =~= self@.keyslots.take(i as int));
            assert(self@.keyslots.take(i + 1).last() == self@.keyslots[i as int]);
            match &self.keyslots[i] {
                Some(k) => {
                    assert(self@.keyslots[i as int] == Some(k@));
                    let region = k.to_bytes();
                    append(&mut out, region.as_slice());
                },
                None => {
                    append_zeros(&mut out, SLOT_LEN);
                },
            }
            i += 1;
            assert(out@ =~= self@.fixed_bytes() + slots_bytes(self@.keyslots.take(i as int)));
        }
        assert(self@.keyslots.take(i as int) =~= self@.keyslots);
        out
    }
}

/// Two bytes that a tag was split into hold that tag.
pub proof fn lemma_le16(t: u16)
    ensures
        le16(lo_byte(t), hi_byte(t)) == t,
{
}

/// A table of well-formed keyslots takes 156 bytes per entry, and each
/// region of it holds the bytes of its entry.
pub proof fn lemma_slots_bytes(slots: Seq<Option<KeyslotView>>)
    requires
        forall|i: int| 0 <= i < slots.len() ==> (#[trigger] slots[i] matches Some(k) ==> k.wf()),
    ensures
        slots_bytes(slots).len() == 156 * slots.len(),
        forall|i: int|
            0 <= i < slots.len() ==> #[trigger] slots_bytes(slots).subrange(
                156 * i,
                156 * i + 156,
            ) == slot_bytes(slots[i]),
    decreases slots.len(),
{
    if slots.len() > 0 {
        let front = slots.drop_last();
        lemma_slots_bytes(front);
        let all = slots_bytes(slots);
        assert(slot_bytes(slots.last()).len() == 156);
        assert forall|i: int| 0 <= i < slots.len() implies #[trigger] all.subrange(
            156 * i,
            156 * i + 156,
        ) == slot_bytes(slots[i]) by {
            if i < front.len() {
                assert(all.subrange(156 * i, 156 * i + 156) =~= slots_bytes(front).subrange(
                    156 * i,
                    156 * i + 156,
                ));
                assert(front[i] == slots[i]);
            } else {
                assert(all.subrange(156 * i, 156 * i + 156) =~= slot_bytes(slots.last()));
            }
        }
    }
}

/// A region that was written for a keyslot reads back as that keyslot, and
/// a region of zeros as no keyslot.
pub proof fn lemma_parse_slot_bytes(slot: Option<KeyslotView>)
    requires
        slot matches Some(k) ==> k.wf(),
    ensures
        parse_slot(slot_bytes(slot)) == Ok::<Option<KeyslotView>, Error>(slot),
{
    match slot {
        Some(k) => {
            let region = k.to_bytes();
            lemma_le16(k.hash_algorithm.tag());
            assert(region[88] == lo_byte(k.hash_algorithm.tag()));
            assert(region[89] == hi_byte(k.hash_algorithm.tag()));
            assert(region[88] != 0);
            assert(region.subrange(0, 48) =~= k.encrypted_key);
            assert(region.subrange(48, 72) =~= k.nonce);
            assert(region.subrange(72, 88) =~= k.salt);
        },
        None => {},
    }
}

/// Reading inverts writing: a well-formed header that is serialized and
/// followed by any bytes `rest` reads back as itself, and the bytes read are
/// those that were written. Where the header carries fewer than four
/// keyslot regions, `rest` must be shorter than a region, since the reader
/// takes every whole region that it finds.
pub proof fn lemma_parse_serialized(h: HeaderView, rest: Seq<u8>)
    requires
        h.wf(),
        h.version.has_keyslots() && h.keyslots.len() < 4 ==> rest.len() < 156,
    ensures
        parse_header(h.to_bytes() + rest) == Some(h),
        header_len(h.to_bytes() + rest) == h.to_bytes().len(),
        (h.to_bytes() + rest).subrange(0, h.to_bytes().len() as int) == h.to_bytes(),
{
    let bytes = h.to_bytes() + rest;
    let fixed = h.fixed_bytes();
    lemma_le16(h.version.tag());
    lemma_le16(h.algorithm.tag());
    lemma_le16(h.mode.tag());
    lemma_slots_bytes(h.keyslots);
    assert(fixed.len() == 64);
    assert(bytes[0] == fixed[0] && bytes[1] == fixed[1] && bytes[2] == fixed[2] && bytes[3]
        == fixed[3]);
    assert(bytes[4] == fixed[4] && bytes[5] == fixed[5] && bytes[6] == fixed[6] && bytes[7]
        == fixed[7]);
    assert(parse_tags(bytes) == Some((h.version, h.algorithm, h.mode)));
    assert(bytes.subrange(8, 8 + h.nonce.len() as int) =~= h.nonce);
    assert(bytes.subrange(0, h.to_bytes().len() as int) =~= h.to_bytes());
    if h.version.has_keyslots() {
        let n = h.keyslots.len();
        assert(region_count(bytes.len()) == n);
        assert forall|i: int| 0 <= i < n implies #[trigger] parse_slot(slot_region(bytes, i))
            == Ok::<Option<KeyslotView>, Error>(h.keyslots[i]) by {
            assert(slot_region(bytes, i) =~= slots_bytes(h.keyslots).subrange(
                156 * i,
                156 * i + 156,
            ));
            lemma_parse_slot_bytes(h.keyslots[i]);
        }
        assert(parse_slots(bytes, n) =~= h.keyslots);
        assert(h.salt =~= Seq::empty());
    } else {
        assert(bytes.subrange(48, 64) =~= h.salt);
        assert(h.keyslots =~= Seq::empty());
    }
}

/// A header is decided by the leading bytes of a file: whoever reads the
/// first 688 bytes, or the whole of a shorter file, reads the same header
/// as from the whole file, and the same bytes of it.
pub proof fn lemma_header_prefix(bytes: Seq<u8>, n: nat)
    requires
        n <= bytes.len(),
        n >= 688 || n == bytes.len(),
    ensures
        parse_header(bytes.subrange(0, n as int)) == parse_header(bytes),
        header_len(bytes.subrange(0, n as int)) == header_len(bytes),
        parse_header(bytes) is Some ==> bytes.subrange(0, n as int).subrange(
            0,
            header_len(bytes) as int,
        ) == bytes.subrange(0, header_len(bytes) as int),
{
    let lead = bytes.subrange(0, n as int);
    if n == bytes.len() {
        assert(lead =~= bytes);
    } else {
        let count = region_count(bytes.len());
        assert(region_count(lead.len()) == 4 && count == 4);
        if bytes.len() >= 64 {
            assert(lead[0] == bytes[0] && lead[1] == bytes[1] && lead[2] == bytes[2] && lead[3]
                == bytes[3]);
            assert(lead[4] == bytes[4] && lead[5] == bytes[5] && lead[6] == bytes[6] && lead[7]
                == bytes[7]);
        }
        assert(parse_tags(lead) == parse_tags(bytes));
        match parse_tags(bytes) {
            Some((version, algorithm, mode)) => {
                let len = algorithm.header_nonce_len(mode) as int;
                assert(lead.subrange(8, 8 + len) =~= bytes.subrange(8, 8 + len));
                assert(lead.subrange(48, 64) =~= bytes.subrange(48, 64));
                assert forall|i: int| 0 <= i < 4 implies #[trigger] slot_region(lead, i)
                    == slot_region(bytes, i) by {
                    assert(slot_region(lead, i) =~= slot_region(bytes, i));
                }
                if version.has_keyslots() {
                    if slots_ok(bytes, 4) {
                        assert forall|i: int| 0 <= i < 4 implies #[trigger] parse_slot(
                            slot_region(lead, i),
                        ) is Ok by {
                            assert(slot_region(lead, i) == slot_region(bytes, i));
                            assert(parse_slot(slot_region(bytes, i)) is Ok);
                        }
                        assert(parse_slots(lead, 4) =~= parse_slots(bytes, 4));
                    } else {
                        let i = choose|i: int|
                            0 <= i < 4 && !(#[trigger] parse_slot(slot_region(bytes, i)) is Ok);
                        assert(slot_region(lead, i) == slot_region(bytes, i));
                        assert(!(parse_slot(slot_region(lead, i)) is Ok));
                    }
                }
                assert(lead.subrange(0, header_len(bytes) as int) =~= bytes.subrange(
                    0,
                    header_len(bytes) as int,
                ));
            },
            None => {},
        }
    }
}

} // verus!

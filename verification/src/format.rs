//! The tag registry and the sizes of the file format.
//!
//! Every tag is a `u16` that is stored little-endian: the low byte first.

use vstd::prelude::*;

verus! {

/// First byte of every header, `D`.
pub const MAGIC_0: u8 = 0x44;

/// Second byte of every header, `X`.
pub const MAGIC_1: u8 = 0x58;

/// Length of the fixed leading block of a header.
pub const FIXED_LEN: usize = 64;

/// Length of one keyslot region.
pub const SLOT_LEN: usize = 156;

/// Number of keyslot regions that a header can hold.
pub const MAX_SLOTS: usize = 4;

/// Length of a complete header that carries all its keyslot regions.
pub const FULL_HEADER_LEN: usize = 688;

/// Length of one plaintext chunk of a stream.
pub const CHUNK_LEN: usize = 1_048_576;

/// Length of one sealed full chunk of a stream.
pub const SEALED_CHUNK_LEN: usize = 1_048_592;

/// The `u16` that two bytes hold, low byte first.
pub open spec fn le16(lo: u8, hi: u8) -> u16 {
    (lo as int + 256 * (hi as int)) as u16
}

/// The low byte of a tag.
pub open spec fn lo_byte(t: u16) -> u8 {
    (t % 256) as u8
}

/// The high byte of a tag.
pub open spec fn hi_byte(t: u16) -> u8 {
    (t / 256) as u8
}

/// Reads a little-endian `u16`.
pub fn read_le16(lo: u8, hi: u8) -> (t: u16)
    ensures
        t == le16(lo, hi),
        lo_byte(t) == lo,
        hi_byte(t) == hi,
{
    let low: u16 = lo as u16;
    let high: u16 = hi as u16;
    low + 256 * high
}

/// Splits a tag into its two bytes, low byte first.
pub fn write_le16(t: u16) -> (b: (u8, u8))
    ensures
        b.0 == lo_byte(t),
        b.1 == hi_byte(t),
        le16(b.0, b.1) == t,
{
    ((t % 256) as u8, (t / 256) as u8)
}

/// The format version of a header.
#[derive(Clone, Copy, Debug, PartialEq, Eq, Structural)]
pub enum Version {
    /// One implicit key, derived from the salt in the fixed block.
    V3,
    /// A keyslot table follows the fixed block.
    V4,
    /// The version that new files are written in.
    V5,
}

impl Version {
    /// The tag that stands for this version.
    pub open spec fn tag(self) -> u16 {
        match self {
            Version::V3 => 0x0A01,
            Version::V4 => 0x0B01,
            Version::V5 => 0x0C01,
        }
    }

    /// The version that a tag stands for, if any.
    pub open spec fn of_tag(t: u16) -> Option<Version> {
        if t == 0x0A01 {
            Some(Version::V3)
        } else if t == 0x0B01 {
            Some(Version::V4)
        } else if t == 0x0C01 {
            Some(Version::V5)
        } else {
            None
        }
    }

    /// Whether headers of this version carry a keyslot table.
    pub open spec fn has_keyslots(self) -> bool {
        self != Version::V3
    }

    /// The tag that stands for this version.
    pub fn to_tag(self) -> (t: u16)
        ensures
            t == self.tag(),
            Self::of_tag(t) == Some(self),
    {
        match self {
            Version::V3 => 0x0A01,
            Version::V4 => 0x0B01,
            Version::V5 => 0x0C01,
        }
    }

    /// The version that a tag stands for, if any.
    pub fn from_tag(t: u16) -> (v: Option<Version>)
        ensures
            v == Self::of_tag(t),
            v matches Some(x) ==> x.tag() == t,
    {
        if t == 0x0A01 {
            Some(Version::V3)
        } else if t == 0x0B01 {
            Some(Version::V4)
        } else if t == 0x0C01 {
            Some(Version::V5)
        } else {
            None
        }
    }

    /// Whether headers of this version carry a keyslot table.
    pub fn uses_keyslots(self) -> (b: bool)
        ensures
            b == self.has_keyslots(),
    {
        match self {
            Version::V3 => false,
            Version::V4 => true,
            Version::V5 => true,
        }
    }
}

/// Whether the body is a chunked stream or a single sealed message.
#[derive(Clone, Copy, Debug, PartialEq, Eq, Structural)]
pub enum Mode {
    /// The body is a stream of sealed chunks.
    Stream,
    /// The body is one sealed message.
    Memory,
}

impl Mode {
    /// The tag that stands for this mode.
    pub open spec fn tag(self) -> u16 {
        match self {
            Mode::Stream => 0x0C01,
            Mode::Memory => 0x0C02,
        }
    }

    /// The mode that a tag stands for, if any.
    pub open spec fn of_tag(t: u16) -> Option<Mode> {
        if t == 0x0C01 {
            Some(Mode::Stream)
        } else if t == 0x0C02 {
            Some(Mode::Memory)
        } else {
            None
        }
    }

    /// The tag that stands for this mode.
    pub fn to_tag(self) -> (t: u16)
        ensures
            t == self.tag(),
            Self::of_tag(t) == Some(self),
    {
        match self {
            Mode::Stream => 0x0C01,
            Mode::Memory => 0x0C02,
        }
    }

    /// The mode that a tag stands for, if any.
    pub fn from_tag(t: u16) -> (m: Option<Mode>)
        ensures
            m == Self::of_tag(t),
            m matches Some(x) ==> x.tag() == t,
    {
        if t == 0x0C01 {
            Some(Mode::Stream)
        } else if t == 0x0C02 {
            Some(Mode::Memory)
        } else {
            None
        }
    }
}

/// The AEAD that seals the body.
#[derive(Clone, Copy, Debug, PartialEq, Eq, Structural)]
pub enum Algorithm {
    Aes256Gcm,
    XChaCha20Poly1305,
    DeoxysII256,
}

impl Algorithm {
    /// The tag that stands for this algorithm.
    pub open spec fn tag(self) -> u16 {
        match self {
            Algorithm::Aes256Gcm => 0x0E01,
            Algorithm::XChaCha20Poly1305 => 0x0E02,
            Algorithm::DeoxysII256 => 0x0E03,
        }
    }

    /// The algorithm that a tag stands for, if any.
    pub open spec fn of_tag(t: u16) -> Option<Algorithm> {
        if t == 0x0E01 {
            Some(Algorithm::Aes256Gcm)
        } else if t == 0x0E02 {
            Some(Algorithm::XChaCha20Poly1305)
        } else if t == 0x0E03 {
            Some(Algorithm::DeoxysII256)
        } else {
            None
        }
    }

    /// Length of the nonce that one call of the AEAD takes.
    pub open spec fn aead_nonce_len(self) -> nat {
        match self {
            Algorithm::Aes256Gcm => 12,
            Algorithm::XChaCha20Poly1305 => 24,
            Algorithm::DeoxysII256 => 15,
        }
    }

    /// Length of the nonce that a header records: in stream mode the last
    /// four bytes of the AEAD nonce are the chunk counter and are not stored.
    pub open spec fn header_nonce_len(self, mode: Mode) -> nat {
        match mode {
            Mode::Stream => (self.aead_nonce_len() - 4) as nat,
            Mode::Memory => self.aead_nonce_len(),
        }
    }

    /// The tag that stands for this algorithm.
    pub fn to_tag(self) -> (t: u16)
        ensures
            t == self.tag(),
            Self::of_tag(t) == Some(self),
    {
        match self {
            Algorithm::Aes256Gcm => 0x0E01,
            Algorithm::XChaCha20Poly1305 => 0x0E02,
            Algorithm::DeoxysII256 => 0x0E03,
        }
    }

    /// The algorithm that a tag stands for, if any.
    pub fn from_tag(t: u16) -> (a: Option<Algorithm>)
        ensures
            a == Self::of_tag(t),
            a matches Some(x) ==> x.tag() == t,
    {
        if t == 0x0E01 {
            Some(Algorithm::Aes256Gcm)
        } else if t == 0x0E02 {
            Some(Algorithm::XChaCha20Poly1305)
        } else if t == 0x0E03 {
            Some(Algorithm::DeoxysII256)
        } else {
            None
        }
    }

    /// Length of the nonce that one call of the AEAD takes.
    pub fn nonce_len(self) -> (n: usize)
        ensures
            n == self.aead_nonce_len(),
            12 <= n <= 24,
    {
        match self {
            Algorithm::Aes256Gcm => 12,
            Algorithm::XChaCha20Poly1305 => 24,
            Algorithm::DeoxysII256 => 15,
        }
    }

    /// Length of the nonce that a header records.
    pub fn stored_nonce_len(self, mode: Mode) -> (n: usize)
        ensures
            n == self.header_nonce_len(mode),
            8 <= n <= 24,
    {
        match mode {
            Mode::Stream => self.nonce_len() - 4,
            Mode::Memory => self.nonce_len(),
        }
    }
}

/// The password hash that turns a secret into a key-encryption key.
#[derive(Clone, Copy, Debug, PartialEq, Eq, Structural)]
pub enum HashAlgorithm {
    Argon2id,
    Blake3Balloon,
}

impl HashAlgorithm {
    /// The tag that stands for this password hash.
    pub open spec fn tag(self) -> u16 {
        match self {
            HashAlgorithm::Argon2id => 0xDF01,
            HashAlgorithm::Blake3Balloon => 0xDF02,
        }
    }

    /// The password hash that a tag stands for, if any.
    pub open spec fn of_tag(t: u16) -> Option<HashAlgorithm> {
        if t == 0xDF01 {
            Some(HashAlgorithm::Argon2id)
        } else if t == 0xDF02 {
            Some(HashAlgorithm::Blake3Balloon)
        } else {
            None
        }
    }

    /// The tag that stands for this password hash.
    pub fn to_tag(self) -> (t: u16)
        ensures
            t == self.tag(),
            Self::of_tag(t) == Some(self),
    {
        match self {
            HashAlgorithm::Argon2id => 0xDF01,
            HashAlgorithm::Blake3Balloon => 0xDF02,
        }
    }

    /// The password hash that a tag stands for, if any.
    pub fn from_tag(t: u16) -> (h: Option<HashAlgorithm>)
        ensures
            h == Self::of_tag(t),
            h matches Some(x) ==> x.tag() == t,
    {
        if t == 0xDF01 {
            Some(HashAlgorithm::Argon2id)
        } else if t == 0xDF02 {
            Some(HashAlgorithm::Blake3Balloon)
        } else {
            None
        }
    }
}

} // verus!

//! The operations on the header of a file: taking a copy of its fixed block,
//! putting a header back, and wiping the fixed block.
//!
//! Each works on bytes that the caller has read and leaves the writing to
//! the caller.

use crate::bytes::{append_zeros, copy_range, overlay, overwrite, zeros};
use crate::error::Error;
use crate::header::{header_len, parse_header, parse_tags, region_count, Header};
use vstd::prelude::*;

verus! {

/// What [`dump`] returns: the first 64 bytes of the file, where there are
/// that many and they are the fixed block of a header.
pub open spec fn dump_spec(file: Seq<u8>) -> Result<Seq<u8>, Error> {
    if file.len() < 64 {
        Err(Error::IoFailure)
    } else if parse_header(file.subrange(0, 64)) is None {
        Err(Error::InvalidFormat)
    } else {
        Ok(file.subrange(0, 64))
    }
}

/// What [`restore`] makes of `target`: the header that `source` starts with
/// is written over the leading bytes of `target`.
pub open spec fn restore_spec(source: Seq<u8>, target: Seq<u8>) -> Result<Seq<u8>, Error> {
    if source.len() < 64 {
        Err(Error::IoFailure)
    } else if parse_header(source) is None {
        Err(Error::InvalidFormat)
    } else {
        Ok(overlay(target, 0, source.subrange(0, header_len(source) as int)))
    }
}

/// What [`strip`] makes of `target`: where it starts with a header, its
/// fixed block is overwritten with zeros.
pub open spec fn strip_spec(target: Seq<u8>) -> Result<Seq<u8>, Error> {
    if parse_header(target) is None {
        Err(Error::InvalidFormat)
    } else {
        Ok(overlay(target, 0, zeros(64)))
    }
}

/// What a file holds after [`strip`] was called on it, whether the call
/// succeeded or not.
pub open spec fn stripped(target: Seq<u8>) -> Seq<u8> {
    match strip_spec(target) {
        Ok(bytes) => bytes,
        Err(_) => target,
    }
}

/// Returns a copy of the fixed block of the header of `file`, for safe
/// keeping. The keyslot regions of a V4 or V5 header are not part of it.
pub fn dump(file: &[u8]) -> (r: Result<Vec<u8>, Error>)
    ensures
        match dump_spec(file@) {
            Ok(block) => r matches Ok(out) && out@ == block,
            Err(e) => r matches Err(x) && x == e,
        },
{
    if file.len() < 64 {
        return Err(Error::IoFailure);
    }
    let block = copy_range(file, 0, 64);
    match Header::deserialize(block.as_slice()) {
        Ok(_) => Ok(block),
        Err(_) => Err(Error::InvalidFormat),
    }
}

/// Writes the header that `source` starts with over the leading bytes of
/// `target`. As many bytes are written as that header is long. On an error
/// `target` is left as it was.
pub fn restore(source: &[u8], target: &mut Vec<u8>) -> (r: Result<(), Error>)
    ensures
        match restore_spec(source@, old(target)@) {
            Ok(bytes) => r is Ok && final(target)@ == bytes,
            Err(e) => r matches Err(x) && x == e && final(target)@ == old(target)@,
        },
{
    if source.len() < 64 {
        return Err(Error::IoFailure);
    }
    match Header::deserialize(source) {
        Ok((_, raw)) => {
            overwrite(target, 0, raw.as_slice());
            Ok(())
        },
        Err(_) => Err(Error::InvalidFormat),
    }
}

/// Overwrites the fixed block of the header of `target` with zeros, after
/// which the file cannot be decrypted until the block is restored. On an
/// error `target` is left as it was.
pub fn strip(target: &mut Vec<u8>) -> (r: Result<(), Error>)
    ensures
        match strip_spec(old(target)@) {
            Ok(bytes) => r is Ok && final(target)@ == bytes,
            Err(e) => r matches Err(x) && x == e && final(target)@ == old(target)@,
        },
        final(target)@ == stripped(old(target)@),
{
    match Header::deserialize(target.as_slice()) {
        Ok(_) => {
            let mut blank: Vec<u8> = Vec::new();
            append_zeros(&mut blank, 64);
            assert(blank@ =~= zeros(64));
            overwrite(target, 0, blank.as_slice());
            Ok(())
        },
        Err(_) => Err(Error::InvalidFormat),
    }
}

/// Restoring a dump of a file to that file leaves it byte for byte as it
/// was; restoring it to the stripped file gives the file back.
pub proof fn lemma_restore_dump(file: Seq<u8>)
    requires
        dump_spec(file) is Ok,
    ensures
        restore_spec(dump_spec(file)->Ok_0, file) == Ok::<Seq<u8>, Error>(file),
        restore_spec(dump_spec(file)->Ok_0, stripped(file)) == Ok::<Seq<u8>, Error>(file),
{
    let block = file.subrange(0, 64);
    assert(dump_spec(file)->Ok_0 == block);
    assert(region_count(block.len()) == 0);
    assert(header_len(block) == 64);
    assert(block.subrange(0, 64) =~= block);
    assert(overlay(file, 0, block) =~= file);
    assert(overlay(stripped(file), 0, block) =~= file);
}

/// Whatever bytes the dumped block is restored over, the result starts with
/// the block and goes on as the target did after its first 64 bytes.
pub proof fn lemma_restore_dump_over(file: Seq<u8>, target: Seq<u8>)
    requires
        dump_spec(file) is Ok,
        target.len() >= 64,
    ensures
        restore_spec(dump_spec(file)->Ok_0, target) == Ok::<Seq<u8>, Error>(
            file.subrange(0, 64) + target.subrange(64, target.len() as int),
        ),
{
    let block = file.subrange(0, 64);
    assert(region_count(block.len()) == 0);
    assert(header_len(block) == 64);
    assert(block.subrange(0, 64) =~= block);
    assert(target.subrange(0, 0) + block =~= block);
}

/// Stripping is idempotent: a second call changes nothing, since a stripped
/// file no longer starts with a header.
pub proof fn lemma_strip_idempotent(file: Seq<u8>)
    ensures
        stripped(stripped(file)) == stripped(file),
        strip_spec(file) is Ok ==> strip_spec(stripped(file)) == Err::<Seq<u8>, Error>(
            Error::InvalidFormat,
        ),
{
    if strip_spec(file) is Ok {
        let after = stripped(file);
        assert(parse_tags(file) is Some);
        assert(after[0] == 0);
        assert(parse_tags(after) is None);
    }
}

} // verus!

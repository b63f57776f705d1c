//! The keyslots of a header: each holds the master key of the file, sealed
//! under a key that a password hash derives from one secret. A secret that
//! opens any populated keyslot yields the master key.
//!
//! A keyslot is always sealed with XChaCha20-Poly1305 and without associated
//! data, whatever cipher seals the body. The operations here change one
//! keyslot region of a file in place and leave every other byte as it is.

use crate::bytes::{append_zeros, copy_range, overlay, overwrite, zeros};
use crate::error::Error;
use crate::format::{Algorithm, HashAlgorithm, Mode, SLOT_LEN};
use crate::header::{
    header_len, lemma_parse_slot_bytes, parse_header, parse_slot, parse_slots, parse_tags,
    region_count, region_offset, region_start, slot_bytes, slot_region, slots_ok, Header, HeaderView, Keyslot, KeyslotView,
};
use crate::primitives::{
    bytes_of, derive_key, derived, open, open_spec, random_nonce, random_salt, seal, seal_spec,
    wipe, Costs, MAX_INPUT_LEN,
};
use vstd::prelude::*;

verus! {

/// The master key that a keyslot yields under a secret, or nothing where
/// the key that the secret derives does not open it.
pub open spec fn slot_opens(costs: Costs, slot: KeyslotView, secret: Seq<u8>) -> Option<Seq<u8>> {
    match derived(costs, slot.hash_algorithm, secret, slot.salt) {
        Some(kek) => open_spec(
            Algorithm::XChaCha20Poly1305,
            kek,
            slot.nonce,
            Seq::empty(),
            slot.encrypted_key,
        ),
        None => None,
    }
}

/// The first keyslot from index `from` on that opens under the secret, and
/// the master key that it yields.
pub open spec fn unwrap_from(
    costs: Costs,
    slots: Seq<Option<KeyslotView>>,
    secret: Seq<u8>,
    from: nat,
) -> Option<(nat, Seq<u8>)>
    decreases slots.len() - from,
{
    if from >= slots.len() {
        None
    } else {
        match slots[from as int] {
            Some(slot) => match slot_opens(costs, slot, secret) {
                Some(mk) => Some((from, mk)),
                None => unwrap_from(costs, slots, secret, from + 1),
            },
            None => unwrap_from(costs, slots, secret, from + 1),
        }
    }
}

/// The first populated keyslot, in order, that opens under the secret, and
/// the master key that it yields; nothing where none opens.
pub open spec fn unwrapped(costs: Costs, slots: Seq<Option<KeyslotView>>, secret: Seq<u8>) -> Option<
    (nat, Seq<u8>),
> {
    unwrap_from(costs, slots, secret, 0)
}

/// The keyslot that seals `mk` for a secret: the key is derived with
/// Argon2id from the secret and `salt`, and seals `mk` under `nonce`.
pub open spec fn wrapped(
    costs: Costs,
    secret: Seq<u8>,
    salt: Seq<u8>,
    nonce: Seq<u8>,
    mk: Seq<u8>,
) -> KeyslotView {
    KeyslotView {
        hash_algorithm: HashAlgorithm::Argon2id,
        encrypted_key: seal_spec(
            Algorithm::XChaCha20Poly1305,
            derived(costs, HashAlgorithm::Argon2id, secret, salt).unwrap(),
            nonce,
            Seq::empty(),
            mk,
        ).unwrap(),
        nonce,
        salt,
    }
}

/// The index of the first empty keyslot from `from` on.
pub open spec fn first_empty_from(slots: Seq<Option<KeyslotView>>, from: nat) -> Option<nat>
    decreases slots.len() - from,
{
    if from >= slots.len() {
        None
    } else if slots[from as int] is None {
        Some(from)
    } else {
        first_empty_from(slots, from + 1)
    }
}

/// The index of the first empty keyslot.
pub open spec fn first_empty(slots: Seq<Option<KeyslotView>>) -> Option<nat> {
    first_empty_from(slots, 0)
}

/// How many of the first `n` keyslots are populated.
pub open spec fn populated_upto(slots: Seq<Option<KeyslotView>>, n: nat) -> nat
    decreases n,
{
    if n == 0 {
        0
    } else if slots[n - 1] is Some {
        populated_upto(slots, (n - 1) as nat) + 1
    } else {
        populated_upto(slots, (n - 1) as nat)
    }
}

/// How many keyslots are populated.
pub open spec fn populated(slots: Seq<Option<KeyslotView>>) -> nat {
    populated_upto(slots, slots.len())
}

/// Whether `after` is `before` but for the bytes of keyslot region `j`.
pub open spec fn same_but_region(before: Seq<u8>, after: Seq<u8>, j: nat) -> bool {
    &&& after.len() == before.len()
    &&& forall|i: int|
        0 <= i < before.len() && !(64 + 156 * j <= i < 220 + 156 * j) ==> after[i] == before[i]
}

/// What [`add_key_with`] makes of a file: the first empty keyslot region is
/// filled with a keyslot that seals the master key for `secret_new`.
pub open spec fn add_key_spec(
    costs: Costs,
    file: Seq<u8>,
    secret_old: Seq<u8>,
    secret_new: Seq<u8>,
    salt: Seq<u8>,
    nonce: Seq<u8>,
) -> Result<Seq<u8>, Error> {
    match parse_header(file) {
        None => Err(Error::InvalidFormat),
        Some(h) => match first_empty(h.keyslots) {
            None => Err(Error::MaxSlots),
            Some(j) => match unwrapped(costs, h.keyslots, secret_old) {
                None => Err(Error::WrongPassword),
                Some((_, mk)) => Ok(
                    overlay(
                        file,
                        region_start(j),
                        wrapped(costs, secret_new, salt, nonce, mk).to_bytes(),
                    ),
                ),
            },
        },
    }
}

/// What [`change_key_with`] makes of a file: the keyslot region that
/// `secret_old` opens is overwritten with a keyslot that seals the master
/// key for `secret_new`.
pub open spec fn change_key_spec(
    costs: Costs,
    file: Seq<u8>,
    secret_old: Seq<u8>,
    secret_new: Seq<u8>,
    salt: Seq<u8>,
    nonce: Seq<u8>,
) -> Result<Seq<u8>, Error> {
    match parse_header(file) {
        None => Err(Error::InvalidFormat),
        Some(h) => match unwrapped(costs, h.keyslots, secret_old) {
            None => Err(Error::WrongPassword),
            Some((k, mk)) => Ok(
                overlay(
                    file,
                    region_start(k),
                    wrapped(costs, secret_new, salt, nonce, mk).to_bytes(),
                ),
            ),
        },
    }
}

/// What [`del_key_with`] makes of a file: the keyslot region that the secret
/// opens is overwritten with zeros, unless it is the only populated one.
pub open spec fn del_key_spec(costs: Costs, file: Seq<u8>, secret: Seq<u8>) -> Result<
    Seq<u8>,
    Error,
> {
    match parse_header(file) {
        None => Err(Error::InvalidFormat),
        Some(h) => match unwrapped(costs, h.keyslots, secret) {
            None => Err(Error::WrongPassword),
            Some((k, _)) => if populated(h.keyslots) <= 1 {
                Err(Error::LastSlot)
            } else {
                Ok(overlay(file, region_start(k), zeros(156)))
            },
        },
    }
}

/// What holds of a file after a key was added to it: only the region of the
/// first empty keyslot has changed, so the keyslot that the old secret
/// opened is as it was; the new keyslot yields the same master key under the
/// new secret; and each of the two secrets still unwraps a master key.
pub open spec fn key_added(
    costs: Costs,
    before: Seq<u8>,
    after: Seq<u8>,
    secret_old: Seq<u8>,
    secret_new: Seq<u8>,
) -> bool {
    &&& parse_header(before) matches Some(h)
    &&& parse_header(after) matches Some(h2)
    &&& first_empty(h.keyslots) matches Some(j)
    &&& unwrapped(costs, h.keyslots, secret_old) matches Some((k, mk))
    &&& j != k
    &&& j < h.keyslots.len()
    &&& k < h.keyslots.len()
    &&& same_but_region(before, after, j)
    &&& h2.keyslots.len() == h.keyslots.len()
    &&& h2.keyslots[k as int] == h.keyslots[k as int]
    &&& h2.keyslots[j as int] matches Some(slot)
    &&& slot_opens(costs, slot, secret_new) == Some(mk)
    &&& unwrapped(costs, h2.keyslots, secret_old) is Some
    &&& unwrapped(costs, h2.keyslots, secret_new) is Some
}

/// What holds of a file after a key was changed: only the region of the
/// keyslot that the old secret opened has changed, and that keyslot now
/// yields the same master key under the new secret.
pub open spec fn key_changed(
    costs: Costs,
    before: Seq<u8>,
    after: Seq<u8>,
    secret_old: Seq<u8>,
    secret_new: Seq<u8>,
) -> bool {
    &&& parse_header(before) matches Some(h)
    &&& parse_header(after) matches Some(h2)
    &&& unwrapped(costs, h.keyslots, secret_old) matches Some((k, mk))
    &&& k < h.keyslots.len()
    &&& same_but_region(before, after, k)
    &&& h2.keyslots == h.keyslots.update(k as int, h2.keyslots[k as int])
    &&& h2.keyslots[k as int] matches Some(slot)
    &&& slot_opens(costs, slot, secret_new) == Some(mk)
    &&& unwrapped(costs, h2.keyslots, secret_new) is Some
}

/// What holds of a file after a key was deleted: only the region of the
/// keyslot that the secret opened has changed, that keyslot is empty, and a
/// populated keyslot is left.
pub open spec fn key_deleted(costs: Costs, before: Seq<u8>, after: Seq<u8>, secret: Seq<u8>) -> bool {
    &&& parse_header(before) matches Some(h)
    &&& parse_header(after) matches Some(h2)
    &&& unwrapped(costs, h.keyslots, secret) matches Some((k, _))
    &&& k < h.keyslots.len()
    &&& same_but_region(before, after, k)
    &&& h2.keyslots == h.keyslots.update(k as int, None)
    &&& populated(h2.keyslots) + 1 == populated(h.keyslots)
    &&& populated(h2.keyslots) >= 1
}

/// What [`unwrap_from`] finds is a populated keyslot that opens under the
/// secret, and no populated keyslot before it, from `from` on, does.
pub proof fn lemma_unwrap_from(
    costs: Costs,
    slots: Seq<Option<KeyslotView>>,
    secret: Seq<u8>,
    from: nat,
)
    ensures
        unwrap_from(costs, slots, secret, from) matches Some((k, mk)) ==> {
            &&& from <= k < slots.len()
            &&& slots[k as int] matches Some(slot)
            &&& slot_opens(costs, slot, secret) == Some(mk)
            &&& forall|i: int|
                from <= i < k ==> (#[trigger] slots[i] matches Some(s) ==> slot_opens(
                    costs,
                    s,
                    secret,
                ) is None)
        },
        unwrap_from(costs, slots, secret, from) is None ==> forall|i: int|
            from <= i < slots.len() ==> (#[trigger] slots[i] matches Some(s) ==> slot_opens(
                costs,
                s,
                secret,
            ) is None),
    decreases slots.len() - from,
{
    if from < slots.len() {
        lemma_unwrap_from(costs, slots, secret, from + 1);
    }
}

/// Where the first keyslot from `from` on that opens under the secret has
/// the index `k`, that keyslot is what [`unwrap_from`] finds.
pub proof fn lemma_unwrap_finds(
    costs: Costs,
    slots: Seq<Option<KeyslotView>>,
    secret: Seq<u8>,
    from: nat,
    k: nat,
)
    requires
        from <= k < slots.len(),
        slots[k as int] matches Some(slot) && slot_opens(costs, slot, secret) is Some,
        forall|i: int|
            from <= i < k ==> (#[trigger] slots[i] matches Some(s) ==> slot_opens(
                costs,
                s,
                secret,
            ) is None),
    ensures
        unwrap_from(costs, slots, secret, from) == Some(
            (k, slot_opens(costs, slots[k as int]->Some_0, secret)->Some_0),
        ),
    decreases k - from,
{
    if from < k {
        assert(slots[from as int] matches Some(s) ==> slot_opens(costs, s, secret) is None);
        lemma_unwrap_finds(costs, slots, secret, from + 1, k);
    }
}

/// A keyslot that opens under the secret makes the secret unwrap a master
/// key: that of the keyslot, or that of an earlier one that opens too.
pub proof fn lemma_unwrap_some(
    costs: Costs,
    slots: Seq<Option<KeyslotView>>,
    secret: Seq<u8>,
    from: nat,
    j: nat,
)
    requires
        from <= j < slots.len(),
        slots[j as int] matches Some(slot) && slot_opens(costs, slot, secret) is Some,
    ensures
        unwrap_from(costs, slots, secret, from) matches Some((k, _)) && k <= j,
    decreases j - from,
{
    if from < j {
        lemma_unwrap_some(costs, slots, secret, from + 1, j);
    }
}

/// The first empty keyslot, where there is one, is an empty keyslot.
pub proof fn lemma_first_empty(slots: Seq<Option<KeyslotView>>, from: nat)
    ensures
        first_empty_from(slots, from) matches Some(j) ==> from <= j < slots.len()
            && slots[j as int] is None,
        first_empty_from(slots, from) is None ==> forall|i: int|
            from <= i < slots.len() ==> #[trigger] slots[i] is Some,
    decreases slots.len() - from,
{
    if from < slots.len() {
        lemma_first_empty(slots, from + 1);
    }
}

/// Filling or emptying keyslot `j` changes the number of populated keyslots
/// by what that keyslot adds to it.
pub proof fn lemma_populated_update(
    slots: Seq<Option<KeyslotView>>,
    j: nat,
    slot: Option<KeyslotView>,
    n: nat,
)
    requires
        j < slots.len(),
        n <= slots.len(),
    ensures
        populated_upto(slots.update(j as int, slot), n) + (if j < n && slots[j as int] is Some {
            1nat
        } else {
            0nat
        }) == populated_upto(slots, n) + (if j < n && slot is Some {
            1nat
        } else {
            0nat
        }),
    decreases n,
{
    if n > 0 {
        lemma_populated_update(slots, j, slot, (n - 1) as nat);
    }
}

/// Writing a keyslot into region `j` of a file changes that keyslot of its
/// header and nothing else.
pub proof fn lemma_replace_slot(file: Seq<u8>, j: nat, slot: Option<KeyslotView>)
    requires
        parse_header(file) is Some,
        j < parse_header(file)->Some_0.keyslots.len(),
        slot matches Some(s) ==> s.wf(),
    ensures
        ({
            let h = parse_header(file)->Some_0;
            let after = overlay(file, region_start(j), slot_bytes(slot));
            &&& same_but_region(file, after, j)
            &&& parse_header(after) == Some(
                HeaderView { keyslots: h.keyslots.update(j as int, slot), ..h },
            )
            &&& header_len(after) == header_len(file)
        }),
{
    let h = parse_header(file)->Some_0;
    let patch = slot_bytes(slot);
    let after = overlay(file, region_start(j), patch);
    let n = region_count(file.len());
    assert(h.version.has_keyslots());
    assert(h.keyslots.len() == n);
    assert(patch.len() == 156);
    assert(220 + 156 * j <= file.len());
    assert(after.len() == file.len());
    assert(parse_tags(after) == parse_tags(file));
    assert(after.subrange(8, 8 + h.algorithm.header_nonce_len(h.mode) as int) =~= file.subrange(
        8,
        8 + h.algorithm.header_nonce_len(h.mode) as int,
    ));
    assert forall|i: int| 0 <= i < n implies #[trigger] parse_slot(slot_region(after, i)) == Ok::<
        Option<KeyslotView>,
        Error,
    >(h.keyslots.update(j as int, slot)[i]) by {
        if i == j {
            assert(slot_region(after, i) =~= patch);
            lemma_parse_slot_bytes(slot);
        } else {
            assert(slot_region(after, i) =~= slot_region(file, i));
            assert(parse_slot(slot_region(file, i)) is Ok);
        }
    }
    assert(slots_ok(after, n));
    assert(parse_slots(after, n) =~= h.keyslots.update(j as int, slot));
}

/// A key that is added leaves the old secret able to unwrap a master key:
/// the keyslot that it opened is still there.
pub proof fn lemma_unwrap_after_fill(
    costs: Costs,
    slots: Seq<Option<KeyslotView>>,
    j: nat,
    slot: KeyslotView,
    secret: Seq<u8>,
)
    requires
        j < slots.len(),
        slots[j as int] is None,
        unwrapped(costs, slots, secret) is Some,
    ensures
        unwrapped(costs, slots.update(j as int, Some(slot)), secret) is Some,
        slot_opens(costs, slot, secret) is None ==> unwrapped(
            costs,
            slots.update(j as int, Some(slot)),
            secret,
        ) == unwrapped(costs, slots, secret),
{
    let after = slots.update(j as int, Some(slot));
    lemma_unwrap_from(costs, slots, secret, 0);
    let (k, mk) = unwrapped(costs, slots, secret)->Some_0;
    assert(after[k as int] == slots[k as int]);
    lemma_unwrap_some(costs, after, secret, 0, k);
    if slot_opens(costs, slot, secret) is None {
        assert forall|i: int| 0 <= i < k implies (#[trigger] after[i] matches Some(s)
            ==> slot_opens(costs, s, secret) is None) by {
            if i != j {
                assert(after[i] == slots[i]);
            }
        }
        lemma_unwrap_finds(costs, after, secret, 0, k);
    }
}

/// A key that is deleted leaves every other secret as it was: a secret that
/// unwrapped the master key from another keyslot still does, from the same
/// keyslot.
pub proof fn lemma_unwrap_after_clear(
    costs: Costs,
    slots: Seq<Option<KeyslotView>>,
    k: nat,
    secret: Seq<u8>,
)
    requires
        k < slots.len(),
        unwrapped(costs, slots, secret) matches Some((other, _)) && other != k,
    ensures
        unwrapped(costs, slots.update(k as int, None), secret) == unwrapped(costs, slots, secret),
{
    let after = slots.update(k as int, None);
    lemma_unwrap_from(costs, slots, secret, 0);
    let (other, mk) = unwrapped(costs, slots, secret)->Some_0;
    assert(after[other as int] == slots[other as int]);
    assert forall|i: int| 0 <= i < other implies (#[trigger] after[i] matches Some(s)
        ==> slot_opens(costs, s, secret) is None) by {
        if i != k {
            assert(after[i] == slots[i]);
        }
    }
    lemma_unwrap_finds(costs, after, secret, 0, other);
}

/// Deleting the key of a file that has one populated keyslot, with the
/// secret that opens it, fails: the last keyslot cannot be deleted.
pub proof fn lemma_del_last_slot(costs: Costs, file: Seq<u8>, secret: Seq<u8>)
    requires
        parse_header(file) matches Some(h) && populated(h.keyslots) == 1 && unwrapped(
            costs,
            h.keyslots,
            secret,
        ) is Some,
    ensures
        del_key_spec(costs, file, secret) == Err::<Seq<u8>, Error>(Error::LastSlot),
{
}

/// Adding a key to a file whose keyslots are all populated fails.
pub proof fn lemma_add_to_full(
    costs: Costs,
    file: Seq<u8>,
    secret_old: Seq<u8>,
    secret_new: Seq<u8>,
    salt: Seq<u8>,
    nonce: Seq<u8>,
)
    requires
        parse_header(file) matches Some(h) && forall|i: int|
            0 <= i < h.keyslots.len() ==> #[trigger] h.keyslots[i] is Some,
    ensures
        add_key_spec(costs, file, secret_old, secret_new, salt, nonce) == Err::<Seq<u8>, Error>(
            Error::MaxSlots,
        ),
{
    let h = parse_header(file)->Some_0;
    lemma_first_empty(h.keyslots, 0);
}

/// What a call that changes a file in place has made: the bytes of the file
/// where it succeeded, else its error.
pub open spec fn outcome(r: Result<(), Error>, bytes: Seq<u8>) -> Result<Seq<u8>, Error> {
    match r {
        Ok(_) => Ok(bytes),
        Err(e) => Err(e),
    }
}

/// Opens one keyslot with the key that the secret derives.
pub fn open_slot(costs: &Costs, slot: &Keyslot, secret: &[u8]) -> (r: Option<Vec<u8>>)
    requires
        costs.valid(),
        slot@.wf(),
        secret@.len() <= MAX_INPUT_LEN,
    ensures
        bytes_of(r) == slot_opens(*costs, slot@, secret@),
        r matches Some(mk) ==> mk@.len() == 32,
{
    let mut kek = derive_key(costs, slot.hash_algorithm, secret, slot.salt.as_slice());
    let no_aad: Vec<u8> = Vec::new();
    let r = open(
        Algorithm::XChaCha20Poly1305,
        kek.as_slice(),
        slot.nonce.as_slice(),
        no_aad.as_slice(),
        slot.encrypted_key.as_slice(),
    );
    wipe(&mut kek);
    r
}

/// Seals a master key into a new keyslot for a secret.
pub fn wrap_key(costs: &Costs, secret: &[u8], salt: &[u8], nonce: &[u8], mk: &[u8]) -> (slot:
    Keyslot)
    requires
        costs.valid(),
        secret@.len() <= MAX_INPUT_LEN,
        salt@.len() == 16,
        nonce@.len() == 24,
        mk@.len() == 32,
    ensures
        slot@ == wrapped(*costs, secret@, salt@, nonce@, mk@),
        slot@.wf(),
        slot_opens(*costs, slot@, secret@) == Some(mk@),
{
    let mut kek = derive_key(costs, HashAlgorithm::Argon2id, secret, salt);
    let no_aad: Vec<u8> = Vec::new();
    let sealed_key = seal(
        Algorithm::XChaCha20Poly1305,
        kek.as_slice(),
        nonce,
        no_aad.as_slice(),
        mk,
    ).unwrap();
    wipe(&mut kek);
    assert(nonce@.subrange(0, 24) =~= nonce@);
    assert(salt@.subrange(0, 16) =~= salt@);
    Keyslot {
        hash_algorithm: HashAlgorithm::Argon2id,
        encrypted_key: sealed_key,
        nonce: copy_range(nonce, 0, 24),
        salt: copy_range(salt, 0, 16),
    }
}

/// Tries the populated keyslots of a header in order and returns the index
/// of the first that opens under the secret, with the master key.
pub fn unwrap_key(costs: &Costs, header: &Header, secret: &[u8]) -> (r: Option<(usize, Vec<u8>)>)
    requires
        costs.valid(),
        header@.wf(),
        secret@.len() <= MAX_INPUT_LEN,
    ensures
        match unwrapped(*costs, header@.keyslots, secret@) {
            Some((k, mk)) => r matches Some((i, key)) && i == k && key@ == mk && key@.len() == 32,
            None => r is None,
        },
{
    let mut i: usize = 0;
    while i < header.keyslots.len()
        invariant
            i <= header.keyslots@.len(),
            costs.valid(),
            header@.wf(),
            secret@.len() <= MAX_INPUT_LEN,
            unwrapped(*costs, header@.keyslots, secret@) == unwrap_from(
                *costs,
                header@.keyslots,
                secret@,
                i as nat,
            ),
        decreases header.keyslots@.len() - i,
    {
        match &header.keyslots[i] {
            Some(slot) => {
                assert(header@.keyslots[i as int] == Some(slot@));
                match open_slot(costs, slot, secret) {
                    Some(mk) => {
                        return Some((i, mk));
                    },
                    None => {},
                }
            },
            None => {
                assert(header@.keyslots[i as int] is None);
            },
        }
        i += 1;
    }
    None
}

/// The index of the first empty keyslot of a header.
pub fn first_empty_slot(header: &Header) -> (r: Option<usize>)
    ensures
        match first_empty(header@.keyslots) {
            Some(j) => r == Some(j as usize) && j < header@.keyslots.len(),
            None => r is None,
        },
{
    let mut i: usize = 0;
    while i < header.keyslots.len()
        invariant
            i <= header.keyslots@.len(),
            first_empty(header@.keyslots) == first_empty_from(header@.keyslots, i as nat),
        decreases header.keyslots@.len() - i,
    {
        if header.keyslots[i].is_none() {
            assert(header@.keyslots[i as int] is None);
            return Some(i);
        }
        assert(header@.keyslots[i as int] is Some);
        i += 1;
    }
    None
}

/// How many keyslots of a header are populated.
pub fn populated_count(header: &Header) -> (n: usize)
    ensures
        n == populated(header@.keyslots),
        n <= header@.keyslots.len(),
{
    let mut n: usize = 0;
    let mut i: usize = 0;
    while i < header.keyslots.len()
        invariant
            i <= header.keyslots@.len(),
            n == populated_upto(header@.keyslots, i as nat),
            n <= i,
        decreases header.keyslots@.len() - i,
    {
        if header.keyslots[i].is_some() {
            assert(header@.keyslots[i as int] is Some);
            n += 1;
        } else {
            assert(header@.keyslots[i as int] is None);
        }
        i += 1;
    }
    n
}

/// Adds a key to a file: fills the first empty keyslot region with a keyslot
/// that seals the master key for `secret_new`, under the given salt and
/// nonce. The master key is unwrapped with `secret_old`. On an error the
/// file is left as it was.
pub fn add_key_with(
    costs: &Costs,
    file: &mut Vec<u8>,
    secret_old: &[u8],
    secret_new: &[u8],
    salt: &[u8],
    nonce: &[u8],
) -> (r: Result<(), Error>)
    requires
        costs.valid(),
        secret_old@.len() <= MAX_INPUT_LEN,
        secret_new@.len() <= MAX_INPUT_LEN,
        salt@.len() == 16,
        nonce@.len() == 24,
    ensures
        outcome(r, final(file)@) == add_key_spec(
            *costs,
            old(file)@,
            secret_old@,
            secret_new@,
            salt@,
            nonce@,
        ),
        r is Err ==> final(file)@ == old(file)@,
        r is Ok ==> key_added(*costs, old(file)@, final(file)@, secret_old@, secret_new@),
{
    let header = match Header::deserialize(file.as_slice()) {
        Ok((h, _)) => h,
        Err(_) => {
            return Err(Error::InvalidFormat);
        },
    };
    let j: usize = match first_empty_slot(&header) {
        Some(j) => j,
        None => {
            return Err(Error::MaxSlots);
        },
    };
    let (_, mut mk) = match unwrap_key(costs, &header, secret_old) {
        Some(found) => found,
        None => {
            return Err(Error::WrongPassword);
        },
    };
    let slot = wrap_key(costs, secret_new, salt, nonce, mk.as_slice());
    wipe(&mut mk);
    let region = slot.to_bytes();
    proof {
        let slots = header@.keyslots;
        lemma_first_empty(slots, 0);
        lemma_unwrap_from(*costs, slots, secret_old@, 0);
        lemma_replace_slot(file@, j as nat, Some(slot@));
        lemma_unwrap_after_fill(*costs, slots, j as nat, slot@, secret_old@);
        lemma_unwrap_some(*costs, slots.update(j as int, Some(slot@)), secret_new@, 0, j as nat);
    }
    overwrite(file, region_offset(j), region.as_slice());
    Ok(())
}

/// Changes a key of a file: overwrites the keyslot region that `secret_old`
/// opens with a keyslot that seals the master key for `secret_new`, under
/// the given salt and nonce. On an error the file is left as it was.
pub fn change_key_with(
    costs: &Costs,
    file: &mut Vec<u8>,
    secret_old: &[u8],
    secret_new: &[u8],
    salt: &[u8],
    nonce: &[u8],
) -> (r: Result<(), Error>)
    requires
        costs.valid(),
        secret_old@.len() <= MAX_INPUT_LEN,
        secret_new@.len() <= MAX_INPUT_LEN,
        salt@.len() == 16,
        nonce@.len() == 24,
    ensures
        outcome(r, final(file)@) == change_key_spec(
            *costs,
            old(file)@,
            secret_old@,
            secret_new@,
            salt@,
            nonce@,
        ),
        r is Err ==> final(file)@ == old(file)@,
        r is Ok ==> key_changed(*costs, old(file)@, final(file)@, secret_old@, secret_new@),
{
    let header = match Header::deserialize(file.as_slice()) {
        Ok((h, _)) => h,
        Err(_) => {
            return Err(Error::InvalidFormat);
        },
    };
    let (k, mut mk) = match unwrap_key(costs, &header, secret_old) {
        Some(found) => found,
        None => {
            return Err(Error::WrongPassword);
        },
    };
    let slot = wrap_key(costs, secret_new, salt, nonce, mk.as_slice());
    wipe(&mut mk);
    let region = slot.to_bytes();
    proof {
        let slots = header@.keyslots;
        lemma_unwrap_from(*costs, slots, secret_old@, 0);
        lemma_replace_slot(file@, k as nat, Some(slot@));
        lemma_unwrap_some(*costs, slots.update(k as int, Some(slot@)), secret_new@, 0, k as nat);
    }
    overwrite(file, region_offset(k), region.as_slice());
    Ok(())
}

/// Deletes a key of a file: overwrites the keyslot region that the secret
/// opens with zeros. The only populated keyslot of a file is not deleted,
/// since nothing could decrypt the file after that. On an error the file is
/// left as it was.
pub fn del_key_with(costs: &Costs, file: &mut Vec<u8>, secret: &[u8]) -> (r: Result<(), Error>)
    requires
        costs.valid(),
        secret@.len() <= MAX_INPUT_LEN,
    ensures
        outcome(r, final(file)@) == del_key_spec(*costs, old(file)@, secret@),
        r is Err ==> final(file)@ == old(file)@,
        r is Ok ==> key_deleted(*costs, old(file)@, final(file)@, secret@),
{
    let header = match Header::deserialize(file.as_slice()) {
        Ok((h, _)) => h,
        Err(_) => {
            return Err(Error::InvalidFormat);
        },
    };
    let (k, mut mk) = match unwrap_key(costs, &header, secret) {
        Some(found) => found,
        None => {
            return Err(Error::WrongPassword);
        },
    };
    wipe(&mut mk);
    if populated_count(&header) <= 1 {
        return Err(Error::LastSlot);
    }
    let mut blank: Vec<u8> = Vec::new();
    append_zeros(&mut blank, SLOT_LEN);
    proof {
        let slots = header@.keyslots;
        assert(blank@ =~= zeros(156));
        lemma_unwrap_from(*costs, slots, secret@, 0);
        lemma_replace_slot(file@, k as nat, None);
        lemma_populated_update(slots, k as nat, None, slots.len());
    }
    overwrite(file, region_offset(k), blank.as_slice());
    Ok(())
}

/// Adds a key to a file under the standard costs, with a fresh salt and a
/// fresh nonce.
pub fn add_key(file: &mut Vec<u8>, secret_old: &[u8], secret_new: &[u8]) -> (r: Result<(), Error>)
    requires
        secret_old@.len() <= MAX_INPUT_LEN,
        secret_new@.len() <= MAX_INPUT_LEN,
    ensures
        exists|salt: Seq<u8>, nonce: Seq<u8>|
            salt.len() == 16 && nonce.len() == 24 && outcome(r, final(file)@)
                == #[trigger] add_key_spec(
                Costs::standard_spec(),
                old(file)@,
                secret_old@,
                secret_new@,
                salt,
                nonce,
            ),
        r is Err ==> final(file)@ == old(file)@,
        r is Ok ==> key_added(
            Costs::standard_spec(),
            old(file)@,
            final(file)@,
            secret_old@,
            secret_new@,
        ),
{
    let costs = Costs::standard();
    let salt = random_salt();
    let nonce = random_nonce(Algorithm::XChaCha20Poly1305, Mode::Memory);
    add_key_with(&costs, file, secret_old, secret_new, salt.as_slice(), nonce.as_slice())
}

/// Changes a key of a file under the standard costs, with a fresh salt and a
/// fresh nonce.
pub fn change_key(file: &mut Vec<u8>, secret_old: &[u8], secret_new: &[u8]) -> (r: Result<
    (),
    Error,
>)
    requires
        secret_old@.len() <= MAX_INPUT_LEN,
        secret_new@.len() <= MAX_INPUT_LEN,
    ensures
        exists|salt: Seq<u8>, nonce: Seq<u8>|
            salt.len() == 16 && nonce.len() == 24 && outcome(r, final(file)@)
                == #[trigger] change_key_spec(
                Costs::standard_spec(),
                old(file)@,
                secret_old@,
                secret_new@,
                salt,
                nonce,
            ),
        r is Err ==> final(file)@ == old(file)@,
        r is Ok ==> key_changed(
            Costs::standard_spec(),
            old(file)@,
            final(file)@,
            secret_old@,
            secret_new@,
        ),
{
    let costs = Costs::standard();
    let salt = random_salt();
    let nonce = random_nonce(Algorithm::XChaCha20Poly1305, Mode::Memory);
    change_key_with(&costs, file, secret_old, secret_new, salt.as_slice(), nonce.as_slice())
}

/// Deletes a key of a file under the standard costs.
pub fn del_key(file: &mut Vec<u8>, secret: &[u8]) -> (r: Result<(), Error>)
    requires
        secret@.len() <= MAX_INPUT_LEN,
    ensures
        outcome(r, final(file)@) == del_key_spec(Costs::standard_spec(), old(file)@, secret@),
        r is Err ==> final(file)@ == old(file)@,
        r is Ok ==> key_deleted(Costs::standard_spec(), old(file)@, final(file)@, secret@),
{
    let costs = Costs::standard();
    del_key_with(&costs, file, secret)
}

} // verus!

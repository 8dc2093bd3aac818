//! The keystore: named slots that hold the long-term keys, the shared
//! secrets and the shared counters, and the handle through which one slot is
//! opened, read, replaced and removed.
//!
//! A [`KeyStore`] is a plain value that the caller owns. A slot is named by
//! the hexadecimal text of its description, so that any description can be
//! a name wherever the store is kept.

use crate::schnorr_identification::random_bytes;
use crate::text::{hex_chars, hex_encode, lemma_hex_chars_injective};
use vstd::prelude::*;
use vstd::string::*;
use vstd::utf8::{encode_utf8, encode_utf8_decode_utf8};

verus! {

/// Why an operation on the keystore failed.
///
/// A [`KeyStore`] is a value in memory: it can always be reached, and
/// creating, replacing and removing a slot fail only where the slot is in the
/// way or missing. The variants that speak of other failures are for callers
/// that keep the slots elsewhere and bring them in and out of a `KeyStore`.
#[derive(Clone, Copy, Debug, PartialEq, Eq, Structural)]
pub enum SecretKeyErrors {
    /// The place where the slots are kept could not be reached.
    KeyRingNotFound,
    /// The slot does not exist and no value was given to create it with.
    KeyNotProvided,
    /// The slot could not be created where the slots are kept.
    UnableToStoreKeyInOS,
    /// The permissions of a new slot could not be set.
    UnableToChangeKeyPermissions,
    /// The value of the slot could not be replaced: a shared counter has no
    /// room left to move forward.
    UnableToChangeKeyValue,
    /// The slot holds no usable value: it is gone, or what it holds is not
    /// of the size that its use asks for.
    UnableToGetKeyFromOS,
    /// The slot could not be removed where the slots are kept.
    UnableToDeleteKeyFromOS,
}

/// Permission bits of a slot: everything for its possessor and its owner,
/// viewing for the owner's group, nothing for anyone else.
pub const CONST_SLOT_PERMISSIONS: u32 = 0x3f3f0100;

/// Trusted: `linux_keyutils::KeyPermissionsBuilder`, whose `posessor`,
/// `user` and `group` put the bits of a `Permission` into the fourth, third
/// and second byte of the word that `build` and `KeyPermissions::bits` hand
/// out; `Permission::ALL` is `0x3f` and `Permission::VIEW` is `0x01`.
#[verifier::external_body]
fn slot_permissions() -> (bits: u32)
    ensures
        bits == CONST_SLOT_PERMISSIONS,
{
    linux_keyutils::KeyPermissionsBuilder::builder()
        .posessor(linux_keyutils::Permission::ALL)
        .user(linux_keyutils::Permission::ALL)
        .group(linux_keyutils::Permission::VIEW)
        .build()
        .bits()
}

/// One slot of the keystore.
pub struct KeySlot {
    /// Name of the slot.
    pub name: String,
    /// The bytes it holds.
    pub value: Vec<u8>,
    /// Its permission bits.
    pub permissions: u32,
}

/// Named slots of bytes. No two slots have the same name.
pub struct KeyStore {
    slots: Vec<KeySlot>,
}

/// Whether a slot of `slots` is named `name`.
pub open spec fn has_slot(slots: Seq<KeySlot>, name: Seq<char>) -> bool {
    exists|i: int| 0 <= i < slots.len() && #[trigger] slots[i].name@ == name
}

/// Position of a slot of `slots` that is named `name`.
pub open spec fn slot_index(slots: Seq<KeySlot>, name: Seq<char>) -> int {
    choose|i: int| 0 <= i < slots.len() && #[trigger] slots[i].name@ == name
}

/// No two slots of `slots` have the same name.
pub open spec fn names_unique(slots: Seq<KeySlot>) -> bool {
    forall|i: int, j: int|
        0 <= i < j < slots.len() ==> #[trigger] slots[i].name@ != #[trigger] slots[j].name@
}

impl View for KeyStore {
    type V = Map<Seq<char>, Seq<u8>>;

    /// The value of each slot, by the slot's name.
    closed spec fn view(&self) -> Map<Seq<char>, Seq<u8>> {
        Map::new(
            |name: Seq<char>| has_slot(self.slots@, name),
            |name: Seq<char>| self.slots@[slot_index(self.slots@, name)].value@,
        )
    }
}

impl KeyStore {
    /// No two slots have the same name. Every store that this module hands
    /// out is well formed, and every operation keeps it so.
    pub closed spec fn wf(&self) -> bool {
        names_unique(self.slots@)
    }

    /// The permission bits of each slot, by the slot's name.
    pub closed spec fn permissions(&self) -> Map<Seq<char>, u32> {
        Map::new(
            |name: Seq<char>| has_slot(self.slots@, name),
            |name: Seq<char>| self.slots@[slot_index(self.slots@, name)].permissions,
        )
    }

    /// A store without slots.
    pub fn new() -> (store: KeyStore)
        ensures
            store.wf(),
            store@ == Map::<Seq<char>, Seq<u8>>::empty(),
            store.permissions() == Map::<Seq<char>, u32>::empty(),
    {
        let store = KeyStore { slots: Vec::new() };
        assert(store@ =~= Map::<Seq<char>, Seq<u8>>::empty());
        assert(store.permissions() =~= Map::<Seq<char>, u32>::empty());
        store
    }

    fn find(&self, name: &String) -> (position: Option<usize>)
        requires
            self.wf(),
        ensures
            match position {
                Some(i) => i < self.slots.len() && self.slots[i as int].name@ == name@
                    && slot_index(self.slots@, name@) == i,
                None => !has_slot(self.slots@, name@),
            },
    {
        let mut i: usize = 0;
        while i < self.slots.len()
            invariant
                i <= self.slots.len(),
                names_unique(self.slots@),
                forall|j: int| 0 <= j < i ==> self.slots[j].name@ != name@,
            decreases self.slots.len() - i,
        {
            if self.slots[i].name == *name {
                return Some(i);
            }
            i += 1;
        }
        None
    }

    /// Whether the store has a slot named `name`.
    pub fn contains_slot(&self, name: &String) -> (present: bool)
        requires
            self.wf(),
        ensures
            present == self@.contains_key(name@),
    {
        self.find(name).is_some()
    }

    /// The bytes in the slot named `name`, if there is one.
    pub fn read(&self, name: &String) -> (value: Option<Vec<u8>>)
        requires
            self.wf(),
        ensures
            match value {
                Some(bytes) => self@.contains_key(name@) && bytes@ == self@[name@],
                None => !self@.contains_key(name@),
            },
    {
        match self.find(name) {
            Some(i) => Some(self.slots[i].value.clone()),
            None => None,
        }
    }

    /// The permission bits of the slot named `name`, if there is one.
    pub fn permissions_of(&self, name: &String) -> (bits: Option<u32>)
        requires
            self.wf(),
        ensures
            match bits {
                Some(word) => self.permissions().contains_key(name@) && word
                    == self.permissions()[name@],
                None => !self.permissions().contains_key(name@),
            },
    {
        match self.find(name) {
            Some(i) => Some(self.slots[i].permissions),
            None => None,
        }
    }
    /// Creates the slot named `name` with `value` and `permissions`, unless
    /// a slot of that name exists; says whether it did so.
    pub fn add_key(&mut self, name: String, value: Vec<u8>, permissions: u32) -> (created: bool)
        requires
            old(self).wf(),
        ensures
            final(self).wf(),
            created == !old(self)@.contains_key(name@),
            created ==> final(self)@ == old(self)@.insert(name@, value@),
            created ==> final(self).permissions() == old(self).permissions().insert(
                name@,
                permissions,
            ),
            !created ==> final(self)@ == old(self)@,
            !created ==> final(self).permissions() == old(self).permissions(),
    {
        if self.find(&name).is_some() {
            return false;
        }
        let ghost before = self.slots@;
        let ghost label = name@;
        let ghost bytes = value@;
        self.slots.push(KeySlot { name, value, permissions });
        proof {
            let after = self.slots@;
            let last = before.len() as int;
            assert(after[last].name@ == label);
            assert forall|other: Seq<char>| has_slot(after, other) <==> (other == label
                || has_slot(before, other)) by {
                if has_slot(before, other) {
                    let i = slot_index(before, other);
                    assert(after[i].name@ == other);
                }
                if has_slot(after, other) && other != label {
                    let i = slot_index(after, other);
                    assert(before[i].name@ == other);
                }
            }
            assert forall|other: Seq<char>| has_slot(before, other) implies after[slot_index(
                after,
                other,
            )] == before[slot_index(before, other)] by {
                let i = slot_index(before, other);
                assert(after[i].name@ == other);
                let j = slot_index(after, other);
                assert(i == j);
            }
            assert(slot_index(after, label) == last);
            assert(self@ =~= old(self)@.insert(label, bytes));
            assert(self.permissions() =~= old(self).permissions().insert(label, permissions));
        }
        true
    }

    /// Replaces the bytes in the slot named `name` by `value`, if there is
    /// such a slot; says whether it did so.
    pub fn update(&mut self, name: &String, value: Vec<u8>) -> (replaced: bool)
        requires
            old(self).wf(),
        ensures
            final(self).wf(),
            replaced == old(self)@.contains_key(name@),
            replaced ==> final(self)@ == old(self)@.insert(name@, value@),
            !replaced ==> final(self)@ == old(self)@,
            final(self).permissions() == old(self).permissions(),
    {
        match self.find(name) {
            None => false,
            Some(i) => {
                let ghost before = self.slots@;
                let ghost bytes = value@;
                let permissions = self.slots[i].permissions;
                self.slots.set(i, KeySlot { name: name.clone(), value, permissions });
                proof {
                    let after = self.slots@;
                    assert forall|k: int| 0 <= k < after.len() implies #[trigger] after[k].name@
                        == before[k].name@ by {}
                    assert forall|other: Seq<char>| has_slot(after, other) <==> has_slot(
                        before,
                        other,
                    ) by {
                        if has_slot(before, other) {
                            let k = slot_index(before, other);
                            assert(after[k].name@ == other);
                        }
                        if has_slot(after, other) {
                            let k = slot_index(after, other);
                            assert(before[k].name@ == other);
                        }
                    }
                    assert forall|other: Seq<char>| has_slot(before, other) implies slot_index(
                        after,
                        other,
                    ) == slot_index(before, other) by {
                        let k = slot_index(before, other);
                        assert(after[k].name@ == other);
                    }
                    assert(self@ =~= old(self)@.insert(name@, bytes));
                    assert(self.permissions() =~= old(self).permissions());
                }
                true
            },
        }
    }

    /// Removes the slot named `name`, if there is one; says whether it did so.
    pub fn invalidate(&mut self, name: &String) -> (removed: bool)
        requires
            old(self).wf(),
        ensures
            final(self).wf(),
            removed == old(self)@.contains_key(name@),
            final(self)@ == old(self)@.remove(name@),
            final(self).permissions() == old(self).permissions().remove(name@),
    {
        match self.find(name) {
            None => {
                assert(self@ =~= old(self)@.remove(name@));
                assert(self.permissions() =~= old(self).permissions().remove(name@));
                false
            },
            Some(i) => {
                let ghost before = self.slots@;
                self.slots.remove(i);
                proof {
                    let after = self.slots@;
                    assert forall|k: int| 0 <= k < after.len() implies #[trigger] after[k]
                        == before[if k < i { k } else { k + 1 }] by {}
                    assert forall|other: Seq<char>| has_slot(after, other) <==> (other != name@
                        && has_slot(before, other)) by {
                        if has_slot(before, other) && other != name@ {
                            let k = slot_index(before, other);
                            let moved = if k < i { k } else { k - 1 };
                            assert(after[moved].name@ == other);
                        }
                        if has_slot(after, other) {
                            let k = slot_index(after, other);
                            let origin = if k < i { k } else { k + 1 };
                            assert(before[origin].name@ == other);
                        }
                    }
                    assert forall|other: Seq<char>| has_slot(after, other) implies after[slot_index(
                        after,
                        other,
                    )] == before[slot_index(before, other)] by {
                        let k = slot_index(after, other);
                        let origin = if k < i { k } else { k + 1 };
                        assert(before[origin].name@ == other);
                    }
                    assert(self@ =~= old(self)@.remove(name@));
                    assert(self.permissions() =~= old(self).permissions().remove(name@));
                }
                true
            },
        }
    }
}

/// Name of the slot that holds the key described by `description`: the
/// hexadecimal text of the description's UTF-8 bytes.
pub open spec fn spec_slot_name(description: Seq<char>) -> Seq<char> {
    hex_chars(encode_utf8(description))
}

/// Name of the slot that holds the key described by `description`.
pub fn slot_name(description: &str) -> (name: String)
    ensures
        name@ == spec_slot_name(description@),
{
    hex_encode(description.as_bytes())
}

/// An open slot of the keystore: its description and the bytes that it held
/// when it was last opened or replaced through this handle.
pub struct MyKey {
    /// The description of the key, in UTF-8.
    pub key_description: Vec<u8>,
    key: Vec<u8>,
}

impl MyKey {
    /// The bytes of the key as this handle knows them.
    pub closed spec fn spec_key(&self) -> Seq<u8> {
        self.key@
    }

    /// The description of the key, in UTF-8.
    pub closed spec fn spec_description(&self) -> Seq<u8> {
        self.key_description@
    }

    /// Name of the slot that this handle stands for.
    pub open spec fn spec_name(&self) -> Seq<char> {
        hex_chars(self.spec_description())
    }

    /// Opens the slot of the key described by `key_description_str`, and
    /// creates it first where it does not exist.
    ///
    /// A slot that exists is opened with the bytes that it holds, and `key`
    /// is not looked at. A slot that does not exist is created with the bytes
    /// of `key` and with [`CONST_SLOT_PERMISSIONS`]; without a `key` nothing
    /// is created and the answer is [`SecretKeyErrors::KeyNotProvided`].
    pub fn new(
        store: &mut KeyStore,
        key_description_str: &str,
        key_size: usize,
        key: Option<Vec<u8>>,
    ) -> (opened: Result<MyKey, SecretKeyErrors>)
        requires
            old(store).wf(),
        ensures
            final(store).wf(),
            spec_open_or_create(
                old(store)@,
                old(store).permissions(),
                key_description_str@,
                key,
            ) == (final(store)@, final(store).permissions()),
            match opened {
                Ok(handle) => {
                    &&& handle.spec_description() == encode_utf8(key_description_str@)
                    &&& final(store)@.contains_key(spec_slot_name(key_description_str@))
                    &&& handle.spec_key() == final(store)@[spec_slot_name(key_description_str@)]
                },
                Err(error) => {
                    &&& error == SecretKeyErrors::KeyNotProvided
                    &&& !old(store)@.contains_key(spec_slot_name(key_description_str@))
                    &&& key.is_none()
                },
            },
    {
        let key_description = key_description_str.as_bytes_vec();
        let name = hex_encode(key_description.as_slice());
        match store.read(&name) {
            Some(stored) => Ok(MyKey { key_description, key: stored }),
            None => match key {
                None => Err(SecretKeyErrors::KeyNotProvided),
                Some(provided) => {
                    let held = provided.clone();
                    store.add_key(name, provided, slot_permissions());
                    Ok(MyKey { key_description, key: held })
                },
            },
        }
    }

    /// `size` bytes from the thread's random number generator. No more
    /// than `isize::MAX` bytes can be had at once.
    pub fn generate_random_key(&self, size: usize) -> (key: Vec<u8>)
        requires
            size <= isize::MAX,
        ensures
            key@.len() == size,
    {
        random_bytes(size)
    }

    /// The bytes of the key as this handle knows them.
    pub fn get_key(&self) -> (key: &Vec<u8>)
        ensures
            key@ == self.spec_key(),
    {
        &self.key
    }

    /// Name of the slot that this handle stands for.
    pub fn get_key_description(&self) -> (name: String)
        ensures
            name@ == self.spec_name(),
    {
        hex_encode(self.key_description.as_slice())
    }

    /// Replaces the bytes in the slot by `new_key`. Where the slot is gone,
    /// nothing changes, the handle keeps the bytes it knew, and the answer is
    /// [`SecretKeyErrors::UnableToGetKeyFromOS`].
    pub fn update_key_in_ring(&mut self, store: &mut KeyStore, new_key: Vec<u8>) -> (done: Result<
        (),
        SecretKeyErrors,
    >)
        requires
            old(store).wf(),
        ensures
            final(store).wf(),
            final(self).spec_description() == old(self).spec_description(),
            final(store).permissions() == old(store).permissions(),
            old(store)@.contains_key(old(self).spec_name()) ==> {
                &&& done == Ok::<(), SecretKeyErrors>(())
                &&& final(store)@ == old(store)@.insert(old(self).spec_name(), new_key@)
                &&& final(self).spec_key() == new_key@
            },
            !old(store)@.contains_key(old(self).spec_name()) ==> {
                &&& done == Err::<(), SecretKeyErrors>(SecretKeyErrors::UnableToGetKeyFromOS)
                &&& final(store)@ == old(store)@
                &&& final(self).spec_key() == old(self).spec_key()
            },
    {
        let name = hex_encode(self.key_description.as_slice());
        let held = new_key.clone();
        if store.update(&name, new_key) {
            self.key = held;
            Ok(())
        } else {
            Err(SecretKeyErrors::UnableToGetKeyFromOS)
        }
    }

    /// Removes the slot from the store. Where the slot is gone already, the
    /// answer is [`SecretKeyErrors::UnableToGetKeyFromOS`].
    pub fn delete_key_from_ring(&self, store: &mut KeyStore) -> (done: Result<(), SecretKeyErrors>)
        requires
            old(store).wf(),
        ensures
            final(store).wf(),
            final(store)@ == old(store)@.remove(self.spec_name()),
            final(store).permissions() == old(store).permissions().remove(self.spec_name()),
            done == if old(store)@.contains_key(self.spec_name()) {
                Ok::<(), SecretKeyErrors>(())
            } else {
                Err::<(), SecretKeyErrors>(SecretKeyErrors::UnableToGetKeyFromOS)
            },
    {
        let name = hex_encode(self.key_description.as_slice());
        if store.invalidate(&name) {
            Ok(())
        } else {
            Err(SecretKeyErrors::UnableToGetKeyFromOS)
        }
    }
}

/// The values and the permissions of the store after the slot of
/// `description` was opened, with `key` to create it from where it is
/// missing.
pub open spec fn spec_open_or_create(
    values: Map<Seq<char>, Seq<u8>>,
    permissions: Map<Seq<char>, u32>,
    description: Seq<char>,
    key: Option<Vec<u8>>,
) -> (Map<Seq<char>, Seq<u8>>, Map<Seq<char>, u32>) {
    let name = spec_slot_name(description);
    if values.contains_key(name) {
        (values, permissions)
    } else {
        match key {
            Some(provided) => (
                values.insert(name, provided@),
                permissions.insert(name, CONST_SLOT_PERMISSIONS),
            ),
            None => (values, permissions),
        }
    }
}

/// The values and the permissions of the store after `key` was stored in
/// the slot of `description`: in a new slot with [`CONST_SLOT_PERMISSIONS`]
/// where there was none, else in place of what the slot held.
pub open spec fn spec_store_key(
    values: Map<Seq<char>, Seq<u8>>,
    permissions: Map<Seq<char>, u32>,
    description: Seq<char>,
    key: Seq<u8>,
) -> (Map<Seq<char>, Seq<u8>>, Map<Seq<char>, u32>) {
    let name = spec_slot_name(description);
    (
        values.insert(name, key),
        if values.contains_key(name) {
            permissions
        } else {
            permissions.insert(name, CONST_SLOT_PERMISSIONS)
        },
    )
}

/// Stores `key` in the slot of `description`, which is created where it
/// does not exist.
pub fn store_key(store: &mut KeyStore, description: &str, key: Vec<u8>)
    requires
        old(store).wf(),
    ensures
        final(store).wf(),
        (final(store)@, final(store).permissions()) == spec_store_key(
            old(store)@,
            old(store).permissions(),
            description@,
            key@,
        ),
{
    let size = key.len();
    match MyKey::new(store, description, size, Some(key.clone())) {
        Ok(handle) => {
            let mut handle = handle;
            let _ = handle.update_key_in_ring(store, key);
            assert(store@ =~= old(store)@.insert(spec_slot_name(description@), key@));
        },
        Err(_) => {},
    }
}

/// Every description has a slot of its own: two descriptions with the same
/// slot name are the same description.
pub proof fn lemma_slot_name_injective(a: Seq<char>, b: Seq<char>)
    requires
        spec_slot_name(a) == spec_slot_name(b),
    ensures
        a == b,
{
    lemma_hex_chars_injective(encode_utf8(a), encode_utf8(b));
    encode_utf8_decode_utf8(a);
    encode_utf8_decode_utf8(b);
}

} // verus!

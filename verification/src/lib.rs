//! Mutual authentication and key agreement between two numbered peers, built
//! on Schnorr identification over the Ed25519 group.
//!
//! Two peers first run the interactive protocol of [`IntMutAuth`], which
//! leaves each of them with a shared secret and a shared counter in its
//! keystore. From then on they prove themselves to each other without
//! interaction: one-sided with [`gen_nizk_proof`] and [`verify_nizk_proof`],
//! or mutually, with a session key at the end, with [`NIZKMutAuth`]. Every
//! accepted proof moves secret and counter forward. Rejected proofs are
//! counted per peer in an intrusion journal.
//!
//! The keystore, the log of used commitments and the intrusion journal are
//! values that the caller owns and hands to each operation.

pub mod access_control;
pub mod file_management;
pub mod schnorr_identification;
pub mod secret_management;
pub mod text;

use crate::file_management::{
    check_commitment, current_time_millis, manage_intrusion_at, spec_check_intrusion,
    spec_manage_intrusion, spec_observe, spec_observed, CommitmentLog, Intrusion, IntrusionJournal,
};
use crate::schnorr_identification::{
    array32_from_vec, basepoint_mul, generate_proof_response, generate_random_32bytes,
    generate_random_scalar, group_order, le_value, lemma_response_reductions,
    lemma_scalar_bytes_value, lemma_schnorr_equation_in_a_group, lemma_shared_point_in_a_group,
    multiples_form_a_group, nizk_proof_with_nonce, optional_bytes, point_mul, scalar_bytes,
    sha3_256, spec_basepoint_mul, spec_nizk_challenge, spec_point_mul, spec_schnorr_accepts,
    spec_sha3_256, verify_int_proof, verify_nizk_proof as check_nizk_proof, Scalar,
};
use crate::secret_management::{
    lemma_slot_name_injective, slot_name, spec_open_or_create, spec_slot_name, spec_store_key,
    store_key, KeyStore, MyKey, SecretKeyErrors,
};
use crate::text::{
    decimal_digits, decimal_string, lemma_decimal_digits_injective, lemma_decimal_pair_injective,
};
use vstd::prelude::*;
use vstd::string::*;

verus! {

/// Role of the peer that opens the interactive protocol.
pub const CONST_INITIATOR_ROLE: u8 = 0;

/// Role of the peer that answers in the interactive protocol.
pub const CONST_RECEIVER_ROLE: u8 = 1;

/// Stage and message tag: nothing is left to send.
pub const CONST_NEXT_STEP_REQUIRED: u8 = 0;

/// Stage and message tag: a commitment.
pub const CONST_COMMITMENT: u8 = 1;

/// Stage and message tag: a commitment and a challenge.
pub const CONST_COMMITMENT_AND_CHALLENGE: u8 = 2;

/// Stage and message tag: a challenge and a response.
pub const CONST_CHALLENGE_AND_RESPONSE: u8 = 3;

/// Stage and message tag: a response.
pub const CONST_RESPONSE: u8 = 4;

/// After this message the peer's proof cannot be checked yet.
pub const CONST_RESPONSE_CANNOT_BE_VERIFIED: u8 = 0;

/// After this message the peer's proof can be checked once the own response
/// has been made.
pub const CONST_RESPONSE_CAN_BE_VERIFIED_AFTER_GENERATING_RESPONSE: u8 = 1;

/// After this message the peer's proof can be checked.
pub const CONST_RESPONSE_CAN_BE_VERIFIED: u8 = 2;

/// The message has a tag that no message carries, or lacks its second value.
pub const CONST_RECEIVED_WRONG_REQUEST_ID: u8 = 3;

/// Nothing is left to generate.
pub const CONST_NO_OTHER_VALUES_TO_GENERATE: u8 = 0;

/// The next values have to be generated.
pub const CONST_NEXT_VALUES_HAS_TO_BE_GENERATED: u8 = 1;

/// Description of the slot of the public key of peer `id`.
pub open spec fn spec_public_key_description(id: u32) -> Seq<char> {
    "PublicKey:"@ + decimal_digits(id as nat)
}

/// Description of the slot of the private key of peer `id`.
pub open spec fn spec_private_key_description(id: u32) -> Seq<char> {
    "PrivateKey:"@ + decimal_digits(id as nat)
}

/// Description of the slot in which peer `me` keeps the secret that it
/// shares with peer `other`.
pub open spec fn spec_shared_secret_description(me: u32, other: u32) -> Seq<char> {
    "SharedSecretKey:"@ + decimal_digits(me as nat) + ":"@ + decimal_digits(other as nat)
}

/// Description of the slot in which peer `me` keeps the counter that it
/// shares with peer `other`.
pub open spec fn spec_shared_counter_description(me: u32, other: u32) -> Seq<char> {
    "SharedCounter:"@ + decimal_digits(me as nat) + ":"@ + decimal_digits(other as nat)
}

/// Description of the slot of the public key of peer `id`.
pub fn public_key_description(id: u32) -> (description: String)
    ensures
        description@ == spec_public_key_description(id),
{
    let mut description = String::from_str("PublicKey:");
    description.append(decimal_string(id).as_str());
    description
}

/// Description of the slot of the private key of peer `id`.
pub fn private_key_description(id: u32) -> (description: String)
    ensures
        description@ == spec_private_key_description(id),
{
    let mut description = String::from_str("PrivateKey:");
    description.append(decimal_string(id).as_str());
    description
}

/// Description of the slot in which peer `me` keeps the secret that it
/// shares with peer `other`.
pub fn shared_secret_description(me: u32, other: u32) -> (description: String)
    ensures
        description@ == spec_shared_secret_description(me, other),
{
    let mut description = String::from_str("SharedSecretKey:");
    description.append(decimal_string(me).as_str());
    description.append(":");
    description.append(decimal_string(other).as_str());
    description
}

/// Description of the slot in which peer `me` keeps the counter that it
/// shares with peer `other`.
pub fn shared_counter_description(me: u32, other: u32) -> (description: String)
    ensures
        description@ == spec_shared_counter_description(me, other),
{
    let mut description = String::from_str("SharedCounter:");
    description.append(decimal_string(me).as_str());
    description.append(":");
    description.append(decimal_string(other).as_str());
    description
}

/// The number that four bytes spell, most significant byte first.
pub open spec fn spec_counter_value(bytes: Seq<u8>) -> nat
    recommends
        bytes.len() == 4,
{
    (bytes[0] as nat) * 0x1000000 + (bytes[1] as nat) * 0x10000 + (bytes[2] as nat) * 0x100
        + bytes[3] as nat
}

/// The four bytes of `value`, most significant byte first.
pub open spec fn spec_counter_bytes(value: nat) -> Seq<u8>
    recommends
        value <= u32::MAX,
{
    seq![
        (value / 0x1000000) as u8,
        ((value / 0x10000) % 0x100) as u8,
        ((value / 0x100) % 0x100) as u8,
        (value % 0x100) as u8,
    ]
}

/// The number that the four bytes of a counter spell.
pub fn counter_from_bytes(bytes: &[u8; 4]) -> (value: u32)
    ensures
        value == spec_counter_value(bytes@),
{
    let b0: u32 = bytes[0] as u32;
    let b1: u32 = bytes[1] as u32;
    let b2: u32 = bytes[2] as u32;
    let b3: u32 = bytes[3] as u32;
    b0 * 0x1000000 + b1 * 0x10000 + b2 * 0x100 + b3
}

/// The four bytes of a counter.
pub fn counter_to_bytes(value: u32) -> (bytes: Vec<u8>)
    ensures
        bytes@ == spec_counter_bytes(value as nat),
{
    let mut bytes: Vec<u8> = Vec::new();
    bytes.push((value / 0x1000000) as u8);
    bytes.push(((value / 0x10000) % 0x100) as u8);
    bytes.push(((value / 0x100) % 0x100) as u8);
    bytes.push((value % 0x100) as u8);
    assert(bytes@ =~= spec_counter_bytes(value as nat));
    bytes
}

/// The bytes of a counter spell the counter.
pub proof fn lemma_counter_bytes_value(value: nat)
    requires
        value <= u32::MAX,
    ensures
        spec_counter_bytes(value).len() == 4,
        spec_counter_value(spec_counter_bytes(value)) == value,
{
}

/// What reading a key of `size` bytes from the slot of `description` gives:
/// the bytes in the slot; [`SecretKeyErrors::KeyNotProvided`] where the slot
/// is missing; [`SecretKeyErrors::UnableToGetKeyFromOS`] where it holds
/// another number of bytes.
pub open spec fn spec_read_key(values: Map<Seq<char>, Seq<u8>>, description: Seq<char>, size: nat)
    -> Result<Seq<u8>, SecretKeyErrors> {
    let name = spec_slot_name(description);
    if !values.contains_key(name) {
        Err(SecretKeyErrors::KeyNotProvided)
    } else if values[name].len() != size {
        Err(SecretKeyErrors::UnableToGetKeyFromOS)
    } else {
        Ok(values[name])
    }
}

fn read_key(keys: &KeyStore, description: &String, size: usize) -> (key: Result<
    Vec<u8>,
    SecretKeyErrors,
>)
    requires
        keys.wf(),
    ensures
        match key {
            Ok(bytes) => spec_read_key(keys@, description@, size as nat) == Ok::<
                Seq<u8>,
                SecretKeyErrors,
            >(bytes@),
            Err(error) => spec_read_key(keys@, description@, size as nat) == Err::<
                Seq<u8>,
                SecretKeyErrors,
            >(error),
        },
{
    let name = slot_name(description.as_str());
    match keys.read(&name) {
        None => Err(SecretKeyErrors::KeyNotProvided),
        Some(bytes) => {
            if bytes.len() != size {
                Err(SecretKeyErrors::UnableToGetKeyFromOS)
            } else {
                Ok(bytes)
            }
        },
    }
}

/// Reads the 32-byte key in the slot of `description`.
pub fn get_32byte_key(keys: &KeyStore, description: &String) -> (key: Result<
    [u8; 32],
    SecretKeyErrors,
>)
    requires
        keys.wf(),
    ensures
        match key {
            Ok(bytes) => spec_read_key(keys@, description@, 32) == Ok::<Seq<u8>, SecretKeyErrors>(
                bytes@,
            ),
            Err(error) => spec_read_key(keys@, description@, 32) == Err::<
                Seq<u8>,
                SecretKeyErrors,
            >(error),
        },
{
    match read_key(keys, description, 32) {
        Ok(bytes) => Ok(array32_from_vec(&bytes)),
        Err(error) => Err(error),
    }
}

/// Reads the counter that peer `my_id` shares with peer `receiver_id`.
pub fn get_shared_counter(keys: &KeyStore, my_id: u32, receiver_id: u32) -> (counter: Result<
    [u8; 4],
    SecretKeyErrors,
>)
    requires
        keys.wf(),
    ensures
        match counter {
            Ok(bytes) => spec_read_key(
                keys@,
                spec_shared_counter_description(my_id, receiver_id),
                4,
            ) == Ok::<Seq<u8>, SecretKeyErrors>(bytes@),
            Err(error) => spec_read_key(
                keys@,
                spec_shared_counter_description(my_id, receiver_id),
                4,
            ) == Err::<Seq<u8>, SecretKeyErrors>(error),
        },
{
    let description = shared_counter_description(my_id, receiver_id);
    match read_key(keys, &description, 4) {
        Ok(bytes) => {
            let counter = [bytes[0], bytes[1], bytes[2], bytes[3]];
            assert(counter@ =~= bytes@);
            Ok(counter)
        },
        Err(error) => Err(error),
    }
}

/// Opens the slot of the key described by `key_description`, and creates it
/// from `key` where it does not exist: [`MyKey::new`].
pub fn get_key_instance(
    keys: &mut KeyStore,
    key_description: &str,
    key_size: usize,
    key: Option<Vec<u8>>,
) -> (opened: Result<MyKey, SecretKeyErrors>)
    requires
        old(keys).wf(),
    ensures
        final(keys).wf(),
        spec_open_or_create(old(keys)@, old(keys).permissions(), key_description@, key) == (
            final(keys)@,
            final(keys).permissions(),
        ),
        match opened {
            Ok(handle) => {
                &&& handle.spec_description() == vstd::utf8::encode_utf8(key_description@)
                &&& final(keys)@.contains_key(spec_slot_name(key_description@))
                &&& handle.spec_key() == final(keys)@[spec_slot_name(key_description@)]
            },
            Err(error) => {
                &&& error == SecretKeyErrors::KeyNotProvided
                &&& !old(keys)@.contains_key(spec_slot_name(key_description@))
                &&& key.is_none()
            },
        },
{
    MyKey::new(keys, key_description, key_size, key)
}

/// What the journal says of the keys of `sender_id`, as `(asymmetric,
/// symmetric)`: whether its private key and whether the secret shared with it
/// count as compromised.
pub fn check_intrusion(journal: &IntrusionJournal, sender_id: u32) -> (verdict: (bool, bool))
    ensures
        verdict.0 == spec_check_intrusion(journal@, sender_id).0,
        verdict.1 == spec_check_intrusion(journal@, sender_id).1,
{
    let (asym, sym, _) = file_management::check_intrusion(journal, sender_id);
    (asym, sym)
}

/// The keystore of peer `me` after an accepted proof between `me` and
/// `other`, or why it cannot move forward.
///
/// With `K` the shared secret and `N` the shared counter, the new secret is
/// the SHA3-256 digest of `K`, the four bytes of `N + 1`, `response` and
/// `additional`, and the new counter is `N + 2`. Secret and counter must be
/// there with 32 and 4 bytes, and the counter must have room for the step;
/// a counter without room gives [`SecretKeyErrors::UnableToChangeKeyValue`].
pub open spec fn spec_update_used_values(
    values: Map<Seq<char>, Seq<u8>>,
    me: u32,
    other: u32,
    response: Seq<u8>,
    additional: Seq<u8>,
) -> Result<Map<Seq<char>, Seq<u8>>, SecretKeyErrors> {
    let secret_description = spec_shared_secret_description(me, other);
    let counter_description = spec_shared_counter_description(me, other);
    match spec_read_key(values, secret_description, 32) {
        Err(error) => Err(error),
        Ok(secret) => match spec_read_key(values, counter_description, 4) {
            Err(error) => Err(error),
            Ok(counter) => {
                let n = spec_counter_value(counter);
                if n + 2 > u32::MAX {
                    Err(SecretKeyErrors::UnableToChangeKeyValue)
                } else {
                    Ok(
                        values.insert(
                            spec_slot_name(secret_description),
                            spec_sha3_256(
                                secret + spec_counter_bytes(n + 1) + response + additional,
                            ),
                        ).insert(spec_slot_name(counter_description), spec_counter_bytes(n + 2)),
                    )
                }
            },
        },
    }
}

/// Moves the secret and the counter that `my_id` shares with `other_id`
/// forward after an accepted proof. On an error the keystore stays as it is.
pub fn update_used_values(
    keys: &mut KeyStore,
    my_id: u32,
    other_id: u32,
    response: [u8; 32],
    additional_data: Option<&[u8]>,
) -> (done: Result<(), SecretKeyErrors>)
    requires
        old(keys).wf(),
    ensures
        final(keys).wf(),
        final(keys).permissions() == old(keys).permissions(),
        match done {
            Ok(_) => spec_update_used_values(
                old(keys)@,
                my_id,
                other_id,
                response@,
                optional_bytes(additional_data),
            ) == Ok::<Map<Seq<char>, Seq<u8>>, SecretKeyErrors>(final(keys)@),
            Err(error) => {
                &&& spec_update_used_values(
                    old(keys)@,
                    my_id,
                    other_id,
                    response@,
                    optional_bytes(additional_data),
                ) == Err::<Map<Seq<char>, Seq<u8>>, SecretKeyErrors>(error)
                &&& final(keys)@ == old(keys)@
            },
        },
{
    let secret_description = shared_secret_description(my_id, other_id);
    let counter_description = shared_counter_description(my_id, other_id);
    let secret = match get_32byte_key(keys, &secret_description) {
        Ok(secret) => secret,
        Err(error) => {
            return Err(error);
        },
    };
    let counter = match get_shared_counter(keys, my_id, other_id) {
        Ok(counter) => counter,
        Err(error) => {
            return Err(error);
        },
    };
    let counter_value = counter_from_bytes(&counter);
    if counter_value > u32::MAX - 2 {
        return Err(SecretKeyErrors::UnableToChangeKeyValue);
    }
    let step = counter_to_bytes(counter_value + 1);
    let new_key = sha3_256(
        secret.as_slice(),
        Some(step.as_slice()),
        Some(response.as_slice()),
        additional_data,
    );
    let new_counter = counter_to_bytes(counter_value + 2);
    let secret_name = slot_name(secret_description.as_str());
    let counter_name = slot_name(counter_description.as_str());
    let mut new_key_bytes: Vec<u8> = Vec::new();
    new_key_bytes.extend_from_slice(new_key.as_slice());
    assert(new_key_bytes@ =~= new_key@);
    keys.update(&secret_name, new_key_bytes);
    keys.update(&counter_name, new_counter);
    Ok(())
}

/// A proof `(commitment, challenge, response)` as the contracts see it.
pub type ProofView = (Seq<u8>, Seq<u8>, Seq<u8>);

/// What a proof holds, as byte strings.
pub open spec fn proof_view(proof: ([u8; 32], [u8; 32], [u8; 32])) -> ProofView {
    (proof.0@, proof.1@, proof.2@)
}

/// The keys that a peer needs to prove itself to another without
/// interaction.
pub struct ProverKeys {
    /// The private key of the prover.
    pub private_key: Seq<u8>,
    /// The secret that the prover shares with the verifier.
    pub shared_secret: Seq<u8>,
    /// The counter that the prover shares with the verifier.
    pub shared_counter: Seq<u8>,
}

/// The keys with which `me` proves itself to `other`, read in the order
/// private key, shared secret, shared counter; the error of the first that
/// cannot be read.
pub open spec fn spec_prover_keys(values: Map<Seq<char>, Seq<u8>>, me: u32, other: u32) -> Result<
    ProverKeys,
    SecretKeyErrors,
> {
    match spec_read_key(values, spec_private_key_description(me), 32) {
        Err(error) => Err(error),
        Ok(private_key) => match spec_read_key(
            values,
            spec_shared_secret_description(me, other),
            32,
        ) {
            Err(error) => Err(error),
            Ok(shared_secret) => match spec_read_key(
                values,
                spec_shared_counter_description(me, other),
                4,
            ) {
                Err(error) => Err(error),
                Ok(shared_counter) => Ok(ProverKeys { private_key, shared_secret, shared_counter }),
            },
        },
    }
}

/// The keys with which a peer checks the proof of another.
pub struct VerifierKeys {
    /// The public key of the prover.
    pub public_key: Seq<u8>,
    /// The secret that the verifier shares with the prover.
    pub shared_secret: Seq<u8>,
    /// The counter that the verifier shares with the prover.
    pub shared_counter: Seq<u8>,
}

/// The keys with which `me` checks a proof of `other`, read in the order
/// public key, shared secret, shared counter; the error of the first that
/// cannot be read.
pub open spec fn spec_verifier_keys(values: Map<Seq<char>, Seq<u8>>, me: u32, other: u32)
    -> Result<VerifierKeys, SecretKeyErrors> {
    match spec_read_key(values, spec_public_key_description(other), 32) {
        Err(error) => Err(error),
        Ok(public_key) => match spec_read_key(
            values,
            spec_shared_secret_description(me, other),
            32,
        ) {
            Err(error) => Err(error),
            Ok(shared_secret) => match spec_read_key(
                values,
                spec_shared_counter_description(me, other),
                4,
            ) {
                Err(error) => Err(error),
                Ok(shared_counter) => Ok(
                    VerifierKeys { public_key, shared_secret, shared_counter },
                ),
            },
        },
    }
}

/// The non-interactive proof that the holder of `keys` makes with `nonce`.
pub open spec fn spec_nizk_proof(keys: ProverKeys, nonce: Seq<u8>) -> ProofView {
    let commitment = spec_basepoint_mul(nonce);
    let challenge = spec_nizk_challenge(keys.shared_secret, keys.shared_counter, commitment);
    (
        commitment,
        challenge,
        scalar_bytes(le_value(nonce) + le_value(keys.private_key) * le_value(challenge)),
    )
}

/// The two checks of a non-interactive proof under `keys`, as `(schnorr,
/// mac)`.
pub open spec fn spec_nizk_checks(keys: VerifierKeys, proof: ProofView) -> (bool, bool) {
    (
        spec_schnorr_accepts(keys.public_key, proof.0, scalar_bytes(le_value(proof.1)), proof.2),
        proof.1 == spec_nizk_challenge(keys.shared_secret, keys.shared_counter, proof.0),
    )
}

fn read_prover_keys(keys: &KeyStore, my_id: u32, receiver_id: u32) -> (read: Result<
    ([u8; 32], [u8; 32], [u8; 4]),
    SecretKeyErrors,
>)
    requires
        keys.wf(),
    ensures
        match read {
            Ok(found) => spec_prover_keys(keys@, my_id, receiver_id) == Ok::<
                ProverKeys,
                SecretKeyErrors,
            >(
                ProverKeys {
                    private_key: found.0@,
                    shared_secret: found.1@,
                    shared_counter: found.2@,
                },
            ),
            Err(error) => spec_prover_keys(keys@, my_id, receiver_id) == Err::<
                ProverKeys,
                SecretKeyErrors,
            >(error),
        },
{
    let private_key = match get_32byte_key(keys, &private_key_description(my_id)) {
        Ok(key) => key,
        Err(error) => {
            return Err(error);
        },
    };
    let shared_secret = match get_32byte_key(keys, &shared_secret_description(my_id, receiver_id)) {
        Ok(key) => key,
        Err(error) => {
            return Err(error);
        },
    };
    let shared_counter = match get_shared_counter(keys, my_id, receiver_id) {
        Ok(counter) => counter,
        Err(error) => {
            return Err(error);
        },
    };
    Ok((private_key, shared_secret, shared_counter))
}

fn read_verifier_keys(keys: &KeyStore, my_id: u32, sender_id: u32) -> (read: Result<
    ([u8; 32], [u8; 32], [u8; 4]),
    SecretKeyErrors,
>)
    requires
        keys.wf(),
    ensures
        match read {
            Ok(found) => spec_verifier_keys(keys@, my_id, sender_id) == Ok::<
                VerifierKeys,
                SecretKeyErrors,
            >(
                VerifierKeys {
                    public_key: found.0@,
                    shared_secret: found.1@,
                    shared_counter: found.2@,
                },
            ),
            Err(error) => spec_verifier_keys(keys@, my_id, sender_id) == Err::<
                VerifierKeys,
                SecretKeyErrors,
            >(error),
        },
{
    let public_key = match get_32byte_key(keys, &public_key_description(sender_id)) {
        Ok(key) => key,
        Err(error) => {
            return Err(error);
        },
    };
    let shared_secret = match get_32byte_key(keys, &shared_secret_description(my_id, sender_id)) {
        Ok(key) => key,
        Err(error) => {
            return Err(error);
        },
    };
    let shared_counter = match get_shared_counter(keys, my_id, sender_id) {
        Ok(counter) => counter,
        Err(error) => {
            return Err(error);
        },
    };
    Ok((public_key, shared_secret, shared_counter))
}

/// Proof and keystore of [`gen_nizk_proof_with_nonce`], or its error.
///
/// The proof is made with the keys of `me` for `other`; then secret and
/// counter move forward with the response of the proof and nothing added.
pub open spec fn spec_gen_nizk_proof(
    values: Map<Seq<char>, Seq<u8>>,
    me: u32,
    other: u32,
    nonce: Seq<u8>,
) -> Result<(ProofView, Map<Seq<char>, Seq<u8>>), SecretKeyErrors> {
    match spec_prover_keys(values, me, other) {
        Err(error) => Err(error),
        Ok(keys) => {
            let proof = spec_nizk_proof(keys, nonce);
            match spec_update_used_values(values, me, other, proof.2, Seq::empty()) {
                Err(error) => Err(error),
                Ok(moved) => Ok((proof, moved)),
            }
        },
    }
}

/// Makes, with `nonce`, the proof by which `my_id` proves itself to
/// `receiver_id` without interaction, and moves the secret and the counter
/// that they share forward. On an error the keystore stays as it is.
pub fn gen_nizk_proof_with_nonce(
    keys: &mut KeyStore,
    my_id: u32,
    receiver_id: u32,
    nonce: Scalar,
) -> (made: Result<([u8; 32], [u8; 32], [u8; 32]), SecretKeyErrors>)
    requires
        old(keys).wf(),
    ensures
        final(keys).wf(),
        final(keys).permissions() == old(keys).permissions(),
        match made {
            Ok(proof) => spec_gen_nizk_proof(old(keys)@, my_id, receiver_id, nonce.bytes@) == Ok::<
                (ProofView, Map<Seq<char>, Seq<u8>>),
                SecretKeyErrors,
            >((proof_view(proof), final(keys)@)),
            Err(error) => {
                &&& spec_gen_nizk_proof(old(keys)@, my_id, receiver_id, nonce.bytes@) == Err::<
                    (ProofView, Map<Seq<char>, Seq<u8>>),
                    SecretKeyErrors,
                >(error)
                &&& final(keys)@ == old(keys)@
            },
        },
{
    let (private_key, shared_secret, shared_counter) = match read_prover_keys(
        keys,
        my_id,
        receiver_id,
    ) {
        Ok(found) => found,
        Err(error) => {
            return Err(error);
        },
    };
    let (_, commitment, challenge, response) = nizk_proof_with_nonce(
        nonce,
        private_key,
        shared_secret,
        shared_counter,
    );
    match update_used_values(keys, my_id, receiver_id, response, None) {
        Ok(_) => Ok((commitment, challenge, response)),
        Err(error) => Err(error),
    }
}

/// Makes the proof by which `my_id` proves itself to `receiver_id` without
/// interaction, with a random nonce: [`gen_nizk_proof_with_nonce`] with
/// some nonce.
pub fn gen_nizk_proof(keys: &mut KeyStore, my_id: u32, receiver_id: u32) -> (made: Result<
    ([u8; 32], [u8; 32], [u8; 32]),
    SecretKeyErrors,
>)
    requires
        old(keys).wf(),
    ensures
        final(keys).wf(),
        final(keys).permissions() == old(keys).permissions(),
        exists|nonce: Scalar|
            match made {
                Ok(proof) => #[trigger] spec_gen_nizk_proof(
                    old(keys)@,
                    my_id,
                    receiver_id,
                    nonce.bytes@,
                ) == Ok::<(ProofView, Map<Seq<char>, Seq<u8>>), SecretKeyErrors>(
                    (proof_view(proof), final(keys)@),
                ),
                Err(error) => {
                    &&& spec_gen_nizk_proof(old(keys)@, my_id, receiver_id, nonce.bytes@) == Err::<
                        (ProofView, Map<Seq<char>, Seq<u8>>),
                        SecretKeyErrors,
                    >(error)
                    &&& final(keys)@ == old(keys)@
                },
            },
{
    let nonce = generate_random_scalar();
    gen_nizk_proof_with_nonce(keys, my_id, receiver_id, nonce)
}

/// Verdict, keystore and journal of [`verify_nizk_proof_at`], or its error.
///
/// The proof is checked with the keys that `me` holds for `sender`. An
/// accepted proof moves secret and counter forward with its response and
/// nothing added. A rejected proof is entered in the journal with the outcome
/// of its two checks.
pub open spec fn spec_verify_nizk_proof(
    values: Map<Seq<char>, Seq<u8>>,
    journal: Map<u32, Intrusion>,
    me: u32,
    sender: u32,
    proof: ProofView,
    now_ms: i64,
) -> Result<(bool, Map<Seq<char>, Seq<u8>>, Map<u32, Intrusion>), SecretKeyErrors> {
    match spec_verifier_keys(values, me, sender) {
        Err(error) => Err(error),
        Ok(keys) => {
            let checks = spec_nizk_checks(keys, proof);
            if checks.0 && checks.1 {
                match spec_update_used_values(values, me, sender, proof.2, Seq::empty()) {
                    Err(error) => Err(error),
                    Ok(moved) => Ok((true, moved, journal)),
                }
            } else {
                Ok(
                    (
                        false,
                        values,
                        spec_manage_intrusion(journal, sender, checks.0, checks.1, now_ms),
                    ),
                )
            }
        },
    }
}

/// Checks at time `now_ms` the proof by which `sender_id` proves itself to
/// `my_id` without interaction. On an error keystore and journal stay as
/// they are.
pub fn verify_nizk_proof_at(
    keys: &mut KeyStore,
    journal: &mut IntrusionJournal,
    my_id: u32,
    sender_id: u32,
    proof: ([u8; 32], [u8; 32], [u8; 32]),
    now_ms: i64,
) -> (verdict: Result<bool, SecretKeyErrors>)
    requires
        old(keys).wf(),
    ensures
        final(keys).wf(),
        final(keys).permissions() == old(keys).permissions(),
        match verdict {
            Ok(accepted) => spec_verify_nizk_proof(
                old(keys)@,
                old(journal)@,
                my_id,
                sender_id,
                proof_view(proof),
                now_ms,
            ) == Ok::<(bool, Map<Seq<char>, Seq<u8>>, Map<u32, Intrusion>), SecretKeyErrors>(
                (accepted, final(keys)@, final(journal)@),
            ),
            Err(error) => {
                &&& spec_verify_nizk_proof(
                    old(keys)@,
                    old(journal)@,
                    my_id,
                    sender_id,
                    proof_view(proof),
                    now_ms,
                ) == Err::<(bool, Map<Seq<char>, Seq<u8>>, Map<u32, Intrusion>), SecretKeyErrors>(
                    error,
                )
                &&& final(keys)@ == old(keys)@
                &&& final(journal)@ == old(journal)@
            },
        },
{
    let (public_key, shared_secret, shared_counter) = match read_verifier_keys(
        keys,
        my_id,
        sender_id,
    ) {
        Ok(found) => found,
        Err(error) => {
            return Err(error);
        },
    };
    let (schnorr, mac) = check_nizk_proof(public_key, shared_secret, shared_counter, proof);
    let accepted = schnorr && mac;
    if accepted {
        match update_used_values(keys, my_id, sender_id, proof.2, None) {
            Ok(_) => Ok(true),
            Err(error) => Err(error),
        }
    } else {
        manage_intrusion_at(journal, sender_id, schnorr, mac, now_ms);
        Ok(false)
    }
}

/// Checks the proof by which `sender_id` proves itself to `my_id` without
/// interaction: [`verify_nizk_proof_at`] at the time the system clock shows.
pub fn verify_nizk_proof(
    keys: &mut KeyStore,
    journal: &mut IntrusionJournal,
    my_id: u32,
    sender_id: u32,
    proof: ([u8; 32], [u8; 32], [u8; 32]),
) -> (verdict: Result<bool, SecretKeyErrors>)
    requires
        old(keys).wf(),
    ensures
        final(keys).wf(),
        final(keys).permissions() == old(keys).permissions(),
        exists|now_ms: i64|
            match verdict {
                Ok(accepted) => #[trigger] spec_verify_nizk_proof(
                    old(keys)@,
                    old(journal)@,
                    my_id,
                    sender_id,
                    proof_view(proof),
                    now_ms,
                ) == Ok::<(bool, Map<Seq<char>, Seq<u8>>, Map<u32, Intrusion>), SecretKeyErrors>(
                    (accepted, final(keys)@, final(journal)@),
                ),
                Err(error) => {
                    &&& spec_verify_nizk_proof(
                        old(keys)@,
                        old(journal)@,
                        my_id,
                        sender_id,
                        proof_view(proof),
                        now_ms,
                    ) == Err::<
                        (bool, Map<Seq<char>, Seq<u8>>, Map<u32, Intrusion>),
                        SecretKeyErrors,
                    >(error)
                    &&& final(keys)@ == old(keys)@
                    &&& final(journal)@ == old(journal)@
                },
            },
{
    let now_ms = current_time_millis();
    verify_nizk_proof_at(keys, journal, my_id, sender_id, proof, now_ms)
}

/// `len` bytes that are all zero.
pub open spec fn zero_bytes(len: nat) -> Seq<u8> {
    Seq::new(len, |i: int| 0u8)
}

/// A run of the interactive protocol, as the contracts see it.
pub struct IntMutAuthView {
    /// Number of the peer that holds this run.
    pub sender_id: u32,
    /// Number of the peer at the other end.
    pub recipient_id: u32,
    /// Role of the holder.
    pub role: u8,
    /// What the holder sends next.
    pub stage: u8,
    /// The nonce of the holder.
    pub my_random_int: Seq<u8>,
    /// The commitment of the holder to its nonce.
    pub my_commitment: Seq<u8>,
    /// The challenge that the holder drew for its peer.
    pub my_challenge: Seq<u8>,
    /// The response of the holder to the challenge of its peer.
    pub my_response: Seq<u8>,
    /// The commitment of the peer.
    pub recipient_commitment: Seq<u8>,
    /// The challenge that the peer drew for the holder.
    pub recipient_challenge: Seq<u8>,
    /// The response of the peer to the challenge of the holder.
    pub recipient_response: Seq<u8>,
}

/// One side of the interactive protocol in which two peers prove themselves
/// to each other and agree on a shared secret.
pub struct IntMutAuth {
    /// Number of the peer that holds this run.
    pub sender_id: u32,
    /// Number of the peer at the other end.
    pub recipient_id: u32,
    /// Role of the holder.
    pub role: u8,
    stage: u8,
    my_random_int: Scalar,
    my_commitment: [u8; 32],
    my_challenge: Scalar,
    my_response: [u8; 32],
    recipient_commitment: [u8; 32],
    recipient_challenge: Scalar,
    recipient_response: [u8; 32],
}

impl View for IntMutAuth {
    type V = IntMutAuthView;

    closed spec fn view(&self) -> IntMutAuthView {
        IntMutAuthView {
            sender_id: self.sender_id,
            recipient_id: self.recipient_id,
            role: self.role,
            stage: self.stage,
            my_random_int: self.my_random_int.bytes@,
            my_commitment: self.my_commitment@,
            my_challenge: self.my_challenge.bytes@,
            my_response: self.my_response@,
            recipient_commitment: self.recipient_commitment@,
            recipient_challenge: self.recipient_challenge.bytes@,
            recipient_response: self.recipient_response@,
        }
    }
}

/// The run that a peer starts with `nonce`: the commitment is the multiple of
/// the base point by the nonce, an initiator sends a commitment first, and
/// any other role sends commitment and challenge first.
pub open spec fn spec_int_new(sender_id: u32, recipient_id: u32, role: u8, nonce: Seq<u8>)
    -> IntMutAuthView {
    IntMutAuthView {
        sender_id,
        recipient_id,
        role,
        stage: if role == CONST_RECEIVER_ROLE {
            CONST_COMMITMENT_AND_CHALLENGE
        } else {
            CONST_COMMITMENT
        },
        my_random_int: nonce,
        my_commitment: spec_basepoint_mul(nonce),
        my_challenge: zero_bytes(32),
        my_response: zero_bytes(32),
        recipient_commitment: zero_bytes(32),
        recipient_challenge: zero_bytes(32),
        recipient_response: zero_bytes(32),
    }
}

/// Run and status after a message of the peer has arrived.
///
/// A commitment is stored. A commitment with a challenge stores both. A
/// challenge with a response stores both, and the peer's proof can be checked
/// once the own response is made. A response is stored, and the peer's proof
/// can be checked. Challenges are stored reduced modulo the group order. Any
/// other tag, and a message that lacks the second value that its tag asks
/// for, changes nothing.
pub open spec fn spec_add_recipient_values(
    state: IntMutAuthView,
    request_type: u8,
    val1: Seq<u8>,
    val2: Option<Seq<u8>>,
) -> (IntMutAuthView, u8) {
    if request_type == CONST_COMMITMENT {
        (
            IntMutAuthView { recipient_commitment: val1, ..state },
            CONST_RESPONSE_CANNOT_BE_VERIFIED,
        )
    } else if request_type == CONST_COMMITMENT_AND_CHALLENGE && val2.is_some() {
        (
            IntMutAuthView {
                recipient_commitment: val1,
                recipient_challenge: scalar_bytes(le_value(val2.unwrap())),
                ..state
            },
            CONST_RESPONSE_CANNOT_BE_VERIFIED,
        )
    } else if request_type == CONST_CHALLENGE_AND_RESPONSE && val2.is_some() {
        (
            IntMutAuthView {
                recipient_challenge: scalar_bytes(le_value(val1)),
                recipient_response: val2.unwrap(),
                ..state
            },
            CONST_RESPONSE_CAN_BE_VERIFIED_AFTER_GENERATING_RESPONSE,
        )
    } else if request_type == CONST_RESPONSE {
        (IntMutAuthView { recipient_response: val1, ..state }, CONST_RESPONSE_CAN_BE_VERIFIED)
    } else {
        (state, CONST_RECEIVED_WRONG_REQUEST_ID)
    }
}

/// The bytes of an optional 32-byte value.
pub open spec fn optional_view(value: Option<[u8; 32]>) -> Option<Seq<u8>> {
    match value {
        Some(bytes) => Some(bytes@),
        None => None,
    }
}

/// The response of the holder of `state` to the challenge of its peer, made
/// with the private key in `values`; the error of reading that key where it
/// cannot be read.
pub open spec fn spec_gen_proof(state: IntMutAuthView, values: Map<Seq<char>, Seq<u8>>) -> Result<
    Seq<u8>,
    SecretKeyErrors,
> {
    match spec_read_key(values, spec_private_key_description(state.sender_id), 32) {
        Err(error) => Err(error),
        Ok(private_key) => Ok(
            scalar_bytes(
                le_value(state.my_random_int) + le_value(private_key) * le_value(
                    state.recipient_challenge,
                ),
            ),
        ),
    }
}

/// A message of the protocol: two values, the second of which may be absent,
/// and the tag.
pub type MessageView = (Seq<u8>, Option<Seq<u8>>, u8);

/// Run and message after the holder of `state` has made what it sends next,
/// with `challenge` as the challenge that it draws where its stage draws one.
///
/// At the stage of the commitment the message is the commitment, and the
/// next stage is that of challenge and response. At the stage of commitment
/// and challenge the message is commitment and challenge, and the next stage
/// is that of the response. At the stage of challenge and response the
/// message is the challenge and the response to the challenge of the peer.
/// At the stage of the response the message is that response. The last two
/// stages do not move on. At any other stage the message is the commitment
/// under the tag [`CONST_NEXT_STEP_REQUIRED`]. An error in reading the
/// private key leaves the run as it is.
pub open spec fn spec_gen_next_values(
    state: IntMutAuthView,
    values: Map<Seq<char>, Seq<u8>>,
    challenge: Seq<u8>,
) -> Result<(IntMutAuthView, MessageView), SecretKeyErrors> {
    if state.stage == CONST_COMMITMENT {
        Ok(
            (
                IntMutAuthView { stage: CONST_CHALLENGE_AND_RESPONSE, ..state },
                (state.my_commitment, None, CONST_COMMITMENT),
            ),
        )
    } else if state.stage == CONST_COMMITMENT_AND_CHALLENGE {
        Ok(
            (
                IntMutAuthView {
                    stage: CONST_RESPONSE,
                    my_challenge: scalar_bytes(le_value(challenge)),
                    ..state
                },
                (state.my_commitment, Some(challenge), CONST_COMMITMENT_AND_CHALLENGE),
            ),
        )
    } else if state.stage == CONST_CHALLENGE_AND_RESPONSE {
        match spec_gen_proof(state, values) {
            Err(error) => Err(error),
            Ok(response) => Ok(
                (
                    IntMutAuthView {
                        my_challenge: scalar_bytes(le_value(challenge)),
                        my_response: response,
                        ..state
                    },
                    (challenge, Some(response), CONST_CHALLENGE_AND_RESPONSE),
                ),
            ),
        }
    } else if state.stage == CONST_RESPONSE {
        match spec_gen_proof(state, values) {
            Err(error) => Err(error),
            Ok(response) => Ok(
                (
                    IntMutAuthView { my_response: response, ..state },
                    (response, None, CONST_RESPONSE),
                ),
            ),
        }
    } else {
        Ok((state, (state.my_commitment, None, CONST_NEXT_STEP_REQUIRED)))
    }
}

/// Verdict and keystore after the holder of `state` has checked the proof of
/// its peer, given whether the peer's commitment is `fresh`.
///
/// A commitment that is not fresh is a replay and is rejected before any key
/// is read. Else the Schnorr equation is checked for the public key of the
/// peer with the challenge that the holder drew. An accepted proof stores,
/// as the shared secret, the SHA3-256 digest of the multiple of the peer's
/// commitment by the own nonce, and the value one as the shared counter.
pub open spec fn spec_int_verify_proof(
    state: IntMutAuthView,
    values: Map<Seq<char>, Seq<u8>>,
    permissions: Map<Seq<char>, u32>,
    fresh: bool,
) -> Result<(bool, Map<Seq<char>, Seq<u8>>, Map<Seq<char>, u32>), SecretKeyErrors> {
    if !fresh {
        Ok((false, values, permissions))
    } else {
        match spec_read_key(values, spec_public_key_description(state.recipient_id), 32) {
            Err(error) => Err(error),
            Ok(public_key) => {
                let shared_point = spec_point_mul(state.my_random_int, state.recipient_commitment);
                if spec_schnorr_accepts(
                    public_key,
                    state.recipient_commitment,
                    state.my_challenge,
                    state.recipient_response,
                ) && shared_point.is_some() {
                    let with_secret = spec_store_key(
                        values,
                        permissions,
                        spec_shared_secret_description(state.sender_id, state.recipient_id),
                        spec_sha3_256(shared_point.unwrap()),
                    );
                    let with_counter = spec_store_key(
                        with_secret.0,
                        with_secret.1,
                        spec_shared_counter_description(state.sender_id, state.recipient_id),
                        spec_counter_bytes(1),
                    );
                    Ok((true, with_counter.0, with_counter.1))
                } else {
                    Ok((false, values, permissions))
                }
            },
        }
    }
}

impl IntMutAuth {
    /// The run that a peer starts with `nonce`.
    pub fn with_nonce(sender_id: u32, recipient_id: u32, role: u8, nonce: Scalar) -> (run:
        IntMutAuth)
        ensures
            run@ == spec_int_new(sender_id, recipient_id, role, nonce.bytes@),
    {
        let my_commitment = basepoint_mul(&nonce.bytes);
        let stage = if role == CONST_RECEIVER_ROLE {
            CONST_COMMITMENT_AND_CHALLENGE
        } else {
            CONST_COMMITMENT
        };
        let zero = [0u8; 32];
        assert(zero@ =~= zero_bytes(32));
        IntMutAuth {
            sender_id,
            recipient_id,
            role,
            stage,
            my_random_int: nonce,
            my_commitment,
            my_challenge: Scalar { bytes: zero },
            my_response: zero,
            recipient_commitment: zero,
            recipient_challenge: Scalar { bytes: zero },
            recipient_response: zero,
        }
    }

    /// The run that a peer starts with a random nonce.
    pub fn new(sender_id: u32, recipient_id: u32, role: u8) -> (run: IntMutAuth)
        ensures
            exists|nonce: Scalar| run@ == #[trigger] spec_int_new(
                sender_id,
                recipient_id,
                role,
                nonce.bytes@,
            ),
    {
        let nonce = generate_random_scalar();
        IntMutAuth::with_nonce(sender_id, recipient_id, role, nonce)
    }

    /// What the holder sends next.
    pub fn stage(&self) -> (stage: u8)
        ensures
            stage == self@.stage,
    {
        self.stage
    }

    /// The commitment of the peer as it was last taken in.
    pub fn recipient_commitment(&self) -> (commitment: [u8; 32])
        ensures
            commitment@ == self@.recipient_commitment,
    {
        self.recipient_commitment
    }

    /// Takes in a message of the peer and says what can be done next.
    pub fn add_recipient_values(
        &mut self,
        request_type: u8,
        val1: [u8; 32],
        val2: Option<[u8; 32]>,
    ) -> (status: u8)
        ensures
            (final(self)@, status) == spec_add_recipient_values(
                old(self)@,
                request_type,
                val1@,
                optional_view(val2),
            ),
    {
        if request_type == CONST_COMMITMENT {
            self.recipient_commitment = val1;
            CONST_RESPONSE_CANNOT_BE_VERIFIED
        } else if request_type == CONST_COMMITMENT_AND_CHALLENGE {
            match val2 {
                Some(challenge) => {
                    self.recipient_commitment = val1;
                    self.recipient_challenge = Scalar::from_bytes_mod_order(challenge);
                    CONST_RESPONSE_CANNOT_BE_VERIFIED
                },
                None => CONST_RECEIVED_WRONG_REQUEST_ID,
            }
        } else if request_type == CONST_CHALLENGE_AND_RESPONSE {
            match val2 {
                Some(response) => {
                    self.recipient_challenge = Scalar::from_bytes_mod_order(val1);
                    self.recipient_response = response;
                    CONST_RESPONSE_CAN_BE_VERIFIED_AFTER_GENERATING_RESPONSE
                },
                None => CONST_RECEIVED_WRONG_REQUEST_ID,
            }
        } else if request_type == CONST_RESPONSE {
            self.recipient_response = val1;
            CONST_RESPONSE_CAN_BE_VERIFIED
        } else {
            CONST_RECEIVED_WRONG_REQUEST_ID
        }
    }

    fn gen_proof(&self, keys: &KeyStore) -> (response: Result<[u8; 32], SecretKeyErrors>)
        requires
            keys.wf(),
        ensures
            match response {
                Ok(bytes) => spec_gen_proof(self@, keys@) == Ok::<Seq<u8>, SecretKeyErrors>(
                    bytes@,
                ),
                Err(error) => spec_gen_proof(self@, keys@) == Err::<Seq<u8>, SecretKeyErrors>(
                    error,
                ),
            },
    {
        let description = private_key_description(self.sender_id);
        match get_32byte_key(keys, &description) {
            Err(error) => Err(error),
            Ok(secret_key_bytes) => {
                let secret_key_sc = Scalar::from_bytes_mod_order(secret_key_bytes);
                let response = generate_proof_response(
                    self.my_random_int,
                    secret_key_sc,
                    self.recipient_challenge,
                );
                proof {
                    lemma_scalar_bytes_value(le_value(secret_key_bytes@));
                    lemma_response_reductions(
                        self.my_random_int.value(),
                        le_value(secret_key_bytes@),
                        self.recipient_challenge.value(),
                    );
                }
                Ok(response)
            },
        }
    }

    /// Makes what the holder sends next, with `challenge` as the challenge
    /// that it draws where its stage draws one.
    pub fn gen_next_values_with(&mut self, keys: &KeyStore, challenge: [u8; 32]) -> (made: Result<
        ([u8; 32], Option<[u8; 32]>, u8),
        SecretKeyErrors,
    >)
        requires
            keys.wf(),
        ensures
            match made {
                Ok(message) => spec_gen_next_values(old(self)@, keys@, challenge@) == Ok::<
                    (IntMutAuthView, MessageView),
                    SecretKeyErrors,
                >((final(self)@, (message.0@, optional_view(message.1), message.2))),
                Err(error) => {
                    &&& spec_gen_next_values(old(self)@, keys@, challenge@) == Err::<
                        (IntMutAuthView, MessageView),
                        SecretKeyErrors,
                    >(error)
                    &&& final(self)@ == old(self)@
                },
            },
    {
        if self.stage == CONST_COMMITMENT {
            self.stage = CONST_CHALLENGE_AND_RESPONSE;
            Ok((self.my_commitment, None, CONST_COMMITMENT))
        } else if self.stage == CONST_COMMITMENT_AND_CHALLENGE {
            self.my_challenge = Scalar::from_bytes_mod_order(challenge);
            self.stage = CONST_RESPONSE;
            Ok((self.my_commitment, Some(challenge), CONST_COMMITMENT_AND_CHALLENGE))
        } else if self.stage == CONST_CHALLENGE_AND_RESPONSE {
            match self.gen_proof(keys) {
                Err(error) => Err(error),
                Ok(response) => {
                    self.my_challenge = Scalar::from_bytes_mod_order(challenge);
                    self.my_response = response;
                    Ok((challenge, Some(response), CONST_CHALLENGE_AND_RESPONSE))
                },
            }
        } else if self.stage == CONST_RESPONSE {
            match self.gen_proof(keys) {
                Err(error) => Err(error),
                Ok(response) => {
                    self.my_response = response;
                    Ok((response, None, CONST_RESPONSE))
                },
            }
        } else {
            Ok((self.my_commitment, None, CONST_NEXT_STEP_REQUIRED))
        }
    }

    /// Makes what the holder sends next, with a random challenge where its
    /// stage draws one: [`IntMutAuth::gen_next_values_with`] with some
    /// challenge.
    pub fn gen_next_values(&mut self, keys: &KeyStore) -> (made: Result<
        ([u8; 32], Option<[u8; 32]>, u8),
        SecretKeyErrors,
    >)
        requires
            keys.wf(),
        ensures
            exists|challenge: [u8; 32]|
                match made {
                    Ok(message) => #[trigger] spec_gen_next_values(
                        old(self)@,
                        keys@,
                        challenge@,
                    ) == Ok::<(IntMutAuthView, MessageView), SecretKeyErrors>(
                        (final(self)@, (message.0@, optional_view(message.1), message.2)),
                    ),
                    Err(error) => {
                        &&& spec_gen_next_values(old(self)@, keys@, challenge@) == Err::<
                            (IntMutAuthView, MessageView),
                            SecretKeyErrors,
                        >(error)
                        &&& final(self)@ == old(self)@
                    },
                },
    {
        let challenge = generate_random_32bytes();
        self.gen_next_values_with(keys, challenge)
    }

    /// Checks the proof of the peer. The peer's commitment is entered in
    /// the log first, and a commitment that the log holds already is
    /// rejected as a replay. An accepted proof leaves the shared secret and
    /// the shared counter in the keystore. On an error the keystore stays as
    /// it is.
    pub fn verify_proof(&self, keys: &mut KeyStore, log: &mut CommitmentLog) -> (verdict: Result<
        bool,
        SecretKeyErrors,
    >)
        requires
            old(keys).wf(),
        ensures
            final(keys).wf(),
            final(log)@ == spec_observe(
                old(log)@,
                self@.recipient_id,
                self@.recipient_commitment,
            ),
            match verdict {
                Ok(accepted) => spec_int_verify_proof(
                    self@,
                    old(keys)@,
                    old(keys).permissions(),
                    !spec_observed(old(log)@, self@.recipient_id).contains(
                        self@.recipient_commitment,
                    ),
                ) == Ok::<
                    (bool, Map<Seq<char>, Seq<u8>>, Map<Seq<char>, u32>),
                    SecretKeyErrors,
                >((accepted, final(keys)@, final(keys).permissions())),
                Err(error) => {
                    &&& spec_int_verify_proof(
                        self@,
                        old(keys)@,
                        old(keys).permissions(),
                        !spec_observed(old(log)@, self@.recipient_id).contains(
                            self@.recipient_commitment,
                        ),
                    ) == Err::<
                        (bool, Map<Seq<char>, Seq<u8>>, Map<Seq<char>, u32>),
                        SecretKeyErrors,
                    >(error)
                    &&& final(keys)@ == old(keys)@
                    &&& final(keys).permissions() == old(keys).permissions()
                },
            },
    {
        if !check_commitment(log, self.recipient_id, self.recipient_commitment) {
            return Ok(false);
        }
        let description = public_key_description(self.recipient_id);
        let key_bytes = match get_32byte_key(keys, &description) {
            Ok(key) => key,
            Err(error) => {
                return Err(error);
            },
        };
        let proof = (self.recipient_commitment, self.my_challenge, self.recipient_response);
        if !verify_int_proof(key_bytes, proof) {
            return Ok(false);
        }
        Ok(self.calculate_shared_secret_key(keys))
    }

    fn calculate_shared_secret_key(&self, keys: &mut KeyStore) -> (stored: bool)
        requires
            old(keys).wf(),
        ensures
            final(keys).wf(),
            stored == spec_point_mul(self@.my_random_int, self@.recipient_commitment).is_some(),
            !stored ==> final(keys)@ == old(keys)@,
            !stored ==> final(keys).permissions() == old(keys).permissions(),
            stored ==> {
                let with_secret = spec_store_key(
                    old(keys)@,
                    old(keys).permissions(),
                    spec_shared_secret_description(self@.sender_id, self@.recipient_id),
                    spec_sha3_256(
                        spec_point_mul(self@.my_random_int, self@.recipient_commitment).unwrap(),
                    ),
                );
                (final(keys)@, final(keys).permissions()) == spec_store_key(
                    with_secret.0,
                    with_secret.1,
                    spec_shared_counter_description(self@.sender_id, self@.recipient_id),
                    spec_counter_bytes(1),
                )
            },
    {
        let shared_secret_key = match point_mul(
            &self.my_random_int.bytes,
            &self.recipient_commitment,
        ) {
            Some(point) => point,
            None => {
                return false;
            },
        };
        let hashed_shared_secret = sha3_256(shared_secret_key.as_slice(), None, None, None);
        assert(shared_secret_key@ + Seq::<u8>::empty() + Seq::<u8>::empty() + Seq::<u8>::empty()
            =~= shared_secret_key@);
        let mut key_vec: Vec<u8> = Vec::new();
        key_vec.extend_from_slice(hashed_shared_secret.as_slice());
        assert(key_vec@ =~= hashed_shared_secret@);
        let description = shared_secret_description(self.sender_id, self.recipient_id);
        store_key(keys, description.as_str(), key_vec);
        let shared_counter: u32 = 1;
        let description = shared_counter_description(self.sender_id, self.recipient_id);
        store_key(keys, description.as_str(), counter_to_bytes(shared_counter));
        true
    }
}

/// The run that a peer starts with a random nonce: [`IntMutAuth::new`].
pub fn get_int_mut_auth_instance(sender_id: u32, recipient_id: u32, role: u8) -> (run: IntMutAuth)
    ensures
        exists|nonce: Scalar| run@ == #[trigger] spec_int_new(
            sender_id,
            recipient_id,
            role,
            nonce.bytes@,
        ),
{
    IntMutAuth::new(sender_id, recipient_id, role)
}

/// One side of a mutual proof without interaction, as the contracts see it.
pub struct NIZKMutAuthView {
    /// Number of the peer that holds this side.
    pub sender_id: u32,
    /// Number of the peer at the other end.
    pub recipient_id: u32,
    /// Whether the holder sent its proof first.
    pub initiator: bool,
    /// The nonce of the holder.
    pub my_random_int: Seq<u8>,
    /// The proof of the holder.
    pub my_proof: ProofView,
    /// The proof of the peer.
    pub recipient_proof: ProofView,
    /// Whether the proof of the peer was checked and accepted.
    pub proof_accepted: bool,
}

/// One side of the exchange in which two peers that share a secret prove
/// themselves to each other with one message each and derive a session key.
pub struct NIZKMutAuth {
    /// Number of the peer that holds this side.
    pub sender_id: u32,
    /// Number of the peer at the other end.
    pub recipient_id: u32,
    initiator: bool,
    my_random_int: Scalar,
    my_commitment: [u8; 32],
    my_challenge: [u8; 32],
    my_response: [u8; 32],
    recipient_commitment: [u8; 32],
    recipient_challenge: [u8; 32],
    recipient_response: [u8; 32],
    proof_accepted: bool,
}

impl View for NIZKMutAuth {
    type V = NIZKMutAuthView;

    closed spec fn view(&self) -> NIZKMutAuthView {
        NIZKMutAuthView {
            sender_id: self.sender_id,
            recipient_id: self.recipient_id,
            initiator: self.initiator,
            my_random_int: self.my_random_int.bytes@,
            my_proof: (self.my_commitment@, self.my_challenge@, self.my_response@),
            recipient_proof: (
                self.recipient_commitment@,
                self.recipient_challenge@,
                self.recipient_response@,
            ),
            proof_accepted: self.proof_accepted,
        }
    }
}

/// The proof of an optional proof.
pub open spec fn optional_proof_view(received: Option<([u8; 32], [u8; 32], [u8; 32])>)
    -> Option<ProofView> {
    match received {
        Some(triple) => Some(proof_view(triple)),
        None => None,
    }
}

/// Side and proof of [`NIZKMutAuth::with_nonce`], or its error.
///
/// The proof is made with `nonce` and the keys of `sender_id` for
/// `recipient_id`. A side that starts without the proof of its peer is the
/// initiator and holds zeros in its place.
pub open spec fn spec_nizk_new(
    values: Map<Seq<char>, Seq<u8>>,
    sender_id: u32,
    recipient_id: u32,
    sender_proof: Option<ProofView>,
    nonce: Seq<u8>,
) -> Result<(NIZKMutAuthView, ProofView), SecretKeyErrors> {
    match spec_prover_keys(values, sender_id, recipient_id) {
        Err(error) => Err(error),
        Ok(keys) => {
            let proof = spec_nizk_proof(keys, nonce);
            Ok(
                (
                    NIZKMutAuthView {
                        sender_id,
                        recipient_id,
                        initiator: sender_proof.is_none(),
                        my_random_int: nonce,
                        my_proof: proof,
                        recipient_proof: match sender_proof {
                            Some(received) => received,
                            None => (zero_bytes(32), zero_bytes(32), zero_bytes(32)),
                        },
                        proof_accepted: false,
                    },
                    proof,
                ),
            )
        },
    }
}

/// Verdict, side and journal of [`NIZKMutAuth::verify_proof_at`], or its
/// error.
///
/// The proof of the peer is checked with the keys that the holder has for
/// it, and the side remembers the verdict. A rejected proof is entered in the
/// journal with the outcome of its two checks.
pub open spec fn spec_nizk_verify_proof(
    state: NIZKMutAuthView,
    values: Map<Seq<char>, Seq<u8>>,
    journal: Map<u32, Intrusion>,
    now_ms: i64,
) -> Result<(bool, NIZKMutAuthView, Map<u32, Intrusion>), SecretKeyErrors> {
    match spec_verifier_keys(values, state.sender_id, state.recipient_id) {
        Err(error) => Err(error),
        Ok(keys) => {
            let checks = spec_nizk_checks(keys, state.recipient_proof);
            let accepted = checks.0 && checks.1;
            Ok(
                (
                    accepted,
                    NIZKMutAuthView { proof_accepted: accepted, ..state },
                    if accepted {
                        journal
                    } else {
                        spec_manage_intrusion(
                            journal,
                            state.recipient_id,
                            checks.0,
                            checks.1,
                            now_ms,
                        )
                    },
                ),
            )
        },
    }
}

/// Session key and keystore of [`NIZKMutAuth::calculate_session_key`], or
/// its error.
///
/// Without an accepted proof, and where the commitment of the peer is no
/// point of the curve, the key is 32 zeros and the keystore stays as it is.
/// Else the key is the SHA3-256 digest of the multiple of the peer's
/// commitment by the own nonce, and secret and counter move forward with the
/// response of the initiator and, added to it, the response of its peer.
pub open spec fn spec_calculate_session_key(
    state: NIZKMutAuthView,
    values: Map<Seq<char>, Seq<u8>>,
) -> Result<(Seq<u8>, Map<Seq<char>, Seq<u8>>), SecretKeyErrors> {
    let shared_point = spec_point_mul(state.my_random_int, state.recipient_proof.0);
    if !state.proof_accepted || shared_point.is_none() {
        Ok((zero_bytes(32), values))
    } else {
        let initiator_response = if state.initiator {
            state.my_proof.2
        } else {
            state.recipient_proof.2
        };
        let receiver_response = if state.initiator {
            state.recipient_proof.2
        } else {
            state.my_proof.2
        };
        match spec_update_used_values(
            values,
            state.sender_id,
            state.recipient_id,
            initiator_response,
            receiver_response,
        ) {
            Err(error) => Err(error),
            Ok(moved) => Ok((spec_sha3_256(shared_point.unwrap()), moved)),
        }
    }
}

impl NIZKMutAuth {
    /// Starts one side of the exchange with `nonce` and makes the proof that
    /// it sends. The side that has the proof of its peer already hands it in
    /// as `sender_proof`.
    pub fn with_nonce(
        keys: &KeyStore,
        sender_id: u32,
        recipient_id: u32,
        sender_proof: Option<([u8; 32], [u8; 32], [u8; 32])>,
        nonce: Scalar,
    ) -> (started: Result<(NIZKMutAuth, ([u8; 32], [u8; 32], [u8; 32])), SecretKeyErrors>)
        requires
            keys.wf(),
        ensures
            match started {
                Ok(side) => spec_nizk_new(
                    keys@,
                    sender_id,
                    recipient_id,
                    optional_proof_view(sender_proof),
                    nonce.bytes@,
                ) == Ok::<(NIZKMutAuthView, ProofView), SecretKeyErrors>(
                    (side.0@, proof_view(side.1)),
                ),
                Err(error) => spec_nizk_new(
                    keys@,
                    sender_id,
                    recipient_id,
                    optional_proof_view(sender_proof),
                    nonce.bytes@,
                ) == Err::<(NIZKMutAuthView, ProofView), SecretKeyErrors>(error),
            },
    {
        let (private_key, shared_secret, shared_counter) = match read_prover_keys(
            keys,
            sender_id,
            recipient_id,
        ) {
            Ok(found) => found,
            Err(error) => {
                return Err(error);
            },
        };
        let (r, commitment, challenge, response) = nizk_proof_with_nonce(
            nonce,
            private_key,
            shared_secret,
            shared_counter,
        );
        let zero = [0u8; 32];
        assert(zero@ =~= zero_bytes(32));
        let (initiator, recipient_commitment, recipient_challenge, recipient_response) =
            match sender_proof {
            Some((commitment, challenge, response)) => (false, commitment, challenge, response),
            None => (true, zero, zero, zero),
        };
        let nizk_mut_auth = NIZKMutAuth {
            sender_id,
            recipient_id,
            initiator,
            my_random_int: r,
            my_commitment: commitment,
            my_challenge: challenge,
            my_response: response,
            recipient_commitment,
            recipient_challenge,
            recipient_response,
            proof_accepted: false,
        };
        Ok((nizk_mut_auth, (commitment, challenge, response)))
    }

    /// Starts one side of the exchange with a random nonce:
    /// [`NIZKMutAuth::with_nonce`] with some nonce.
    pub fn new(
        keys: &KeyStore,
        sender_id: u32,
        recipient_id: u32,
        sender_proof: Option<([u8; 32], [u8; 32], [u8; 32])>,
    ) -> (started: Result<(NIZKMutAuth, ([u8; 32], [u8; 32], [u8; 32])), SecretKeyErrors>)
        requires
            keys.wf(),
        ensures
            exists|nonce: Scalar|
                match started {
                    Ok(side) => #[trigger] spec_nizk_new(
                        keys@,
                        sender_id,
                        recipient_id,
                        optional_proof_view(sender_proof),
                        nonce.bytes@,
                    ) == Ok::<(NIZKMutAuthView, ProofView), SecretKeyErrors>(
                        (side.0@, proof_view(side.1)),
                    ),
                    Err(error) => spec_nizk_new(
                        keys@,
                        sender_id,
                        recipient_id,
                        optional_proof_view(sender_proof),
                        nonce.bytes@,
                    ) == Err::<(NIZKMutAuthView, ProofView), SecretKeyErrors>(error),
                },
    {
        let nonce = generate_random_scalar();
        NIZKMutAuth::with_nonce(keys, sender_id, recipient_id, sender_proof, nonce)
    }

    /// Takes in the proof of the peer. This is for the initiator, which
    /// starts without it.
    pub fn add_recipient_values(&mut self, proof: ([u8; 32], [u8; 32], [u8; 32]))
        ensures
            final(self)@ == (NIZKMutAuthView { recipient_proof: proof_view(proof), ..old(self)@ }),
    {
        let (commitment, challenge, response) = proof;
        self.recipient_commitment = commitment;
        self.recipient_challenge = challenge;
        self.recipient_response = response;
    }

    /// Whether the proof of the peer was checked and accepted.
    pub fn is_accepted(&self) -> (accepted: bool)
        ensures
            accepted == self@.proof_accepted,
    {
        self.proof_accepted
    }

    /// Checks the proof of the peer at time `now_ms`. On an error the side
    /// and the journal stay as they are.
    pub fn verify_proof_at(
        &mut self,
        keys: &KeyStore,
        journal: &mut IntrusionJournal,
        now_ms: i64,
    ) -> (verdict: Result<bool, SecretKeyErrors>)
        requires
            keys.wf(),
        ensures
            match verdict {
                Ok(accepted) => spec_nizk_verify_proof(old(self)@, keys@, old(journal)@, now_ms)
                    == Ok::<(bool, NIZKMutAuthView, Map<u32, Intrusion>), SecretKeyErrors>(
                    (accepted, final(self)@, final(journal)@),
                ),
                Err(error) => {
                    &&& spec_nizk_verify_proof(old(self)@, keys@, old(journal)@, now_ms) == Err::<
                        (bool, NIZKMutAuthView, Map<u32, Intrusion>),
                        SecretKeyErrors,
                    >(error)
                    &&& final(self)@ == old(self)@
                    &&& final(journal)@ == old(journal)@
                },
            },
    {
        let (public_key, shared_secret, shared_counter) = match read_verifier_keys(
            keys,
            self.sender_id,
            self.recipient_id,
        ) {
            Ok(found) => found,
            Err(error) => {
                return Err(error);
            },
        };
        let (schnorr, mac) = check_nizk_proof(
            public_key,
            shared_secret,
            shared_counter,
            (self.recipient_commitment, self.recipient_challenge, self.recipient_response),
        );
        let accepted = schnorr && mac;
        self.proof_accepted = accepted;
        if !accepted {
            manage_intrusion_at(journal, self.recipient_id, schnorr, mac, now_ms);
        }
        Ok(accepted)
    }

    /// Checks the proof of the peer: [`NIZKMutAuth::verify_proof_at`] at the
    /// time the system clock shows.
    pub fn verify_proof(&mut self, keys: &KeyStore, journal: &mut IntrusionJournal) -> (verdict:
        Result<bool, SecretKeyErrors>)
        requires
            keys.wf(),
        ensures
            exists|now_ms: i64|
                match verdict {
                    Ok(accepted) => #[trigger] spec_nizk_verify_proof(
                        old(self)@,
                        keys@,
                        old(journal)@,
                        now_ms,
                    ) == Ok::<(bool, NIZKMutAuthView, Map<u32, Intrusion>), SecretKeyErrors>(
                        (accepted, final(self)@, final(journal)@),
                    ),
                    Err(error) => {
                        &&& spec_nizk_verify_proof(old(self)@, keys@, old(journal)@, now_ms)
                            == Err::<
                            (bool, NIZKMutAuthView, Map<u32, Intrusion>),
                            SecretKeyErrors,
                        >(error)
                        &&& final(self)@ == old(self)@
                        &&& final(journal)@ == old(journal)@
                    },
                },
    {
        let now_ms = current_time_millis();
        self.verify_proof_at(keys, journal, now_ms)
    }

    /// The session key of the exchange. Making it moves the secret and the
    /// counter that the two peers share forward. On an error the keystore
    /// stays as it is.
    pub fn calculate_session_key(&self, keys: &mut KeyStore) -> (session_key: Result<
        [u8; 32],
        SecretKeyErrors,
    >)
        requires
            old(keys).wf(),
        ensures
            final(keys).wf(),
            final(keys).permissions() == old(keys).permissions(),
            match session_key {
                Ok(key) => spec_calculate_session_key(self@, old(keys)@) == Ok::<
                    (Seq<u8>, Map<Seq<char>, Seq<u8>>),
                    SecretKeyErrors,
                >((key@, final(keys)@)),
                Err(error) => {
                    &&& spec_calculate_session_key(self@, old(keys)@) == Err::<
                        (Seq<u8>, Map<Seq<char>, Seq<u8>>),
                        SecretKeyErrors,
                    >(error)
                    &&& final(keys)@ == old(keys)@
                },
            },
    {
        let zero = [0u8; 32];
        assert(zero@ =~= zero_bytes(32));
        if !self.proof_accepted {
            return Ok(zero);
        }
        let session_key = match point_mul(&self.my_random_int.bytes, &self.recipient_commitment) {
            Some(point) => point,
            None => {
                return Ok(zero);
            },
        };
        let hashed_session_key = sha3_256(session_key.as_slice(), None, None, None);
        assert(session_key@ + Seq::<u8>::empty() + Seq::<u8>::empty() + Seq::<u8>::empty()
            =~= session_key@);
        let moved = if self.initiator {
            update_used_values(
                keys,
                self.sender_id,
                self.recipient_id,
                self.my_response,
                Some(self.recipient_response.as_slice()),
            )
        } else {
            update_used_values(
                keys,
                self.sender_id,
                self.recipient_id,
                self.recipient_response,
                Some(self.my_response.as_slice()),
            )
        };
        match moved {
            Ok(_) => Ok(hashed_session_key),
            Err(error) => Err(error),
        }
    }
}

/// The four kinds of keys never share a description: whatever the peers, a
/// public key, a private key, a shared secret and a shared counter are
/// described differently.
pub proof fn lemma_descriptions_differ_by_kind(a: u32, b: u32, c: u32, d: u32, e: u32, f: u32)
    ensures
        spec_public_key_description(a) != spec_private_key_description(b),
        spec_public_key_description(a) != spec_shared_secret_description(c, d),
        spec_public_key_description(a) != spec_shared_counter_description(e, f),
        spec_private_key_description(b) != spec_shared_secret_description(c, d),
        spec_private_key_description(b) != spec_shared_counter_description(e, f),
        spec_shared_secret_description(c, d) != spec_shared_counter_description(e, f),
{
    reveal_strlit("PublicKey:");
    reveal_strlit("PrivateKey:");
    reveal_strlit("SharedSecretKey:");
    reveal_strlit("SharedCounter:");
    let public = spec_public_key_description(a);
    let private = spec_private_key_description(b);
    let secret = spec_shared_secret_description(c, d);
    let counter = spec_shared_counter_description(e, f);
    assert(public[1] == 'u' && public[0] == 'P');
    assert(private[1] == 'r' && private[0] == 'P');
    assert(secret[0] == 'S' && secret[6] == 'S');
    assert(counter[0] == 'S' && counter[6] == 'C');
}

/// Texts that begin alike and are the same end alike.
pub proof fn lemma_same_prefix_same_rest(prefix: Seq<char>, a: Seq<char>, b: Seq<char>)
    requires
        prefix + a == prefix + b,
    ensures
        a == b,
{
    assert(a =~= (prefix + a).subrange(prefix.len() as int, (prefix + a).len() as int));
    assert(b =~= (prefix + b).subrange(prefix.len() as int, (prefix + b).len() as int));
}

/// Two pairs of peers whose numbers follow the same text, with a colon in
/// between, are the same pair if the whole is the same.
pub proof fn lemma_pair_after_prefix(prefix: Seq<char>, a: u32, b: u32, c: u32, d: u32)
    requires
        prefix + decimal_digits(a as nat) + ":"@ + decimal_digits(b as nat) == prefix
            + decimal_digits(c as nat) + ":"@ + decimal_digits(d as nat),
    ensures
        a == c,
        b == d,
{
    reveal_strlit(":");
    assert(":"@ =~= seq![':']);
    let pair_ab = decimal_digits(a as nat) + seq![':'] + decimal_digits(b as nat);
    let pair_cd = decimal_digits(c as nat) + seq![':'] + decimal_digits(d as nat);
    assert(prefix + decimal_digits(a as nat) + ":"@ + decimal_digits(b as nat) =~= prefix
        + pair_ab);
    assert(prefix + decimal_digits(c as nat) + ":"@ + decimal_digits(d as nat) =~= prefix
        + pair_cd);
    lemma_same_prefix_same_rest(prefix, pair_ab, pair_cd);
    lemma_decimal_pair_injective(a as nat, b as nat, c as nat, d as nat);
}

/// Keys of one kind are described differently for different peers, and for
/// different pairs of peers.
pub proof fn lemma_descriptions_differ_by_peer(a: u32, b: u32, c: u32, d: u32)
    ensures
        spec_public_key_description(a) == spec_public_key_description(c) ==> a == c,
        spec_private_key_description(a) == spec_private_key_description(c) ==> a == c,
        spec_shared_secret_description(a, b) == spec_shared_secret_description(c, d) ==> a == c
            && b == d,
        spec_shared_counter_description(a, b) == spec_shared_counter_description(c, d) ==> a == c
            && b == d,
{
    if spec_public_key_description(a) == spec_public_key_description(c) {
        lemma_same_prefix_same_rest(
            "PublicKey:"@,
            decimal_digits(a as nat),
            decimal_digits(c as nat),
        );
        lemma_decimal_digits_injective(a as nat, c as nat);
    }
    if spec_private_key_description(a) == spec_private_key_description(c) {
        lemma_same_prefix_same_rest(
            "PrivateKey:"@,
            decimal_digits(a as nat),
            decimal_digits(c as nat),
        );
        lemma_decimal_digits_injective(a as nat, c as nat);
    }
    if spec_shared_secret_description(a, b) == spec_shared_secret_description(c, d) {
        lemma_pair_after_prefix("SharedSecretKey:"@, a, b, c, d);
    }
    if spec_shared_counter_description(a, b) == spec_shared_counter_description(c, d) {
        lemma_pair_after_prefix("SharedCounter:"@, a, b, c, d);
    }
}

/// The secret and the counter that two peers share are kept in different
/// slots.
pub proof fn lemma_shared_slots_differ(me: u32, other: u32)
    ensures
        spec_slot_name(spec_shared_secret_description(me, other)) != spec_slot_name(
            spec_shared_counter_description(me, other),
        ),
{
    lemma_descriptions_differ_by_kind(0, 0, me, other, me, other);
    if spec_slot_name(spec_shared_secret_description(me, other)) == spec_slot_name(
        spec_shared_counter_description(me, other),
    ) {
        lemma_slot_name_injective(
            spec_shared_secret_description(me, other),
            spec_shared_counter_description(me, other),
        );
    }
}

/// An accepted proof moves the shared counter forward by two and puts in
/// place of the shared secret the digest of the old secret, the bytes of the
/// counter in between, the response and what was added to it. No other slot
/// changes.
pub proof fn lemma_update_moves_forward(
    values: Map<Seq<char>, Seq<u8>>,
    me: u32,
    other: u32,
    response: Seq<u8>,
    additional: Seq<u8>,
)
    requires
        spec_update_used_values(values, me, other, response, additional).is_ok(),
    ensures
        ({
            let moved = spec_update_used_values(values, me, other, response, additional).unwrap();
            let secret_name = spec_slot_name(spec_shared_secret_description(me, other));
            let counter_name = spec_slot_name(spec_shared_counter_description(me, other));
            let n = spec_counter_value(values[counter_name]);
            &&& values.contains_key(secret_name) && values.contains_key(counter_name)
            &&& moved.dom() == values.dom()
            &&& spec_counter_value(moved[counter_name]) == n + 2
            &&& moved[secret_name] == spec_sha3_256(
                values[secret_name] + spec_counter_bytes(n + 1) + response + additional,
            )
            &&& forall|name: Seq<char>|
                name != secret_name && name != counter_name && values.contains_key(name)
                    ==> moved[name] == values[name]
        }),
{
    lemma_shared_slots_differ(me, other);
    let counter_name = spec_slot_name(spec_shared_counter_description(me, other));
    let n = spec_counter_value(values[counter_name]);
    lemma_counter_bytes_value(n + 2);
    let moved = spec_update_used_values(values, me, other, response, additional).unwrap();
    assert(moved.dom() =~= values.dom());
}

/// The two sides of a mutual proof stay in step: if initiator and receiver
/// hold the same secret and the same counter for each other and each holds
/// the proof of the other, then after both have made their session key they
/// hold the same secret and the same counter again.
pub proof fn lemma_mutual_update_agrees(
    initiator: NIZKMutAuthView,
    receiver: NIZKMutAuthView,
    initiator_values: Map<Seq<char>, Seq<u8>>,
    receiver_values: Map<Seq<char>, Seq<u8>>,
)
    requires
        initiator.initiator,
        !receiver.initiator,
        initiator.sender_id == receiver.recipient_id,
        initiator.recipient_id == receiver.sender_id,
        initiator.my_proof == receiver.recipient_proof,
        receiver.my_proof == initiator.recipient_proof,
        initiator.proof_accepted,
        receiver.proof_accepted,
        spec_point_mul(initiator.my_random_int, initiator.recipient_proof.0).is_some(),
        spec_point_mul(receiver.my_random_int, receiver.recipient_proof.0).is_some(),
        spec_read_key(
            initiator_values,
            spec_shared_secret_description(initiator.sender_id, receiver.sender_id),
            32,
        ) == spec_read_key(
            receiver_values,
            spec_shared_secret_description(receiver.sender_id, initiator.sender_id),
            32,
        ),
        spec_read_key(
            initiator_values,
            spec_shared_counter_description(initiator.sender_id, receiver.sender_id),
            4,
        ) == spec_read_key(
            receiver_values,
            spec_shared_counter_description(receiver.sender_id, initiator.sender_id),
            4,
        ),
    ensures
        spec_calculate_session_key(initiator, initiator_values).is_ok()
            == spec_calculate_session_key(receiver, receiver_values).is_ok(),
        spec_calculate_session_key(initiator, initiator_values).is_ok() ==> {
            let a = initiator.sender_id;
            let b = receiver.sender_id;
            let initiator_moved = spec_calculate_session_key(
                initiator,
                initiator_values,
            ).unwrap().1;
            let receiver_moved = spec_calculate_session_key(receiver, receiver_values).unwrap().1;
            &&& initiator_moved[spec_slot_name(spec_shared_secret_description(a, b))]
                == receiver_moved[spec_slot_name(spec_shared_secret_description(b, a))]
            &&& initiator_moved[spec_slot_name(spec_shared_counter_description(a, b))]
                == receiver_moved[spec_slot_name(spec_shared_counter_description(b, a))]
        },
{
    let a = initiator.sender_id;
    let b = receiver.sender_id;
    lemma_shared_slots_differ(a, b);
    lemma_shared_slots_differ(b, a);
}

/// A commitment is accepted once: after a run has checked the proof of its
/// peer, every check of a proof with the same commitment from the same peer
/// is rejected as a replay, whatever the keystore holds and whatever the
/// first verdict was.
pub proof fn lemma_replay_rejected(
    first: IntMutAuthView,
    second: IntMutAuthView,
    log: Map<u32, Seq<Seq<u8>>>,
    values: Map<Seq<char>, Seq<u8>>,
    permissions: Map<Seq<char>, u32>,
)
    requires
        first.recipient_id == second.recipient_id,
        first.recipient_commitment == second.recipient_commitment,
    ensures
        ({
            let seen = spec_observe(log, first.recipient_id, first.recipient_commitment);
            let fresh = !spec_observed(seen, second.recipient_id).contains(
                second.recipient_commitment,
            );
            &&& !fresh
            &&& spec_int_verify_proof(second, values, permissions, fresh) == Ok::<
                (bool, Map<Seq<char>, Seq<u8>>, Map<Seq<char>, u32>),
                SecretKeyErrors,
            >((false, values, permissions))
        }),
{
    let before = spec_observed(log, first.recipient_id);
    if !before.contains(first.recipient_commitment) {
        let after = before.push(first.recipient_commitment);
        assert(after[before.len() as int] == first.recipient_commitment);
    }
}

/// An accepted interactive proof leaves the value one in the shared counter
/// and, as the shared secret, the digest of the multiple of the peer's
/// commitment by the own nonce. Both sides of an accepted run thus hold the
/// same counter.
pub proof fn lemma_interactive_result(
    state: IntMutAuthView,
    values: Map<Seq<char>, Seq<u8>>,
    permissions: Map<Seq<char>, u32>,
    fresh: bool,
)
    requires
        spec_int_verify_proof(state, values, permissions, fresh).is_ok(),
        spec_int_verify_proof(state, values, permissions, fresh).unwrap().0,
    ensures
        ({
            let stored = spec_int_verify_proof(state, values, permissions, fresh).unwrap().1;
            let secret_name = spec_slot_name(
                spec_shared_secret_description(state.sender_id, state.recipient_id),
            );
            let counter_name = spec_slot_name(
                spec_shared_counter_description(state.sender_id, state.recipient_id),
            );
            &&& fresh
            &&& spec_point_mul(state.my_random_int, state.recipient_commitment).is_some()
            &&& stored.contains_key(secret_name)
            &&& stored[secret_name] == spec_sha3_256(
                spec_point_mul(state.my_random_int, state.recipient_commitment).unwrap(),
            )
            &&& stored.contains_key(counter_name)
            &&& stored[counter_name] == seq![0u8, 0u8, 0u8, 1u8]
            &&& spec_counter_value(stored[counter_name]) == 1
        }),
{
    lemma_shared_slots_differ(state.sender_id, state.recipient_id);
    assert(spec_counter_bytes(1) =~= seq![0u8, 0u8, 0u8, 1u8]);
}

/// The challenge of a non-interactive proof is bound to its commitment:
/// under given keys at most one challenge passes the MAC check with a given
/// commitment, so a proof whose challenge was changed fails it.
pub proof fn lemma_challenge_bound(keys: VerifierKeys, accepted: ProofView, changed: ProofView)
    requires
        spec_nizk_checks(keys, accepted).1,
        changed.0 == accepted.0,
        changed.1 != accepted.1,
    ensures
        !spec_nizk_checks(keys, changed).1,
{
}

/// The proof that a peer makes passes the MAC check of a verifier exactly
/// when the MAC of its commitment under the verifier's secret and counter is
/// the MAC under its own. With the same secret and counter on both sides it
/// passes.
pub proof fn lemma_mac_check_of_made_proof(
    prover: ProverKeys,
    verifier: VerifierKeys,
    nonce: Seq<u8>,
)
    ensures
        spec_nizk_checks(verifier, spec_nizk_proof(prover, nonce)).1 == (spec_nizk_challenge(
            verifier.shared_secret,
            verifier.shared_counter,
            spec_basepoint_mul(nonce),
        ) == spec_nizk_challenge(
            prover.shared_secret,
            prover.shared_counter,
            spec_basepoint_mul(nonce),
        )),
        prover.shared_secret == verifier.shared_secret && prover.shared_counter
            == verifier.shared_counter ==> spec_nizk_checks(
            verifier,
            spec_nizk_proof(prover, nonce),
        ).1,
{
}

/// In a group, the two sides of an accepted interactive run hold the same
/// shared secret and the same shared counter, provided that each took in the
/// commitment that the other made from its nonce.
pub proof fn lemma_interactive_secrets_agree(
    a: IntMutAuthView,
    b: IntMutAuthView,
    a_values: Map<Seq<char>, Seq<u8>>,
    a_permissions: Map<Seq<char>, u32>,
    b_values: Map<Seq<char>, Seq<u8>>,
    b_permissions: Map<Seq<char>, u32>,
)
    requires
        multiples_form_a_group(),
        a.my_random_int.len() == 32,
        b.my_random_int.len() == 32,
        a.sender_id == b.recipient_id,
        a.recipient_id == b.sender_id,
        a.recipient_commitment == spec_basepoint_mul(b.my_random_int),
        b.recipient_commitment == spec_basepoint_mul(a.my_random_int),
        spec_int_verify_proof(a, a_values, a_permissions, true).is_ok(),
        spec_int_verify_proof(a, a_values, a_permissions, true).unwrap().0,
        spec_int_verify_proof(b, b_values, b_permissions, true).is_ok(),
        spec_int_verify_proof(b, b_values, b_permissions, true).unwrap().0,
    ensures
        ({
            let a_stored = spec_int_verify_proof(a, a_values, a_permissions, true).unwrap().1;
            let b_stored = spec_int_verify_proof(b, b_values, b_permissions, true).unwrap().1;
            let me = a.sender_id;
            let other = b.sender_id;
            &&& a_stored[spec_slot_name(spec_shared_secret_description(me, other))]
                == b_stored[spec_slot_name(spec_shared_secret_description(other, me))]
            &&& a_stored[spec_slot_name(spec_shared_counter_description(me, other))]
                == b_stored[spec_slot_name(spec_shared_counter_description(other, me))]
        }),
{
    lemma_interactive_result(a, a_values, a_permissions, true);
    lemma_interactive_result(b, b_values, b_permissions, true);
    lemma_shared_point_in_a_group(a.my_random_int, b.my_random_int);
}

/// In a group, the two sides of a mutual proof without interaction arrive
/// at the same session key, provided that each holds the proof that the
/// other made from its nonce, and that both make their key or none does.
pub proof fn lemma_session_keys_agree(
    initiator: NIZKMutAuthView,
    receiver: NIZKMutAuthView,
    initiator_values: Map<Seq<char>, Seq<u8>>,
    receiver_values: Map<Seq<char>, Seq<u8>>,
)
    requires
        multiples_form_a_group(),
        initiator.my_random_int.len() == 32,
        receiver.my_random_int.len() == 32,
        initiator.my_proof.0 == spec_basepoint_mul(initiator.my_random_int),
        receiver.my_proof.0 == spec_basepoint_mul(receiver.my_random_int),
        initiator.my_proof == receiver.recipient_proof,
        receiver.my_proof == initiator.recipient_proof,
        initiator.proof_accepted == receiver.proof_accepted,
        spec_calculate_session_key(initiator, initiator_values).is_ok(),
        spec_calculate_session_key(receiver, receiver_values).is_ok(),
    ensures
        spec_calculate_session_key(initiator, initiator_values).unwrap().0
            == spec_calculate_session_key(receiver, receiver_values).unwrap().0,
{
    lemma_shared_point_in_a_group(initiator.my_random_int, receiver.my_random_int);
}

/// In a group, the proof that a peer makes passes both checks of a verifier
/// that holds the public key of that peer and the same secret and counter.
pub proof fn lemma_made_proof_accepted_in_a_group(
    prover: ProverKeys,
    verifier: VerifierKeys,
    nonce: Seq<u8>,
)
    requires
        multiples_form_a_group(),
        nonce.len() == 32,
        prover.private_key.len() == 32,
        verifier.public_key == spec_basepoint_mul(prover.private_key),
        verifier.shared_secret == prover.shared_secret,
        verifier.shared_counter == prover.shared_counter,
    ensures
        spec_nizk_checks(verifier, spec_nizk_proof(prover, nonce)) == (true, true),
{
    let made = spec_nizk_proof(prover, nonce);
    let challenge = scalar_bytes(le_value(made.1));
    let r = le_value(nonce);
    let k = le_value(prover.private_key);
    let e = le_value(made.1);
    lemma_scalar_bytes_value(e);
    lemma_scalar_bytes_value(r + k * e);
    lemma_schnorr_equation_in_a_group(prover.private_key, nonce, challenge, made.2);
    assert(k * (e % group_order()) == (e % group_order()) * k) by (nonlinear_arith);
    assert(k * e == e * k) by (nonlinear_arith);
    lemma_response_reductions(r, e, k);
    vstd::arithmetic::div_mod::lemma_mod_twice((r + k * e) as int, group_order() as int);
}

/// The two sides of a run of the interactive protocol in which both peers
/// follow it, after the last message has arrived: the initiator first, then
/// the receiver. `None` where a side cannot read its private key.
///
/// The initiator starts with `initiator_nonce` and draws
/// `initiator_challenge`, the receiver starts with `receiver_nonce` and
/// draws `receiver_challenge`, and each message that one side makes is taken
/// in by the other.
pub open spec fn spec_honest_run(
    initiator_id: u32,
    receiver_id: u32,
    initiator_nonce: Seq<u8>,
    receiver_nonce: Seq<u8>,
    initiator_challenge: Seq<u8>,
    receiver_challenge: Seq<u8>,
    initiator_values: Map<Seq<char>, Seq<u8>>,
    receiver_values: Map<Seq<char>, Seq<u8>>,
) -> Option<(IntMutAuthView, IntMutAuthView)> {
    let a0 = spec_int_new(initiator_id, receiver_id, CONST_INITIATOR_ROLE, initiator_nonce);
    let b0 = spec_int_new(receiver_id, initiator_id, CONST_RECEIVER_ROLE, receiver_nonce);
    let first = spec_gen_next_values(a0, initiator_values, initiator_challenge).unwrap();
    let b1 = spec_add_recipient_values(b0, first.1.2, first.1.0, first.1.1).0;
    let second = spec_gen_next_values(b1, receiver_values, receiver_challenge).unwrap();
    let a2 = spec_add_recipient_values(first.0, second.1.2, second.1.0, second.1.1).0;
    match spec_gen_next_values(a2, initiator_values, initiator_challenge) {
        Err(_) => None,
        Ok(third) => {
            let b3 = spec_add_recipient_values(second.0, third.1.2, third.1.0, third.1.1).0;
            match spec_gen_next_values(b3, receiver_values, receiver_challenge) {
                Err(_) => None,
                Ok(fourth) => {
                    let a4 = spec_add_recipient_values(
                        third.0,
                        fourth.1.2,
                        fourth.1.0,
                        fourth.1.1,
                    ).0;
                    Some((a4, fourth.0))
                },
            }
        },
    }
}

/// In a group, a run of the interactive protocol in which both peers follow
/// it ends with both proofs accepted and with the same shared secret and the
/// same shared counter on both sides, provided that each side holds its own
/// private key and the public key that belongs to the private key of the
/// other, and that neither commitment was used before.
pub proof fn lemma_honest_run_accepted_in_a_group(
    initiator_id: u32,
    receiver_id: u32,
    initiator_nonce: Seq<u8>,
    receiver_nonce: Seq<u8>,
    initiator_challenge: Seq<u8>,
    receiver_challenge: Seq<u8>,
    initiator_values: Map<Seq<char>, Seq<u8>>,
    initiator_permissions: Map<Seq<char>, u32>,
    receiver_values: Map<Seq<char>, Seq<u8>>,
    receiver_permissions: Map<Seq<char>, u32>,
)
    requires
        multiples_form_a_group(),
        initiator_nonce.len() == 32,
        receiver_nonce.len() == 32,
        initiator_challenge.len() == 32,
        receiver_challenge.len() == 32,
        spec_read_key(initiator_values, spec_private_key_description(initiator_id), 32).is_ok(),
        spec_read_key(receiver_values, spec_private_key_description(receiver_id), 32).is_ok(),
        spec_read_key(initiator_values, spec_public_key_description(receiver_id), 32) == Ok::<
            Seq<u8>,
            SecretKeyErrors,
        >(
            spec_basepoint_mul(
                spec_read_key(
                    receiver_values,
                    spec_private_key_description(receiver_id),
                    32,
                ).unwrap(),
            ),
        ),
        spec_read_key(receiver_values, spec_public_key_description(initiator_id), 32) == Ok::<
            Seq<u8>,
            SecretKeyErrors,
        >(
            spec_basepoint_mul(
                spec_read_key(
                    initiator_values,
                    spec_private_key_description(initiator_id),
                    32,
                ).unwrap(),
            ),
        ),
    ensures
        ({
            let run = spec_honest_run(
                initiator_id,
                receiver_id,
                initiator_nonce,
                receiver_nonce,
                initiator_challenge,
                receiver_challenge,
                initiator_values,
                receiver_values,
            );
            let a = run.unwrap().0;
            let b = run.unwrap().1;
            let a_verdict = spec_int_verify_proof(a, initiator_values, initiator_permissions, true);
            let b_verdict = spec_int_verify_proof(b, receiver_values, receiver_permissions, true);
            &&& run.is_some()
            &&& a_verdict.is_ok() && a_verdict.unwrap().0
            &&& b_verdict.is_ok() && b_verdict.unwrap().0
            &&& a_verdict.unwrap().1[spec_slot_name(
                spec_shared_secret_description(initiator_id, receiver_id),
            )] == b_verdict.unwrap().1[spec_slot_name(
                spec_shared_secret_description(receiver_id, initiator_id),
            )]
            &&& a_verdict.unwrap().1[spec_slot_name(
                spec_shared_counter_description(initiator_id, receiver_id),
            )] == b_verdict.unwrap().1[spec_slot_name(
                spec_shared_counter_description(receiver_id, initiator_id),
            )]
        }),
{
    let a_key = spec_read_key(
        initiator_values,
        spec_private_key_description(initiator_id),
        32,
    ).unwrap();
    let b_key = spec_read_key(
        receiver_values,
        spec_private_key_description(receiver_id),
        32,
    ).unwrap();
    let a_challenge = scalar_bytes(le_value(initiator_challenge));
    let b_challenge = scalar_bytes(le_value(receiver_challenge));
    let a_response = scalar_bytes(
        le_value(initiator_nonce) + le_value(a_key) * le_value(b_challenge),
    );
    let b_response = scalar_bytes(
        le_value(receiver_nonce) + le_value(b_key) * le_value(a_challenge),
    );
    lemma_scalar_bytes_value(le_value(initiator_challenge));
    lemma_scalar_bytes_value(le_value(receiver_challenge));
    lemma_scalar_bytes_value(le_value(initiator_nonce) + le_value(a_key) * le_value(b_challenge));
    lemma_scalar_bytes_value(le_value(receiver_nonce) + le_value(b_key) * le_value(a_challenge));
    vstd::arithmetic::div_mod::lemma_mod_twice(
        (le_value(initiator_nonce) + le_value(a_key) * le_value(b_challenge)) as int,
        group_order() as int,
    );
    vstd::arithmetic::div_mod::lemma_mod_twice(
        (le_value(receiver_nonce) + le_value(b_key) * le_value(a_challenge)) as int,
        group_order() as int,
    );
    lemma_schnorr_equation_in_a_group(a_key, initiator_nonce, b_challenge, a_response);
    lemma_schnorr_equation_in_a_group(b_key, receiver_nonce, a_challenge, b_response);
    lemma_shared_point_in_a_group(initiator_nonce, receiver_nonce);
    let run = spec_honest_run(
        initiator_id,
        receiver_id,
        initiator_nonce,
        receiver_nonce,
        initiator_challenge,
        receiver_challenge,
        initiator_values,
        receiver_values,
    );
    assert(run.is_some());
    let a = run.unwrap().0;
    let b = run.unwrap().1;
    assert(a.recipient_commitment == spec_basepoint_mul(receiver_nonce));
    assert(b.recipient_commitment == spec_basepoint_mul(initiator_nonce));
    assert(a.my_challenge == a_challenge);
    assert(b.my_challenge == b_challenge);
    assert(a.recipient_response == b_response);
    assert(b.recipient_response == a_response);
    lemma_interactive_secrets_agree(
        a,
        b,
        initiator_values,
        initiator_permissions,
        receiver_values,
        receiver_permissions,
    );
}

} // verus!

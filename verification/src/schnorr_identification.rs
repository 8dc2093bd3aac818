//! Schnorr identification over the Ed25519 group: key pairs, the response
//! to a challenge, the check of a proof, and the non-interactive variant
//! whose challenge is a MAC under the secret that two peers share.
//!
//! Scalars are integers modulo the order of the group and travel as 32 bytes,
//! least significant first. Points travel in their compressed 32-byte form.
//! The arithmetic of the group and the two hash functions are done by the
//! crates that this module calls; what it relies on of them is said at each
//! call.

use vstd::arithmetic::div_mod::{
    lemma_add_mod_noop_right, lemma_mod_twice, lemma_mul_mod_noop, lemma_mul_mod_noop_left,
};
use vstd::prelude::*;

verus! {

/// The order of the Ed25519 group, `2^252 + 27742317777372353535851937790883648493`.
pub open spec fn group_order() -> nat {
    0x1000000000000000000000000000000014def9dea2f79cd65812631a5cf5d3ednat
}

/// The number that `bytes` spell, least significant byte first.
pub open spec fn le_value(bytes: Seq<u8>) -> nat
    decreases bytes.len(),
{
    if bytes.len() == 0 {
        0
    } else {
        bytes[0] as nat + 256 * le_value(bytes.drop_first())
    }
}

/// The `len` low bytes of `value`, least significant byte first.
pub open spec fn le_bytes(value: nat, len: nat) -> Seq<u8>
    decreases len,
{
    if len == 0 {
        Seq::empty()
    } else {
        seq![(value % 256) as u8] + le_bytes(value / 256, (len - 1) as nat)
    }
}

/// `256^n`.
pub open spec fn pow256(n: nat) -> nat
    decreases n,
{
    if n == 0 {
        1
    } else {
        256 * pow256((n - 1) as nat)
    }
}

/// The 32 bytes of the scalar that `value` stands for: `value` reduced
/// modulo the group order, least significant byte first.
pub open spec fn scalar_bytes(value: nat) -> Seq<u8> {
    le_bytes(value % group_order(), 32)
}

/// `le_bytes` yields `len` bytes.
pub proof fn lemma_le_bytes_len(value: nat, len: nat)
    ensures
        le_bytes(value, len).len() == len,
    decreases len,
{
    if len > 0 {
        lemma_le_bytes_len(value / 256, (len - 1) as nat);
    }
}

/// A number that fits in `len` bytes is the number that its `len` bytes spell.
pub proof fn lemma_le_value_of_le_bytes(value: nat, len: nat)
    requires
        value < pow256(len),
    ensures
        le_value(le_bytes(value, len)) == value,
    decreases len,
{
    if len > 0 {
        let rest = le_bytes(value / 256, (len - 1) as nat);
        let bytes = le_bytes(value, len);
        assert(value / 256 < pow256((len - 1) as nat));
        lemma_le_value_of_le_bytes(value / 256, (len - 1) as nat);
        assert(bytes.drop_first() =~= rest);
        assert(bytes[0] == (value % 256) as u8);
    }
}

/// `256^32` is `2^256`.
pub proof fn lemma_pow256_of_32()
    ensures
        pow256(32) == 0x10000000000000000000000000000000000000000000000000000000000000000nat,
{
    assert(pow256(4) == 0x100000000nat) by {
        reveal_with_fuel(pow256, 5);
    }
    assert(pow256(8) == 0x10000000000000000nat) by {
        lemma_pow256_add(4, 4);
    }
    assert(pow256(16) == 0x100000000000000000000000000000000nat) by {
        lemma_pow256_add(8, 8);
    }
    lemma_pow256_add(16, 16);
}

/// `256^(a + b)` is `256^a * 256^b`.
pub proof fn lemma_pow256_add(a: nat, b: nat)
    ensures
        pow256(a + b) == pow256(a) * pow256(b),
    decreases a,
{
    if a == 0 {
        assert(pow256(0) == 1);
        assert(1 * pow256(b) == pow256(b));
    } else {
        lemma_pow256_add((a - 1) as nat, b);
        assert(pow256(a + b) == 256 * pow256((a + b - 1) as nat));
        assert(pow256(a) == 256 * pow256((a - 1) as nat));
        assert(256 * (pow256((a - 1) as nat) * pow256(b)) == (256 * pow256((a - 1) as nat))
            * pow256(b)) by (nonlinear_arith);
    }
}

/// The bytes of a scalar spell the value reduced modulo the group order,
/// and there are 32 of them.
pub proof fn lemma_scalar_bytes_value(value: nat)
    ensures
        scalar_bytes(value).len() == 32,
        le_value(scalar_bytes(value)) == value % group_order(),
{
    lemma_pow256_of_32();
    lemma_le_bytes_len(value % group_order(), 32);
    lemma_le_value_of_le_bytes(value % group_order(), 32);
}

/// The response `r + k * e` is the same scalar whether the key `k`, the
/// challenge `e` or their product are reduced modulo the group order first or
/// not.
pub proof fn lemma_response_reductions(r: nat, k: nat, e: nat)
    ensures
        scalar_bytes(r + (k * e) % group_order()) == scalar_bytes(r + k * e),
        scalar_bytes(r + (k % group_order()) * e) == scalar_bytes(r + k * e),
        scalar_bytes(r + (k % group_order()) * (e % group_order())) == scalar_bytes(r + k * e),
{
    let m = group_order() as int;
    let product = k * e;
    let half = (k % group_order()) * e;
    let both = (k % group_order()) * (e % group_order());
    lemma_mul_mod_noop_left(k as int, e as int, m);
    lemma_mul_mod_noop(k as int, e as int, m);
    assert(half % group_order() == product % group_order());
    assert(both % group_order() == product % group_order());
    lemma_add_mod_noop_right(r as int, product as int, m);
    lemma_add_mod_noop_right(r as int, (product % group_order()) as int, m);
    lemma_add_mod_noop_right(r as int, half as int, m);
    lemma_add_mod_noop_right(r as int, both as int, m);
    lemma_mod_twice(product as int, m);
}

/// The compressed form of the multiple of the Ed25519 base point by the
/// scalar that the 32 bytes `scalar` spell.
pub uninterp spec fn spec_basepoint_mul(scalar: Seq<u8>) -> Seq<u8>;

/// The compressed form of the multiple, by the scalar that the 32 bytes
/// `scalar` spell, of the point that `point` decodes to; `None` where `point`
/// decodes to no point of the curve.
pub uninterp spec fn spec_point_mul(scalar: Seq<u8>, point: Seq<u8>) -> Option<Seq<u8>>;

/// The compressed form of the sum of the points that `a` and `b` decode to;
/// `None` where one of them decodes to no point of the curve.
pub uninterp spec fn spec_point_add(a: Seq<u8>, b: Seq<u8>) -> Option<Seq<u8>>;

/// The compressed form of the point that `bytes` decodes to; `None` where
/// `bytes` decodes to no point of the curve.
pub uninterp spec fn spec_decompress(bytes: Seq<u8>) -> Option<Seq<u8>>;

/// The SHA3-256 digest of `data`.
pub uninterp spec fn spec_sha3_256(data: Seq<u8>) -> Seq<u8>;

/// The 32-byte KMAC256 tag of `data` under `key`, with an empty
/// customization string.
pub uninterp spec fn spec_kmac_256(key: Seq<u8>, data: Seq<u8>) -> Seq<u8>;

/// Trusted: `rand::thread_rng` and `RngCore::fill_bytes`, which fill the
/// whole buffer from the thread's generator. Only the length is claimed. A
/// buffer of more than `isize::MAX` bytes cannot be had.
#[verifier::external_body]
pub(crate) fn random_bytes(size: usize) -> (bytes: Vec<u8>)
    requires
        size <= isize::MAX,
    ensures
        bytes@.len() == size,
{
    let mut bytes = vec![0u8; size];
    rand::RngCore::fill_bytes(&mut rand::thread_rng(), &mut bytes);
    bytes
}

/// Trusted: `curve25519_dalek::scalar::Scalar::from_bytes_mod_order` and
/// `Scalar::to_bytes`. The first reads 32 bytes as a little-endian integer
/// and reduces it modulo the group order; the second hands out the
/// little-endian bytes of the reduced representative.
#[verifier::external_body]
fn scalar_reduce(bytes: &[u8; 32]) -> (reduced: [u8; 32])
    ensures
        reduced@ == scalar_bytes(le_value(bytes@)),
{
    curve25519_dalek::scalar::Scalar::from_bytes_mod_order(*bytes).to_bytes()
}

/// Trusted: `+` of `curve25519_dalek::scalar::Scalar`, the sum modulo the
/// group order. The operands are read with `from_bytes_mod_order` and the sum
/// is written with `to_bytes`.
#[verifier::external_body]
fn scalar_add(a: &[u8; 32], b: &[u8; 32]) -> (sum: [u8; 32])
    ensures
        sum@ == scalar_bytes(le_value(a@) + le_value(b@)),
{
    let a = curve25519_dalek::scalar::Scalar::from_bytes_mod_order(*a);
    let b = curve25519_dalek::scalar::Scalar::from_bytes_mod_order(*b);
    (a + b).to_bytes()
}

/// Trusted: `*` of `curve25519_dalek::scalar::Scalar`, the product modulo
/// the group order. The operands are read with `from_bytes_mod_order` and the
/// product is written with `to_bytes`.
#[verifier::external_body]
fn scalar_mul(a: &[u8; 32], b: &[u8; 32]) -> (product: [u8; 32])
    ensures
        product@ == scalar_bytes(le_value(a@) * le_value(b@)),
{
    let a = curve25519_dalek::scalar::Scalar::from_bytes_mod_order(*a);
    let b = curve25519_dalek::scalar::Scalar::from_bytes_mod_order(*b);
    (a * b).to_bytes()
}

/// Trusted: `Scalar * EdwardsPoint` of `curve25519_dalek` with
/// `constants::ED25519_BASEPOINT_POINT`, and `EdwardsPoint::compress`. The
/// result is a function of the scalar's bytes alone; it is given a name and
/// nothing else is claimed of it.
#[verifier::external_body]
pub(crate) fn basepoint_mul(scalar: &[u8; 32]) -> (point: [u8; 32])
    ensures
        point@ == spec_basepoint_mul(scalar@),
{
    let scalar = curve25519_dalek::scalar::Scalar::from_bytes_mod_order(*scalar);
    (scalar * curve25519_dalek::constants::ED25519_BASEPOINT_POINT).compress().to_bytes()
}

/// Trusted: `CompressedEdwardsY::decompress`, `Scalar * EdwardsPoint` and
/// `EdwardsPoint::compress` of `curve25519_dalek`. `decompress` gives `None`
/// for bytes that are no point of the curve, and so does this. The result is
/// a function of the two byte strings alone; it is given a name and nothing
/// else is claimed of it.
#[verifier::external_body]
pub(crate) fn point_mul(scalar: &[u8; 32], point: &[u8; 32]) -> (product: Option<[u8; 32]>)
    ensures
        match product {
            Some(bytes) => spec_point_mul(scalar@, point@) == Some(bytes@),
            None => spec_point_mul(scalar@, point@).is_none(),
        },
{
    let scalar = curve25519_dalek::scalar::Scalar::from_bytes_mod_order(*scalar);
    match curve25519_dalek::edwards::CompressedEdwardsY(*point).decompress() {
        Some(point) => Some((scalar * point).compress().to_bytes()),
        None => None,
    }
}

/// Trusted: `CompressedEdwardsY::decompress`, `EdwardsPoint + EdwardsPoint`
/// and `EdwardsPoint::compress` of `curve25519_dalek`. The result is `None`
/// where one of the operands is no point of the curve. It is a function of
/// the two byte strings alone; it is given a name and nothing else is claimed
/// of it.
#[verifier::external_body]
fn point_add(a: &[u8; 32], b: &[u8; 32]) -> (sum: Option<[u8; 32]>)
    ensures
        match sum {
            Some(bytes) => spec_point_add(a@, b@) == Some(bytes@),
            None => spec_point_add(a@, b@).is_none(),
        },
{
    let a = curve25519_dalek::edwards::CompressedEdwardsY(*a).decompress();
    let b = curve25519_dalek::edwards::CompressedEdwardsY(*b).decompress();
    match (a, b) {
        (Some(a), Some(b)) => Some((a + b).compress().to_bytes()),
        _ => None,
    }
}

/// Trusted: `CompressedEdwardsY::decompress` and `EdwardsPoint::compress` of
/// `curve25519_dalek`. `decompress` gives `None` for bytes that are no point
/// of the curve, and so does this. The result is a function of the bytes
/// alone; it is given a name and nothing else is claimed of it.
#[verifier::external_body]
fn point_decompress(bytes: &[u8; 32]) -> (point: Option<[u8; 32]>)
    ensures
        match point {
            Some(compressed) => spec_decompress(bytes@) == Some(compressed@),
            None => spec_decompress(bytes@).is_none(),
        },
{
    match curve25519_dalek::edwards::CompressedEdwardsY(*bytes).decompress() {
        Some(point) => Some(point.compress().to_bytes()),
        None => None,
    }
}

/// Trusted: `tiny_keccak::Sha3::v256` with `Hasher::update` and
/// `Hasher::finalize` into 32 bytes: the SHA3-256 digest of `data`. It is a
/// function of `data` alone; it is given a name and nothing else is claimed
/// of it.
#[verifier::external_body]
fn sha3_256_digest(data: &[u8]) -> (digest: [u8; 32])
    ensures
        digest@ == spec_sha3_256(data@),
{
    let mut hasher = tiny_keccak::Sha3::v256();
    tiny_keccak::Hasher::update(&mut hasher, data);
    let mut digest = [0u8; 32];
    tiny_keccak::Hasher::finalize(hasher, &mut digest);
    digest
}

/// Trusted: `tiny_keccak::Kmac::v256` with an empty customization string,
/// `Hasher::update` and `Hasher::finalize` into 32 bytes: the KMAC256 tag of
/// `data` under `key`. It is a function of `key` and `data` alone; it is
/// given a name and nothing else is claimed of it.
#[verifier::external_body]
fn kmac_256_tag(key: &[u8; 32], data: &[u8]) -> (tag: [u8; 32])
    ensures
        tag@ == spec_kmac_256(key@, data@),
{
    let mut hasher = tiny_keccak::Kmac::v256(key, b"");
    tiny_keccak::Hasher::update(&mut hasher, data);
    let mut tag = [0u8; 32];
    tiny_keccak::Hasher::finalize(hasher, &mut tag);
    tag
}

/// A scalar: an integer modulo the group order, as 32 bytes with the least
/// significant first.
#[derive(Clone, Copy, Debug)]
pub struct Scalar {
    /// The bytes of the scalar.
    pub bytes: [u8; 32],
}

impl Scalar {
    /// The number that the bytes of the scalar spell.
    pub open spec fn value(self) -> nat {
        le_value(self.bytes@)
    }

    /// The scalar of the number that `bytes` spell, reduced modulo the group
    /// order.
    pub fn from_bytes_mod_order(bytes: [u8; 32]) -> (scalar: Scalar)
        ensures
            scalar.bytes@ == scalar_bytes(le_value(bytes@)),
    {
        Scalar { bytes: scalar_reduce(&bytes) }
    }

    /// The bytes of the scalar.
    pub fn to_bytes(&self) -> (bytes: [u8; 32])
        ensures
            bytes == self.bytes,
    {
        self.bytes
    }
}

/// The bytes that were given are not the compressed form of a point of the
/// curve.
#[derive(Clone, Copy, Debug, PartialEq, Eq, Structural)]
pub struct InvalidPoint;

/// A point of the curve, in its compressed form.
#[derive(Clone, Copy, Debug)]
pub struct EdwardsPoint {
    /// The compressed form of the point.
    pub compressed: [u8; 32],
}

/// The bytes of an optional argument; none where it is absent.
pub open spec fn optional_bytes(arg: Option<&[u8]>) -> Seq<u8> {
    match arg {
        Some(bytes) => bytes@,
        None => Seq::empty(),
    }
}

/// The challenge of a non-interactive proof: the MAC, under the shared
/// secret, of the commitment followed by the shared counter.
pub open spec fn spec_nizk_challenge(
    shared_secret: Seq<u8>,
    shared_counter: Seq<u8>,
    commitment: Seq<u8>,
) -> Seq<u8> {
    spec_kmac_256(shared_secret, commitment + shared_counter)
}

/// The Schnorr equation `response * G == commitment + challenge * public_key`,
/// with the response read modulo the group order. It fails where the public
/// key or the commitment is no point of the curve.
pub open spec fn spec_schnorr_accepts(
    public_key: Seq<u8>,
    commitment: Seq<u8>,
    challenge: Seq<u8>,
    response: Seq<u8>,
) -> bool {
    match spec_point_mul(challenge, public_key) {
        Some(challenge_key) => spec_point_add(commitment, challenge_key) == Some(
            spec_basepoint_mul(scalar_bytes(le_value(response))),
        ),
        None => false,
    }
}

/// The 32 bytes of `bytes` as an array.
pub(crate) fn array32_from_vec(bytes: &Vec<u8>) -> (array: [u8; 32])
    requires
        bytes@.len() == 32,
    ensures
        array@ == bytes@,
{
    let mut array = [0u8; 32];
    let mut i: usize = 0;
    while i < 32
        invariant
            i <= 32,
            bytes@.len() == 32,
            forall|j: int| 0 <= j < i ==> array@[j] == bytes@[j],
        decreases 32 - i,
    {
        array[i] = bytes[i];
        i += 1;
    }
    assert(array@ =~= bytes@);
    array
}

/// Thirty-two bytes from the thread's random number generator.
pub fn generate_random_32bytes() -> (random: [u8; 32]) {
    let bytes = random_bytes(32);
    array32_from_vec(&bytes)
}

/// The key pair `(public, private)` whose private key is `seed` reduced
/// modulo the group order. The public key is the multiple of the base point
/// by the private key.
pub fn key_gen_from_seed(seed: [u8; 32]) -> (keys: ([u8; 32], [u8; 32]))
    ensures
        keys.1@ == scalar_bytes(le_value(seed@)),
        keys.0@ == spec_basepoint_mul(keys.1@),
{
    let private_key = Scalar::from_bytes_mod_order(seed);
    let public_key = basepoint_mul(&private_key.bytes);
    (public_key, private_key.to_bytes())
}

/// A new key pair `(public, private)` from a random seed.
pub fn key_gen() -> (keys: ([u8; 32], [u8; 32]))
    ensures
        exists|seed: [u8; 32]| keys.1@ == #[trigger] scalar_bytes(le_value(seed@)),
        keys.0@ == spec_basepoint_mul(keys.1@),
{
    key_gen_from_seed(generate_random_32bytes())
}

/// A random scalar: 32 random bytes, reduced modulo the group order.
pub fn generate_random_scalar() -> (scalar: Scalar)
    ensures
        exists|seed: [u8; 32]| scalar.bytes@ == #[trigger] scalar_bytes(le_value(seed@)),
{
    Scalar::from_bytes_mod_order(generate_random_32bytes())
}

fn append_optional(data: &mut Vec<u8>, arg: Option<&[u8]>)
    ensures
        final(data)@ == old(data)@ + optional_bytes(arg),
{
    match arg {
        Some(bytes) => {
            data.extend_from_slice(bytes);
        },
        None => {
            assert(data@ =~= old(data)@ + optional_bytes(arg));
        },
    }
}

/// The SHA3-256 digest of the arguments that are present, one after the
/// other. An absent argument adds nothing.
pub fn sha3_256(
    arg1: &[u8],
    arg2: Option<&[u8]>,
    arg3: Option<&[u8]>,
    arg4: Option<&[u8]>,
) -> (digest: [u8; 32])
    ensures
        digest@ == spec_sha3_256(
            arg1@ + optional_bytes(arg2) + optional_bytes(arg3) + optional_bytes(arg4),
        ),
{
    let mut data: Vec<u8> = Vec::new();
    data.extend_from_slice(arg1);
    assert(data@ =~= arg1@);
    append_optional(&mut data, arg2);
    append_optional(&mut data, arg3);
    append_optional(&mut data, arg4);
    sha3_256_digest(data.as_slice())
}

/// The KMAC256 tag, under `key` and with an empty customization string, of
/// the arguments that are present, one after the other. An absent argument
/// adds nothing.
pub fn kmac_256(
    key: [u8; 32],
    arg1: &[u8],
    arg2: Option<&[u8]>,
    arg3: Option<&[u8]>,
) -> (tag: [u8; 32])
    ensures
        tag@ == spec_kmac_256(key@, arg1@ + optional_bytes(arg2) + optional_bytes(arg3)),
{
    let mut data: Vec<u8> = Vec::new();
    data.extend_from_slice(arg1);
    assert(data@ =~= arg1@);
    append_optional(&mut data, arg2);
    append_optional(&mut data, arg3);
    kmac_256_tag(&key, data.as_slice())
}

/// The response `random_secret + private_key * challenge` of the prover,
/// modulo the group order.
pub fn generate_proof_response(
    random_secret: Scalar,
    private_key: Scalar,
    challenge: Scalar,
) -> (response: [u8; 32])
    ensures
        response@ == scalar_bytes(
            random_secret.value() + private_key.value() * challenge.value(),
        ),
{
    let product = scalar_mul(&private_key.bytes, &challenge.bytes);
    let response = scalar_add(&random_secret.bytes, &product);
    proof {
        lemma_scalar_bytes_value(private_key.value() * challenge.value());
        lemma_response_reductions(random_secret.value(), private_key.value(), challenge.value());
    }
    response
}

/// The non-interactive proof `(nonce, commitment, challenge, response)` that
/// the holder of `private_key` makes with `nonce`: the commitment is the
/// multiple of the base point by the nonce, the challenge is the MAC of
/// commitment and counter under the shared secret, and the response answers
/// that challenge.
pub fn nizk_proof_with_nonce(
    nonce: Scalar,
    private_key: [u8; 32],
    shared_secret_key: [u8; 32],
    shared_counter: [u8; 4],
) -> (proof: (Scalar, [u8; 32], [u8; 32], [u8; 32]))
    ensures
        proof.0 == nonce,
        proof.1@ == spec_basepoint_mul(nonce.bytes@),
        proof.2@ == spec_nizk_challenge(shared_secret_key@, shared_counter@, proof.1@),
        proof.3@ == scalar_bytes(nonce.value() + le_value(private_key@) * le_value(proof.2@)),
{
    let private_key_sc = Scalar::from_bytes_mod_order(private_key);
    let commitment = basepoint_mul(&nonce.bytes);
    let challenge = kmac_256(
        shared_secret_key,
        commitment.as_slice(),
        Some(shared_counter.as_slice()),
        None,
    );
    assert(commitment@ + shared_counter@ + Seq::<u8>::empty() =~= commitment@ + shared_counter@);
    let c = Scalar::from_bytes_mod_order(challenge);
    let response = generate_proof_response(nonce, private_key_sc, c);
    proof {
        let k = le_value(private_key@);
        let e = le_value(challenge@);
        lemma_scalar_bytes_value(k);
        lemma_scalar_bytes_value(e);
        lemma_response_reductions(nonce.value(), k, e);
    }
    (nonce, commitment, challenge, response)
}

/// A non-interactive proof made with a random nonce: what
/// [`nizk_proof_with_nonce`] makes with the nonce that it returns first.
pub fn nizk_proof(
    private_key: [u8; 32],
    shared_secret_key: [u8; 32],
    shared_counter: [u8; 4],
) -> (proof: (Scalar, [u8; 32], [u8; 32], [u8; 32]))
    ensures
        proof.1@ == spec_basepoint_mul(proof.0.bytes@),
        proof.2@ == spec_nizk_challenge(shared_secret_key@, shared_counter@, proof.1@),
        proof.3@ == scalar_bytes(proof.0.value() + le_value(private_key@) * le_value(proof.2@)),
{
    let nonce = generate_random_scalar();
    nizk_proof_with_nonce(nonce, private_key, shared_secret_key, shared_counter)
}

/// Decodes the compressed form of a point. The point that comes back holds
/// the compressed form that the curve arithmetic gives to the decoded point.
pub fn bytes_to_edwards(bytes: &[u8; 32]) -> (point: Result<EdwardsPoint, InvalidPoint>)
    ensures
        match point {
            Ok(decoded) => spec_decompress(bytes@) == Some(decoded.compressed@),
            Err(_) => spec_decompress(bytes@).is_none(),
        },
{
    match point_decompress(bytes) {
        Some(compressed) => Ok(EdwardsPoint { compressed }),
        None => Err(InvalidPoint),
    }
}

/// Whether `challenge` is the MAC that a non-interactive proof with this
/// commitment must carry under this shared secret and counter.
pub fn verify_challenge(
    shared_secret: [u8; 32],
    shared_counter: [u8; 4],
    commitment: [u8; 32],
    challenge: [u8; 32],
) -> (accepted: bool)
    ensures
        accepted == (challenge@ == spec_nizk_challenge(
            shared_secret@,
            shared_counter@,
            commitment@,
        )),
{
    let expected_challenge = kmac_256(
        shared_secret,
        commitment.as_slice(),
        Some(shared_counter.as_slice()),
        None,
    );
    assert(commitment@ + shared_counter@ + Seq::<u8>::empty() =~= commitment@ + shared_counter@);
    bytes32_eq(&challenge, &expected_challenge)
}

/// Whether two 32-byte values hold the same bytes.
pub fn bytes32_eq(a: &[u8; 32], b: &[u8; 32]) -> (same: bool)
    ensures
        same == (a@ == b@),
{
    let mut i: usize = 0;
    while i < 32
        invariant
            i <= 32,
            forall|j: int| 0 <= j < i ==> a@[j] == b@[j],
        decreases 32 - i,
    {
        if a[i] != b[i] {
            return false;
        }
        i += 1;
    }
    assert(a@ =~= b@);
    true
}

fn schnorr_equation_holds(
    public_key: &[u8; 32],
    commitment: &[u8; 32],
    challenge: &Scalar,
    response: &[u8; 32],
) -> (accepted: bool)
    ensures
        accepted == spec_schnorr_accepts(public_key@, commitment@, challenge.bytes@, response@),
{
    let response_sc = Scalar::from_bytes_mod_order(*response);
    let lhs = basepoint_mul(&response_sc.bytes);
    match point_mul(&challenge.bytes, public_key) {
        None => false,
        Some(challenge_key) => match point_add(commitment, &challenge_key) {
            None => false,
            Some(rhs) => bytes32_eq(&lhs, &rhs),
        },
    }
}

/// Checks a non-interactive proof `(commitment, challenge, response)` and
/// reports its two checks apart, as `(schnorr, mac)`: whether the Schnorr
/// equation holds for the public key with the challenge read modulo the
/// group order, and whether the challenge is the MAC of commitment and counter
/// under the shared secret. The proof is accepted when both hold.
pub fn verify_nizk_proof(
    public_key: [u8; 32],
    shared_secret: [u8; 32],
    shared_counter: [u8; 4],
    proof: ([u8; 32], [u8; 32], [u8; 32]),
) -> (verdict: (bool, bool))
    ensures
        verdict.0 == spec_schnorr_accepts(
            public_key@,
            proof.0@,
            scalar_bytes(le_value(proof.1@)),
            proof.2@,
        ),
        verdict.1 == (proof.1@ == spec_nizk_challenge(shared_secret@, shared_counter@, proof.0@)),
{
    let (commitment, challenge, response) = proof;
    let challenge_accepted = verify_challenge(
        shared_secret,
        shared_counter,
        commitment,
        challenge,
    );
    let challenge_sc = Scalar::from_bytes_mod_order(challenge);
    let schnorr_accepted = schnorr_equation_holds(
        &public_key,
        &commitment,
        &challenge_sc,
        &response,
    );
    (schnorr_accepted, challenge_accepted)
}

/// Checks the proof `(commitment, challenge, response)` of an interactive
/// run against the public key of the prover: the Schnorr equation with the
/// challenge that the verifier drew.
pub fn verify_int_proof(public_key: [u8; 32], proof: ([u8; 32], Scalar, [u8; 32])) -> (accepted:
    bool)
    ensures
        accepted == spec_schnorr_accepts(public_key@, proof.0@, proof.1.bytes@, proof.2@),
{
    let (commitment, challenge_sc, response) = proof;
    schnorr_equation_holds(&public_key, &commitment, &challenge_sc, &response)
}

/// The multiples of the base point behave as the group that they are meant
/// to be: the sum of two multiples is the multiple by the sum of the scalars,
/// the multiple of a multiple is the multiple by the product, and two
/// scalars give the same multiple only if they are the same modulo the group
/// order.
///
/// Nothing in this module claims that this holds of the curve arithmetic that
/// it calls. It is the hypothesis of the lemmas below, which say what the
/// checks of this module accept if it does.
pub open spec fn multiples_form_a_group() -> bool {
    &&& forall|x: Seq<u8>, y: Seq<u8>|
        x.len() == 32 && y.len() == 32 ==> #[trigger] spec_point_add(
            spec_basepoint_mul(x),
            spec_basepoint_mul(y),
        ) == Some(spec_basepoint_mul(scalar_bytes(le_value(x) + le_value(y))))
    &&& forall|x: Seq<u8>, y: Seq<u8>|
        x.len() == 32 && y.len() == 32 ==> #[trigger] spec_point_mul(x, spec_basepoint_mul(y))
            == Some(spec_basepoint_mul(scalar_bytes(le_value(x) * le_value(y))))
    &&& forall|x: Seq<u8>, y: Seq<u8>|
        x.len() == 32 && y.len() == 32 && #[trigger] spec_basepoint_mul(x)
            == #[trigger] spec_basepoint_mul(y) ==> scalar_bytes(le_value(x)) == scalar_bytes(
            le_value(y),
        )
}

/// In a group, the Schnorr equation of a proof whose public key and
/// commitment are the multiples by `private_key` and `nonce` holds exactly
/// for the response `nonce + private_key * challenge`, read modulo the group
/// order: the proof of the holder of the private key is accepted, and a
/// proof with any other response is rejected.
pub proof fn lemma_schnorr_equation_in_a_group(
    private_key: Seq<u8>,
    nonce: Seq<u8>,
    challenge: Seq<u8>,
    response: Seq<u8>,
)
    requires
        multiples_form_a_group(),
        private_key.len() == 32,
        nonce.len() == 32,
        challenge.len() == 32,
        response.len() == 32,
    ensures
        spec_schnorr_accepts(
            spec_basepoint_mul(private_key),
            spec_basepoint_mul(nonce),
            challenge,
            response,
        ) == (scalar_bytes(le_value(response)) == scalar_bytes(
            le_value(nonce) + le_value(private_key) * le_value(challenge),
        )),
{
    let public_key = spec_basepoint_mul(private_key);
    let commitment = spec_basepoint_mul(nonce);
    let product = scalar_bytes(le_value(challenge) * le_value(private_key));
    let honest = scalar_bytes(le_value(nonce) + le_value(private_key) * le_value(challenge));
    let read = scalar_bytes(le_value(response));
    lemma_scalar_bytes_value(le_value(challenge) * le_value(private_key));
    lemma_scalar_bytes_value(le_value(nonce) + le_value(private_key) * le_value(challenge));
    lemma_scalar_bytes_value(le_value(response));
    assert(spec_point_mul(challenge, public_key) == Some(spec_basepoint_mul(product)));
    assert(le_value(challenge) * le_value(private_key) == le_value(private_key) * le_value(
        challenge,
    )) by (nonlinear_arith);
    lemma_response_reductions(le_value(nonce), le_value(private_key), le_value(challenge));
    assert(spec_point_add(commitment, spec_basepoint_mul(product)) == Some(
        spec_basepoint_mul(honest),
    ));
    if spec_basepoint_mul(read) == spec_basepoint_mul(honest) {
        lemma_mod_twice(le_value(response) as int, group_order() as int);
        lemma_mod_twice(
            (le_value(nonce) + le_value(private_key) * le_value(challenge)) as int,
            group_order() as int,
        );
        assert(scalar_bytes(le_value(read)) == read);
        assert(scalar_bytes(le_value(honest)) == honest);
    }
}

/// In a group, two peers that multiply each other's commitment by their own
/// nonce arrive at the same point.
pub proof fn lemma_shared_point_in_a_group(nonce_a: Seq<u8>, nonce_b: Seq<u8>)
    requires
        multiples_form_a_group(),
        nonce_a.len() == 32,
        nonce_b.len() == 32,
    ensures
        spec_point_mul(nonce_a, spec_basepoint_mul(nonce_b)).is_some(),
        spec_point_mul(nonce_a, spec_basepoint_mul(nonce_b)) == spec_point_mul(
            nonce_b,
            spec_basepoint_mul(nonce_a),
        ),
{
    assert(le_value(nonce_a) * le_value(nonce_b) == le_value(nonce_b) * le_value(nonce_a))
        by (nonlinear_arith);
}

} // verus!

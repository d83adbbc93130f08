//! Key agreement, key derivation and decryption.
//!
//! The primitives are those of the crates `p256`, `hkdf`, `sha2`, `aes` and `ctr`. What they
//! compute has a name here, and everything around them is stated over those names.
use cipher::{KeyIvInit, StreamCipher};
use vstd::prelude::*;
use vstd::string::*;

use crate::bytes::{be_bytes, be_value, byte_range, bytes_equal, read_array, u32_to_be};
use crate::error::RecorderError;
use crate::protocol::{
    BLOCKS_PER_PACKET, CHUNK_ENCRYPTED_SIZE, FILE_KEY_MAGIC, HKDF_INFO, HKDF_SALT,
};
use crate::text::text_of;

verus! {

// ---------- Outside names ----------
/// The uncompressed SEC1 encoding of the P-256 public key of a secret scalar, given as 32 bytes in
/// big-endian order; `None` where the bytes are zero or not below the order of the curve.
pub uninterp spec fn p256_public_key(secret: Seq<u8>) -> Option<Seq<u8>>;

/// Whether bytes are the SEC1 encoding, compressed or not, of a P-256 public key.
pub uninterp spec fn p256_is_public_key(bytes: Seq<u8>) -> bool;

/// The x-coordinate of the product of a secret scalar and the point of a public key.
pub uninterp spec fn p256_shared_secret(secret: Seq<u8>, public: Seq<u8>) -> Seq<u8>;

/// The 32 bytes that HKDF with SHA-256 derives from a salt, key material and an info string.
pub uninterp spec fn hkdf_sha256_key(salt: Seq<u8>, ikm: Seq<u8>, info: Seq<u8>) -> Seq<u8>;

/// Byte `index` of the AES-256 encryption of the 16-byte big-endian number `counter`.
pub uninterp spec fn aes256_keystream_byte(key: Seq<u8>, counter: nat, index: nat) -> u8;

/// The error of the `elliptic-curve` crate, which carries nothing.
#[verifier::external_type_specification]
#[verifier::external_body]
pub struct ExCurveError(p256::elliptic_curve::Error);

/// Trusted: the message of an `elliptic_curve::Error` is always the same, `crypto error`.
#[verifier::external_body]
fn curve_error_text(e: &p256::elliptic_curve::Error) -> (r: String)
    ensures
        r@ == "crypto error"@,
{
    e.to_string()
}

/// Trusted: `p256::SecretKey::random`, fed by the random source of the system, gives a scalar that
/// has a public key. Which one is left to chance. It panics where the system has no random bytes to
/// give.
#[verifier::external_body]
fn random_secret() -> (r: [u8; 32])
    ensures
        p256_public_key(r@) is Some,
{
    p256::SecretKey::random(&mut rand_core::OsRng).to_bytes().into()
}

/// Trusted: `p256::SecretKey::public_key` of a valid scalar is written by `to_sec1_bytes` without
/// compression, in 65 bytes that begin with 4, and `PublicKey::from_sec1_bytes` reads them.
#[verifier::external_body]
fn public_key_of(secret: &[u8; 32]) -> (r: Option<Vec<u8>>)
    ensures
        r is Some <==> p256_public_key(secret@) is Some,
        r matches Some(bytes) ==> p256_public_key(secret@) == Some(bytes@) && bytes@.len() == 65
            && bytes@[0] == 4 && p256_is_public_key(bytes@),
{
    let key = p256::SecretKey::from_slice(secret).ok()?;
    Some(key.public_key().to_sec1_bytes().to_vec())
}

/// Trusted: `p256::ecdh::diffie_hellman` of a valid scalar and a public key that
/// `PublicKey::from_sec1_bytes` reads. Bytes that it does not read are the only cause of an error.
/// The public key of a scalar is read, and scalar multiplication commutes: whoever holds the scalar
/// behind the public key computes the same secret from the other side.
#[verifier::external_body]
fn diffie_hellman(secret: &[u8; 32], public: &[u8]) -> (r: Result<
    [u8; 32],
    p256::elliptic_curve::Error,
>)
    requires
        p256_public_key(secret@) is Some,
    ensures
        r is Ok <==> p256_is_public_key(public@),
        r matches Ok(shared) ==> shared@ == p256_shared_secret(secret@, public@),
        r is Err ==> forall|other: Seq<u8>| #[trigger] p256_public_key(other) != Some(public@),
        r matches Ok(shared) ==> forall|other: Seq<u8>| #[trigger]
            p256_public_key(other) == Some(public@) ==> shared@ == p256_shared_secret(
                other,
                p256_public_key(secret@)->0,
            ),
{
    let public = p256::PublicKey::from_sec1_bytes(public)?;
    let scalar = p256::SecretKey::from_slice(secret)?.to_nonzero_scalar();
    let shared = p256::ecdh::diffie_hellman(scalar, public.as_affine());
    Ok((*shared.raw_secret_bytes()).into())
}

/// Trusted: `hkdf::Hkdf::<sha2::Sha256>` extracts with the salt and expands with the info string
/// into 32 bytes, a length that `expand` accepts.
#[verifier::external_body]
fn hkdf_sha256(salt: &[u8], ikm: &[u8], info: &[u8]) -> (r: [u8; 32])
    ensures
        r@ == hkdf_sha256_key(salt@, ikm@, info@),
{
    let mut key = [0u8; 32];
    hkdf::Hkdf::<sha2::Sha256>::new(Some(salt), ikm).expand(info, &mut key).expect("32 bytes");
    key
}

/// Trusted: `apply_keystream` of `ctr::Ctr128BE<aes::Aes256>` adds to every byte, bit by bit, the
/// byte of the keystream at its place. Block `k` of the keystream is the encryption of the initial
/// counter block plus `k`, as a 128-bit big-endian number that wraps around.
#[verifier::external_body]
fn aes256_ctr(key: &[u8; 32], iv: &[u8; 16], data: &[u8]) -> (r: Vec<u8>)
    ensures
        r@ == Seq::new(
            data@.len(),
            |i: int|
                data@[i] ^ aes256_keystream_byte(
                    key@,
                    counter_at(iv@, i / 16),
                    (i % 16) as nat,
                ),
        ),
{
    let mut out = data.to_vec();
    ctr::Ctr128BE::<aes::Aes256>::new(key.into(), iv.into()).apply_keystream(&mut out);
    out
}

// ---------- Model ----------
/// The counter of block `k` under an initial counter block.
pub open spec fn counter_at(iv: Seq<u8>, k: int) -> nat {
    ((be_value(iv) + k) % (byte_range(16) as int)) as nat
}

/// AES-256 in counter mode; encryption and decryption are the same.
pub open spec fn ctr_crypt(key: Seq<u8>, iv: Seq<u8>, data: Seq<u8>) -> Seq<u8> {
    Seq::new(
        data.len(),
        |i: int|
            data[i] ^ aes256_keystream_byte(key, counter_at(iv, i / 16), (i % 16) as nat),
    )
}

/// The session key that both sides derive from the shared secret.
pub open spec fn session_key_of(shared_secret: Seq<u8>) -> Seq<u8> {
    hkdf_sha256_key(HKDF_SALT@, shared_secret, HKDF_INFO@)
}

/// The file key inside the plaintext of a file header; `None` where the magic is not there.
pub open spec fn file_key_in(plain: Seq<u8>) -> Option<Seq<u8>> {
    if plain.take(14) == FILE_KEY_MAGIC@ {
        Some(plain.subrange(14, 46))
    } else {
        None
    }
}

/// The initial counter block of a slice: twelve bytes of nonce, then the number of the first
/// block, ten for each slice before it.
pub open spec fn chunk_counter_block(nonce: Seq<u8>, sequence_number: nat) -> Seq<u8> {
    nonce.take(12) + be_bytes(sequence_number * BLOCKS_PER_PACKET as nat, 4)
}

/// Whether the block numbers of a slice can be counted in 32 bits.
pub open spec fn sequence_in_range(sequence_number: nat) -> bool {
    sequence_number * BLOCKS_PER_PACKET <= u32::MAX
}

/// A decrypted slice.
pub open spec fn chunk_plain(
    file_key: Seq<u8>,
    nonce: Seq<u8>,
    sequence_number: nat,
    encrypted: Seq<u8>,
) -> Seq<u8> {
    ctr_crypt(file_key, chunk_counter_block(nonce, sequence_number), encrypted)
}

// ---------- ECDH key exchange ----------
/// A secret scalar that has a public key.
struct SecretScalar {
    bytes: [u8; 32],
}

impl SecretScalar {
    #[verifier::type_invariant]
    spec fn valid(self) -> bool {
        p256_public_key(self.bytes@) is Some
    }
}

/// One side of a key exchange. The secret is used up by `derive_shared_secret`.
pub struct EcdhKeypair {
    secret: SecretScalar,
    pub public_key_bytes: Vec<u8>,
}

impl EcdhKeypair {
    /// The secret scalar.
    pub closed spec fn scalar(&self) -> Seq<u8> {
        self.secret.bytes@
    }

    /// What `public_key_bytes` holds.
    pub closed spec fn advertised_key(&self) -> Seq<u8> {
        self.public_key_bytes@
    }

    /// Makes a new key pair from the random source of the system. The public key is in
    /// uncompressed SEC1 form.
    pub fn generate() -> (r: Self)
        ensures
            p256_public_key(r.scalar()) == Some(r.advertised_key()),
            p256_is_public_key(r.advertised_key()),
            r.advertised_key().len() == 65,
            r.advertised_key()[0] == 4,
    {
        let bytes: [u8; 32] = random_secret();
        let public_key_bytes: Vec<u8> = public_key_of(&bytes).unwrap();
        EcdhKeypair { secret: SecretScalar { bytes }, public_key_bytes }
    }

    /// The public key, as it is sent to the other side.
    pub fn public_key(&self) -> (r: &[u8])
        ensures
            r@ == self.advertised_key(),
    {
        self.public_key_bytes.as_slice()
    }

    /// The secret that this side shares with the holder of a public key.
    ///
    /// It is the secret that the holder derives from this side's public key. The public key of a
    /// scalar is never refused.
    pub fn derive_shared_secret(self, device_public_bytes: &[u8]) -> (r: Result<
        [u8; 32],
        RecorderError,
    >)
        ensures
            r is Ok <==> p256_is_public_key(device_public_bytes@),
            r matches Ok(shared) ==> shared@ == p256_shared_secret(
                self.scalar(),
                device_public_bytes@,
            ),
            forall|other: Seq<u8>| #[trigger]
                p256_public_key(other) == Some(device_public_bytes@) ==> (r matches Ok(shared)
                    && shared@ == p256_shared_secret(other, p256_public_key(self.scalar())->0)),
            r matches Err(e) ==> (e matches RecorderError::CryptoError(detail) && detail@
                == "invalid device public key: "@ + "crypto error"@),
    {
        proof {
            use_type_invariant(&self.secret);
        }
        match diffie_hellman(&self.secret.bytes, device_public_bytes) {
            Ok(shared) => Ok(shared),
            Err(e) => {
                let mut detail: String = text_of("invalid device public key: ");
                let cause: String = curve_error_text(&e);
                detail.append(cause.as_str());
                Err(RecorderError::CryptoError(detail))
            },
        }
    }
}

// ---------- HKDF session key derivation ----------
/// Derives the session key from the shared secret.
pub fn derive_session_key(shared_secret: &[u8]) -> (r: [u8; 32])
    ensures
        r@ == session_key_of(shared_secret@),
        r@ == hkdf_sha256_key(seq![1u8, 2u8, 3u8], shared_secret@, seq![1u8, 2u8, 3u8]),
{
    proof {
        law_session_key_material(shared_secret@);
    }
    hkdf_sha256(&HKDF_SALT, shared_secret, &HKDF_INFO)
}

// ---------- File key decryption ----------
/// Takes the file key out of the plaintext of a file header: the magic `soundcored3200`, then 32
/// bytes of key.
pub fn file_key_from_plaintext(plain: &[u8; 46]) -> (r: Result<[u8; 32], RecorderError>)
    ensures
        r is Ok <==> file_key_in(plain@) is Some,
        r matches Ok(key) ==> Some(key@) == file_key_in(plain@),
        r matches Err(e) ==> (e matches RecorderError::CryptoError(detail) && detail@
            == "invalid file key: missing 'soundcored3200' magic header"@),
{
    let found: [u8; 14] = read_array::<14>(plain, 0);
    assert(plain@.subrange(0, 14) =~= plain@.take(14));
    if !bytes_equal(&found, FILE_KEY_MAGIC) {
        return Err(
            RecorderError::CryptoError(
                text_of("invalid file key: missing 'soundcored3200' magic header"),
            ),
        );
    }
    Ok(read_array::<32>(plain, 14))
}

/// Decrypts the file key of a file header (1A07) with the session key.
pub fn decrypt_file_key(
    session_key: &[u8; 32],
    encrypted_key: &[u8; 46],
    session_nonce: &[u8; 16],
) -> (r: Result<[u8; 32], RecorderError>)
    ensures
        ({
            let plain = ctr_crypt(session_key@, session_nonce@, encrypted_key@);
            &&& r is Ok <==> file_key_in(plain) is Some
            &&& r matches Ok(key) ==> Some(key@) == file_key_in(plain)
        }),
        r matches Err(e) ==> (e matches RecorderError::CryptoError(detail) && detail@
            == "invalid file key: missing 'soundcored3200' magic header"@),
{
    let decrypted: Vec<u8> = aes256_ctr(session_key, session_nonce, encrypted_key);
    let plain: [u8; 46] = read_array::<46>(&decrypted, 0);
    assert(plain@ =~= ctr_crypt(session_key@, session_nonce@, encrypted_key@));
    file_key_from_plaintext(&plain)
}

// ---------- Chunk decryption ----------
/// The initial counter block of a slice. The last four bytes of the nonce are not used.
pub fn chunk_iv(nonce_base: &[u8; 16], sequence_number: u32) -> (r: [u8; 16])
    requires
        sequence_in_range(sequence_number as nat),
    ensures
        r@ == chunk_counter_block(nonce_base@, sequence_number as nat),
        forall|i: int| 0 <= i < 12 ==> #[trigger] r@[i] == nonce_base@[i],
        16777216 * r@[12] + 65536 * r@[13] + 256 * r@[14] + r@[15] == 10 * sequence_number,
{
    proof {
        law_chunk_counter_block(nonce_base@, sequence_number as nat);
    }
    let mut iv: [u8; 16] = *nonce_base;
    let counter: u32 = sequence_number * BLOCKS_PER_PACKET;
    let low: [u8; 4] = u32_to_be(counter);
    iv[12] = low[0];
    iv[13] = low[1];
    iv[14] = low[2];
    iv[15] = low[3];
    assert(iv@ =~= chunk_counter_block(nonce_base@, sequence_number as nat));
    iv
}

/// Decrypts the chunk of a slice with the file key, in counter mode.
///
/// A slice of 160 bytes is ten blocks, so slice N starts at block N * 10. The block number has 32
/// bits, which bounds the sequence number.
pub fn decrypt_chunk(
    file_key: &[u8; 32],
    nonce_base: &[u8; 16],
    sequence_number: u32,
    encrypted: &[u8],
) -> (r: Vec<u8>)
    requires
        sequence_in_range(sequence_number as nat),
    ensures
        r@ == chunk_plain(file_key@, nonce_base@, sequence_number as nat, encrypted@),
{
    let iv: [u8; 16] = chunk_iv(nonce_base, sequence_number);
    let output: Vec<u8> = aes256_ctr(file_key, &iv, encrypted);
    assert(output@ =~= ctr_crypt(file_key@, iv@, encrypted@));
    output
}

// ---------- Laws ----------
/// Counter mode undoes itself.
pub proof fn law_ctr_self_inverse(key: Seq<u8>, iv: Seq<u8>, data: Seq<u8>)
    ensures
        ctr_crypt(key, iv, ctr_crypt(key, iv, data)) == data,
{
    let twice = ctr_crypt(key, iv, ctr_crypt(key, iv, data));
    assert forall|i: int| 0 <= i < data.len() implies twice[i] == data[i] by {
        let d = data[i];
        let k = aes256_keystream_byte(key, counter_at(iv, i / 16), (i % 16) as nat);
        assert((d ^ k) ^ k == d) by (bit_vector);
    }
    assert(twice =~= data);
}

/// Decrypting a decrypted slice gives the slice back, and keeps its length.
pub proof fn law_chunk_self_inverse(
    file_key: Seq<u8>,
    nonce: Seq<u8>,
    sequence_number: nat,
    data: Seq<u8>,
)
    ensures
        chunk_plain(
            file_key,
            nonce,
            sequence_number,
            chunk_plain(file_key, nonce, sequence_number, data),
        ) == data,
        chunk_plain(file_key, nonce, sequence_number, data).len() == data.len(),
{
    law_ctr_self_inverse(file_key, chunk_counter_block(nonce, sequence_number), data);
}

/// Only the first twelve bytes of the nonce matter to a slice.
pub proof fn law_chunk_ignores_nonce_tail(
    file_key: Seq<u8>,
    nonce_a: Seq<u8>,
    nonce_b: Seq<u8>,
    sequence_number: nat,
    data: Seq<u8>,
)
    requires
        nonce_a.take(12) == nonce_b.take(12),
    ensures
        chunk_plain(file_key, nonce_a, sequence_number, data) == chunk_plain(
            file_key,
            nonce_b,
            sequence_number,
            data,
        ),
{
}

/// Decrypting a recording slice by slice is decrypting it as one stream: the blocks of slice
/// `sequence_number` are those that come after ten blocks for each slice before it.
pub proof fn law_chunks_form_one_stream(
    file_key: Seq<u8>,
    nonce: Seq<u8>,
    sequence_number: nat,
    recording: Seq<u8>,
)
    requires
        nonce.len() == 16,
        sequence_in_range(sequence_number),
        CHUNK_ENCRYPTED_SIZE * (sequence_number + 1) <= recording.len(),
    ensures
        ({
            let start = CHUNK_ENCRYPTED_SIZE * sequence_number;
            let end = CHUNK_ENCRYPTED_SIZE * (sequence_number + 1);
            chunk_plain(file_key, nonce, sequence_number, recording.subrange(start, end))
                == chunk_plain(file_key, nonce, 0, recording).subrange(start, end)
        }),
{
    let start = CHUNK_ENCRYPTED_SIZE * sequence_number;
    let end = CHUNK_ENCRYPTED_SIZE * (sequence_number + 1);
    let first_block = sequence_number * BLOCKS_PER_PACKET as nat;
    let head = nonce.take(12);
    let own = chunk_counter_block(nonce, sequence_number);
    let zero = chunk_counter_block(nonce, 0);
    crate::bytes::lemma_byte_ranges();
    crate::bytes::lemma_be_roundtrip(first_block, 4);
    crate::bytes::lemma_be_roundtrip(0, 4);
    crate::bytes::lemma_be_value_concat(head, be_bytes(first_block, 4));
    crate::bytes::lemma_be_value_concat(head, be_bytes(0, 4));
    assert(be_value(own) == be_value(zero) + first_block);
    let lhs = chunk_plain(file_key, nonce, sequence_number, recording.subrange(start, end));
    let rhs = chunk_plain(file_key, nonce, 0, recording).subrange(start, end);
    assert forall|i: int| 0 <= i < lhs.len() implies lhs[i] == rhs[i] by {
        assert((start + i) / 16 == first_block + i / 16);
        assert((start + i) % 16 == i % 16);
        assert(counter_at(own, i / 16) == counter_at(zero, (start + i) / 16));
    }
    assert(lhs =~= rhs);
}

/// A file key that was put behind the magic and encrypted with the session key is what the holder
/// of the session key finds.
pub proof fn law_file_key_roundtrip(
    session_key: Seq<u8>,
    session_nonce: Seq<u8>,
    file_key: Seq<u8>,
)
    requires
        file_key.len() == 32,
    ensures
        ({
            let encrypted = ctr_crypt(session_key, session_nonce, FILE_KEY_MAGIC@ + file_key);
            file_key_in(ctr_crypt(session_key, session_nonce, encrypted)) == Some(file_key)
        }),
{
    let plain = FILE_KEY_MAGIC@ + file_key;
    law_ctr_self_inverse(session_key, session_nonce, plain);
    assert(plain.take(14) =~= FILE_KEY_MAGIC@);
    assert(plain.subrange(14, 46) =~= file_key);
}

/// The counter block of slice `n` has the nonce's bytes in its first twelve places, each at the
/// place that it has in the nonce, and the number `10 * n` in its last four, in big-endian order.
pub proof fn law_chunk_counter_block(nonce: Seq<u8>, n: nat)
    requires
        nonce.len() == 16,
        10 * n <= u32::MAX,
    ensures
        ({
            let block = chunk_counter_block(nonce, n);
            &&& block.len() == 16
            &&& forall|i: int| 0 <= i < 12 ==> #[trigger] block[i] == nonce[i]
            &&& 16777216 * block[12] + 65536 * block[13] + 256 * block[14] + block[15] == 10 * n
        }),
{
    let block = chunk_counter_block(nonce, n);
    let low = be_bytes(10 * n, 4);
    crate::bytes::lemma_byte_ranges();
    crate::bytes::lemma_be_roundtrip(10 * n, 4);
    crate::bytes::law_be_value_field(low);
    assert(block[12] == low[0]);
    assert(block[13] == low[1]);
    assert(block[14] == low[2]);
    assert(block[15] == low[3]);
}

/// Counter mode changes each byte by itself: byte `i` is added, bit by bit, to byte `i % 16` of the
/// encryption of the counter block plus `i / 16`, a 128-bit big-endian number that wraps around.
pub proof fn law_ctr_byte_by_byte(key: Seq<u8>, iv: Seq<u8>, data: Seq<u8>, i: int)
    requires
        0 <= i < data.len(),
    ensures
        ctr_crypt(key, iv, data).len() == data.len(),
        ctr_crypt(key, iv, data)[i] == data[i] ^ aes256_keystream_byte(
            key,
            ((be_value(iv) + i / 16) % 0x1_0000_0000_0000_0000_0000_0000_0000_0000int) as nat,
            (i % 16) as nat,
        ),
{
    reveal_with_fuel(byte_range, 17);
    assert(byte_range(16) == 0x1_0000_0000_0000_0000_0000_0000_0000_0000int);
}

/// A slice is decrypted under the file key: byte `i` of slice `n` meets byte `i % 16` of the block
/// whose counter begins with twelve bytes of the nonce and ends with `10 * n + i / 16`, as long as
/// that number fits in 32 bits.
pub proof fn law_chunk_byte_by_byte(
    file_key: Seq<u8>,
    nonce: Seq<u8>,
    n: nat,
    data: Seq<u8>,
    i: int,
    counter: Seq<u8>,
)
    requires
        nonce.len() == 16,
        0 <= i < data.len(),
        10 * n + i / 16 <= u32::MAX,
        counter.len() == 16,
        forall|j: int| 0 <= j < 12 ==> #[trigger] counter[j] == nonce[j],
        16777216 * counter[12] + 65536 * counter[13] + 256 * counter[14] + counter[15] == 10 * n
            + i / 16,
    ensures
        chunk_plain(file_key, nonce, n, data).len() == data.len(),
        chunk_plain(file_key, nonce, n, data)[i] == data[i] ^ aes256_keystream_byte(
            file_key,
            be_value(counter),
            (i % 16) as nat,
        ),
{
    let block = chunk_counter_block(nonce, n);
    let head = nonce.take(12);
    let tail = counter.skip(12);
    let low = block.skip(12);
    law_chunk_counter_block(nonce, n);
    law_ctr_byte_by_byte(file_key, block, data, i);
    assert(counter =~= head + tail);
    assert(block =~= head + low);
    crate::bytes::lemma_be_value_concat(head, tail);
    crate::bytes::lemma_be_value_concat(head, low);
    crate::bytes::law_be_value_field(tail);
    crate::bytes::law_be_value_field(low);
    assert(be_value(counter) == be_value(block) + i / 16);
    crate::bytes::lemma_be_value_range(counter);
    assert(byte_range(16) == 0x1_0000_0000_0000_0000_0000_0000_0000_0000int) by {
        reveal_with_fuel(byte_range, 17);
    }
}

/// The session key is what HKDF with SHA-256 derives from the shared secret itself, byte for byte,
/// with the bytes 1, 2, 3 as salt and again as info.
pub proof fn law_session_key_material(shared_secret: Seq<u8>)
    ensures
        session_key_of(shared_secret) == hkdf_sha256_key(
            seq![1u8, 2u8, 3u8],
            shared_secret,
            seq![1u8, 2u8, 3u8],
        ),
{
    assert(HKDF_SALT@ =~= seq![1u8, 2u8, 3u8]);
    assert(HKDF_INFO@ =~= seq![1u8, 2u8, 3u8]);
}

/// A plaintext holds a file key exactly where it begins with the letters `soundcored3200`, and the
/// key is then the 32 bytes behind them, in order.
pub proof fn law_file_key_place(plain: Seq<u8>)
    requires
        plain.len() == 46,
    ensures
        file_key_in(plain) is Some <==> plain[0] == 0x73 && plain[1] == 0x6F && plain[2] == 0x75
            && plain[3] == 0x6E && plain[4] == 0x64 && plain[5] == 0x63 && plain[6] == 0x6F
            && plain[7] == 0x72 && plain[8] == 0x65 && plain[9] == 0x64 && plain[10] == 0x33
            && plain[11] == 0x32 && plain[12] == 0x30 && plain[13] == 0x30,
        file_key_in(plain) matches Some(key) ==> key.len() == 32 && forall|i: int|
            0 <= i < 32 ==> #[trigger] key[i] == plain[14 + i],
{
    let magic = seq![
        0x73u8,
        0x6Fu8,
        0x75u8,
        0x6Eu8,
        0x64u8,
        0x63u8,
        0x6Fu8,
        0x72u8,
        0x65u8,
        0x64u8,
        0x33u8,
        0x32u8,
        0x30u8,
        0x30u8,
    ];
    assert(FILE_KEY_MAGIC@ =~= magic);
    let head = plain.take(14);
    if file_key_in(plain) is Some {
        assert(forall|i: int| 0 <= i < 14 ==> head[i] == #[trigger] magic[i]);
        assert(forall|i: int| 0 <= i < 14 ==> #[trigger] head[i] == plain[i]);
    }
    if plain[0] == 0x73 && plain[1] == 0x6F && plain[2] == 0x75 && plain[3] == 0x6E && plain[4]
        == 0x64 && plain[5] == 0x63 && plain[6] == 0x6F && plain[7] == 0x72 && plain[8] == 0x65
        && plain[9] == 0x64 && plain[10] == 0x33 && plain[11] == 0x32 && plain[12] == 0x30
        && plain[13] == 0x30 {
        assert(head =~= magic);
    }
}

/// A slice is decrypted in counter mode from its counter block on.
pub proof fn law_chunk_is_counter_mode(file_key: Seq<u8>, nonce: Seq<u8>, n: nat, data: Seq<u8>)
    ensures
        chunk_plain(file_key, nonce, n, data) == ctr_crypt(
            file_key,
            chunk_counter_block(nonce, n),
            data,
        ),
{
}

/// The number of a slice is in range exactly where ten times it fits in 32 bits.
pub proof fn law_sequence_in_range(n: nat)
    ensures
        sequence_in_range(n) <==> n <= 429496729,
{
}

} // verus!

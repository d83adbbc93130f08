use mic_rs::crypto::{
    chunk_iv, decrypt_chunk, decrypt_file_key, derive_session_key, file_key_from_plaintext,
    EcdhKeypair,
};
use mic_rs::protocol::FILE_KEY_MAGIC;
use mic_rs::RecorderError;

fn bytes(hex: &str) -> Vec<u8> {
    mic_rs::cli::parse_hex(hex).unwrap()
}

// ---------- Session key ----------

#[test]
fn session_key_of_known_secrets() {
    assert_eq!(
        derive_session_key(&[0xAB; 32]).to_vec(),
        bytes("ab6ed25beb786c931400e433d8f11865bd0e7d2f200bbaa5b56f444c42e0b570")
    );
    assert_eq!(
        derive_session_key(&[0x42]).to_vec(),
        bytes("ed3a50b7b15f8e9d6e4becb700e92c392f9e95dca5a4feb8f9d295eac98fd473")
    );
}

// ---------- File key ----------

#[test]
fn file_key_under_published_keystream() {
    let session_key: [u8; 32] =
        bytes("603deb1015ca71be2b73aef0857d77811f352c073b6108d72d9810a30914dff4")
            .try_into()
            .unwrap();
    let session_nonce: [u8; 16] = bytes("f0f1f2f3f4f5f6f7f8f9fafbfcfdfeff").try_into().unwrap();
    let keystream = bytes(
        "0bdf7df1591716335e9a8b15c860c502 5a6e699d536119065433863c8f657b94
         1bc12c9c01610d5d0d8bd6a3378e"
            .replace('\n', "")
            .as_str(),
    );
    let mut encrypted = [0u8; 46];
    for i in 0..46 {
        let plain = if i < 14 { FILE_KEY_MAGIC[i] } else { i as u8 };
        encrypted[i] = plain ^ keystream[i];
    }
    let key = decrypt_file_key(&session_key, &encrypted, &session_nonce).unwrap();
    assert_eq!(key.to_vec(), (14..46u8).collect::<Vec<u8>>());
}

#[test]
fn file_key_without_magic_is_refused() {
    let mut plain = [7u8; 46];
    plain[..14].copy_from_slice(FILE_KEY_MAGIC);
    assert_eq!(file_key_from_plaintext(&plain).unwrap(), [7u8; 32]);
    plain[13] = b'1';
    let error = file_key_from_plaintext(&plain).unwrap_err();
    assert!(matches!(error, RecorderError::CryptoError(_)));
    assert_eq!(
        error.to_string(),
        "crypto error: invalid file key: missing 'soundcored3200' magic header"
    );
}

// ---------- Chunks ----------

#[test]
fn chunk_counter_block_layout() {
    let nonce: [u8; 16] = core::array::from_fn(|i| 100 + i as u8);
    let iv = chunk_iv(&nonce, 3);
    assert_eq!(iv[..12], nonce[..12]);
    assert_eq!(iv[12..], [0, 0, 0, 30]);
    let last = chunk_iv(&nonce, 429_496_729);
    assert_eq!(last[12..], [0xFF, 0xFF, 0xFF, 0xFA]);
}

#[test]
fn chunk_keystream_values() {
    let key: [u8; 32] = core::array::from_fn(|i| i as u8);
    let nonce: [u8; 16] = core::array::from_fn(|i| 100 + i as u8);
    let plain = decrypt_chunk(&key, &nonce, 3, &[0; 160]);
    assert_eq!(plain[..16].to_vec(), bytes("305d5c1fb10a40783ddff0015c271c16"));
    assert_eq!(plain[144..].to_vec(), bytes("32507d06430e475a6f666e61ecdbe7ba"));
}

#[test]
fn chunk_counter_carries_into_nonce() {
    let key: [u8; 32] = core::array::from_fn(|i| i as u8);
    let plain = decrypt_chunk(&key, &[0xFF; 16], 429_496_729, &[0; 160]);
    // Block 6 has the counter 2^128, which wraps around to zero, and block 7 has 1.
    assert_eq!(plain[112..128].to_vec(), bytes("f05d76ae4ab99fe5a6f69b3148c2363d"));
    assert_eq!(plain[112..128], decrypt_chunk(&key, &[0; 16], 0, &[0; 32])[16..]);
}

#[test]
fn chunks_are_pieces_of_one_stream() {
    let key = [0x37u8; 32];
    let nonce = [0x91u8; 16];
    let recording: Vec<u8> = (0..800u32).map(|i| (i * 7 % 251) as u8).collect();
    let whole = decrypt_chunk(&key, &nonce, 0, &recording);
    for n in 0..5 {
        let piece = decrypt_chunk(&key, &nonce, n as u32, &recording[160 * n..160 * (n + 1)]);
        assert_eq!(piece, whole[160 * n..160 * (n + 1)]);
    }
}

// ---------- Key exchange ----------

#[test]
fn shared_secret_is_what_the_other_side_computes() {
    let keypair = EcdhKeypair::generate();
    let own_public = p256::PublicKey::from_sec1_bytes(keypair.public_key()).unwrap();
    let device = p256::SecretKey::random(&mut rand_core::OsRng);
    let theirs = p256::ecdh::diffie_hellman(device.to_nonzero_scalar(), own_public.as_affine());
    let device_public = device.public_key().to_sec1_bytes();
    let shared = keypair.derive_shared_secret(&device_public).unwrap();
    assert_eq!(shared[..], theirs.raw_secret_bytes()[..]);
}

#[test]
fn shared_secret_with_the_base_point() {
    // With the generator as the public key, the secret is the x-coordinate of one's own key.
    let keypair = EcdhKeypair::generate();
    let mut one = [0u8; 32];
    one[31] = 1;
    let generator = p256::SecretKey::from_slice(&one).unwrap().public_key().to_sec1_bytes();
    let own_x = keypair.public_key()[1..33].to_vec();
    let shared = keypair.derive_shared_secret(&generator).unwrap();
    assert_eq!(shared.to_vec(), own_x);
}

#[test]
fn compressed_public_key_is_read() {
    let keypair = EcdhKeypair::generate();
    // The generator of the curve, compressed.
    let generator =
        bytes("036b17d1f2e12c4247f8bce6e563a440f277037d812deb33a0f4a13945d898c296");
    let own_x = keypair.public_key()[1..33].to_vec();
    assert_eq!(keypair.derive_shared_secret(&generator).unwrap().to_vec(), own_x);
}

#[test]
fn bad_public_key_message() {
    let error = EcdhKeypair::generate().derive_shared_secret(&[0xFF; 65]).unwrap_err();
    assert!(matches!(error, RecorderError::CryptoError(_)));
    assert_eq!(error.to_string(), "crypto error: invalid device public key: crypto error");
}

#[test]
fn public_key_is_the_public_field() {
    let keypair = EcdhKeypair::generate();
    assert_eq!(keypair.public_key(), keypair.public_key_bytes.as_slice());
}

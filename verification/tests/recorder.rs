use mic_rs::crypto::{derive_session_key, EcdhKeypair};
use mic_rs::download::DownloadStep;
use mic_rs::protocol::{build_command, parse_file_list, recording_sizes_fit};
use mic_rs::recorder::scanned_devices;
use mic_rs::{Device, DeviceInfo, DeviceKind, Recorder, RecorderError};

fn session() -> Recorder {
    Recorder::new(DeviceKind::SoundcoreD3200)
}

/// The reply of a device that holds `secret`, to the key exchange command of the client.
fn device_reply(secret: &p256::SecretKey, request: &[u8]) -> Vec<u8> {
    let client = p256::PublicKey::from_sec1_bytes(&request[9..74]).unwrap();
    let shared = p256::ecdh::diffie_hellman(secret.to_nonzero_scalar(), client.as_affine());
    let mut reply = vec![0x09, 0xFF, 0, 0, 0x01, 0x2E, 0x01, 0, 0];
    reply.extend_from_slice(&secret.public_key().to_sec1_bytes());
    reply.extend_from_slice(shared.raw_secret_bytes());
    reply
}

/// Whether the session holds a key, seen from outside: a download can be started.
fn has_key(recorder: &Recorder) -> bool {
    recorder.start_download(1).is_ok()
}

/// The file header of a file whose key is `file_key`, for the holder of `session_key`.
fn file_header(session_key: &[u8; 32], file_key: &[u8; 32]) -> Vec<u8> {
    let mut sealed = b"soundcored3200".to_vec();
    sealed.extend_from_slice(file_key);
    let key = cipher::generic_array::GenericArray::from_slice(session_key);
    let iv = cipher::generic_array::GenericArray::from_slice(&[9u8; 16]);
    let mut cipher: ctr::Ctr128BE<aes::Aes256> = cipher::KeyIvInit::new(key, iv);
    cipher::StreamCipher::apply_keystream(&mut cipher, &mut sealed);
    let mut data = vec![0u8; 97];
    data[4] = 0x01;
    data[5] = 0x1A;
    data[6] = 0x07;
    data[33..79].copy_from_slice(&sealed);
    data[79..95].fill(9);
    data
}

// ---------- Handshake ----------

#[test]
fn honest_device_is_accepted() {
    let mut recorder = session();
    assert!(!has_key(&recorder));
    let (keypair, request) = recorder.begin_handshake();
    assert_eq!(request.len(), 75);
    assert_eq!(request[5..7], [0x2E, 0x01]);
    assert_eq!(&request[9..74], keypair.public_key());
    let device = p256::SecretKey::random(&mut rand_core::OsRng);
    let reply = device_reply(&device, &request);
    recorder.complete_handshake(keypair, &reply).unwrap();
    // The key is the one that the device derives.
    let session_key = derive_session_key(&reply[74..106]);
    let download = recorder.start_download(5).unwrap();
    let step = download.on_packet(&file_header(&session_key, &[1; 32]));
    assert!(matches!(step, Ok(DownloadStep::Continue(_, _))));
}

#[test]
fn reply_may_have_more_bytes() {
    let mut recorder = session();
    let (keypair, request) = recorder.begin_handshake();
    let device = p256::SecretKey::random(&mut rand_core::OsRng);
    let mut reply = device_reply(&device, &request);
    reply.push(0x77);
    assert!(recorder.complete_handshake(keypair, &reply).is_ok());
}

#[test]
fn device_with_another_secret_is_refused() {
    let mut recorder = session();
    let (keypair, request) = recorder.begin_handshake();
    let device = p256::SecretKey::random(&mut rand_core::OsRng);
    let mut reply = device_reply(&device, &request);
    reply[105] ^= 1;
    let error = recorder.complete_handshake(keypair, &reply).unwrap_err();
    assert_eq!(
        error.to_string(),
        "handshake failed: ECDH shared secret mismatch — device computed a different value"
    );
    assert!(!has_key(&recorder));
}

#[test]
fn short_reply_is_refused() {
    let mut recorder = session();
    let (keypair, _) = recorder.begin_handshake();
    let error = recorder.complete_handshake(keypair, &[0; 105]).unwrap_err();
    assert_eq!(
        error.to_string(),
        "handshake failed: ECDH response too short: 105 bytes (need 106)"
    );
    assert!(!has_key(&recorder));
}

#[test]
fn reply_without_a_public_key_is_refused() {
    let mut recorder = session();
    let (keypair, _) = recorder.begin_handshake();
    let error = recorder.complete_handshake(keypair, &[0xFF; 106]).unwrap_err();
    assert!(matches!(error, RecorderError::CryptoError(_)));
    assert_eq!(error.to_string(), "crypto error: invalid device public key: crypto error");
}

#[test]
fn refused_handshake_keeps_the_key() {
    let mut recorder = session();
    recorder.set_session_key([3; 32]);
    assert!(recorder.complete_handshake(EcdhKeypair::generate(), &[]).is_err());
    let download = recorder.start_download(5).unwrap();
    let step = download.on_packet(&file_header(&[3; 32], &[1; 32]));
    assert!(matches!(step, Ok(DownloadStep::Continue(_, _))));
}

#[test]
fn shared_secrets_are_compared_byte_by_byte() {
    let mut recorder = session();
    let mut theirs = [8u8; 32];
    theirs[0] = 9;
    assert!(recorder.adopt_shared_secret(&[8; 32], &theirs).is_err());
    assert!(recorder.adopt_shared_secret(&[8; 32], &[8; 31]).is_err());
    assert!(!has_key(&recorder));
    assert!(recorder.adopt_shared_secret(&[8; 32], &[8; 32]).is_ok());
    assert!(has_key(&recorder));
}

// ---------- Downloads ----------

#[test]
fn download_needs_a_session_key() {
    let mut recorder = session();
    match recorder.start_download(1) {
        Err(e) => assert_eq!(
            e.to_string(),
            "handshake failed: no session key — call handshake() first"
        ),
        Ok(_) => panic!("there is no key"),
    }
    recorder.set_session_key([0; 32]);
    assert_eq!(recorder.start_download(7).unwrap().request()[13..17], [7, 0, 0, 0]);
}

// ---------- File list ----------

fn list_reply(entries: &[(u32, u32)]) -> Vec<u8> {
    let mut data = vec![0x09, 0xFF, 0, 0, 0x01, 0x1A, 0x0E, 0, 0];
    data.extend_from_slice(&(entries.len() as u16).to_le_bytes());
    for (time, duration) in entries {
        data.extend_from_slice(&time.to_le_bytes());
        data.extend_from_slice(&duration.to_le_bytes());
    }
    data
}

#[test]
fn file_list_is_read() {
    let recorder = session();
    assert_eq!(recorder.list_files_request()[5..11], [0x1A, 0x0E, 12, 0, 0, 0]);
    let reply = list_reply(&[(100, 20_019), (200, 0)]);
    let files = recorder.list_files_reply(&reply).unwrap();
    assert_eq!(files.len(), 2);
    assert_eq!((files[0].file_id, files[0].size, files[0].duration_ms), (100, 166_000, 20_019));
    assert_eq!((files[1].file_id, files[1].size, files[1].duration_ms), (200, 0, 0));
}

#[test]
fn file_list_entries_that_are_cut_off_are_left_out() {
    let mut reply = list_reply(&[(100, 40), (200, 60)]);
    reply.truncate(26);
    assert_eq!(parse_file_list(&reply).unwrap().len(), 1);
    // More bytes than the count says are left alone.
    let mut reply = list_reply(&[(100, 40)]);
    reply.extend_from_slice(&[1; 16]);
    assert_eq!(parse_file_list(&reply).unwrap().len(), 1);
}

#[test]
fn file_list_errors() {
    let recorder = session();
    let error = recorder.list_files_reply(&[0; 6]).unwrap_err();
    assert_eq!(error.to_string(), "invalid response: invalid file list response");
    let mut reply = list_reply(&[]);
    reply[6] = 0xAB;
    let error = recorder.list_files_reply(&reply).unwrap_err();
    assert_eq!(error.to_string(), "invalid response: unexpected response: 1AAB");
    reply[5] = 0x0B;
    reply[6] = 0x0E;
    let error = recorder.list_files_reply(&reply).unwrap_err();
    assert_eq!(error.to_string(), "invalid response: unexpected response: 0B0E");
    let error = recorder.list_files_reply(&list_reply(&[])[..10]).unwrap_err();
    assert_eq!(error.to_string(), "invalid response: failed to parse file list");
}

#[test]
fn file_sizes_are_bounded() {
    // 25873296 slices of 166 bytes are the most that 32 bits can count.
    let fits = list_reply(&[(1, 25_873_296 * 20 + 19)]);
    assert!(recording_sizes_fit(&fits));
    assert_eq!(parse_file_list(&fits).unwrap()[0].size, 4_294_967_136);
    assert!(!recording_sizes_fit(&list_reply(&[(1, 25_873_297 * 20)])));
    assert!(recording_sizes_fit(&[]));
}

#[test]
fn file_sizes_matter_only_in_a_list() {
    let recorder = session();
    let mut reply = list_reply(&[(1, u32::MAX)]);
    assert!(!recorder.can_list(&reply));
    reply[6] = 0x10;
    assert!(recorder.can_list(&reply));
    let error = recorder.list_files_reply(&reply).unwrap_err();
    assert_eq!(error.to_string(), "invalid response: unexpected response: 1A10");
    assert!(recorder.can_list(&[1, 2, 3]));
    assert!(recorder.can_list(&list_reply(&[(1, 1000)])));
}

// ---------- Deletion ----------

#[test]
fn deletion_is_confirmed_by_the_flag() {
    let recorder = session();
    assert_eq!(recorder.delete_file_request(999)[5..13], [0x1A, 0x10, 14, 0, 0xE7, 3, 0, 0]);
    assert!(recorder.delete_file_reply(&[0, 0, 0, 0, 0x31, 0x1A, 0x10]).is_ok());
    let error = recorder.delete_file_reply(&[0, 0, 0, 0, 0x1C, 0x1A, 0x10]).unwrap_err();
    assert_eq!(error.to_string(), "invalid response: delete_file failed: flag=12");
    let error = recorder.delete_file_reply(&[]).unwrap_err();
    assert_eq!(error.to_string(), "invalid response: invalid delete response");
}

// ---------- The rest ----------

#[test]
fn recorder_builds_commands() {
    let packet = Recorder::build_command(0x1A, 0x07, &[1, 2, 3]);
    assert_eq!(packet, build_command(0x1A, 0x07, &[1, 2, 3]));
    assert_eq!(packet, [0x08, 0xEE, 0, 0, 0, 0x1A, 0x07, 13, 0, 1, 2, 3, 0x2A]);
}

#[test]
fn command_length_keeps_two_bytes() {
    let packet = build_command(0, 0, &vec![0; 0x1_0000]);
    assert_eq!(packet[7..9], [10, 0]);
    assert_eq!(packet.len(), 0x1_000A);
}

#[test]
fn scanned_devices_keep_their_order() {
    let found = vec![
        DeviceInfo { name: "A".to_string(), address: "1".to_string() },
        DeviceInfo { name: "B".to_string(), address: "2".to_string() },
    ];
    for filter in [None, Some(DeviceKind::SoundcoreD3200)] {
        let devices = scanned_devices(filter, found.clone());
        let shown: Vec<String> = devices.iter().map(Device::to_string).collect();
        assert_eq!(shown, ["A (1) [Soundcore D3200]", "B (2) [Soundcore D3200]"]);
    }
    assert!(scanned_devices(None, Vec::new()).is_empty());
    assert_eq!(DeviceKind::SoundcoreD3200.to_string(), "Soundcore D3200");
    assert_eq!(session().kind, DeviceKind::SoundcoreD3200);
}

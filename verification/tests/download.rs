use mic_rs::crypto::decrypt_chunk;
use mic_rs::download::{output_file_name, Download, DownloadStep, SliceReport};
use mic_rs::ogg::wrap_ogg_opus;
use mic_rs::protocol::FILE_KEY_MAGIC;
use mic_rs::RecorderError;

const SESSION_KEY: [u8; 32] = [0x51; 32];
const FILE_KEY: [u8; 32] = [0x62; 32];
const NONCE: [u8; 16] = [0x73; 16];
const SESSION_NONCE: [u8; 16] = [0x84; 16];

fn header_packet(status: u8, code: u8) -> Vec<u8> {
    let mut plain = FILE_KEY_MAGIC.to_vec();
    plain.extend_from_slice(&FILE_KEY);
    let mut data = vec![0u8; 97];
    data[4] = status;
    data[5] = 0x1A;
    data[6] = 0x07;
    data[13..17].copy_from_slice(&1_000u32.to_le_bytes());
    data[17..33].copy_from_slice(&NONCE);
    data[33..79].copy_from_slice(&encrypt_key(&plain));
    data[79..95].copy_from_slice(&SESSION_NONCE);
    data[95] = code;
    data
}

fn encrypt_key(plain: &[u8]) -> Vec<u8> {
    let key = cipher::generic_array::GenericArray::from_slice(&SESSION_KEY);
    let iv = cipher::generic_array::GenericArray::from_slice(&SESSION_NONCE);
    let mut out = plain.to_vec();
    let mut cipher: ctr::Ctr128BE<aes::Aes256> = cipher::KeyIvInit::new(key, iv);
    cipher::StreamCipher::apply_keystream(&mut cipher, &mut out);
    out
}

fn slice_packet(cmd_id: u8, slices: &[(u32, Vec<u8>)]) -> Vec<u8> {
    let mut data = vec![0x09, 0xFF, 0, 0, 0x01, 0x1A, cmd_id, 0, 0];
    for (seq, plain) in slices {
        data.extend_from_slice(&seq.to_le_bytes());
        data.push(0);
        data.extend(decrypt_chunk(&FILE_KEY, &NONCE, *seq, plain));
        data.push(0);
    }
    data
}

fn packet(cmd_type: u8, cmd_id: u8) -> Vec<u8> {
    vec![0x09, 0xFF, 0, 0, 0x01, cmd_type, cmd_id]
}

fn go_on(download: Download, data: &[u8]) -> (Download, Vec<SliceReport>) {
    assert!(download.can_take(data));
    match download.on_packet(data) {
        Ok(DownloadStep::Continue(next, reports)) => (next, reports),
        _ => panic!("the download should go on"),
    }
}

fn receiving() -> Download {
    go_on(Download::new(42, SESSION_KEY), &header_packet(0x01, 0)).0
}

fn failure(data: &[u8]) -> RecorderError {
    match Download::new(42, SESSION_KEY).on_packet(data) {
        Err(e) => e,
        Ok(_) => panic!("the download should fail"),
    }
}

#[test]
fn request_asks_for_the_file_from_its_start() {
    let request = Download::new(0x0102_0304, SESSION_KEY).request();
    assert_eq!(request[5..7], [0x1A, 0x07]);
    assert_eq!(request[9..18], [0, 0, 0, 0, 4, 3, 2, 1, 0]);
}

#[test]
fn whole_download() {
    let frames: Vec<Vec<u8>> = (0..13u8).map(|i| vec![i.wrapping_mul(19); 160]).collect();
    let mut download = receiving();
    let mut seen = Vec::new();
    for (i, pair) in frames.chunks(2).enumerate() {
        let slices: Vec<(u32, Vec<u8>)> = pair
            .iter()
            .enumerate()
            .map(|(j, frame)| (1 + 2 * i as u32 + j as u32, frame.clone()))
            .collect();
        let cmd_id = if i % 2 == 0 { 0x08 } else { 0x12 };
        let (next, reports) = go_on(download, &slice_packet(cmd_id, &slices));
        download = next;
        seen.extend(reports);
    }
    assert_eq!(seen.len(), 13);
    for (i, report) in seen.iter().enumerate() {
        assert!(report.gap.is_none());
        assert_eq!(report.progress.file_id, 42);
        assert_eq!(report.progress.bytes_received, 160 * (i as u32 + 1));
        assert_eq!(report.progress.total_bytes, 1_000);
        assert_eq!(report.progress.sequence, i as u32 + 1);
    }
    match download.on_packet(&packet(0x1A, 0x0A)) {
        Ok(DownloadStep::Complete(file)) => assert_eq!(file, wrap_ogg_opus(&frames, 42)),
        _ => panic!("the file should be complete"),
    }
}

#[test]
fn stray_packets_are_passed_over() {
    let waiting = Download::new(42, SESSION_KEY);
    let (waiting, none) = go_on(waiting, &[0x09, 0xFF]);
    assert!(none.is_empty());
    let (waiting, none) = go_on(waiting, &packet(0x1A, 0x0A));
    assert!(none.is_empty());
    let (waiting, none) = go_on(waiting, &slice_packet(0x08, &[(1, vec![1; 160])]));
    assert!(none.is_empty());
    let (running, _) = go_on(waiting, &header_packet(0x01, 0));
    let (running, none) = go_on(running, &packet(0x18, 0x08));
    assert!(none.is_empty());
    let (running, none) = go_on(running, &packet(0x1A, 0x0E));
    assert!(none.is_empty());
    let (running, none) = go_on(running, &[]);
    assert!(none.is_empty());
    match running.on_packet(&packet(0x1A, 0x0A)) {
        Ok(DownloadStep::Complete(file)) => assert_eq!(file, wrap_ogg_opus(&[], 42)),
        _ => panic!("the file should be complete"),
    }
}

#[test]
fn gaps_are_reported() {
    let plain = vec![5u8; 160];
    // No gap is reported as long as the last number is zero.
    let (download, reports) = go_on(receiving(), &slice_packet(0x08, &[(9, plain.clone())]));
    assert!(reports[0].gap.is_none());
    let slices = [(10, plain.clone()), (13, plain.clone()), (12, plain.clone())];
    let (_, reports) = go_on(download, &slice_packet(0x08, &slices));
    assert!(reports[0].gap.is_none());
    let gap = reports[1].gap.clone().unwrap();
    assert_eq!((gap.expected, gap.got), (11, 13));
    assert!(reports[2].gap.is_none());
}

#[test]
fn already_complete_file() {
    match Download::new(42, SESSION_KEY).on_packet(&header_packet(0x01, 3)) {
        Ok(DownloadStep::AlreadyComplete) => {}
        _ => panic!("the file has been fetched before"),
    }
}

#[test]
fn missing_file() {
    let error = failure(&header_packet(0x01, 1));
    assert!(matches!(error, RecorderError::FileNotExists(42)));
}

#[test]
fn other_header_codes() {
    let error = failure(&header_packet(0x01, 2));
    assert_eq!(error.to_string(), "file transfer error: file header code: LocalFileError");
    let error = failure(&header_packet(0x01, 200));
    assert_eq!(error.to_string(), "file transfer error: file header code: Unknown(200)");
}

#[test]
fn unreadable_header() {
    let error = failure(&header_packet(0x02, 0));
    assert_eq!(error.to_string(), "invalid response: failed to parse file header");
    let error = failure(&header_packet(0x01, 0)[..96]);
    assert!(matches!(error, RecorderError::InvalidResponse(_)));
}

#[test]
fn wrong_session_key() {
    let result = Download::new(42, [0x52; 32]).on_packet(&header_packet(0x01, 0));
    assert!(matches!(result, Err(RecorderError::CryptoError(_))));
}

#[test]
fn counters_bound_the_slices() {
    let mut data = slice_packet(0x08, &[(429_496_729, vec![0; 160])]);
    assert!(receiving().can_take(&data));
    data[9..13].copy_from_slice(&429_496_730u32.to_le_bytes());
    assert!(!receiving().can_take(&data));
    assert!(Download::new(42, SESSION_KEY).can_take(&data));
    data[6] = 0x0E;
    assert!(receiving().can_take(&data));
}

#[test]
fn file_name_is_the_id() {
    assert_eq!(output_file_name(1_780_722_187), "1780722187.opus");
    assert_eq!(output_file_name(0), "0.opus");
    assert_eq!(output_file_name(u32::MAX), "4294967295.opus");
}

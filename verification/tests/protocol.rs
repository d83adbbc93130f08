use mic_rs::protocol::{
    build_command, build_header, checksum, close_bt_transport, delete_file_command,
    ecdh_pubkey_command, file_header_request, file_list_request, open_bt_transport,
    parse_audio_slices, parse_ecdh_response, parse_file_header, parse_file_list, parse_response,
    FileHeaderCode, FileInfo, BLE_HEADER_MAGIC, BLE_HEADER_SIZE, BLOCKS_PER_PACKET,
    CHUNK_ENCRYPTED_SIZE, CMD_CLOSE_BT_TRANSPORT, CMD_DELETE_FILE, CMD_ENCRYPT_KEY_EXCHANGE,
    CMD_FILE_COMPLETE, CMD_FILE_HEADER, CMD_GET_ALL_FILES, CMD_OPEN_BT_TRANSPORT, CMD_TYPE_ENCRYPT,
    CMD_TYPE_FILE, FILE_HEADER_MIN_SIZE, FILE_KEY_MAGIC, SLICE_PAYLOAD_SIZE,
};

// ---------- checksum ----------

#[test]
fn checksum_empty() {
    assert_eq!(checksum(&[]), 0);
}

#[test]
fn checksum_wraps() {
    assert_eq!(checksum(&[0xFF, 0x02]), 0x01);
}

// ---------- build_header ----------

#[test]
fn header_magic_bytes() {
    let h = build_header(0x1A, 0x07);
    assert_eq!(h[0], 0x08);
    assert_eq!(h[1], 0xEE);
    assert_eq!(&h[2..5], &[0x00, 0x00, 0x00]);
    assert_eq!(h[5], 0x1A);
    assert_eq!(h[6], 0x07);
}

#[test]
fn header_length_is_7() {
    assert_eq!(build_header(0, 0).len(), BLE_HEADER_SIZE);
}

// ---------- build_command ----------

#[test]
fn command_empty_payload() {
    let cmd = build_command(0x1A, 0x02, &[]);
    // 7 header + 2 length + 0 payload + 1 checksum = 10
    assert_eq!(cmd.len(), 10);
    assert_eq!(cmd[5], 0x1A);
    assert_eq!(cmd[6], 0x02);
    // length field = 10
    assert_eq!(cmd[7], 10);
    assert_eq!(cmd[8], 0);
    // checksum is last byte
    let cs = checksum(&cmd[..cmd.len() - 1]);
    assert_eq!(*cmd.last().unwrap(), cs);
}

#[test]
fn command_with_payload() {
    let cmd = build_command(0x1A, 0x05, &[0xAA, 0xBB]);
    // 7 + 2 + 2 + 1 = 12
    assert_eq!(cmd.len(), 12);
    assert_eq!(&cmd[9..11], &[0xAA, 0xBB]);
    let cs = checksum(&cmd[..cmd.len() - 1]);
    assert_eq!(*cmd.last().unwrap(), cs);
}

#[test]
fn command_checksum_validates() {
    let cmd = build_command(0x1A, 0x07, &[0x01, 0x02, 0x03]);
    let computed = checksum(&cmd[..cmd.len() - 1]);
    assert_eq!(cmd[cmd.len() - 1], computed);
}

// ---------- file_header_request ----------

#[test]
fn file_header_request_structure() {
    let req = file_header_request(0x12345678, 0x00001000);
    // 7 header + 2 length + 9 payload(offset+fileId+flag) + 1 checksum = 19
    assert_eq!(req.len(), 19);
    assert_eq!(req[5], CMD_TYPE_FILE);
    assert_eq!(req[6], CMD_FILE_HEADER);
    // payload: offset first, then fileId, then flag
    assert_eq!(&req[9..13], &0x00001000u32.to_le_bytes()); // offset
    assert_eq!(&req[13..17], &0x12345678u32.to_le_bytes()); // fileId
    assert_eq!(req[17], 0x00); // realtime flag
}

#[test]
fn file_header_request_zero_offset() {
    let req = file_header_request(42, 0);
    assert_eq!(&req[9..13], &[0, 0, 0, 0]); // offset = 0
}

// ---------- delete_file_command ----------

#[test]
fn delete_command_structure() {
    let cmd = delete_file_command(999);
    // 7 + 2 + 4 + 1 = 14
    assert_eq!(cmd.len(), 14);
    assert_eq!(cmd[5], CMD_TYPE_FILE);
    assert_eq!(cmd[6], CMD_DELETE_FILE);
    assert_eq!(&cmd[9..13], &999u32.to_le_bytes());
}

// ---------- file_list_request ----------

#[test]
fn file_list_request_structure() {
    let cmd = file_list_request(0);
    // 7 + 2 + 2 + 1 = 12
    assert_eq!(cmd.len(), 12);
    assert_eq!(cmd[5], CMD_TYPE_FILE);
    assert_eq!(cmd[6], CMD_GET_ALL_FILES);
    assert_eq!(&cmd[9..11], &0u16.to_le_bytes());
}

// ---------- ecdh_pubkey_command ----------

#[test]
fn ecdh_command_structure() {
    let fake_pubkey = vec![0x04; 65];
    let cmd = ecdh_pubkey_command(&fake_pubkey);
    // 7 + 2 + 65 + 1 = 75
    assert_eq!(cmd.len(), 75);
    assert_eq!(cmd[5], CMD_TYPE_ENCRYPT);
    assert_eq!(cmd[6], CMD_ENCRYPT_KEY_EXCHANGE);
    assert_eq!(&cmd[9..74], &fake_pubkey[..]);
}

// ---------- open/close bt transport ----------

#[test]
fn open_bt_transport_structure() {
    let cmd = open_bt_transport();
    assert_eq!(cmd.len(), 11); // 7 + 2 + 1 + 1
    assert_eq!(cmd[5], CMD_TYPE_FILE);
    assert_eq!(cmd[6], CMD_OPEN_BT_TRANSPORT);
    assert_eq!(cmd[9], 0x00);
}

#[test]
fn close_bt_transport_structure() {
    let cmd = close_bt_transport();
    assert_eq!(cmd[6], CMD_CLOSE_BT_TRANSPORT);
}

// ---------- parse_response ----------

#[test]
fn parse_response_valid() {
    let data = [0x09, 0xFF, 0x00, 0x00, 0x31, 0x1A, 0x07, 0x00, 0x00];
    let r = parse_response(&data).unwrap();
    assert_eq!(r.cmd_type, 0x1A);
    assert_eq!(r.cmd_id, 0x07);
    assert_eq!(r.success_flag, 1);
    assert_eq!(r.type_variant, 3);
}

#[test]
fn parse_response_too_short() {
    assert!(parse_response(&[0x09, 0xFF, 0x00]).is_none());
    assert!(parse_response(&[]).is_none());
}

#[test]
fn parse_response_nibble_isolation() {
    let data = [0x09, 0xFF, 0x00, 0x00, 0xF9, 0x1A, 0x08];
    let r = parse_response(&data).unwrap();
    assert_eq!(r.success_flag, 0x09);
    assert_eq!(r.type_variant, 0x0F);
}

#[test]
fn parse_response_ignores_extra_bytes() {
    let data = [0x09, 0xFF, 0x00, 0x00, 0x01, 0x1A, 0x0A, 0xFF, 0xFF];
    let r = parse_response(&data).unwrap();
    assert_eq!(r.cmd_id, CMD_FILE_COMPLETE);
}

// ---------- FileHeaderCode ----------

#[test]
fn file_header_code_mapping() {
    assert_eq!(FileHeaderCode::from(0), FileHeaderCode::Okay);
    assert_eq!(FileHeaderCode::from(1), FileHeaderCode::FileNotExists);
    assert_eq!(FileHeaderCode::from(2), FileHeaderCode::LocalFileError);
    assert_eq!(FileHeaderCode::from(3), FileHeaderCode::AlreadyComplete);
    assert_eq!(FileHeaderCode::from(99), FileHeaderCode::Unknown(99));
}

// ---------- parse_file_header ----------

fn make_file_header_bytes(success: u8, code: u8) -> Vec<u8> {
    let mut data = vec![0u8; 97];
    data[0] = 0x09;
    data[1] = 0xFF;
    data[4] = success;
    data[5] = 0x1A;
    data[6] = 0x07;
    data[9..13].copy_from_slice(&0xDEADBEEFu32.to_le_bytes());
    data[13..17].copy_from_slice(&160_000u32.to_le_bytes());
    data[17..33].fill(0x11);
    data[33..79].fill(0x22);
    data[79..95].fill(0x33);
    data[95] = code;
    data
}

#[test]
fn parse_file_header_valid() {
    let data = make_file_header_bytes(0x01, 0x00);
    let h = parse_file_header(&data).unwrap();
    assert_eq!(h.file_id, 0xDEADBEEF);
    assert_eq!(h.size, 160_000);
    assert_eq!(h.nonce, [0x11; 16]);
    assert_eq!(h.encrypted_key, [0x22; 46]);
    assert_eq!(h.session_nonce, [0x33; 16]);
    assert_eq!(h.code, 0);
}

#[test]
fn parse_file_header_too_short() {
    assert!(parse_file_header(&[0u8; 96]).is_none());
    assert!(parse_file_header(&[]).is_none());
}

#[test]
fn parse_file_header_bad_success_flag() {
    let data = make_file_header_bytes(0x00, 0x00);
    assert!(parse_file_header(&data).is_none());
}

#[test]
fn parse_file_header_success_nibble_only() {
    let data = make_file_header_bytes(0xA1, 0x00);
    assert!(parse_file_header(&data).is_some());
}

#[test]
fn parse_file_header_error_codes() {
    for code in [0, 1, 2, 3] {
        let data = make_file_header_bytes(0x01, code);
        let h = parse_file_header(&data).unwrap();
        assert_eq!(h.code, code);
    }
}

#[test]
fn parse_file_header_extra_bytes_ok() {
    let mut data = make_file_header_bytes(0x01, 0x00);
    data.extend_from_slice(&[0xFF; 50]);
    let h = parse_file_header(&data).unwrap();
    assert_eq!(h.file_id, 0xDEADBEEF);
}

// ---------- parse_audio_slices ----------

fn make_slice_packet(slices: &[(u32, u8)]) -> Vec<u8> {
    let mut data = vec![0u8; 9];
    data[0] = 0x09;
    data[1] = 0xFF;
    data[5] = 0x1A;
    data[6] = 0x08;

    for &(seq, flags) in slices {
        let mut slice_data = vec![0u8; SLICE_PAYLOAD_SIZE];
        slice_data[0..4].copy_from_slice(&seq.to_le_bytes());
        slice_data[4] = flags;
        for i in 0..CHUNK_ENCRYPTED_SIZE {
            slice_data[5 + i] = (seq as u8).wrapping_add(i as u8);
        }
        data.extend_from_slice(&slice_data);
    }
    data
}

#[test]
fn parse_slices_empty_packet() {
    let data = vec![0u8; 9];
    assert!(parse_audio_slices(&data).is_empty());
}

#[test]
fn parse_slices_too_short_for_one() {
    let data = vec![0u8; 9 + SLICE_PAYLOAD_SIZE - 1];
    assert!(parse_audio_slices(&data).is_empty());
}

#[test]
fn parse_slices_single() {
    let data = make_slice_packet(&[(1, 0x00)]);
    let slices = parse_audio_slices(&data);
    assert_eq!(slices.len(), 1);
    assert_eq!(slices[0].sequence_number, 1);
    assert!(!slices[0].has_marker);
    assert_eq!(slices[0].encrypted_chunk.len(), CHUNK_ENCRYPTED_SIZE);
}

#[test]
fn parse_slices_multiple() {
    let data = make_slice_packet(&[(10, 0x00), (11, 0x01), (12, 0x00)]);
    let slices = parse_audio_slices(&data);
    assert_eq!(slices.len(), 3);
    assert_eq!(slices[0].sequence_number, 10);
    assert_eq!(slices[1].sequence_number, 11);
    assert_eq!(slices[2].sequence_number, 12);
}

#[test]
fn parse_slices_marker_flag() {
    let data = make_slice_packet(&[(0, 0x01), (1, 0x00), (2, 0x03)]);
    let slices = parse_audio_slices(&data);
    assert!(slices[0].has_marker);
    assert!(!slices[1].has_marker);
    assert!(slices[2].has_marker);
}

#[test]
fn parse_slices_trailing_bytes_ignored() {
    let mut data = make_slice_packet(&[(5, 0x00)]);
    data.extend_from_slice(&[0xFF; 100]);
    let slices = parse_audio_slices(&data);
    assert_eq!(slices.len(), 1);
}

#[test]
fn parse_slices_chunk_content() {
    let data = make_slice_packet(&[(7, 0x00)]);
    let slices = parse_audio_slices(&data);
    assert_eq!(slices[0].encrypted_chunk[0], 7);
    assert_eq!(slices[0].encrypted_chunk[100], 107);
}

// ---------- parse_file_list ----------

#[test]
fn parse_file_list_empty() {
    let mut data = vec![0u8; 11];
    data[9] = 0; // file_count = 0
    data[10] = 0;
    let files = parse_file_list(&data).unwrap();
    assert!(files.is_empty());
}

#[test]
fn parse_file_list_single_file() {
    let mut data = vec![0u8; 11 + 8];
    data[9] = 1; // file_count = 1
    data[10] = 0;
    // time = 1717600000
    data[11..15].copy_from_slice(&1717600000u32.to_le_bytes());
    // duration = 60000 ms (1 minute)
    data[15..19].copy_from_slice(&60000u32.to_le_bytes());
    let files = parse_file_list(&data).unwrap();
    assert_eq!(files.len(), 1);
    assert_eq!(files[0].file_id, 1717600000);
    assert_eq!(files[0].duration_ms, 60000);
    assert_eq!(files[0].size, (60000 / 20) * 166);
}

#[test]
fn parse_file_list_multiple() {
    let mut data = vec![0u8; 11 + 16];
    data[9] = 2;
    data[10] = 0;
    data[11..15].copy_from_slice(&100u32.to_le_bytes());
    data[15..19].copy_from_slice(&20000u32.to_le_bytes());
    data[19..23].copy_from_slice(&200u32.to_le_bytes());
    data[23..27].copy_from_slice(&40000u32.to_le_bytes());
    let files = parse_file_list(&data).unwrap();
    assert_eq!(files.len(), 2);
    assert_eq!(files[0].file_id, 100);
    assert_eq!(files[1].file_id, 200);
}

#[test]
fn parse_file_list_too_short() {
    assert!(parse_file_list(&[0u8; 10]).is_none());
}

// ---------- parse_ecdh_response ----------

#[test]
fn parse_ecdh_response_valid() {
    let mut data = vec![0u8; 9 + 65 + 32];
    data[9] = 0x04; // uncompressed point marker
    data[74] = 0xAB; // first byte of shared key
    let resp = parse_ecdh_response(&data).unwrap();
    assert_eq!(resp.device_pubkey.len(), 65);
    assert_eq!(resp.device_pubkey[0], 0x04);
    assert_eq!(resp.device_shared_key.len(), 32);
    assert_eq!(resp.device_shared_key[0], 0xAB);
}

#[test]
fn parse_ecdh_response_too_short() {
    assert!(parse_ecdh_response(&[0u8; 105]).is_none());
}

// ---------- FileInfo display ----------

#[test]
fn file_info_display_format() {
    let fi = FileInfo {
        file_id: 1717600000,
        size: 5 * 1024 * 1024,
        duration_ms: 125_000,
    };
    let s = fi.to_string();
    assert!(s.contains("id=1717600000"));
    assert!(s.contains("5.0MB"));
    assert!(s.contains("2:05"));
}

#[test]
fn file_info_display_zero_duration() {
    let fi = FileInfo {
        file_id: 1,
        size: 0,
        duration_ms: 0,
    };
    let s = fi.to_string();
    assert!(s.contains("0:00"));
    assert!(s.contains("0.0MB"));
}

// ---------- round-trip ----------

#[test]
fn roundtrip_build_parse_response() {
    let cmd = build_command(0x1A, 0x07, &[0xAA]);
    let r = parse_response(&cmd).unwrap();
    assert_eq!(r.cmd_type, 0x1A);
    assert_eq!(r.cmd_id, 0x07);
    assert_eq!(r.success_flag, 0);
}

// ---------- constants sanity ----------

#[test]
fn constants_consistent() {
    assert_eq!(BLE_HEADER_MAGIC, [0x08, 0xEE]);
    assert_eq!(CMD_TYPE_FILE, 0x1A);
    assert!(FILE_HEADER_MIN_SIZE > BLE_HEADER_SIZE);
    assert_eq!(SLICE_PAYLOAD_SIZE, 4 + 1 + CHUNK_ENCRYPTED_SIZE + 1);
    assert_eq!(BLOCKS_PER_PACKET, (CHUNK_ENCRYPTED_SIZE / 16) as u32);
    assert_eq!(FILE_KEY_MAGIC, b"soundcored3200");
}

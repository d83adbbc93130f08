use mic_rs::bytes::{bytes_equal, push_le, read_array, read_u16_le, read_u32_le, u32_to_be};
use mic_rs::protocol::FileHeaderCode;
use mic_rs::text::{push_decimal, push_hex_digits, push_hex_padded, push_spaces, push_two_digits};
use mic_rs::{FileInfo, RecorderError, SoundcoreError};

#[test]
fn error_messages() {
    let detail = "why".to_string();
    let errors: [(SoundcoreError, &str); 13] = [
        (RecorderError::NoAdapter, "BLE adapter not found"),
        (RecorderError::DeviceNotFound, "device not found during scan"),
        (RecorderError::ConnectionFailed(detail.clone()), "BLE connection failed: why"),
        (RecorderError::CharacteristicNotFound(detail.clone()), "GATT characteristic not found: why"),
        (RecorderError::HandshakeFailed(detail.clone()), "handshake failed: why"),
        (RecorderError::InvalidResponse(detail.clone()), "invalid response: why"),
        (RecorderError::FileTransferError(detail.clone()), "file transfer error: why"),
        (RecorderError::CryptoError(detail.clone()), "crypto error: why"),
        (RecorderError::FileNotExists(42), "file not found on device (id=42)"),
        (RecorderError::Timeout, "timeout waiting for response"),
        (RecorderError::Disconnected, "device disconnected"),
        (RecorderError::Io(detail.clone()), "IO error: why"),
        (RecorderError::Ble(detail.clone()), "BLE error: why"),
    ];
    for (error, message) in errors {
        assert_eq!(error.to_string(), message);
    }
}

#[test]
fn file_lines() {
    let line = FileInfo { file_id: 7, size: 166_000, duration_ms: 3_661_999 }.to_string();
    assert_eq!(line, "id=7 size=0.2MB duration=61:01");
    let line = FileInfo { file_id: u32::MAX, size: u32::MAX, duration_ms: u32::MAX }.to_string();
    assert_eq!(line, "id=4294967295 size=4096.0MB duration=71582:47");
}

#[test]
fn file_sizes_round_as_formatted() {
    // Halves between two tenths are at multiples of 262144 that 524288 does not divide.
    for quarter in 0..2_000u32 {
        for near in [-1i64, 0, 1] {
            let size = (quarter as i64 * 262_144 + near).max(0) as u32;
            check_size(size);
        }
    }
    let mut size: u32 = 12_345;
    for _ in 0..20_000 {
        size = size.wrapping_mul(1_664_525).wrapping_add(1_013_904_223);
        check_size(size);
    }
    check_size(u32::MAX);
}

fn check_size(size: u32) {
    let line = FileInfo { file_id: 0, size, duration_ms: 0 }.to_string();
    let expected = format!("id=0 size={:.1}MB duration=0:00", size as f64 / (1024.0 * 1024.0));
    assert_eq!(line, expected);
}

#[test]
fn header_code_names() {
    for code in [0u8, 1, 2, 3, 4, 255] {
        let shown = FileHeaderCode::from(code).to_string();
        let name = match code {
            0 => "Ok".to_string(),
            1 => "FileNotExists".to_string(),
            2 => "LocalFileError".to_string(),
            3 => "AlreadyComplete".to_string(),
            other => format!("Unknown({other})"),
        };
        assert_eq!(shown, name);
    }
}

#[test]
fn numbers_as_text() {
    for n in [0u64, 9, 10, 15, 16, 255, 256, 65_535, 65_536, 1_234_567_890, u64::MAX] {
        let mut out = String::from("x");
        push_decimal(&mut out, n);
        out.push('|');
        push_hex_padded(&mut out, n, 4);
        out.push('|');
        push_hex_digits(&mut out, n, 2);
        push_spaces(&mut out, 3);
        push_two_digits(&mut out, (n % 100) as u32);
        assert_eq!(out, format!("x{n}|{n:04X}|{:02X}   {:02}", n % 256, n % 100));
    }
}

#[test]
fn numbers_as_bytes() {
    let mut out = vec![7u8];
    push_le(&mut out, 0x0102_0304, 4);
    assert_eq!(out, [7, 4, 3, 2, 1]);
    assert_eq!(read_u32_le(&out, 1), 0x0102_0304);
    assert_eq!(read_u16_le(&out, 3), 0x0102);
    assert_eq!(read_array::<2>(&out, 2), [3, 2]);
    assert_eq!(u32_to_be(0x0102_0304), [1, 2, 3, 4]);
    assert!(bytes_equal(&[1, 2], &[1, 2]));
    assert!(!bytes_equal(&[1, 2], &[1, 3]));
    assert!(!bytes_equal(&[1, 2], &[1]));
}

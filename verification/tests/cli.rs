use mic_rs::cli::{contains_text, find_device, hex_splits, hexdump, parse_hex, query_selects, HexError};
use mic_rs::DeviceInfo;

fn device(name: &str, address: &str) -> DeviceInfo {
    DeviceInfo { name: name.to_string(), address: address.to_string() }
}

// ---------- Hexadecimal input ----------

#[test]
fn hex_of_a_command() {
    assert!(hex_splits("08EE0000001A0700000001"));
    assert_eq!(
        parse_hex("08EE0000001A0700000001").unwrap(),
        [0x08, 0xEE, 0, 0, 0, 0x1A, 0x07, 0, 0, 0, 1]
    );
}

#[test]
fn hex_spaces_and_cases() {
    assert_eq!(parse_hex(" aB c D eF ").unwrap(), [0xAB, 0xCD, 0xEF]);
    // A plus sign may stand in the place of the first digit.
    assert_eq!(parse_hex("+7").unwrap(), [7]);
}

#[test]
fn hex_errors() {
    assert_eq!(parse_hex("abc"), Err(HexError::OddLength));
    assert_eq!(parse_hex("0g"), Err(HexError::InvalidDigit));
    assert_eq!(parse_hex("-1"), Err(HexError::InvalidDigit));
    assert_eq!(HexError::OddLength.to_string(), "hex string has odd length");
    // The message is the one of the standard library for such a pair.
    let message = u8::from_str_radix("0g", 16).unwrap_err().to_string();
    assert_eq!(HexError::InvalidDigit.to_string(), message);
}

#[test]
fn hex_pairs_read_as_numbers_do() {
    for high in 0..128u8 {
        for low in 0..128u8 {
            if high == b' ' || low == b' ' {
                continue;
            }
            let pair = String::from_utf8(vec![high, low]).unwrap();
            assert!(hex_splits(&pair));
            match u8::from_str_radix(&pair, 16) {
                Ok(value) => assert_eq!(parse_hex(&pair).unwrap(), [value]),
                Err(_) => assert_eq!(parse_hex(&pair), Err(HexError::InvalidDigit)),
            }
        }
    }
}

#[test]
fn hex_pairs_that_cut_a_character() {
    // Two bytes each: whole characters in pairs, and none of them a digit.
    assert!(hex_splits("éé"));
    assert_eq!(parse_hex("éé"), Err(HexError::InvalidDigit));
    assert!(!hex_splits("aéb"));
    // What comes after the first pair without a value is not looked at.
    assert!(hex_splits("zzaéb"));
    assert!(!hex_splits("00aéb"));
    // An odd length is refused before.
    assert!(hex_splits("aé"));
    assert_eq!(parse_hex("aé"), Err(HexError::OddLength));
}

#[test]
fn hex_roundtrip() {
    let data: Vec<u8> = (0..=255).collect();
    let mut text = String::new();
    for b in &data {
        text.push_str(&format!("{:02X} ", b));
    }
    assert_eq!(parse_hex(&text).unwrap(), data);
    assert_eq!(parse_hex("").unwrap(), Vec::<u8>::new());
}

// ---------- Dumps ----------

#[test]
fn dump_of_two_lines() {
    let mut data: Vec<u8> = b"Hello, recorder!".to_vec();
    data.extend_from_slice(&[0x00, 0x7F, 0x80, b'~']);
    assert_eq!(
        hexdump(&data),
        [
            "  0000  48 65 6C 6C 6F 2C 20 72 65 63 6F 72 64 65 72 21   Hello, recorder!",
            "  0010  00 7F 80 7E                                       ...~",
        ]
    );
    assert!(hexdump(&[]).is_empty());
}

#[test]
fn dump_lines_as_formatted() {
    let data: Vec<u8> = (0..70_000u32).map(|i| (i * 31 % 256) as u8).collect();
    let lines = hexdump(&data);
    let chunks: Vec<&[u8]> = data.chunks(16).collect();
    assert_eq!(lines.len(), chunks.len());
    for (i, chunk) in chunks.iter().enumerate() {
        let hex: Vec<String> = chunk.iter().map(|b| format!("{:02X}", b)).collect();
        let ascii: String = chunk
            .iter()
            .map(|b| if b.is_ascii_graphic() || *b == b' ' { *b as char } else { '.' })
            .collect();
        assert_eq!(lines[i], format!("  {:04X}  {:<48}  {}", i * 16, hex.join(" "), ascii));
    }
    assert!(lines[4096].starts_with("  10000  "));
}

// ---------- Choice of a device ----------

#[test]
fn device_by_address_or_name() {
    let devices = [
        device("Headphones", "11:22"),
        device("Soundcore D3200", "AA:BB"),
        device("soundcore d3200", "CC:DD"),
    ];
    assert_eq!(find_device(&devices, "d3200"), Some(1));
    assert_eq!(find_device(&devices, "SOUNDCORE"), Some(1));
    assert_eq!(find_device(&devices, "CC:DD"), Some(2));
    assert_eq!(find_device(&devices, "cc:dd"), None);
    assert_eq!(find_device(&devices, "phones"), Some(0));
    assert_eq!(find_device(&devices, "D3300"), None);
    assert_eq!(find_device(&devices, ""), Some(0));
    assert_eq!(find_device(&[], ""), None);
}

#[test]
fn device_names_beyond_ascii() {
    let devices = [device("ÄRZTE-Rekorder", "1")];
    assert_eq!(find_device(&devices, "ärzte"), Some(0));
    assert_eq!(find_device(&devices, "zTE-r"), Some(0));
}

#[test]
fn query_with_lower_case_given() {
    let address = "AA".to_string();
    let query = "AA".to_string();
    assert!(query_selects(&address, &query, "x", "y"));
    let other = "BB".to_string();
    assert!(query_selects(&address, &other, "xyz", "yz"));
    assert!(!query_selects(&address, &other, "xyz", "zy"));
}

#[test]
fn text_in_text() {
    for (text, part) in [
        ("abc", ""),
        ("", ""),
        ("", "a"),
        ("abc", "abc"),
        ("abc", "abcd"),
        ("aab", "ab"),
        ("abab", "ba"),
        ("häß", "ä"),
        ("häß", "h ä"),
    ] {
        assert_eq!(contains_text(text, part), text.contains(part));
    }
}

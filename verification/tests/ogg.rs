use mic_rs::crc::ogg_crc32;
use mic_rs::ogg::{ogg_page, wrap_ogg_opus};

fn bytes(hex: &str) -> Vec<u8> {
    mic_rs::cli::parse_hex(hex).unwrap()
}

/// Page number, granule position, flags and packets of each page.
fn read_pages(file: &[u8]) -> Vec<(u32, u64, u8, Vec<Vec<u8>>)> {
    let mut pages = Vec::new();
    let mut at = 0;
    while at < file.len() {
        assert_eq!(&file[at..at + 4], b"OggS");
        let lacing = file[at + 26] as usize;
        let table = &file[at + 27..at + 27 + lacing];
        let body: usize = table.iter().map(|&v| v as usize).sum();
        let end = at + 27 + lacing + body;
        let mut blank = file[at..end].to_vec();
        blank[22..26].fill(0);
        assert_eq!(ogg_crc32(&blank).to_le_bytes(), file[at + 22..at + 26]);
        let mut packets = Vec::new();
        let mut packet = Vec::new();
        let mut from = at + 27 + lacing;
        for &v in table {
            packet.extend_from_slice(&file[from..from + v as usize]);
            from += v as usize;
            if v < 255 {
                packets.push(packet);
                packet = Vec::new();
            }
        }
        pages.push((
            u32::from_le_bytes(file[at + 18..at + 22].try_into().unwrap()),
            u64::from_le_bytes(file[at + 6..at + 14].try_into().unwrap()),
            file[at + 5],
            packets,
        ));
        at = end;
    }
    pages
}

// ---------- Checksum ----------

#[test]
fn crc_known_values() {
    assert_eq!(ogg_crc32(b"123456789"), 0x89A1_897F);
    assert_eq!(ogg_crc32(&[]), 0);
    assert_eq!(ogg_crc32(&[0, 0, 0, 0]), 0);
    assert_eq!(ogg_crc32(&[1]), 0x04C1_1DB7);
}

#[test]
fn crc_of_data_with_its_crc_is_zero() {
    let mut data = b"OggS and more".to_vec();
    let crc = ogg_crc32(&data);
    data.extend_from_slice(&crc.to_be_bytes());
    assert_eq!(ogg_crc32(&data), 0);
}

// ---------- Pages ----------

#[test]
fn page_bytes() {
    let page = ogg_page(0x0102_0304, 2, 1920, 4, &[&[0x0A, 0x0B], &[0x0C]]);
    assert_eq!(
        page,
        bytes("4f676753000480070000000000000403020102000000a848a1aa0202010a0b0c")
    );
}

#[test]
fn page_lacing_of_long_and_even_packets() {
    let page = ogg_page(1, 2, 3, 0, &[&[7; 255], &[8; 600], &[]]);
    assert_eq!(page[26], 6);
    assert_eq!(page[27..33], [255, 0, 255, 255, 90, 0]);
    assert_eq!(page.len(), 33 + 855);
    let pages = read_pages(&page);
    assert_eq!(pages.len(), 1);
    assert_eq!(pages[0].3, vec![vec![7; 255], vec![8; 600], vec![]]);
}

#[test]
fn page_without_packets() {
    let page = ogg_page(1, 0, 0, 0, &[]);
    assert_eq!(page.len(), 27);
    assert_eq!(page[26], 0);
}

// ---------- Files ----------

#[test]
fn file_without_frames_has_two_header_pages() {
    let mut expected = bytes(
        "4f6767530002000000000000000007000000000000009ff645aa01134f707573486561640102380180bb0000000000",
    );
    expected.extend(bytes(
        "4f6767530000000000000000000007000000010000001638eecd01164f70757354616773060000006d69632d727300000000",
    ));
    assert_eq!(wrap_ogg_opus(&[], 7), expected);
}

#[test]
fn file_pages_hold_ten_frames_each() {
    let frames: Vec<Vec<u8>> = (0..25u8).map(|i| vec![i; 160]).collect();
    let pages = read_pages(&wrap_ogg_opus(&frames, 99));
    assert_eq!(pages.len(), 5);
    assert_eq!(pages.iter().map(|p| p.0).collect::<Vec<u32>>(), [0, 1, 2, 3, 4]);
    assert_eq!(pages.iter().map(|p| p.1).collect::<Vec<u64>>(), [0, 0, 9600, 19200, 24000]);
    assert_eq!(pages.iter().map(|p| p.2).collect::<Vec<u8>>(), [2, 0, 0, 0, 4]);
    assert_eq!(pages[2].3.len(), 10);
    assert_eq!(pages[4].3.len(), 5);
}

#[test]
fn file_gives_every_frame_back() {
    let frames: Vec<Vec<u8>> = (0..20usize).map(|i| vec![i as u8; 13 * i]).collect();
    let pages = read_pages(&wrap_ogg_opus(&frames, 1));
    let audio: Vec<Vec<u8>> = pages[2..].iter().flat_map(|p| p.3.clone()).collect();
    assert_eq!(audio, frames);
    assert_eq!(pages[3].2, 4);
    assert_eq!(&pages[0].3[0][..8], b"OpusHead");
    assert_eq!(&pages[1].3[0][..8], b"OpusTags");
}

use mic_rs::crypto::decrypt_chunk;
use mic_rs::download::{Download, DownloadStep, SliceReport, Transfer};
use mic_rs::protocol::{
    build_command, file_header_request, parse_audio_slices, parse_file_header, parse_response,
};

fn slice(seq: u32, fill: u8) -> Vec<u8> {
    let mut data = seq.to_le_bytes().to_vec();
    data.push(0x01);
    data.extend_from_slice(&[fill; 160]);
    data.push(0xEE);
    data
}

fn packet(slices: &[Vec<u8>]) -> Vec<u8> {
    let mut data = vec![0x09, 0xFF, 0, 0, 0x01, 0x1A, 0x08, 0, 0];
    for s in slices {
        data.extend_from_slice(s);
    }
    data
}

fn transfer() -> Transfer {
    Transfer::new(7, 960, [0x11; 32], [0x22; 16])
}

fn shown(reports: &[SliceReport]) -> Vec<String> {
    reports.iter().map(|r| format!("{r:?}")).collect()
}

#[test]
fn slices_may_be_spread_over_packets() {
    let slices: Vec<Vec<u8>> = [(1, 5), (2, 6), (5, 7), (6, 8)].map(|(n, f)| slice(n, f)).to_vec();
    let mut at_once = transfer();
    let reports = at_once.accept_packet(&packet(&slices));
    let mut in_parts = transfer();
    let mut parts = in_parts.accept_packet(&packet(&slices[..1]));
    parts.extend(in_parts.accept_packet(&packet(&[])));
    parts.extend(in_parts.accept_packet(&packet(&slices[1..])));
    assert_eq!(shown(&reports), shown(&parts));
    assert_eq!(at_once.finish(), in_parts.finish());
    assert_eq!(reports[2].gap.clone().unwrap().expected, 3);
    assert_eq!(reports[3].progress.bytes_received, 640);
}

#[test]
fn frames_are_kept_in_order_of_arrival() {
    let mut transfer = transfer();
    transfer.accept_packet(&packet(&[slice(9, 1), slice(3, 2)]));
    let frames = [
        decrypt_chunk(&[0x11; 32], &[0x22; 16], 9, &[1; 160]),
        decrypt_chunk(&[0x11; 32], &[0x22; 16], 3, &[2; 160]),
    ];
    assert_eq!(transfer.finish(), mic_rs::ogg::wrap_ogg_opus(&frames, 7));
}

#[test]
fn appended_slice_is_read_behind_the_others() {
    let mut data = packet(&[slice(1, 1)]);
    data.extend(slice(77, 9));
    let slices = parse_audio_slices(&data);
    assert_eq!(slices.len(), 2);
    assert_eq!(slices[1].sequence_number, 77);
    assert!(slices[1].has_marker);
    assert_eq!(slices[1].encrypted_chunk, [9; 160]);
    assert!(parse_audio_slices(&[]).is_empty());
}

#[test]
fn commands_hold_their_parts() {
    for (cmd_type, cmd_id, payload) in [(0x1A, 0x07, vec![]), (0x2E, 0x01, vec![4u8; 300])] {
        let command = build_command(cmd_type, cmd_id, &payload);
        let header = parse_response(&command).unwrap();
        assert_eq!((header.cmd_type, header.cmd_id), (cmd_type, cmd_id));
        assert_eq!((header.success_flag, header.type_variant), (0, 0));
        assert_eq!(command[9..9 + payload.len()], payload);
        assert_eq!(u16::from_le_bytes([command[7], command[8]]) as usize, command.len());
    }
    assert_ne!(file_header_request(1, 2), file_header_request(2, 1));
}

#[test]
fn file_header_needs_only_the_low_half_of_the_status() {
    let mut data = vec![0u8; 97];
    for status in 0..=255u8 {
        data[4] = status;
        assert_eq!(parse_file_header(&data).is_some(), status % 16 == 1);
    }
}

#[test]
fn download_of_nothing_is_two_header_pages() {
    // A slice packet before the header means nothing to the download.
    let waiting = Download::new(7, [0; 32]);
    match waiting.on_packet(&packet(&[slice(1, 1)])) {
        Ok(DownloadStep::Continue(_, reports)) => assert!(reports.is_empty()),
        _ => panic!("the download should go on"),
    }
    assert_eq!(transfer().finish(), mic_rs::ogg::wrap_ogg_opus(&[], 7));
}

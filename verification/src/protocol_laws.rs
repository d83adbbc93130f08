//! What holds of the protocol: packets that are built and read fit together.
use vstd::prelude::*;

use crate::bytes::{
    law_le_value_fields, le_bytes, le_value, lemma_byte_ranges, lemma_le_bytes_len,
    lemma_le_roundtrip,
};
use crate::protocol::{
    audio_slices, byte_sum, checksum_of, command, file_entry, file_entry_duration,
    file_header_read_from, file_header_request_payload, file_list, file_sizes_fit,
    has_file_header, header_of, megabyte_tenths, recording_size, response_header, response_pubkey, response_shared_key,
    slice_at, slice_count, slice_views, AudioSlice, AudioSliceView, FileHeader, FileHeaderCode,
    FileInfo, ResponseHeader, BLE_HEADER_MAGIC, BLE_HEADER_SIZE, BLOCKS_PER_PACKET,
    CHUNK_ENCRYPTED_SIZE, CMD_AUTH_REQUEST, CMD_BINDING_CONFIRM, CMD_BINDING_REQUEST,
    CMD_CLOSE_BT_TRANSPORT, CMD_DELETE_FILE, CMD_ENCRYPT_KEY_EXCHANGE, CMD_FILE_COMPLETE,
    CMD_FILE_HEADER, CMD_FILE_SLICE, CMD_FILE_SLICE_SUPPL, CMD_GET_ALL_FILES,
    CMD_OPEN_BT_TRANSPORT, CMD_RECORD_CONTROL, CMD_SWITCH_TO_BLE, CMD_TYPE_AUDIO,
    CMD_TYPE_BINDING, CMD_TYPE_ENCRYPT, CMD_TYPE_FILE, CMD_TYPE_FILE_WITH_END_TIME,
    CMD_WIFI_CLOSE, CMD_WIFI_CONFIG, COMMAND_QUEUE_MAX, ECDH_RESPONSE_SIZE, FILE_HEADER_MIN_SIZE,
    HKDF_INFO, HKDF_SALT, PROGRESS_UPDATE_INTERVAL_MS, SLICE_PAYLOAD_SIZE,
};
use crate::text::{decimal, digit_char, two_digits};
use vstd::std_specs::convert::FromSpec;

verus! {

// ---------- Commands ----------
/// A command is ten bytes longer than its payload, and its length field says so, modulo 65536.
pub proof fn law_command_length(cmd_type: u8, cmd_id: u8, payload: Seq<u8>)
    ensures
        command(cmd_type, cmd_id, payload).len() == payload.len() + 10,
        le_value(command(cmd_type, cmd_id, payload).subrange(7, 9)) == (payload.len() + 10)
            % 0x1_0000,
{
    let total = payload.len() + 10;
    let packet = command(cmd_type, cmd_id, payload);
    lemma_le_bytes_len(total, 2);
    assert(packet.subrange(7, 9) =~= le_bytes(total, 2));
    assert(le_bytes(total, 2) =~= le_bytes(total % 0x1_0000, 2)) by {
        reveal_with_fuel(le_bytes, 3);
    }
    lemma_byte_ranges();
    lemma_le_roundtrip(total % 0x1_0000, 2);
}

/// The last byte of a command is the checksum of the bytes before it.
pub proof fn law_command_checksum(cmd_type: u8, cmd_id: u8, payload: Seq<u8>)
    ensures
        command(cmd_type, cmd_id, payload).last() == checksum_of(
            command(cmd_type, cmd_id, payload).drop_last(),
        ),
{
    let framed = header_of(cmd_type, cmd_id) + le_bytes(payload.len() + 10, 2) + payload;
    assert(command(cmd_type, cmd_id, payload).drop_last() =~= framed);
}

/// The payload of a command stands behind its header and length, unchanged.
pub proof fn law_command_payload(cmd_type: u8, cmd_id: u8, payload: Seq<u8>)
    ensures
        command(cmd_type, cmd_id, payload).subrange(9, 9 + payload.len() as int) == payload,
{
    lemma_le_bytes_len(payload.len() + 10, 2);
    assert(command(cmd_type, cmd_id, payload).subrange(9, 9 + payload.len() as int) =~= payload);
}

/// A command, read as a reply, names its own group and id, with a status of zero.
pub proof fn law_command_header_roundtrip(cmd_type: u8, cmd_id: u8, payload: Seq<u8>)
    ensures
        response_header(command(cmd_type, cmd_id, payload)) == Some(
            ResponseHeader { cmd_type, cmd_id, success_flag: 0, type_variant: 0 },
        ),
{
    lemma_le_bytes_len(payload.len() + 10, 2);
}

/// Different commands are different packets.
pub proof fn law_commands_differ(
    type_a: u8,
    id_a: u8,
    payload_a: Seq<u8>,
    type_b: u8,
    id_b: u8,
    payload_b: Seq<u8>,
)
    requires
        command(type_a, id_a, payload_a) == command(type_b, id_b, payload_b),
    ensures
        type_a == type_b,
        id_a == id_b,
        payload_a == payload_b,
{
    law_command_header_roundtrip(type_a, id_a, payload_a);
    law_command_header_roundtrip(type_b, id_b, payload_b);
    law_command_length(type_a, id_a, payload_a);
    law_command_length(type_b, id_b, payload_b);
    law_command_payload(type_a, id_a, payload_a);
    law_command_payload(type_b, id_b, payload_b);
}

/// The offset and the file id of a header request are read back from its payload.
pub proof fn law_file_header_request_roundtrip(file_id: u32, offset: u32)
    ensures
        ({
            let payload = file_header_request_payload(file_id, offset);
            &&& payload.len() == 9
            &&& le_value(payload.subrange(0, 4)) == offset
            &&& le_value(payload.subrange(4, 8)) == file_id
            &&& payload[8] == 0
        }),
{
    let payload = file_header_request_payload(file_id, offset);
    lemma_byte_ranges();
    lemma_le_roundtrip(offset as nat, 4);
    lemma_le_roundtrip(file_id as nat, 4);
    assert(payload.subrange(0, 4) =~= le_bytes(offset as nat, 4));
    assert(payload.subrange(4, 8) =~= le_bytes(file_id as nat, 4));
}

// ---------- Replies ----------
/// What follows the header of a reply does not change it.
pub proof fn law_response_ignores_extra_bytes(data: Seq<u8>, extra: Seq<u8>)
    requires
        response_header(data) is Some,
    ensures
        response_header(data + extra) == response_header(data),
{
}

/// What follows a file header does not change it.
pub proof fn law_file_header_ignores_extra_bytes(h: FileHeader, data: Seq<u8>, extra: Seq<u8>)
    requires
        has_file_header(data),
    ensures
        has_file_header(data + extra),
        file_header_read_from(h, data + extra) == file_header_read_from(h, data),
{
    let longer = data + extra;
    assert(longer.subrange(9, 13) =~= data.subrange(9, 13));
    assert(longer.subrange(13, 17) =~= data.subrange(13, 17));
    assert(longer.subrange(17, 33) =~= data.subrange(17, 33));
    assert(longer.subrange(33, 79) =~= data.subrange(33, 79));
    assert(longer.subrange(79, 95) =~= data.subrange(79, 95));
}

/// Of the status byte of a file header, only the low half matters.
pub proof fn law_file_header_status_low_half(data: Seq<u8>, status: u8)
    requires
        data.len() >= 5,
        status % 16 == data[4] % 16,
    ensures
        has_file_header(data.update(4, status)) == has_file_header(data),
{
}

/// One slice as the device writes it; the last byte is filler.
pub open spec fn slice_bytes(slice: AudioSliceView, flags: u8, filler: u8) -> Seq<u8> {
    le_bytes(slice.sequence_number as nat, 4) + seq![flags] + slice.encrypted_chunk + seq![filler]
}

/// What the slices of a longer packet are: those of the packet in front, then those of the bytes
/// added behind its last whole slice.
pub proof fn law_slices_concat(data: Seq<u8>, more: Seq<u8>)
    requires
        data.len() >= 9,
        (data.len() - 9) % (SLICE_PAYLOAD_SIZE as int) == 0,
    ensures
        audio_slices(data + more) == audio_slices(data) + audio_slices(data.take(9) + more),
{
    let whole = data + more;
    let behind = data.take(9) + more;
    let n = slice_count(data.len());
    assert(slice_count(whole.len()) == n + slice_count(behind.len()));
    let both = audio_slices(data) + audio_slices(behind);
    assert forall|i: int| 0 <= i < both.len() implies audio_slices(whole)[i] == both[i] by {
        let start = 9 + SLICE_PAYLOAD_SIZE * i;
        if i < n {
            assert(whole.subrange(start, start + 4) =~= data.subrange(start, start + 4));
            assert(whole.subrange(start + 5, start + 5 + CHUNK_ENCRYPTED_SIZE) =~= data.subrange(
                start + 5,
                start + 5 + CHUNK_ENCRYPTED_SIZE,
            ));
        } else {
            let from = 9 + SLICE_PAYLOAD_SIZE * (i - n);
            assert(data.len() == 9 + SLICE_PAYLOAD_SIZE * n);
            assert(start - data.len() == from - 9);
            assert(whole.subrange(start, start + 4) =~= behind.subrange(from, from + 4));
            assert(whole.subrange(start + 5, start + 5 + CHUNK_ENCRYPTED_SIZE) =~= behind.subrange(
                from + 5,
                from + 5 + CHUNK_ENCRYPTED_SIZE,
            ));
            assert(whole[start + 4] == behind[from + 4]);
            assert(both[i] == slice_at(behind, i - n));
        }
    }
    assert(audio_slices(whole) =~= both);
}

/// Bytes behind the last whole slice that do not make another one are ignored.
pub proof fn law_slices_ignore_trailing_bytes(data: Seq<u8>, extra: Seq<u8>)
    requires
        data.len() >= 9,
        (data.len() - 9) % (SLICE_PAYLOAD_SIZE as int) + extra.len() < SLICE_PAYLOAD_SIZE,
    ensures
        audio_slices(data + extra) == audio_slices(data),
{
    let whole = data + extra;
    assert(slice_count(whole.len()) == slice_count(data.len()));
    assert forall|i: int| 0 <= i < slice_count(data.len()) implies audio_slices(whole)[i]
        == audio_slices(data)[i] by {
        let start = 9 + SLICE_PAYLOAD_SIZE * i;
        assert(whole.subrange(start, start + 4) =~= data.subrange(start, start + 4));
        assert(whole.subrange(start + 5, start + 5 + CHUNK_ENCRYPTED_SIZE) =~= data.subrange(
            start + 5,
            start + 5 + CHUNK_ENCRYPTED_SIZE,
        ));
    }
    assert(audio_slices(whole) =~= audio_slices(data));
}

/// A slice that the device appends to a packet is read back behind the slices that are already
/// there.
pub proof fn law_slice_roundtrip(data: Seq<u8>, slice: AudioSliceView, flags: u8, filler: u8)
    requires
        data.len() >= 9,
        (data.len() - 9) % (SLICE_PAYLOAD_SIZE as int) == 0,
        slice.encrypted_chunk.len() == CHUNK_ENCRYPTED_SIZE,
        slice.has_marker == (flags % 2 == 1),
    ensures
        audio_slices(data + slice_bytes(slice, flags, filler)) == audio_slices(data).push(slice),
{
    let written = slice_bytes(slice, flags, filler);
    let behind = data.take(9) + written;
    lemma_byte_ranges();
    lemma_le_roundtrip(slice.sequence_number as nat, 4);
    law_slices_concat(data, written);
    assert(written.len() == SLICE_PAYLOAD_SIZE);
    assert(slice_count(behind.len()) == 1);
    assert(behind.subrange(9, 13) =~= le_bytes(slice.sequence_number as nat, 4));
    assert(behind[13] == flags);
    assert(behind.subrange(14, 174) =~= slice.encrypted_chunk);
    assert(slice_at(behind, 0) == slice);
    assert(audio_slices(behind) =~= seq![slice]);
    assert(audio_slices(data) + seq![slice] =~= audio_slices(data).push(slice));
}

/// The entries of a file list as the device writes them.
pub open spec fn file_entries_bytes(files: Seq<FileInfo>) -> Seq<u8>
    decreases files.len(),
{
    if files.len() == 0 {
        Seq::empty()
    } else {
        file_entries_bytes(files.drop_last()) + le_bytes(files.last().file_id as nat, 4)
            + le_bytes(files.last().duration_ms as nat, 4)
    }
}

proof fn lemma_file_entries(files: Seq<FileInfo>, i: int)
    requires
        0 <= i < files.len(),
    ensures
        file_entries_bytes(files).len() == 8 * files.len(),
        file_entries_bytes(files).subrange(8 * i, 8 * i + 4) == le_bytes(
            files[i].file_id as nat,
            4,
        ),
        file_entries_bytes(files).subrange(8 * i + 4, 8 * i + 8) == le_bytes(
            files[i].duration_ms as nat,
            4,
        ),
    decreases files.len(),
{
    let fewer = files.drop_last();
    let bytes = file_entries_bytes(files);
    lemma_le_bytes_len(files.last().file_id as nat, 4);
    lemma_le_bytes_len(files.last().duration_ms as nat, 4);
    if fewer.len() > 0 {
        lemma_file_entries(fewer, 0);
    } else {
        assert(file_entries_bytes(fewer).len() == 0);
    }
    if i < fewer.len() {
        lemma_file_entries(fewer, i);
        assert(bytes.subrange(8 * i, 8 * i + 4) =~= file_entries_bytes(fewer).subrange(
            8 * i,
            8 * i + 4,
        ));
        assert(bytes.subrange(8 * i + 4, 8 * i + 8) =~= file_entries_bytes(fewer).subrange(
            8 * i + 4,
            8 * i + 8,
        ));
    } else {
        assert(bytes.subrange(8 * i, 8 * i + 4) =~= le_bytes(files[i].file_id as nat, 4));
        assert(bytes.subrange(8 * i + 4, 8 * i + 8) =~= le_bytes(files[i].duration_ms as nat, 4));
    }
}

/// A file list that the device writes is read back, as long as the count fits in its two bytes and
/// every size is the one that follows from the duration. What comes behind the list is ignored.
pub proof fn law_file_list_roundtrip(header: Seq<u8>, files: Seq<FileInfo>, extra: Seq<u8>)
    requires
        header.len() == 9,
        files.len() < 0x1_0000,
        forall|i: int|
            0 <= i < files.len() ==> (#[trigger] files[i]).size == recording_size(
                files[i].duration_ms as nat,
            ),
    ensures
        file_list(header + le_bytes(files.len(), 2) + file_entries_bytes(files) + extra) == Some(
            files,
        ),
{
    let entries = file_entries_bytes(files);
    let data = header + le_bytes(files.len(), 2) + entries + extra;
    lemma_byte_ranges();
    lemma_le_roundtrip(files.len(), 2);
    assert(data.subrange(9, 11) =~= le_bytes(files.len(), 2));
    if files.len() > 0 {
        lemma_file_entries(files, 0);
    }
    assert forall|i: int| 0 <= i < files.len() implies file_entry(data, i) == files[i] by {
        lemma_file_entries(files, i);
        lemma_le_roundtrip(files[i].file_id as nat, 4);
        lemma_le_roundtrip(files[i].duration_ms as nat, 4);
        assert(data.subrange(11 + 8 * i, 15 + 8 * i) =~= entries.subrange(8 * i, 8 * i + 4));
        assert(data.subrange(15 + 8 * i, 19 + 8 * i) =~= entries.subrange(8 * i + 4, 8 * i + 8));
    }
    assert(file_list(data)->0 =~= files);
}

// ---------- Bytes on the wire ----------
/// The checksum counts every byte once: that of no bytes is zero, and each byte that follows adds
/// its own value, modulo 256.
pub proof fn law_checksum_counts_every_byte(s: Seq<u8>, b: u8)
    ensures
        checksum_of(Seq::empty()) == 0,
        checksum_of(s.push(b)) == (checksum_of(s) + b) % 256,
{
    assert(s.push(b).drop_last() =~= s);
}

/// The checksum of two byte strings side by side is the sum of theirs, modulo 256, so it does not
/// depend on their order.
pub proof fn law_checksum_adds_up(a: Seq<u8>, b: Seq<u8>)
    ensures
        checksum_of(a + b) == (checksum_of(a) + checksum_of(b)) % 256,
        checksum_of(a + b) == checksum_of(b + a),
{
    lemma_byte_sum_concat(a, b);
    lemma_byte_sum_concat(b, a);
    vstd::arithmetic::div_mod::lemma_add_mod_noop(byte_sum(a) as int, byte_sum(b) as int, 256);
}

proof fn lemma_byte_sum_concat(a: Seq<u8>, b: Seq<u8>)
    ensures
        byte_sum(a + b) == byte_sum(a) + byte_sum(b),
    decreases b.len(),
{
    if b.len() == 0 {
        assert(a + b =~= a);
    } else {
        lemma_byte_sum_concat(a, b.drop_last());
        assert((a + b).drop_last() =~= a + b.drop_last());
        assert((a + b).last() == b.last());
    }
}

/// Every byte of a command: 08 EE 00 00 00, the group, the id, the length of the whole packet in
/// two bytes with the low one first, the payload, and the checksum of all bytes before it.
pub proof fn law_command_bytes(cmd_type: u8, cmd_id: u8, payload: Seq<u8>)
    ensures
        ({
            let packet = command(cmd_type, cmd_id, payload);
            let n = payload.len();
            &&& packet.len() == n + 10
            &&& packet[0] == 0x08
            &&& packet[1] == 0xEE
            &&& packet[2] == 0
            &&& packet[3] == 0
            &&& packet[4] == 0
            &&& packet[5] == cmd_type
            &&& packet[6] == cmd_id
            &&& packet[7] == (n + 10) % 256
            &&& packet[8] == (n + 10) / 256 % 256
            &&& forall|i: int| 0 <= i < n ==> packet[9 + i] == #[trigger] payload[i]
            &&& packet[9 + n as int] == checksum_of(packet.take(9 + n as int))
        }),
{
    let packet = command(cmd_type, cmd_id, payload);
    let total = payload.len() + 10;
    lemma_le_bytes_len(total, 2);
    reveal_with_fuel(le_bytes, 3);
    assert(packet[7] == le_bytes(total, 2)[0]);
    assert(packet[8] == le_bytes(total, 2)[1]);
    assert(packet.take(9 + payload.len() as int) =~= packet.drop_last());
    law_command_checksum(cmd_type, cmd_id, payload);
}

/// The numbers that the device knows its commands, sizes and keys by.
pub proof fn law_protocol_numbers()
    ensures
        BLE_HEADER_MAGIC@ == seq![0x08u8, 0xEEu8],
        BLE_HEADER_SIZE == 7,
        CMD_TYPE_FILE == 0x1A,
        CMD_TYPE_FILE_WITH_END_TIME == 0x1B,
        CMD_TYPE_AUDIO == 0x18,
        CMD_TYPE_ENCRYPT == 0x2E,
        CMD_TYPE_BINDING == 0x0B,
        CMD_WIFI_CLOSE == 0x02,
        CMD_WIFI_CONFIG == 0x05,
        CMD_SWITCH_TO_BLE == 0x06,
        CMD_FILE_HEADER == 0x07,
        CMD_FILE_SLICE == 0x08,
        CMD_FILE_COMPLETE == 0x0A,
        CMD_GET_ALL_FILES == 0x0E,
        CMD_OPEN_BT_TRANSPORT == 0x0F,
        CMD_DELETE_FILE == 0x10,
        CMD_CLOSE_BT_TRANSPORT == 0x11,
        CMD_FILE_SLICE_SUPPL == 0x12,
        CMD_ENCRYPT_KEY_EXCHANGE == 0x01,
        CMD_BINDING_REQUEST == 0x87,
        CMD_BINDING_CONFIRM == 0x88,
        CMD_AUTH_REQUEST == 0x8B,
        CMD_RECORD_CONTROL == 0x82,
        SLICE_PAYLOAD_SIZE == 166,
        CHUNK_ENCRYPTED_SIZE == 160,
        FILE_HEADER_MIN_SIZE == 97,
        BLOCKS_PER_PACKET == 10,
        HKDF_SALT@ == seq![1u8, 2u8, 3u8],
        HKDF_INFO@ == seq![1u8, 2u8, 3u8],
        COMMAND_QUEUE_MAX == 50,
        PROGRESS_UPDATE_INTERVAL_MS == 300,
        ECDH_RESPONSE_SIZE == 106,
{
    assert(BLE_HEADER_MAGIC@ =~= seq![0x08u8, 0xEEu8]);
    assert(HKDF_SALT@ =~= seq![1u8, 2u8, 3u8]);
    assert(HKDF_INFO@ =~= seq![1u8, 2u8, 3u8]);
}

/// A reply has a header where it has seven bytes. The group and the id are its sixth and seventh
/// byte; the flag and the variant are the low and the high half of its fifth.
pub proof fn law_response_fields(data: Seq<u8>)
    ensures
        response_header(data) is Some <==> data.len() >= 7,
        response_header(data) matches Some(h) ==> {
            &&& h.cmd_type == data[5]
            &&& h.cmd_id == data[6]
            &&& h.success_flag < 16
            &&& 16 * h.type_variant + h.success_flag == data[4]
        },
{
}

/// A reply holds a file header where it has 97 bytes and the low half of its status byte is one.
/// Every field is at its place: numbers with the low byte first, the rest byte for byte.
pub proof fn law_file_header_fields(h: FileHeader, data: Seq<u8>)
    ensures
        has_file_header(data) <==> data.len() >= 97 && data[4] % 16 == 1,
        data.len() >= 97 && file_header_read_from(h, data) ==> {
            &&& h.file_id == data[9] + 256 * data[10] + 65536 * data[11] + 16777216 * data[12]
            &&& h.size == data[13] + 256 * data[14] + 65536 * data[15] + 16777216 * data[16]
            &&& forall|i: int| 0 <= i < 16 ==> #[trigger] h.nonce@[i] == data[17 + i]
            &&& forall|i: int| 0 <= i < 46 ==> #[trigger] h.encrypted_key@[i] == data[33 + i]
            &&& forall|i: int| 0 <= i < 16 ==> #[trigger] h.session_nonce@[i] == data[79 + i]
            &&& h.code == data[95]
        },
{
    law_le_value_fields(data.subrange(9, 13));
    law_le_value_fields(data.subrange(13, 17));
    if data.len() >= 97 && file_header_read_from(h, data) {
        assert(forall|i: int| 0 <= i < 16 ==> h.nonce@[i] == #[trigger] data.subrange(17, 33)[i]);
        assert(forall|i: int|
            0 <= i < 46 ==> h.encrypted_key@[i] == #[trigger] data.subrange(33, 79)[i]);
        assert(forall|i: int|
            0 <= i < 16 ==> h.session_nonce@[i] == #[trigger] data.subrange(79, 95)[i]);
        assert forall|i: int| 0 <= i < 16 implies #[trigger] h.nonce@[i] == data[17 + i] by {
            assert(data.subrange(17, 33)[i] == data[17 + i]);
        }
        assert forall|i: int| 0 <= i < 46 implies #[trigger] h.encrypted_key@[i] == data[33
            + i] by {
            assert(data.subrange(33, 79)[i] == data[33 + i]);
        }
        assert forall|i: int| 0 <= i < 16 implies #[trigger] h.session_nonce@[i] == data[79
            + i] by {
            assert(data.subrange(79, 95)[i] == data[79 + i]);
        }
    }
}

/// What each code of a file header means: zero, one, two and three have a meaning of their own, and
/// every other code is kept as a number.
pub proof fn law_header_codes(code: u8)
    ensures
        FileHeaderCode::from_spec(code) is Okay <==> code == 0,
        FileHeaderCode::from_spec(code) is FileNotExists <==> code == 1,
        FileHeaderCode::from_spec(code) is LocalFileError <==> code == 2,
        FileHeaderCode::from_spec(code) is AlreadyComplete <==> code == 3,
        code >= 4 ==> FileHeaderCode::from_spec(code) == FileHeaderCode::Unknown(code),
{
}

/// A packet holds as many slices as there are whole pieces of 166 bytes behind its first nine.
/// Of piece `i`, the first four bytes are the number, the low one first; the lowest bit of the next
/// is the marker; and the 160 after that are the chunk, byte for byte.
pub proof fn law_slice_fields(data: Seq<u8>, i: int, j: int)
    ensures
        data.len() < 9 ==> audio_slices(data).len() == 0,
        data.len() >= 9 ==> audio_slices(data).len() == (data.len() - 9) / 166,
        0 <= i < audio_slices(data).len() ==> {
            let s = audio_slices(data)[i];
            let at = 9 + 166 * i;
            &&& s.sequence_number == data[at] + 256 * data[at + 1] + 65536 * data[at + 2]
                + 16777216 * data[at + 3]
            &&& s.has_marker <==> data[at + 4] % 2 == 1
            &&& s.encrypted_chunk.len() == 160
            &&& 0 <= j < 160 ==> s.encrypted_chunk[j] == data[at + 5 + j]
        },
{
    if 0 <= i < audio_slices(data).len() {
        let at = 9 + 166 * i;
        assert(at + 166 <= data.len());
        law_le_value_fields(data.subrange(at, at + 4));
    }
}

/// What is read of a list of slices is what each of them holds.
pub proof fn law_slice_views(slices: Seq<AudioSlice>)
    ensures
        slice_views(slices).len() == slices.len(),
        forall|i: int|
            0 <= i < slices.len() ==> (#[trigger] slice_views(slices)[i]).sequence_number
                == slices[i].sequence_number && slice_views(slices)[i].has_marker
                == slices[i].has_marker && slice_views(slices)[i].encrypted_chunk
                == slices[i].encrypted_chunk@,
{
}

/// A file list needs eleven bytes. It names as many files as its count field says, or as there are
/// whole entries of eight bytes. Entry `i` is a time, which is the file's id, and a duration, each
/// with the low byte first; the size is 166 bytes for each 20 ms.
pub proof fn law_file_list_fields(data: Seq<u8>, i: int)
    requires
        file_sizes_fit(data),
    ensures
        file_list(data) is Some <==> data.len() >= 11,
        file_list(data) matches Some(files) ==> {
            let declared = data[9] + 256 * data[10];
            let present = (data.len() - 11) / 8;
            let at = 11 + 8 * i;
            &&& files.len() == if declared <= present {
                declared
            } else {
                present
            }
            &&& 0 <= i < files.len() ==> {
                &&& files[i].file_id == data[at] + 256 * data[at + 1] + 65536 * data[at + 2]
                    + 16777216 * data[at + 3]
                &&& files[i].duration_ms == data[at + 4] + 256 * data[at + 5] + 65536 * data[at + 6]
                    + 16777216 * data[at + 7]
                &&& files[i].size == files[i].duration_ms as int / 20 * 166
            }
        },
{
    if data.len() >= 11 {
        let files = file_list(data)->0;
        law_le_value_fields(data.subrange(9, 11));
        if 0 <= i < files.len() {
            let at = 11 + 8 * i;
            assert(at + 8 <= data.len());
            law_le_value_fields(data.subrange(at, at + 4));
            law_le_value_fields(data.subrange(at + 4, at + 8));
            assert(recording_size(file_entry_duration(data, i)) <= u32::MAX);
            assert(files[i] == file_entry(data, i));
        }
    }
}

/// The sizes of a file list fit exactly where no entry lasts so long that its slices, 166 bytes for
/// each 20 ms, take more than 32 bits to count.
pub proof fn law_file_sizes_fit(data: Seq<u8>)
    requires
        data.len() >= 11,
    ensures
        file_sizes_fit(data) <==> forall|i: int|
            0 <= i < data[9] + 256 * data[10] && 11 + 8 * i + 8 <= data.len() ==> #[trigger] (
            file_entry_duration(data, i)) / 20 * 166 <= 0xFFFF_FFFF,
        forall|i: int|
            0 <= i && 11 + 8 * i + 8 <= data.len() ==> #[trigger] file_entry_duration(data, i)
                == data[11 + 8 * i + 4] + 256 * data[11 + 8 * i + 5] + 65536 * data[11 + 8 * i + 6]
                + 16777216 * data[11 + 8 * i + 7],
{
    law_le_value_fields(data.subrange(9, 11));
    assert forall|i: int| 0 <= i && 11 + 8 * i + 8 <= data.len() implies #[trigger]
        file_entry_duration(data, i) == data[11 + 8 * i + 4] + 256 * data[11 + 8 * i + 5] + 65536
        * data[11 + 8 * i + 6] + 16777216 * data[11 + 8 * i + 7] by {
        law_le_value_fields(data.subrange(15 + 8 * i, 19 + 8 * i));
    }
    if file_sizes_fit(data) {
        assert forall|i: int|
            0 <= i < data[9] + 256 * data[10] && 11 + 8 * i + 8 <= data.len() implies #[trigger] (
        file_entry_duration(data, i)) / 20 * 166 <= 0xFFFF_FFFF by {
            assert(recording_size(file_entry_duration(data, i)) <= u32::MAX);
        }
    }
}

/// A size is shown to the nearest tenth of 2^20 bytes; halfway between two tenths, to the even one.
pub proof fn law_size_is_rounded(size: nat)
    ensures
        ({
            let shown = megabyte_tenths(size) * 1048576;
            &&& shown - size * 10 <= 524288
            &&& size * 10 - shown <= 524288
            &&& (shown - size * 10 == 524288 || size * 10 - shown == 524288) ==> megabyte_tenths(
                size,
            ) % 2 == 0
        }),
{
}

/// Only one tenth of 2^20 bytes is nearest to a size.
proof fn lemma_nearest_tenth(size: nat, tenths: nat)
    requires
        -524288 < tenths * 1048576 - size * 10 < 524288 || (tenths % 2 == 0 && (tenths * 1048576
            - size * 10 == 524288 || tenths * 1048576 - size * 10 == -524288)),
    ensures
        tenths == megabyte_tenths(size),
{
    law_size_is_rounded(size);
    let shown = megabyte_tenths(size);
    assert(-1048576 <= (tenths - shown) * 1048576 <= 1048576);
    if tenths == shown + 1 || shown == tenths + 1 {
        assert(tenths % 2 == 0 && shown % 2 == 0);
    }
}

/// The line of a file: whatever minutes and seconds its duration comes to, and whatever tenth of
/// 2^20 bytes its size is nearest to.
pub proof fn law_file_line(f: FileInfo, minutes: nat, seconds: nat, tenths: nat)
    requires
        seconds < 60,
        60 * minutes + seconds == f.duration_ms as nat / 1000,
        -524288 < tenths * 1048576 - f.size * 10 < 524288 || (tenths % 2 == 0 && (tenths * 1048576
            - f.size * 10 == 524288 || tenths * 1048576 - f.size * 10 == -524288)),
    ensures
        f.line() == "id="@ + decimal(f.file_id as nat) + " size="@ + decimal(tenths / 10) + "."@
            + decimal(tenths % 10) + "MB duration="@ + decimal(minutes) + ":"@ + two_digits(
            seconds,
        ),
{
    lemma_nearest_tenth(f.size as nat, tenths);
    let total = f.duration_ms as nat / 1000;
    assert(minutes == total / 60 && seconds == total % 60);
    let digit = tenths % 10;
    assert(digit < 10);
    assert(seq![digit_char(digit)] == decimal(digit));
}

/// The names of the header codes.
pub proof fn law_header_code_names(code: u8)
    ensures
        FileHeaderCode::Okay.name() == "Ok"@,
        FileHeaderCode::FileNotExists.name() == "FileNotExists"@,
        FileHeaderCode::LocalFileError.name() == "LocalFileError"@,
        FileHeaderCode::AlreadyComplete.name() == "AlreadyComplete"@,
        FileHeaderCode::Unknown(code).name() == "Unknown("@ + decimal(code as nat) + ")"@,
{
}

/// In a key exchange response the device's public key is the 65 bytes behind the first nine, and
/// the shared secret the 32 bytes after it.
pub proof fn law_key_exchange_fields(data: Seq<u8>)
    requires
        data.len() >= 106,
    ensures
        response_pubkey(data).len() == 65,
        forall|i: int| 0 <= i < 65 ==> #[trigger] response_pubkey(data)[i] == data[9 + i],
        response_shared_key(data).len() == 32,
        forall|i: int| 0 <= i < 32 ==> #[trigger] response_shared_key(data)[i] == data[74 + i],
{
}

/// The seven bytes that a command begins with.
pub proof fn law_header_bytes(cmd_type: u8, cmd_id: u8)
    ensures
        header_of(cmd_type, cmd_id).len() == 7,
        header_of(cmd_type, cmd_id)[0] == 0x08,
        header_of(cmd_type, cmd_id)[1] == 0xEE,
        header_of(cmd_type, cmd_id)[2] == 0,
        header_of(cmd_type, cmd_id)[3] == 0,
        header_of(cmd_type, cmd_id)[4] == 0,
        header_of(cmd_type, cmd_id)[5] == cmd_type,
        header_of(cmd_type, cmd_id)[6] == cmd_id,
{
}

/// A reply without room for a file count has no sizes that could fail to fit.
pub proof fn law_short_list_fits(data: Seq<u8>)
    requires
        data.len() < 11,
    ensures
        file_sizes_fit(data),
{
}

} // verus!

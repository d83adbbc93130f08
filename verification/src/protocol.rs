//! The binary protocol of the recorder: commands that go out, replies that come in.
use vstd::prelude::*;
use vstd::string::*;

use crate::bytes::{
    le_bytes, le_value, lemma_byte_ranges, lemma_le_roundtrip, push_le, read_array, read_u16_le,
    read_u32_le,
};
use crate::protocol_laws::{law_command_bytes, law_file_header_request_roundtrip};
use crate::text::{decimal, digit_char, push_decimal, push_two_digits, text_of, two_digits};

verus! {

pub const BLE_HEADER_MAGIC: [u8; 2] = [0x08, 0xEE];

pub const BLE_HEADER_SIZE: usize = 7;

// Command groups
pub const CMD_TYPE_FILE: u8 = 0x1A;

pub const CMD_TYPE_FILE_WITH_END_TIME: u8 = 0x1B;

pub const CMD_TYPE_AUDIO: u8 = 0x18;

pub const CMD_TYPE_ENCRYPT: u8 = 0x2E;

pub const CMD_TYPE_BINDING: u8 = 0x0B;

// File and transport commands (group 0x1A)
pub const CMD_WIFI_CLOSE: u8 = 0x02;

pub const CMD_WIFI_CONFIG: u8 = 0x05;

pub const CMD_SWITCH_TO_BLE: u8 = 0x06;

pub const CMD_FILE_HEADER: u8 = 0x07;

pub const CMD_FILE_SLICE: u8 = 0x08;

pub const CMD_FILE_COMPLETE: u8 = 0x0A;

pub const CMD_GET_ALL_FILES: u8 = 0x0E;

pub const CMD_OPEN_BT_TRANSPORT: u8 = 0x0F;

pub const CMD_DELETE_FILE: u8 = 0x10;

pub const CMD_CLOSE_BT_TRANSPORT: u8 = 0x11;

pub const CMD_FILE_SLICE_SUPPL: u8 = 0x12;

// Encryption commands (group 0x2E)
pub const CMD_ENCRYPT_KEY_EXCHANGE: u8 = 0x01;

// Binding commands (group 0x0B)
pub const CMD_BINDING_REQUEST: u8 = 0x87;

pub const CMD_BINDING_CONFIRM: u8 = 0x88;

pub const CMD_AUTH_REQUEST: u8 = 0x8B;

// Audio commands (group 0x18)
pub const CMD_RECORD_CONTROL: u8 = 0x82;

// Sizes
pub const SLICE_PAYLOAD_SIZE: usize = 166;

pub const CHUNK_ENCRYPTED_SIZE: usize = 160;

pub const FILE_HEADER_MIN_SIZE: usize = 97;

pub const BLOCKS_PER_PACKET: u32 = 10;

// Key derivation
pub const HKDF_SALT: [u8; 3] = [0x01, 0x02, 0x03];

pub const HKDF_INFO: [u8; 3] = [0x01, 0x02, 0x03];

/// The letters `soundcored3200`, which a decrypted file key begins with.
pub const FILE_KEY_MAGIC: &'static [u8; 14] = &[
    0x73,
    0x6F,
    0x75,
    0x6E,
    0x64,
    0x63,
    0x6F,
    0x72,
    0x65,
    0x64,
    0x33,
    0x32,
    0x30,
    0x30,
];

pub const COMMAND_QUEUE_MAX: usize = 50;

pub const PROGRESS_UPDATE_INTERVAL_MS: u64 = 300;

// ---------- Checksum ----------
/// The sum of the bytes of a byte string.
pub open spec fn byte_sum(data: Seq<u8>) -> nat
    decreases data.len(),
{
    if data.len() == 0 {
        0
    } else {
        byte_sum(data.drop_last()) + data.last() as nat
    }
}

/// The checksum of a byte string: the sum of its bytes, modulo 256.
pub open spec fn checksum_of(data: Seq<u8>) -> u8 {
    (byte_sum(data) % 256) as u8
}

/// The sum of the bytes, modulo 256.
pub fn checksum(data: &[u8]) -> (r: u8)
    ensures
        r == checksum_of(data@),
        data@.len() == 0 ==> r == 0,
        data@.len() > 0 ==> r == (checksum_of(data@.drop_last()) + data@.last()) % 256,
{
    let mut sum: u8 = 0;
    let mut i: usize = 0;
    while i < data.len()
        invariant
            i <= data@.len(),
            sum as nat == byte_sum(data@.take(i as int)) % 256,
        decreases data@.len() - i,
    {
        assert(data@.take(i + 1).drop_last() =~= data@.take(i as int));
        sum = sum.wrapping_add(data[i]);
        i += 1;
    }
    assert(data@.take(i as int) =~= data@);
    sum
}

// ---------- Packet building ----------
/// The header of a command.
pub open spec fn header_of(cmd_type: u8, cmd_id: u8) -> Seq<u8> {
    seq![0x08u8, 0xEEu8, 0u8, 0u8, 0u8, cmd_type, cmd_id]
}

/// A command packet: the header, the length of the whole packet in two bytes, the payload, and
/// the checksum of all that.
pub open spec fn command(cmd_type: u8, cmd_id: u8, payload: Seq<u8>) -> Seq<u8> {
    let framed = header_of(cmd_type, cmd_id) + le_bytes(payload.len() + 10, 2) + payload;
    framed.push(checksum_of(framed))
}

/// The seven bytes that a command begins with.
pub fn build_header(cmd_type: u8, cmd_id: u8) -> (r: [u8; 7])
    ensures
        r@ == header_of(cmd_type, cmd_id),
{
    let r: [u8; 7] = [0x08, 0xEE, 0x00, 0x00, 0x00, cmd_type, cmd_id];
    assert(r@ =~= header_of(cmd_type, cmd_id));
    r
}

/// A complete command packet, with its length field and checksum.
///
/// The layout is `[header(7)] [length(2 LE)] [payload(N)] [checksum(1)]`, and the length counts
/// the whole packet, N + 10 bytes. A length that does not fit in two bytes loses its high bytes.
pub fn build_command(cmd_type: u8, cmd_id: u8, payload: &[u8]) -> (r: Vec<u8>)
    ensures
        r@ == command(cmd_type, cmd_id, payload@),
{
    let header: [u8; 7] = build_header(cmd_type, cmd_id);
    let total: usize = payload.len() % 0x1_0000 + BLE_HEADER_SIZE + 2 + 1;
    let mut cmd: Vec<u8> = Vec::new();
    cmd.extend_from_slice(&header);
    push_le(&mut cmd, total as u64, 2);
    cmd.extend_from_slice(payload);
    proof {
        lemma_le_bytes_two(total as nat, payload@.len() + 10);
        assert(cmd@ =~= header_of(cmd_type, cmd_id) + le_bytes(payload@.len() + 10, 2) + payload@);
    }
    let sum: u8 = checksum(&cmd);
    cmd.push(sum);
    cmd
}

/// Two bytes hold a number modulo 65536.
proof fn lemma_le_bytes_two(a: nat, b: nat)
    requires
        a % 0x1_0000 == b % 0x1_0000,
    ensures
        le_bytes(a, 2) == le_bytes(b, 2),
{
    reveal_with_fuel(le_bytes, 3);
    assert(le_bytes(a, 2) =~= seq![(a % 256) as u8, (a / 256 % 256) as u8]);
    assert(le_bytes(b, 2) =~= seq![(b % 256) as u8, (b / 256 % 256) as u8]);
}

// ---------- Command builders ----------
/// The payload of a file header request: offset, file id, and a flag for an offline transfer.
pub open spec fn file_header_request_payload(file_id: u32, offset: u32) -> Seq<u8> {
    (le_bytes(offset as nat, 4) + le_bytes(file_id as nat, 4)).push(0)
}

/// Asks for the header of a file (1A07).
/// The payload is `[offset(4 LE)] [file_id(4 LE)] [realtime_flag(1)]`.
pub fn file_header_request(file_id: u32, offset: u32) -> (r: Vec<u8>)
    ensures
        r@ == command(CMD_TYPE_FILE, CMD_FILE_HEADER, file_header_request_payload(file_id, offset)),
        r@.len() == 19,
        r@[5] == 0x1A,
        r@[6] == 0x07,
        le_value(r@.subrange(9, 13)) == offset,
        le_value(r@.subrange(13, 17)) == file_id,
        r@[17] == 0,
{
    proof {
        let payload = file_header_request_payload(file_id, offset);
        law_file_header_request_roundtrip(file_id, offset);
        law_command_bytes(CMD_TYPE_FILE, CMD_FILE_HEADER, payload);
        let packet = command(CMD_TYPE_FILE, CMD_FILE_HEADER, payload);
        assert(packet.subrange(9, 13) =~= payload.subrange(0, 4));
        assert(packet.subrange(13, 17) =~= payload.subrange(4, 8));
    }
    let mut payload: Vec<u8> = Vec::new();
    push_le(&mut payload, offset as u64, 4);
    push_le(&mut payload, file_id as u64, 4);
    payload.push(0x00);
    assert(payload@ =~= file_header_request_payload(file_id, offset));
    build_command(CMD_TYPE_FILE, CMD_FILE_HEADER, &payload)
}

/// Deletes a file (1A10). The payload is `[file_id(4 LE)]`.
pub fn delete_file_command(file_id: u32) -> (r: Vec<u8>)
    ensures
        r@ == command(CMD_TYPE_FILE, CMD_DELETE_FILE, le_bytes(file_id as nat, 4)),
        r@.len() == 14,
        r@[5] == 0x1A,
        r@[6] == 0x10,
        le_value(r@.subrange(9, 13)) == file_id,
{
    proof {
        let id = le_bytes(file_id as nat, 4);
        lemma_byte_ranges();
        lemma_le_roundtrip(file_id as nat, 4);
        law_command_bytes(CMD_TYPE_FILE, CMD_DELETE_FILE, id);
        assert(command(CMD_TYPE_FILE, CMD_DELETE_FILE, id).subrange(9, 13) =~= id);
    }
    let mut payload: Vec<u8> = Vec::new();
    push_le(&mut payload, file_id as u64, 4);
    assert(payload@ =~= le_bytes(file_id as nat, 4));
    build_command(CMD_TYPE_FILE, CMD_DELETE_FILE, &payload)
}

/// Asks for a page of the file list (1A0E). The payload is `[page(2 LE)]`.
pub fn file_list_request(page: u16) -> (r: Vec<u8>)
    ensures
        r@ == command(CMD_TYPE_FILE, CMD_GET_ALL_FILES, le_bytes(page as nat, 2)),
        r@.len() == 12,
        r@[5] == 0x1A,
        r@[6] == 0x0E,
        le_value(r@.subrange(9, 11)) == page,
{
    proof {
        let field = le_bytes(page as nat, 2);
        lemma_byte_ranges();
        lemma_le_roundtrip(page as nat, 2);
        law_command_bytes(CMD_TYPE_FILE, CMD_GET_ALL_FILES, field);
        assert(command(CMD_TYPE_FILE, CMD_GET_ALL_FILES, field).subrange(9, 11) =~= field);
    }
    let mut payload: Vec<u8> = Vec::new();
    push_le(&mut payload, page as u64, 2);
    assert(payload@ =~= le_bytes(page as nat, 2));
    build_command(CMD_TYPE_FILE, CMD_GET_ALL_FILES, &payload)
}

/// Sends a public key for the key exchange (2E01): 65 bytes, uncompressed SEC1.
pub fn ecdh_pubkey_command(pubkey: &[u8]) -> (r: Vec<u8>)
    ensures
        r@ == command(CMD_TYPE_ENCRYPT, CMD_ENCRYPT_KEY_EXCHANGE, pubkey@),
        r@.len() == pubkey@.len() + 10,
        r@[5] == 0x2E,
        r@[6] == 0x01,
        forall|i: int| 0 <= i < pubkey@.len() ==> r@[9 + i] == #[trigger] pubkey@[i],
{
    proof {
        law_command_bytes(CMD_TYPE_ENCRYPT, CMD_ENCRYPT_KEY_EXCHANGE, pubkey@);
    }
    build_command(CMD_TYPE_ENCRYPT, CMD_ENCRYPT_KEY_EXCHANGE, pubkey)
}

/// Opens the transport channel (1A0F). The payload is `[platform(1)]`, zero for Android and
/// Windows.
pub fn open_bt_transport() -> (r: Vec<u8>)
    ensures
        r@ == command(CMD_TYPE_FILE, CMD_OPEN_BT_TRANSPORT, seq![0u8]),
        r@.len() == 11,
        r@[5] == 0x1A,
        r@[6] == 0x0F,
        r@[9] == 0,
{
    proof {
        law_command_bytes(CMD_TYPE_FILE, CMD_OPEN_BT_TRANSPORT, seq![0u8]);
    }
    let payload: [u8; 1] = [0x00];
    assert(payload@ =~= seq![0u8]);
    build_command(CMD_TYPE_FILE, CMD_OPEN_BT_TRANSPORT, &payload)
}

/// Closes the transport channel (1A11). The payload is `[platform(1)]`.
pub fn close_bt_transport() -> (r: Vec<u8>)
    ensures
        r@ == command(CMD_TYPE_FILE, CMD_CLOSE_BT_TRANSPORT, seq![0u8]),
        r@.len() == 11,
        r@[5] == 0x1A,
        r@[6] == 0x11,
        r@[9] == 0,
{
    proof {
        law_command_bytes(CMD_TYPE_FILE, CMD_CLOSE_BT_TRANSPORT, seq![0u8]);
    }
    let payload: [u8; 1] = [0x00];
    assert(payload@ =~= seq![0u8]);
    build_command(CMD_TYPE_FILE, CMD_CLOSE_BT_TRANSPORT, &payload)
}

// ---------- Response parsing ----------
#[derive(Debug, Clone)]
pub struct ResponseHeader {
    pub cmd_type: u8,
    pub cmd_id: u8,
    pub success_flag: u8,
    pub type_variant: u8,
}

/// The header of a reply: the command it answers, and the two halves of the status byte.
pub open spec fn response_header(data: Seq<u8>) -> Option<ResponseHeader> {
    if data.len() < BLE_HEADER_SIZE {
        None
    } else {
        Some(
            ResponseHeader {
                cmd_type: data[5],
                cmd_id: data[6],
                success_flag: data[4] % 16,
                type_variant: data[4] / 16,
            },
        )
    }
}

/// Reads the header of a reply; `None` where the reply is shorter than a header.
pub fn parse_response(data: &[u8]) -> (r: Option<ResponseHeader>)
    ensures
        r == response_header(data@),
{
    if data.len() < BLE_HEADER_SIZE {
        return None;
    }
    Some(
        ResponseHeader {
            cmd_type: data[5],
            cmd_id: data[6],
            success_flag: data[4] % 16,
            type_variant: data[4] / 16,
        },
    )
}

// ---------- File header (1A07 response) ----------
#[derive(Debug, Clone)]
pub struct FileHeader {
    pub file_id: u32,
    pub size: u32,
    pub nonce: [u8; 16],
    pub encrypted_key: [u8; 46],
    pub session_nonce: [u8; 16],
    pub code: u8,
}

#[derive(Debug, Clone, Copy, PartialEq, Eq, Structural)]
pub enum FileHeaderCode {
    /// The file follows.
    Okay,
    FileNotExists,
    LocalFileError,
    AlreadyComplete,
    Unknown(u8),
}

impl vstd::std_specs::convert::FromSpecImpl<u8> for FileHeaderCode {
    open spec fn obeys_from_spec() -> bool {
        true
    }

    open spec fn from_spec(code: u8) -> Self {
        if code == 0 {
            FileHeaderCode::Okay
        } else if code == 1 {
            FileHeaderCode::FileNotExists
        } else if code == 2 {
            FileHeaderCode::LocalFileError
        } else if code == 3 {
            FileHeaderCode::AlreadyComplete
        } else {
            FileHeaderCode::Unknown(code)
        }
    }
}

impl From<u8> for FileHeaderCode {
    fn from(code: u8) -> Self {
        match code {
            0 => Self::Okay,
            1 => Self::FileNotExists,
            2 => Self::LocalFileError,
            3 => Self::AlreadyComplete,
            other => Self::Unknown(other),
        }
    }
}

impl FileHeaderCode {
    /// The name of the code, with the number of one that is not known.
    pub open spec fn name(&self) -> Seq<char> {
        match self {
            FileHeaderCode::Okay => "Ok"@,
            FileHeaderCode::FileNotExists => "FileNotExists"@,
            FileHeaderCode::LocalFileError => "LocalFileError"@,
            FileHeaderCode::AlreadyComplete => "AlreadyComplete"@,
            FileHeaderCode::Unknown(code) => "Unknown("@ + decimal(*code as nat) + ")"@,
        }
    }

    /// The name of the code, for messages.
    pub fn to_string(&self) -> (r: String)
        ensures
            r@ == self.name(),
    {
        match self {
            FileHeaderCode::Okay => text_of("Ok"),
            FileHeaderCode::FileNotExists => text_of("FileNotExists"),
            FileHeaderCode::LocalFileError => text_of("LocalFileError"),
            FileHeaderCode::AlreadyComplete => text_of("AlreadyComplete"),
            FileHeaderCode::Unknown(code) => {
                let mut out: String = text_of("Unknown(");
                push_decimal(&mut out, *code as u64);
                out.append(")");
                out
            },
        }
    }
}

/// Whether a reply holds a file header: it is long enough and its status says success.
pub open spec fn has_file_header(data: Seq<u8>) -> bool {
    data.len() >= FILE_HEADER_MIN_SIZE && data[4] % 16 == 1
}

/// Whether the fields of `h` are those at their places in `data`.
pub open spec fn file_header_read_from(h: FileHeader, data: Seq<u8>) -> bool {
    &&& h.file_id as nat == le_value(data.subrange(9, 13))
    &&& h.size as nat == le_value(data.subrange(13, 17))
    &&& h.nonce@ == data.subrange(17, 33)
    &&& h.encrypted_key@ == data.subrange(33, 79)
    &&& h.session_nonce@ == data.subrange(79, 95)
    &&& h.code == data[95]
}

/// Reads a file header; `None` where the reply is too short or does not report success.
pub fn parse_file_header(data: &[u8]) -> (r: Option<FileHeader>)
    ensures
        r is Some <==> has_file_header(data@),
        r matches Some(h) ==> file_header_read_from(h, data@),
{
    if data.len() < FILE_HEADER_MIN_SIZE {
        return None;
    }
    let success_flag: u8 = data[4] % 16;
    if success_flag != 1 {
        return None;
    }
    Some(
        FileHeader {
            file_id: read_u32_le(data, 9),
            size: read_u32_le(data, 13),
            nonce: read_array::<16>(data, 17),
            encrypted_key: read_array::<46>(data, 33),
            session_nonce: read_array::<16>(data, 79),
            code: data[95],
        },
    )
}

// ---------- Audio slice (1A08 response) ----------
#[derive(Debug, Clone)]
pub struct AudioSlice {
    pub sequence_number: u32,
    pub has_marker: bool,
    pub encrypted_chunk: Vec<u8>,
}

/// What an audio slice holds.
pub struct AudioSliceView {
    pub sequence_number: u32,
    pub has_marker: bool,
    pub encrypted_chunk: Seq<u8>,
}

impl View for AudioSlice {
    type V = AudioSliceView;

    open spec fn view(&self) -> AudioSliceView {
        AudioSliceView {
            sequence_number: self.sequence_number,
            has_marker: self.has_marker,
            encrypted_chunk: self.encrypted_chunk@,
        }
    }
}

/// How many whole slices a packet of `len` bytes holds, after its nine bytes of header and length.
pub open spec fn slice_count(len: nat) -> nat {
    if len < 9 {
        0
    } else {
        (len - 9) as nat / SLICE_PAYLOAD_SIZE as nat
    }
}

/// Slice `i` of a packet: its number, a flag in the lowest bit of the next byte, and its chunk.
/// The last byte of a slice is not used.
pub open spec fn slice_at(data: Seq<u8>, i: int) -> AudioSliceView {
    let start = 9 + SLICE_PAYLOAD_SIZE * i;
    AudioSliceView {
        sequence_number: le_value(data.subrange(start, start + 4)) as u32,
        has_marker: data[start + 4] % 2 == 1,
        encrypted_chunk: data.subrange(start + 5, start + 5 + CHUNK_ENCRYPTED_SIZE),
    }
}

/// The slices of a packet.
pub open spec fn audio_slices(data: Seq<u8>) -> Seq<AudioSliceView> {
    Seq::new(slice_count(data.len()), |i: int| slice_at(data, i))
}

/// What each of a list of slices holds.
pub open spec fn slice_views(slices: Seq<AudioSlice>) -> Seq<AudioSliceView> {
    Seq::new(slices.len(), |i: int| slices[i]@)
}

/// Reads the slices of an audio packet. Bytes after the last whole slice are ignored.
pub fn parse_audio_slices(data: &[u8]) -> (r: Vec<AudioSlice>)
    ensures
        slice_views(r@) == audio_slices(data@),
{
    let mut slices: Vec<AudioSlice> = Vec::new();
    let len: usize = data.len();
    let mut offset: usize = 9;
    while offset <= len && len - offset >= SLICE_PAYLOAD_SIZE
        invariant
            len == data@.len(),
            offset == 9 + SLICE_PAYLOAD_SIZE * slices@.len(),
            offset <= len || slices@.len() == 0,
            forall|i: int|
                0 <= i < slices@.len() ==> (#[trigger] slices@[i])@ == slice_at(data@, i),
        decreases len + SLICE_PAYLOAD_SIZE - offset,
    {
        let sequence_number: u32 = read_u32_le(data, offset);
        let has_marker: bool = data[offset + 4] % 2 == 1;
        let encrypted_chunk: Vec<u8> = vstd::slice::slice_to_vec(
            vstd::slice::slice_subrange(data, offset + 5, offset + 5 + CHUNK_ENCRYPTED_SIZE),
        );
        slices.push(AudioSlice { sequence_number, has_marker, encrypted_chunk });
        offset = offset + SLICE_PAYLOAD_SIZE;
    }
    assert(slices@.len() == slice_count(data@.len()));
    assert(slice_views(slices@) =~= audio_slices(data@));
    slices
}

// ---------- File list (1A0E response) ----------
#[derive(Debug, Clone)]
pub struct FileInfo {
    pub file_id: u32,
    pub size: u32,
    pub duration_ms: u32,
}

/// A size in tenths of a megabyte (2^20 bytes), to the nearest tenth; halfway between two, to the
/// even one.
pub open spec fn megabyte_tenths(size: nat) -> nat {
    let whole = size * 10 / 0x10_0000;
    let left = size * 10 % 0x10_0000;
    if left > 0x8_0000 || (left == 0x8_0000 && whole % 2 == 1) {
        whole + 1
    } else {
        whole
    }
}

impl FileInfo {
    /// The line that shows a file.
    pub open spec fn line(&self) -> Seq<char> {
        let tenths = megabyte_tenths(self.size as nat);
        let seconds = self.duration_ms as nat / 1000;
        "id="@ + decimal(self.file_id as nat) + " size="@ + decimal(tenths / 10) + "."@ + seq![
            digit_char(tenths % 10),
        ] + "MB duration="@ + decimal(seconds / 60) + ":"@ + two_digits(seconds % 60)
    }

    /// The file as a line: its id, its size in megabytes with one decimal, and its duration in
    /// minutes and seconds.
    pub fn to_string(&self) -> (r: String)
        ensures
            r@ == self.line(),
    {
        let scaled: u64 = self.size as u64 * 10;
        let whole: u64 = scaled / 0x10_0000;
        let left: u64 = scaled % 0x10_0000;
        let tenths: u64 = if left > 0x8_0000 || (left == 0x8_0000 && whole % 2 == 1) {
            whole + 1
        } else {
            whole
        };
        let seconds: u32 = self.duration_ms / 1000;
        let mut out: String = text_of("id=");
        push_decimal(&mut out, self.file_id as u64);
        out.append(" size=");
        push_decimal(&mut out, tenths / 10);
        out.append(".");
        out.push((48 + (tenths % 10) as u8) as char);
        assert(out@ =~= "id="@ + decimal(self.file_id as nat) + " size="@ + decimal(
            tenths as nat / 10,
        ) + "."@ + seq![digit_char(tenths as nat % 10)]);
        out.append("MB duration=");
        push_decimal(&mut out, (seconds / 60) as u64);
        out.append(":");
        push_two_digits(&mut out, seconds % 60);
        out
    }
}

/// How many entries of a file list are there: as many as the count field says, or as fit.
pub open spec fn file_entry_count(data: Seq<u8>) -> nat {
    let declared = le_value(data.subrange(9, 11));
    let present = (data.len() - 11) as nat / 8;
    if declared <= present {
        declared
    } else {
        present
    }
}

/// The start time in entry `i` of a file list, which is the id of the file.
pub open spec fn file_entry_time(data: Seq<u8>, i: int) -> nat {
    le_value(data.subrange(11 + 8 * i, 15 + 8 * i))
}

/// The duration in milliseconds in entry `i` of a file list.
pub open spec fn file_entry_duration(data: Seq<u8>, i: int) -> nat {
    le_value(data.subrange(15 + 8 * i, 19 + 8 * i))
}

/// The size of a recording: one slice for each 20 ms.
pub open spec fn recording_size(duration_ms: nat) -> nat {
    duration_ms / 20 * SLICE_PAYLOAD_SIZE as nat
}

/// Entry `i` of a file list.
pub open spec fn file_entry(data: Seq<u8>, i: int) -> FileInfo {
    FileInfo {
        file_id: file_entry_time(data, i) as u32,
        size: recording_size(file_entry_duration(data, i)) as u32,
        duration_ms: file_entry_duration(data, i) as u32,
    }
}

/// The files that a file list names; `None` where the reply has no room for the count.
pub open spec fn file_list(data: Seq<u8>) -> Option<Seq<FileInfo>> {
    if data.len() < 11 {
        None
    } else {
        Some(Seq::new(file_entry_count(data), |i: int| file_entry(data, i)))
    }
}

/// Whether the size of every recording in a file list fits in 32 bits.
pub open spec fn file_sizes_fit(data: Seq<u8>) -> bool {
    data.len() >= 11 ==> forall|i: int|
        0 <= i < file_entry_count(data) ==> #[trigger] recording_size(file_entry_duration(data, i))
            <= u32::MAX
}

/// Tests whether the size of every recording in a file list fits in 32 bits.
pub fn recording_sizes_fit(data: &[u8]) -> (r: bool)
    ensures
        r == file_sizes_fit(data@),
{
    if data.len() < 11 {
        return true;
    }
    let count: usize = read_entry_count(data);
    let mut i: usize = 0;
    while i < count
        invariant
            i <= count,
            data@.len() >= 11,
            data@.len() <= usize::MAX,
            count as nat == file_entry_count(data@),
            11 + 8 * count <= data@.len(),
            forall|j: int|
                0 <= j < i ==> #[trigger] recording_size(file_entry_duration(data@, j)) <= u32::MAX,
        decreases count - i,
    {
        let duration: u32 = read_u32_le(data, 15 + 8 * i);
        if duration as u64 / 20 * SLICE_PAYLOAD_SIZE as u64 > u32::MAX as u64 {
            assert(recording_size(file_entry_duration(data@, i as int)) > u32::MAX);
            return false;
        }
        i += 1;
    }
    true
}

/// How many entries of a file list are there.
fn read_entry_count(data: &[u8]) -> (r: usize)
    requires
        data@.len() >= 11,
    ensures
        r as nat == file_entry_count(data@),
        11 + 8 * r <= data@.len() <= usize::MAX,
{
    let declared: usize = read_u16_le(data, 9) as usize;
    let present: usize = (data.len() - 11) / 8;
    if declared <= present {
        declared
    } else {
        present
    }
}

/// Reads a file list (1A0E).
///
/// The layout is `[header(9)] [file_count(2 LE)] [entries(N * 8)]`, and each entry is
/// `[time(4 LE)] [duration_ms(4 LE)]`. Entries that are cut off are left out. The size of each
/// recording has to fit in 32 bits, which `recording_sizes_fit` tests.
pub fn parse_file_list(data: &[u8]) -> (r: Option<Vec<FileInfo>>)
    requires
        file_sizes_fit(data@),
    ensures
        r is Some <==> file_list(data@) is Some,
        r matches Some(files) ==> files@ == file_list(data@)->0,
{
    if data.len() < 11 {
        return None;
    }
    let count: usize = read_entry_count(data);
    let mut files: Vec<FileInfo> = Vec::new();
    while files.len() < count
        invariant
            files@.len() <= count,
            data@.len() >= 11,
            data@.len() <= usize::MAX,
            count as nat == file_entry_count(data@),
            11 + 8 * count <= data@.len(),
            file_sizes_fit(data@),
            forall|j: int| 0 <= j < files@.len() ==> #[trigger] files@[j] == file_entry(data@, j),
        decreases count - files@.len(),
    {
        let at: usize = 11 + 8 * files.len();
        let time: u32 = read_u32_le(data, at);
        let duration: u32 = read_u32_le(data, at + 4);
        assert(recording_size(file_entry_duration(data@, files@.len() as int)) <= u32::MAX);
        let size: u32 = duration / 20 * SLICE_PAYLOAD_SIZE as u32;
        files.push(FileInfo { file_id: time, size, duration_ms: duration });
    }
    assert(files@ =~= file_list(data@)->0);
    Some(files)
}

// ---------- Key exchange response (2E01) ----------
pub struct EcdhResponse {
    pub device_pubkey: Vec<u8>,
    pub device_shared_key: Vec<u8>,
}

/// The length of a whole key exchange response.
pub const ECDH_RESPONSE_SIZE: usize = 106;

/// The device's public key in a key exchange response.
pub open spec fn response_pubkey(data: Seq<u8>) -> Seq<u8> {
    data.subrange(9, 74)
}

/// The shared secret that the device computed, in a key exchange response.
pub open spec fn response_shared_key(data: Seq<u8>) -> Seq<u8> {
    data.subrange(74, 106)
}

/// Reads a key exchange response (2E01); `None` where it is too short.
/// The layout is `[header(9)] [device_pubkey(65)] [device_shared_key(32)]`.
pub fn parse_ecdh_response(data: &[u8]) -> (r: Option<EcdhResponse>)
    ensures
        r is Some <==> data@.len() >= ECDH_RESPONSE_SIZE,
        r matches Some(response) ==> response.device_pubkey@ == response_pubkey(data@)
            && response.device_shared_key@ == response_shared_key(data@),
{
    if data.len() < ECDH_RESPONSE_SIZE {
        return None;
    }
    Some(
        EcdhResponse {
            device_pubkey: vstd::slice::slice_to_vec(vstd::slice::slice_subrange(data, 9, 74)),
            device_shared_key: vstd::slice::slice_to_vec(
                vstd::slice::slice_subrange(data, 74, 106),
            ),
        },
    )
}

} // verus!

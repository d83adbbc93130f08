//! The transfer of one file, as a state machine: each packet from the device takes a download to
//! its next state, or ends it.
use vstd::prelude::*;
use vstd::std_specs::convert::FromSpec;
use vstd::string::*;

use crate::bytes::le_value;
use crate::crypto::{
    chunk_plain, ctr_crypt, decrypt_chunk, decrypt_file_key, file_key_in, sequence_in_range,
};
use crate::error::RecorderError;
use crate::ogg::{frame_contents, ogg_opus_file, wrap_ogg_opus};
use crate::protocol::{
    audio_slices, file_header_request, file_header_request_payload, has_file_header,
    parse_audio_slices, parse_file_header, parse_response, response_header, slice_views,
    AudioSlice, AudioSliceView, FileHeader, FileHeaderCode, ResponseHeader, BLOCKS_PER_PACKET,
    CHUNK_ENCRYPTED_SIZE, CMD_FILE_COMPLETE, CMD_FILE_HEADER, CMD_FILE_SLICE,
    CMD_FILE_SLICE_SUPPL, CMD_TYPE_FILE,
};
use crate::text::{decimal, push_decimal, text_of};

verus! {

/// How far a download has come, after each slice.
#[derive(Debug, Clone)]
pub struct DownloadProgress {
    pub file_id: u32,
    pub bytes_received: u32,
    pub total_bytes: u32,
    pub sequence: u32,
}

/// Slices that did not arrive: the next number was `expected`, and `got` came.
#[derive(Debug, Clone)]
pub struct PacketGap {
    pub expected: u32,
    pub got: u32,
}

/// What there is to say about one slice.
#[derive(Debug, Clone)]
pub struct SliceReport {
    pub gap: Option<PacketGap>,
    pub progress: DownloadProgress,
}

// ---------- Model ----------
/// What has been received of a file, and what decrypts the rest.
pub struct TransferView {
    pub file_id: u32,
    pub total_bytes: u32,
    pub file_key: Seq<u8>,
    pub nonce: Seq<u8>,
    pub frames: Seq<Seq<u8>>,
    pub bytes_received: u32,
    pub last_seq: u32,
}

pub enum PhaseView {
    AwaitingHeader,
    Receiving(TransferView),
}

pub struct DownloadView {
    pub file_id: u32,
    pub session_key: Seq<u8>,
    pub phase: PhaseView,
}

/// Why a download fails.
pub enum DownloadFailure {
    HeaderUnreadable,
    FileNotExists(u32),
    HeaderCode(FileHeaderCode),
    FileKeyInvalid,
}

/// What a packet does to a download.
pub enum StepView {
    /// More packets are needed.
    Continue(DownloadView, Seq<SliceReport>),
    /// The device says that the file has been fetched before.
    AlreadyComplete,
    /// The file, ready to be stored.
    Complete(Seq<u8>),
    Failed(DownloadFailure),
}

/// A transfer after one more decrypted frame.
pub open spec fn after_frame(t: TransferView, sequence: u32, plain: Seq<u8>) -> TransferView {
    TransferView {
        frames: t.frames.push(plain),
        bytes_received: (t.bytes_received + plain.len()) as u32,
        last_seq: sequence,
        ..t
    }
}

/// The report on one more frame of `len` bytes: a gap where the number is more than one above the
/// last one, and the progress with the frame counted.
pub open spec fn frame_report(t: TransferView, sequence: u32, len: nat) -> SliceReport {
    SliceReport {
        gap: if sequence > t.last_seq + 1 && t.last_seq > 0 {
            Some(PacketGap { expected: (t.last_seq + 1) as u32, got: sequence })
        } else {
            None
        },
        progress: DownloadProgress {
            file_id: t.file_id,
            bytes_received: (t.bytes_received + len) as u32,
            total_bytes: t.total_bytes,
            sequence,
        },
    }
}

/// The frame in a slice.
pub open spec fn slice_plain(t: TransferView, slice: AudioSliceView) -> Seq<u8> {
    chunk_plain(t.file_key, t.nonce, slice.sequence_number as nat, slice.encrypted_chunk)
}

/// A transfer after some slices, in order.
pub open spec fn after_slices(t: TransferView, slices: Seq<AudioSliceView>) -> TransferView
    decreases slices.len(),
{
    if slices.len() == 0 {
        t
    } else {
        after_frame(
            after_slices(t, slices.drop_last()),
            slices.last().sequence_number,
            slice_plain(t, slices.last()),
        )
    }
}

/// The reports on some slices, in order.
pub open spec fn slice_reports(t: TransferView, slices: Seq<AudioSliceView>) -> Seq<SliceReport>
    decreases slices.len(),
{
    if slices.len() == 0 {
        Seq::empty()
    } else {
        slice_reports(t, slices.drop_last()).push(
            frame_report(
                after_slices(t, slices.drop_last()),
                slices.last().sequence_number,
                slice_plain(t, slices.last()).len(),
            ),
        )
    }
}

/// A transfer that has its keys and no frames yet.
pub open spec fn new_transfer(
    file_id: u32,
    total_bytes: u32,
    file_key: Seq<u8>,
    nonce: Seq<u8>,
) -> TransferView {
    TransferView {
        file_id,
        total_bytes,
        file_key,
        nonce,
        frames: Seq::empty(),
        bytes_received: 0,
        last_seq: 0,
    }
}

/// What a packet with a file header does.
pub open spec fn header_step(d: DownloadView, data: Seq<u8>) -> StepView {
    if !has_file_header(data) {
        StepView::Failed(DownloadFailure::HeaderUnreadable)
    } else {
        let code = FileHeaderCode::from_spec(data[95]);
        match code {
            FileHeaderCode::FileNotExists => StepView::Failed(
                DownloadFailure::FileNotExists(d.file_id),
            ),
            FileHeaderCode::AlreadyComplete => StepView::AlreadyComplete,
            FileHeaderCode::Okay => {
                let plain = ctr_crypt(d.session_key, data.subrange(79, 95), data.subrange(33, 79));
                match file_key_in(plain) {
                    None => StepView::Failed(DownloadFailure::FileKeyInvalid),
                    Some(file_key) => StepView::Continue(
                        DownloadView {
                            phase: PhaseView::Receiving(
                                new_transfer(
                                    d.file_id,
                                    le_value(data.subrange(13, 17)) as u32,
                                    file_key,
                                    data.subrange(17, 33),
                                ),
                            ),
                            ..d
                        },
                        Seq::empty(),
                    ),
                }
            },
            _ => StepView::Failed(DownloadFailure::HeaderCode(code)),
        }
    }
}

/// What a packet does to a download: the header is awaited first, then slices come until the
/// device says that the file is complete. Every other packet is passed over.
pub open spec fn download_step(d: DownloadView, data: Seq<u8>) -> StepView {
    let ignored = StepView::Continue(d, Seq::empty());
    match response_header(data) {
        None => ignored,
        Some(h) => match d.phase {
            PhaseView::AwaitingHeader => {
                if h.cmd_type == CMD_TYPE_FILE && h.cmd_id == CMD_FILE_HEADER {
                    header_step(d, data)
                } else {
                    ignored
                }
            },
            PhaseView::Receiving(t) => {
                if is_slice_packet(h) {
                    StepView::Continue(
                        DownloadView {
                            phase: PhaseView::Receiving(after_slices(t, audio_slices(data))),
                            ..d
                        },
                        slice_reports(t, audio_slices(data)),
                    )
                } else if h.cmd_type == CMD_TYPE_FILE && h.cmd_id == CMD_FILE_COMPLETE {
                    StepView::Complete(ogg_opus_file(t.frames, d.file_id))
                } else {
                    ignored
                }
            },
        },
    }
}

/// Whether a reply carries audio slices.
pub open spec fn is_slice_packet(h: ResponseHeader) -> bool {
    h.cmd_type == CMD_TYPE_FILE && (h.cmd_id == CMD_FILE_SLICE || h.cmd_id == CMD_FILE_SLICE_SUPPL)
}

/// Whether the block numbers of some slices, and the bytes received after them, can be counted in
/// 32 bits.
pub open spec fn slices_in_range(t: TransferView, slices: Seq<AudioSliceView>) -> bool {
    &&& t.bytes_received + CHUNK_ENCRYPTED_SIZE * slices.len() <= u32::MAX
    &&& forall|i: int|
        0 <= i < slices.len() ==> sequence_in_range(
            (#[trigger] slices[i]).sequence_number as nat,
        )
}

/// Whether the counters of a download can follow a packet.
pub open spec fn packet_in_range(d: DownloadView, data: Seq<u8>) -> bool {
    match (d.phase, response_header(data)) {
        (PhaseView::Receiving(t), Some(h)) => is_slice_packet(h) ==> slices_in_range(
            t,
            audio_slices(data),
        ),
        _ => true,
    }
}

/// Whether an error is the one for a failure.
pub open spec fn failure_error(failure: DownloadFailure, e: RecorderError) -> bool {
    match failure {
        DownloadFailure::HeaderUnreadable => e matches RecorderError::InvalidResponse(detail)
            && detail@ == "failed to parse file header"@,
        DownloadFailure::FileNotExists(file_id) => e == RecorderError::FileNotExists(file_id),
        DownloadFailure::HeaderCode(code) => e matches RecorderError::FileTransferError(detail)
            && detail@ == "file header code: "@ + code.name(),
        DownloadFailure::FileKeyInvalid => e matches RecorderError::CryptoError(detail) && detail@
            == "invalid file key: missing 'soundcored3200' magic header"@,
    }
}

// ---------- Transfer ----------
/// The frames of a file as they arrive.
pub struct Transfer {
    file_id: u32,
    total_bytes: u32,
    file_key: [u8; 32],
    nonce: [u8; 16],
    frames: Vec<Vec<u8>>,
    bytes_received: u32,
    last_seq: u32,
}

impl View for Transfer {
    type V = TransferView;

    closed spec fn view(&self) -> TransferView {
        TransferView {
            file_id: self.file_id,
            total_bytes: self.total_bytes,
            file_key: self.file_key@,
            nonce: self.nonce@,
            frames: frame_contents(self.frames@),
            bytes_received: self.bytes_received,
            last_seq: self.last_seq,
        }
    }
}

/// What holds of every transfer: each frame is as long as a chunk, all of them are counted, and
/// the last sequence number is in range.
pub open spec fn transfer_valid(t: TransferView) -> bool {
    &&& forall|i: int|
        0 <= i < t.frames.len() ==> (#[trigger] t.frames[i]).len() == CHUNK_ENCRYPTED_SIZE
    &&& t.bytes_received == CHUNK_ENCRYPTED_SIZE * t.frames.len()
    &&& sequence_in_range(t.last_seq as nat)
}

impl Transfer {
    /// A transfer that has its keys and no frames yet.
    pub fn new(file_id: u32, total_bytes: u32, file_key: [u8; 32], nonce: [u8; 16]) -> (r: Self)
        ensures
            r@ == new_transfer(file_id, total_bytes, file_key@, nonce@),
            transfer_valid(r@),
    {
        let r: Transfer = Transfer {
            file_id,
            total_bytes,
            file_key,
            nonce,
            frames: Vec::new(),
            bytes_received: 0,
            last_seq: 0,
        };
        assert(r@.frames =~= Seq::empty());
        r
    }

    /// Takes up a decrypted frame and reports on it.
    pub fn record_frame(&mut self, sequence: u32, plain: Vec<u8>) -> (r: SliceReport)
        requires
            transfer_valid(old(self)@),
            sequence_in_range(sequence as nat),
            plain@.len() == CHUNK_ENCRYPTED_SIZE,
            old(self)@.bytes_received + plain@.len() <= u32::MAX,
        ensures
            final(self)@ == after_frame(old(self)@, sequence, plain@),
            r == frame_report(old(self)@, sequence, plain@.len()),
            transfer_valid(final(self)@),
    {
        let ghost before = self@;
        let ghost content = plain@;
        let expected: u32 = self.last_seq + 1;
        let gap: Option<PacketGap> = if sequence > expected && self.last_seq > 0 {
            Some(PacketGap { expected, got: sequence })
        } else {
            None
        };
        self.bytes_received = self.bytes_received + plain.len() as u32;
        self.frames.push(plain);
        self.last_seq = sequence;
        assert(self@.frames =~= before.frames.push(content));
        SliceReport {
            gap,
            progress: DownloadProgress {
                file_id: self.file_id,
                bytes_received: self.bytes_received,
                total_bytes: self.total_bytes,
                sequence,
            },
        }
    }

    /// Decrypts a slice, takes up its frame and reports on it.
    pub fn accept_slice(&mut self, slice: &AudioSlice) -> (r: SliceReport)
        requires
            transfer_valid(old(self)@),
            sequence_in_range(slice.sequence_number as nat),
            slice.encrypted_chunk@.len() == CHUNK_ENCRYPTED_SIZE,
            old(self)@.bytes_received + CHUNK_ENCRYPTED_SIZE <= u32::MAX,
        ensures
            final(self)@ == after_frame(
                old(self)@,
                slice.sequence_number,
                slice_plain(old(self)@, slice@),
            ),
            r == frame_report(
                old(self)@,
                slice.sequence_number,
                slice_plain(old(self)@, slice@).len(),
            ),
            transfer_valid(final(self)@),
    {
        let decrypted: Vec<u8> = decrypt_chunk(
            &self.file_key,
            &self.nonce,
            slice.sequence_number,
            &slice.encrypted_chunk,
        );
        self.record_frame(slice.sequence_number, decrypted)
    }

    /// Takes up the slices of a packet, in order.
    pub fn accept_packet(&mut self, data: &[u8]) -> (r: Vec<SliceReport>)
        requires
            transfer_valid(old(self)@),
            slices_in_range(old(self)@, audio_slices(data@)),
        ensures
            final(self)@ == after_slices(old(self)@, audio_slices(data@)),
            r@ == slice_reports(old(self)@, audio_slices(data@)),
            transfer_valid(final(self)@),
    {
        let ghost start = self@;
        let ghost all = audio_slices(data@);
        let slices: Vec<AudioSlice> = parse_audio_slices(data);
        let mut reports: Vec<SliceReport> = Vec::new();
        let mut i: usize = 0;
        assert(all.take(0) =~= Seq::empty());
        assert(slices@.len() == all.len()) by {
            assert(slice_views(slices@).len() == all.len());
        }
        while i < slices.len()
            invariant
                i <= slices@.len(),
                all == audio_slices(data@),
                slices@.len() == all.len(),
                slice_views(slices@) == all,
                transfer_valid(self@),
                slices_in_range(start, all),
                self@ == after_slices(start, all.take(i as int)),
                self@.file_key == start.file_key,
                self@.nonce == start.nonce,
                self@.bytes_received == start.bytes_received + CHUNK_ENCRYPTED_SIZE * i,
                reports@ == slice_reports(start, all.take(i as int)),
            decreases slices@.len() - i,
        {
            proof {
                assert(slices@[i as int]@ == slice_views(slices@)[i as int]);
                assert(all[i as int].encrypted_chunk.len() == CHUNK_ENCRYPTED_SIZE);
                assert(all.take(i + 1).drop_last() =~= all.take(i as int));
                assert(all.take(i + 1).last() == all[i as int]);
            }
            let report: SliceReport = self.accept_slice(&slices[i]);
            reports.push(report);
            i += 1;
        }
        assert(all.take(i as int) =~= all);
        reports
    }

    /// Tests whether the counters of the transfer can follow some slices.
    pub fn can_take(&self, slices: &Vec<AudioSlice>) -> (r: bool)
        ensures
            r == slices_in_range(self@, slice_views(slices@)),
    {
        let ghost all = slice_views(slices@);
        let room: u32 = (u32::MAX - self.bytes_received) / CHUNK_ENCRYPTED_SIZE as u32;
        if slices.len() > room as usize {
            return false;
        }
        let mut i: usize = 0;
        while i < slices.len()
            invariant
                i <= slices@.len(),
                all == slice_views(slices@),
                forall|j: int|
                    0 <= j < i ==> sequence_in_range((#[trigger] all[j]).sequence_number as nat),
            decreases slices@.len() - i,
        {
            if slices[i].sequence_number > u32::MAX / BLOCKS_PER_PACKET {
                assert(!sequence_in_range(all[i as int].sequence_number as nat));
                return false;
            }
            i += 1;
        }
        true
    }

    /// The frames so far as an Ogg/Opus file.
    pub fn finish(&self) -> (r: Vec<u8>)
        requires
            transfer_valid(self@),
        ensures
            r@ == ogg_opus_file(self@.frames, self@.file_id),
    {
        assert(self@.frames.len() == self.frames@.len());
        wrap_ogg_opus(&self.frames, self.file_id)
    }
}

// ---------- Download ----------
enum Phase {
    AwaitingHeader,
    Receiving(Transfer),
}

/// A download that waits for its next packet.
pub struct Download {
    file_id: u32,
    session_key: [u8; 32],
    phase: Phase,
}

/// What comes of a packet.
pub enum DownloadStep {
    /// More packets are needed; there is a report for each slice that the packet held.
    Continue(Download, Vec<SliceReport>),
    /// The device says that the file has been fetched before.
    AlreadyComplete,
    /// The file, ready to be stored.
    Complete(Vec<u8>),
}

impl View for Download {
    type V = DownloadView;

    closed spec fn view(&self) -> DownloadView {
        DownloadView {
            file_id: self.file_id,
            session_key: self.session_key@,
            phase: match self.phase {
                Phase::AwaitingHeader => PhaseView::AwaitingHeader,
                Phase::Receiving(transfer) => PhaseView::Receiving(transfer@),
            },
        }
    }
}

/// What holds of every download: the transfer, once there is one, is valid and of the same file.
pub open spec fn download_valid(d: DownloadView) -> bool {
    d.phase matches PhaseView::Receiving(t) ==> transfer_valid(t) && t.file_id == d.file_id
}

/// Whether a step is the one that the model takes.
pub open spec fn step_result(r: Result<DownloadStep, RecorderError>, step: StepView) -> bool {
    match r {
        Ok(DownloadStep::Continue(next, reports)) => step == StepView::Continue(next@, reports@),
        Ok(DownloadStep::AlreadyComplete) => step == StepView::AlreadyComplete,
        Ok(DownloadStep::Complete(file)) => step == StepView::Complete(file@),
        Err(e) => step matches StepView::Failed(failure) && failure_error(failure, e),
    }
}

impl Download {
    /// A download of a file, before its header has come.
    pub fn new(file_id: u32, session_key: [u8; 32]) -> (r: Self)
        ensures
            r@ == (DownloadView {
                file_id,
                session_key: session_key@,
                phase: PhaseView::AwaitingHeader,
            }),
            download_valid(r@),
    {
        Download { file_id, session_key, phase: Phase::AwaitingHeader }
    }

    /// The command that starts the download: the header of the file, from its beginning.
    pub fn request(&self) -> (r: Vec<u8>)
        ensures
            r@ == crate::protocol::command(
                CMD_TYPE_FILE,
                CMD_FILE_HEADER,
                file_header_request_payload(self@.file_id, 0),
            ),
    {
        file_header_request(self.file_id, 0)
    }

    /// Tests whether the counters of the download can follow a packet, which `on_packet` needs.
    pub fn can_take(&self, data: &[u8]) -> (r: bool)
        ensures
            r == packet_in_range(self@, data@),
    {
        let h: ResponseHeader = match parse_response(data) {
            Some(h) => h,
            None => {
                return true;
            },
        };
        if h.cmd_type != CMD_TYPE_FILE || (h.cmd_id != CMD_FILE_SLICE && h.cmd_id
            != CMD_FILE_SLICE_SUPPL) {
            return true;
        }
        match &self.phase {
            Phase::AwaitingHeader => true,
            Phase::Receiving(transfer) => {
                let slices: Vec<AudioSlice> = parse_audio_slices(data);
                transfer.can_take(&slices)
            },
        }
    }

    /// Takes the next packet from the device.
    pub fn on_packet(self, data: &[u8]) -> (r: Result<DownloadStep, RecorderError>)
        requires
            download_valid(self@),
            packet_in_range(self@, data@),
        ensures
            step_result(r, download_step(self@, data@)),
            r matches Ok(DownloadStep::Continue(next, _)) ==> download_valid(next@),
    {
        let h: ResponseHeader = match parse_response(data) {
            Some(h) => h,
            None => {
                let none: Vec<SliceReport> = Vec::new();
                assert(none@ =~= Seq::empty());
                return Ok(DownloadStep::Continue(self, none));
            },
        };
        match self.phase {
            Phase::AwaitingHeader => {
                if h.cmd_type == CMD_TYPE_FILE && h.cmd_id == CMD_FILE_HEADER {
                    on_header(self.file_id, self.session_key, data)
                } else {
                    let none: Vec<SliceReport> = Vec::new();
                    assert(none@ =~= Seq::empty());
                    Ok(
                        DownloadStep::Continue(
                            Download { phase: Phase::AwaitingHeader, ..self },
                            none,
                        ),
                    )
                }
            },
            Phase::Receiving(mut transfer) => {
                if h.cmd_type == CMD_TYPE_FILE && (h.cmd_id == CMD_FILE_SLICE || h.cmd_id
                    == CMD_FILE_SLICE_SUPPL) {
                    let reports: Vec<SliceReport> = transfer.accept_packet(data);
                    proof {
                        crate::download_laws::law_slices_keep_keys(
                            self.phase->Receiving_0@,
                            audio_slices(data@),
                        );
                    }
                    Ok(
                        DownloadStep::Continue(
                            Download {
                                file_id: self.file_id,
                                session_key: self.session_key,
                                phase: Phase::Receiving(transfer),
                            },
                            reports,
                        ),
                    )
                } else if h.cmd_type == CMD_TYPE_FILE && h.cmd_id == CMD_FILE_COMPLETE {
                    Ok(DownloadStep::Complete(transfer.finish()))
                } else {
                    let none: Vec<SliceReport> = Vec::new();
                    assert(none@ =~= Seq::empty());
                    Ok(
                        DownloadStep::Continue(
                            Download {
                                file_id: self.file_id,
                                session_key: self.session_key,
                                phase: Phase::Receiving(transfer),
                            },
                            none,
                        ),
                    )
                }
            },
        }
    }
}

/// Takes the packet with the file header.
fn on_header(file_id: u32, session_key: [u8; 32], data: &[u8]) -> (r: Result<
    DownloadStep,
    RecorderError,
>)
    ensures
        step_result(
            r,
            header_step(
                (DownloadView {
                    file_id,
                    session_key: session_key@,
                    phase: PhaseView::AwaitingHeader,
                }),
                data@,
            ),
        ),
        r matches Ok(DownloadStep::Continue(next, _)) ==> download_valid(next@),
{
    let header: FileHeader = match parse_file_header(data) {
        Some(header) => header,
        None => {
            return Err(RecorderError::InvalidResponse(text_of("failed to parse file header")));
        },
    };
    let code: FileHeaderCode = FileHeaderCode::from(header.code);
    match code {
        FileHeaderCode::Okay => {},
        FileHeaderCode::FileNotExists => {
            return Err(RecorderError::FileNotExists(file_id));
        },
        FileHeaderCode::AlreadyComplete => {
            return Ok(DownloadStep::AlreadyComplete);
        },
        _ => {
            let mut detail: String = text_of("file header code: ");
            let name: String = code.to_string();
            detail.append(name.as_str());
            return Err(RecorderError::FileTransferError(detail));
        },
    }
    match decrypt_file_key(&session_key, &header.encrypted_key, &header.session_nonce) {
        Err(e) => Err(e),
        Ok(file_key) => {
            let none: Vec<SliceReport> = Vec::new();
            assert(none@ =~= Seq::empty());
            Ok(
                DownloadStep::Continue(
                    Download {
                        file_id,
                        session_key,
                        phase: Phase::Receiving(
                            Transfer::new(file_id, header.size, file_key, header.nonce),
                        ),
                    },
                    none,
                ),
            )
        },
    }
}

/// The name of the file that a recording is stored in.
pub fn output_file_name(file_id: u32) -> (r: String)
    ensures
        r@ == decimal(file_id as nat) + ".opus"@,
{
    let mut name: String = String::new();
    push_decimal(&mut name, file_id as u64);
    name.append(".opus");
    assert(name@ =~= decimal(file_id as nat) + ".opus"@);
    name
}

} // verus!

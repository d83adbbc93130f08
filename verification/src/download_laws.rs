//! What holds of whole downloads.
use vstd::prelude::*;

use crate::bytes::{law_le_value_fields, le_value};
use crate::crypto::{
    chunk_plain, ctr_crypt, file_key_in, law_chunk_self_inverse, law_file_key_roundtrip,
    sequence_in_range,
};
use crate::download::{
    after_frame, after_slices, download_step, failure_error, frame_report, header_step,
    is_slice_packet, new_transfer, packet_in_range, slice_plain, slice_reports, slices_in_range,
    step_result, transfer_valid, DownloadFailure, DownloadStep, DownloadView, PhaseView, StepView, TransferView,
};
use crate::error::RecorderError;
use crate::ogg::{ogg_opus_file, opus_head, opus_tags, page_count, page_frames, segment_table};
use crate::ogg_reader::{law_file_roundtrip, law_short_frames_fit, read_file};
use crate::protocol::{
    audio_slices, has_file_header, response_header, AudioSliceView, FileHeaderCode,
    CHUNK_ENCRYPTED_SIZE, CMD_FILE_COMPLETE, CMD_FILE_HEADER, CMD_TYPE_FILE, FILE_KEY_MAGIC,
};

verus! {

/// Slices change neither the file nor the keys of a transfer.
pub proof fn law_slices_keep_keys(t: TransferView, slices: Seq<AudioSliceView>)
    ensures
        after_slices(t, slices).file_id == t.file_id,
        after_slices(t, slices).total_bytes == t.total_bytes,
        after_slices(t, slices).file_key == t.file_key,
        after_slices(t, slices).nonce == t.nonce,
    decreases slices.len(),
{
    if slices.len() > 0 {
        law_slices_keep_keys(t, slices.drop_last());
    }
}

/// It does not matter how slices are spread over packets: taking up `a` and then `b` is taking up
/// both at once, with the same reports.
pub proof fn law_slices_compose(
    t: TransferView,
    a: Seq<AudioSliceView>,
    b: Seq<AudioSliceView>,
)
    ensures
        after_slices(t, a + b) == after_slices(after_slices(t, a), b),
        slice_reports(t, a + b) == slice_reports(t, a) + slice_reports(after_slices(t, a), b),
    decreases b.len(),
{
    law_slices_keep_keys(t, a);
    if b.len() == 0 {
        assert(a + b =~= a);
        assert(slice_reports(t, a) + Seq::empty() =~= slice_reports(t, a));
    } else {
        law_slices_compose(t, a, b.drop_last());
        assert((a + b).drop_last() =~= a + b.drop_last());
        assert((a + b).last() == b.last());
        assert(slice_plain(after_slices(t, a), b.last()) == slice_plain(t, b.last()));
        assert(slice_reports(t, a + b) =~= slice_reports(t, a) + slice_reports(
            after_slices(t, a),
            b,
        ));
    }
}

/// The decrypted frames come one after the other, in the order of the slices.
pub proof fn law_frames_in_order(t: TransferView, slices: Seq<AudioSliceView>)
    ensures
        after_slices(t, slices).frames == t.frames + Seq::new(
            slices.len(),
            |i: int| slice_plain(t, slices[i]),
        ),
    decreases slices.len(),
{
    let frames = Seq::new(slices.len(), |i: int| slice_plain(t, slices[i]));
    if slices.len() > 0 {
        let fewer = slices.drop_last();
        law_frames_in_order(t, fewer);
        assert(frames.drop_last() =~= Seq::new(fewer.len(), |i: int| slice_plain(t, fewer[i])));
        assert(after_slices(t, slices).frames =~= t.frames + frames);
    } else {
        assert(after_slices(t, slices).frames =~= t.frames + frames);
    }
}

/// A transfer stays valid, and counts the bytes of every slice, as long as its counters can follow
/// the slices.
pub proof fn law_bytes_are_counted(t: TransferView, slices: Seq<AudioSliceView>)
    requires
        transfer_valid(t),
        slices_in_range(t, slices),
        forall|i: int|
            0 <= i < slices.len() ==> (#[trigger] slices[i]).encrypted_chunk.len()
                == CHUNK_ENCRYPTED_SIZE,
    ensures
        transfer_valid(after_slices(t, slices)),
        after_slices(t, slices).bytes_received == t.bytes_received + CHUNK_ENCRYPTED_SIZE
            * slices.len(),
    decreases slices.len(),
{
    if slices.len() > 0 {
        let fewer = slices.drop_last();
        assert forall|i: int| 0 <= i < fewer.len() implies (
        #[trigger] fewer[i]).encrypted_chunk.len() == CHUNK_ENCRYPTED_SIZE
            && sequence_in_range(fewer[i].sequence_number as nat) by {
            assert(fewer[i] == slices[i]);
        }
        law_bytes_are_counted(t, fewer);
        assert(slices.last() == slices[slices.len() - 1]);
        assert(slice_plain(t, slices.last()).len() == CHUNK_ENCRYPTED_SIZE);
    }
}

/// The frames that a sender encrypted, each under the number of its slice, are the frames that a
/// transfer with the same key and nonce ends up with.
pub proof fn law_encrypted_frames_arrive(
    t: TransferView,
    frames: Seq<Seq<u8>>,
    slices: Seq<AudioSliceView>,
)
    requires
        slices.len() == frames.len(),
        forall|i: int|
            0 <= i < slices.len() ==> (#[trigger] slices[i]).encrypted_chunk == chunk_plain(
                t.file_key,
                t.nonce,
                slices[i].sequence_number as nat,
                frames[i],
            ),
    ensures
        after_slices(t, slices).frames == t.frames + frames,
{
    law_frames_in_order(t, slices);
    assert forall|i: int| 0 <= i < slices.len() implies slice_plain(t, slices[i]) == frames[i] by {
        law_chunk_self_inverse(
            t.file_key,
            t.nonce,
            slices[i].sequence_number as nat,
            frames[i],
        );
    }
    assert(Seq::new(slices.len(), |i: int| slice_plain(t, slices[i])) =~= frames);
}

/// The frames of a transfer are short enough for every page of its file.
pub proof fn law_transfer_pages_fit(t: TransferView)
    requires
        transfer_valid(t),
    ensures
        forall|k: nat|
            k < page_count(t.frames.len()) ==> #[trigger] segment_table(
                page_frames(t.frames, k),
            ).len() <= 255,
{
    assert forall|k: nat| k < page_count(t.frames.len()) implies #[trigger] segment_table(
        page_frames(t.frames, k),
    ).len() <= 255 by {
        let group = page_frames(t.frames, k);
        let first = 10 * k;
        assert(group.len() <= 10);
        assert forall|i: int| 0 <= i < group.len() implies #[trigger] group[i].len() < 255 by {
            assert(group[i] == t.frames[first + i]);
        }
        law_short_frames_fit(group);
    }
}

/// A recording survives the transfer: an Ogg reader finds in the file that a download stores the
/// frames that the device encrypted, behind the two header packets.
pub proof fn law_recording_survives(
    file_id: u32,
    total_bytes: u32,
    file_key: Seq<u8>,
    nonce: Seq<u8>,
    frames: Seq<Seq<u8>>,
    slices: Seq<AudioSliceView>,
)
    requires
        slices.len() == frames.len(),
        slices_in_range(new_transfer(file_id, total_bytes, file_key, nonce), slices),
        forall|i: int|
            0 <= i < frames.len() ==> (#[trigger] frames[i]).len() == CHUNK_ENCRYPTED_SIZE,
        forall|i: int|
            0 <= i < slices.len() ==> (#[trigger] slices[i]).encrypted_chunk == chunk_plain(
                file_key,
                nonce,
                slices[i].sequence_number as nat,
                frames[i],
            ),
    ensures
        ({
            let start = new_transfer(file_id, total_bytes, file_key, nonce);
            let stored = ogg_opus_file(after_slices(start, slices).frames, file_id);
            read_file(stored) == seq![opus_head(), opus_tags()] + frames
        }),
{
    let start = new_transfer(file_id, total_bytes, file_key, nonce);
    assert forall|i: int| 0 <= i < slices.len() implies (
    #[trigger] slices[i]).encrypted_chunk.len() == CHUNK_ENCRYPTED_SIZE by {
        assert(frames[i].len() == CHUNK_ENCRYPTED_SIZE);
    }
    law_bytes_are_counted(start, slices);
    law_encrypted_frames_arrive(start, frames, slices);
    assert(start.frames + frames =~= frames);
    law_transfer_pages_fit(after_slices(start, slices));
    law_file_roundtrip(frames, file_id);
}

/// Whether a packet means something to a download: the file header while it is awaited, and after
/// that audio slices and the word that the file is complete.
pub open spec fn concerns(d: DownloadView, data: Seq<u8>) -> bool {
    match d.phase {
        PhaseView::AwaitingHeader => is_header_packet(data),
        PhaseView::Receiving(_) => carries_slices(data) || says_complete(data),
    }
}

/// Packets that mean nothing to a download leave it as it is.
pub proof fn law_stray_packets_ignored(d: DownloadView, data: Seq<u8>)
    requires
        !concerns(d, data),
    ensures
        download_step(d, data) == StepView::Continue(d, Seq::empty()),
{
}

/// What a row of packets does to a download: each takes it on from where the one before left it,
/// until it ends.
pub open spec fn download_run(d: DownloadView, packets: Seq<Seq<u8>>) -> StepView
    decreases packets.len(),
{
    if packets.len() == 0 {
        StepView::Continue(d, Seq::empty())
    } else {
        match download_step(d, packets[0]) {
            StepView::Continue(next, _) => download_run(next, packets.drop_first()),
            ended => ended,
        }
    }
}

/// Whether a packet is a reply to the request for the file header.
pub open spec fn is_header_packet(data: Seq<u8>) -> bool {
    response_header(data) matches Some(h) && h.cmd_type == CMD_TYPE_FILE && h.cmd_id
        == CMD_FILE_HEADER
}

/// Whether a packet carries audio slices.
pub open spec fn carries_slices(data: Seq<u8>) -> bool {
    response_header(data) matches Some(h) && is_slice_packet(h)
}

/// Whether a packet says that the file is complete.
pub open spec fn says_complete(data: Seq<u8>) -> bool {
    response_header(data) matches Some(h) && h.cmd_type == CMD_TYPE_FILE && h.cmd_id
        == CMD_FILE_COMPLETE
}

/// The slices of a row of packets, in order.
pub open spec fn all_slices(packets: Seq<Seq<u8>>) -> Seq<AudioSliceView>
    decreases packets.len(),
{
    if packets.len() == 0 {
        Seq::empty()
    } else {
        audio_slices(packets[0]) + all_slices(packets.drop_first())
    }
}

/// Slice packets and then the word that the file is complete end a download with the file that
/// holds the frames of all slices.
pub proof fn law_download_completes(
    d: DownloadView,
    t: TransferView,
    packets: Seq<Seq<u8>>,
    last: Seq<u8>,
)
    requires
        d.phase == PhaseView::Receiving(t),
        forall|i: int| 0 <= i < packets.len() ==> carries_slices(#[trigger] packets[i]),
        says_complete(last),
    ensures
        download_run(d, packets.push(last)) == StepView::Complete(
            ogg_opus_file(after_slices(t, all_slices(packets)).frames, d.file_id),
        ),
    decreases packets.len(),
{
    let row = packets.push(last);
    if packets.len() == 0 {
        assert(row[0] == last);
    } else {
        let rest = packets.drop_first();
        let slices = audio_slices(packets[0]);
        let next = DownloadView { phase: PhaseView::Receiving(after_slices(t, slices)), ..d };
        assert(carries_slices(packets[0]));
        assert(row[0] == packets[0]);
        assert(row.drop_first() =~= rest.push(last));
        assert forall|i: int| 0 <= i < rest.len() implies carries_slices(#[trigger] rest[i]) by {
            assert(rest[i] == packets[i + 1]);
        }
        law_download_completes(next, after_slices(t, slices), rest, last);
        law_slices_compose(t, slices, all_slices(rest));
    }
}

/// Slices that a transfer can follow all at once, it can follow in two parts.
pub proof fn law_range_splits(t: TransferView, a: Seq<AudioSliceView>, b: Seq<AudioSliceView>)
    requires
        transfer_valid(t),
        slices_in_range(t, a + b),
        forall|i: int|
            0 <= i < a.len() ==> (#[trigger] a[i]).encrypted_chunk.len() == CHUNK_ENCRYPTED_SIZE,
    ensures
        slices_in_range(t, a),
        transfer_valid(after_slices(t, a)),
        slices_in_range(after_slices(t, a), b),
{
    assert forall|i: int| 0 <= i < a.len() implies sequence_in_range(
        (#[trigger] a[i]).sequence_number as nat,
    ) by {
        assert((a + b)[i] == a[i]);
    }
    law_bytes_are_counted(t, a);
    assert forall|i: int| 0 <= i < b.len() implies sequence_in_range(
        (#[trigger] b[i]).sequence_number as nat,
    ) by {
        assert((a + b)[a.len() + i] == b[i]);
    }
}

/// Whether a packet is the header of a file whose key is sealed under the session key: it reports
/// success, and its key field is the magic and the file key, encrypted.
pub open spec fn seals_file_key(header: Seq<u8>, session_key: Seq<u8>, file_key: Seq<u8>) -> bool {
    &&& is_header_packet(header)
    &&& has_file_header(header)
    &&& header[95] == 0
    &&& header.subrange(33, 79) == ctr_crypt(
        session_key,
        header.subrange(79, 95),
        FILE_KEY_MAGIC@ + file_key,
    )
}

/// A whole download gives back what the device recorded. The device seals a file key under the
/// session key, encrypts each frame under the file key and the number of its slice, and sends the
/// slices in any number of packets. The download then ends with a file in which an Ogg reader
/// finds every frame, unchanged and in order, behind the two header packets.
pub proof fn law_download_gives_recording(
    start: DownloadView,
    header: Seq<u8>,
    file_key: Seq<u8>,
    frames: Seq<Seq<u8>>,
    packets: Seq<Seq<u8>>,
    last: Seq<u8>,
)
    requires
        start.phase == PhaseView::AwaitingHeader,
        file_key.len() == 32,
        seals_file_key(header, start.session_key, file_key),
        forall|i: int| 0 <= i < packets.len() ==> carries_slices(#[trigger] packets[i]),
        says_complete(last),
        all_slices(packets).len() == frames.len(),
        forall|i: int|
            0 <= i < frames.len() ==> (#[trigger] frames[i]).len() == CHUNK_ENCRYPTED_SIZE,
        forall|i: int|
            0 <= i < frames.len() ==> (#[trigger] all_slices(packets)[i]).encrypted_chunk
                == chunk_plain(
                file_key,
                header.subrange(17, 33),
                all_slices(packets)[i].sequence_number as nat,
                frames[i],
            ),
        slices_in_range(
            new_transfer(start.file_id, 0, file_key, header.subrange(17, 33)),
            all_slices(packets),
        ),
    ensures
        download_run(start, seq![header] + packets.push(last)) matches StepView::Complete(file)
            && read_file(file) == seq![opus_head(), opus_tags()] + frames,
{
    let row = seq![header] + packets.push(last);
    let nonce = header.subrange(17, 33);
    let total_bytes = le_value(header.subrange(13, 17)) as u32;
    let t = new_transfer(start.file_id, total_bytes, file_key, nonce);
    let d = DownloadView { phase: PhaseView::Receiving(t), ..start };
    law_file_key_roundtrip(start.session_key, header.subrange(79, 95), file_key);
    assert(header_step(start, header) == StepView::Continue(d, Seq::empty()));
    assert(download_step(start, header) == StepView::Continue(d, Seq::empty()));
    assert(row[0] == header);
    assert(row.drop_first() =~= packets.push(last));
    law_download_completes(d, t, packets, last);
    law_recording_survives(
        start.file_id,
        total_bytes,
        file_key,
        nonce,
        frames,
        all_slices(packets),
    );
}

// ---------- Steps in terms of bytes ----------
/// A new transfer has the file, the size and the keys that it was made with, and nothing received.
pub proof fn law_new_transfer(file_id: u32, total_bytes: u32, file_key: Seq<u8>, nonce: Seq<u8>)
    ensures
        ({
            let t = new_transfer(file_id, total_bytes, file_key, nonce);
            &&& t.file_id == file_id
            &&& t.total_bytes == total_bytes
            &&& t.file_key == file_key
            &&& t.nonce == nonce
            &&& t.frames == Seq::<Seq<u8>>::empty()
            &&& t.bytes_received == 0
            &&& t.last_seq == 0
        }),
{
}

/// A slice is decrypted with the keys of the transfer and its own number.
pub proof fn law_slice_is_decrypted(t: TransferView, slice: AudioSliceView)
    ensures
        slice_plain(t, slice) == chunk_plain(
            t.file_key,
            t.nonce,
            slice.sequence_number as nat,
            slice.encrypted_chunk,
        ),
{
}

/// One more slice adds its frame behind the others, adds its length to the bytes received, and
/// makes its number the last one. No slices change nothing.
pub proof fn law_one_more_slice(t: TransferView, slices: Seq<AudioSliceView>, slice: AudioSliceView)
    requires
        transfer_valid(t),
        slices_in_range(t, slices.push(slice)),
        slice.encrypted_chunk.len() == 160,
        forall|i: int|
            0 <= i < slices.len() ==> (#[trigger] slices[i]).encrypted_chunk.len() == 160,
    ensures
        after_slices(t, Seq::empty()) == t,
        ({
            let before = after_slices(t, slices);
            let after = after_slices(t, slices.push(slice));
            &&& after.frames == before.frames.push(
                chunk_plain(
                    t.file_key,
                    t.nonce,
                    slice.sequence_number as nat,
                    slice.encrypted_chunk,
                ),
            )
            &&& after.bytes_received == before.bytes_received + 160
            &&& after.last_seq == slice.sequence_number
            &&& after.file_id == t.file_id
            &&& after.total_bytes == t.total_bytes
            &&& after.file_key == t.file_key
            &&& after.nonce == t.nonce
        }),
{
    let more = slices.push(slice);
    assert(more.drop_last() =~= slices);
    law_slices_keep_keys(t, more);
    assert forall|i: int| 0 <= i < slices.len() implies sequence_in_range(
        (#[trigger] slices[i]).sequence_number as nat,
    ) by {
        assert(more[i] == slices[i]);
    }
    law_bytes_are_counted(t, slices);
}

/// There is a report for each slice, in order. It tells the file, its size, the number of the slice
/// and the bytes received with it: 160 for each slice so far. It tells of a gap exactly where the
/// number before was not zero and the slice's is more than one above it.
pub proof fn law_reports(t: TransferView, slices: Seq<AudioSliceView>, i: int)
    requires
        transfer_valid(t),
        slices_in_range(t, slices),
        forall|j: int|
            0 <= j < slices.len() ==> (#[trigger] slices[j]).encrypted_chunk.len() == 160,
        0 <= i < slices.len(),
    ensures
        slice_reports(t, slices).len() == slices.len(),
        ({
            let report = slice_reports(t, slices)[i];
            let number = slices[i].sequence_number;
            let before = if i == 0 {
                t.last_seq
            } else {
                slices[i - 1].sequence_number
            };
            &&& report.progress.file_id == t.file_id
            &&& report.progress.total_bytes == t.total_bytes
            &&& report.progress.sequence == number
            &&& report.progress.bytes_received == t.bytes_received + 160 * (i + 1)
            &&& report.gap is Some <==> before > 0 && number > before + 1
            &&& report.gap matches Some(gap) ==> gap.expected == before + 1 && gap.got == number
        }),
    decreases slices.len(),
{
    let fewer = slices.drop_last();
    assert forall|j: int| 0 <= j < fewer.len() implies (
    #[trigger] fewer[j]).encrypted_chunk.len() == 160 && sequence_in_range(
        fewer[j].sequence_number as nat,
    ) by {
        assert(fewer[j] == slices[j]);
    }
    lemma_report_count(t, slices);
    lemma_report_count(t, fewer);
    if i < fewer.len() {
        law_reports(t, fewer, i);
        if i > 0 {
            assert(fewer[i - 1] == slices[i - 1]);
        }
    } else {
        law_bytes_are_counted(t, fewer);
        law_slices_keep_keys(t, fewer);
        lemma_last_number(t, fewer);
        assert(slices.last() == slices[i]);
        assert(slice_plain(t, slices.last()).len() == 160);
    }
}

proof fn lemma_report_count(t: TransferView, slices: Seq<AudioSliceView>)
    ensures
        slice_reports(t, slices).len() == slices.len(),
    decreases slices.len(),
{
    if slices.len() > 0 {
        lemma_report_count(t, slices.drop_last());
    }
}

proof fn lemma_last_number(t: TransferView, slices: Seq<AudioSliceView>)
    ensures
        after_slices(t, slices).last_seq == if slices.len() == 0 {
            t.last_seq
        } else {
            slices.last().sequence_number
        },
{
}

/// What a packet does while the file header is awaited. One that does not answer the request (1A07)
/// is passed over. An answer that is shorter than 97 bytes, or whose status is not one in its low
/// half, fails. Otherwise its code decides: 1 is a missing file, 3 a file fetched before, 0 goes on
/// to the file key, and any other fails with that code.
pub proof fn law_awaiting_header(d: DownloadView, data: Seq<u8>)
    requires
        d.phase == PhaseView::AwaitingHeader,
    ensures
        ({
            let step = download_step(d, data);
            let answers = data.len() >= 7 && data[5] == 0x1A && data[6] == 0x07;
            let whole = data.len() >= 97 && data[4] % 16 == 1;
            &&& !answers ==> step == StepView::Continue(d, Seq::empty())
            &&& answers && !whole ==> step == StepView::Failed(DownloadFailure::HeaderUnreadable)
            &&& answers && whole && data[95] == 1 ==> step == StepView::Failed(
                DownloadFailure::FileNotExists(d.file_id),
            )
            &&& answers && whole && data[95] == 3 ==> step == StepView::AlreadyComplete
            &&& answers && whole && data[95] == 2 ==> step == StepView::Failed(
                DownloadFailure::HeaderCode(FileHeaderCode::LocalFileError),
            )
            &&& answers && whole && data[95] >= 4 ==> step == StepView::Failed(
                DownloadFailure::HeaderCode(FileHeaderCode::Unknown(data[95])),
            )
        }),
{
}

/// What a file header with code 0 does. Its 46 bytes from byte 33 on are decrypted with the session
/// key under the 16 from byte 79 on. Where they hold a file key, the transfer begins with that key,
/// the size in the four bytes from 13 on and the nonce in the 16 from byte 17 on; where they do
/// not, the download fails.
pub proof fn law_header_begins_transfer(d: DownloadView, data: Seq<u8>)
    requires
        d.phase == PhaseView::AwaitingHeader,
        data.len() >= 97,
        data[5] == 0x1A,
        data[6] == 0x07,
        data[4] % 16 == 1,
        data[95] == 0,
    ensures
        ({
            let plain = ctr_crypt(d.session_key, data.subrange(79, 95), data.subrange(33, 79));
            let step = download_step(d, data);
            &&& file_key_in(plain) is None ==> step == StepView::Failed(
                DownloadFailure::FileKeyInvalid,
            )
            &&& file_key_in(plain) matches Some(key) ==> {
                &&& step matches StepView::Continue(next, reports)
                &&& reports.len() == 0
                &&& next.file_id == d.file_id
                &&& next.session_key == d.session_key
                &&& next.phase matches PhaseView::Receiving(t)
                &&& t.file_id == d.file_id
                &&& t.total_bytes == data[13] + 256 * data[14] + 65536 * data[15] + 16777216
                    * data[16]
                &&& t.file_key == key
                &&& t.nonce == data.subrange(17, 33)
                &&& t.frames.len() == 0
                &&& t.bytes_received == 0
                &&& t.last_seq == 0
            }
        }),
{
    law_le_value_fields(data.subrange(13, 17));
}

/// What a packet does while slices come in. Those of 1A08 and 1A12 are taken up; 1A0A ends the
/// download with the file of all frames so far; every other packet is passed over.
pub proof fn law_receiving(d: DownloadView, t: TransferView, data: Seq<u8>)
    requires
        d.phase == PhaseView::Receiving(t),
    ensures
        ({
            let step = download_step(d, data);
            let file = data.len() >= 7 && data[5] == 0x1A;
            let slices = file && (data[6] == 0x08 || data[6] == 0x12);
            let complete = file && data[6] == 0x0A;
            &&& slices ==> {
                &&& step matches StepView::Continue(next, reports)
                &&& next.file_id == d.file_id
                &&& next.session_key == d.session_key
                &&& next.phase == PhaseView::Receiving(after_slices(t, audio_slices(data)))
                &&& reports == slice_reports(t, audio_slices(data))
            }
            &&& complete ==> step == StepView::Complete(ogg_opus_file(t.frames, d.file_id))
            &&& !slices && !complete ==> step == StepView::Continue(d, Seq::empty())
        }),
{
}

/// When the counters of a download can follow a packet: always, but for slices of a transfer whose
/// bytes would pass 32 bits at 160 a slice, or one of whose numbers would at ten blocks a slice.
pub proof fn law_packet_in_range(d: DownloadView, data: Seq<u8>)
    ensures
        packet_in_range(d, data) <==> (d.phase matches PhaseView::Receiving(t) ==> data.len() >= 7
            && data[5] == 0x1A && (data[6] == 0x08 || data[6] == 0x12) ==> {
            &&& t.bytes_received + 160 * audio_slices(data).len() <= 0xFFFF_FFFF
            &&& forall|i: int|
                0 <= i < audio_slices(data).len() ==> 10 * (
                #[trigger] audio_slices(data)[i]).sequence_number <= 0xFFFF_FFFF
        }),
{
    let slices = audio_slices(data);
    assert forall|i: int| 0 <= i < slices.len() implies sequence_in_range(
        (#[trigger] slices[i]).sequence_number as nat,
    ) == (10 * slices[i].sequence_number <= 0xFFFF_FFFF) by {}
}

/// The error that each failure of a download is told as.
pub proof fn law_failures_told(failure: DownloadFailure, e: RecorderError)
    requires
        failure_error(failure, e),
    ensures
        failure is HeaderUnreadable ==> (e matches RecorderError::InvalidResponse(detail) && detail@
            == "failed to parse file header"@),
        failure matches DownloadFailure::FileNotExists(file_id) ==> e
            == RecorderError::FileNotExists(file_id),
        failure matches DownloadFailure::HeaderCode(code) ==> (
        e matches RecorderError::FileTransferError(detail) && detail@ == "file header code: "@
            + code.name()),
        failure is FileKeyInvalid ==> (e matches RecorderError::CryptoError(detail) && detail@
            == "invalid file key: missing 'soundcored3200' magic header"@),
{
}

/// What comes of a packet is what the model says: the next state and its reports, the file byte for
/// byte, or the error for the failure.
pub proof fn law_step_results(r: Result<DownloadStep, RecorderError>, step: StepView)
    requires
        step_result(r, step),
    ensures
        step matches StepView::Continue(d, reports) ==> (r matches Ok(
            DownloadStep::Continue(next, told),
        ) && next@ == d && told@ == reports),
        step is AlreadyComplete ==> (r matches Ok(DownloadStep::AlreadyComplete)),
        step matches StepView::Complete(bytes) ==> (r matches Ok(DownloadStep::Complete(file))
            && file@ == bytes),
        step matches StepView::Failed(failure) ==> (r matches Err(e) && failure_error(failure, e)),
{
}

/// What one decrypted frame does to a transfer, and what is told of it.
pub proof fn law_one_frame(t: TransferView, sequence: u32, plain: Seq<u8>)
    requires
        sequence_in_range(t.last_seq as nat),
        t.bytes_received + plain.len() <= 0xFFFF_FFFF,
    ensures
        ({
            let after = after_frame(t, sequence, plain);
            &&& after.file_id == t.file_id
            &&& after.total_bytes == t.total_bytes
            &&& after.file_key == t.file_key
            &&& after.nonce == t.nonce
            &&& after.frames == t.frames.push(plain)
            &&& after.bytes_received == t.bytes_received + plain.len()
            &&& after.last_seq == sequence
        }),
        ({
            let report = frame_report(t, sequence, plain.len());
            &&& report.progress.file_id == t.file_id
            &&& report.progress.total_bytes == t.total_bytes
            &&& report.progress.sequence == sequence
            &&& report.progress.bytes_received == t.bytes_received + plain.len()
            &&& report.gap is Some <==> t.last_seq > 0 && sequence > t.last_seq + 1
            &&& report.gap matches Some(gap) ==> gap.expected == t.last_seq + 1 && gap.got
                == sequence
        }),
{
}

} // verus!

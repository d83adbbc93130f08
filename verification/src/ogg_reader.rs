//! How an Ogg reader takes a file apart, and that it finds in it what was written.
use vstd::prelude::*;

use crate::bytes::{le_bytes, le_value, lemma_byte_ranges, lemma_le_bytes_len, lemma_le_roundtrip};
use crate::crc::crc32;
use crate::ogg::{
    audio_pages, capture_pattern, frame_contents, lacing, ogg_opus_file, opus_head, opus_tags, page,
    page_body, page_count, page_end, page_frames, page_with_crc, segment_table, slice_contents,
    FRAMES_PER_PAGE, OGG_BOS,
};

verus! {

/// The sum of the lacing values of a page: how long its body is.
pub open spec fn body_len(table: Seq<u8>) -> nat
    decreases table.len(),
{
    if table.len() == 0 {
        0
    } else {
        table[0] as nat + body_len(table.drop_first())
    }
}

/// The packets that a segment table cuts a page body into. A value of 255 carries on into the
/// next one, a smaller value ends its packet; `open` bytes of the first packet are already
/// accounted for.
pub open spec fn cut_packets(table: Seq<u8>, body: Seq<u8>, open: nat) -> Seq<Seq<u8>>
    decreases table.len(),
{
    if table.len() == 0 {
        Seq::empty()
    } else if table[0] == 255 {
        cut_packets(table.drop_first(), body, open + 255)
    } else {
        let end = (open + table[0]) as int;
        seq![body.take(end)] + cut_packets(table.drop_first(), body.skip(end), 0)
    }
}

/// The segment table of the page that `bytes` begins with.
pub open spec fn read_table(bytes: Seq<u8>) -> Seq<u8> {
    bytes.subrange(27, 27 + bytes[26])
}

/// The length of the page that `bytes` begins with.
pub open spec fn read_page_len(bytes: Seq<u8>) -> nat {
    27 + bytes[26] as nat + body_len(read_table(bytes))
}

/// The packets of the page that `bytes` begins with.
pub open spec fn read_packets(bytes: Seq<u8>) -> Seq<Seq<u8>> {
    cut_packets(read_table(bytes), bytes.subrange(27 + bytes[26], read_page_len(bytes) as int), 0)
}

/// The page `bytes` with its checksum field at zero.
pub open spec fn without_crc(bytes: Seq<u8>) -> Seq<u8> {
    bytes.update(22, 0).update(23, 0).update(24, 0).update(25, 0)
}

/// The packets of all complete pages of a file.
pub open spec fn read_file(bytes: Seq<u8>) -> Seq<Seq<u8>>
    decreases bytes.len(),
{
    if bytes.len() < 27 || bytes.len() < read_page_len(bytes) {
        Seq::empty()
    } else {
        read_packets(bytes) + read_file(bytes.skip(read_page_len(bytes) as int))
    }
}

/// Lacing values of one packet, read from the front of a table.
proof fn lemma_cut_one(len: nat, table: Seq<u8>, body: Seq<u8>, open: nat)
    requires
        open + len <= body.len(),
    ensures
        cut_packets(lacing(len) + table, body, open) == seq![body.take((open + len) as int)]
            + cut_packets(table, body.skip((open + len) as int), 0),
        body_len(lacing(len) + table) == len + body_len(table),
    decreases len,
{
    let laced = lacing(len) + table;
    if len >= 255 {
        let less = (len - 255) as nat;
        assert(less / 255 + 1 == len / 255);
        assert(less % 255 == len % 255);
        assert(laced.drop_first() =~= lacing(less) + table);
        assert(laced[0] == 255);
        lemma_cut_one(less, table, body, open + 255);
    } else {
        assert(laced.drop_first() =~= table);
        assert(laced[0] == len);
    }
}

/// A reader cuts a page body into the packets that it was made of.
pub proof fn law_lacing_roundtrip(packets: Seq<Seq<u8>>)
    ensures
        cut_packets(segment_table(packets), page_body(packets), 0) == packets,
        body_len(segment_table(packets)) == page_body(packets).len(),
    decreases packets.len(),
{
    if packets.len() > 0 {
        let rest = packets.drop_first();
        let body = page_body(packets);
        law_lacing_roundtrip(rest);
        lemma_cut_one(packets[0].len(), segment_table(rest), body, 0);
        assert(body.take(packets[0].len() as int) =~= packets[0]);
        assert(body.skip(packets[0].len() as int) =~= page_body(rest));
        assert(seq![packets[0]] + rest =~= packets);
    }
}

/// The offsets of the fields of a page.
proof fn lemma_page_layout(
    serial: u32,
    page_no: u32,
    granule: u64,
    flags: u8,
    packets: Seq<Seq<u8>>,
    crc: nat,
)
    ensures
        ({
            let bytes = page_with_crc(serial, page_no, granule, flags, packets, crc);
            let table = segment_table(packets);
            &&& bytes.len() == 27 + table.len() + page_body(packets).len()
            &&& bytes.take(4) == capture_pattern()
            &&& bytes[4] == 0
            &&& bytes[5] == flags
            &&& bytes.subrange(6, 14) == le_bytes(granule as nat, 8)
            &&& bytes.subrange(14, 18) == le_bytes(serial as nat, 4)
            &&& bytes.subrange(18, 22) == le_bytes(page_no as nat, 4)
            &&& bytes.subrange(22, 26) == le_bytes(crc, 4)
            &&& bytes[26] == (table.len() % 256) as u8
            &&& bytes.subrange(27, (27 + table.len()) as int) == table
            &&& bytes.skip((27 + table.len()) as int) == page_body(packets)
        }),
{
    lemma_le_bytes_len(granule as nat, 8);
    lemma_le_bytes_len(serial as nat, 4);
    lemma_le_bytes_len(page_no as nat, 4);
    lemma_le_bytes_len(crc, 4);
    let bytes = page_with_crc(serial, page_no, granule, flags, packets, crc);
    let table = segment_table(packets);
    assert(bytes.take(4) =~= capture_pattern());
    assert(bytes.subrange(6, 14) =~= le_bytes(granule as nat, 8));
    assert(bytes.subrange(14, 18) =~= le_bytes(serial as nat, 4));
    assert(bytes.subrange(18, 22) =~= le_bytes(page_no as nat, 4));
    assert(bytes.subrange(22, 26) =~= le_bytes(crc, 4));
    assert(bytes.subrange(27, (27 + table.len()) as int) =~= table);
    assert(bytes.skip((27 + table.len()) as int) =~= page_body(packets));
}

/// Every page begins with the capture pattern, and its flags, sample count, serial number and
/// page number are read back from their fields.
pub proof fn law_page_header_roundtrip(
    serial: u32,
    page_no: u32,
    granule: u64,
    flags: u8,
    packets: Seq<Seq<u8>>,
)
    ensures
        ({
            let bytes = page(serial, page_no, granule, flags, packets);
            &&& bytes.take(4) == capture_pattern()
            &&& bytes[4] == 0
            &&& bytes[5] == flags
            &&& le_value(bytes.subrange(6, 14)) == granule
            &&& le_value(bytes.subrange(14, 18)) == serial
            &&& le_value(bytes.subrange(18, 22)) == page_no
        }),
{
    let crc = crc32(page_with_crc(serial, page_no, granule, flags, packets, 0));
    lemma_page_layout(serial, page_no, granule, flags, packets, crc);
    lemma_byte_ranges();
    lemma_le_roundtrip(granule as nat, 8);
    lemma_le_roundtrip(serial as nat, 4);
    lemma_le_roundtrip(page_no as nat, 4);
}

/// Every page passes a reader's checksum test: the stored value is the checksum of the page with
/// the checksum field at zero.
pub proof fn law_page_checksum_valid(
    serial: u32,
    page_no: u32,
    granule: u64,
    flags: u8,
    packets: Seq<Seq<u8>>,
)
    ensures
        ({
            let bytes = page(serial, page_no, granule, flags, packets);
            le_value(bytes.subrange(22, 26)) == crc32(without_crc(bytes))
        }),
{
    let blank = page_with_crc(serial, page_no, granule, flags, packets, 0);
    let crc = crc32(blank);
    let bytes = page(serial, page_no, granule, flags, packets);
    lemma_page_layout(serial, page_no, granule, flags, packets, crc);
    lemma_page_layout(serial, page_no, granule, flags, packets, 0);
    assert(without_crc(bytes) =~= blank) by {
        assert(le_bytes(0, 4) =~= seq![0u8, 0u8, 0u8, 0u8]) by {
            reveal_with_fuel(le_bytes, 5);
        }
        lemma_le_bytes_len(granule as nat, 8);
        lemma_le_bytes_len(serial as nat, 4);
        lemma_le_bytes_len(page_no as nat, 4);
        lemma_le_bytes_len(crc, 4);
    }
    lemma_byte_ranges();
    crate::crc::lemma_crc32_range(blank);
    lemma_le_roundtrip(crc, 4);
}

/// A reader finds the packets of a page, and where the page ends, whatever follows it. The
/// segment count is one byte, so the packets may need at most 255 lacing values.
pub proof fn law_page_roundtrip(
    serial: u32,
    page_no: u32,
    granule: u64,
    flags: u8,
    packets: Seq<Seq<u8>>,
    rest: Seq<u8>,
)
    requires
        segment_table(packets).len() <= 255,
    ensures
        ({
            let bytes = page(serial, page_no, granule, flags, packets);
            &&& bytes.len() >= 27
            &&& read_page_len(bytes + rest) == bytes.len()
            &&& read_packets(bytes + rest) == packets
        }),
{
    let crc = crc32(page_with_crc(serial, page_no, granule, flags, packets, 0));
    let bytes = page(serial, page_no, granule, flags, packets);
    let all = bytes + rest;
    let table = segment_table(packets);
    lemma_page_layout(serial, page_no, granule, flags, packets, crc);
    law_lacing_roundtrip(packets);
    assert(all[26] == table.len());
    assert(read_table(all) =~= bytes.subrange(27, (27 + table.len()) as int));
    assert(all.subrange(27 + all[26], read_page_len(all) as int) =~= page_body(packets)) by {
        assert(page_body(packets) == bytes.skip((27 + table.len()) as int));
    }
}

/// Reading a file takes the first page off and goes on with the rest.
proof fn lemma_read_step(
    serial: u32,
    page_no: u32,
    granule: u64,
    flags: u8,
    packets: Seq<Seq<u8>>,
    rest: Seq<u8>,
)
    requires
        segment_table(packets).len() <= 255,
    ensures
        read_file(page(serial, page_no, granule, flags, packets) + rest) == packets + read_file(
            rest,
        ),
{
    let first = page(serial, page_no, granule, flags, packets);
    law_page_roundtrip(serial, page_no, granule, flags, packets, rest);
    assert((first + rest).skip(first.len() as int) =~= rest);
}

proof fn lemma_read_audio_pages(frames: Seq<Seq<u8>>, serial: u32, i: nat)
    requires
        i <= page_count(frames.len()),
        forall|k: nat|
            k < page_count(frames.len()) ==> #[trigger] segment_table(page_frames(frames, k)).len()
                <= 255,
    ensures
        read_file(audio_pages(frames, serial, i)) == (if i < page_count(frames.len()) {
            frames.skip(FRAMES_PER_PAGE * i)
        } else {
            Seq::empty()
        }),
    decreases page_count(frames.len()) - i,
{
    if i < page_count(frames.len()) {
        let n = frames.len();
        let rest = audio_pages(frames, serial, i + 1);
        lemma_read_audio_pages(frames, serial, i + 1);
        assert(segment_table(page_frames(frames, i)).len() <= 255);
        lemma_read_step(
            serial,
            (i + 2) as u32,
            (page_end(n, i) * crate::ogg::SAMPLES_PER_FRAME) as u64,
            if i + 1 == page_count(n) {
                crate::ogg::OGG_EOS
            } else {
                0u8
            },
            page_frames(frames, i),
            rest,
        );
        assert(page_frames(frames, i) + (if i + 1 < page_count(n) {
            frames.skip(FRAMES_PER_PAGE * (i + 1))
        } else {
            Seq::empty()
        }) =~= frames.skip(FRAMES_PER_PAGE * i));
    }
}

/// Reading a file that begins with two pages of one packet each.
proof fn lemma_read_headers(serial: u32, head: Seq<u8>, tags: Seq<u8>, audio: Seq<u8>)
    requires
        segment_table(seq![head]).len() <= 255,
        segment_table(seq![tags]).len() <= 255,
    ensures
        read_file(
            page(serial, 0, 0, OGG_BOS, seq![head]) + page(serial, 1, 0, 0, seq![tags]) + audio,
        ) == seq![head, tags] + read_file(audio),
{
    let first = page(serial, 0, 0, OGG_BOS, seq![head]);
    let second = page(serial, 1, 0, 0, seq![tags]);
    lemma_read_step(serial, 1, 0, 0, seq![tags], audio);
    lemma_read_step(serial, 0, 0, OGG_BOS, seq![head], second + audio);
    assert(first + second + audio =~= first + (second + audio));
    assert(seq![head] + (seq![tags] + read_file(audio)) =~= seq![head, tags] + read_file(audio));
}

/// A reader finds in the file the two header packets and then every frame, unchanged and in
/// order, as long as no page needs more than 255 lacing values.
pub proof fn law_file_roundtrip(frames: Seq<Seq<u8>>, serial: u32)
    requires
        forall|k: nat|
            k < page_count(frames.len()) ==> #[trigger] segment_table(page_frames(frames, k)).len()
                <= 255,
    ensures
        read_file(ogg_opus_file(frames, serial)) == seq![opus_head(), opus_tags()] + frames,
{
    let audio = audio_pages(frames, serial, 0);
    assert(read_file(audio) == frames) by {
        lemma_read_audio_pages(frames, serial, 0);
        assert(read_file(audio) =~= frames);
    }
    lemma_header_packets();
    lemma_read_headers(serial, opus_head(), opus_tags(), audio);
}

/// Each header packet takes one lacing value.
proof fn lemma_header_packets()
    ensures
        segment_table(seq![opus_head()]).len() == 1,
        segment_table(seq![opus_tags()]).len() == 1,
{
    lemma_le_bytes_len(312, 2);
    lemma_le_bytes_len(crate::ogg::OPUS_SAMPLE_RATE as nat, 4);
    lemma_le_bytes_len(0, 2);
    lemma_le_bytes_len(6, 4);
    lemma_le_bytes_len(0, 4);
    reveal_with_fuel(segment_table, 2);
    assert(seq![opus_head()].drop_first() =~= Seq::<Seq<u8>>::empty());
    assert(seq![opus_tags()].drop_first() =~= Seq::<Seq<u8>>::empty());
}

/// Frames that are shorter than 255 bytes take one lacing value each, so no page that holds ten
/// of them needs more than ten.
pub proof fn law_short_frames_fit(frames: Seq<Seq<u8>>)
    requires
        forall|k: int| 0 <= k < frames.len() ==> #[trigger] frames[k].len() < 255,
    ensures
        segment_table(frames).len() == frames.len(),
    decreases frames.len(),
{
    if frames.len() > 0 {
        assert(frames[0].len() < 255);
        let rest = frames.drop_first();
        assert forall|k: int| 0 <= k < rest.len() implies #[trigger] rest[k].len() < 255 by {
            assert(rest[k] == frames[k + 1]);
        }
        law_short_frames_fit(rest);
    }
}

// ---------- Bytes of a page ----------
/// The lacing values of a packet: 255 for each whole piece of that many bytes, then what is left,
/// zero included.
pub proof fn law_lacing_values(len: nat)
    ensures
        lacing(len).len() == len / 255 + 1,
        forall|i: int| 0 <= i < len / 255 ==> #[trigger] lacing(len)[i] == 255,
        lacing(len)[(len / 255) as int] == len % 255,
{
}

/// One more packet on a page adds its lacing values behind the table and its bytes behind the body.
pub proof fn law_packet_joins_page(packets: Seq<Seq<u8>>, packet: Seq<u8>)
    ensures
        segment_table(Seq::empty()) == Seq::<u8>::empty(),
        segment_table(packets.push(packet)) == segment_table(packets) + lacing(packet.len()),
        page_body(Seq::empty()) == Seq::<u8>::empty(),
        page_body(packets.push(packet)) == page_body(packets) + packet,
    decreases packets.len(),
{
    let more = packets.push(packet);
    if packets.len() == 0 {
        let rest = more.drop_first();
        assert(rest =~= Seq::empty());
        assert(more[0] == packet);
        assert(segment_table(rest) =~= Seq::empty());
        assert(page_body(rest) =~= Seq::empty());
        assert(segment_table(packets) =~= Seq::empty());
        assert(page_body(packets) =~= Seq::empty());
        assert(segment_table(more) =~= segment_table(packets) + lacing(packet.len()));
        assert(page_body(more) =~= page_body(packets) + packet);
    } else {
        law_packet_joins_page(packets.drop_first(), packet);
        assert(more.drop_first() =~= packets.drop_first().push(packet));
        assert(segment_table(more) =~= segment_table(packets) + lacing(packet.len()));
        assert(page_body(more) =~= page_body(packets) + packet);
    }
}

/// Every byte of a page: the letters `OggS`, a zero, the flags, the sample count in eight bytes, the
/// serial number and the page number in four each, the checksum in four, the number of lacing
/// values modulo 256, the lacing values, the packets. Numbers have the low byte first. The checksum
/// is that of the same bytes with zeros in its place.
pub proof fn law_page_bytes(
    serial: u32,
    page_no: u32,
    granule: u64,
    flags: u8,
    packets: Seq<Seq<u8>>,
    blank: Seq<u8>,
)
    requires
        ({
            let bytes = page(serial, page_no, granule, flags, packets);
            &&& blank.len() == bytes.len()
            &&& forall|i: int|
                0 <= i < bytes.len() ==> #[trigger] blank[i] == if 22 <= i < 26 {
                    0
                } else {
                    bytes[i]
                }
        }),
    ensures
        ({
            let bytes = page(serial, page_no, granule, flags, packets);
            let table = segment_table(packets);
            &&& bytes.len() == 27 + table.len() + page_body(packets).len()
            &&& bytes[0] == 0x4F
            &&& bytes[1] == 0x67
            &&& bytes[2] == 0x67
            &&& bytes[3] == 0x53
            &&& bytes[4] == 0
            &&& bytes[5] == flags
            &&& le_value(bytes.subrange(6, 14)) == granule
            &&& le_value(bytes.subrange(14, 18)) == serial
            &&& le_value(bytes.subrange(18, 22)) == page_no
            &&& le_value(bytes.subrange(22, 26)) == crc32(blank)
            &&& bytes[26] == table.len() % 256
            &&& bytes.subrange(27, 27 + table.len() as int) == table
            &&& bytes.skip(27 + table.len() as int) == page_body(packets)
        }),
{
    let bytes = page(serial, page_no, granule, flags, packets);
    let crc = crc32(page_with_crc(serial, page_no, granule, flags, packets, 0));
    lemma_page_layout(serial, page_no, granule, flags, packets, crc);
    law_page_header_roundtrip(serial, page_no, granule, flags, packets);
    law_page_checksum_valid(serial, page_no, granule, flags, packets);
    assert(blank =~= without_crc(bytes));
    let mark = bytes.take(4);
    assert(mark[0] == bytes[0] && mark[1] == bytes[1] && mark[2] == bytes[2] && mark[3]
        == bytes[3]);
}

/// The two header packets: `OpusHead` with version 1, two channels, 312 samples to skip, 48000
/// samples a second and no gain; and `OpusTags` with the vendor `mic-rs` and no comments.
pub proof fn law_header_packet_bytes()
    ensures
        opus_head() == seq![
            0x4Fu8,
            0x70u8,
            0x75u8,
            0x73u8,
            0x48u8,
            0x65u8,
            0x61u8,
            0x64u8,
            0x01u8,
            0x02u8,
            0x38u8,
            0x01u8,
            0x80u8,
            0xBBu8,
            0x00u8,
            0x00u8,
            0x00u8,
            0x00u8,
            0x00u8,
        ],
        opus_tags() == seq![
            0x4Fu8,
            0x70u8,
            0x75u8,
            0x73u8,
            0x54u8,
            0x61u8,
            0x67u8,
            0x73u8,
            0x06u8,
            0x00u8,
            0x00u8,
            0x00u8,
            0x6Du8,
            0x69u8,
            0x63u8,
            0x2Du8,
            0x72u8,
            0x73u8,
            0x00u8,
            0x00u8,
            0x00u8,
            0x00u8,
        ],
{
    reveal_with_fuel(le_bytes, 5);
    assert(le_bytes(312, 2) =~= seq![0x38u8, 0x01u8]);
    assert(le_bytes(48000, 4) =~= seq![0x80u8, 0xBBu8, 0u8, 0u8]);
    assert(le_bytes(0, 2) =~= seq![0u8, 0u8]);
    assert(le_bytes(6, 4) =~= seq![6u8, 0u8, 0u8, 0u8]);
    assert(le_bytes(0, 4) =~= seq![0u8, 0u8, 0u8, 0u8]);
}

/// What the packets and the frames of a call hold is what each slice and vector holds.
pub proof fn law_contents(segments: Seq<&[u8]>, frames: Seq<Vec<u8>>)
    ensures
        slice_contents(segments).len() == segments.len(),
        forall|i: int|
            0 <= i < segments.len() ==> #[trigger] slice_contents(segments)[i] == segments[i]@,
        frame_contents(frames).len() == frames.len(),
        forall|i: int| 0 <= i < frames.len() ==> #[trigger] frame_contents(frames)[i] == frames[i]@,
{
}

// ---------- Pages of a file ----------
/// How many frames stand on the audio pages up to and with page `k`, out of `n`: ten on each, and
/// what is left on the last.
pub open spec fn frames_through(n: nat, k: nat) -> nat {
    if 10 * (k + 1) <= n {
        10 * (k + 1)
    } else {
        n
    }
}

/// The frames that stand on audio page `k`.
pub open spec fn frames_on(frames: Seq<Seq<u8>>, k: nat) -> Seq<Seq<u8>> {
    frames.subrange(10 * k as int, frames_through(frames.len(), k) as int)
}

/// A file is a page that begins the stream, with the first header packet; a page with the second;
/// and then the audio, page by page.
pub proof fn law_file_parts(frames: Seq<Seq<u8>>, serial: u32)
    ensures
        ogg_opus_file(frames, serial) == page(serial, 0, 0, 2, seq![opus_head()]) + page(
            serial,
            1,
            0,
            0,
            seq![opus_tags()],
        ) + audio_pages(frames, serial, 0),
{
}

/// Audio page `k` holds frames `10 * k` and on, at most ten. It has the page number `k + 2`, counts
/// 960 samples for every frame up to its end, and has the end flag exactly where no frame is left.
/// Behind the last page there is nothing.
pub proof fn law_audio_page_parts(frames: Seq<Seq<u8>>, serial: u32, k: nat)
    ensures
        10 * k >= frames.len() ==> audio_pages(frames, serial, k) == Seq::<u8>::empty(),
        10 * k < frames.len() ==> audio_pages(frames, serial, k) == page(
            serial,
            (k + 2) as u32,
            (960 * frames_through(frames.len(), k)) as u64,
            if frames_through(frames.len(), k) == frames.len() {
                4
            } else {
                0
            },
            frames_on(frames, k),
        ) + audio_pages(frames, serial, k + 1),
{
    if 10 * k < frames.len() {
        assert(page_end(frames.len(), k) == frames_through(frames.len(), k));
        assert(page_frames(frames, k) == frames_on(frames, k));
    }
}

/// What is left of a file behind its first `k` pages, as a reader finds them.
pub open spec fn behind_pages(bytes: Seq<u8>, k: nat) -> Seq<u8>
    decreases k,
{
    if k == 0 {
        bytes
    } else {
        let rest = behind_pages(bytes, (k - 1) as nat);
        rest.skip(read_page_len(rest) as int)
    }
}

/// Whether no page of a file needs more lacing values than its one byte of segment count can tell.
pub open spec fn pages_fit(frames: Seq<Seq<u8>>) -> bool {
    forall|k: nat|
        10 * k < frames.len() ==> (#[trigger] segment_table(frames_on(frames, k))).len() <= 255
}

proof fn lemma_behind_page(
    serial: u32,
    page_no: u32,
    granule: u64,
    flags: u8,
    packets: Seq<Seq<u8>>,
    rest: Seq<u8>,
)
    requires
        segment_table(packets).len() <= 255,
    ensures
        ({
            let bytes = page(serial, page_no, granule, flags, packets) + rest;
            &&& bytes.len() >= 27
            &&& bytes.skip(read_page_len(bytes) as int) == rest
            &&& read_packets(bytes) == packets
            &&& bytes[5] == flags
            &&& le_value(bytes.subrange(6, 14)) == granule
            &&& le_value(bytes.subrange(14, 18)) == serial
            &&& le_value(bytes.subrange(18, 22)) == page_no
        }),
{
    let first = page(serial, page_no, granule, flags, packets);
    let bytes = first + rest;
    law_page_roundtrip(serial, page_no, granule, flags, packets, rest);
    law_page_header_roundtrip(serial, page_no, granule, flags, packets);
    assert(bytes.skip(first.len() as int) =~= rest);
    assert(bytes.subrange(6, 14) =~= first.subrange(6, 14));
    assert(bytes.subrange(14, 18) =~= first.subrange(14, 18));
    assert(bytes.subrange(18, 22) =~= first.subrange(18, 22));
}

proof fn lemma_behind_headers(serial: u32, head: Seq<u8>, tags: Seq<u8>, audio: Seq<u8>)
    requires
        segment_table(seq![head]).len() <= 255,
        segment_table(seq![tags]).len() <= 255,
    ensures
        ({
            let file = page(serial, 0, 0, 2, seq![head]) + page(serial, 1, 0, 0, seq![tags])
                + audio;
            let second = behind_pages(file, 1);
            &&& behind_pages(file, 0) == file
            &&& behind_pages(file, 2) == audio
            &&& file.len() >= 27
            &&& file[5] == 2
            &&& le_value(file.subrange(6, 14)) == 0
            &&& le_value(file.subrange(14, 18)) == serial
            &&& le_value(file.subrange(18, 22)) == 0
            &&& read_packets(file) == seq![head]
            &&& second.len() >= 27
            &&& second[5] == 0
            &&& le_value(second.subrange(6, 14)) == 0
            &&& le_value(second.subrange(14, 18)) == serial
            &&& le_value(second.subrange(18, 22)) == 1
            &&& read_packets(second) == seq![tags]
        }),
{
    let first = page(serial, 0, 0, 2, seq![head]);
    let second = page(serial, 1, 0, 0, seq![tags]);
    let file = first + second + audio;
    assert(file =~= first + (second + audio));
    lemma_behind_page(serial, 0, 0, 2, seq![head], second + audio);
    lemma_behind_page(serial, 1, 0, 0, seq![tags], audio);
    reveal_with_fuel(behind_pages, 3);
    assert(behind_pages(file, 1) == second + audio);
}

proof fn lemma_behind_audio(frames: Seq<Seq<u8>>, serial: u32, k: nat)
    requires
        pages_fit(frames),
        k <= page_count(frames.len()),
    ensures
        behind_pages(ogg_opus_file(frames, serial), k + 2) == audio_pages(frames, serial, k),
    decreases k,
{
    let file = ogg_opus_file(frames, serial);
    if k == 0 {
        lemma_header_packets();
        lemma_behind_headers(serial, opus_head(), opus_tags(), audio_pages(frames, serial, 0));
    } else {
        let before = (k - 1) as nat;
        lemma_behind_audio(frames, serial, before);
        law_audio_page_parts(frames, serial, before);
        assert(10 * before < frames.len());
        assert(segment_table(frames_on(frames, before)).len() <= 255);
        lemma_behind_page(
            serial,
            (before + 2) as u32,
            (960 * frames_through(frames.len(), before)) as u64,
            if frames_through(frames.len(), before) == frames.len() {
                4
            } else {
                0
            },
            frames_on(frames, before),
            audio_pages(frames, serial, k),
        );
        assert(behind_pages(file, k + 1) == audio_pages(frames, serial, before));
    }
}

/// A reader that walks through a stored file finds at the first two pages the header packets, with
/// no samples counted and the flag that begins the stream on the first alone.
pub proof fn law_header_pages_read(frames: Seq<Seq<u8>>, serial: u32)
    ensures
        ({
            let file = ogg_opus_file(frames, serial);
            let second = behind_pages(file, 1);
            &&& file[5] == 2
            &&& le_value(file.subrange(6, 14)) == 0
            &&& le_value(file.subrange(14, 18)) == serial
            &&& le_value(file.subrange(18, 22)) == 0
            &&& read_packets(file) == seq![opus_head()]
            &&& second[5] == 0
            &&& le_value(second.subrange(6, 14)) == 0
            &&& le_value(second.subrange(14, 18)) == serial
            &&& le_value(second.subrange(18, 22)) == 1
            &&& read_packets(second) == seq![opus_tags()]
        }),
{
    lemma_header_packets();
    lemma_behind_headers(serial, opus_head(), opus_tags(), audio_pages(frames, serial, 0));
}

/// A reader that walks on to audio page `k` finds there the frames from `10 * k` on, ten or what is
/// left; the page number `k + 2`; the end flag exactly on the last page; and as sample count 960
/// times the number of frames on the audio pages so far, this one included.
pub proof fn law_audio_pages_read(frames: Seq<Seq<u8>>, serial: u32, k: nat)
    requires
        pages_fit(frames),
        frames.len() <= 10 * 0xFFFF_FFFD,
        10 * k < frames.len(),
    ensures
        ({
            let at = behind_pages(ogg_opus_file(frames, serial), k + 2);
            let through = frames_through(frames.len(), k);
            &&& at.len() >= 27
            &&& le_value(at.subrange(6, 14)) == 960 * through
            &&& at[5] == if through == frames.len() {
                4u8
            } else {
                0u8
            }
            &&& le_value(at.subrange(14, 18)) == serial
            &&& le_value(at.subrange(18, 22)) == k + 2
            &&& read_packets(at) == frames.subrange(10 * k as int, through as int)
        }),
{
    let through = frames_through(frames.len(), k);
    lemma_behind_audio(frames, serial, k);
    law_audio_page_parts(frames, serial, k);
    assert(segment_table(frames_on(frames, k)).len() <= 255);
    lemma_behind_page(
        serial,
        (k + 2) as u32,
        (960 * through) as u64,
        if through == frames.len() {
            4
        } else {
            0
        },
        frames_on(frames, k),
        audio_pages(frames, serial, k + 1),
    );
}

/// The sample counts of a stored file, as a reader finds them, grow by 9600 from each audio page to
/// a full next one, grow to a next one in any case, and end at 960 for every frame of the file.
/// Behind the last page the file ends.
pub proof fn law_sample_counts(frames: Seq<Seq<u8>>, serial: u32, k: nat)
    requires
        pages_fit(frames),
        frames.len() <= 10 * 0xFFFF_FFFD,
        10 * k < frames.len(),
    ensures
        ({
            let file = ogg_opus_file(frames, serial);
            let here = le_value(behind_pages(file, k + 2).subrange(6, 14));
            let next = le_value(behind_pages(file, k + 3).subrange(6, 14));
            &&& 10 * (k + 1) < frames.len() ==> here < next <= here + 9600
            &&& 10 * (k + 2) <= frames.len() ==> next == here + 9600
            &&& 10 * (k + 1) >= frames.len() ==> here == 960 * frames.len() && behind_pages(
                file,
                k + 3,
            ) == Seq::<u8>::empty()
        }),
{
    law_audio_pages_read(frames, serial, k);
    if 10 * (k + 1) < frames.len() {
        law_audio_pages_read(frames, serial, k + 1);
    } else {
        lemma_behind_audio(frames, serial, k + 1);
        law_audio_page_parts(frames, serial, k + 1);
    }
}

} // verus!

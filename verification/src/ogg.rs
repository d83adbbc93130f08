//! Ogg pages and the Ogg/Opus file that holds a recording.
use vstd::prelude::*;

use crate::bytes::{le_bytes, push_le};
use crate::crc::{crc32, ogg_crc32};

verus! {

pub const OPUS_SAMPLE_RATE: u32 = 48000;

pub const OPUS_CHANNELS: u8 = 2;

/// Samples in one frame: 20 ms at 48 kHz.
pub const SAMPLES_PER_FRAME: u64 = 960;

pub const FRAMES_PER_PAGE: usize = 10;

/// Page flag: beginning of stream.
pub const OGG_BOS: u8 = 0x02;

/// Page flag: end of stream.
pub const OGG_EOS: u8 = 0x04;

/// The bytes of each slice in a list of slices.
pub open spec fn slice_contents(segments: Seq<&[u8]>) -> Seq<Seq<u8>> {
    Seq::new(segments.len(), |i: int| segments[i]@)
}

/// The bytes of each frame in a list of frames.
pub open spec fn frame_contents(frames: Seq<Vec<u8>>) -> Seq<Seq<u8>> {
    Seq::new(frames.len(), |i: int| frames[i]@)
}

/// The lacing values of a packet of `len` bytes: as many times 255 as fit, then what is left.
pub open spec fn lacing(len: nat) -> Seq<u8> {
    Seq::new(
        len / 255 + 1,
        |i: int|
            if i < len / 255 {
                255u8
            } else {
                (len % 255) as u8
            },
    )
}

/// The lacing values of all packets of a page.
pub open spec fn segment_table(packets: Seq<Seq<u8>>) -> Seq<u8>
    decreases packets.len(),
{
    if packets.len() == 0 {
        Seq::empty()
    } else {
        lacing(packets[0].len()) + segment_table(packets.drop_first())
    }
}

/// The packets of a page, end to end.
pub open spec fn page_body(packets: Seq<Seq<u8>>) -> Seq<u8>
    decreases packets.len(),
{
    if packets.len() == 0 {
        Seq::empty()
    } else {
        packets[0] + page_body(packets.drop_first())
    }
}

/// The letters `OggS`, which every page begins with.
pub open spec fn capture_pattern() -> Seq<u8> {
    seq![0x4Fu8, 0x67u8, 0x67u8, 0x53u8]
}

/// A page with a given value in its checksum field.
pub open spec fn page_with_crc(
    serial: u32,
    page_no: u32,
    granule: u64,
    flags: u8,
    packets: Seq<Seq<u8>>,
    crc: nat,
) -> Seq<u8> {
    capture_pattern() + seq![0u8, flags] + le_bytes(granule as nat, 8) + le_bytes(
        serial as nat,
        4,
    ) + le_bytes(page_no as nat, 4) + le_bytes(crc, 4) + seq![
        (segment_table(packets).len() % 256) as u8,
    ] + segment_table(packets) + page_body(packets)
}

/// A page as it is written: its checksum is that of the page with the checksum field at zero.
pub open spec fn page(
    serial: u32,
    page_no: u32,
    granule: u64,
    flags: u8,
    packets: Seq<Seq<u8>>,
) -> Seq<u8> {
    page_with_crc(
        serial,
        page_no,
        granule,
        flags,
        packets,
        crc32(page_with_crc(serial, page_no, granule, flags, packets, 0)),
    )
}

/// The identification header packet of the stream.
pub open spec fn opus_head() -> Seq<u8> {
    seq![0x4Fu8, 0x70u8, 0x75u8, 0x73u8, 0x48u8, 0x65u8, 0x61u8, 0x64u8] + seq![
        1u8,
        OPUS_CHANNELS,
    ] + le_bytes(312, 2) + le_bytes(OPUS_SAMPLE_RATE as nat, 4) + le_bytes(0, 2) + seq![0u8]
}

/// The comment header packet of the stream: the vendor `mic-rs` and no comments.
pub open spec fn opus_tags() -> Seq<u8> {
    seq![0x4Fu8, 0x70u8, 0x75u8, 0x73u8, 0x54u8, 0x61u8, 0x67u8, 0x73u8] + le_bytes(6, 4) + seq![
        0x6Du8,
        0x69u8,
        0x63u8,
        0x2Du8,
        0x72u8,
        0x73u8,
    ] + le_bytes(0, 4)
}

/// How many pages `n` frames fill.
pub open spec fn page_count(n: nat) -> nat {
    (n + FRAMES_PER_PAGE - 1) as nat / FRAMES_PER_PAGE as nat
}

/// The frame after the last one of audio page `i`, out of `n` frames.
pub open spec fn page_end(n: nat, i: nat) -> nat {
    if FRAMES_PER_PAGE * (i + 1) < n {
        (FRAMES_PER_PAGE * (i + 1)) as nat
    } else {
        n
    }
}

/// The frames of audio page `i`.
pub open spec fn page_frames(frames: Seq<Seq<u8>>, i: nat) -> Seq<Seq<u8>> {
    frames.subrange(FRAMES_PER_PAGE * i, page_end(frames.len(), i) as int)
}

/// Audio page `i`: it comes after the two header pages, counts the samples up to its end, and is
/// marked where it is the last.
pub open spec fn audio_page(frames: Seq<Seq<u8>>, serial: u32, i: nat) -> Seq<u8> {
    page(
        serial,
        (i + 2) as u32,
        (page_end(frames.len(), i) * SAMPLES_PER_FRAME) as u64,
        if i + 1 == page_count(frames.len()) {
            OGG_EOS
        } else {
            0u8
        },
        page_frames(frames, i),
    )
}

/// The audio pages from page `i` on.
pub open spec fn audio_pages(frames: Seq<Seq<u8>>, serial: u32, i: nat) -> Seq<u8>
    decreases page_count(frames.len()) - i,
{
    if i >= page_count(frames.len()) {
        Seq::empty()
    } else {
        audio_page(frames, serial, i) + audio_pages(frames, serial, i + 1)
    }
}

/// The whole file: two header pages, then the audio.
pub open spec fn ogg_opus_file(frames: Seq<Seq<u8>>, serial: u32) -> Seq<u8> {
    page(serial, 0, 0, OGG_BOS, seq![opus_head()]) + page(serial, 1, 0, 0, seq![opus_tags()])
        + audio_pages(frames, serial, 0)
}

proof fn lemma_header_len(serial: u32, page_no: u32, granule: u64, flags: u8, crc: nat)
    ensures
        (capture_pattern() + seq![0u8, flags] + le_bytes(granule as nat, 8) + le_bytes(
            serial as nat,
            4,
        ) + le_bytes(page_no as nat, 4)).len() == 22,
        le_bytes(crc, 4).len() == 4,
{
    crate::bytes::lemma_le_bytes_len(granule as nat, 8);
    crate::bytes::lemma_le_bytes_len(serial as nat, 4);
    crate::bytes::lemma_le_bytes_len(page_no as nat, 4);
    crate::bytes::lemma_le_bytes_len(crc, 4);
}

/// Appends the lacing values of a packet of `len` bytes.
fn push_lacing(table: &mut Vec<u8>, len: usize)
    ensures
        final(table)@ == old(table)@ + lacing(len as nat),
{
    let mut remaining: usize = len;
    while remaining >= 255
        invariant
            table@ + lacing(remaining as nat) == old(table)@ + lacing(len as nat),
        decreases remaining,
    {
        let ghost before = table@;
        table.push(255u8);
        proof {
            let less = (remaining - 255) as nat;
            assert(less / 255 + 1 == remaining as nat / 255);
            assert(less % 255 == remaining as nat % 255);
            assert(before + lacing(remaining as nat) =~= table@ + lacing(less));
        }
        remaining = remaining - 255;
    }
    table.push(remaining as u8);
    assert(table@ =~= old(table)@ + lacing(len as nat)) by {
        assert(lacing(remaining as nat) =~= seq![remaining as u8]);
    }
}

/// One Ogg page that holds the given packets.
///
/// The segment count is one byte: where the packets need more than 255 lacing values, the byte
/// holds the count modulo 256.
pub fn ogg_page(serial: u32, page_no: u32, granule: u64, flags: u8, segments: &[&[u8]]) -> (r: Vec<
    u8,
>)
    ensures
        r@ == page(serial, page_no, granule, flags, slice_contents(segments@)),
{
    let ghost packets = slice_contents(segments@);
    let mut table: Vec<u8> = Vec::new();
    let mut i: usize = 0;
    assert(packets.skip(0) =~= packets);
    while i < segments.len()
        invariant
            i <= segments@.len(),
            packets == slice_contents(segments@),
            table@ + segment_table(packets.skip(i as int)) == segment_table(packets),
        decreases segments@.len() - i,
    {
        let seg: &[u8] = segments[i];
        let ghost before = table@;
        push_lacing(&mut table, seg.len());
        proof {
            let rest = packets.skip(i as int);
            assert(rest.drop_first() =~= packets.skip(i + 1));
            assert(before + segment_table(rest) =~= table@ + segment_table(packets.skip(i + 1)));
        }
        i += 1;
    }
    assert(table@ =~= segment_table(packets));

    let mut out: Vec<u8> = Vec::new();
    out.push(0x4F);
    out.push(0x67);
    out.push(0x67);
    out.push(0x53);
    out.push(0);
    out.push(flags);
    assert(out@ =~= capture_pattern() + seq![0u8, flags]);
    push_le(&mut out, granule, 8);
    push_le(&mut out, serial as u64, 4);
    push_le(&mut out, page_no as u64, 4);
    let ghost head = out@;
    push_le(&mut out, 0, 4);
    out.push((table.len() % 256) as u8);
    out.extend_from_slice(&table);
    let ghost start = out@;
    assert(start =~= head + le_bytes(0, 4) + seq![(segment_table(packets).len() % 256) as u8]
        + segment_table(packets));

    let mut j: usize = 0;
    assert(out@ + page_body(packets) == start + page_body(packets));
    while j < segments.len()
        invariant
            j <= segments@.len(),
            packets == slice_contents(segments@),
            out@ + page_body(packets.skip(j as int)) == start + page_body(packets),
        decreases segments@.len() - j,
    {
        let ghost before = out@;
        out.extend_from_slice(segments[j]);
        proof {
            let rest = packets.skip(j as int);
            assert(rest.drop_first() =~= packets.skip(j + 1));
            assert(out@ =~= before + rest[0]);
            assert(before + page_body(rest) =~= out@ + page_body(packets.skip(j + 1)));
        }
        j += 1;
    }
    let ghost blank = page_with_crc(serial, page_no, granule, flags, packets, 0);
    assert(out@ =~= blank) by {
        assert(out@ =~= start + page_body(packets));
    }

    let crc: u32 = ogg_crc32(&out);
    let mut crc_bytes: Vec<u8> = Vec::new();
    push_le(&mut crc_bytes, crc as u64, 4);
    proof {
        lemma_header_len(serial, page_no, granule, flags, 0);
        lemma_header_len(serial, page_no, granule, flags, crc as nat);
        assert(crc_bytes@ =~= le_bytes(crc as nat, 4));
    }
    out[22] = crc_bytes[0];
    out[23] = crc_bytes[1];
    out[24] = crc_bytes[2];
    out[25] = crc_bytes[3];
    proof {
        let done = page_with_crc(serial, page_no, granule, flags, packets, crc as nat);
        let tail = seq![(segment_table(packets).len() % 256) as u8] + segment_table(packets)
            + page_body(packets);
        assert(blank =~= head + le_bytes(0, 4) + tail);
        assert(done =~= head + le_bytes(crc as nat, 4) + tail);
        assert(out@ =~= done);
    }
    out
}

/// The bytes of the identification header packet.
fn opus_head_packet() -> (r: Vec<u8>)
    ensures
        r@ == opus_head(),
{
    let mut packet: Vec<u8> = Vec::new();
    packet.push(0x4F);
    packet.push(0x70);
    packet.push(0x75);
    packet.push(0x73);
    packet.push(0x48);
    packet.push(0x65);
    packet.push(0x61);
    packet.push(0x64);
    packet.push(1);
    packet.push(OPUS_CHANNELS);
    assert(packet@ =~= seq![0x4Fu8, 0x70u8, 0x75u8, 0x73u8, 0x48u8, 0x65u8, 0x61u8, 0x64u8] + seq![
        1u8,
        OPUS_CHANNELS,
    ]);
    push_le(&mut packet, 312, 2);
    push_le(&mut packet, OPUS_SAMPLE_RATE as u64, 4);
    push_le(&mut packet, 0, 2);
    packet.push(0);
    assert(packet@ =~= opus_head());
    packet
}

/// The bytes of the comment header packet.
fn opus_tags_packet() -> (r: Vec<u8>)
    ensures
        r@ == opus_tags(),
{
    let mut packet: Vec<u8> = Vec::new();
    packet.push(0x4F);
    packet.push(0x70);
    packet.push(0x75);
    packet.push(0x73);
    packet.push(0x54);
    packet.push(0x61);
    packet.push(0x67);
    packet.push(0x73);
    assert(packet@ =~= seq![0x4Fu8, 0x70u8, 0x75u8, 0x73u8, 0x54u8, 0x61u8, 0x67u8, 0x73u8]);
    push_le(&mut packet, 6, 4);
    packet.push(0x6D);
    packet.push(0x69);
    packet.push(0x63);
    packet.push(0x2D);
    packet.push(0x72);
    packet.push(0x73);
    push_le(&mut packet, 0, 4);
    assert(packet@ =~= opus_tags());
    packet
}

/// Wraps Opus frames in an Ogg container: ten frames to a page, in order.
///
/// The page number is a 32-bit counter, which bounds how many frames fit.
pub fn wrap_ogg_opus(frames: &[Vec<u8>], serial: u32) -> (r: Vec<u8>)
    requires
        page_count(frames@.len()) + 2 <= u32::MAX,
    ensures
        r@ == ogg_opus_file(frame_contents(frames@), serial),
{
    let ghost contents = frame_contents(frames@);
    let head: Vec<u8> = opus_head_packet();
    let mut head_packets: Vec<&[u8]> = Vec::new();
    head_packets.push(head.as_slice());
    let mut out: Vec<u8> = ogg_page(serial, 0, 0, OGG_BOS, &head_packets);
    assert(slice_contents(head_packets@) =~= seq![opus_head()]);

    let tags: Vec<u8> = opus_tags_packet();
    let mut tags_packets: Vec<&[u8]> = Vec::new();
    tags_packets.push(tags.as_slice());
    let tags_page: Vec<u8> = ogg_page(serial, 1, 0, 0, &tags_packets);
    assert(slice_contents(tags_packets@) =~= seq![opus_tags()]);
    out.extend_from_slice(&tags_page);

    let ghost start = out@;
    let total: usize = frames.len();
    let mut begin: usize = 0;
    let mut page_no: u32 = 2;
    assert(start + audio_pages(contents, serial, 0) =~= ogg_opus_file(contents, serial));
    while begin < total
        invariant
            total == frames@.len(),
            contents == frame_contents(frames@),
            page_count(total as nat) + 2 <= u32::MAX,
            2 <= page_no,
            page_no - 2 <= page_count(total as nat),
            begin as nat == (if page_no == 2 {
                0
            } else {
                page_end(total as nat, (page_no - 3) as nat)
            }),
            begin < total ==> begin == FRAMES_PER_PAGE * (page_no - 2) && page_no - 2 < page_count(
                total as nat,
            ),
            begin == total ==> page_no - 2 == page_count(total as nat),
            begin <= total,
            out@ + audio_pages(contents, serial, (page_no - 2) as nat) == ogg_opus_file(
                contents,
                serial,
            ),
        decreases total - begin,
    {
        let ghost index = (page_no - 2) as nat;
        let end: usize = if total - begin > FRAMES_PER_PAGE {
            begin + FRAMES_PER_PAGE
        } else {
            total
        };
        let mut segments: Vec<&[u8]> = Vec::new();
        let mut k: usize = begin;
        while k < end
            invariant
                begin <= k <= end,
                end <= total,
                total == frames@.len(),
                contents == frame_contents(frames@),
                segments@.len() == k - begin,
                forall|m: int| 0 <= m < segments@.len() ==> segments@[m]@ == contents[begin + m],
            decreases end - k,
        {
            segments.push(frames[k].as_slice());
            k += 1;
        }
        let flags: u8 = if end == total {
            OGG_EOS
        } else {
            0
        };
        let granule: u64 = end as u64 * SAMPLES_PER_FRAME;
        let next: Vec<u8> = ogg_page(serial, page_no, granule, flags, &segments);
        let ghost before = out@;
        out.extend_from_slice(&next);
        proof {
            assert(end == page_end(total as nat, index));
            assert(slice_contents(segments@) =~= page_frames(contents, index));
            assert((end == total) == (index + 1 == page_count(total as nat)));
            assert(next@ == audio_page(contents, serial, index));
            assert(before + audio_pages(contents, serial, index) =~= out@ + audio_pages(
                contents,
                serial,
                index + 1,
            ));
        }
        begin = end;
        page_no = page_no + 1;
    }
    assert(out@ =~= out@ + audio_pages(contents, serial, (page_no - 2) as nat));
    out
}

} // verus!

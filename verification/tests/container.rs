//! Headers of music files that cannot be handed to the decoding library, and some that can.

use audioware::codebook::check_packet;
use audioware::container::{find_obstacle, Obstacle};
use audioware::decode::Fetched;
use audioware::{DecodeError, SymphoniaDecoder};

/// A RIFF chunk.
fn chunk(tag: &[u8; 4], body: &[u8]) -> Vec<u8> {
    let mut bytes = tag.to_vec();
    bytes.extend_from_slice(&(body.len() as u32).to_le_bytes());
    bytes.extend_from_slice(body);
    if body.len() % 2 == 1 {
        bytes.push(0);
    }
    bytes
}

/// A format chunk of 16 bytes.
fn format(tag: u16, channels: u16, rate: u32, bits: u16) -> Vec<u8> {
    let mut body = Vec::new();
    body.extend_from_slice(&tag.to_le_bytes());
    body.extend_from_slice(&channels.to_le_bytes());
    body.extend_from_slice(&rate.to_le_bytes());
    body.extend_from_slice(&(rate * 4).to_le_bytes());
    body.extend_from_slice(&4u16.to_le_bytes());
    body.extend_from_slice(&bits.to_le_bytes());
    body
}

/// A RIFF file of some chunks and four frames.
fn riff(chunks: &[Vec<u8>]) -> Vec<u8> {
    let mut body = b"WAVE".to_vec();
    for c in chunks {
        body.extend_from_slice(c);
    }
    body.extend_from_slice(&chunk(b"data", &[0; 16]));
    chunk(b"RIFF", &body)
}

/// Bits that are written one after the other, the low one first.
struct Bits {
    bytes: Vec<u8>,
    count: usize,
}

impl Bits {
    fn new(bytes: &[u8]) -> Bits {
        Bits { bytes: bytes.to_vec(), count: 8 * bytes.len() }
    }

    fn put(&mut self, value: u64, width: usize) -> &mut Bits {
        for i in 0..width {
            if self.count % 8 == 0 {
                self.bytes.push(0);
            }
            let bit = (value >> i) as u8 & 1;
            *self.bytes.last_mut().unwrap() |= bit << (self.count % 8);
            self.count += 1;
        }
        self
    }
}

/// The start of a setup packet with one codebook.
fn setup(dimensions: u64, entries: u64) -> Bits {
    let mut bits = Bits::new(b"\x05vorbis");
    bits.put(0, 8).put(0x564342, 24).put(dimensions, 16).put(entries, 24);
    bits
}

/// Lengths of codewords, one for each.
fn listed(bits: &mut Bits, lengths: &[u64]) {
    bits.put(0, 1).put(0, 1);
    for len in lengths {
        bits.put(len - 1, 5);
    }
}

/// The description of a table of values of four bits, and the values.
fn table(bits: &mut Bits, kind: u64, values: usize) {
    bits.put(kind, 4).put(0, 32).put(0, 32).put(3, 4).put(0, 1);
    for _ in 0..values {
        bits.put(0, 4);
    }
}

/// A setup packet that a decoder can be made of, but for the table of values of its codebook.
fn whole_setup(dimensions: u64, kind: u64, padding: usize) -> Vec<u8> {
    let mut bits = setup(dimensions, 2);
    listed(&mut bits, &[1, 1]);
    if kind == 0 {
        bits.put(0, 4);
    } else {
        table(&mut bits, kind, 2);
    }
    // No transforms, one floor without partitions, one residue without codebooks, one mapping and
    // one mode.
    bits.put(0, 6).put(0, 16);
    bits.put(0, 6).put(1, 16).put(0, 5).put(0, 2).put(6, 4);
    bits.put(0, 6).put(0, 16).put(0, 24).put(0, 24).put(0, 24).put(0, 6).put(0, 8).put(0, 4);
    bits.put(0, 6).put(0, 16).put(0, 1).put(0, 1).put(0, 2).put(0, 8).put(0, 8).put(0, 8);
    bits.put(0, 6).put(0, 1).put(0, 16).put(0, 16).put(0, 8);
    bits.put(1, 1);
    let mut packet = bits.bytes;
    packet.extend_from_slice(&vec![0; padding]);
    packet
}

/// An Ogg page with the segments `lacing`.
fn page(flags: u8, position: u64, sequence: u32, lacing: &[u8], body: &[u8]) -> Vec<u8> {
    page_of(77, flags, position, sequence, lacing, body)
}

/// An Ogg page of the stream `serial`.
fn page_of(
    serial: u32,
    flags: u8,
    position: u64,
    sequence: u32,
    lacing: &[u8],
    body: &[u8],
) -> Vec<u8> {
    let mut bytes = b"OggS\0".to_vec();
    bytes.push(flags);
    bytes.extend_from_slice(&position.to_le_bytes());
    bytes.extend_from_slice(&serial.to_le_bytes());
    bytes.extend_from_slice(&sequence.to_le_bytes());
    bytes.extend_from_slice(&[0; 4]);
    bytes.push(lacing.len() as u8);
    bytes.extend_from_slice(lacing);
    bytes.extend_from_slice(body);
    let mut crc = 0u32;
    for byte in &bytes {
        crc ^= (*byte as u32) << 24;
        for _ in 0..8 {
            crc = if crc >> 31 == 1 { (crc << 1) ^ 0x04c1_1db7 } else { crc << 1 };
        }
    }
    bytes[22..26].copy_from_slice(&crc.to_le_bytes());
    bytes
}

/// An Ogg Vorbis file with the setup packet `setup`, in one page or in two.
fn ogg(setup: &[u8], two_pages: bool) -> Vec<u8> {
    let mut ident = b"\x01vorbis\0\0\0\0\x01".to_vec();
    ident.extend_from_slice(&44_100u32.to_le_bytes());
    ident.extend_from_slice(&[0; 12]);
    ident.extend_from_slice(&[0x88, 1]);
    let comment = b"\x03vorbis\0\0\0\0\0\0\0\0\x01";
    let mut bytes = page(2, 0, 0, &[ident.len() as u8], &ident);
    let mut body = comment.to_vec();
    if two_pages {
        body.extend_from_slice(&setup[..255]);
        bytes.extend_from_slice(&page(0, 0, 1, &[comment.len() as u8, 255], &body));
        let rest = &setup[255..];
        bytes.extend_from_slice(&page(1, 0, 2, &[rest.len() as u8], rest));
    } else {
        body.extend_from_slice(setup);
        let lacing = [comment.len() as u8, setup.len() as u8];
        bytes.extend_from_slice(&page(0, 0, 1, &lacing, &body));
    }
    bytes.extend_from_slice(&page(4, 256, 3, &[2, 2], &[0, 0, 0, 0]));
    bytes
}

fn opened(bytes: Vec<u8>) -> Result<SymphoniaDecoder, DecodeError> {
    SymphoniaDecoder::open(bytes, 44_100)
}

fn is_malformed(r: Result<SymphoniaDecoder, DecodeError>) -> bool {
    matches!(r, Err(DecodeError::Symphonia(text)) if text == "malformed header")
}

#[test]
fn a_file_without_a_sample_rate_is_refused() {
    let bytes = riff(&[chunk(b"fmt ", &format(1, 2, 0, 16))]);
    assert_eq!(find_obstacle(&bytes), Some(Obstacle::ZeroSampleRate));
    assert!(matches!(opened(bytes), Err(DecodeError::InvalidSampleRate(0))));
}

#[test]
fn a_second_format_is_looked_at_too() {
    let good = chunk(b"fmt ", &format(1, 2, 44_100, 16));
    let bad = chunk(b"fmt ", &format(3, 2, 0, 32));
    assert_eq!(
        find_obstacle(&riff(&[good.clone(), chunk(b"junk", &[1, 2, 3]), bad])),
        Some(Obstacle::ZeroSampleRate)
    );
    assert_eq!(find_obstacle(&riff(&[good])), None);
}

#[test]
fn notes_about_the_music_are_passed_over() {
    let mut notes = b"INFO".to_vec();
    notes.extend_from_slice(&chunk(b"INAM", b"abc"));
    notes.extend_from_slice(&chunk(b"IART", b"fmt "));
    let good = chunk(b"fmt ", &format(1, 2, 44_100, 16));
    let bytes = riff(&[chunk(b"LIST", &notes), good]);
    assert_eq!(find_obstacle(&bytes), None);
    assert_eq!(opened(bytes).unwrap().total_frames(), Some(4));
    let bad = chunk(b"fmt ", &format(1, 2, 0, 16));
    let bytes = riff(&[chunk(b"LIST", &notes), bad]);
    assert!(matches!(opened(bytes), Err(DecodeError::InvalidSampleRate(0))));
}

#[test]
fn a_mark_is_found_behind_other_bytes() {
    let mut bytes = b"some bytes in front ".to_vec();
    bytes.extend_from_slice(&riff(&[chunk(b"fmt ", &format(1, 2, 0, 16))]));
    assert!(matches!(opened(bytes), Err(DecodeError::InvalidSampleRate(0))));
    let mut bytes = vec![0; 0x10_0000 - 1];
    bytes.extend_from_slice(&riff(&[chunk(b"fmt ", &format(1, 2, 0, 16))]));
    assert_eq!(find_obstacle(&bytes), None);
    assert_eq!(find_obstacle(&bytes[1..]), Some(Obstacle::ZeroSampleRate));
    assert!(matches!(opened(bytes), Err(DecodeError::Symphonia(_))));
}

#[test]
fn samples_without_bits_are_refused() {
    let mut body = format(0xfffe, 2, 44_100, 0);
    body.extend_from_slice(&22u16.to_le_bytes());
    body.extend_from_slice(&0u16.to_le_bytes());
    body.extend_from_slice(&3u32.to_le_bytes());
    body.extend_from_slice(&[
        0x01, 0x00, 0x00, 0x00, 0x00, 0x00, 0x10, 0x00, 0x80, 0x00, 0x00, 0xaa, 0x00, 0x38, 0x9b,
        0x71,
    ]);
    assert!(is_malformed(opened(riff(&[chunk(b"fmt ", &body)]))));
    body[14] = 16;
    let decoder = opened(riff(&[chunk(b"fmt ", &body)])).unwrap();
    assert_eq!(decoder.total_frames(), Some(4));
}

#[test]
fn a_packet_that_is_no_setup_packet_is_sound() {
    assert!(check_packet(&[]));
    assert!(check_packet(&[0, 1, 2, 3]));
    assert!(check_packet(b"\x03vorbis"));
    assert!(!check_packet(b"\x05vorbis"));
}

#[test]
fn a_rejected_codebook_is_sound() {
    let mut bits = Bits::new(b"\x05vorbis");
    bits.put(0, 8).put(0x111111, 24).put(0, 16).put(0, 24).put(0, 8);
    assert!(check_packet(&bits.bytes));
    let mut bits = setup(0, 2);
    listed(&mut bits, &[1, 1]);
    bits.put(3, 4);
    assert!(check_packet(&bits.bytes));
}

#[test]
fn a_table_of_values_needs_dimensions() {
    for kind in [1, 2] {
        for dimensions in [0, 1] {
            let mut bits = setup(dimensions, 2);
            listed(&mut bits, &[1, 1]);
            table(&mut bits, kind, 2);
            assert_eq!(check_packet(&bits.bytes), dimensions == 1);
        }
    }
    let mut bits = setup(0, 2);
    listed(&mut bits, &[1, 1]);
    bits.put(0, 4);
    assert!(check_packet(&bits.bytes));
}

#[test]
fn the_number_of_values_has_to_come_out_right() {
    // Nine values in each of four dimensions, then two in more than fit.
    for (entries, dimensions, values, sound) in
        [(6_561, 4, 9, true), (6_560, 4, 8, true), (4, 31, 1, true), (4, 32, 1, false)]
    {
        let mut bits = setup(dimensions, entries);
        bits.put(0, 1).put(1, 1);
        for _ in 0..entries {
            bits.put(0, 1);
        }
        table(&mut bits, 1, values);
        assert_eq!(check_packet(&bits.bytes), sound, "{entries} {dimensions}");
    }
}

#[test]
fn the_longest_codewords_need_room() {
    for (lengths, sound) in [(vec![1, 2, 32, 32], true), (vec![1, 1, 32], false)] {
        let mut bits = setup(1, lengths.len() as u64);
        listed(&mut bits, &lengths);
        bits.put(0, 4);
        assert_eq!(check_packet(&bits.bytes), sound);
    }
}

#[test]
fn codewords_in_order_of_length_are_no_longer_than_allowed() {
    // Two of 31 or 32 bits, then one of the next length.
    for (shortest, sound) in [(31, true), (32, false)] {
        let mut bits = setup(1, 3);
        bits.put(1, 1).put(shortest - 1, 5).put(2, 2).put(1, 1).put(0, 4);
        assert_eq!(check_packet(&bits.bytes), sound);
    }
    let mut bits = setup(1, 3);
    bits.put(1, 1).put(0, 5).put(0, 2).put(3, 2).put(0, 4);
    assert!(check_packet(&bits.bytes));
}

#[test]
fn a_codebook_does_not_run_on_behind_its_packet() {
    let mut bits = setup(2, 2);
    listed(&mut bits, &[1, 1]);
    table(&mut bits, 2, 1);
    assert!(!check_packet(&bits.bytes));
}

#[test]
fn an_ogg_file_is_opened() {
    for (padding, two_pages) in [(0, false), (300, true)] {
        for (dimensions, kind) in [(1, 0), (0, 0), (1, 1), (1, 2)] {
            let bytes = ogg(&whole_setup(dimensions, kind, padding), two_pages);
            assert_eq!(find_obstacle(&bytes), None);
            let mut decoder = opened(bytes).unwrap();
            assert_eq!(decoder.native.track_id, 77);
            assert_eq!(decoder.source_sample_rate, 44_100);
            assert!(matches!(decoder.fetch_packet(), Ok(Fetched::Packet(_))));
            assert!(matches!(decoder.fetch_packet(), Ok(Fetched::Packet(_))));
            assert!(matches!(decoder.fetch_packet(), Ok(Fetched::End)));
        }
    }
}

#[test]
fn an_ogg_file_with_an_unsound_codebook_is_refused() {
    for (padding, two_pages) in [(0, false), (300, true)] {
        for kind in [1, 2] {
            assert!(is_malformed(opened(ogg(&whole_setup(0, kind, padding), two_pages))));
        }
    }
}

#[test]
fn a_setup_packet_that_breaks_off_is_refused() {
    let mut bytes = ogg(&whole_setup(1, 0, 300), true);
    let at = bytes.len() - 40;
    bytes[at] ^= 1;
    assert_eq!(find_obstacle(&bytes), Some(Obstacle::MalformedHeader));
}

#[test]
fn a_broken_page_is_skipped() {
    let mut bytes = ogg(&whole_setup(1, 0, 0), false);
    bytes.extend_from_slice(&page(0, 512, 4, &[2], &[0, 0]));
    let last = bytes.len() - 1;
    bytes[last] ^= 1;
    bytes.extend_from_slice(&page(4, 768, 5, &[2], &[0, 0]));
    assert_eq!(find_obstacle(&bytes), None);
    let mut decoder = opened(bytes).unwrap();
    for _ in 0..3 {
        assert!(matches!(decoder.fetch_packet(), Ok(Fetched::Packet(_))));
    }
    assert!(matches!(decoder.fetch_packet(), Ok(Fetched::End)));
}

/// Pages of sound that make a file long, with the numbers from `sequence` on.
fn much_sound(sequence: u32) -> Vec<u8> {
    let mut lacing = vec![255; 100];
    lacing.push(0);
    let mut bytes = Vec::new();
    for i in 0..3 {
        let number = sequence + i;
        bytes.extend_from_slice(&page(0, 256 + i as u64, number, &lacing, &vec![0; 25_500]));
    }
    bytes
}

#[test]
fn the_streams_of_a_long_file_begin_at_its_start() {
    let mut long = ogg(&whole_setup(1, 0, 0), false);
    long.extend_from_slice(&much_sound(4));
    assert_eq!(find_obstacle(&long), None);
    assert!(opened(long.clone()).is_ok());

    let foreign = page_of(78, 0, 0, 0, &[2], &[9, 9]);
    let mut two = long.clone();
    two.extend_from_slice(&foreign);
    assert!(is_malformed(opened(two.clone())));
    let last = two.len() - 1;
    two[last] ^= 1;
    assert_eq!(find_obstacle(&two), None);
    assert!(opened(two).is_ok());

    let mut chained = long;
    chained.extend_from_slice(&ogg(&whole_setup(1, 0, 0), false));
    assert!(is_malformed(opened(chained)));
}

#[test]
fn several_streams_that_begin_together_are_opened() {
    let ours = ogg(&whole_setup(1, 0, 0), false);
    let mut bytes = page_of(78, 2, 0, 0, &[4], b"text");
    bytes.extend_from_slice(&ours);
    bytes.extend_from_slice(&page_of(78, 0, 0, 1, &[2], &[9, 9]));
    bytes.extend_from_slice(&much_sound(4));
    assert_eq!(find_obstacle(&bytes), None);
    assert_eq!(opened(bytes).unwrap().native.track_id, 77);

    // Without a whole packet on its first page a stream has not begun.
    let mut bytes = page_of(78, 2, 0, 0, &[255], &[0; 255]);
    bytes.extend_from_slice(&ours);
    bytes.extend_from_slice(&page_of(78, 0, 0, 1, &[2], &[9, 9]));
    bytes.extend_from_slice(&much_sound(4));
    assert_eq!(find_obstacle(&bytes), Some(Obstacle::MalformedHeader));
}

#[test]
fn a_short_file_may_be_a_chain() {
    let mut bytes = ogg(&whole_setup(1, 0, 0), false);
    bytes.extend_from_slice(&ogg(&whole_setup(1, 0, 0), false));
    assert_eq!(find_obstacle(&bytes), None);
    let mut decoder = opened(bytes).unwrap();
    assert!(matches!(decoder.fetch_packet(), Ok(Fetched::Packet(_))));
    assert!(matches!(decoder.fetch_packet(), Ok(Fetched::Packet(_))));
    assert!(matches!(decoder.fetch_packet(), Err(DecodeError::ResetRequired)));
}

/// The header of a FLAC stream in an Ogg page, with blocks of at least `shortest` frames.
fn flac_header(shortest: u16) -> Vec<u8> {
    let mut body = b"\x7fFLAC\x01\0\0\0fLaC\0\0\0\x22".to_vec();
    body.extend_from_slice(&shortest.to_be_bytes());
    body.extend_from_slice(&4_096u16.to_be_bytes());
    body.extend_from_slice(&[0; 6]);
    body.extend_from_slice(&[0x0a, 0xc4, 0x42, 0xf0]);
    body.extend_from_slice(&[0; 20]);
    body
}

#[test]
fn a_setup_packet_may_not_be_taken_up_behind_another_stream() {
    for (dimensions, kind) in [(0, 1), (1, 0)] {
        let setup = whole_setup(dimensions, kind, 300);
        let rest = &setup[255..];
        let first = page(0, 512, 4, &[255], &setup[..255]);
        let last = page(1, 512, 5, &[rest.len() as u8], rest);
        let start = ogg(&whole_setup(1, 0, 0), false);

        let mut apart = start.clone();
        apart.extend_from_slice(&first);
        apart.extend_from_slice(&page(2, 0, 0, &[51], &flac_header(15)));
        apart.extend_from_slice(&last);
        assert_eq!(flac_header(15).len(), 51);
        assert!(is_malformed(opened(apart)));

        let mut together = start;
        together.extend_from_slice(&first);
        together.extend_from_slice(&last);
        assert_eq!(find_obstacle(&together).is_some(), kind == 1);
    }
}

#[test]
fn a_time_has_to_be_in_range() {
    let start = ogg(&whole_setup(1, 0, 0), false);
    for (time, lacing, sound) in [
        (0x1fff_ffff_ffff_ffff, [2, 2], true),
        (0x2000_0000_0000_0000, [2, 2], false),
        (0x8000_0000_0000_0000, [2, 2], false),
        (u64::MAX, [2, 2], false),
        (u64::MAX, [255, 255], true),
    ] {
        let body = vec![0; lacing.iter().map(|l| *l as usize).sum()];
        let mut bytes = start.clone();
        bytes.extend_from_slice(&page(0, time, 4, &lacing, &body));
        bytes.extend_from_slice(&page(4, 512, 5, &[2], &[0, 0]));
        assert_eq!(find_obstacle(&bytes).is_none(), sound, "{time:x}");
        if sound {
            let mut decoder = opened(bytes).unwrap();
            assert!(matches!(decoder.fetch_packet(), Ok(Fetched::Packet(_))));
            let _ = decoder.begin_seek(u64::MAX);
            let _ = decoder.begin_seek(0);
        }
    }
}

#[test]
fn a_flac_stream_has_no_page_without_a_time() {
    let mut bytes = page(2, 0, 0, &[51], &flac_header(4_096));
    bytes.extend_from_slice(&page(0, 0, 1, &[4], &[0x84, 0, 0, 0]));
    bytes.extend_from_slice(&page(0, 4_096, 2, &[6], &[0xff, 0xf8, 0, 0, 0, 0]));
    assert_eq!(find_obstacle(&bytes), None);
    assert!(matches!(opened(bytes.clone()), Err(DecodeError::NoAudioTrack)));
    bytes.extend_from_slice(&page(0, u64::MAX, 3, &[255], &[0; 255]));
    assert!(is_malformed(opened(bytes)));
}

#[test]
fn a_tag_in_front_is_refused() {
    let mut bytes = b"ID3\x04\0\0\0\0\0\0".to_vec();
    bytes.extend_from_slice(&riff(&[chunk(b"fmt ", &format(1, 2, 44_100, 16))]));
    assert!(is_malformed(opened(bytes)));
}

#[test]
fn only_a_wave_file_is_looked_into() {
    let mut bytes = riff(&[chunk(b"fmt ", &format(1, 2, 0, 16))]);
    bytes[8..12].copy_from_slice(b"AVI ");
    assert_eq!(find_obstacle(&bytes), None);
    let refused = opened(bytes);
    assert!(matches!(refused, Err(DecodeError::Symphonia(text)) if text != "malformed header"));
}

#[test]
fn chunks_end_with_the_file_that_they_are_in() {
    let mut bytes = riff(&[chunk(b"junk", &[0; 4]), chunk(b"fmt ", &format(1, 2, 0, 16))]);
    assert_eq!(find_obstacle(&bytes), Some(Obstacle::ZeroSampleRate));
    for len in [12u32, 20, 27, 35] {
        bytes[4..8].copy_from_slice(&len.to_le_bytes());
        assert_eq!(find_obstacle(&bytes), None, "{len}");
        assert!(matches!(opened(bytes.clone()), Err(DecodeError::Symphonia(_))));
    }
    bytes[4..8].copy_from_slice(&36u32.to_le_bytes());
    assert_eq!(find_obstacle(&bytes), Some(Obstacle::ZeroSampleRate));
}

#[test]
fn a_format_that_is_rejected_is_no_obstacle() {
    for (tag, channels, bits) in [(1, 0, 16), (1, 27, 16), (1, 2, 12), (3, 2, 16), (9, 2, 16)] {
        let bytes = riff(&[chunk(b"fmt ", &format(tag, channels, 0, bits))]);
        assert_eq!(find_obstacle(&bytes), None);
        assert!(matches!(opened(bytes), Err(DecodeError::Symphonia(_))));
    }
    let bytes = riff(&[chunk(b"fact", &[0; 6]), chunk(b"fmt ", &format(1, 2, 0, 16))]);
    assert_eq!(find_obstacle(&bytes), None);
    assert!(matches!(opened(bytes), Err(DecodeError::Symphonia(_))));
}

/// An extensible format chunk of 16-bit samples.
fn extensible(channels: u16, rate: u32, mask: u32) -> Vec<u8> {
    let mut body = format(0xfffe, channels, rate, 16);
    body.extend_from_slice(&22u16.to_le_bytes());
    body.extend_from_slice(&16u16.to_le_bytes());
    body.extend_from_slice(&mask.to_le_bytes());
    body.extend_from_slice(&[
        0x01, 0x00, 0x00, 0x00, 0x00, 0x00, 0x10, 0x00, 0x80, 0x00, 0x00, 0xaa, 0x00, 0x38, 0x9b,
        0x71,
    ]);
    body
}

#[test]
fn a_mask_of_positions_has_to_have_room_for_the_channels() {
    let malformed = Some(Obstacle::MalformedHeader);
    let silent = Some(Obstacle::ZeroSampleRate);
    for (channels, mask, expected) in [
        (2, 3, silent),
        (26, 0, silent),
        (27, 0, None),
        (31, 0, None),
        (32, 0, malformed),
        (40, 0, malformed),
        (2, 0x8000_0000, malformed),
        (1, 0x8000_0000, None),
        (1, 0x8000_0001, silent),
        (2, 0xffff_ffff, silent),
        (0, 0xffff_ffff, silent),
    ] {
        let bytes = riff(&[chunk(b"fmt ", &extensible(channels, 0, mask))]);
        assert_eq!(find_obstacle(&bytes), expected, "{channels} {mask:x}");
        if expected.is_none() {
            assert!(matches!(opened(bytes), Err(DecodeError::Symphonia(_))));
        }
    }
    let bytes = riff(&[chunk(b"fmt ", &extensible(2, 44_100, 0))]);
    assert_eq!(opened(bytes).unwrap().total_frames(), Some(4));
}

#[test]
fn a_block_has_to_have_room_for_the_channels() {
    let head = |tag: u16, align: u16, extra: u16| {
        let mut body = format(tag, 2, 44_100, 4);
        body[12..14].copy_from_slice(&align.to_le_bytes());
        body.extend_from_slice(&extra.to_le_bytes());
        body.extend_from_slice(&vec![0; extra as usize]);
        riff(&[chunk(b"fmt ", &body)])
    };
    for (tag, extra, align, sound) in [
        (2, 32, 13, false),
        (2, 32, 14, true),
        (2, 32, 8_205, true),
        (2, 32, 8_206, false),
        (2, 31, 13, true),
        (0x11, 2, 7, false),
        (0x11, 2, 8, true),
        (0x11, 2, 8_199, true),
        (0x11, 2, 8_200, false),
        (0x11, 4, 7, true),
    ] {
        let bytes = head(tag, align, extra);
        assert_eq!(find_obstacle(&bytes).is_none(), sound, "{tag} {align}");
        if sound {
            assert!(opened(bytes).is_err());
        }
    }
}

#[test]
fn chunks_have_to_be_countable() {
    let mut bytes = b"RIFF\xff\xff\xff\xffWAVEfmt \xff\xff\xff\xff".to_vec();
    bytes.extend_from_slice(&extensible(2, 44_100, 3));
    assert_eq!(find_obstacle(&bytes), None);
    assert!(opened(bytes.clone()).is_err());
    bytes.push(0);
    assert!(is_malformed(opened(bytes)));

    // A file whose length was not known when it was written.
    let mut bytes = b"RIFF\xff\xff\xff\xffWAVE".to_vec();
    bytes.extend_from_slice(&chunk(b"fmt ", &format(1, 2, 44_100, 16)));
    bytes.extend_from_slice(b"data\xff\xff\xff\xff\0\0\0\0");
    assert_eq!(find_obstacle(&bytes), None);
    assert!(opened(bytes).is_ok());
}

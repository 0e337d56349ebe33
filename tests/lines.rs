use catprint::image::{print_job, Image, LEAD_FEED, TRAIL_FEED};
use catprint::line::{
    encode_line, encode_line_compressed, encode_line_uncompressed, pack_row, rle_bytes,
    rle_compress,
};
use catprint::protocol::{Command, DrawingMode, FeedDirection, LatticeType, Quality, LINE_BYTES, PIXELS_PER_LINE};

fn unpack(bytes: &[u8]) -> Vec<bool> {
    (0..bytes.len() * 8).map(|x| (bytes[x / 8] >> (x % 8)) & 1 == 1).collect()
}

fn expand(codes: &[u8]) -> Vec<bool> {
    let mut out = Vec::new();
    for c in codes {
        for _ in 0..(c & 0x7F) {
            out.push(c & 0x80 != 0);
        }
    }
    out
}

fn row_with_runs(run: usize) -> Vec<bool> {
    (0..PIXELS_PER_LINE).map(|x| (x / run) % 2 == 0).collect()
}

fn pseudo_random_row(seed: u32) -> Vec<bool> {
    let mut s = seed;
    (0..PIXELS_PER_LINE)
        .map(|_| {
            s = s.wrapping_mul(1103515245).wrapping_add(12345);
            (s >> 16) & 1 == 1
        })
        .collect()
}

#[test]
fn pack_sets_low_bit_first() {
    let mut row = vec![false; PIXELS_PER_LINE];
    row[0] = true;
    row[9] = true;
    row[383] = true;
    let packed = pack_row(&row);
    assert_eq!(packed[0], 0x01);
    assert_eq!(packed[1], 0x02);
    assert_eq!(packed[47], 0x80);
    assert!(packed[2..47].iter().all(|b| *b == 0));
}

#[test]
fn pack_unpack_round_trip() {
    for seed in 0..20 {
        let row = pseudo_random_row(seed);
        assert_eq!(unpack(&pack_row(&row)), row);
    }
    let (len, data) = encode_line_uncompressed(&row_with_runs(3));
    assert_eq!(len, LINE_BYTES);
    assert_eq!(unpack(&data), row_with_runs(3));
}

#[test]
fn rle_round_trip() {
    for seed in 0..20 {
        let row = pseudo_random_row(seed);
        assert_eq!(expand(&rle_compress(&row)), row);
    }
    for run in [1, 2, 5, 127, 128, 200, 384] {
        let row = row_with_runs(run);
        assert_eq!(expand(&rle_compress(&row)), row);
    }
}

#[test]
fn rle_bytes_splits_long_runs() {
    assert_eq!(rle_bytes(1, 300), vec![0xFF, 0xFF, 0xAE]);
    assert_eq!(rle_bytes(0, 300), vec![0x7F, 0x7F, 0x2E]);
    assert_eq!(rle_bytes(1, 254), vec![0xFF, 0xFF]);
    assert_eq!(rle_bytes(0, 127), vec![0x7F]);
    assert_eq!(rle_bytes(1, 1), vec![0x81]);
    assert_eq!(rle_bytes(0, 0), Vec::<u8>::new());
}

#[test]
fn uniform_rows_compress_to_four_codes() {
    assert_eq!(rle_compress(&vec![true; PIXELS_PER_LINE]), vec![0xFF, 0xFF, 0xFF, 0x83]);
    assert_eq!(rle_compress(&vec![false; PIXELS_PER_LINE]), vec![0x7F, 0x7F, 0x7F, 0x03]);
    let (compressed, len, data) = encode_line_compressed(&vec![true; PIXELS_PER_LINE]);
    assert!(compressed);
    assert_eq!(len, 4);
    assert_eq!(&data[..4], &[0xFF, 0xFF, 0xFF, 0x83]);
    assert!(data[4..].iter().all(|b| *b == 0));
}

#[test]
fn alternating_row_falls_back_to_bitmap() {
    let row = row_with_runs(1);
    assert_eq!(rle_compress(&row).len(), PIXELS_PER_LINE);
    let (compressed, len, data) = encode_line_compressed(&row);
    assert!(!compressed);
    assert_eq!(len, LINE_BYTES);
    assert_eq!(data, [0x55u8; LINE_BYTES]);
}

#[test]
fn stream_of_exactly_one_row_is_kept() {
    let row = row_with_runs(8);
    let (compressed, len, data) = encode_line_compressed(&row);
    assert!(compressed);
    assert_eq!(len, LINE_BYTES);
    assert_eq!(expand(&data), row);
    let (compressed, len, _) = encode_line_compressed(&row_with_runs(4));
    assert!(!compressed);
    assert_eq!(len, LINE_BYTES);
}

#[test]
fn encoded_length_never_exceeds_a_row() {
    for seed in 0..20 {
        let row = pseudo_random_row(seed);
        let (compressed, len, data) = encode_line(&row, true);
        assert!(len <= LINE_BYTES);
        if compressed {
            assert_eq!(expand(&data[..len]), row);
        } else {
            assert_eq!(unpack(&data), row);
        }
    }
}

#[test]
fn compression_off_gives_bitmap() {
    let row = vec![true; PIXELS_PER_LINE];
    let (compressed, len, data) = encode_line(&row, false);
    assert!(!compressed);
    assert_eq!(len, LINE_BYTES);
    assert_eq!(data, [0xFFu8; LINE_BYTES]);
}

#[test]
fn image_rejects_rows_of_wrong_width() {
    assert!(Image::from_rows(vec![vec![true; PIXELS_PER_LINE], vec![true; 10]]).is_none());
    assert!(Image::from_rows(vec![]).is_some());
}

#[test]
fn image_line_past_the_end_is_none() {
    let img = Image::from_rows(vec![vec![true; PIXELS_PER_LINE]; 2]).unwrap();
    assert_eq!(img.line_count(), 2);
    assert!(img.line(1, true).is_some());
    assert!(img.line(2, true).is_none());
    assert!(img.line_compressed(2).is_none());
    assert!(img.line_uncompressed(5).is_none());
    assert_eq!(img.line_uncompressed(0), Some((LINE_BYTES, [0xFFu8; LINE_BYTES])));
}

#[test]
fn print_job_commands() {
    let rows = vec![vec![true; PIXELS_PER_LINE], row_with_runs(1)];
    let img = Image::from_rows(rows).unwrap();
    let cmds = img.print(DrawingMode::Text, Quality::Quality3, 12000, true);
    assert_eq!(cmds.len(), 7);
    assert_eq!(cmds[0], Command::SetQuality(Quality::Quality3));
    assert_eq!(cmds[1], Command::SetEnergy(12000));
    assert_eq!(cmds[2], Command::SetDrawingMode(DrawingMode::Text));
    assert_eq!(cmds[3], Command::MagicLattice(LatticeType::Start));
    let mut first = [0u8; LINE_BYTES];
    first[..4].copy_from_slice(&[0xFF, 0xFF, 0xFF, 0x83]);
    assert_eq!(cmds[4], Command::Print(true, 4, first));
    assert_eq!(cmds[5], Command::Print(false, LINE_BYTES, [0x55u8; LINE_BYTES]));
    assert_eq!(cmds[6], Command::MagicLattice(LatticeType::End));
}

#[test]
fn print_job_feeds_around_the_image() {
    let img = Image::from_rows(vec![vec![false; PIXELS_PER_LINE]]).unwrap();
    let job = print_job(&img, DrawingMode::Image, Quality::Quality1, 500, false);
    assert_eq!(job.len(), 8);
    assert_eq!(job[0], Command::Feed(FeedDirection::Forward, LEAD_FEED));
    assert_eq!(LEAD_FEED, 10);
    assert_eq!(job[1], Command::SetQuality(Quality::Quality1));
    assert_eq!(job[2], Command::SetEnergy(500));
    assert_eq!(job[3], Command::SetDrawingMode(DrawingMode::Image));
    assert_eq!(job[4], Command::MagicLattice(LatticeType::Start));
    assert_eq!(job[5], Command::Print(false, LINE_BYTES, [0u8; LINE_BYTES]));
    assert_eq!(job[6], Command::MagicLattice(LatticeType::End));
    assert_eq!(job[7], Command::Feed(FeedDirection::Forward, TRAIL_FEED));
    assert_eq!(TRAIL_FEED, 150);
}

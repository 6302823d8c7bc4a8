use pgs_rs::parse::{ObjectDefinition, LastInSequence, RunLengthEncodedData};
use pgs_rs::rle::{
    parse_run_length_encoded_pixels, parse_single_encoded_pixel, RlEncodedPixels,
};

fn run(count: u16, color: u8) -> RlEncodedPixels {
    RlEncodedPixels { count, color }
}

fn object_with(width: u16, height: u16, runs: Vec<RlEncodedPixels>) -> ObjectDefinition {
    ObjectDefinition {
        id: 1,
        version: 0,
        last_in_sequence: LastInSequence::FirstAndLast,
        width,
        height,
        data: RunLengthEncodedData(runs),
    }
}

#[test]
fn single_pixel_of_a_colour() {
    assert_eq!(parse_run_length_encoded_pixels(&[0x05]), Some(vec![run(1, 5)]));
    assert_eq!(parse_single_encoded_pixel(&[0x05]), Some((run(1, 5), 1)));
}

#[test]
fn short_run_of_colour_zero() {
    assert_eq!(parse_run_length_encoded_pixels(&[0x00, 0x05]), Some(vec![run(5, 0)]));
    assert_eq!(parse_single_encoded_pixel(&[0x00, 0x05]), Some((run(5, 0), 2)));
}

#[test]
fn long_run_of_colour_zero() {
    assert_eq!(parse_run_length_encoded_pixels(&[0x00, 0x45, 0x0A]), Some(vec![run(1290, 0)]));
    assert_eq!(parse_single_encoded_pixel(&[0x00, 0x45, 0x0A]), Some((run(0x050A, 0), 3)));
}

#[test]
fn short_run_of_a_colour() {
    assert_eq!(parse_run_length_encoded_pixels(&[0x00, 0x85, 0x07]), Some(vec![run(5, 7)]));
    assert_eq!(parse_single_encoded_pixel(&[0x00, 0x85, 0x07]), Some((run(5, 7), 3)));
}

#[test]
fn long_run_of_a_colour() {
    assert_eq!(
        parse_run_length_encoded_pixels(&[0x00, 0xC5, 0x0A, 0x09]),
        Some(vec![run(1290, 9)])
    );
    assert_eq!(parse_single_encoded_pixel(&[0x00, 0xC5, 0x0A, 0x09]), Some((run(1290, 9), 4)));
}

#[test]
fn end_of_line_marker() {
    assert_eq!(parse_run_length_encoded_pixels(&[0x00, 0x00]), Some(vec![run(0, 0)]));
    assert_eq!(parse_single_encoded_pixel(&[0x00, 0x00]), Some((run(0, 0), 2)));
}

#[test]
fn longest_runs() {
    assert_eq!(parse_single_encoded_pixel(&[0x00, 0x3F]), Some((run(63, 0), 2)));
    assert_eq!(parse_single_encoded_pixel(&[0x00, 0x7F, 0xFF]), Some((run(0x3FFF, 0), 3)));
    assert_eq!(parse_single_encoded_pixel(&[0x00, 0xBF, 0xFF]), Some((run(63, 255), 3)));
    assert_eq!(
        parse_single_encoded_pixel(&[0x00, 0xFF, 0xFF, 0x01]),
        Some((run(0x3FFF, 1), 4))
    );
}

#[test]
fn runs_follow_each_other() {
    let encoded = [0x01, 0x00, 0x03, 0x00, 0x82, 0x09, 0x00, 0x00, 0xFF];
    assert_eq!(
        parse_run_length_encoded_pixels(&encoded),
        Some(vec![run(1, 1), run(3, 0), run(2, 9), run(0, 0), run(1, 255)])
    );
}

#[test]
fn a_run_decodes_only_the_first_run() {
    assert_eq!(parse_single_encoded_pixel(&[0x07, 0x08]), Some((run(1, 7), 1)));
    assert_eq!(parse_single_encoded_pixel(&[0x00, 0x02, 0x08]), Some((run(2, 0), 2)));
}

#[test]
fn empty_payload_has_no_runs() {
    assert_eq!(parse_run_length_encoded_pixels(&[]), Some(vec![]));
    assert_eq!(parse_single_encoded_pixel(&[]), None);
}

#[test]
fn truncated_runs_are_refused() {
    assert_eq!(parse_run_length_encoded_pixels(&[0x00]), None);
    assert_eq!(parse_run_length_encoded_pixels(&[0x00, 0x45]), None);
    assert_eq!(parse_run_length_encoded_pixels(&[0x00, 0x85]), None);
    assert_eq!(parse_run_length_encoded_pixels(&[0x00, 0xC5]), None);
    assert_eq!(parse_run_length_encoded_pixels(&[0x00, 0xC5, 0x0A]), None);
    assert_eq!(parse_run_length_encoded_pixels(&[0x05, 0x00]), None);
    assert_eq!(parse_single_encoded_pixel(&[0x00]), None);
    assert_eq!(parse_single_encoded_pixel(&[0x00, 0xC5, 0x0A]), None);
}

#[test]
fn total_pixels_adds_run_lengths() {
    let data = RunLengthEncodedData(vec![run(3, 1), run(0, 0), run(1290, 2)]);
    assert_eq!(data.total_pixels(2000), Some(1293));
    assert_eq!(data.total_pixels(1293), Some(1293));
    assert_eq!(data.total_pixels(1292), None);
    assert_eq!(RunLengthEncodedData(vec![]).total_pixels(0), Some(0));
}

#[test]
fn object_with_matching_total_covers_its_raster() {
    let object = object_with(3, 2, vec![run(3, 1), run(0, 0), run(2, 2), run(1, 3), run(0, 0)]);
    assert!(object.covers_raster());
}

#[test]
fn object_with_mismatched_total_is_flagged() {
    assert!(!object_with(3, 2, vec![run(3, 1), run(2, 2)]).covers_raster());
    assert!(!object_with(3, 2, vec![run(3, 1), run(4, 2)]).covers_raster());
    assert!(!object_with(2, 2, vec![]).covers_raster());
    assert!(object_with(0, 7, vec![]).covers_raster());
    assert!(!object_with(0xFFFF, 0xFFFF, vec![run(0x3FFF, 1)]).covers_raster());
}

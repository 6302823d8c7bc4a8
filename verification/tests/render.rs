use pgs_rs::error::PgsError;
use pgs_rs::parse::{
    CompositionObject, CompositionState, CropInfo, LastInSequence, ObjectDefinition,
    PaletteDefinition, PaletteEntry, RlEncodedPixels, RunLengthEncodedData,
};
use pgs_rs::parse_pgs;
use pgs_rs::render::{
    get_display_sets, is_cropped_1, move_one_pixel_forward, paint_display_set, DisplaySet,
};
use pgs_rs::render_display_set;
use std::collections::HashMap;

fn entry(id: u8) -> PaletteEntry {
    PaletteEntry {
        id,
        luminance: 0x10 + id,
        color_difference_blue: 0x20 + id,
        color_difference_red: 0x30 + id,
        alpha: 0x40 + id,
    }
}

fn packed(id: u8) -> [u8; 4] {
    [0x40 + id, 0x10 + id, 0x20 + id, 0x30 + id]
}

fn palette(id: u8, entries: &[PaletteEntry]) -> PaletteDefinition {
    PaletteDefinition { id, version: 0, entries: entries.iter().map(|e| (e.id, *e)).collect() }
}

fn object(id: u16, width: u16, height: u16, runs: &[(u16, u8)]) -> ObjectDefinition {
    ObjectDefinition {
        id,
        version: 0,
        last_in_sequence: LastInSequence::FirstAndLast,
        width,
        height,
        data: RunLengthEncodedData(
            runs.iter().map(|&(count, color)| RlEncodedPixels { count, color }).collect(),
        ),
    }
}

fn place(id: u16, x: u16, y: u16, crop: Option<(u16, u16, u16, u16)>) -> CompositionObject {
    CompositionObject {
        id,
        window_id: 0,
        horizontal_position: x,
        vertical_position: y,
        cropped: crop.map(|(cx, cy, cw, ch)| CropInfo {
            horizontal_position: cx,
            vertical_position: cy,
            width: cw,
            height: ch,
        }),
    }
}

fn display_set<'a>(
    width: u16,
    height: u16,
    placements: &'a [CompositionObject],
    palettes: &'a [PaletteDefinition],
    objects: &'a [ObjectDefinition],
) -> DisplaySet<'a> {
    DisplaySet {
        presentation_timestamp: 0,
        decoding_timestamp: 0,
        width,
        height,
        frame_rate: 0x10,
        composition_number: 0,
        composition_state: CompositionState::EpochStart,
        palette_update: false,
        palette_id: 0,
        composition_objects: placements,
        windows: HashMap::new(),
        palettes: palettes.iter().map(|p| (p.id, p)).collect(),
        objects: objects.iter().map(|o| (o.id, o)).collect(),
    }
}

fn frame(width: usize, height: usize, pixels: &[(usize, usize, u8)]) -> Vec<u8> {
    let mut bytes = vec![0u8; width * height * 4];
    for &(x, y, id) in pixels {
        let at = (y * width + x) * 4;
        bytes[at..at + 4].copy_from_slice(&packed(id));
    }
    bytes
}

#[test]
fn blank_frame_is_all_zero() {
    let set = display_set(3, 2, &[], &[], &[]);
    assert!(set.is_empty());
    assert_eq!(paint_display_set(&set).unwrap(), vec![0u8; 24]);
}

#[test]
fn one_pixel_is_written_as_alpha_luma_blue_red() {
    let placements = [place(1, 1, 1, None)];
    let palettes = [palette(0, &[entry(5)])];
    let objects = [object(1, 1, 1, &[(1, 5)])];
    let set = display_set(2, 2, &placements, &palettes, &objects);
    let painted = paint_display_set(&set).unwrap();
    assert_eq!(painted.len(), 16);
    assert_eq!(&painted[..12], &[0u8; 12]);
    assert_eq!(&painted[12..], &[0x45, 0x15, 0x25, 0x35]);
}

#[test]
fn rows_wrap_at_the_right_edge_of_the_object() {
    let placements = [place(1, 1, 1, None)];
    let palettes = [palette(0, &[entry(0), entry(1), entry(2), entry(3)])];
    let objects = [object(1, 2, 2, &[(2, 1), (0, 0), (1, 2), (1, 3), (0, 0)])];
    let set = display_set(4, 3, &placements, &palettes, &objects);
    assert_eq!(
        paint_display_set(&set).unwrap(),
        frame(4, 3, &[(1, 1, 1), (2, 1, 1), (1, 2, 2), (2, 2, 3)])
    );
}

#[test]
fn object_that_touches_the_right_edge_of_the_frame_wraps_to_its_own_column() {
    let placements = [place(1, 1, 0, None)];
    let palettes = [palette(0, &[entry(1), entry(2)])];
    let objects = [object(1, 2, 2, &[(2, 1), (2, 2)])];
    let set = display_set(3, 2, &placements, &palettes, &objects);
    assert_eq!(
        paint_display_set(&set).unwrap(),
        frame(3, 2, &[(1, 0, 1), (2, 0, 1), (1, 1, 2), (2, 1, 2)])
    );
}

#[test]
fn run_may_span_rows() {
    let placements = [place(1, 0, 0, None)];
    let palettes = [palette(0, &[entry(1)])];
    let objects = [object(1, 2, 3, &[(5, 1)])];
    let set = display_set(3, 3, &placements, &palettes, &objects);
    assert_eq!(
        paint_display_set(&set).unwrap(),
        frame(3, 3, &[(0, 0, 1), (1, 0, 1), (0, 1, 1), (1, 1, 1), (0, 2, 1)])
    );
}

#[test]
fn object_that_fills_the_frame() {
    let placements = [place(1, 0, 0, None)];
    let palettes = [palette(0, &[entry(1), entry(2)])];
    let objects = [object(1, 2, 2, &[(1, 1), (2, 2), (1, 1)])];
    let set = display_set(2, 2, &placements, &palettes, &objects);
    assert_eq!(
        paint_display_set(&set).unwrap(),
        frame(2, 2, &[(0, 0, 1), (1, 0, 2), (0, 1, 2), (1, 1, 1)])
    );
}

#[test]
fn pixels_outside_the_crop_rectangle_stay_transparent() {
    let placements = [place(1, 0, 0, Some((1, 0, 1, 2)))];
    let palettes = [palette(0, &[entry(1), entry(2)])];
    let objects = [object(1, 3, 2, &[(3, 1), (3, 2)])];
    let set = display_set(3, 2, &placements, &palettes, &objects);
    assert_eq!(paint_display_set(&set).unwrap(), frame(3, 2, &[(1, 0, 1), (1, 1, 2)]));
}

#[test]
fn crop_rectangle_is_relative_to_the_object() {
    let placements = [place(1, 1, 1, Some((0, 1, 2, 1)))];
    let palettes = [palette(0, &[entry(1), entry(2)])];
    let objects = [object(1, 2, 2, &[(2, 1), (2, 2)])];
    let set = display_set(4, 3, &placements, &palettes, &objects);
    assert_eq!(paint_display_set(&set).unwrap(), frame(4, 3, &[(1, 2, 2), (2, 2, 2)]));
}

#[test]
fn empty_crop_rectangle_hides_the_object() {
    let placements = [place(1, 0, 0, Some((0, 0, 0, 0)))];
    let palettes = [palette(0, &[entry(1)])];
    let objects = [object(1, 2, 1, &[(2, 1)])];
    let set = display_set(2, 1, &placements, &palettes, &objects);
    assert_eq!(paint_display_set(&set).unwrap(), vec![0u8; 8]);
}

#[test]
fn crop_rectangle_as_large_as_the_object_hides_nothing() {
    let placements = [place(1, 0, 0, Some((0, 0, 2, 1)))];
    let palettes = [palette(0, &[entry(1)])];
    let objects = [object(1, 2, 1, &[(2, 1)])];
    let set = display_set(2, 1, &placements, &palettes, &objects);
    assert_eq!(paint_display_set(&set).unwrap(), frame(2, 1, &[(0, 0, 1), (1, 0, 1)]));
}

#[test]
fn later_object_paints_over_earlier() {
    let placements = [place(1, 0, 0, None), place(2, 1, 0, None)];
    let palettes = [palette(0, &[entry(1), entry(2)])];
    let objects = [object(1, 2, 1, &[(2, 1)]), object(2, 1, 1, &[(1, 2)])];
    let set = display_set(2, 1, &placements, &palettes, &objects);
    assert_eq!(paint_display_set(&set).unwrap(), frame(2, 1, &[(0, 0, 1), (1, 0, 2)]));
}

#[test]
fn only_palette_zero_is_consulted() {
    let placements = [place(1, 0, 0, None)];
    let palettes = [palette(7, &[entry(1)])];
    let objects = [object(1, 1, 1, &[(1, 1)])];
    let mut set = display_set(1, 1, &placements, &palettes, &objects);
    set.palette_id = 7;
    assert!(matches!(
        paint_display_set(&set),
        Err(PgsError::PaletteNotFound { palette_id: 0, entry_id: 1 })
    ));
}

#[test]
fn unknown_object_is_not_found() {
    let placements = [place(0x1234, 0, 0, None)];
    let palettes = [palette(0, &[entry(1)])];
    let objects = [object(1, 1, 1, &[(1, 1)])];
    let set = display_set(1, 1, &placements, &palettes, &objects);
    assert!(matches!(
        paint_display_set(&set),
        Err(PgsError::ObjectNotFound { object_id: 0x1234 })
    ));
    assert!(matches!(
        render_display_set(&set),
        Err(PgsError::ObjectNotFound { object_id: 0x1234 })
    ));
}

#[test]
fn missing_palette_entry_is_not_found() {
    let placements = [place(1, 0, 0, None)];
    let palettes = [palette(0, &[entry(1)])];
    let objects = [object(1, 2, 1, &[(1, 1), (1, 9)])];
    let set = display_set(2, 1, &placements, &palettes, &objects);
    assert!(matches!(
        paint_display_set(&set),
        Err(PgsError::PaletteNotFound { palette_id: 0, entry_id: 9 })
    ));
}

#[test]
fn run_without_pixels_still_needs_its_colour() {
    let placements = [place(1, 0, 0, None)];
    let palettes = [palette(0, &[entry(1)])];
    let objects = [object(1, 1, 1, &[(1, 1), (0, 0)])];
    let set = display_set(1, 1, &placements, &palettes, &objects);
    assert!(matches!(
        paint_display_set(&set),
        Err(PgsError::PaletteNotFound { palette_id: 0, entry_id: 0 })
    ));
}

#[test]
fn object_without_runs_needs_no_palette() {
    let placements = [place(1, 5, 5, None)];
    let objects = [object(1, 0, 0, &[])];
    let set = display_set(1, 1, &placements, &[], &objects);
    assert_eq!(paint_display_set(&set).unwrap(), vec![0u8; 4]);
}

#[test]
fn first_failing_object_is_reported() {
    let placements = [place(1, 0, 0, None), place(2, 0, 0, None), place(3, 0, 0, None)];
    let palettes = [palette(0, &[entry(1)])];
    let objects = [object(1, 1, 1, &[(1, 1)]), object(3, 1, 1, &[(1, 8)])];
    let set = display_set(1, 1, &placements, &palettes, &objects);
    assert!(matches!(paint_display_set(&set), Err(PgsError::ObjectNotFound { object_id: 2 })));
}

#[test]
fn object_outside_the_frame_is_refused() {
    let palettes = [palette(0, &[entry(1)])];
    let wide = [object(1, 3, 1, &[(3, 1)])];
    let placements = [place(1, 0, 0, None)];
    assert!(matches!(
        paint_display_set(&display_set(2, 2, &placements, &palettes, &wide)),
        Err(PgsError::ObjectOutOfBounds { object_id: 1 })
    ));
    let shifted = [place(1, 1, 0, None)];
    let fitting = [object(1, 2, 1, &[(2, 1)])];
    assert!(matches!(
        paint_display_set(&display_set(2, 2, &shifted, &palettes, &fitting)),
        Err(PgsError::ObjectOutOfBounds { object_id: 1 })
    ));
    let tall = [object(1, 1, 3, &[(3, 1)])];
    assert!(matches!(
        paint_display_set(&display_set(2, 2, &placements, &palettes, &tall)),
        Err(PgsError::ObjectOutOfBounds { object_id: 1 })
    ));
    let low = [place(1, 0, 1, None)];
    let two_rows = [object(1, 1, 2, &[(2, 1)])];
    assert!(matches!(
        paint_display_set(&display_set(2, 2, &low, &palettes, &two_rows)),
        Err(PgsError::ObjectOutOfBounds { object_id: 1 })
    ));
    let no_width = [object(1, 0, 1, &[(1, 1)])];
    assert!(matches!(
        paint_display_set(&display_set(2, 2, &placements, &palettes, &no_width)),
        Err(PgsError::ObjectOutOfBounds { object_id: 1 })
    ));
    assert!(matches!(
        paint_display_set(&display_set(0, 0, &placements, &palettes, &fitting)),
        Err(PgsError::ObjectOutOfBounds { object_id: 1 })
    ));
}

#[test]
fn object_with_more_rows_than_it_declares_is_painted_while_it_fits() {
    let placements = [place(1, 0, 0, None)];
    let palettes = [palette(0, &[entry(1)])];
    let objects = [object(1, 1, 1, &[(2, 1)])];
    let set = display_set(1, 2, &placements, &palettes, &objects);
    assert!(!objects[0].covers_raster());
    assert_eq!(paint_display_set(&set).unwrap(), frame(1, 2, &[(0, 0, 1), (0, 1, 1)]));
}

#[test]
fn frame_without_pixels_is_refused_by_the_converter() {
    assert_eq!(paint_display_set(&display_set(0, 5, &[], &[], &[])).unwrap(), vec![]);
    assert!(matches!(
        render_display_set(&display_set(0, 5, &[], &[], &[])),
        Err(PgsError::YuvError(_))
    ));
    assert!(matches!(
        render_display_set(&display_set(5, 0, &[], &[], &[])),
        Err(PgsError::YuvError(_))
    ));
    assert!(matches!(
        render_display_set(&display_set(0, 0, &[], &[], &[])),
        Err(PgsError::YuvError(_))
    ));
}

#[test]
fn conversion_puts_alpha_last_and_turns_luma_into_colour() {
    let white = PaletteEntry {
        id: 1,
        luminance: 0xFF,
        color_difference_blue: 0x80,
        color_difference_red: 0x80,
        alpha: 0xFF,
    };
    let placements = [place(1, 0, 0, None)];
    let palettes = [palette(0, &[white])];
    let objects = [object(1, 1, 1, &[(1, 1)])];
    let set = display_set(2, 1, &placements, &palettes, &objects);
    assert_eq!(paint_display_set(&set).unwrap(), vec![0xFF, 0xFF, 0x80, 0x80, 0, 0, 0, 0]);
    let rgba = render_display_set(&set).unwrap();
    assert_eq!(rgba.len(), 8);
    assert_eq!(rgba[3], 0xFF);
    assert!(rgba[0] >= 0xFD && rgba[1] >= 0xFD && rgba[2] >= 0xFD);
    assert_eq!(&rgba[4..], &[0, 0, 0, 0]);
}

#[test]
fn conversion_keeps_the_alpha_of_every_pixel() {
    let entries = [
        PaletteEntry { id: 1, luminance: 200, color_difference_blue: 90, color_difference_red: 160, alpha: 0x80 },
        PaletteEntry { id: 2, luminance: 16, color_difference_blue: 128, color_difference_red: 128, alpha: 0x01 },
        PaletteEntry { id: 3, luminance: 235, color_difference_blue: 20, color_difference_red: 240, alpha: 0x00 },
    ];
    let placements = [place(1, 0, 0, None)];
    let palettes = [palette(0, &entries)];
    let objects = [object(1, 3, 1, &[(1, 1), (1, 2), (1, 3)])];
    let set = display_set(3, 1, &placements, &palettes, &objects);
    let rgba = render_display_set(&set).unwrap();
    assert_eq!(rgba.len(), 12);
    assert_eq!((rgba[3], rgba[7], rgba[11]), (0x80, 0x01, 0x00));
    assert_eq!(&rgba[8..], &[0, 0, 0, 0]);
}

#[test]
fn empty_composition_renders_fully_transparent_black() {
    let mut bytes = vec![0x50, 0x47, 0, 0, 0, 0, 0, 0, 0, 0, 0x16, 0x00, 0x0B];
    bytes.extend_from_slice(&[0x00, 0x02, 0x00, 0x01, 0x10, 0x00, 0x00, 0x00, 0x00, 0x00, 0x00]);
    bytes.extend_from_slice(&[0x50, 0x47, 0, 0, 0, 0, 0, 0, 0, 0, 0x80, 0x00, 0x00]);
    let pgs = parse_pgs(&bytes).unwrap();
    assert_eq!(pgs.segments.len(), 2);
    let (sets, violation) = get_display_sets(&pgs);
    assert_eq!(violation, None);
    assert_eq!(sets.len(), 1);
    assert!(sets[0].composition_objects.is_empty());
    assert_eq!((sets[0].width, sets[0].height), (2, 1));
    assert_eq!(render_display_set(&sets[0]).unwrap(), vec![0u8; 2 * 1 * 4]);
}

#[test]
fn stream_with_one_object_renders() {
    let mut bytes = Vec::new();
    let segments: [(u8, &[u8]); 4] = [
        (0x16, &[0, 2, 0, 2, 0x10, 0, 1, 0x80, 0, 0, 1, 0, 9, 0, 0, 0, 1, 0, 0]),
        (0x14, &[0, 0, 1, 0xFF, 0x80, 0x80, 0xFF, 0, 0, 0, 0, 0]),
        (0x15, &[0, 9, 0, 0xC0, 0, 0, 7, 0, 1, 0, 2, 1, 0, 0]),
        (0x80, &[]),
    ];
    for (tag, payload) in segments {
        bytes.extend_from_slice(&[0x50, 0x47, 0, 0, 0, 3, 0, 0, 0, 3, tag]);
        bytes.extend_from_slice(&(payload.len() as u16).to_be_bytes());
        bytes.extend_from_slice(payload);
    }
    let pgs = parse_pgs(&bytes).unwrap();
    let (sets, violation) = get_display_sets(&pgs);
    assert_eq!(violation, None);
    assert_eq!(
        paint_display_set(&sets[0]).unwrap(),
        vec![0, 0, 0, 0, 0xFF, 0xFF, 0x80, 0x80, 0, 0, 0, 0, 0, 0, 0, 0]
    );
    let rgba = render_display_set(&sets[0]).unwrap();
    assert_eq!(&rgba[..4], &[0, 0, 0, 0]);
    assert_eq!(rgba[7], 0xFF);
    assert!(rgba[4] >= 0xFD);
    assert_eq!(&rgba[8..], &[0u8; 8]);
}

#[test]
fn point_is_cropped_exactly_outside_the_rectangle() {
    assert!(!is_cropped_1(2, 3, 2, 3, 4, 5));
    assert!(!is_cropped_1(5, 7, 2, 3, 4, 5));
    assert!(is_cropped_1(1, 3, 2, 3, 4, 5));
    assert!(is_cropped_1(6, 3, 2, 3, 4, 5));
    assert!(is_cropped_1(2, 2, 2, 3, 4, 5));
    assert!(is_cropped_1(2, 8, 2, 3, 4, 5));
    assert!(is_cropped_1(0, 0, 0, 0, 0, 0));
    assert!(!is_cropped_1(0, 0, 0, 0, 1, 1));
    assert!(!is_cropped_1(usize::MAX, 0, 1, 0, usize::MAX, 1));
    assert!(is_cropped_1(0, 0, 1, 0, usize::MAX, 1));
    assert!(is_cropped_1(usize::MAX, 0, 0, 0, usize::MAX, 1));
}

#[test]
fn cursor_moves_along_the_row_and_wraps_at_the_object_edge() {
    let mut offset = 8;
    move_one_pixel_forward(&mut offset, 10, 2, 3);
    assert_eq!(offset, 12);
    move_one_pixel_forward(&mut offset, 10, 2, 3);
    assert_eq!(offset, 16);
    move_one_pixel_forward(&mut offset, 10, 2, 3);
    assert_eq!(offset, 48);
    move_one_pixel_forward(&mut offset, 10, 2, 3);
    assert_eq!(offset, 52);
}

#[test]
fn cursor_wraps_where_the_object_ends_at_the_frame_edge() {
    let mut offset = 12;
    move_one_pixel_forward(&mut offset, 4, 2, 2);
    assert_eq!(offset, 24);
    let mut whole_row = 0;
    move_one_pixel_forward(&mut whole_row, 1, 0, 1);
    assert_eq!(whole_row, 4);
    let mut outside = 0;
    move_one_pixel_forward(&mut outside, 4, 2, 2);
    assert_eq!(outside, 4);
}

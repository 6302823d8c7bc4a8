//! The wire format: a stream is a sequence of segments, each a 13-byte header
//! followed by a payload whose length the header gives.
//!
//! The grammar is written down as spec functions on byte sequences; each
//! parser is proved to return what the grammar says.

use crate::bytes::{be_u16_at, be_u24_at, be_u32_at, read_be_u16, read_be_u24, read_be_u32};
use crate::error::ParseError;
use crate::rle::{parse_run_length_encoded_pixels, spec_decode_runs};
pub use crate::segment::{
    CompositionObject, CompositionState, CropInfo, LastInSequence, ObjectDefinition,
    ObjectDefinitionView, PaletteDefinition, PaletteDefinitionView, PaletteEntry, Pgs,
    PresentationComposition, PresentationCompositionView, RunLengthEncodedData, Segment,
    SegmentContents, SegmentContentsView, SegmentView, Window, WindowDefinition,
};
use std::collections::HashMap;
use vstd::prelude::*;

pub use crate::rle::RlEncodedPixels;

verus! {

broadcast use vstd::std_specs::hash::group_hash_axioms;

/// Bytes of a segment before its payload: magic, two timestamps, type tag
/// and payload length.
pub const SEGMENT_HEADER_SIZE: usize = 13;

/// Bytes of one palette entry: id, luminance, two chroma differences, alpha.
pub const PALETTE_ENTRY_SIZE: usize = 5;

/// Bytes of one window: id, position and size.
pub const WINDOW_SIZE: usize = 9;

// ---------------------------------------------------------------------
// Flags
// ---------------------------------------------------------------------
/// The composition state that a byte stands for, if any.
pub open spec fn spec_composition_state(byte: u8) -> Option<CompositionState> {
    if byte == 0x00 {
        Some(CompositionState::Normal)
    } else if byte == 0x40 {
        Some(CompositionState::AcquisitionPoint)
    } else if byte == 0x80 {
        Some(CompositionState::EpochStart)
    } else {
        None
    }
}

/// The palette-update flag that a byte stands for, if any.
pub open spec fn spec_palette_update_flag(byte: u8) -> Option<bool> {
    if byte == 0x00 {
        Some(false)
    } else if byte == 0x80 {
        Some(true)
    } else {
        None
    }
}

/// The place in a sequence of fragments that a byte stands for, if any.
pub open spec fn spec_last_in_sequence(byte: u8) -> Option<LastInSequence> {
    if byte == 0x40 {
        Some(LastInSequence::Last)
    } else if byte == 0x80 {
        Some(LastInSequence::First)
    } else if byte == 0xC0 {
        Some(LastInSequence::FirstAndLast)
    } else {
        None
    }
}

/// Decodes the composition-state byte.
pub fn parse_composition_state(byte: u8) -> (state: Option<CompositionState>)
    ensures
        state == spec_composition_state(byte),
{
    if byte == 0x00 {
        Some(CompositionState::Normal)
    } else if byte == 0x40 {
        Some(CompositionState::AcquisitionPoint)
    } else if byte == 0x80 {
        Some(CompositionState::EpochStart)
    } else {
        None
    }
}

/// Decodes the palette-update byte.
pub fn parse_palette_update_flag(byte: u8) -> (flag: Option<bool>)
    ensures
        flag == spec_palette_update_flag(byte),
{
    if byte == 0x00 {
        Some(false)
    } else if byte == 0x80 {
        Some(true)
    } else {
        None
    }
}

/// Decodes the crop byte of a composition object: only `0x40` means cropped.
pub fn parse_object_cropped_flag(byte: u8) -> (cropped: bool)
    ensures
        cropped == (byte == 0x40),
{
    byte == 0x40
}

/// Decodes the sequence byte of an object definition.
pub fn parse_last_in_sequence(byte: u8) -> (flag: Option<LastInSequence>)
    ensures
        flag == spec_last_in_sequence(byte),
{
    if byte == 0x40 {
        Some(LastInSequence::Last)
    } else if byte == 0x80 {
        Some(LastInSequence::First)
    } else if byte == 0xC0 {
        Some(LastInSequence::FirstAndLast)
    } else {
        None
    }
}

// ---------------------------------------------------------------------
// Palette definition
// ---------------------------------------------------------------------
/// The palette entry held by the five bytes from `s[at]` on.
pub open spec fn spec_palette_entry(s: Seq<u8>, at: int) -> PaletteEntry {
    PaletteEntry {
        id: s[at],
        luminance: s[at + 1],
        color_difference_blue: s[at + 2],
        color_difference_red: s[at + 3],
        alpha: s[at + 4],
    }
}

/// The mapping that the first `n` entries of `s` give: each entry is put
/// under its id, a later one in place of an earlier one with the same id.
pub open spec fn spec_palette_entries(s: Seq<u8>, n: nat) -> Map<u8, PaletteEntry>
    decreases n,
{
    if n == 0 {
        Map::empty()
    } else {
        let entry = spec_palette_entry(s, 5 * (n - 1));
        spec_palette_entries(s, (n - 1) as nat).insert(entry.id, entry)
    }
}

/// Entry number `i` of a run of palette entries.
pub open spec fn spec_nth_palette_entry(s: Seq<u8>, i: int) -> PaletteEntry {
    spec_palette_entry(s, 5 * i)
}

/// Of the entries of a palette that share an id, the last one is the one
/// that the mapping holds: entry `j` is found under its id unless an entry
/// after it has the same id.
pub proof fn lemma_last_palette_entry_wins(s: Seq<u8>, n: nat, j: int)
    requires
        0 <= j < n,
        forall|i: int|
            j < i < n ==> (#[trigger] spec_nth_palette_entry(s, i)).id != spec_nth_palette_entry(
                s,
                j,
            ).id,
    ensures
        spec_palette_entries(s, n).contains_key(spec_nth_palette_entry(s, j).id),
        spec_palette_entries(s, n)[spec_nth_palette_entry(s, j).id] == spec_nth_palette_entry(
            s,
            j,
        ),
    decreases n,
{
    if j < n - 1 {
        lemma_last_palette_entry_wins(s, (n - 1) as nat, j);
        assert(spec_nth_palette_entry(s, n - 1).id != spec_nth_palette_entry(s, j).id);
    }
}

/// The mapping of a palette holds an id exactly when some entry has it.
pub proof fn lemma_palette_entry_ids(s: Seq<u8>, n: nat, id: u8)
    ensures
        spec_palette_entries(s, n).contains_key(id) <==> exists|i: int|
            0 <= i < n && (#[trigger] spec_nth_palette_entry(s, i)).id == id,
    decreases n,
{
    if n > 0 {
        lemma_palette_entry_ids(s, (n - 1) as nat, id);
        let last = spec_nth_palette_entry(s, n - 1);
        if spec_palette_entries(s, n).contains_key(id) {
            if last.id == id {
                assert(spec_nth_palette_entry(s, n - 1).id == id);
            } else {
                let i = choose|i: int|
                    0 <= i < n - 1 && (#[trigger] spec_nth_palette_entry(s, i)).id == id;
                assert(0 <= i < n && spec_nth_palette_entry(s, i).id == id);
            }
        }
        if exists|i: int| 0 <= i < n && (#[trigger] spec_nth_palette_entry(s, i)).id == id {
            let i = choose|i: int|
                0 <= i < n && (#[trigger] spec_nth_palette_entry(s, i)).id == id;
            if i < n - 1 {
                assert(0 <= i < n - 1 && spec_nth_palette_entry(s, i).id == id);
            }
        }
    }
}

/// A palette payload: id, version, then whole entries up to its end.
pub open spec fn spec_palette_definition(p: Seq<u8>) -> Option<PaletteDefinitionView> {
    if p.len() >= 2 && (p.len() - 2) % 5 == 0 {
        Some(
            PaletteDefinitionView {
                id: p[0],
                version: p[1],
                entries: spec_palette_entries(p.skip(2), ((p.len() - 2) / 5) as nat),
            },
        )
    } else {
        None
    }
}

/// Reads the palette entry at offset `at`.
pub(crate) fn parse_palette_entry(input: &[u8], at: usize) -> (entry: PaletteEntry)
    requires
        at + 5 <= input@.len(),
    ensures
        entry == spec_palette_entry(input@, at as int),
{
    PaletteEntry {
        id: input[at],
        luminance: input[at + 1],
        color_difference_blue: input[at + 2],
        color_difference_red: input[at + 3],
        alpha: input[at + 4],
    }
}

/// Reads entries up to the end of `input` into a map by entry id. Fails
/// where `input` is not made of whole entries.
pub fn parse_palette_entries(input: &[u8]) -> (result: Option<HashMap<u8, PaletteEntry>>)
    ensures
        match result {
            Some(entries) => input@.len() % 5 == 0 && entries@ == spec_palette_entries(
                input@,
                (input@.len() / 5) as nat,
            ),
            None => input@.len() % 5 != 0,
        },
{
    let len = input.len();
    if len % PALETTE_ENTRY_SIZE != 0 {
        return None;
    }
    let count: usize = len / PALETTE_ENTRY_SIZE;
    let mut palette: HashMap<u8, PaletteEntry> = HashMap::new();
    let mut i: usize = 0;
    while i < count
        invariant
            i <= count,
            count * 5 == len,
            len == input@.len(),
            palette@ == spec_palette_entries(input@, i as nat),
        decreases count - i,
    {
        let entry = parse_palette_entry(input, i * PALETTE_ENTRY_SIZE);
        palette.insert(entry.id, entry);
        i = i + 1;
    }
    Some(palette)
}

/// Parses the payload of a palette segment.
pub fn parse_palette_definition_segment(payload: &[u8]) -> (result: Option<PaletteDefinition>)
    ensures
        match result {
            Some(palette) => spec_palette_definition(payload@) == Some(palette@),
            None => spec_palette_definition(payload@) is None,
        },
{
    let len = payload.len();
    if len < 2 {
        return None;
    }
    let rest = &payload[2..len];
    assert(rest@ =~= payload@.skip(2));
    match parse_palette_entries(rest) {
        None => None,
        Some(entries) => Some(PaletteDefinition { id: payload[0], version: payload[1], entries }),
    }
}

// ---------------------------------------------------------------------
// Window definition
// ---------------------------------------------------------------------
/// The window held by the nine bytes from `s[at]` on.
pub open spec fn spec_window(s: Seq<u8>, at: int) -> Window {
    Window {
        id: s[at],
        horizontal_position: be_u16_at(s, at + 1) as u16,
        vertical_position: be_u16_at(s, at + 3) as u16,
        width: be_u16_at(s, at + 5) as u16,
        height: be_u16_at(s, at + 7) as u16,
    }
}

/// A window payload: a count, then exactly that many windows.
pub open spec fn spec_window_definition(p: Seq<u8>) -> Option<Seq<Window>> {
    if p.len() >= 1 && p.len() == 1 + 9 * p[0] as int {
        Some(Seq::new(p[0] as nat, |i: int| spec_window(p, 1 + 9 * i)))
    } else {
        None
    }
}

/// Reads the window at offset `at`.
pub(crate) fn parse_window(input: &[u8], at: usize) -> (window: Window)
    requires
        at + 9 <= input@.len(),
    ensures
        window == spec_window(input@, at as int),
{
    Window {
        id: input[at],
        horizontal_position: read_be_u16(input, at + 1),
        vertical_position: read_be_u16(input, at + 3),
        width: read_be_u16(input, at + 5),
        height: read_be_u16(input, at + 7),
    }
}

/// Parses the payload of a window segment.
pub fn parse_window_definition_segment(payload: &[u8]) -> (result: Option<WindowDefinition>)
    ensures
        match result {
            Some(definition) => spec_window_definition(payload@) == Some(definition@),
            None => spec_window_definition(payload@) is None,
        },
{
    let len = payload.len();
    if len < 1 {
        return None;
    }
    let count: usize = payload[0] as usize;
    if len != 1 + WINDOW_SIZE * count {
        return None;
    }
    let mut windows: Vec<Window> = Vec::new();
    let mut i: usize = 0;
    while i < count
        invariant
            i <= count,
            count == payload@[0],
            len == payload@.len(),
            len == 1 + 9 * count,
            windows@.len() == i,
            forall|k: int| 0 <= k < i ==> windows@[k] == spec_window(payload@, 1 + 9 * k),
        decreases count - i,
    {
        let window = parse_window(payload, 1 + WINDOW_SIZE * i);
        windows.push(window);
        i = i + 1;
    }
    assert(windows@ =~= spec_window_definition(payload@).unwrap());
    Some(WindowDefinition { windows })
}

// ---------------------------------------------------------------------
// Object definition
// ---------------------------------------------------------------------
/// An object payload: id, version, sequence flag, a 3-byte length that
/// spans the rest of the payload, then width, height and the runs.
pub open spec fn spec_object_definition(p: Seq<u8>) -> Option<ObjectDefinitionView> {
    if p.len() < 7 {
        None
    } else {
        match spec_last_in_sequence(p[3]) {
            None => None,
            Some(flag) => {
                let inner = be_u24_at(p, 4);
                if inner < 4 || p.len() != 7 + inner {
                    None
                } else {
                    match spec_decode_runs(p.skip(11)) {
                        None => None,
                        Some(runs) => Some(
                            ObjectDefinitionView {
                                id: be_u16_at(p, 0) as u16,
                                version: p[2],
                                last_in_sequence: flag,
                                width: be_u16_at(p, 7) as u16,
                                height: be_u16_at(p, 9) as u16,
                                data: runs,
                            },
                        ),
                    }
                }
            },
        }
    }
}

/// Parses the payload of an object segment.
pub fn parse_object_definition_segment(payload: &[u8]) -> (result: Option<ObjectDefinition>)
    ensures
        match result {
            Some(object) => spec_object_definition(payload@) == Some(object@),
            None => spec_object_definition(payload@) is None,
        },
{
    let len = payload.len();
    if len < 7 {
        return None;
    }
    let id = read_be_u16(payload, 0);
    let version = payload[2];
    let last_in_sequence = match parse_last_in_sequence(payload[3]) {
        None => {
            return None;
        },
        Some(flag) => flag,
    };
    let inner = read_be_u24(payload, 4);
    if inner < 4 || len - 7 != inner as usize {
        return None;
    }
    let width = read_be_u16(payload, 7);
    let height = read_be_u16(payload, 9);
    let encoded = &payload[11..len];
    assert(encoded@ =~= payload@.skip(11));
    match parse_run_length_encoded_pixels(encoded) {
        None => None,
        Some(runs) => Some(
            ObjectDefinition {
                id,
                version,
                last_in_sequence,
                width,
                height,
                data: RunLengthEncodedData(runs),
            },
        ),
    }
}

// ---------------------------------------------------------------------
// Presentation composition
// ---------------------------------------------------------------------
/// The composition object that starts at `s[at]` and the number of bytes it
/// takes: eight, or sixteen where its crop byte is `0x40`.
pub open spec fn spec_composition_object(s: Seq<u8>, at: int) -> Option<(CompositionObject, int)> {
    if at + 8 > s.len() {
        None
    } else if s[at + 3] != 0x40 {
        Some(
            (
                CompositionObject {
                    id: be_u16_at(s, at) as u16,
                    window_id: s[at + 2],
                    horizontal_position: be_u16_at(s, at + 4) as u16,
                    vertical_position: be_u16_at(s, at + 6) as u16,
                    cropped: None,
                },
                8,
            ),
        )
    } else if at + 16 > s.len() {
        None
    } else {
        Some(
            (
                CompositionObject {
                    id: be_u16_at(s, at) as u16,
                    window_id: s[at + 2],
                    horizontal_position: be_u16_at(s, at + 4) as u16,
                    vertical_position: be_u16_at(s, at + 6) as u16,
                    cropped: Some(
                        CropInfo {
                            horizontal_position: be_u16_at(s, at + 8) as u16,
                            vertical_position: be_u16_at(s, at + 10) as u16,
                            width: be_u16_at(s, at + 12) as u16,
                            height: be_u16_at(s, at + 14) as u16,
                        },
                    ),
                },
                16,
            ),
        )
    }
}

/// The `n` composition objects that start at `s[at]`, and the offset after
/// the last of them.
pub open spec fn spec_composition_objects(s: Seq<u8>, at: int, n: nat) -> Option<
    (Seq<CompositionObject>, int),
>
    decreases n,
{
    if n == 0 {
        Some((Seq::empty(), at))
    } else {
        match spec_composition_object(s, at) {
            None => None,
            Some((object, used)) => match spec_composition_objects(s, at + used, (n - 1) as nat) {
                None => None,
                Some((rest, end)) => Some((seq![object] + rest, end)),
            },
        }
    }
}

/// A composition payload: eleven bytes of frame data and flags, the last of
/// them a count, then exactly that many composition objects.
pub open spec fn spec_presentation_composition(p: Seq<u8>) -> Option<
    PresentationCompositionView,
> {
    if p.len() < 11 {
        None
    } else {
        match (
            spec_composition_state(p[7]),
            spec_palette_update_flag(p[8]),
            spec_composition_objects(p, 11, p[10] as nat),
        ) {
            (Some(state), Some(update), Some((objects, end))) => if end == p.len() {
                Some(
                    PresentationCompositionView {
                        width: be_u16_at(p, 0) as u16,
                        height: be_u16_at(p, 2) as u16,
                        frame_rate: p[4],
                        composition_number: be_u16_at(p, 5) as u16,
                        composition_state: state,
                        palette_update: update,
                        palette_id: p[9],
                        composition_objects: objects,
                    },
                )
            } else {
                None
            },
            _ => None,
        }
    }
}

/// `rest` with `front` put before its objects, where there is a `rest`.
pub open spec fn prepend_objects(
    front: Seq<CompositionObject>,
    rest: Option<(Seq<CompositionObject>, int)>,
) -> Option<(Seq<CompositionObject>, int)> {
    match rest {
        Some((objects, end)) => Some((front + objects, end)),
        None => None,
    }
}

/// Reads the composition object at offset `at`.
pub fn parse_composition_object(input: &[u8], at: usize) -> (result: Option<
    (CompositionObject, usize),
>)
    ensures
        match result {
            Some((object, used)) => spec_composition_object(input@, at as int) == Some(
                (object, used as int),
            ) && at + used <= input@.len(),
            None => spec_composition_object(input@, at as int) is None,
        },
{
    let len = input.len();
    if at > len || len - at < 8 {
        return None;
    }
    let id = read_be_u16(input, at);
    let window_id = input[at + 2];
    let cropped = parse_object_cropped_flag(input[at + 3]);
    let horizontal_position = read_be_u16(input, at + 4);
    let vertical_position = read_be_u16(input, at + 6);
    if !cropped {
        return Some(
            (
                CompositionObject {
                    id,
                    window_id,
                    horizontal_position,
                    vertical_position,
                    cropped: None,
                },
                8,
            ),
        );
    }
    if len - at < 16 {
        return None;
    }
    let crop_info = CropInfo {
        horizontal_position: read_be_u16(input, at + 8),
        vertical_position: read_be_u16(input, at + 10),
        width: read_be_u16(input, at + 12),
        height: read_be_u16(input, at + 14),
    };
    Some(
        (
            CompositionObject {
                id,
                window_id,
                horizontal_position,
                vertical_position,
                cropped: Some(crop_info),
            },
            16,
        ),
    )
}

/// Parses the payload of a composition segment.
pub fn parse_presentation_composition_segment(payload: &[u8]) -> (result: Option<
    PresentationComposition,
>)
    ensures
        match result {
            Some(composition) => spec_presentation_composition(payload@) == Some(composition@),
            None => spec_presentation_composition(payload@) is None,
        },
{
    let len = payload.len();
    if len < 11 {
        return None;
    }
    let width = read_be_u16(payload, 0);
    let height = read_be_u16(payload, 2);
    let frame_rate = payload[4];
    let composition_number = read_be_u16(payload, 5);
    let composition_state = match parse_composition_state(payload[7]) {
        None => {
            return None;
        },
        Some(state) => state,
    };
    let palette_update = match parse_palette_update_flag(payload[8]) {
        None => {
            return None;
        },
        Some(flag) => flag,
    };
    let palette_id = payload[9];
    let count: usize = payload[10] as usize;
    let mut composition_objects: Vec<CompositionObject> = Vec::new();
    let mut at: usize = 11;
    let mut i: usize = 0;
    proof {
        let all = spec_composition_objects(payload@, 11, count as nat);
        match all {
            Some((objects, end)) => {
                assert(Seq::<CompositionObject>::empty() + objects =~= objects);
            },
            None => {},
        }
    }
    while i < count
        invariant
            i <= count,
            11 <= at <= len,
            len == payload@.len(),
            count == payload@[10],
            spec_composition_objects(payload@, 11, count as nat) == prepend_objects(
                composition_objects@,
                spec_composition_objects(payload@, at as int, (count - i) as nat),
            ),
        decreases count - i,
    {
        match parse_composition_object(payload, at) {
            None => {
                assert(spec_composition_objects(payload@, at as int, (count - i) as nat)
                    is None);
                return None;
            },
            Some((object, used)) => {
                proof {
                    match spec_composition_objects(
                        payload@,
                        at + used,
                        (count - i - 1) as nat,
                    ) {
                        Some((rest, end)) => {
                            assert(composition_objects@ + (seq![object] + rest)
                                =~= composition_objects@.push(object) + rest);
                        },
                        None => {},
                    }
                }
                composition_objects.push(object);
                at = at + used;
                i = i + 1;
            },
        }
    }
    if at != len {
        return None;
    }
    proof {
        assert(composition_objects@ + Seq::<CompositionObject>::empty()
            =~= composition_objects@);
    }
    Some(
        PresentationComposition {
            width,
            height,
            frame_rate,
            composition_number,
            composition_state,
            palette_update,
            palette_id,
            composition_objects,
        },
    )
}

// ---------------------------------------------------------------------
// Segments and the stream
// ---------------------------------------------------------------------
/// The contents that a payload holds under a type tag. An end segment has
/// an empty payload; any tag but the five known ones has no contents.
pub open spec fn spec_segment_contents(tag: u8, payload: Seq<u8>) -> Option<SegmentContentsView> {
    if tag == 0x14 {
        match spec_palette_definition(payload) {
            Some(palette) => Some(SegmentContentsView::PaletteDefinition(palette)),
            None => None,
        }
    } else if tag == 0x15 {
        match spec_object_definition(payload) {
            Some(object) => Some(SegmentContentsView::ObjectDefinition(object)),
            None => None,
        }
    } else if tag == 0x16 {
        match spec_presentation_composition(payload) {
            Some(composition) => Some(SegmentContentsView::PresentationComposition(composition)),
            None => None,
        }
    } else if tag == 0x17 {
        match spec_window_definition(payload) {
            Some(windows) => Some(SegmentContentsView::WindowDefinition(windows)),
            None => None,
        }
    } else if tag == 0x80 {
        if payload.len() == 0 {
            Some(SegmentContentsView::End)
        } else {
            None
        }
    } else {
        None
    }
}

/// The segment at the front of `s` and its length in bytes: the magic
/// `"PG"`, two 32-bit timestamps, the type tag, a 16-bit payload length and
/// the payload, which must hold exactly what the tag announces.
pub open spec fn spec_segment(s: Seq<u8>) -> Option<(SegmentView, int)> {
    if s.len() < 13 || s[0] != 0x50 || s[1] != 0x47 {
        None
    } else {
        let length = be_u16_at(s, 11);
        if s.len() < 13 + length {
            None
        } else {
            match spec_segment_contents(s[10], s.subrange(13, 13 + length)) {
                None => None,
                Some(contents) => Some(
                    (
                        SegmentView {
                            pts: be_u32_at(s, 2) as u32,
                            dts: be_u32_at(s, 6) as u32,
                            contents,
                        },
                        13 + length,
                    ),
                ),
            }
        }
    }
}

/// The segments that `s` is made of, or the offset of the first one that is
/// not a segment.
pub open spec fn spec_segments(s: Seq<u8>) -> Result<Seq<SegmentView>, int>
    decreases s.len(),
{
    if s.len() == 0 {
        Ok(Seq::empty())
    } else {
        match spec_segment(s) {
            None => Err(0),
            Some((segment, used)) => match spec_segments(s.skip(used)) {
                Ok(rest) => Ok(seq![segment] + rest),
                Err(offset) => Err(used + offset),
            },
        }
    }
}

/// What a whole buffer parses to: its segments, at least one, or the offset
/// of the first segment that cannot be parsed.
pub open spec fn spec_parse(s: Seq<u8>) -> Result<Seq<SegmentView>, int> {
    if s.len() == 0 {
        Err(0)
    } else {
        spec_segments(s)
    }
}

/// The result for a buffer whose first `at` bytes hold the segments `front`
/// and whose remaining bytes give `rest`.
pub open spec fn prepend_segments(
    front: Seq<SegmentView>,
    at: int,
    rest: Result<Seq<SegmentView>, int>,
) -> Result<Seq<SegmentView>, int> {
    match rest {
        Ok(segments) => Ok(front + segments),
        Err(offset) => Err(at + offset),
    }
}

/// Checks the payload of an end segment, which must be empty.
pub fn parse_end_of_display_set_segment(payload: &[u8]) -> (result: Option<()>)
    ensures
        result is Some <==> payload@.len() == 0,
{
    if payload.len() == 0 {
        Some(())
    } else {
        None
    }
}

/// Parses the segment at the front of `input`; returns it with its length.
pub fn parse_segment(input: &[u8]) -> (result: Option<(Segment, usize)>)
    ensures
        match result {
            Some((segment, used)) => spec_segment(input@) == Some((segment@, used as int)) && 13
                <= used <= input@.len(),
            None => spec_segment(input@) is None,
        },
{
    let len = input.len();
    if len < SEGMENT_HEADER_SIZE {
        return None;
    }
    if input[0] != 0x50 || input[1] != 0x47 {
        return None;
    }
    let pts = read_be_u32(input, 2);
    let dts = read_be_u32(input, 6);
    let tag = input[10];
    let length: usize = read_be_u16(input, 11) as usize;
    if len - SEGMENT_HEADER_SIZE < length {
        return None;
    }
    let payload = &input[SEGMENT_HEADER_SIZE..SEGMENT_HEADER_SIZE + length];
    let contents = if tag == 0x14 {
        match parse_palette_definition_segment(payload) {
            Some(palette) => SegmentContents::PaletteDefinition(palette),
            None => {
                return None;
            },
        }
    } else if tag == 0x15 {
        match parse_object_definition_segment(payload) {
            Some(object) => SegmentContents::ObjectDefinition(object),
            None => {
                return None;
            },
        }
    } else if tag == 0x16 {
        match parse_presentation_composition_segment(payload) {
            Some(composition) => SegmentContents::PresentationComposition(composition),
            None => {
                return None;
            },
        }
    } else if tag == 0x17 {
        match parse_window_definition_segment(payload) {
            Some(windows) => SegmentContents::WindowDefinition(windows),
            None => {
                return None;
            },
        }
    } else if tag == 0x80 {
        match parse_end_of_display_set_segment(payload) {
            Some(_) => SegmentContents::End,
            None => {
                return None;
            },
        }
    } else {
        return None;
    };
    Some((Segment { pts, dts, contents }, SEGMENT_HEADER_SIZE + length))
}

/// Parses a whole buffer into its segments.
///
/// Succeeds exactly where the buffer is one segment after another, at least
/// one, with nothing left over. Otherwise the error holds the offset at
/// which the first segment that cannot be parsed begins.
pub fn parse_pgs(input: &[u8]) -> (result: Result<Pgs, ParseError>)
    ensures
        match result {
            Ok(pgs) => spec_parse(input@) == Ok::<Seq<SegmentView>, int>(pgs@),
            Err(error) => spec_parse(input@) == Err::<Seq<SegmentView>, int>(error.offset as int),
        },
{
    let len = input.len();
    if len == 0 {
        return Err(ParseError { offset: 0 });
    }
    let mut segments: Vec<Segment> = Vec::new();
    let mut at: usize = 0;
    proof {
        assert(input@.skip(0) =~= input@);
        match spec_segments(input@) {
            Ok(all) => {
                assert(Seq::<SegmentView>::empty() + all =~= all);
            },
            Err(_) => {},
        }
        assert(segments@.map_values(|s: Segment| s@) =~= Seq::<SegmentView>::empty());
    }
    while at < len
        invariant
            at <= len,
            len == input@.len(),
            spec_segments(input@) == prepend_segments(
                segments@.map_values(|s: Segment| s@),
                at as int,
                spec_segments(input@.skip(at as int)),
            ),
        decreases len - at,
    {
        let rest = &input[at..len];
        assert(rest@ =~= input@.skip(at as int));
        match parse_segment(rest) {
            None => {
                return Err(ParseError { offset: at });
            },
            Some((segment, used)) => {
                proof {
                    let front = segments@.map_values(|s: Segment| s@);
                    assert(segments@.push(segment).map_values(|s: Segment| s@) =~= front.push(
                        segment@,
                    ));
                    assert(input@.skip(at as int).skip(used as int) =~= input@.skip(
                        at + used,
                    ));
                    match spec_segments(input@.skip(at + used)) {
                        Ok(after) => {
                            assert(front + (seq![segment@] + after) =~= front.push(segment@)
                                + after);
                        },
                        Err(_) => {},
                    }
                }
                segments.push(segment);
                at = at + used;
            },
        }
    }
    proof {
        let front = segments@.map_values(|s: Segment| s@);
        assert(front + Seq::<SegmentView>::empty() =~= front);
    }
    Ok(Pgs { segments })
}

} // verus!

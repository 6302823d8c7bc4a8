//! The compositor: paints the objects of a display set into a packed frame
//! and converts the frame to alpha-RGB.
//!
//! A frame of `width * height` pixels is a buffer of four bytes per pixel,
//! row after row: alpha, luminance, blue chroma difference, red chroma
//! difference.

use crate::convert::{ayuv_to_rgba, is_conversion_of, PIXEL_SIZE};
pub use crate::display_set::{get_display_sets, DisplaySet, DisplaySetIterator};
use crate::display_set::DisplaySetView;
use crate::error::{PgsError, PgsResult};
use crate::rle::{total_run_length, RlEncodedPixels};
use crate::segment::{
    CompositionObject, CropInfo, ObjectDefinition, ObjectDefinitionView, PaletteDefinition,
    PaletteDefinitionView, PaletteEntry,
};
use std::collections::HashMap;
use vstd::arithmetic::div_mod::{lemma_fundamental_div_mod, lemma_fundamental_div_mod_converse};
use vstd::prelude::*;

verus! {

broadcast use vstd::std_specs::hash::group_hash_axioms;

/// The palette that every colour is looked up in.
pub const RENDER_PALETTE_ID: u8 = 0;

// ---------------------------------------------------------------------
// Pixels of an object
// ---------------------------------------------------------------------
/// The colour index of each pixel that `runs` stand for, in order.
pub open spec fn spec_pixels(runs: Seq<RlEncodedPixels>) -> Seq<u8>
    decreases runs.len(),
{
    if runs.len() == 0 {
        Seq::empty()
    } else {
        spec_pixels(runs.drop_last()) + Seq::new(
            runs.last().count as nat,
            |i: int| runs.last().color,
        )
    }
}

/// Runs stand for as many pixels as their lengths add up to.
pub proof fn lemma_pixels_len(runs: Seq<RlEncodedPixels>)
    ensures
        spec_pixels(runs).len() == total_run_length(runs),
    decreases runs.len(),
{
    if runs.len() > 0 {
        lemma_pixels_len(runs.drop_last());
    }
}

/// Pixel `c` of run `j` comes after all pixels of the runs before it and
/// has the colour of run `j`.
pub proof fn lemma_pixel_of_run(runs: Seq<RlEncodedPixels>, j: int, c: int)
    requires
        0 <= j < runs.len(),
        0 <= c < runs[j].count,
    ensures
        total_run_length(runs.take(j)) + c < spec_pixels(runs).len(),
        spec_pixels(runs)[total_run_length(runs.take(j)) + c] == runs[j].color,
    decreases runs.len(),
{
    let front = runs.drop_last();
    lemma_pixels_len(front);
    lemma_pixels_len(runs);
    if j == runs.len() - 1 {
        assert(runs.take(j) =~= front);
    } else {
        lemma_pixel_of_run(front, j, c);
        assert(front.take(j) =~= runs.take(j));
    }
}

// ---------------------------------------------------------------------
// Colours
// ---------------------------------------------------------------------
/// Whether the palette with id zero is known and holds `color`.
pub open spec fn resolves(palettes: Map<u8, PaletteDefinitionView>, color: u8) -> bool {
    palettes.contains_key(RENDER_PALETTE_ID) && palettes[RENDER_PALETTE_ID].entries.contains_key(
        color,
    )
}

/// The entry that `color` stands for.
pub open spec fn resolved(palettes: Map<u8, PaletteDefinitionView>, color: u8) -> PaletteEntry {
    palettes[RENDER_PALETTE_ID].entries[color]
}

/// The colour of the first run from index `from` on that does not resolve.
pub open spec fn spec_missing_color(
    runs: Seq<RlEncodedPixels>,
    palettes: Map<u8, PaletteDefinitionView>,
    from: int,
) -> Option<u8>
    decreases runs.len() - from,
{
    if from < 0 || from >= runs.len() {
        None
    } else if !resolves(palettes, runs[from].color) {
        Some(runs[from].color)
    } else {
        spec_missing_color(runs, palettes, from + 1)
    }
}

/// Byte `c` of a pixel with colour `entry`.
pub open spec fn channel(entry: PaletteEntry, c: int) -> u8 {
    if c == 0 {
        entry.alpha
    } else if c == 1 {
        entry.luminance
    } else if c == 2 {
        entry.color_difference_blue
    } else {
        entry.color_difference_red
    }
}

// ---------------------------------------------------------------------
// Cropping
// ---------------------------------------------------------------------
/// Whether the point `(x, y)` lies outside the rectangle with the given
/// top-left corner and size.
pub open spec fn spec_outside(
    x: int,
    y: int,
    top_left_x: int,
    top_left_y: int,
    width: int,
    height: int,
) -> bool {
    x < top_left_x || x >= top_left_x + width || y < top_left_y || y >= top_left_y + height
}

/// Whether the pixel at `(x, y)`, relative to the object's top-left corner,
/// is cut away by `crop`.
pub open spec fn spec_is_cropped(x: int, y: int, crop: Option<CropInfo>) -> bool {
    match crop {
        None => false,
        Some(c) => spec_outside(
            x,
            y,
            c.horizontal_position as int,
            c.vertical_position as int,
            c.width as int,
            c.height as int,
        ),
    }
}

/// Whether the point `(x, y)` lies outside the rectangle with the given
/// top-left corner and size.
pub fn is_cropped_1(
    x: usize,
    y: usize,
    top_left_x: usize,
    top_left_y: usize,
    width: usize,
    height: usize,
) -> (outside: bool)
    ensures
        outside == spec_outside(
            x as int,
            y as int,
            top_left_x as int,
            top_left_y as int,
            width as int,
            height as int,
        ),
{
    x < top_left_x || x - top_left_x >= width || y < top_left_y || y - top_left_y >= height
}

/// The column of the frame pixel that starts at byte `pixel_offset`.
pub open spec fn column_of(pixel_offset: int, frame_width: int) -> int {
    (pixel_offset / 4) % frame_width
}

/// The row of the frame pixel that starts at byte `pixel_offset`.
pub open spec fn row_of(pixel_offset: int, frame_width: int) -> int {
    (pixel_offset / 4) / frame_width
}

/// Whether the frame pixel at byte `pixel_offset` is cut away by the crop
/// rectangle of `object`, which is relative to where the object is placed.
pub(crate) fn is_cropped(
    pixel_offset: usize,
    frame_width: usize,
    object: &CompositionObject,
) -> (cropped: bool)
    requires
        frame_width > 0,
        column_of(pixel_offset as int, frame_width as int) >= object.horizontal_position,
        row_of(pixel_offset as int, frame_width as int) >= object.vertical_position,
    ensures
        cropped == spec_is_cropped(
            column_of(pixel_offset as int, frame_width as int) - object.horizontal_position,
            row_of(pixel_offset as int, frame_width as int) - object.vertical_position,
            object.cropped,
        ),
{
    match &object.cropped {
        Some(crop) => {
            let pixel = pixel_offset / PIXEL_SIZE;
            let x = pixel % frame_width - object.horizontal_position as usize;
            let y = pixel / frame_width - object.vertical_position as usize;
            is_cropped_1(
                x,
                y,
                crop.horizontal_position as usize,
                crop.vertical_position as usize,
                crop.width as usize,
                crop.height as usize,
            )
        },
        None => false,
    }
}

// ---------------------------------------------------------------------
// The cursor
// ---------------------------------------------------------------------
/// The byte offset after one step of the cursor: the next pixel of the row,
/// or, from the last column of the object, the object's first column in the
/// next row.
pub open spec fn spec_next_offset(
    pixel_offset: int,
    frame_width: int,
    horizontal_position: int,
    object_width: int,
) -> int {
    if column_of(pixel_offset, frame_width) + 1 == horizontal_position + object_width {
        pixel_offset + 4 * (frame_width - object_width + 1)
    } else {
        pixel_offset + 4
    }
}

/// Moves the cursor one pixel on within an object that is `object_width`
/// wide and starts in column `horizontal_position` of the frame.
pub fn move_one_pixel_forward(
    pixel_offset: &mut usize,
    width: usize,
    horizontal_position: usize,
    object_width: usize,
)
    requires
        0 < width,
        object_width <= width,
        horizontal_position + object_width <= usize::MAX,
        *old(pixel_offset) + 4 * (width + 1) <= usize::MAX,
    ensures
        *final(pixel_offset) == spec_next_offset(
            *old(pixel_offset) as int,
            width as int,
            horizontal_position as int,
            object_width as int,
        ),
{
    let x = (*pixel_offset / PIXEL_SIZE) % width;
    if x + 1 == horizontal_position + object_width {
        *pixel_offset += (width - object_width + 1) * PIXEL_SIZE;
    } else {
        *pixel_offset += PIXEL_SIZE;
    }
}

/// The byte offset of pixel `k` of an object: pixel `k` lies in column
/// `k % object_width` and row `k / object_width` of the object, which is
/// placed at `(horizontal_position, vertical_position)`.
pub open spec fn spec_pixel_offset(
    k: int,
    frame_width: int,
    horizontal_position: int,
    vertical_position: int,
    object_width: int,
) -> int {
    4 * ((vertical_position + k / object_width) * frame_width + horizontal_position + k
        % object_width)
}

/// The offset of a pixel of an object names the frame column and row that
/// the pixel lies in.
pub proof fn lemma_offset_position(
    k: int,
    frame_width: int,
    horizontal_position: int,
    vertical_position: int,
    object_width: int,
)
    requires
        k >= 0,
        object_width > 0,
        horizontal_position >= 0,
        vertical_position >= 0,
        horizontal_position + object_width <= frame_width,
    ensures
        ({
            let offset = spec_pixel_offset(
                k,
                frame_width,
                horizontal_position,
                vertical_position,
                object_width,
            );
            &&& offset >= 0
            &&& offset % 4 == 0
            &&& column_of(offset, frame_width) == horizontal_position + k % object_width
            &&& row_of(offset, frame_width) == vertical_position + k / object_width
        }),
{
    let row = vertical_position + k / object_width;
    let column = horizontal_position + k % object_width;
    assert(0 <= k % object_width < object_width && k / object_width >= 0) by (nonlinear_arith)
        requires
            k >= 0,
            object_width > 0,
    ;
    assert(row * frame_width >= 0) by (nonlinear_arith)
        requires
            row >= 0,
            frame_width > 0,
    ;
    let pixel = row * frame_width + column;
    lemma_fundamental_div_mod_converse(pixel, frame_width, row, column);
}

/// One step of the cursor leads from the offset of pixel `k` to the offset
/// of pixel `k + 1`.
pub proof fn lemma_next_offset(
    k: int,
    frame_width: int,
    horizontal_position: int,
    vertical_position: int,
    object_width: int,
)
    requires
        k >= 0,
        object_width > 0,
        horizontal_position >= 0,
        vertical_position >= 0,
        horizontal_position + object_width <= frame_width,
    ensures
        spec_next_offset(
            spec_pixel_offset(
                k,
                frame_width,
                horizontal_position,
                vertical_position,
                object_width,
            ),
            frame_width,
            horizontal_position,
            object_width,
        ) == spec_pixel_offset(
            k + 1,
            frame_width,
            horizontal_position,
            vertical_position,
            object_width,
        ),
{
    lemma_offset_position(k, frame_width, horizontal_position, vertical_position, object_width);
    let q = k / object_width;
    let r = k % object_width;
    lemma_fundamental_div_mod(k, object_width);
    assert(0 <= r < object_width) by (nonlinear_arith)
        requires
            r == k % object_width,
            object_width > 0,
    ;
    if r + 1 == object_width {
        assert(k + 1 == (q + 1) * object_width + 0) by (nonlinear_arith)
            requires
                k == object_width * q + r,
                r + 1 == object_width,
        ;
        lemma_fundamental_div_mod_converse(k + 1, object_width, q + 1, 0);
        assert((vertical_position + q + 1) * frame_width == (vertical_position + q) * frame_width
            + frame_width) by (nonlinear_arith);
    } else {
        assert(k + 1 == q * object_width + (r + 1)) by (nonlinear_arith)
            requires
                k == object_width * q + r,
        ;
        lemma_fundamental_div_mod_converse(k + 1, object_width, q, r + 1);
    }
}

// ---------------------------------------------------------------------
// Painting one object
// ---------------------------------------------------------------------
/// Whether an object of `total` pixels in rows of `object_width`, placed as
/// `placement` says, lies within the frame.
pub open spec fn object_fits(
    frame_width: int,
    frame_height: int,
    placement: CompositionObject,
    object_width: int,
    total: int,
) -> bool {
    total == 0 || (object_width > 0 && placement.horizontal_position + object_width
        <= frame_width && placement.vertical_position + (total - 1) / object_width
        < frame_height)
}

/// Byte `i` of the frame after the first `limit` pixels of an object were
/// painted over `buf`.
///
/// The byte belongs to the frame pixel in column `column_of(i)` and row
/// `row_of(i)`. Relative to where the object is placed this is `(x, y)`,
/// the object's pixel number `y * object_width + x`. Where that pixel is
/// among the first `limit` and not cropped, the byte is a channel of the
/// pixel's colour; else it is as in `buf`.
pub open spec fn painted_byte(
    buf: Seq<u8>,
    frame_width: int,
    placement: CompositionObject,
    object_width: int,
    colors: Seq<u8>,
    palettes: Map<u8, PaletteDefinitionView>,
    limit: int,
    i: int,
) -> u8 {
    let x = column_of(i, frame_width) - placement.horizontal_position;
    let y = row_of(i, frame_width) - placement.vertical_position;
    let k = y * object_width + x;
    if 0 <= x < object_width && 0 <= y && k < limit && !spec_is_cropped(x, y, placement.cropped) {
        channel(resolved(palettes, colors[k]), i % 4)
    } else {
        buf[i]
    }
}

/// The frame after the first `limit` pixels of an object were painted.
pub open spec fn spec_paint_prefix(
    buf: Seq<u8>,
    frame_width: int,
    placement: CompositionObject,
    object_width: int,
    colors: Seq<u8>,
    palettes: Map<u8, PaletteDefinitionView>,
    limit: int,
) -> Seq<u8> {
    Seq::new(
        buf.len(),
        |i: int| painted_byte(buf, frame_width, placement, object_width, colors, palettes, limit, i),
    )
}

/// The frame after all pixels of `object` were painted over `buf`.
pub open spec fn spec_paint_object(
    buf: Seq<u8>,
    frame_width: int,
    placement: CompositionObject,
    object: ObjectDefinitionView,
    palettes: Map<u8, PaletteDefinitionView>,
) -> Seq<u8> {
    spec_paint_prefix(
        buf,
        frame_width,
        placement,
        object.width as int,
        spec_pixels(object.data),
        palettes,
        spec_pixels(object.data).len() as int,
    )
}

/// Painting pixel `k` turns the frame with `k` pixels painted into the
/// frame with `k + 1` pixels painted.
proof fn lemma_paint_step(
    start: Seq<u8>,
    before: Seq<u8>,
    after: Seq<u8>,
    frame_width: int,
    placement: CompositionObject,
    object_width: int,
    colors: Seq<u8>,
    palettes: Map<u8, PaletteDefinitionView>,
    k: int,
)
    requires
        object_width > 0,
        placement.horizontal_position + object_width <= frame_width,
        0 <= k < colors.len(),
        before == spec_paint_prefix(
            start,
            frame_width,
            placement,
            object_width,
            colors,
            palettes,
            k,
        ),
        after.len() == before.len(),
        forall|i: int|
            0 <= i < before.len() ==> #[trigger] after[i] == {
                let offset = spec_pixel_offset(
                    k,
                    frame_width,
                    placement.horizontal_position as int,
                    placement.vertical_position as int,
                    object_width,
                );
                if offset <= i < offset + 4 && !spec_is_cropped(
                    k % object_width,
                    k / object_width,
                    placement.cropped,
                ) {
                    channel(resolved(palettes, colors[k]), i - offset)
                } else {
                    before[i]
                }
            },
    ensures
        after == spec_paint_prefix(
            start,
            frame_width,
            placement,
            object_width,
            colors,
            palettes,
            k + 1,
        ),
{
    let h = placement.horizontal_position as int;
    let v = placement.vertical_position as int;
    let offset = spec_pixel_offset(k, frame_width, h, v, object_width);
    lemma_offset_position(k, frame_width, h, v, object_width);
    lemma_fundamental_div_mod(k, object_width);
    assert(object_width * (k / object_width) == (k / object_width) * object_width)
        by (nonlinear_arith);
    let next = spec_paint_prefix(
        start,
        frame_width,
        placement,
        object_width,
        colors,
        palettes,
        k + 1,
    );
    assert forall|i: int| 0 <= i < after.len() implies after[i] == next[i] by {
        let x = column_of(i, frame_width) - h;
        let y = row_of(i, frame_width) - v;
        let kk = y * object_width + x;
        if offset <= i < offset + 4 {
            assert(i / 4 == offset / 4);
            assert(i % 4 == i - offset);
            assert(x == k % object_width);
            assert(y == k / object_width);
            assert(kk == k);
        } else {
            if 0 <= x < object_width && 0 <= y && kk == k {
                lemma_fundamental_div_mod_converse(k, object_width, y, x);
                lemma_fundamental_div_mod(i / 4, frame_width);
                assert(frame_width * ((i / 4) / frame_width) == (v + k / object_width)
                    * frame_width) by (nonlinear_arith)
                    requires
                        (i / 4) / frame_width == v + k / object_width,
                ;
                assert(i / 4 == offset / 4);
                assert(false);
            }
        }
    }
    assert(after =~= next);
}

/// An object that fits has no more pixels than the frame.
proof fn lemma_fits_bound(
    frame_width: int,
    frame_height: int,
    placement: CompositionObject,
    object_width: int,
    total: int,
)
    requires
        0 <= total,
        0 <= frame_width,
        0 <= frame_height,
        object_fits(frame_width, frame_height, placement, object_width, total),
    ensures
        total <= frame_width * frame_height,
{
    if total > 0 {
        let q = (total - 1) / object_width;
        let r = (total - 1) % object_width;
        lemma_fundamental_div_mod(total - 1, object_width);
        assert(0 <= r < object_width && q >= 0) by (nonlinear_arith)
            requires
                r == (total - 1) % object_width,
                q == (total - 1) / object_width,
                total - 1 >= 0,
                object_width > 0,
        ;
        assert(total <= frame_width * frame_height) by (nonlinear_arith)
            requires
                total - 1 == object_width * q + r,
                0 <= r < object_width,
                0 <= q,
                q + 1 <= frame_height,
                0 < object_width <= frame_width,
        ;
    } else {
        assert(0 <= frame_width * frame_height) by (nonlinear_arith)
            requires
                0 <= frame_width,
                0 <= frame_height,
        ;
    }
}

/// A pixel of an object that fits lies within the frame.
proof fn lemma_pixel_in_frame(
    k: int,
    frame_width: int,
    frame_height: int,
    placement: CompositionObject,
    object_width: int,
    total: int,
)
    requires
        0 <= k < total,
        object_fits(frame_width, frame_height, placement, object_width, total),
    ensures
        0 <= spec_pixel_offset(
            k,
            frame_width,
            placement.horizontal_position as int,
            placement.vertical_position as int,
            object_width,
        ),
        spec_pixel_offset(
            k,
            frame_width,
            placement.horizontal_position as int,
            placement.vertical_position as int,
            object_width,
        ) + 4 <= 4 * (frame_width * frame_height),
{
    let h = placement.horizontal_position as int;
    let v = placement.vertical_position as int;
    vstd::arithmetic::div_mod::lemma_div_is_ordered(k, total - 1, object_width);
    lemma_offset_position(k, frame_width, h, v, object_width);
    let row = v + k / object_width;
    let column = h + k % object_width;
    assert(0 <= k % object_width < object_width && 0 <= k / object_width) by (nonlinear_arith)
        requires
            k >= 0,
            object_width > 0,
    ;
    assert(row * frame_width + column + 1 <= frame_width * frame_height) by (nonlinear_arith)
        requires
            0 <= row < frame_height,
            0 <= column < frame_width,
    ;
}

/// Looks every run's colour up in the palette with id zero. Gives the
/// entries, one per run, or the first colour that is not found.
fn resolve_colors(
    runs: &Vec<RlEncodedPixels>,
    palettes: &HashMap<u8, &PaletteDefinition>,
) -> (result: Result<Vec<PaletteEntry>, u8>)
    ensures
        match result {
            Ok(entries) => {
                &&& spec_missing_color(runs@, crate::display_set::palette_views(palettes@), 0)
                    is None
                &&& entries@.len() == runs@.len()
                &&& forall|j: int|
                    0 <= j < runs@.len() ==> {
                        &&& resolves(
                            crate::display_set::palette_views(palettes@),
                            #[trigger] runs@[j].color,
                        )
                        &&& entries@[j] == resolved(
                            crate::display_set::palette_views(palettes@),
                            runs@[j].color,
                        )
                    }
            },
            Err(color) => spec_missing_color(
                runs@,
                crate::display_set::palette_views(palettes@),
                0,
            ) == Some(color),
        },
{
    let ghost views = crate::display_set::palette_views(palettes@);
    let mut entries: Vec<PaletteEntry> = Vec::new();
    let mut j: usize = 0;
    while j < runs.len()
        invariant
            j <= runs@.len(),
            views == crate::display_set::palette_views(palettes@),
            spec_missing_color(runs@, views, 0) == spec_missing_color(runs@, views, j as int),
            entries@.len() == j,
            forall|i: int|
                0 <= i < j ==> {
                    &&& resolves(views, #[trigger] runs@[i].color)
                    &&& entries@[i] == resolved(views, runs@[i].color)
                },
        decreases runs@.len() - j,
    {
        let color = runs[j].color;
        let entry = match palettes.get(&RENDER_PALETTE_ID) {
            None => {
                return Err(color);
            },
            Some(palette) => match palette.entries.get(&color) {
                None => {
                    return Err(color);
                },
                Some(entry) => *entry,
            },
        };
        entries.push(entry);
        j = j + 1;
    }
    Ok(entries)
}

/// Whether `object`, placed as `placement` says, lies within the frame.
fn fits_frame(
    frame_width: u16,
    frame_height: u16,
    placement: &CompositionObject,
    object: &ObjectDefinition,
) -> (fits: bool)
    ensures
        fits == object_fits(
            frame_width as int,
            frame_height as int,
            *placement,
            object.width as int,
            total_run_length(object@.data) as int,
        ),
{
    assert(frame_width as int * frame_height as int <= 0xFFFF * 0xFFFF) by (nonlinear_arith)
        requires
            frame_width <= 0xFFFF,
            frame_height <= 0xFFFF,
    ;
    let area: u64 = frame_width as u64 * frame_height as u64;
    match object.data.total_pixels(area) {
        None => {
            proof {
                if object_fits(
                    frame_width as int,
                    frame_height as int,
                    *placement,
                    object.width as int,
                    total_run_length(object@.data) as int,
                ) {
                    lemma_fits_bound(
                        frame_width as int,
                        frame_height as int,
                        *placement,
                        object.width as int,
                        total_run_length(object@.data) as int,
                    );
                }
            }
            false
        },
        Some(total) => {
            if total == 0 {
                true
            } else if object.width == 0 {
                false
            } else {
                let object_width: u64 = object.width as u64;
                let rows: u64 = (total - 1) / object_width;
                placement.horizontal_position as u64 + object_width <= frame_width as u64
                    && rows < frame_height as u64 && placement.vertical_position as u64 + rows
                    < frame_height as u64
            }
        },
    }
}

/// Paints the pixels of `object` into the frame `buf`, row by row from where
/// `placement` puts the object, leaving out the pixels that are cropped.
///
/// The cursor is set on the first pixel only once there is one: the place of
/// an object without pixels need not be a place of the frame.
#[verifier::loop_isolation(false)]
fn paint_object(
    buf: &mut Vec<u8>,
    frame_width: u16,
    frame_height: u16,
    placement: &CompositionObject,
    object: &ObjectDefinition,
    entries: &Vec<PaletteEntry>,
    Ghost(palettes): Ghost<Map<u8, PaletteDefinitionView>>,
)
    requires
        old(buf)@.len() == 4 * (frame_width * frame_height),
        old(buf)@.len() <= isize::MAX,
        object_fits(
            frame_width as int,
            frame_height as int,
            *placement,
            object.width as int,
            total_run_length(object@.data) as int,
        ),
        entries@.len() == object@.data.len(),
        forall|j: int|
            0 <= j < object@.data.len() ==> #[trigger] entries@[j] == resolved(
                palettes,
                object@.data[j].color,
            ),
    ensures
        final(buf)@ == spec_paint_object(
            old(buf)@,
            frame_width as int,
            *placement,
            object@,
            palettes,
        ),
{
    let runs = &object.data.0;
    let ghost start = buf@;
    let ghost colors = spec_pixels(runs@);
    let ghost total = total_run_length(runs@) as int;
    let ghost fw = frame_width as int;
    let ghost fh = frame_height as int;
    let ghost h = placement.horizontal_position as int;
    let ghost v = placement.vertical_position as int;
    let ghost ow = object.width as int;
    proof {
        lemma_pixels_len(runs@);
        assert(start =~= spec_paint_prefix(start, fw, *placement, ow, colors, palettes, 0));
    }
    let width: usize = frame_width as usize;
    let object_width: usize = object.width as usize;
    let mut offset: usize = 0;
    let mut started: bool = false;
    let mut j: usize = 0;
    let ghost mut k: int = 0;
    proof {
        assert(runs@.take(0) =~= Seq::empty());
    }
    while j < runs.len()
        invariant
            j <= runs@.len(),
            k == total_run_length(runs@.take(j as int)),
            0 <= k <= total,
            started ==> offset == spec_pixel_offset(k, fw, h, v, ow),
            !started ==> k == 0,
            buf@ == spec_paint_prefix(start, fw, *placement, ow, colors, palettes, k),
        decreases runs@.len() - j,
    {
        let run = runs[j];
        let entry = entries[j];
        proof {
            crate::rle::lemma_total_run_length_prefix(runs@, j + 1);
            crate::rle::lemma_total_run_length_monotone(runs@, j + 1);
        }
        let ghost base = k;
        let mut c: u16 = 0;
        while c < run.count
            invariant
                j < runs@.len(),
                base + run.count <= total,
                c <= run.count,
                k == base + c,
                started ==> offset == spec_pixel_offset(k, fw, h, v, ow),
                !started ==> k == 0,
                buf@ == spec_paint_prefix(start, fw, *placement, ow, colors, palettes, k),
            decreases run.count - c,
        {
            proof {
                lemma_pixel_of_run(runs@, j as int, c as int);
                lemma_pixel_in_frame(k, fw, fh, *placement, ow, total);
                lemma_offset_position(k, fw, h, v, ow);
                lemma_next_offset(k, fw, h, v, ow);
            }
            if !started {
                assert(spec_pixel_offset(0, fw, h, v, ow) == 4 * (v * fw + h)) by {
                    assert(0int / ow == 0 && 0int % ow == 0) by (nonlinear_arith)
                        requires
                            ow > 0,
                    ;
                }
                assert(v * fw >= 0) by (nonlinear_arith)
                    requires
                        v >= 0,
                        fw >= 0,
                ;
                offset = (placement.vertical_position as usize * width
                    + placement.horizontal_position as usize) * PIXEL_SIZE;
                started = true;
            }
            let ghost before = buf@;
            let cropped = is_cropped(offset, width, placement);
            if !cropped {
                buf.set(offset, entry.alpha);
                buf.set(offset + 1, entry.luminance);
                buf.set(offset + 2, entry.color_difference_blue);
                buf.set(offset + 3, entry.color_difference_red);
            }
            proof {
                lemma_paint_step(start, before, buf@, fw, *placement, ow, colors, palettes, k);
            }
            move_one_pixel_forward(
                &mut offset,
                width,
                placement.horizontal_position as usize,
                object_width,
            );
            c = c + 1;
            proof {
                k = k + 1;
            }
        }
        j = j + 1;
    }
    proof {
        assert(runs@.take(j as int) =~= runs@);
    }
}

// ---------------------------------------------------------------------
// Painting a display set
// ---------------------------------------------------------------------
/// The frame of `width * height` pixels with every byte zero.
pub open spec fn spec_blank_frame(width: int, height: int) -> Seq<u8> {
    Seq::new((4 * (width * height)) as nat, |i: int| 0u8)
}

/// Paints the composition objects from index `from` on over `buf`, in list
/// order. Each is looked up by its id, its colours are resolved, and it must
/// lie within the frame; the first that fails any of these ends the
/// painting with the error that says so.
pub open spec fn spec_paint_objects(display_set: DisplaySetView, buf: Seq<u8>, from: int) -> Result<
    Seq<u8>,
    PgsError,
>
    decreases display_set.composition_objects.len() - from,
{
    if from < 0 || from >= display_set.composition_objects.len() {
        Ok(buf)
    } else {
        let placement = display_set.composition_objects[from];
        if !display_set.objects.contains_key(placement.id) {
            Err(PgsError::ObjectNotFound { object_id: placement.id })
        } else {
            let object = display_set.objects[placement.id];
            match spec_missing_color(object.data, display_set.palettes, 0) {
                Some(color) => Err(
                    PgsError::PaletteNotFound { palette_id: RENDER_PALETTE_ID, entry_id: color },
                ),
                None => if !object_fits(
                    display_set.width as int,
                    display_set.height as int,
                    placement,
                    object.width as int,
                    total_run_length(object.data) as int,
                ) {
                    Err(PgsError::ObjectOutOfBounds { object_id: placement.id })
                } else {
                    spec_paint_objects(
                        display_set,
                        spec_paint_object(
                            buf,
                            display_set.width as int,
                            placement,
                            object,
                            display_set.palettes,
                        ),
                        from + 1,
                    )
                },
            }
        }
    }
}

/// The packed frame of a display set: all its composition objects painted,
/// in list order, over a blank frame.
pub open spec fn spec_paint(display_set: DisplaySetView) -> Result<Seq<u8>, PgsError> {
    spec_paint_objects(
        display_set,
        spec_blank_frame(display_set.width as int, display_set.height as int),
        0,
    )
}

/// Whether a frame of this size can be held in memory on this machine.
pub open spec fn frame_is_addressable(width: u16, height: u16) -> bool {
    4 * (width * height) <= isize::MAX
}

/// Whether a frame of this size can be held in memory on this machine.
fn addressable(width: u16, height: u16) -> (fits: bool)
    ensures
        fits == frame_is_addressable(width, height),
{
    assert(width as int * height as int <= 0xFFFF * 0xFFFF) by (nonlinear_arith)
        requires
            width <= 0xFFFF,
            height <= 0xFFFF,
    ;
    let bytes: u64 = 4 * (width as u64 * height as u64);
    bytes <= isize::MAX as u64
}

/// Paints a display set into a packed frame of `width * height * 4` bytes.
///
/// Fails with `FrameTooLarge` for a frame that this machine cannot address.
/// Otherwise fails with `ObjectNotFound` for a composition object whose
/// object the display set does not know, with `PaletteNotFound` for a run
/// whose colour the palette with id zero does not hold, and with
/// `ObjectOutOfBounds` for an object that does not lie within the frame;
/// objects are taken in list order, and the first failure is the one
/// returned.
pub fn paint_display_set(display_set: &DisplaySet) -> (result: PgsResult<Vec<u8>>)
    ensures
        !frame_is_addressable(display_set.width, display_set.height) ==> result == Err::<
            Vec<u8>,
            PgsError,
        >((PgsError::FrameTooLarge { width: display_set.width, height: display_set.height })),
        frame_is_addressable(display_set.width, display_set.height) ==> match spec_paint(
            display_set@,
        ) {
            Ok(frame) => result matches Ok(buf) && buf@ == frame,
            Err(failure) => result matches Err(error) && error == failure,
        },
        result matches Ok(buf) ==> buf@.len() == 4 * (display_set.width * display_set.height),
{
    let ghost view = display_set@;
    if !addressable(display_set.width, display_set.height) {
        return Err(
            PgsError::FrameTooLarge { width: display_set.width, height: display_set.height },
        );
    }
    assert(display_set.width as int * display_set.height as int >= 0) by (nonlinear_arith);
    let size: usize = display_set.width as usize * display_set.height as usize * PIXEL_SIZE;
    let mut buf: Vec<u8> = vec![0u8; size];
    assert(buf@ =~= spec_blank_frame(view.width as int, view.height as int));
    let count = display_set.composition_objects.len();
    let mut i: usize = 0;
    while i < count
        invariant
            i <= count,
            count == view.composition_objects.len(),
            view == display_set@,
            frame_is_addressable(display_set.width, display_set.height),
            buf@.len() == 4 * (display_set.width * display_set.height),
            spec_paint(view) == spec_paint_objects(view, buf@, i as int),
        decreases count - i,
    {
        let placement = &display_set.composition_objects[i];
        let object = match display_set.objects.get(&placement.id) {
            None => {
                return Err(PgsError::ObjectNotFound { object_id: placement.id });
            },
            Some(object) => *object,
        };
        assert(view.objects[placement.id] == object@);
        let entries = match resolve_colors(&object.data.0, &display_set.palettes) {
            Err(color) => {
                return Err(
                    PgsError::PaletteNotFound { palette_id: RENDER_PALETTE_ID, entry_id: color },
                );
            },
            Ok(entries) => entries,
        };
        if !fits_frame(display_set.width, display_set.height, placement, object) {
            return Err(PgsError::ObjectOutOfBounds { object_id: placement.id });
        }
        paint_object(
            &mut buf,
            display_set.width,
            display_set.height,
            placement,
            object,
            &entries,
            Ghost(view.palettes),
        );
        i = i + 1;
    }
    Ok(buf)
}

/// Renders a display set: paints it into a packed frame and converts the
/// frame to alpha-RGB, four bytes per pixel with alpha last.
///
/// Where painting fails, that failure is returned. A frame without pixels is
/// refused by the converter. Otherwise the result has the size of the
/// packed frame, each pixel keeps its alpha, and a pixel whose alpha is zero
/// is four zero bytes. The colour bytes of the other pixels are the
/// converter's: BT.709, full range, multiplied by alpha.
pub fn render_display_set(display_set: &DisplaySet) -> (result: PgsResult<Vec<u8>>)
    ensures
        !frame_is_addressable(display_set.width, display_set.height) ==> result == Err::<
            Vec<u8>,
            PgsError,
        >((PgsError::FrameTooLarge { width: display_set.width, height: display_set.height })),
        frame_is_addressable(display_set.width, display_set.height) ==> match spec_paint(
            display_set@,
        ) {
            Err(failure) => result matches Err(error) && error == failure,
            Ok(frame) => if display_set.width == 0 || display_set.height == 0 {
                result matches Err(PgsError::YuvError(_))
            } else {
                result matches Ok(rgba) && is_conversion_of(
                    rgba@,
                    frame,
                    display_set.width * display_set.height,
                )
            },
        },
{
    let packed = match paint_display_set(display_set) {
        Err(error) => {
            return Err(error);
        },
        Ok(packed) => packed,
    };
    let stride: u32 = 4 * (display_set.width as u32);
    assert(stride * display_set.height == 4 * (display_set.width * display_set.height))
        by (nonlinear_arith)
        requires
            stride == 4 * display_set.width,
    ;
    match ayuv_to_rgba(packed.as_slice(), stride, display_set.width, display_set.height) {
        Ok(rgba) => Ok(rgba),
        Err(error) => Err(PgsError::YuvError(error)),
    }
}

// ---------------------------------------------------------------------
// Laws of the compositor
// ---------------------------------------------------------------------
/// In an object whose runs stand for exactly `width * height` pixels, pixel
/// `k` lies in column `k % width` and row `k / width` of the object's own
/// raster, and every place of the raster holds one pixel.
pub proof fn lemma_raster_geometry(object: ObjectDefinitionView, k: int, x: int, y: int)
    requires
        object.covers_raster(),
    ensures
        spec_pixels(object.data).len() == object.width * object.height,
        0 <= k < spec_pixels(object.data).len() ==> 0 <= k % (object.width as int) < object.width
            && 0 <= k / (object.width as int) < object.height,
        0 <= x < object.width && 0 <= y < object.height ==> 0 <= y * object.width + x
            < spec_pixels(object.data).len(),
{
    lemma_pixels_len(object.data);
    let w = object.width as int;
    let h = object.height as int;
    if 0 <= k < spec_pixels(object.data).len() {
        assert(w > 0) by (nonlinear_arith)
            requires
                0 <= k < w * h,
                w >= 0,
                h >= 0,
        ;
        lemma_fundamental_div_mod(k, w);
        assert(0 <= k % w < w && 0 <= k / w < h) by (nonlinear_arith)
            requires
                k == w * (k / w) + k % w,
                0 <= k < w * h,
                w > 0,
                0 <= k % w < w,
        ;
    }
    if 0 <= x < w && 0 <= y < h {
        assert(0 <= y * w + x < w * h) by (nonlinear_arith)
            requires
                0 <= x < w,
                0 <= y < h,
        ;
    }
}

/// What painting an object does to one of its pixels: the four bytes of a
/// pixel outside the crop rectangle stay as they were, those of any other
/// pixel become the channels of the pixel's colour.
pub proof fn lemma_crop_masks(
    buf: Seq<u8>,
    frame_width: int,
    placement: CompositionObject,
    object: ObjectDefinitionView,
    palettes: Map<u8, PaletteDefinitionView>,
    k: int,
    c: int,
)
    requires
        object.width > 0,
        placement.horizontal_position + object.width <= frame_width,
        0 <= k < spec_pixels(object.data).len(),
        0 <= c < 4,
        spec_pixel_offset(
            k,
            frame_width,
            placement.horizontal_position as int,
            placement.vertical_position as int,
            object.width as int,
        ) + 4 <= buf.len(),
    ensures
        ({
            let offset = spec_pixel_offset(
                k,
                frame_width,
                placement.horizontal_position as int,
                placement.vertical_position as int,
                object.width as int,
            );
            let painted = spec_paint_object(buf, frame_width, placement, object, palettes);
            painted[offset + c] == if spec_is_cropped(
                k % (object.width as int),
                k / (object.width as int),
                placement.cropped,
            ) {
                buf[offset + c]
            } else {
                channel(resolved(palettes, spec_pixels(object.data)[k]), c)
            }
        }),
{
    let h = placement.horizontal_position as int;
    let v = placement.vertical_position as int;
    let ow = object.width as int;
    let offset = spec_pixel_offset(k, frame_width, h, v, ow);
    lemma_offset_position(k, frame_width, h, v, ow);
    lemma_fundamental_div_mod(k, ow);
    assert(ow * (k / ow) == (k / ow) * ow) by (nonlinear_arith);
    assert((offset + c) / 4 == offset / 4);
    assert((offset + c) % 4 == c);
}

/// Painting an object leaves every byte alone that belongs to no pixel of
/// the object.
pub proof fn lemma_paint_leaves_rest(
    buf: Seq<u8>,
    frame_width: int,
    placement: CompositionObject,
    object: ObjectDefinitionView,
    palettes: Map<u8, PaletteDefinitionView>,
    i: int,
)
    requires
        0 <= i < buf.len(),
        ({
            let x = column_of(i, frame_width) - placement.horizontal_position;
            let y = row_of(i, frame_width) - placement.vertical_position;
            x < 0 || x >= object.width || y < 0 || y * object.width + x >= spec_pixels(
                object.data,
            ).len()
        }),
    ensures
        spec_paint_object(buf, frame_width, placement, object, palettes)[i] == buf[i],
{
}

/// A display set that places no object paints to the blank frame.
pub proof fn lemma_no_objects_paints_blank(display_set: DisplaySetView)
    requires
        display_set.composition_objects.len() == 0,
    ensures
        spec_paint(display_set) == Ok::<Seq<u8>, PgsError>(
            spec_blank_frame(display_set.width as int, display_set.height as int),
        ),
{
}

/// A frame in which every pixel is transparent converts to a frame of zero
/// bytes: what `render_display_set` returns for a display set that places
/// no object is fully transparent black.
pub proof fn lemma_blank_frame_converts_to_blank(rgba: Seq<u8>, width: int, height: int)
    requires
        0 <= width,
        0 <= height,
        is_conversion_of(rgba, spec_blank_frame(width, height), width * height),
    ensures
        rgba == spec_blank_frame(width, height),
{
    let blank = spec_blank_frame(width, height);
    assert(width * height >= 0) by (nonlinear_arith)
        requires
            0 <= width,
            0 <= height,
    ;
    assert forall|i: int| 0 <= i < rgba.len() implies rgba[i] == blank[i] by {
        let p = i / 4;
        let c = i % 4;
        assert(i == 4 * p + c);
        assert(blank[4 * p] == 0);
        if c == 3 {
            assert(rgba[4 * p + 3] == blank[4 * p]);
        } else {
            assert(rgba[4 * p + c] == 0);
        }
    }
    assert(rgba =~= blank);
}

/// A display set whose first composition object names an object that it
/// does not know fails with `ObjectNotFound` for that id.
pub proof fn lemma_unknown_object_fails(display_set: DisplaySetView)
    requires
        display_set.composition_objects.len() > 0,
        !display_set.objects.contains_key(display_set.composition_objects[0].id),
    ensures
        spec_paint(display_set) == Err::<Seq<u8>, PgsError>(
            PgsError::ObjectNotFound { object_id: display_set.composition_objects[0].id },
        ),
{
}

/// A display set that does not know the palette with id zero fails with
/// `PaletteNotFound` for the colour of the first run of its first object.
pub proof fn lemma_unknown_palette_fails(display_set: DisplaySetView)
    requires
        display_set.composition_objects.len() > 0,
        display_set.objects.contains_key(display_set.composition_objects[0].id),
        display_set.objects[display_set.composition_objects[0].id].data.len() > 0,
        !display_set.palettes.contains_key(RENDER_PALETTE_ID),
    ensures
        spec_paint(display_set) == Err::<Seq<u8>, PgsError>(
            PgsError::PaletteNotFound {
                palette_id: RENDER_PALETTE_ID,
                entry_id: display_set.objects[display_set.composition_objects[0].id].data[0].color,
            },
        ),
{
}

/// In the frame of a display set that places one object, each pixel of the
/// object that lies outside the crop rectangle is four zero bytes, fully
/// transparent, and each other pixel has the channels of its colour.
pub proof fn lemma_cropped_pixels_stay_transparent(display_set: DisplaySetView, k: int, c: int)
    requires
        display_set.composition_objects.len() == 1,
        spec_paint(display_set) is Ok,
        0 <= k < total_run_length(
            display_set.objects[display_set.composition_objects[0].id].data,
        ),
        0 <= c < 4,
    ensures
        ({
            let placement = display_set.composition_objects[0];
            let object = display_set.objects[placement.id];
            let offset = spec_pixel_offset(
                k,
                display_set.width as int,
                placement.horizontal_position as int,
                placement.vertical_position as int,
                object.width as int,
            );
            let frame = spec_paint(display_set)->Ok_0;
            &&& 0 <= offset
            &&& offset + c < frame.len()
            &&& frame[offset + c] == if spec_is_cropped(
                k % (object.width as int),
                k / (object.width as int),
                placement.cropped,
            ) {
                0u8
            } else {
                channel(resolved(display_set.palettes, spec_pixels(object.data)[k]), c)
            }
        }),
{
    let placement = display_set.composition_objects[0];
    let object = display_set.objects[placement.id];
    let fw = display_set.width as int;
    let fh = display_set.height as int;
    let blank = spec_blank_frame(fw, fh);
    let painted = spec_paint_object(blank, fw, placement, object, display_set.palettes);
    assert(spec_paint_objects(display_set, painted, 1) == Ok::<Seq<u8>, PgsError>(painted));
    assert(spec_paint(display_set) == Ok::<Seq<u8>, PgsError>(painted));
    lemma_pixels_len(object.data);
    let total = total_run_length(object.data) as int;
    lemma_pixel_in_frame(k, fw, fh, placement, object.width as int, total);
    assert(fw * fh >= 0) by (nonlinear_arith)
        requires
            fw >= 0,
            fh >= 0,
    ;
    lemma_crop_masks(blank, fw, placement, object, display_set.palettes, k, c);
}

/// After a composition that starts an epoch, a composition object that
/// names an object which no segment of the group defines makes painting
/// fail with `ObjectNotFound`, whatever earlier epochs defined.
pub proof fn lemma_object_of_earlier_epoch_is_not_found(
    segments: Seq<crate::segment::SegmentView>,
    index: int,
    carried: crate::display_set::Carried,
)
    requires
        0 <= index < segments.len(),
        segments[index].contents matches crate::segment::SegmentContentsView::PresentationComposition(
            c,
        ) && c.composition_state == crate::segment::CompositionState::EpochStart
            && c.composition_objects.len() > 0,
        crate::display_set::spec_step(segments, index, carried)
            matches crate::display_set::Step::Produced { display_set, next, .. } && forall|i: int|
            index < i < next ==> !#[trigger] crate::display_set::defines_object(
                segments[i],
                display_set.composition_objects[0].id,
            ),
    ensures
        crate::display_set::spec_step(segments, index, carried)
            matches crate::display_set::Step::Produced { display_set, .. } && spec_paint(
            display_set,
        ) == Err::<Seq<u8>, PgsError>(
            PgsError::ObjectNotFound { object_id: display_set.composition_objects[0].id },
        ),
{
    let display_set = crate::display_set::spec_step(segments, index, carried)->display_set;
    crate::display_set::lemma_epoch_start_knows_only_its_group(
        segments,
        index,
        carried,
        display_set.composition_objects[0].id,
        0,
        0,
    );
    lemma_unknown_object_fails(display_set);
}

/// After a composition that starts an epoch, where no segment of the group
/// defines the palette with id zero, painting an object that has a run
/// fails with `PaletteNotFound`, whatever earlier epochs defined.
pub proof fn lemma_palette_of_earlier_epoch_is_not_found(
    segments: Seq<crate::segment::SegmentView>,
    index: int,
    carried: crate::display_set::Carried,
)
    requires
        0 <= index < segments.len(),
        segments[index].contents matches crate::segment::SegmentContentsView::PresentationComposition(
            c,
        ) && c.composition_state == crate::segment::CompositionState::EpochStart
            && c.composition_objects.len() > 0,
        crate::display_set::spec_step(segments, index, carried)
            matches crate::display_set::Step::Produced { display_set, next, .. } && {
            &&& display_set.objects.contains_key(display_set.composition_objects[0].id)
            &&& display_set.objects[display_set.composition_objects[0].id].data.len() > 0
            &&& forall|i: int|
                index < i < next ==> !#[trigger] crate::display_set::defines_palette(
                    segments[i],
                    RENDER_PALETTE_ID,
                )
        },
    ensures
        crate::display_set::spec_step(segments, index, carried)
            matches crate::display_set::Step::Produced { display_set, .. } && spec_paint(
            display_set,
        ) == Err::<Seq<u8>, PgsError>(
            PgsError::PaletteNotFound {
                palette_id: RENDER_PALETTE_ID,
                entry_id: display_set.objects[display_set.composition_objects[0].id].data[0].color,
            },
        ),
{
    let display_set = crate::display_set::spec_step(segments, index, carried)->display_set;
    crate::display_set::lemma_epoch_start_knows_only_its_group(
        segments,
        index,
        carried,
        0,
        RENDER_PALETTE_ID,
        0,
    );
    lemma_unknown_palette_fails(display_set);
}

} // verus!

//! The segments of a stream and the records inside them.
//!
//! Types that own a `Vec` or a `HashMap` have a view (`@`) in which the
//! collection is a `Seq` or a `Map`; contracts are stated over these views.

use crate::rle::{total_run_length, RlEncodedPixels};
use std::collections::HashMap;
use vstd::prelude::*;

verus! {

/// A named rectangle of the screen.
#[derive(Debug, Clone, Copy, PartialEq, Eq, Structural)]
pub struct Window {
    pub id: u8,
    pub horizontal_position: u16,
    pub vertical_position: u16,
    pub width: u16,
    pub height: u16,
}

/// One colour of a palette: luminance, the two chroma differences and alpha.
#[derive(Debug, Clone, Copy, PartialEq, Eq, Structural)]
pub struct PaletteEntry {
    pub id: u8,
    pub luminance: u8,
    pub color_difference_blue: u8,
    pub color_difference_red: u8,
    pub alpha: u8,
}

/// Where a composition starts relative to the current epoch.
#[derive(Debug, Clone, Copy, PartialEq, Eq, Structural)]
pub enum CompositionState {
    Normal,
    AcquisitionPoint,
    EpochStart,
}

/// The place of an object definition in a sequence of fragments.
#[derive(Debug, Clone, Copy, PartialEq, Eq, Structural)]
pub enum LastInSequence {
    Last,
    First,
    FirstAndLast,
}

/// The part of an object that is shown: origin and size, relative to the
/// object's top-left corner.
#[derive(Debug, Clone, Copy, PartialEq, Eq, Structural)]
pub struct CropInfo {
    pub horizontal_position: u16,
    pub vertical_position: u16,
    pub width: u16,
    pub height: u16,
}

/// The placement of one object on the screen.
#[derive(Debug, Clone, Copy, PartialEq, Eq, Structural)]
pub struct CompositionObject {
    pub id: u16,
    pub window_id: u8,
    pub horizontal_position: u16,
    pub vertical_position: u16,
    pub cropped: Option<CropInfo>,
}

/// The runs of an object, in scanline order.
#[derive(Debug, PartialEq, Eq)]
pub struct RunLengthEncodedData(pub Vec<RlEncodedPixels>);

impl View for RunLengthEncodedData {
    type V = Seq<RlEncodedPixels>;

    open spec fn view(&self) -> Seq<RlEncodedPixels> {
        self.0@
    }
}

impl RunLengthEncodedData {
    /// The number of pixels the runs stand for, as long as it does not exceed
    /// `limit`; `None` once it does.
    pub fn total_pixels(&self, limit: u64) -> (total: Option<u64>)
        ensures
            match total {
                Some(n) => n == total_run_length(self@) && n <= limit,
                None => total_run_length(self@) > limit,
            },
    {
        let mut sum: u64 = 0;
        let mut i: usize = 0;
        assert(self.0@.take(0) =~= Seq::empty());
        while i < self.0.len()
            invariant
                i <= self.0@.len(),
                sum == total_run_length(self.0@.take(i as int)),
                sum <= limit,
            decreases self.0@.len() - i,
        {
            let count: u64 = self.0[i].count as u64;
            proof {
                assert(self.0@.take(i + 1).drop_last() =~= self.0@.take(i as int));
                crate::rle::lemma_total_run_length_prefix(self.0@, i + 1);
                crate::rle::lemma_total_run_length_monotone(self.0@, i + 1);
            }
            if count > limit - sum {
                return None;
            }
            sum = sum + count;
            i = i + 1;
        }
        assert(self.0@.take(i as int) =~= self.0@);
        Some(sum)
    }
}

/// The header of a display set: the frame and the objects placed in it.
#[derive(Debug, PartialEq, Eq)]
pub struct PresentationComposition {
    pub width: u16,
    pub height: u16,
    pub frame_rate: u8,
    pub composition_number: u16,
    pub composition_state: CompositionState,
    pub palette_update: bool,
    pub palette_id: u8,
    pub composition_objects: Vec<CompositionObject>,
}

/// A composition with its objects as a sequence.
pub struct PresentationCompositionView {
    pub width: u16,
    pub height: u16,
    pub frame_rate: u8,
    pub composition_number: u16,
    pub composition_state: CompositionState,
    pub palette_update: bool,
    pub palette_id: u8,
    pub composition_objects: Seq<CompositionObject>,
}

impl View for PresentationComposition {
    type V = PresentationCompositionView;

    open spec fn view(&self) -> PresentationCompositionView {
        PresentationCompositionView {
            width: self.width,
            height: self.height,
            frame_rate: self.frame_rate,
            composition_number: self.composition_number,
            composition_state: self.composition_state,
            palette_update: self.palette_update,
            palette_id: self.palette_id,
            composition_objects: self.composition_objects@,
        }
    }
}

/// The windows that one segment defines.
#[derive(Debug, PartialEq, Eq)]
pub struct WindowDefinition {
    pub windows: Vec<Window>,
}

impl View for WindowDefinition {
    type V = Seq<Window>;

    open spec fn view(&self) -> Seq<Window> {
        self.windows@
    }
}

/// A palette: its entries by entry id.
#[derive(Debug, PartialEq, Eq)]
pub struct PaletteDefinition {
    pub id: u8,
    pub version: u8,
    pub entries: HashMap<u8, PaletteEntry>,
}

/// A palette with its entries as a map.
pub struct PaletteDefinitionView {
    pub id: u8,
    pub version: u8,
    pub entries: Map<u8, PaletteEntry>,
}

impl View for PaletteDefinition {
    type V = PaletteDefinitionView;

    open spec fn view(&self) -> PaletteDefinitionView {
        PaletteDefinitionView { id: self.id, version: self.version, entries: self.entries@ }
    }
}

/// An object: its size and its pixels as runs.
#[derive(Debug, PartialEq, Eq)]
pub struct ObjectDefinition {
    pub id: u16,
    pub version: u8,
    pub last_in_sequence: LastInSequence,
    pub width: u16,
    pub height: u16,
    pub data: RunLengthEncodedData,
}

/// An object with its runs as a sequence.
pub struct ObjectDefinitionView {
    pub id: u16,
    pub version: u8,
    pub last_in_sequence: LastInSequence,
    pub width: u16,
    pub height: u16,
    pub data: Seq<RlEncodedPixels>,
}

impl ObjectDefinitionView {
    /// The runs stand for exactly `width * height` pixels.
    pub open spec fn covers_raster(self) -> bool {
        total_run_length(self.data) == self.width as nat * self.height as nat
    }
}

impl View for ObjectDefinition {
    type V = ObjectDefinitionView;

    open spec fn view(&self) -> ObjectDefinitionView {
        ObjectDefinitionView {
            id: self.id,
            version: self.version,
            last_in_sequence: self.last_in_sequence,
            width: self.width,
            height: self.height,
            data: self.data@,
        }
    }
}

impl ObjectDefinition {
    /// Whether the runs stand for exactly `width * height` pixels. An object
    /// for which this is `false` does not fill its own raster.
    pub fn covers_raster(&self) -> (covered: bool)
        ensures
            covered == self@.covers_raster(),
    {
        assert(self.width as nat * self.height as nat <= 0xFFFF * 0xFFFF) by (nonlinear_arith)
            requires
                self.width <= 0xFFFF,
                self.height <= 0xFFFF,
        ;
        let area: u64 = self.width as u64 * self.height as u64;
        match self.data.total_pixels(area) {
            Some(total) => total == area,
            None => false,
        }
    }
}

/// What a segment carries.
#[derive(Debug, PartialEq, Eq)]
pub enum SegmentContents {
    PresentationComposition(PresentationComposition),
    WindowDefinition(WindowDefinition),
    PaletteDefinition(PaletteDefinition),
    ObjectDefinition(ObjectDefinition),
    End,
}

/// What a segment carries, in views.
pub enum SegmentContentsView {
    PresentationComposition(PresentationCompositionView),
    WindowDefinition(Seq<Window>),
    PaletteDefinition(PaletteDefinitionView),
    ObjectDefinition(ObjectDefinitionView),
    End,
}

impl View for SegmentContents {
    type V = SegmentContentsView;

    open spec fn view(&self) -> SegmentContentsView {
        match self {
            SegmentContents::PresentationComposition(c) => {
                SegmentContentsView::PresentationComposition(c@)
            },
            SegmentContents::WindowDefinition(w) => SegmentContentsView::WindowDefinition(w@),
            SegmentContents::PaletteDefinition(p) => SegmentContentsView::PaletteDefinition(p@),
            SegmentContents::ObjectDefinition(o) => SegmentContentsView::ObjectDefinition(o@),
            SegmentContents::End => SegmentContentsView::End,
        }
    }
}

/// One record of the stream, with its two timestamps.
#[derive(Debug, PartialEq, Eq)]
pub struct Segment {
    pub pts: u32,
    pub dts: u32,
    pub contents: SegmentContents,
}

/// A segment with its contents as a view.
pub struct SegmentView {
    pub pts: u32,
    pub dts: u32,
    pub contents: SegmentContentsView,
}

impl View for Segment {
    type V = SegmentView;

    open spec fn view(&self) -> SegmentView {
        SegmentView { pts: self.pts, dts: self.dts, contents: self.contents@ }
    }
}

/// A parsed stream: its segments in order.
#[derive(Debug, PartialEq, Eq)]
pub struct Pgs {
    pub segments: Vec<Segment>,
}

impl View for Pgs {
    type V = Seq<SegmentView>;

    open spec fn view(&self) -> Seq<SegmentView> {
        self.segments@.map_values(|s: Segment| s@)
    }
}

} // verus!

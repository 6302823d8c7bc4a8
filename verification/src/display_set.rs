//! Display sets: the segments of a stream grouped by timestamp pair, each
//! group turned into a snapshot of everything needed to show one moment.
//!
//! Windows, palettes and objects are carried from one group to the next
//! until a composition starts a new epoch.

use crate::error::ProtocolViolation;
use crate::segment::{
    CompositionObject, CompositionState, ObjectDefinition, ObjectDefinitionView,
    PaletteDefinition, PaletteDefinitionView, Pgs, PresentationCompositionView, Segment,
    SegmentContents, SegmentContentsView, SegmentView, Window,
};
use std::collections::HashMap;
use vstd::prelude::*;

verus! {

broadcast use vstd::std_specs::hash::group_hash_axioms;

/// The windows, palettes and objects known at some point of the walk.
pub struct Carried {
    pub windows: Map<u8, Window>,
    pub palettes: Map<u8, PaletteDefinitionView>,
    pub objects: Map<u16, ObjectDefinitionView>,
}

impl Carried {
    /// Nothing known: the state at the start of a walk and of an epoch.
    pub open spec fn empty() -> Carried {
        Carried { windows: Map::empty(), palettes: Map::empty(), objects: Map::empty() }
    }
}

/// Everything needed to show one moment: the frame, the objects placed in
/// it, and the windows, palettes and objects known when the group ended.
#[derive(Debug, PartialEq, Eq)]
pub struct DisplaySet<'a> {
    pub presentation_timestamp: u32,
    pub decoding_timestamp: u32,
    pub width: u16,
    pub height: u16,
    pub frame_rate: u8,
    pub composition_number: u16,
    pub composition_state: CompositionState,
    pub palette_update: bool,
    pub palette_id: u8,
    pub composition_objects: &'a [CompositionObject],
    pub windows: HashMap<u8, &'a Window>,
    pub palettes: HashMap<u8, &'a PaletteDefinition>,
    pub objects: HashMap<u16, &'a ObjectDefinition>,
}

/// A display set with its collections as sequences and maps of views.
pub struct DisplaySetView {
    pub presentation_timestamp: u32,
    pub decoding_timestamp: u32,
    pub width: u16,
    pub height: u16,
    pub frame_rate: u8,
    pub composition_number: u16,
    pub composition_state: CompositionState,
    pub palette_update: bool,
    pub palette_id: u8,
    pub composition_objects: Seq<CompositionObject>,
    pub windows: Map<u8, Window>,
    pub palettes: Map<u8, PaletteDefinitionView>,
    pub objects: Map<u16, ObjectDefinitionView>,
}

/// The windows that a map of references holds.
pub open spec fn window_views(m: Map<u8, &Window>) -> Map<u8, Window> {
    m.map_values(|w: &Window| *w)
}

/// The palettes that a map of references holds, as views.
pub open spec fn palette_views(m: Map<u8, &PaletteDefinition>) -> Map<u8, PaletteDefinitionView> {
    m.map_values(|p: &PaletteDefinition| p@)
}

/// The objects that a map of references holds, as views.
pub open spec fn object_views(m: Map<u16, &ObjectDefinition>) -> Map<u16, ObjectDefinitionView> {
    m.map_values(|o: &ObjectDefinition| o@)
}

impl<'a> View for DisplaySet<'a> {
    type V = DisplaySetView;

    open spec fn view(&self) -> DisplaySetView {
        DisplaySetView {
            presentation_timestamp: self.presentation_timestamp,
            decoding_timestamp: self.decoding_timestamp,
            width: self.width,
            height: self.height,
            frame_rate: self.frame_rate,
            composition_number: self.composition_number,
            composition_state: self.composition_state,
            palette_update: self.palette_update,
            palette_id: self.palette_id,
            composition_objects: self.composition_objects@,
            windows: window_views(self.windows@),
            palettes: palette_views(self.palettes@),
            objects: object_views(self.objects@),
        }
    }
}

impl<'a> DisplaySet<'a> {
    /// Whether the display set places no object at all.
    pub fn is_empty(&self) -> (empty: bool)
        ensures
            empty == (self@.composition_objects.len() == 0),
    {
        self.composition_objects.len() == 0
    }
}

/// `windows` with each window of `defined` put under its id, a later one in
/// place of an earlier one with the same id.
pub open spec fn merge_windows(windows: Map<u8, Window>, defined: Seq<Window>) -> Map<u8, Window>
    decreases defined.len(),
{
    if defined.len() == 0 {
        windows
    } else {
        merge_windows(windows, defined.drop_last()).insert(defined.last().id, defined.last())
    }
}

/// Reads the segments of a group from index `at` up to its end segment.
/// Gives what is carried after the group and the index after the end
/// segment, or the violation that stops the walk.
pub open spec fn spec_group(
    segments: Seq<SegmentView>,
    at: int,
    pts: u32,
    dts: u32,
    carried: Carried,
) -> Result<(Carried, int), ProtocolViolation>
    decreases segments.len() - at,
{
    if at < 0 || at >= segments.len() {
        Err(ProtocolViolation::UnterminatedGroup)
    } else if segments[at].pts != pts || segments[at].dts != dts {
        Err(ProtocolViolation::TimestampMismatch)
    } else {
        match segments[at].contents {
            SegmentContentsView::PresentationComposition(_) => Err(
                ProtocolViolation::UnexpectedComposition,
            ),
            SegmentContentsView::WindowDefinition(defined) => spec_group(
                segments,
                at + 1,
                pts,
                dts,
                Carried { windows: merge_windows(carried.windows, defined), ..carried },
            ),
            SegmentContentsView::PaletteDefinition(palette) => spec_group(
                segments,
                at + 1,
                pts,
                dts,
                Carried { palettes: carried.palettes.insert(palette.id, palette), ..carried },
            ),
            SegmentContentsView::ObjectDefinition(object) => spec_group(
                segments,
                at + 1,
                pts,
                dts,
                Carried { objects: carried.objects.insert(object.id, object), ..carried },
            ),
            SegmentContentsView::End => Ok((carried, at + 1)),
        }
    }
}

/// The display set of a group: the composition's own fields and what is
/// carried when the group ends.
pub open spec fn spec_display_set(
    pts: u32,
    dts: u32,
    composition: PresentationCompositionView,
    carried: Carried,
) -> DisplaySetView {
    DisplaySetView {
        presentation_timestamp: pts,
        decoding_timestamp: dts,
        width: composition.width,
        height: composition.height,
        frame_rate: composition.frame_rate,
        composition_number: composition.composition_number,
        composition_state: composition.composition_state,
        palette_update: composition.palette_update,
        palette_id: composition.palette_id,
        composition_objects: composition.composition_objects,
        windows: carried.windows,
        palettes: carried.palettes,
        objects: carried.objects,
    }
}

/// One step of the walk.
pub enum Step {
    /// No group starts at the index: the walk has ended.
    Finished,
    /// A whole group was read.
    Produced { display_set: DisplaySetView, carried: Carried, next: int },
    /// The group breaks a rule.
    Failed(ProtocolViolation),
}

/// The step taken at `index` with `carried` known. A group starts only at a
/// composition; one that starts an epoch first forgets all that is carried.
pub open spec fn spec_step(segments: Seq<SegmentView>, index: int, carried: Carried) -> Step {
    if index < 0 || index >= segments.len() {
        Step::Finished
    } else {
        match segments[index].contents {
            SegmentContentsView::PresentationComposition(composition) => {
                let known = if composition.composition_state == CompositionState::EpochStart {
                    Carried::empty()
                } else {
                    carried
                };
                match spec_group(
                    segments,
                    index + 1,
                    segments[index].pts,
                    segments[index].dts,
                    known,
                ) {
                    Ok((after, next)) => Step::Produced {
                        display_set: spec_display_set(
                            segments[index].pts,
                            segments[index].dts,
                            composition,
                            after,
                        ),
                        carried: after,
                        next,
                    },
                    Err(violation) => Step::Failed(violation),
                }
            },
            _ => Step::Finished,
        }
    }
}

/// A group that ends does so after the index it started at and within the
/// stream.
pub proof fn lemma_group_advances(
    segments: Seq<SegmentView>,
    at: int,
    pts: u32,
    dts: u32,
    carried: Carried,
)
    ensures
        spec_group(segments, at, pts, dts, carried) matches Ok((_, next)) ==> at < next
            <= segments.len(),
    decreases segments.len() - at,
{
    if 0 <= at < segments.len() && segments[at].pts == pts && segments[at].dts == dts {
        match segments[at].contents {
            SegmentContentsView::PresentationComposition(_) => {},
            SegmentContentsView::WindowDefinition(defined) => {
                lemma_group_advances(
                    segments,
                    at + 1,
                    pts,
                    dts,
                    Carried { windows: merge_windows(carried.windows, defined), ..carried },
                );
            },
            SegmentContentsView::PaletteDefinition(palette) => {
                lemma_group_advances(
                    segments,
                    at + 1,
                    pts,
                    dts,
                    Carried { palettes: carried.palettes.insert(palette.id, palette), ..carried },
                );
            },
            SegmentContentsView::ObjectDefinition(object) => {
                lemma_group_advances(
                    segments,
                    at + 1,
                    pts,
                    dts,
                    Carried { objects: carried.objects.insert(object.id, object), ..carried },
                );
            },
            SegmentContentsView::End => {},
        }
    }
}

/// The display sets that the walk from `index` produces, and the violation
/// that ended it, if one did.
pub open spec fn spec_walk(segments: Seq<SegmentView>, index: int, carried: Carried) -> (
    Seq<DisplaySetView>,
    Option<ProtocolViolation>,
)
    decreases segments.len() - index,
    via spec_walk_decreases
{
    match spec_step(segments, index, carried) {
        Step::Finished => (Seq::empty(), None),
        Step::Failed(violation) => (Seq::empty(), Some(violation)),
        Step::Produced { display_set, carried, next } => {
            let (rest, violation) = spec_walk(segments, next, carried);
            (seq![display_set] + rest, violation)
        },
    }
}

#[via_fn]
proof fn spec_walk_decreases(segments: Seq<SegmentView>, index: int, carried: Carried) {
    if 0 <= index < segments.len() {
        match segments[index].contents {
            SegmentContentsView::PresentationComposition(composition) => {
                let known = if composition.composition_state == CompositionState::EpochStart {
                    Carried::empty()
                } else {
                    carried
                };
                lemma_group_advances(
                    segments,
                    index + 1,
                    segments[index].pts,
                    segments[index].dts,
                    known,
                );
            },
            _ => {},
        }
    }
}

/// A walk over a parsed stream that yields its display sets one by one.
pub struct DisplaySetIterator<'a> {
    pgs: &'a Pgs,
    index: usize,
    windows: HashMap<u8, &'a Window>,
    palettes: HashMap<u8, &'a PaletteDefinition>,
    objects: HashMap<u16, &'a ObjectDefinition>,
}

impl<'a> DisplaySetIterator<'a> {
    /// The segments that are walked.
    pub closed spec fn segments(&self) -> Seq<SegmentView> {
        self.pgs@
    }

    /// The index of the segment at which the next group is looked for.
    pub closed spec fn index(&self) -> int {
        self.index as int
    }

    /// What is carried into the next group.
    pub closed spec fn carried(&self) -> Carried {
        Carried {
            windows: window_views(self.windows@),
            palettes: palette_views(self.palettes@),
            objects: object_views(self.objects@),
        }
    }

    /// Starts a walk at the first segment, with nothing carried.
    pub fn new(pgs: &'a Pgs) -> (walk: Self)
        ensures
            walk.segments() == pgs@,
            walk.index() == 0,
            walk.carried() == Carried::empty(),
    {
        let walk = DisplaySetIterator {
            pgs,
            index: 0,
            windows: HashMap::new(),
            palettes: HashMap::new(),
            objects: HashMap::new(),
        };
        proof {
            assert(window_views(walk.windows@) =~= Map::empty());
            assert(palette_views(walk.palettes@) =~= Map::empty());
            assert(object_views(walk.objects@) =~= Map::empty());
        }
        walk
    }

    /// Ends the walk: every later step finds no group.
    fn stop(&mut self)
        ensures
            final(self).segments() == old(self).segments(),
            final(self).index() == old(self).segments().len(),
    {
        self.index = self.pgs.segments.len();
    }

    /// Puts the windows of one segment into the carried windows.
    fn merge_windows(&mut self, defined: &'a Vec<Window>)
        ensures
            final(self).segments() == old(self).segments(),
            final(self).index() == old(self).index(),
            final(self).carried() == (Carried {
                windows: merge_windows(old(self).carried().windows, defined@),
                ..old(self).carried()
            }),
    {
        let mut k: usize = 0;
        assert(defined@.take(0) =~= Seq::empty());
        while k < defined.len()
            invariant
                k <= defined@.len(),
                self.pgs == old(self).pgs,
                self.index == old(self).index,
                self.palettes == old(self).palettes,
                self.objects == old(self).objects,
                window_views(self.windows@) == merge_windows(
                    window_views(old(self).windows@),
                    defined@.take(k as int),
                ),
            decreases defined@.len() - k,
        {
            let window: &'a Window = &defined[k];
            let ghost before = self.windows@;
            self.windows.insert(window.id, window);
            proof {
                assert(window_views(self.windows@) =~= window_views(before).insert(
                    window.id,
                    *window,
                ));
                assert(defined@.take(k + 1).drop_last() =~= defined@.take(k as int));
            }
            k = k + 1;
        }
        assert(defined@.take(k as int) =~= defined@);
    }

    /// Takes the next step of the walk: `None` where no group starts at the
    /// current segment, a display set where a whole group follows, or the
    /// violation that the group commits. After a violation the walk is over.
    #[verifier::loop_isolation(false)]
    pub fn next(&mut self) -> (result: Option<Result<DisplaySet<'a>, ProtocolViolation>>)
        ensures
            final(self).segments() == old(self).segments(),
            match spec_step(old(self).segments(), old(self).index(), old(self).carried()) {
                Step::Finished => {
                    &&& result is None
                    &&& final(self).index() == old(self).index()
                    &&& final(self).carried() == old(self).carried()
                },
                Step::Failed(violation) => {
                    &&& result == Some(Err::<DisplaySet<'a>, ProtocolViolation>(violation))
                    &&& final(self).index() == old(self).segments().len()
                },
                Step::Produced { display_set, carried, next } => {
                    &&& result matches Some(Ok(produced))
                    &&& produced@ == display_set
                    &&& final(self).index() == next
                    &&& final(self).carried() == carried
                },
            },
    {
        let pgs: &'a Pgs = self.pgs;
        let len = pgs.segments.len();
        if self.index >= len {
            return None;
        }
        let first: &'a Segment = &pgs.segments[self.index];
        let composition = match &first.contents {
            SegmentContents::PresentationComposition(composition) => composition,
            _ => {
                return None;
            },
        };
        let pts = first.pts;
        let dts = first.dts;
        match composition.composition_state {
            CompositionState::EpochStart => {
                self.windows.clear();
                self.palettes.clear();
                self.objects.clear();
                proof {
                    assert(window_views(self.windows@) =~= Map::empty());
                    assert(palette_views(self.palettes@) =~= Map::empty());
                    assert(object_views(self.objects@) =~= Map::empty());
                }
            },
            _ => {},
        }
        let ghost whole = spec_group(pgs@, self.index + 1, pts, dts, self.carried());
        let mut at: usize = self.index + 1;
        loop
            invariant
                at <= len,
                len == pgs.segments@.len(),
                self.segments() == pgs@,
                self.index == old(self).index,
                whole == spec_group(pgs@, at as int, pts, dts, self.carried()),
            decreases len - at,
        {
            if at >= len {
                self.stop();
                return Some(Err(ProtocolViolation::UnterminatedGroup));
            }
            let segment: &'a Segment = &pgs.segments[at];
            if segment.pts != pts || segment.dts != dts {
                self.stop();
                return Some(Err(ProtocolViolation::TimestampMismatch));
            }
            match &segment.contents {
                SegmentContents::PresentationComposition(_) => {
                    self.stop();
                    return Some(Err(ProtocolViolation::UnexpectedComposition));
                },
                SegmentContents::WindowDefinition(definition) => {
                    self.merge_windows(&definition.windows);
                },
                SegmentContents::PaletteDefinition(palette) => {
                    let ghost before = self.palettes@;
                    self.palettes.insert(palette.id, palette);
                    proof {
                        assert(palette_views(self.palettes@) =~= palette_views(before).insert(
                            palette.id,
                            palette@,
                        ));
                    }
                },
                SegmentContents::ObjectDefinition(object) => {
                    let ghost before = self.objects@;
                    self.objects.insert(object.id, object);
                    proof {
                        assert(object_views(self.objects@) =~= object_views(before).insert(
                            object.id,
                            object@,
                        ));
                    }
                },
                SegmentContents::End => {
                    self.index = at + 1;
                    let produced = DisplaySet {
                        presentation_timestamp: pts,
                        decoding_timestamp: dts,
                        width: composition.width,
                        height: composition.height,
                        frame_rate: composition.frame_rate,
                        composition_number: composition.composition_number,
                        composition_state: composition.composition_state,
                        palette_update: composition.palette_update,
                        palette_id: composition.palette_id,
                        composition_objects: composition.composition_objects.as_slice(),
                        windows: self.windows.clone(),
                        palettes: self.palettes.clone(),
                        objects: self.objects.clone(),
                    };
                    return Some(Ok(produced));
                },
            }
            at = at + 1;
        }
    }
}

/// Walks the whole stream. Returns the display sets of the groups that were
/// read, in order, and the violation that ended the walk, if one did.
#[verifier::loop_isolation(false)]
pub fn get_display_sets<'a>(pgs: &'a Pgs) -> (result: (
    Vec<DisplaySet<'a>>,
    Option<ProtocolViolation>,
))
    ensures
        result.0@.map_values(|d: DisplaySet<'a>| d@) == spec_walk(pgs@, 0, Carried::empty()).0,
        result.1 == spec_walk(pgs@, 0, Carried::empty()).1,
{
    let mut walk = DisplaySetIterator::new(pgs);
    let mut sets: Vec<DisplaySet<'a>> = Vec::new();
    let ghost all = spec_walk(pgs@, 0, Carried::empty());
    proof {
        assert(sets@.map_values(|d: DisplaySet<'a>| d@) =~= Seq::empty());
        assert(Seq::<DisplaySetView>::empty() + all.0 =~= all.0);
    }
    loop
        invariant
            walk.segments() == pgs@,
            0 <= walk.index() <= pgs@.len(),
            all.0 == sets@.map_values(|d: DisplaySet<'a>| d@) + spec_walk(
                pgs@,
                walk.index(),
                walk.carried(),
            ).0,
            all.1 == spec_walk(pgs@, walk.index(), walk.carried()).1,
        decreases pgs@.len() - walk.index(),
    {
        let ghost index = walk.index();
        let ghost carried = walk.carried();
        proof {
            lemma_step_advances(pgs@, index, carried);
        }
        match walk.next() {
            None => {
                proof {
                    let front = sets@.map_values(|d: DisplaySet<'a>| d@);
                    assert(front + Seq::<DisplaySetView>::empty() =~= front);
                }
                return (sets, None);
            },
            Some(Err(violation)) => {
                proof {
                    let front = sets@.map_values(|d: DisplaySet<'a>| d@);
                    assert(front + Seq::<DisplaySetView>::empty() =~= front);
                }
                return (sets, Some(violation));
            },
            Some(Ok(produced)) => {
                proof {
                    let front = sets@.map_values(|d: DisplaySet<'a>| d@);
                    let rest = spec_walk(pgs@, walk.index(), walk.carried()).0;
                    assert(sets@.push(produced).map_values(|d: DisplaySet<'a>| d@)
                        =~= front.push(produced@));
                    assert(front + (seq![produced@] + rest) =~= front.push(produced@) + rest);
                }
                sets.push(produced);
            },
        }
    }
}

/// A step that produces a display set moves on, and stays within the stream.
pub proof fn lemma_step_advances(segments: Seq<SegmentView>, index: int, carried: Carried)
    ensures
        spec_step(segments, index, carried) matches Step::Produced { next, .. } ==> index < next
            <= segments.len(),
{
    if 0 <= index < segments.len() {
        match segments[index].contents {
            SegmentContentsView::PresentationComposition(composition) => {
                let known = if composition.composition_state == CompositionState::EpochStart {
                    Carried::empty()
                } else {
                    carried
                };
                lemma_group_advances(
                    segments,
                    index + 1,
                    segments[index].pts,
                    segments[index].dts,
                    known,
                );
            },
            _ => {},
        }
    }
}

// ---------------------------------------------------------------------
// Laws of the walk
// ---------------------------------------------------------------------
/// Whether a segment defines windows, a palette or an object.
pub open spec fn is_definition(segment: SegmentView) -> bool {
    segment.contents is WindowDefinition || segment.contents is PaletteDefinition
        || segment.contents is ObjectDefinition
}

/// A composition that starts an epoch forgets what was carried: the step it
/// opens is the same whatever was known before.
pub proof fn lemma_epoch_start_forgets(segments: Seq<SegmentView>, index: int, carried: Carried)
    requires
        0 <= index < segments.len(),
        segments[index].contents matches SegmentContentsView::PresentationComposition(c)
            && c.composition_state == CompositionState::EpochStart,
    ensures
        spec_step(segments, index, carried) == spec_step(segments, index, Carried::empty()),
{
}

/// Every segment of a group that ends has the timestamps of the composition
/// that opened it: all segments that one display set is made of share one
/// timestamp pair.
pub proof fn lemma_group_shares_timestamps(
    segments: Seq<SegmentView>,
    index: int,
    carried: Carried,
    i: int,
)
    requires
        spec_step(segments, index, carried) matches Step::Produced { next, .. } && index <= i
            < next,
    ensures
        segments[i].pts == segments[index].pts,
        segments[i].dts == segments[index].dts,
        spec_step(segments, index, carried) matches Step::Produced { display_set, .. }
            && display_set.presentation_timestamp == segments[index].pts
            && display_set.decoding_timestamp == segments[index].dts,
{
    match segments[index].contents {
        SegmentContentsView::PresentationComposition(composition) => {
            let known = if composition.composition_state == CompositionState::EpochStart {
                Carried::empty()
            } else {
                carried
            };
            if i > index {
                lemma_group_timestamps(
                    segments,
                    index + 1,
                    segments[index].pts,
                    segments[index].dts,
                    known,
                    i,
                );
            }
        },
        _ => {},
    }
}

proof fn lemma_group_timestamps(
    segments: Seq<SegmentView>,
    at: int,
    pts: u32,
    dts: u32,
    carried: Carried,
    i: int,
)
    requires
        spec_group(segments, at, pts, dts, carried) matches Ok((_, next)) && at <= i < next,
    ensures
        segments[i].pts == pts,
        segments[i].dts == dts,
    decreases segments.len() - at,
{
    if i > at {
        match segments[at].contents {
            SegmentContentsView::WindowDefinition(defined) => {
                lemma_group_timestamps(
                    segments,
                    at + 1,
                    pts,
                    dts,
                    Carried { windows: merge_windows(carried.windows, defined), ..carried },
                    i,
                );
            },
            SegmentContentsView::PaletteDefinition(palette) => {
                lemma_group_timestamps(
                    segments,
                    at + 1,
                    pts,
                    dts,
                    Carried { palettes: carried.palettes.insert(palette.id, palette), ..carried },
                    i,
                );
            },
            SegmentContentsView::ObjectDefinition(object) => {
                lemma_group_timestamps(
                    segments,
                    at + 1,
                    pts,
                    dts,
                    Carried { objects: carried.objects.insert(object.id, object), ..carried },
                    i,
                );
            },
            _ => {},
        }
    }
}

/// A segment whose timestamps differ from those of the composition that
/// opened its group, with nothing but definitions of the group between the
/// two, makes the step fail with a timestamp mismatch: no display set is
/// produced from such a group.
pub proof fn lemma_timestamp_mismatch_fails(
    segments: Seq<SegmentView>,
    index: int,
    carried: Carried,
    j: int,
)
    requires
        0 <= index < j < segments.len(),
        segments[index].contents is PresentationComposition,
        forall|i: int|
            index < i < j ==> #[trigger] is_definition(segments[i]) && segments[i].pts
                == segments[index].pts && segments[i].dts == segments[index].dts,
        segments[j].pts != segments[index].pts || segments[j].dts != segments[index].dts,
    ensures
        spec_step(segments, index, carried) == Step::Failed(ProtocolViolation::TimestampMismatch),
{
    match segments[index].contents {
        SegmentContentsView::PresentationComposition(composition) => {
            let known = if composition.composition_state == CompositionState::EpochStart {
                Carried::empty()
            } else {
                carried
            };
            lemma_group_mismatch(
                segments,
                index + 1,
                segments[index].pts,
                segments[index].dts,
                known,
                j,
            );
        },
        _ => {},
    }
}

proof fn lemma_group_mismatch(
    segments: Seq<SegmentView>,
    at: int,
    pts: u32,
    dts: u32,
    carried: Carried,
    j: int,
)
    requires
        0 <= at <= j < segments.len(),
        forall|i: int|
            at <= i < j ==> #[trigger] is_definition(segments[i]) && segments[i].pts == pts
                && segments[i].dts == dts,
        segments[j].pts != pts || segments[j].dts != dts,
    ensures
        spec_group(segments, at, pts, dts, carried) == Err::<(Carried, int), ProtocolViolation>(
            ProtocolViolation::TimestampMismatch,
        ),
    decreases j - at,
{
    if at < j {
        assert(is_definition(segments[at]));
        match segments[at].contents {
            SegmentContentsView::WindowDefinition(defined) => {
                lemma_group_mismatch(
                    segments,
                    at + 1,
                    pts,
                    dts,
                    Carried { windows: merge_windows(carried.windows, defined), ..carried },
                    j,
                );
            },
            SegmentContentsView::PaletteDefinition(palette) => {
                lemma_group_mismatch(
                    segments,
                    at + 1,
                    pts,
                    dts,
                    Carried { palettes: carried.palettes.insert(palette.id, palette), ..carried },
                    j,
                );
            },
            SegmentContentsView::ObjectDefinition(object) => {
                lemma_group_mismatch(
                    segments,
                    at + 1,
                    pts,
                    dts,
                    Carried { objects: carried.objects.insert(object.id, object), ..carried },
                    j,
                );
            },
            _ => {},
        }
    }
}

/// Whether a segment defines the object with id `id`.
pub open spec fn defines_object(segment: SegmentView, id: u16) -> bool {
    segment.contents matches SegmentContentsView::ObjectDefinition(object) && object.id == id
}

/// Whether a segment defines the palette with id `id`.
pub open spec fn defines_palette(segment: SegmentView, id: u8) -> bool {
    segment.contents matches SegmentContentsView::PaletteDefinition(palette) && palette.id == id
}

/// Whether a segment defines a window with id `id`.
pub open spec fn defines_window(segment: SegmentView, id: u8) -> bool {
    segment.contents matches SegmentContentsView::WindowDefinition(defined) && exists|k: int|
        0 <= k < defined.len() && #[trigger] defined[k].id == id
}

/// Merging windows adds no id but those of the windows merged.
pub proof fn lemma_merge_windows_ids(windows: Map<u8, Window>, defined: Seq<Window>, id: u8)
    requires
        !windows.contains_key(id),
        forall|k: int| 0 <= k < defined.len() ==> #[trigger] defined[k].id != id,
    ensures
        !merge_windows(windows, defined).contains_key(id),
    decreases defined.len(),
{
    if defined.len() > 0 {
        assert forall|k: int| 0 <= k < defined.drop_last().len() implies
            #[trigger] defined.drop_last()[k].id != id by {
            assert(defined.drop_last()[k] == defined[k]);
        }
        lemma_merge_windows_ids(windows, defined.drop_last(), id);
        assert(defined[defined.len() - 1].id != id);
    }
}

/// After a composition that starts an epoch, a display set knows an object,
/// a palette or a window only if a segment of its own group defines it:
/// what earlier epochs defined is gone.
pub proof fn lemma_epoch_start_knows_only_its_group(
    segments: Seq<SegmentView>,
    index: int,
    carried: Carried,
    object_id: u16,
    palette_id: u8,
    window_id: u8,
)
    requires
        0 <= index < segments.len(),
        segments[index].contents matches SegmentContentsView::PresentationComposition(c)
            && c.composition_state == CompositionState::EpochStart,
        spec_step(segments, index, carried) is Produced,
    ensures
        spec_step(segments, index, carried) matches Step::Produced { display_set, next, .. } && {
            &&& (forall|i: int| index < i < next ==> !#[trigger] defines_object(segments[i], object_id))
                ==> !display_set.objects.contains_key(object_id)
            &&& (forall|i: int|
                index < i < next ==> !#[trigger] defines_palette(segments[i], palette_id))
                ==> !display_set.palettes.contains_key(palette_id)
            &&& (forall|i: int| index < i < next ==> !#[trigger] defines_window(segments[i], window_id))
                ==> !display_set.windows.contains_key(window_id)
        },
{
    lemma_group_knows(
        segments,
        index + 1,
        segments[index].pts,
        segments[index].dts,
        Carried::empty(),
        object_id,
        palette_id,
        window_id,
    );
}

proof fn lemma_group_knows(
    segments: Seq<SegmentView>,
    at: int,
    pts: u32,
    dts: u32,
    carried: Carried,
    object_id: u16,
    palette_id: u8,
    window_id: u8,
)
    requires
        spec_group(segments, at, pts, dts, carried) is Ok,
    ensures
        spec_group(segments, at, pts, dts, carried) matches Ok((after, next)) && {
            &&& (!carried.objects.contains_key(object_id) && forall|i: int|
                at <= i < next ==> !#[trigger] defines_object(segments[i], object_id))
                ==> !after.objects.contains_key(object_id)
            &&& (!carried.palettes.contains_key(palette_id) && forall|i: int|
                at <= i < next ==> !#[trigger] defines_palette(segments[i], palette_id))
                ==> !after.palettes.contains_key(palette_id)
            &&& (!carried.windows.contains_key(window_id) && forall|i: int|
                at <= i < next ==> !#[trigger] defines_window(segments[i], window_id))
                ==> !after.windows.contains_key(window_id)
        },
    decreases segments.len() - at,
{
    let (after, next) = spec_group(segments, at, pts, dts, carried)->Ok_0;
    lemma_group_advances(segments, at, pts, dts, carried);
    match segments[at].contents {
        SegmentContentsView::WindowDefinition(defined) => {
            let then = Carried { windows: merge_windows(carried.windows, defined), ..carried };
            lemma_group_knows(segments, at + 1, pts, dts, then, object_id, palette_id, window_id);
            if !carried.windows.contains_key(window_id) && forall|i: int|
                at <= i < next ==> !#[trigger] defines_window(segments[i], window_id) {
                assert(!defines_window(segments[at], window_id));
                lemma_merge_windows_ids(carried.windows, defined, window_id);
            }
        },
        SegmentContentsView::PaletteDefinition(palette) => {
            let then = Carried { palettes: carried.palettes.insert(palette.id, palette), ..carried };
            lemma_group_knows(segments, at + 1, pts, dts, then, object_id, palette_id, window_id);
            if forall|i: int|
                at <= i < next ==> !#[trigger] defines_palette(segments[i], palette_id) {
                assert(!defines_palette(segments[at], palette_id));
            }
        },
        SegmentContentsView::ObjectDefinition(object) => {
            let then = Carried { objects: carried.objects.insert(object.id, object), ..carried };
            lemma_group_knows(segments, at + 1, pts, dts, then, object_id, palette_id, window_id);
            if forall|i: int| at <= i < next ==> !#[trigger] defines_object(segments[i], object_id) {
                assert(!defines_object(segments[at], object_id));
            }
        },
        _ => {},
    }
}

} // verus!

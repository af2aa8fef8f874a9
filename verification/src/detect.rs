//! Detection as a sequence of steps. The library decides what is tried and
//! in which order, and what comes back from it; the caller runs the two
//! decoders and reports what they read.
//!
//! A `Detector` opens with an action. `Action::First` and `Action::Second`
//! name the image that the first or the second decoder is to be run on; the
//! caller answers with `first_answered` or `second_answered` and gets the next
//! action, until `Action::Done` carries the detections.

use crate::backend::level_fits;
use crate::coord::Point;
use crate::geometry::{
    bbox_from_points, bbox_of_points, lemma_rescaled_box_valid, lemma_scaled_side, rescale_bbox,
    rescaled_box, BoundingBox, Scale,
};
use crate::ladder::{scale_ladder, scale_ladder_of, standard_config, LadderConfig};
use crate::prepare::{apply_threshold, is_binarized, resize_by, resized};
use crate::raster::{shape_verdict, DetectError, Image, Raster};
use vstd::prelude::*;

verus! {

/// What a decoder read of one symbol.
#[derive(Clone, Debug)]
pub struct Reading {
    /// The decoded payload.
    pub text: String,
    /// The corner points that the decoder reports, in the grid of the image
    /// that it was given.
    pub corners: Vec<Point>,
}

/// A reading as contracts speak of it.
pub struct ReadingView {
    pub text: Seq<char>,
    pub corners: Seq<Point>,
}

impl View for Reading {
    type V = ReadingView;

    open spec fn view(&self) -> ReadingView {
        ReadingView { text: self.text@, corners: self.corners@ }
    }
}

/// The view of a reading that may be missing.
pub open spec fn reading_view(reading: Option<Reading>) -> Option<ReadingView> {
    match reading {
        Some(r) => Some(r@),
        None => None,
    }
}

/// The views of a list of readings.
pub open spec fn readings_view(readings: Seq<Option<Reading>>) -> Seq<Option<ReadingView>> {
    Seq::new(readings.len(), |i: int| reading_view(readings[i]))
}

/// One decoded symbol: its payload and the box that encloses it.
#[derive(Clone, Debug)]
pub struct Detection {
    pub content: String,
    pub bbox: BoundingBox,
}

/// A detection as contracts speak of it.
pub struct DetectionView {
    pub content: Seq<char>,
    pub bbox: BoundingBox,
}

impl View for Detection {
    type V = DetectionView;

    open spec fn view(&self) -> DetectionView {
        DetectionView { content: self.content@, bbox: self.bbox }
    }
}

/// The views of a list of detections.
pub open spec fn detections_view(found: Seq<Detection>) -> Seq<DetectionView> {
    Seq::new(found.len(), |i: int| found[i]@)
}

/// The views of a list of texts.
pub open spec fn texts_view(texts: Seq<String>) -> Seq<Seq<char>> {
    Seq::new(texts.len(), |i: int| texts[i]@)
}

/// The payloads of a list of detections, in its order.
pub open spec fn contents(found: Seq<DetectionView>) -> Seq<Seq<char>> {
    Seq::new(found.len(), |i: int| found[i].content)
}

/// Every box has an area and lies inside an image of the given size.
pub open spec fn all_valid(found: Seq<DetectionView>, width: u32, height: u32) -> bool {
    forall|i: int|
        0 <= i < found.len() ==> (#[trigger] found[i]).bbox.nonempty() && found[i].bbox.within(
            width,
            height,
        )
}

/// The detection that a reading stands for in an image of the given size:
/// none where the grid did not decode, where no corner is finite, or where
/// the box of the corners has no area.
pub open spec fn detection_of(reading: Option<ReadingView>, width: u32, height: u32) -> Option<
    DetectionView,
> {
    match reading {
        None => None,
        Some(r) => match bbox_of_points(r.corners, width, height) {
            None => None,
            Some(b) => if b.nonempty() {
                Some(DetectionView { content: r.text, bbox: b })
            } else {
                None
            },
        },
    }
}

/// The detections that a list of readings stands for, in its order.
pub open spec fn detections_of(readings: Seq<Option<ReadingView>>, width: u32, height: u32) -> Seq<
    DetectionView,
>
    decreases readings.len(),
{
    if readings.len() == 0 {
        Seq::empty()
    } else {
        let before = detections_of(readings.drop_last(), width, height);
        match detection_of(readings.last(), width, height) {
            Some(d) => before.push(d),
            None => before,
        }
    }
}

/// Turns what a decoder read in an image of the given size into detections:
/// each reading with its text and the box of its corners, in the order of the
/// readings; a reading without a text or without a box that has an area is
/// dropped.
pub fn collect_detections(readings: &Vec<Option<Reading>>, width: u32, height: u32) -> (found: Vec<
    Detection,
>)
    ensures
        detections_view(found@) == detections_of(readings_view(readings@), width, height),
        all_valid(detections_view(found@), width, height),
{
    let mut found: Vec<Detection> = Vec::new();
    let mut i: usize = 0;
    while i < readings.len()
        invariant
            i <= readings.len(),
            detections_view(found@) == detections_of(
                readings_view(readings@).take(i as int),
                width,
                height,
            ),
            all_valid(detections_view(found@), width, height),
        decreases readings.len() - i,
    {
        proof {
            let views = readings_view(readings@);
            assert(views.take(i as int + 1).drop_last() =~= views.take(i as int));
            assert(views.take(i as int + 1).last() == reading_view(readings@[i as int]));
        }
        let ghost before = detections_view(found@);
        match &readings[i] {
            None => {},
            Some(reading) => {
                match bbox_from_points(&reading.corners, width, height) {
                    None => {},
                    Some(bbox) => {
                        if bbox.is_nonempty() {
                            let detection = Detection { content: reading.text.clone(), bbox };
                            found.push(detection);
                            assert(detections_view(found@) =~= before.push(detection@));
                        }
                    },
                }
            },
        }
        i = i + 1;
    }
    proof {
        assert(readings_view(readings@).take(i as int) =~= readings_view(readings@));
    }
    found
}

/// The detections `found` of a copy scaled by `s`, each box mapped back to the
/// grid of the full-size image.
pub open spec fn rescaled_all(found: Seq<DetectionView>, s: Scale, width: u32, height: u32) -> Seq<
    DetectionView,
> {
    Seq::new(
        found.len(),
        |i: int|
            DetectionView {
                content: found[i].content,
                bbox: rescaled_box(found[i].bbox, s, width, height),
            },
    )
}

/// Maps the box of each detection from a copy scaled by `scale` back to the
/// grid of the full-size image, whose size is `width` by `height`. A factor of
/// zero leaves the boxes as they are.
pub fn rescale_detections(found: &Vec<Detection>, scale: Scale, width: u32, height: u32) -> (back:
    Vec<Detection>)
    ensures
        detections_view(back@) == rescaled_all(detections_view(found@), scale, width, height),
{
    let mut back: Vec<Detection> = Vec::new();
    let mut i: usize = 0;
    while i < found.len()
        invariant
            i <= found.len(),
            back.len() == i,
            forall|j: int|
                0 <= j < i ==> (#[trigger] back[j])@ == (DetectionView {
                    content: found[j].content@,
                    bbox: rescaled_box(found[j].bbox, scale, width, height),
                }),
        decreases found.len() - i,
    {
        let detection = Detection {
            content: found[i].content.clone(),
            bbox: rescale_bbox(found[i].bbox, scale, width, height),
        };
        back.push(detection);
        i = i + 1;
    }
    proof {
        assert(detections_view(back@) =~= rescaled_all(
            detections_view(found@),
            scale,
            width,
            height,
        ));
    }
    back
}

/// There are no more detections than readings.
pub proof fn lemma_detections_of_len(readings: Seq<Option<ReadingView>>, width: u32, height: u32)
    ensures
        detections_of(readings, width, height).len() <= readings.len(),
    decreases readings.len(),
{
    if readings.len() > 0 {
        lemma_detections_of_len(readings.drop_last(), width, height);
    }
}

/// Whatever the readings are, each detection that they stand for has a box
/// with an area inside the image.
pub proof fn lemma_detections_of_valid(
    readings: Seq<Option<ReadingView>>,
    width: u32,
    height: u32,
)
    ensures
        all_valid(detections_of(readings, width, height), width, height),
    decreases readings.len(),
{
    if readings.len() > 0 {
        lemma_detections_of_valid(readings.drop_last(), width, height);
    }
}

/// Mapping back keeps detections valid: what is valid in a copy of the image
/// at the factor `s` is, once mapped back, valid in the image.
pub proof fn lemma_rescaled_all_valid(found: Seq<DetectionView>, s: Scale, r: Raster, small: Raster)
    requires
        s.wf(),
        resized(r, s) == Some(small),
        all_valid(found, small.width, small.height),
    ensures
        all_valid(rescaled_all(found, s, r.width, r.height), r.width, r.height),
{
    lemma_scaled_side(s, r.width);
    lemma_scaled_side(s, r.height);
    assert(s.positive()) by {
        if s.num == 0 {
            assert(r.width * s.num == 0) by (nonlinear_arith)
                requires
                    s.num == 0,
            ;
        }
    }
    let back = rescaled_all(found, s, r.width, r.height);
    assert forall|i: int| 0 <= i < back.len() implies (#[trigger] back[i]).bbox.nonempty()
        && back[i].bbox.within(r.width, r.height) by {
        assert(found[i].bbox.nonempty());
        lemma_rescaled_box_valid(found[i].bbox, s, small.width, small.height, r.width, r.height);
    }
}

/// What a detector waits for.
#[derive(Clone, Copy, Debug, PartialEq, Eq, Structural)]
pub enum Phase {
    /// The answer of the first decoder.
    First,
    /// The answer of the second decoder.
    Second,
    /// Nothing: the detections were handed out.
    Done,
}

/// What the caller is to do next.
#[derive(Clone, Debug)]
pub enum Action {
    /// Run the first decoder on this image and report with `first_answered`.
    First(Image),
    /// Run the second decoder on this image and report with
    /// `second_answered`.
    Second(Image),
    /// Nothing is left to try: these are the detections, in the order of
    /// discovery, each box in the grid of the image that detection began with.
    Done(Vec<Detection>),
}

/// The state of one detection.
#[derive(Clone, Debug)]
pub struct Detector {
    /// The image that detection began with.
    pub image: Image,
    /// Whether the ladder may be tried.
    pub auto_resize: bool,
    /// The factors of the ladder, largest first.
    pub ladder: Vec<Scale>,
    /// The pass that is under way: 0 is the pass over the image itself,
    /// `k + 1` the one over the copy at `ladder[k]`.
    pub pass: usize,
    /// The image of the pass that is under way.
    pub current: Image,
    /// What the detector waits for.
    pub phase: Phase,
}

/// The first step of the ladder from `k` on at which a copy can be made.
pub open spec fn next_step(r: Raster, ladder: Seq<Scale>, k: int) -> Option<int>
    decreases ladder.len() - k,
{
    if k < 0 || k >= ladder.len() {
        None
    } else if resized(r, ladder[k]).is_some() {
        Some(k)
    } else {
        next_step(r, ladder, k + 1)
    }
}

impl Detector {
    /// The images are well formed, the factors are fractions, and the image
    /// of the pass is the image itself or its copy at the factor of the pass;
    /// the ladder is under way only where it was allowed.
    pub open spec fn wf(self) -> bool {
        &&& self.image.wf()
        &&& self.current.wf()
        &&& forall|j: int| 0 <= j < self.ladder.len() ==> (#[trigger] self.ladder[j]).wf()
        &&& self.pass <= self.ladder.len()
        &&& self.pass == 0 ==> self.current@ == self.image@
        &&& self.pass > 0 ==> self.auto_resize && resized(
            self.image@,
            self.ladder[self.pass - 1],
        ) == Some(self.current@)
    }

    /// The same image, the same ladder and the same leave to use it.
    pub open spec fn same_task(self, other: Detector) -> bool {
        &&& self.image == other.image
        &&& self.auto_resize == other.auto_resize
        &&& self.ladder == other.ladder
    }

    /// What readings made on the image of the pass stand for: their
    /// detections in that image, mapped back to the image that detection
    /// began with where the pass is one of the ladder.
    pub open spec fn found_in(self, readings: Seq<Option<ReadingView>>) -> Seq<DetectionView> {
        let here = detections_of(readings, self.current.width, self.current.height);
        if self.pass == 0 {
            here
        } else {
            rescaled_all(here, self.ladder[self.pass - 1], self.image.width, self.image.height)
        }
    }

    /// `action` opens the pass that is under way: the first decoder gets a
    /// two-level copy of the image of the pass; where the Otsu level cannot be
    /// computed the first decoder is passed over, and the second decoder gets
    /// the image of the pass as it is.
    pub open spec fn opens_with(self, action: Action) -> bool {
        if level_fits(self.current.data@, self.current.width, self.current.height) {
            self.phase == Phase::First && (action matches Action::First(two_level)
                && two_level.wf() && is_binarized(self.current@, two_level@))
        } else {
            self.phase == Phase::Second && (action matches Action::Second(same) && same.wf()
                && same@ == self.current@)
        }
    }

    /// `action` ends detection with the detections `found`.
    pub open spec fn ends_with(self, action: Action, found: Seq<DetectionView>) -> bool {
        self.phase == Phase::Done && (action matches Action::Done(all) && detections_view(all@)
            == found)
    }

    /// What follows a pass that yielded nothing. Without `auto_resize`, or
    /// with no step of the ladder left at which a copy can be made, detection
    /// ends with nothing; else the pass over the copy at the next such step is
    /// opened.
    pub open spec fn moves_on(self, next: Detector, action: Action) -> bool {
        let step = if self.auto_resize {
            next_step(self.image@, self.ladder@, self.pass as int)
        } else {
            None
        };
        match step {
            None => next.ends_with(action, Seq::empty()),
            Some(k) => next.pass == k + 1 && next.opens_with(action),
        }
    }

    /// Begins detection on an image, with the ladder that `config` describes.
    /// The pass over the image itself is opened.
    pub fn start(image: Image, auto_resize: bool, config: LadderConfig) -> (r: (Detector, Action))
        requires
            image.wf(),
            config.wf(),
        ensures
            r.0.wf(),
            r.0.image == image,
            r.0.auto_resize == auto_resize,
            r.0.ladder@ == scale_ladder_of(config, image.width, image.height),
            r.0.pass == 0,
            r.0.opens_with(r.1),
    {
        let ladder = scale_ladder(config, image.width, image.height);
        let current = copy_of(&image);
        let detector = Detector { image, auto_resize, ladder, pass: 0, current, phase: Phase::Done };
        detector.open_pass()
    }

    /// Begins detection on a raw buffer of 8-bit samples, row by row, with
    /// the standard ladder. A buffer whose length is not `width * height` is
    /// refused, and so is one without a pixel, before anything is decoded.
    pub fn start_from_bytes(data: Vec<u8>, width: u32, height: u32, auto_resize: bool) -> (r: Result<
        (Detector, Action),
        DetectError,
    >)
        ensures
            match shape_verdict(data@.len(), width, height) {
                Some(e) => r matches Err(x) && x == e,
                None => r matches Ok(begun) && begun.0.wf() && begun.0.image@ == (Raster {
                    width,
                    height,
                    pixels: data@,
                }) && begun.0.auto_resize == auto_resize && begun.0.ladder@ == scale_ladder_of(
                    standard_config(),
                    width,
                    height,
                ) && begun.0.pass == 0 && begun.0.opens_with(begun.1),
            },
            data@.len() != width * height <==> r matches Err(DetectError::InputShape),
    {
        match Image::from_raw(width, height, data) {
            Err(e) => Err(e),
            Ok(image) => Ok(Detector::start(image, auto_resize, LadderConfig::standard())),
        }
    }

    /// Opens the pass whose image is `current`.
    fn open_pass(self) -> (r: (Detector, Action))
        requires
            self.wf(),
        ensures
            r.0.wf(),
            r.0.same_task(self),
            r.0.pass == self.pass,
            r.0.current == self.current,
            r.0.opens_with(r.1),
    {
        match apply_threshold(&self.current) {
            Some(two_level) => {
                let next = Detector {
                    image: self.image,
                    auto_resize: self.auto_resize,
                    ladder: self.ladder,
                    pass: self.pass,
                    current: self.current,
                    phase: Phase::First,
                };
                (next, Action::First(two_level))
            },
            None => {
                let same = copy_of(&self.current);
                let next = Detector {
                    image: self.image,
                    auto_resize: self.auto_resize,
                    ladder: self.ladder,
                    pass: self.pass,
                    current: self.current,
                    phase: Phase::Second,
                };
                (next, Action::Second(same))
            },
        }
    }

    /// The detections that readings made on the image of the pass stand for,
    /// in the grid of the image that detection began with.
    fn found(&self, readings: &Vec<Option<Reading>>) -> (found: Vec<Detection>)
        requires
            self.wf(),
        ensures
            detections_view(found@) == self.found_in(readings_view(readings@)),
            all_valid(detections_view(found@), self.image.width, self.image.height),
    {
        let here = collect_detections(readings, self.current.width, self.current.height);
        if self.pass == 0 {
            here
        } else {
            let scale = self.ladder[self.pass - 1];
            let back = rescale_detections(&here, scale, self.image.width, self.image.height);
            proof {
                lemma_rescaled_all_valid(
                    detections_view(here@),
                    scale,
                    self.image@,
                    self.current@,
                );
            }
            back
        }
    }

    /// Ends detection with `found`.
    fn end(self, found: Vec<Detection>) -> (r: (Detector, Action))
        requires
            self.wf(),
        ensures
            r.0.wf(),
            r.0.same_task(self),
            r.0.pass == self.pass,
            r.0.current == self.current,
            r.0.ends_with(r.1, detections_view(found@)),
            r.1 matches Action::Done(all) && all == found,
    {
        let next = Detector {
            image: self.image,
            auto_resize: self.auto_resize,
            ladder: self.ladder,
            pass: self.pass,
            current: self.current,
            phase: Phase::Done,
        };
        (next, Action::Done(found))
    }

    /// Takes what the first decoder read in the image of `Action::First`.
    /// Where that stands for any detection, detection ends with what it stands
    /// for; else the second decoder is to be run on the image of the pass as
    /// it is.
    pub fn first_answered(self, readings: Vec<Option<Reading>>) -> (r: (Detector, Action))
        requires
            self.wf(),
            self.phase == Phase::First,
        ensures
            r.0.wf(),
            r.0.same_task(self),
            r.0.pass == self.pass,
            r.0.current == self.current,
            self.found_in(readings_view(readings@)).len() > 0 ==> r.0.ends_with(
                r.1,
                self.found_in(readings_view(readings@)),
            ),
            self.found_in(readings_view(readings@)).len() == 0 ==> r.0.phase == Phase::Second && (
            r.1 matches Action::Second(same) && same.wf() && same@ == self.current@),
            r.1 matches Action::Done(all) ==> all_valid(
                detections_view(all@),
                self.image.width,
                self.image.height,
            ),
    {
        let found = self.found(&readings);
        proof {
            assert(detections_view(found@).len() == found.len());
        }
        if found.len() > 0 {
            self.end(found)
        } else {
            let same = copy_of(&self.current);
            let next = Detector {
                image: self.image,
                auto_resize: self.auto_resize,
                ladder: self.ladder,
                pass: self.pass,
                current: self.current,
                phase: Phase::Second,
            };
            (next, Action::Second(same))
        }
    }

    /// Takes what the second decoder read in the image of `Action::Second`.
    /// Where that stands for a detection, detection ends with it. Else,
    /// without `auto_resize` or with the ladder used up, detection ends with
    /// nothing; else the next pass is opened, over the copy at the next step
    /// of the ladder at which a copy can be made.
    pub fn second_answered(self, reading: Option<Reading>) -> (r: (Detector, Action))
        requires
            self.wf(),
            self.phase == Phase::Second,
        ensures
            r.0.wf(),
            r.0.same_task(self),
            self.found_in(seq![reading_view(reading)]).len() > 0 ==> r.0.pass == self.pass
                && r.0.ends_with(r.1, self.found_in(seq![reading_view(reading)])),
            self.found_in(seq![reading_view(reading)]).len() == 0 ==> self.moves_on(r.0, r.1),
            !self.auto_resize ==> r.0.phase == Phase::Done,
            r.0.pass >= self.pass,
            r.0.phase != Phase::Done ==> r.0.pass > self.pass,
            r.1 matches Action::Done(all) ==> all_valid(
                detections_view(all@),
                self.image.width,
                self.image.height,
            ),
    {
        let mut answers: Vec<Option<Reading>> = Vec::new();
        answers.push(reading);
        proof {
            assert(readings_view(answers@) =~= seq![reading_view(reading)]);
        }
        let found = self.found(&answers);
        proof {
            assert(detections_view(found@).len() == found.len());
        }
        if found.len() > 0 {
            self.end(found)
        } else {
            self.advance()
        }
    }

    /// Goes on after a pass that yielded nothing.
    fn advance(self) -> (r: (Detector, Action))
        requires
            self.wf(),
        ensures
            r.0.wf(),
            r.0.same_task(self),
            self.moves_on(r.0, r.1),
            !self.auto_resize ==> r.0.phase == Phase::Done,
            r.0.pass >= self.pass,
            r.0.phase != Phase::Done ==> r.0.pass > self.pass,
            r.1 matches Action::Done(all) ==> all.len() == 0,
    {
        let mut k: usize = self.pass;
        if self.auto_resize {
            while k < self.ladder.len()
                invariant
                    self.wf(),
                    self.auto_resize,
                    self.pass <= k <= self.ladder.len(),
                    next_step(self.image@, self.ladder@, self.pass as int) == next_step(
                        self.image@,
                        self.ladder@,
                        k as int,
                    ),
                decreases self.ladder.len() - k,
            {
                match resize_by(&self.image, self.ladder[k]) {
                    Some(small) => {
                        let next = Detector {
                            image: self.image,
                            auto_resize: self.auto_resize,
                            ladder: self.ladder,
                            pass: k + 1,
                            current: small,
                            phase: Phase::Done,
                        };
                        return next.open_pass();
                    },
                    None => {},
                }
                k = k + 1;
            }
        }
        let none: Vec<Detection> = Vec::new();
        proof {
            assert(detections_view(none@) =~= Seq::<DetectionView>::empty());
        }
        self.end(none)
    }
}

/// The pass over the image itself does not depend on `auto_resize`: two
/// detectors on one image, both in that pass, take the same readings for the
/// same detections.
pub proof fn lemma_direct_pass_ignores_auto_resize(
    with: Detector,
    without: Detector,
    readings: Seq<Option<ReadingView>>,
)
    requires
        with.wf(),
        without.wf(),
        with.image == without.image,
        with.pass == 0,
        without.pass == 0,
    ensures
        with.found_in(readings) == without.found_in(readings),
        with.found_in(readings) == detections_of(readings, with.image.width, with.image.height),
{
}

/// Containment: whatever the readings are, what they stand for has boxes with
/// an area inside the image that detection began with.
pub proof fn lemma_found_in_valid(detector: Detector, readings: Seq<Option<ReadingView>>)
    requires
        detector.wf(),
    ensures
        all_valid(detector.found_in(readings), detector.image.width, detector.image.height),
{
    lemma_detections_of_valid(readings, detector.current.width, detector.current.height);
    if detector.pass > 0 {
        lemma_rescaled_all_valid(
            detections_of(readings, detector.current.width, detector.current.height),
            detector.ladder[detector.pass - 1],
            detector.image@,
            detector.current@,
        );
    }
}

/// A copy of an image.
fn copy_of(image: &Image) -> (copy: Image)
    ensures
        copy@ == image@,
        copy.width == image.width,
        copy.height == image.height,
        copy.data@ == image.data@,
        image.wf() ==> copy.wf(),
{
    let data: Vec<u8> = image.data.clone();
    assert(data@ =~= image.data@);
    Image { width: image.width, height: image.height, data }
}

/// The payloads of a list of detections, in its order.
pub fn payloads(found: &Vec<Detection>) -> (texts: Vec<String>)
    ensures
        texts_view(texts@) == contents(detections_view(found@)),
{
    let mut texts: Vec<String> = Vec::new();
    let mut i: usize = 0;
    while i < found.len()
        invariant
            i <= found.len(),
            texts.len() == i,
            forall|j: int| 0 <= j < i ==> (#[trigger] texts[j])@ == found[j].content@,
        decreases found.len() - i,
    {
        texts.push(found[i].content.clone());
        i = i + 1;
    }
    proof {
        assert(texts_view(texts@) =~= contents(detections_view(found@)));
    }
    texts
}

} // verus!

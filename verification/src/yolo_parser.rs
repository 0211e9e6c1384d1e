//! From the detector's raw output to boxes per class.

use crate::bbox::box_from_center;
use crate::bbox::non_maximum_suppression;
use crate::bbox::suppress;
use crate::bbox::views;
use crate::bbox::Bbox;
use crate::bbox::BboxView;
use crate::frame_times::FrameTimer;
use crate::frame_times::FrameTimes;
use crate::frame_times::Stage;
use crate::img_dimensions::ImgDimensions;
use crate::img_dimensions::Ratio;
use vstd::prelude::*;

verus! {

/// The rows that describe the box of an anchor: centre x, centre y, width,
/// height. The class scores follow them.
pub const BBOX_OFFSET: usize = 4;

/// The raw output of a detector: a tensor of shape `[1, 4 + C, N]` for `C`
/// classes and `N` anchors, row-major, so that row `r` of anchor `a` stands
/// at `r * N + a`.
#[derive(Debug, Clone, PartialEq, Eq)]
pub struct RawPredictions {
    pub shape: Vec<usize>,
    pub data: Vec<i32>,
}

/// Why raw predictions were refused.
#[derive(Debug, Clone, Copy, PartialEq, Eq, Structural)]
pub enum ParseError {
    /// The tensor does not have the shape `[1, 4 + C, N]`, or not as many
    /// values as that shape asks for.
    MalformedPredictions,
}

impl RawPredictions {
    /// The tensor has the shape `[1, 4 + num_classes, N]` and holds as many
    /// values.
    pub open spec fn has_layout(self, num_classes: nat) -> bool {
        &&& self.shape@.len() == 3
        &&& self.shape@[0] == 1
        &&& self.shape@[1] == BBOX_OFFSET + num_classes
        &&& self.data@.len() == self.shape@[1] * self.shape@[2]
    }

    /// The number of anchors.
    pub open spec fn anchors(self) -> nat {
        self.shape@[2] as nat
    }

    /// The value in `row` for `anchor`.
    pub open spec fn value(self, row: int, anchor: int) -> i32 {
        self.data@[row * self.shape@[2] + anchor]
    }

    /// The score of `class` for `anchor`.
    pub open spec fn score(self, class: int, anchor: int) -> i32 {
        self.value(BBOX_OFFSET + class, anchor)
    }
}

/// The class of the greatest score among the first `upto` classes, the
/// first of them where several share it, and that score. There is no
/// greatest score among no classes: `upto` is to be at least one.
pub open spec fn best_class(p: RawPredictions, anchor: int, upto: nat) -> (int, int)
    decreases upto,
{
    if upto <= 1 {
        (0, p.score(0, anchor) as int)
    } else {
        let before = best_class(p, anchor, (upto - 1) as nat);
        let s = p.score(upto - 1, anchor);
        if s > before.1 {
            (upto - 1, s as int)
        } else {
            before
        }
    }
}

/// The best class is the arg-max of the scores: no score is above its
/// score, and no class before it reaches that score.
pub proof fn lemma_best_class(p: RawPredictions, anchor: int, upto: nat)
    requires
        upto >= 1,
    ensures
        0 <= best_class(p, anchor, upto).0 < upto,
        p.score(best_class(p, anchor, upto).0, anchor) == best_class(p, anchor, upto).1,
        forall|c: int| 0 <= c < upto ==> #[trigger] p.score(c, anchor) <= best_class(p, anchor, upto).1,
        forall|c: int|
            0 <= c < best_class(p, anchor, upto).0 ==> #[trigger] p.score(c, anchor) < best_class(
                p,
                anchor,
                upto,
            ).1,
    decreases upto,
{
    if upto > 1 {
        lemma_best_class(p, anchor, (upto - 1) as nat);
    }
}

/// The box that an anchor stands for, if it stands for one: none where its
/// greatest score is under the confidence threshold, none where its width
/// or height is not positive, none where there are no classes.
pub open spec fn candidate(
    p: RawPredictions,
    anchor: int,
    num_classes: nat,
    bounds: ImgDimensions,
    conf_threshold: i32,
) -> Option<BboxView> {
    let best = best_class(p, anchor, num_classes);
    let w = p.value(2, anchor);
    let h = p.value(3, anchor);
    if num_classes == 0 || best.1 < conf_threshold || w <= 0 || h <= 0 {
        None
    } else {
        box_from_center(
            p.value(0, anchor) as int,
            p.value(1, anchor) as int,
            w as nat,
            h as nat,
            bounds,
            best.0 as usize,
            best.1 as i32,
        )
    }
}

/// An anchor gives a box exactly where its width and height are positive
/// and some class scores at least the threshold, that is, where its
/// greatest score reaches the threshold. The box carries the first class
/// that has the greatest score, and that score as its confidence.
pub proof fn lemma_candidate(
    p: RawPredictions,
    anchor: int,
    num_classes: nat,
    bounds: ImgDimensions,
    conf_threshold: i32,
)
    requires
        num_classes <= usize::MAX,
    ensures
        candidate(p, anchor, num_classes, bounds, conf_threshold) is Some <==> {
            &&& p.value(2, anchor) > 0
            &&& p.value(3, anchor) > 0
            &&& exists|c: int| 0 <= c < num_classes && #[trigger] p.score(c, anchor) >= conf_threshold
        },
        candidate(p, anchor, num_classes, bounds, conf_threshold) matches Some(b) ==> {
            &&& 0 <= b.class < num_classes
            &&& b.detector_confidence == p.score(b.class as int, anchor)
            &&& b.detector_confidence >= conf_threshold
            &&& forall|c: int|
                0 <= c < num_classes ==> #[trigger] p.score(c, anchor) <= b.detector_confidence
            &&& forall|c: int| 0 <= c < b.class ==> #[trigger] p.score(c, anchor) < b.detector_confidence
        },
{
    if num_classes > 0 {
        lemma_best_class(p, anchor, num_classes);
        let best = best_class(p, anchor, num_classes);
        if best.1 >= conf_threshold {
            assert(p.score(best.0, anchor) >= conf_threshold);
        }
    }
}

/// The boxes of `class` among the first `upto` anchors, in the order of the
/// anchors.
pub open spec fn extracted(
    p: RawPredictions,
    num_classes: nat,
    bounds: ImgDimensions,
    conf_threshold: i32,
    class: int,
    upto: nat,
) -> Seq<BboxView>
    decreases upto,
{
    if upto == 0 {
        Seq::empty()
    } else {
        let before = extracted(p, num_classes, bounds, conf_threshold, class, (upto - 1) as nat);
        match candidate(p, upto - 1, num_classes, bounds, conf_threshold) {
            Some(b) => if b.class == class {
                before.push(b)
            } else {
                before
            },
            None => before,
        }
    }
}

/// Every box read for a class carries that class and no identity, is at
/// least as confident as the threshold, has its corners in order and lies
/// within the bounds it was cut to.
pub proof fn lemma_extracted_boxes(
    p: RawPredictions,
    num_classes: nat,
    bounds: ImgDimensions,
    conf_threshold: i32,
    class: int,
    upto: nat,
)
    ensures
        extracted(p, num_classes, bounds, conf_threshold, class, upto).len() <= upto,
        forall|i: int|
            0 <= i < extracted(p, num_classes, bounds, conf_threshold, class, upto).len() ==> {
                let b = #[trigger] extracted(p, num_classes, bounds, conf_threshold, class, upto)[i];
                &&& b.class == class
                &&& b.tracker_id is None
                &&& b.tracker_confidence == 0
                &&& b.data.len() == 0
                &&& b.detector_confidence >= conf_threshold
                &&& b.well_formed()
                &&& b.within(bounds)
            },
    decreases upto,
{
    if upto > 0 {
        lemma_extracted_boxes(p, num_classes, bounds, conf_threshold, class, (upto - 1) as nat);
        if num_classes > 0 {
            lemma_best_class(p, upto - 1, num_classes);
        }
    }
}

/// A row and an anchor of the tensor have their place in its data.
proof fn lemma_index_in_data(rows: nat, anchors: nat, row: nat, anchor: nat)
    requires
        row < rows,
        anchor < anchors,
    ensures
        row * anchors + anchor < rows * anchors,
        row * anchors >= 0,
{
    assert(row * anchors + anchors <= rows * anchors) by (nonlinear_arith)
        requires
            row + 1 <= rows,
    ;
}

impl RawPredictions {
    /// Whether the tensor has the shape `[1, 4 + num_classes, N]` and holds
    /// as many values.
    pub fn check_layout(&self, num_classes: u32) -> (ok: bool)
        ensures
            ok == self.has_layout(num_classes as nat),
    {
        if self.shape.len() != 3 {
            return false;
        }
        if self.shape[0] != 1 {
            return false;
        }
        if self.shape[1] as u64 != BBOX_OFFSET as u64 + num_classes as u64 {
            return false;
        }
        let len = self.data.len();
        match self.shape[1].checked_mul(self.shape[2]) {
            Some(n) => len == n,
            None => false,
        }
    }

    /// Reads the value in `row` for `anchor`.
    pub fn get(&self, row: usize, anchor: usize) -> (v: i32)
        requires
            self.shape@.len() == 3,
            self.data@.len() == self.shape@[1] * self.shape@[2],
            row < self.shape@[1],
            anchor < self.shape@[2],
        ensures
            v == self.value(row as int, anchor as int),
    {
        proof {
            lemma_index_in_data(
                self.shape@[1] as nat,
                self.shape@[2] as nat,
                row as nat,
                anchor as nat,
            );
        }
        let len = self.data.len();
        assert(row * self.shape@[2] + anchor < len);
        self.data[row * self.shape[2] + anchor]
    }

    /// Scans the class scores of `anchor` for the greatest and the first
    /// class that has it.
    fn scan_classes(&self, anchor: usize, num_classes: u32) -> (best: (usize, i32))
        requires
            self.has_layout(num_classes as nat),
            anchor < self.anchors(),
            num_classes >= 1,
        ensures
            best.0 == best_class(*self, anchor as int, num_classes as nat).0,
            best.1 == best_class(*self, anchor as int, num_classes as nat).1,
    {
        let mut class: usize = 0;
        let mut score: i32 = self.get(BBOX_OFFSET, anchor);
        let mut c: u32 = 1;
        while c < num_classes
            invariant
                1 <= c <= num_classes,
                self.has_layout(num_classes as nat),
                anchor < self.anchors(),
                class == best_class(*self, anchor as int, c as nat).0,
                score == best_class(*self, anchor as int, c as nat).1,
            decreases num_classes - c,
        {
            let s = self.get(BBOX_OFFSET + c as usize, anchor);
            if s > score {
                score = s;
                class = c as usize;
            }
            c += 1;
        }
        (class, score)
    }
}

/// Reads the boxes out of raw predictions, without suppressing any: for each
/// anchor the class of its greatest score, first seen on a tie; the anchor
/// is left out where that score is under `conf_threshold` or its box has no
/// positive width and height; its box is cut to `scaled_dims` and goes to
/// the list of its class, in the order of the anchors.
pub fn extract_boxes(
    preds: &RawPredictions,
    scaled_dims: ImgDimensions,
    num_classes: u32,
    conf_threshold: i32,
) -> (out: Result<Vec<Vec<Bbox>>, ParseError>)
    ensures
        out is Ok <==> preds.has_layout(num_classes as nat),
        out matches Ok(per_class) ==> {
            &&& per_class@.len() == num_classes
            &&& forall|c: int|
                0 <= c < num_classes ==> views((#[trigger] per_class@[c])@) == extracted(
                    *preds,
                    num_classes as nat,
                    scaled_dims,
                    conf_threshold,
                    c,
                    preds.anchors(),
                )
        },
{
    if !preds.check_layout(num_classes) {
        return Err(ParseError::MalformedPredictions);
    }
    let mut per_class: Vec<Vec<Bbox>> = Vec::new();
    let mut k: u32 = 0;
    while k < num_classes
        invariant
            k <= num_classes,
            per_class@.len() == k,
            forall|c: int| 0 <= c < k ==> (#[trigger] per_class@[c])@.len() == 0,
        decreases num_classes - k,
    {
        per_class.push(Vec::new());
        k += 1;
    }
    if num_classes == 0 {
        return Ok(per_class);
    }
    let anchors = preds.shape[2];
    let mut a: usize = 0;
    assert forall|c: int| 0 <= c < num_classes implies views((#[trigger] per_class@[c])@)
        == extracted(*preds, num_classes as nat, scaled_dims, conf_threshold, c, 0) by {
        assert(views(per_class@[c]@) =~= Seq::<BboxView>::empty());
    }
    while a < anchors
        invariant
            a <= anchors,
            anchors == preds.anchors(),
            preds.has_layout(num_classes as nat),
            num_classes >= 1,
            per_class@.len() == num_classes,
            forall|c: int|
                0 <= c < num_classes ==> views((#[trigger] per_class@[c])@) == extracted(
                    *preds,
                    num_classes as nat,
                    scaled_dims,
                    conf_threshold,
                    c,
                    a as nat,
                ),
        decreases anchors - a,
    {
        let best = preds.scan_classes(a, num_classes);
        let w = preds.get(2, a);
        let h = preds.get(3, a);
        proof {
            lemma_best_class(*preds, a as int, num_classes as nat);
        }
        if best.1 >= conf_threshold && w > 0 && h > 0 {
            let made = Bbox::from_center(
                preds.get(0, a),
                preds.get(1, a),
                w as u32,
                h as u32,
                scaled_dims,
                best.0,
                best.1,
            );
            match made {
                Some(b) => {
                    let ghost before = per_class@;
                    let ghost bv = b@;
                    per_class[best.0].push(b);
                    proof {
                        assert forall|c: int| 0 <= c < num_classes implies views(
                            (#[trigger] per_class@[c])@,
                        ) == extracted(
                            *preds,
                            num_classes as nat,
                            scaled_dims,
                            conf_threshold,
                            c,
                            (a + 1) as nat,
                        ) by {
                            if c == best.0 {
                                assert(views(per_class@[c]@) =~= views(before[c]@).push(bv));
                            } else {
                                assert(per_class@[c] == before[c]);
                            }
                        }
                    }
                },
                None => {},
            }
        }
        a += 1;
    }
    Ok(per_class)
}

/// Parses raw predictions into boxes per class and suppresses the redundant
/// ones of each class. The time that the two steps took is recorded in
/// `frame_times`; its other stages are left as they were.
pub fn parse_predictions(
    preds: &RawPredictions,
    scaled_dims: ImgDimensions,
    num_classes: u32,
    conf_threshold: i32,
    nms_threshold: Ratio,
    frame_times: &mut FrameTimes,
) -> (out: Result<Vec<Vec<Bbox>>, ParseError>)
    ensures
        out is Ok <==> preds.has_layout(num_classes as nat),
        out matches Ok(per_class) ==> {
            &&& per_class@.len() == num_classes
            &&& forall|c: int|
                0 <= c < num_classes ==> views((#[trigger] per_class@[c])@) == suppress(
                    extracted(
                        *preds,
                        num_classes as nat,
                        scaled_dims,
                        conf_threshold,
                        c,
                        preds.anchors(),
                    ),
                    nms_threshold,
                )
        },
        forall|s: Stage|
            s != Stage::BboxExtraction && s != Stage::Nms ==> #[trigger] final(frame_times).stage(s)
                == old(frame_times).stage(s),
        out is Err ==> final(frame_times).stage(Stage::Nms) == old(frame_times).stage(Stage::Nms),
{
    let timer = FrameTimer::start();
    let extracted_boxes = extract_boxes(preds, scaled_dims, num_classes, conf_threshold);
    timer.record(frame_times, Stage::BboxExtraction);
    match extracted_boxes {
        Ok(mut per_class) => {
            let timer = FrameTimer::start();
            non_maximum_suppression(&mut per_class, nms_threshold);
            timer.record(frame_times, Stage::Nms);
            Ok(per_class)
        },
        Err(e) => Err(e),
    }
}

} // verus!

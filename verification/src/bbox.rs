//! Bounding boxes, their overlap, and non-maximum suppression.

use crate::img_dimensions::ImgDimensions;
use crate::img_dimensions::Ratio;
use vstd::prelude::*;

verus! {

/// A point annotation that a box may carry, such as a pose keypoint.
#[derive(Debug, Clone, Copy, PartialEq, Eq, Structural)]
pub struct KeyPoint {
    pub x: u32,
    pub y: u32,
    pub mask: u32,
}

/// An axis-aligned detection box in canvas coordinates.
#[derive(Debug, Clone, PartialEq, Eq)]
pub struct Bbox {
    pub xmin: u32,
    pub ymin: u32,
    pub xmax: u32,
    pub ymax: u32,
    /// Class id, an index into the taxonomy.
    pub class: usize,
    /// The score that the detector gave the box's class; a detector may
    /// score below zero. Zero for a box that a tracker resolved.
    pub detector_confidence: i32,
    pub tracker_confidence: u32,
    /// `None` until a tracking stage assigns an identity.
    pub tracker_id: Option<i64>,
    /// Auxiliary per-point annotations; the pipeline carries them unread.
    pub data: Vec<KeyPoint>,
}

/// What a box holds, with its annotations as a sequence.
pub struct BboxView {
    pub xmin: u32,
    pub ymin: u32,
    pub xmax: u32,
    pub ymax: u32,
    pub class: usize,
    pub detector_confidence: i32,
    pub tracker_confidence: u32,
    pub tracker_id: Option<i64>,
    pub data: Seq<KeyPoint>,
}

impl View for Bbox {
    type V = BboxView;

    open spec fn view(&self) -> BboxView {
        BboxView {
            xmin: self.xmin,
            ymin: self.ymin,
            xmax: self.xmax,
            ymax: self.ymax,
            class: self.class,
            detector_confidence: self.detector_confidence,
            tracker_confidence: self.tracker_confidence,
            tracker_id: self.tracker_id,
            data: self.data@,
        }
    }
}

/// The views of a run of boxes.
pub open spec fn views(boxes: Seq<Bbox>) -> Seq<BboxView> {
    boxes.map_values(|b: Bbox| b@)
}

/// The length of `lo..hi`, zero where the range is empty.
pub open spec fn span(lo: int, hi: int) -> nat {
    if hi > lo {
        (hi - lo) as nat
    } else {
        0
    }
}

/// `v` brought into `0..=limit`.
pub open spec fn clamped(v: int, limit: u32) -> u32 {
    if v < 0 {
        0
    } else if v > limit {
        limit
    } else {
        v as u32
    }
}

/// Brings `v` into `0..=limit`.
pub fn clamp_to(v: i64, limit: u32) -> (r: u32)
    ensures
        r == clamped(v as int, limit),
{
    if v < 0 {
        0
    } else if v > limit as i64 {
        limit
    } else {
        v as u32
    }
}

impl BboxView {
    /// The corners are in order on both axes.
    pub open spec fn well_formed(self) -> bool {
        self.xmin <= self.xmax && self.ymin <= self.ymax
    }

    /// No corner lies outside `bounds`.
    pub open spec fn within(self, bounds: ImgDimensions) -> bool {
        self.xmax <= bounds.width && self.ymax <= bounds.height
    }

    pub open spec fn width(self) -> nat {
        span(self.xmin as int, self.xmax as int)
    }

    pub open spec fn height(self) -> nat {
        span(self.ymin as int, self.ymax as int)
    }

    pub open spec fn area(self) -> nat {
        self.width() * self.height()
    }
}

/// The untracked box that a centre, a width and a height stand for, cut to
/// `bounds`: none where the width or the height is zero.
pub open spec fn box_from_center(
    cx: int,
    cy: int,
    w: nat,
    h: nat,
    bounds: ImgDimensions,
    class: usize,
    confidence: i32,
) -> Option<BboxView> {
    if w == 0 || h == 0 {
        None
    } else {
        Some(
            BboxView {
                xmin: clamped(cx - w / 2, bounds.width),
                ymin: clamped(cy - h / 2, bounds.height),
                xmax: clamped(cx - w / 2 + w, bounds.width),
                ymax: clamped(cy - h / 2 + h, bounds.height),
                class,
                detector_confidence: confidence,
                tracker_confidence: 0,
                tracker_id: None,
                data: Seq::empty(),
            },
        )
    }
}

/// A box made from a centre has its corners in order and lies within the
/// bounds it was cut to.
pub proof fn lemma_box_from_center_valid(
    cx: int,
    cy: int,
    w: nat,
    h: nat,
    bounds: ImgDimensions,
    class: usize,
    confidence: i32,
)
    ensures
        box_from_center(cx, cy, w, h, bounds, class, confidence) is Some <==> w > 0 && h > 0,
        box_from_center(cx, cy, w, h, bounds, class, confidence) matches Some(b)
            ==> b.well_formed() && b.within(bounds),
{
}

impl Bbox {
    pub fn width(&self) -> (w: u32)
        ensures
            w == self@.width(),
    {
        if self.xmax > self.xmin {
            self.xmax - self.xmin
        } else {
            0
        }
    }

    pub fn height(&self) -> (h: u32)
        ensures
            h == self@.height(),
    {
        if self.ymax > self.ymin {
            self.ymax - self.ymin
        } else {
            0
        }
    }

    pub fn area(&self) -> (a: u64)
        ensures
            a == self@.area(),
    {
        let w = self.width();
        let h = self.height();
        assert(w * h <= 0xFFFF_FFFF * 0xFFFF_FFFF) by (nonlinear_arith)
            requires
                w <= 0xFFFF_FFFF,
                h <= 0xFFFF_FFFF,
        ;
        w as u64 * h as u64
    }

    /// Builds an untracked box from a centre, a width and a height, cut to
    /// `bounds`. A box of no width or no height is dropped; one that leaves
    /// the canvas is truncated, never dropped.
    pub fn from_center(
        cx: i32,
        cy: i32,
        w: u32,
        h: u32,
        bounds: ImgDimensions,
        class: usize,
        confidence: i32,
    ) -> (made: Option<Bbox>)
        ensures
            made is Some <==> w > 0 && h > 0,
            made matches Some(b) ==> Some(b@) == box_from_center(
                cx as int,
                cy as int,
                w as nat,
                h as nat,
                bounds,
                class,
                confidence,
            ),
            made matches Some(b) ==> b@.well_formed() && b@.within(bounds),
    {
        if w == 0 || h == 0 {
            return None;
        }
        let left: i64 = cx as i64 - (w / 2) as i64;
        let top: i64 = cy as i64 - (h / 2) as i64;
        Some(
            Bbox {
                xmin: clamp_to(left, bounds.width),
                ymin: clamp_to(top, bounds.height),
                xmax: clamp_to(left + w as i64, bounds.width),
                ymax: clamp_to(top + h as i64, bounds.height),
                class,
                detector_confidence: confidence,
                tracker_confidence: 0,
                tracker_id: None,
                data: Vec::new(),
            },
        )
    }
}

/// The area that two boxes share.
pub open spec fn intersection_area(a: BboxView, b: BboxView) -> nat {
    span(
        if a.xmin > b.xmin { a.xmin as int } else { b.xmin as int },
        if a.xmax < b.xmax { a.xmax as int } else { b.xmax as int },
    ) * span(
        if a.ymin > b.ymin { a.ymin as int } else { b.ymin as int },
        if a.ymax < b.ymax { a.ymax as int } else { b.ymax as int },
    )
}

/// The area that two boxes cover together.
pub open spec fn union_area(a: BboxView, b: BboxView) -> nat {
    (a.area() + b.area() - intersection_area(a, b)) as nat
}

/// Intersection over union of `a` and `b` is greater than `threshold`.
///
/// Stated without division, so that two boxes of no area, whose ratio is
/// taken to be zero, exceed nothing.
pub open spec fn iou_exceeds(a: BboxView, b: BboxView, threshold: Ratio) -> bool {
    intersection_area(a, b) * threshold.den > threshold.num * union_area(a, b)
}

/// Two boxes share no more than either of them covers.
pub proof fn lemma_intersection_bounded(a: BboxView, b: BboxView)
    ensures
        intersection_area(a, b) <= a.area(),
        intersection_area(a, b) <= b.area(),
        intersection_area(a, b) == intersection_area(b, a),
        union_area(a, b) == union_area(b, a),
{
    let iw = span(
        if a.xmin > b.xmin { a.xmin as int } else { b.xmin as int },
        if a.xmax < b.xmax { a.xmax as int } else { b.xmax as int },
    );
    let ih = span(
        if a.ymin > b.ymin { a.ymin as int } else { b.ymin as int },
        if a.ymax < b.ymax { a.ymax as int } else { b.ymax as int },
    );
    assert(iw * ih <= a.width() * a.height()) by (nonlinear_arith)
        requires
            iw <= a.width(),
            ih <= a.height(),
    ;
    assert(iw * ih <= b.width() * b.height()) by (nonlinear_arith)
        requires
            iw <= b.width(),
            ih <= b.height(),
    ;
}

/// The area that two boxes share.
pub fn intersection(a: &Bbox, b: &Bbox) -> (shared: u64)
    ensures
        shared == intersection_area(a@, b@),
{
    let left = if a.xmin > b.xmin { a.xmin } else { b.xmin };
    let right = if a.xmax < b.xmax { a.xmax } else { b.xmax };
    let top = if a.ymin > b.ymin { a.ymin } else { b.ymin };
    let bottom = if a.ymax < b.ymax { a.ymax } else { b.ymax };
    let w: u32 = if right > left { right - left } else { 0 };
    let h: u32 = if bottom > top { bottom - top } else { 0 };
    assert(w * h <= 0xFFFF_FFFF * 0xFFFF_FFFF) by (nonlinear_arith)
        requires
            w <= 0xFFFF_FFFF,
            h <= 0xFFFF_FFFF,
    ;
    w as u64 * h as u64
}

/// Whether the intersection over union of two boxes is greater than
/// `threshold`.
pub fn overlaps(a: &Bbox, b: &Bbox, threshold: Ratio) -> (over: bool)
    ensures
        over == iou_exceeds(a@, b@, threshold),
{
    let shared = intersection(a, b) as u128;
    proof {
        lemma_intersection_bounded(a@, b@);
    }
    let joint = a.area() as u128 + b.area() as u128 - shared;
    assert(shared * threshold.den <= 0xFFFF_FFFF_FFFF_FFFF * 0xFFFF_FFFF) by (nonlinear_arith)
        requires
            shared <= 0xFFFF_FFFF_FFFF_FFFF,
            threshold.den <= 0xFFFF_FFFF,
    ;
    assert(threshold.num * joint <= 0xFFFF_FFFF * 0x1_FFFF_FFFF_FFFF_FFFE) by (nonlinear_arith)
        requires
            joint <= 0x1_FFFF_FFFF_FFFF_FFFE,
            threshold.num <= 0xFFFF_FFFF,
    ;
    shared * (threshold.den as u128) > (threshold.num as u128) * joint
}

/// No box is less confident than one behind it.
pub open spec fn sorted_by_confidence(boxes: Seq<BboxView>) -> bool {
    forall|i: int, j: int| 0 <= i < j < boxes.len() ==> #[trigger] in_order(boxes, i, j)
}

/// The box at `i` is at least as confident as the box at `j`.
pub open spec fn in_order(boxes: Seq<BboxView>, i: int, j: int) -> bool {
    boxes[i].detector_confidence >= boxes[j].detector_confidence
}

/// Where a box of the given confidence goes into `sorted`: behind every box
/// that is at least as confident.
pub open spec fn insert_position(sorted: Seq<BboxView>, confidence: i32) -> int
    decreases sorted.len(),
{
    if sorted.len() == 0 || sorted.last().detector_confidence >= confidence {
        sorted.len() as int
    } else {
        insert_position(sorted.drop_last(), confidence)
    }
}

/// The boxes in order of falling confidence; boxes of equal confidence stay
/// in the order in which they came.
pub open spec fn sort_by_confidence(boxes: Seq<BboxView>) -> Seq<BboxView>
    decreases boxes.len(),
{
    if boxes.len() == 0 {
        Seq::empty()
    } else {
        let head = sort_by_confidence(boxes.drop_last());
        head.insert(insert_position(head, boxes.last().detector_confidence), boxes.last())
    }
}

/// Some box of `kept` overlaps `candidate` beyond the threshold.
pub open spec fn suppressed(kept: Seq<BboxView>, candidate: BboxView, threshold: Ratio) -> bool {
    exists|i: int| 0 <= i < kept.len() && iou_exceeds(#[trigger] kept[i], candidate, threshold)
}

/// Walks `candidates` in order and keeps each one that no box kept before
/// it suppresses.
pub open spec fn keep_greedy(candidates: Seq<BboxView>, threshold: Ratio) -> Seq<BboxView>
    decreases candidates.len(),
{
    if candidates.len() == 0 {
        Seq::empty()
    } else {
        let kept = keep_greedy(candidates.drop_last(), threshold);
        if suppressed(kept, candidates.last(), threshold) {
            kept
        } else {
            kept.push(candidates.last())
        }
    }
}

/// Non-maximum suppression of the boxes of one class.
pub open spec fn suppress(boxes: Seq<BboxView>, threshold: Ratio) -> Seq<BboxView> {
    keep_greedy(sort_by_confidence(boxes), threshold)
}

/// No box of `boxes` overlaps a later one beyond the threshold.
pub open spec fn pairwise_clear(boxes: Seq<BboxView>, threshold: Ratio) -> bool {
    forall|i: int, j: int| 0 <= i < j < boxes.len() ==> #[trigger] clear_of(boxes, i, j, threshold)
}

/// The box at `i` does not overlap the box at `j` beyond the threshold.
pub open spec fn clear_of(boxes: Seq<BboxView>, i: int, j: int, threshold: Ratio) -> bool {
    !iou_exceeds(boxes[i], boxes[j], threshold)
}

pub proof fn lemma_insert_position_in_range(sorted: Seq<BboxView>, confidence: i32)
    ensures
        0 <= insert_position(sorted, confidence) <= sorted.len(),
        forall|i: int|
            insert_position(sorted, confidence) <= i < sorted.len() ==> (
            #[trigger] sorted[i]).detector_confidence < confidence,
        insert_position(sorted, confidence) > 0 ==> sorted[insert_position(sorted, confidence)
            - 1].detector_confidence >= confidence,
    decreases sorted.len(),
{
    if sorted.len() == 0 || sorted.last().detector_confidence >= confidence {
    } else {
        let rest = sorted.drop_last();
        lemma_insert_position_in_range(rest, confidence);
        assert forall|i: int| insert_position(sorted, confidence) <= i < sorted.len() implies (
        #[trigger] sorted[i]).detector_confidence < confidence by {
            if i < rest.len() {
                assert(sorted[i] == rest[i]);
            }
        }
    }
}

/// Sorting keeps every box, as often as it came.
pub proof fn lemma_sort_is_permutation(boxes: Seq<BboxView>)
    ensures
        sort_by_confidence(boxes).len() == boxes.len(),
        sort_by_confidence(boxes).to_multiset() == boxes.to_multiset(),
    decreases boxes.len(),
{
    if boxes.len() == 0 {
        assert(boxes =~= Seq::<BboxView>::empty());
    } else {
        let rest = boxes.drop_last();
        let head = sort_by_confidence(rest);
        let pos = insert_position(head, boxes.last().detector_confidence);
        lemma_sort_is_permutation(rest);
        lemma_insert_position_in_range(head, boxes.last().detector_confidence);
        head.insert_ensures(pos, boxes.last());
        vstd::seq_lib::to_multiset_insert(head, pos, boxes.last());
        vstd::seq_lib::to_multiset_build(rest, boxes.last());
        assert(rest.push(boxes.last()) =~= boxes);
    }
}

/// What stands at index `k` once `b` has been put in at `pos`.
proof fn lemma_insert_index(s: Seq<BboxView>, pos: int, b: BboxView, k: int)
    requires
        0 <= pos <= s.len(),
        0 <= k <= s.len(),
    ensures
        s.insert(pos, b).len() == s.len() + 1,
        k < pos ==> s.insert(pos, b)[k] == s[k],
        k == pos ==> s.insert(pos, b)[k] == b,
        k > pos ==> s.insert(pos, b)[k] == s[k - 1],
{
}

/// Sorting puts the boxes in order of falling confidence.
pub proof fn lemma_sort_is_sorted(boxes: Seq<BboxView>)
    ensures
        sorted_by_confidence(sort_by_confidence(boxes)),
    decreases boxes.len(),
{
    if boxes.len() == 0 {
    } else {
        let head = sort_by_confidence(boxes.drop_last());
        let b = boxes.last();
        let pos = insert_position(head, b.detector_confidence);
        lemma_sort_is_sorted(boxes.drop_last());
        lemma_insert_position_in_range(head, b.detector_confidence);
        let out = head.insert(pos, b);
        assert forall|i: int, j: int| 0 <= i < j < out.len() implies #[trigger] in_order(
            out,
            i,
            j,
        ) by {
            lemma_insert_index(head, pos, b, i);
            lemma_insert_index(head, pos, b, j);
            if j < pos {
                assert(in_order(head, i, j));
            } else if j == pos {
                if i < pos - 1 {
                    assert(in_order(head, i, pos - 1));
                }
            } else {
                if i < pos {
                    assert(in_order(head, i, j - 1));
                } else if i == pos {
                } else {
                    assert(in_order(head, i - 1, j - 1));
                }
            }
        }
    }
}

/// A run of boxes in order stays in order without its last box.
proof fn lemma_sorted_drop_last(boxes: Seq<BboxView>)
    requires
        sorted_by_confidence(boxes),
        boxes.len() > 0,
    ensures
        sorted_by_confidence(boxes.drop_last()),
{
    let head = boxes.drop_last();
    assert forall|i: int, j: int| 0 <= i < j < head.len() implies #[trigger] in_order(
        head,
        i,
        j,
    ) by {
        assert(in_order(boxes, i, j));
    }
}

/// Boxes that are in order already are left as they are.
pub proof fn lemma_sort_of_sorted(boxes: Seq<BboxView>)
    requires
        sorted_by_confidence(boxes),
    ensures
        sort_by_confidence(boxes) == boxes,
    decreases boxes.len(),
{
    if boxes.len() == 0 {
        assert(boxes =~= Seq::<BboxView>::empty());
    } else {
        let head = boxes.drop_last();
        lemma_sorted_drop_last(boxes);
        lemma_sort_of_sorted(head);
        if head.len() > 0 {
            assert(in_order(boxes, head.len() - 1, boxes.len() - 1));
        }
        assert(insert_position(head, boxes.last().detector_confidence) == head.len());
        assert(head.insert(head.len() as int, boxes.last()) =~= boxes);
    }
}

/// Ties go by the order of arrival: among the boxes of any one confidence,
/// sorting changes nothing.
pub proof fn lemma_sort_is_stable(boxes: Seq<BboxView>, confidence: i32)
    ensures
        sort_by_confidence(boxes).filter(|b: BboxView| b.detector_confidence == confidence)
            == boxes.filter(|b: BboxView| b.detector_confidence == confidence),
    decreases boxes.len(),
{
    let pred = |b: BboxView| b.detector_confidence == confidence;
    reveal(Seq::filter);
    if boxes.len() == 0 {
    } else {
        let head = sort_by_confidence(boxes.drop_last());
        let b = boxes.last();
        let pos = insert_position(head, b.detector_confidence);
        lemma_sort_is_stable(boxes.drop_last(), confidence);
        lemma_insert_position_in_range(head, b.detector_confidence);
        let front = head.subrange(0, pos);
        let back = head.subrange(pos, head.len() as int);
        assert(head =~= front + back);
        Seq::filter_distributes_over_add(front, back, pred);
        assert(head.insert(pos, b) =~= front.push(b) + back);
        Seq::filter_distributes_over_add(front.push(b), back, pred);
        assert(front.push(b).drop_last() =~= front);
        if pred(b) {
            assert forall|i: int| 0 <= i < back.len() implies !pred(#[trigger] back[i]) by {
                assert(back[i] == head[pos + i]);
            }
            back.lemma_all_neg_filter_empty(pred);
            assert(front.push(b).filter(pred) == front.filter(pred).push(b));
            assert(front.filter(pred) + Seq::<BboxView>::empty() =~= front.filter(pred));
            assert(front.filter(pred).push(b) + Seq::<BboxView>::empty() =~= front.filter(pred).push(
                b,
            ));
        } else {
            assert(front.push(b).filter(pred) == front.filter(pred));
        }
    }
}

/// What suppression keeps is taken from the candidates, in their order.
pub proof fn lemma_greedy_keeps_candidates(candidates: Seq<BboxView>, threshold: Ratio)
    ensures
        keep_greedy(candidates, threshold).len() <= candidates.len(),
        forall|i: int|
            0 <= i < keep_greedy(candidates, threshold).len() ==> candidates.contains(
                #[trigger] keep_greedy(candidates, threshold)[i],
            ),
        sorted_by_confidence(candidates) ==> sorted_by_confidence(
            keep_greedy(candidates, threshold),
        ),
        pairwise_clear(keep_greedy(candidates, threshold), threshold),
    decreases candidates.len(),
{
    if candidates.len() == 0 {
    } else {
        let rest = candidates.drop_last();
        let last = candidates.last();
        let kept = keep_greedy(rest, threshold);
        let out = keep_greedy(candidates, threshold);
        lemma_greedy_keeps_candidates(rest, threshold);
        assert forall|i: int| 0 <= i < out.len() implies candidates.contains(#[trigger] out[i]) by {
            if i < kept.len() {
                assert(out[i] == kept[i]);
                assert(rest.contains(kept[i]));
                let w = choose|w: int| 0 <= w < rest.len() && rest[w] == kept[i];
                assert(candidates[w] == kept[i]);
            } else {
                assert(candidates[candidates.len() - 1] == last);
            }
        }
        if sorted_by_confidence(candidates) {
            lemma_sorted_drop_last(candidates);
            assert forall|i: int, j: int| 0 <= i < j < out.len() implies #[trigger] in_order(
                out,
                i,
                j,
            ) by {
                if j < kept.len() {
                    assert(in_order(kept, i, j));
                } else {
                    assert(out[i] == kept[i]);
                    assert(rest.contains(kept[i]));
                    let w = choose|w: int| 0 <= w < rest.len() && rest[w] == kept[i];
                    assert(in_order(candidates, w, candidates.len() - 1));
                }
            }
        }
        assert forall|i: int, j: int| 0 <= i < j < out.len() implies #[trigger] clear_of(
            out,
            i,
            j,
            threshold,
        ) by {
            if j < kept.len() {
                assert(clear_of(kept, i, j, threshold));
            } else {
                assert(out[i] == kept[i]);
            }
        }
    }
}

/// Where no box overlaps a later one, suppression keeps them all.
pub proof fn lemma_greedy_keeps_clear(boxes: Seq<BboxView>, threshold: Ratio)
    requires
        pairwise_clear(boxes, threshold),
    ensures
        keep_greedy(boxes, threshold) == boxes,
    decreases boxes.len(),
{
    if boxes.len() == 0 {
        assert(boxes =~= Seq::<BboxView>::empty());
    } else {
        let rest = boxes.drop_last();
        assert forall|i: int, j: int| 0 <= i < j < rest.len() implies #[trigger] clear_of(
            rest,
            i,
            j,
            threshold,
        ) by {
            assert(clear_of(boxes, i, j, threshold));
        }
        lemma_greedy_keeps_clear(rest, threshold);
        assert forall|i: int| 0 <= i < rest.len() implies !iou_exceeds(
            #[trigger] rest[i],
            boxes.last(),
            threshold,
        ) by {
            assert(clear_of(boxes, i, boxes.len() - 1, threshold));
        }
        assert(rest.push(boxes.last()) =~= boxes);
    }
}

/// Suppression is idempotent: a second run on the outcome of the first
/// suppresses nothing more and reorders nothing.
pub proof fn lemma_suppress_idempotent(boxes: Seq<BboxView>, threshold: Ratio)
    ensures
        suppress(suppress(boxes, threshold), threshold) == suppress(boxes, threshold),
{
    let sorted = sort_by_confidence(boxes);
    let kept = keep_greedy(sorted, threshold);
    lemma_sort_is_sorted(boxes);
    lemma_greedy_keeps_candidates(sorted, threshold);
    lemma_sort_of_sorted(kept);
    lemma_greedy_keeps_clear(kept, threshold);
}

/// Of two boxes of one class, the more confident is always kept, whichever
/// came first, and the other is kept with it exactly where the two do not
/// overlap beyond the threshold.
pub proof fn lemma_suppress_two(a: BboxView, b: BboxView, threshold: Ratio)
    requires
        a.detector_confidence > b.detector_confidence,
    ensures
        suppress(seq![a, b], threshold) == suppress(seq![b, a], threshold),
        iou_exceeds(a, b, threshold) ==> suppress(seq![a, b], threshold) == seq![a],
        !iou_exceeds(a, b, threshold) ==> suppress(seq![a, b], threshold) == seq![a, b],
{
    let ab = seq![a, b];
    let ba = seq![b, a];
    reveal_with_fuel(sort_by_confidence, 3);
    reveal_with_fuel(insert_position, 3);
    reveal_with_fuel(keep_greedy, 3);
    assert(ab.drop_last() =~= seq![a]);
    assert(ba.drop_last() =~= seq![b]);
    assert(seq![a].drop_last() =~= Seq::<BboxView>::empty());
    assert(seq![b].drop_last() =~= Seq::<BboxView>::empty());
    assert(sort_by_confidence(seq![a]) =~= seq![a]);
    assert(sort_by_confidence(seq![b]) =~= seq![b]);
    assert(sort_by_confidence(ab) =~= ab);
    assert(sort_by_confidence(ba) =~= ab);
    assert(keep_greedy(seq![a], threshold) =~= seq![a]);
    if iou_exceeds(a, b, threshold) {
        assert(iou_exceeds(seq![a][0], b, threshold));
        assert(keep_greedy(ab, threshold) =~= seq![a]);
    } else {
        assert(keep_greedy(ab, threshold) =~= ab);
    }
}

/// What suppression returns: boxes of the input, in order of falling
/// confidence, no two of which overlap beyond the threshold.
pub proof fn lemma_suppress_selects(boxes: Seq<BboxView>, threshold: Ratio)
    ensures
        suppress(boxes, threshold).len() <= boxes.len(),
        forall|i: int|
            0 <= i < suppress(boxes, threshold).len() ==> boxes.contains(
                #[trigger] suppress(boxes, threshold)[i],
            ),
        sorted_by_confidence(suppress(boxes, threshold)),
        pairwise_clear(suppress(boxes, threshold), threshold),
{
    let sorted = sort_by_confidence(boxes);
    let kept = keep_greedy(sorted, threshold);
    lemma_sort_is_sorted(boxes);
    lemma_sort_is_permutation(boxes);
    lemma_greedy_keeps_candidates(sorted, threshold);
    assert forall|i: int| 0 <= i < kept.len() implies boxes.contains(#[trigger] kept[i]) by {
        broadcast use vstd::seq_lib::to_multiset_contains;

        assert(sorted.contains(kept[i]));
        assert(sorted.to_multiset().count(kept[i]) > 0);
        assert(boxes.to_multiset().count(kept[i]) > 0);
    }
}

/// The views of a longer run are those of the shorter run and one more.
proof fn lemma_views_take(boxes: Seq<Bbox>, n: int)
    requires
        0 <= n < boxes.len(),
    ensures
        views(boxes.take(n + 1)).drop_last() == views(boxes.take(n)),
        views(boxes.take(n + 1)).last() == boxes[n]@,
        views(boxes.take(0)) == Seq::<BboxView>::empty(),
        views(boxes.take(boxes.len() as int)) == views(boxes),
{
    assert(views(boxes.take(n + 1)).drop_last() =~= views(boxes.take(n)));
    assert(views(boxes.take(0)) =~= Seq::<BboxView>::empty());
    assert(boxes.take(boxes.len() as int) =~= boxes);
}

/// Whether some box of `kept` overlaps `candidate` beyond the threshold.
fn is_suppressed(kept: &Vec<Bbox>, candidate: &Bbox, threshold: Ratio) -> (found: bool)
    ensures
        found == suppressed(views(kept@), candidate@, threshold),
{
    let mut i: usize = 0;
    while i < kept.len()
        invariant
            i <= kept.len(),
            forall|j: int|
                0 <= j < i ==> !iou_exceeds(#[trigger] views(kept@)[j], candidate@, threshold),
        decreases kept.len() - i,
    {
        if overlaps(&kept[i], candidate, threshold) {
            assert(iou_exceeds(views(kept@)[i as int], candidate@, threshold));
            return true;
        }
        i += 1;
    }
    false
}

/// Puts `b` into the sorted boxes, behind every box at least as confident.
fn insert_sorted(sorted: &mut Vec<Bbox>, b: Bbox)
    ensures
        views(final(sorted)@) == views(old(sorted)@).insert(
            insert_position(views(old(sorted)@), b.detector_confidence),
            b@,
        ),
{
    let mut pos: usize = sorted.len();
    let ghost before = views(sorted@);
    assert(before.take(pos as int) =~= before);
    while pos > 0 && sorted[pos - 1].detector_confidence < b.detector_confidence
        invariant
            pos <= sorted.len(),
            sorted@ == old(sorted)@,
            before == views(sorted@),
            insert_position(before, b.detector_confidence) == insert_position(
                before.take(pos as int),
                b.detector_confidence,
            ),
        decreases pos,
    {
        assert(before.take(pos as int).drop_last() =~= before.take(pos - 1));
        assert(before.take(pos as int).last() == sorted@[pos - 1]@);
        pos -= 1;
    }
    proof {
        if pos > 0 {
            assert(before.take(pos as int).last() == sorted@[pos - 1]@);
        }
    }
    sorted.insert(pos, b);
    assert(views(sorted@) =~= before.insert(pos as int, b@));
}

/// Sorts the boxes by falling confidence, ties in order of arrival.
pub fn sort_boxes(boxes: Vec<Bbox>) -> (sorted: Vec<Bbox>)
    ensures
        views(sorted@) == sort_by_confidence(views(boxes@)),
{
    let mut sorted: Vec<Bbox> = Vec::new();
    proof {
        if boxes@.len() > 0 {
            lemma_views_take(boxes@, 0);
        } else {
            assert(views(boxes@.take(0)) =~= Seq::<BboxView>::empty());
        }
        assert(views(sorted@) =~= Seq::<BboxView>::empty());
    }
    for b in it: boxes
        invariant
            views(sorted@) == sort_by_confidence(views(boxes@.take(it.index()))),
    {
        proof {
            lemma_views_take(boxes@, it.index());
        }
        insert_sorted(&mut sorted, b);
    }
    assert(boxes@.take(boxes@.len() as int) =~= boxes@);
    sorted
}

/// Non-maximum suppression of the boxes of one class: sorts them by falling
/// confidence and keeps each box that no box kept before it overlaps beyond
/// the threshold.
pub fn suppress_class(boxes: Vec<Bbox>, threshold: Ratio) -> (kept: Vec<Bbox>)
    ensures
        views(kept@) == suppress(views(boxes@), threshold),
{
    let sorted = sort_boxes(boxes);
    let mut kept: Vec<Bbox> = Vec::new();
    proof {
        if sorted@.len() > 0 {
            lemma_views_take(sorted@, 0);
        } else {
            assert(views(sorted@.take(0)) =~= Seq::<BboxView>::empty());
        }
        assert(views(kept@) =~= Seq::<BboxView>::empty());
    }
    for b in it: sorted
        invariant
            views(kept@) == keep_greedy(views(sorted@.take(it.index())), threshold),
    {
        proof {
            lemma_views_take(sorted@, it.index());
        }
        if !is_suppressed(&kept, &b, threshold) {
            let ghost before = views(kept@);
            kept.push(b);
            assert(views(kept@) =~= before.push(b@));
        }
    }
    assert(sorted@.take(sorted@.len() as int) =~= sorted@);
    kept
}

/// Non-maximum suppression, class by class and never across classes: each
/// class is left with its boxes that no more confident box of that class
/// makes redundant, in order of falling confidence.
pub fn non_maximum_suppression(bboxes: &mut Vec<Vec<Bbox>>, threshold: Ratio)
    ensures
        final(bboxes)@.len() == old(bboxes)@.len(),
        forall|c: int|
            0 <= c < old(bboxes)@.len() ==> views((#[trigger] final(bboxes)@[c])@) == suppress(
                views(old(bboxes)@[c]@),
                threshold,
            ),
{
    let mut c: usize = 0;
    while c < bboxes.len()
        invariant
            c <= bboxes.len(),
            bboxes@.len() == old(bboxes)@.len(),
            forall|k: int|
                0 <= k < c ==> views((#[trigger] bboxes@[k])@) == suppress(
                    views(old(bboxes)@[k]@),
                    threshold,
                ),
            forall|k: int| c <= k < bboxes@.len() ==> #[trigger] bboxes@[k] == old(bboxes)@[k],
        decreases bboxes.len() - c,
    {
        let mut class_boxes: Vec<Bbox> = Vec::new();
        core::mem::swap(&mut bboxes[c], &mut class_boxes);
        let mut kept = suppress_class(class_boxes, threshold);
        core::mem::swap(&mut bboxes[c], &mut kept);
        c += 1;
    }
}

} // verus!

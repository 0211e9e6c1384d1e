//! From the coordinates of the scaled image back to those of the frame it
//! was made from.

use crate::bbox::views;
use crate::bbox::Bbox;
use crate::bbox::BboxView;
use crate::img_dimensions::saturate;
use crate::img_dimensions::saturated;
use crate::img_dimensions::ImgDimensions;
use crate::img_dimensions::Ratio;
use vstd::prelude::*;

verus! {

/// A coordinate along a side of length `from`, on a side of length `to`:
/// scaled by `to / from`, rounded down.
pub open spec fn remapped(v: u32, from: u32, to: u32) -> u32 {
    saturated(Ratio { num: to, den: from }.scaled(v as nat))
}

/// A box of a space of dimensions `from`, in a space of dimensions `to`:
/// each corner remapped along its axis, all else as it was.
pub open spec fn remapped_box(b: BboxView, from: ImgDimensions, to: ImgDimensions) -> BboxView {
    BboxView {
        xmin: remapped(b.xmin, from.width, to.width),
        ymin: remapped(b.ymin, from.height, to.height),
        xmax: remapped(b.xmax, from.width, to.width),
        ymax: remapped(b.ymax, from.height, to.height),
        ..b
    }
}

/// The boxes of a run, each remapped.
pub open spec fn remapped_boxes(
    boxes: Seq<BboxView>,
    from: ImgDimensions,
    to: ImgDimensions,
) -> Seq<BboxView> {
    boxes.map_values(|b: BboxView| remapped_box(b, from, to))
}

/// Remapping keeps the order of coordinates and keeps them on the side.
pub proof fn lemma_remap_monotone(a: u32, b: u32, from: u32, to: u32)
    requires
        a <= b,
    ensures
        remapped(a, from, to) <= remapped(b, from, to),
        from > 0 && b <= from ==> remapped(b, from, to) <= to,
{
    if from > 0 {
        assert(a * to <= b * to) by (nonlinear_arith)
            requires
                a <= b,
                0 <= to,
        ;
        assert((a * to) / (from as int) <= (b * to) / (from as int)) by (nonlinear_arith)
            requires
                a * to <= b * to,
                from > 0,
        ;
        if b <= from {
            assert((b * to) / (from as int) <= to) by (nonlinear_arith)
                requires
                    0 <= b <= from,
                    from > 0,
                    0 <= to,
            ;
        }
    }
}

/// A box that is well formed and within its space stays so when remapped.
pub proof fn lemma_remap_keeps_valid(b: BboxView, from: ImgDimensions, to: ImgDimensions)
    requires
        b.well_formed(),
        b.within(from),
        from.width > 0,
        from.height > 0,
    ensures
        remapped_box(b, from, to).well_formed(),
        remapped_box(b, from, to).within(to),
{
    lemma_remap_monotone(b.xmin, b.xmax, from.width, to.width);
    lemma_remap_monotone(b.ymin, b.ymax, from.height, to.height);
}

/// The round trip of a coordinate, there and back by the inverse factor,
/// never overshoots and loses less than `from / to + 1` units.
pub proof fn lemma_remap_round_trip(v: u32, from: u32, to: u32)
    requires
        v <= from,
        from > 0,
        to > 0,
    ensures
        remapped(remapped(v, from, to), to, from) <= v,
        (v - remapped(remapped(v, from, to), to, from)) * to < from + to,
{
    let f = from as int;
    let t = to as int;
    let m = (v * t) / f;
    lemma_remap_monotone(v, v, from, to);
    assert(0 <= m) by (nonlinear_arith)
        requires
            m == (v * t) / f,
            0 <= v * t,
            f > 0,
    ;
    assert(m * f <= v * t < m * f + f) by (nonlinear_arith)
        requires
            m == (v * t) / f,
            f > 0,
    ;
    assert(m <= t) by (nonlinear_arith)
        requires
            m * f <= v * t,
            0 <= v <= f,
            0 < f,
            0 <= t,
            0 <= m,
    ;
    assert(Ratio { num: to, den: from }.scaled(v as nat) == m);
    assert(remapped(v, from, to) == m);
    let back = (m * f) / t;
    assert(0 <= m * f) by (nonlinear_arith)
        requires
            0 <= m,
            0 < f,
    ;
    assert(back * t <= m * f < back * t + t) by (nonlinear_arith)
        requires
            back == (m * f) / t,
            t > 0,
    ;
    assert(back <= v) by (nonlinear_arith)
        requires
            back * t <= v * t,
            t > 0,
    ;
    assert(0 <= back) by (nonlinear_arith)
        requires
            back == (m * f) / t,
            0 <= m * f,
            t > 0,
    ;
    assert(Ratio { num: from, den: to }.scaled(m as nat) == back);
    assert(remapped(m as u32, to, from) == back);
    assert((v - back) * t == v * t - back * t) by (nonlinear_arith);
}

/// Remaps a coordinate from a side of length `from` to one of length `to`.
pub fn remap_coordinate(v: u32, from: u32, to: u32) -> (r: u32)
    ensures
        r == remapped(v, from, to),
{
    saturate(Ratio { num: to, den: from }.scale(v))
}

/// Remaps a box from a space of dimensions `from` to one of dimensions
/// `to`.
pub fn remap_bbox(b: Bbox, from: ImgDimensions, to: ImgDimensions) -> (r: Bbox)
    ensures
        r@ == remapped_box(b@, from, to),
{
    Bbox {
        xmin: remap_coordinate(b.xmin, from.width, to.width),
        ymin: remap_coordinate(b.ymin, from.height, to.height),
        xmax: remap_coordinate(b.xmax, from.width, to.width),
        ymax: remap_coordinate(b.ymax, from.height, to.height),
        class: b.class,
        detector_confidence: b.detector_confidence,
        tracker_confidence: b.tracker_confidence,
        tracker_id: b.tracker_id,
        data: b.data,
    }
}

/// Remaps the boxes of every class from the space of the scaled image to
/// that of the frame it was scaled from.
pub fn remap_bboxes(
    bboxes_per_class: Vec<Vec<Bbox>>,
    scaled_dims: ImgDimensions,
    frame_dims: ImgDimensions,
) -> (out: Vec<Vec<Bbox>>)
    ensures
        out@.len() == bboxes_per_class@.len(),
        forall|c: int|
            0 <= c < out@.len() ==> views((#[trigger] out@[c])@) == remapped_boxes(
                views(bboxes_per_class@[c]@),
                scaled_dims,
                frame_dims,
            ),
{
    let mut out: Vec<Vec<Bbox>> = Vec::new();
    for class_boxes in it: bboxes_per_class
        invariant
            out@.len() == it.index(),
            forall|c: int|
                0 <= c < out@.len() ==> views((#[trigger] out@[c])@) == remapped_boxes(
                    views(bboxes_per_class@[c]@),
                    scaled_dims,
                    frame_dims,
                ),
    {
        let mut moved: Vec<Bbox> = Vec::new();
        let ghost group = views(class_boxes@);
        assert(views(moved@) =~= remapped_boxes(group.take(0), scaled_dims, frame_dims));
        for b in inner: class_boxes
            invariant
                group == views(class_boxes@),
                views(moved@) == remapped_boxes(
                    group.take(inner.index()),
                    scaled_dims,
                    frame_dims,
                ),
        {
            let ghost before = views(moved@);
            let ghost seen = group.take(inner.index());
            let ghost now_seen = group.take(inner.index() + 1);
            assert(group[inner.index()] == b@);
            let r = remap_bbox(b, scaled_dims, frame_dims);
            let ghost rv = r@;
            moved.push(r);
            proof {
                assert(views(moved@) =~= before.push(rv));
                assert(now_seen =~= seen.push(group[inner.index()]));
                assert(remapped_boxes(now_seen, scaled_dims, frame_dims) =~= remapped_boxes(
                    seen,
                    scaled_dims,
                    frame_dims,
                ).push(rv));
            }
        }
        assert(group.take(group.len() as int) =~= group);
        out.push(moved);
    }
    out
}

} // verus!

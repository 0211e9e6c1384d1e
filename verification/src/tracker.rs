//! The bridge between per-frame boxes and a tracker that gives them
//! identities: boxes become observations, tracks become boxes again, and a
//! flat list of boxes is put back into its classes.

use crate::bbox::box_from_center;
use crate::bbox::views;
use crate::bbox::Bbox;
use crate::bbox::BboxView;
use crate::img_dimensions::saturate;
use crate::img_dimensions::saturated;
use crate::img_dimensions::ImgDimensions;
use crate::img_dimensions::Ratio;
use vstd::prelude::*;

verus! {

/// What a tracker is told of one box: its centre, its height, its aspect
/// ratio (width to height) and its class, which the tracker hands back
/// unread.
#[derive(Debug, Clone, Copy, PartialEq, Eq, Structural)]
pub struct Observation {
    pub xc: u32,
    pub yc: u32,
    pub height: u32,
    pub aspect: Ratio,
    pub class: usize,
}

/// What a tracker tells of one track: its identity, the geometry it
/// predicts, its confidence and the class that came with the observation.
#[derive(Debug, Clone, Copy, PartialEq, Eq, Structural)]
pub struct Track {
    pub id: i64,
    pub xc: i32,
    pub yc: i32,
    pub height: i32,
    pub aspect: Ratio,
    pub confidence: u32,
    pub class: Option<i64>,
}

/// Why a tracker's answer was refused.
#[derive(Debug, Clone, Copy, PartialEq, Eq, Structural)]
pub enum TrackError {
    /// A track came back without a class.
    MissingClass,
    /// A class lies outside the taxonomy.
    UnknownClass,
}

/// The boxes of each class, as views.
pub open spec fn class_views(per_class: Seq<Vec<Bbox>>) -> Seq<Seq<BboxView>> {
    Seq::new(per_class.len(), |c: int| views(per_class[c]@))
}

/// All boxes in one run: class after class, each class in its order.
pub open spec fn flattened(groups: Seq<Seq<BboxView>>) -> Seq<BboxView>
    decreases groups.len(),
{
    if groups.len() == 0 {
        Seq::empty()
    } else {
        flattened(groups.drop_last()) + groups.last()
    }
}

/// The boxes of `class` among `flat`, in their order.
pub open spec fn of_class(flat: Seq<BboxView>, class: int) -> Seq<BboxView> {
    flat.filter(|b: BboxView| b.class == class)
}

/// Every box stands in the group of its class.
pub open spec fn grouped_by_class(groups: Seq<Seq<BboxView>>) -> bool {
    forall|c: int, i: int|
        0 <= c < groups.len() && 0 <= i < groups[c].len() ==> (#[trigger] groups[c][i]).class == c
}

/// The observation that stands for a box.
pub open spec fn observation_of(b: BboxView) -> Observation {
    Observation {
        xc: (b.xmin + b.width() / 2) as u32,
        yc: (b.ymin + b.height() / 2) as u32,
        height: b.height() as u32,
        aspect: Ratio { num: b.width() as u32, den: b.height() as u32 },
        class: b.class,
    }
}

/// What is wrong with the class of a track, if anything.
pub open spec fn track_fault(t: Track, num_classes: usize) -> Option<TrackError> {
    match t.class {
        None => Some(TrackError::MissingClass),
        Some(class) => if 0 <= class < num_classes {
            None
        } else {
            Some(TrackError::UnknownClass)
        },
    }
}

/// The fault of the first track that has one.
pub open spec fn first_fault(tracks: Seq<Track>, num_classes: usize) -> Option<TrackError>
    decreases tracks.len(),
{
    if tracks.len() == 0 {
        None
    } else {
        match first_fault(tracks.drop_last(), num_classes) {
            Some(e) => Some(e),
            None => track_fault(tracks.last(), num_classes),
        }
    }
}

/// The box that a track of a known class stands for, cut to `bounds`: its
/// width is the aspect ratio times its height; none where the height or
/// that width is not positive. The tracker knows no detector confidence.
pub open spec fn box_of_track(t: Track, bounds: ImgDimensions) -> Option<BboxView> {
    if t.height <= 0 {
        None
    } else {
        match box_from_center(
            t.xc as int,
            t.yc as int,
            saturated(t.aspect.scaled(t.height as nat)) as nat,
            t.height as nat,
            bounds,
            t.class->0 as usize,
            0,
        ) {
            Some(b) => Some(
                BboxView { tracker_confidence: t.confidence, tracker_id: Some(t.id), ..b },
            ),
            None => None,
        }
    }
}

/// The boxes of the tracks that stand for one, in the order of the tracks.
pub open spec fn tracked_boxes(tracks: Seq<Track>, bounds: ImgDimensions) -> Seq<BboxView>
    decreases tracks.len(),
{
    if tracks.len() == 0 {
        Seq::empty()
    } else {
        let before = tracked_boxes(tracks.drop_last(), bounds);
        match box_of_track(tracks.last(), bounds) {
            Some(b) => before.push(b),
            None => before,
        }
    }
}

/// Every box of a track carries the track's identity and confidence, has
/// its corners in order and lies within the bounds it was cut to.
pub proof fn lemma_tracked_boxes(tracks: Seq<Track>, bounds: ImgDimensions)
    ensures
        tracked_boxes(tracks, bounds).len() <= tracks.len(),
        forall|i: int|
            0 <= i < tracked_boxes(tracks, bounds).len() ==> {
                let b = #[trigger] tracked_boxes(tracks, bounds)[i];
                &&& b.tracker_id is Some
                &&& b.well_formed()
                &&& b.within(bounds)
                &&& exists|k: int|
                    0 <= k < tracks.len() && b.tracker_id == Some((#[trigger] tracks[k]).id)
                        && b.tracker_confidence == tracks[k].confidence
            },
    decreases tracks.len(),
{
    if tracks.len() > 0 {
        let head = tracks.drop_last();
        lemma_tracked_boxes(head, bounds);
        let out = tracked_boxes(tracks, bounds);
        assert forall|i: int| 0 <= i < out.len() implies {
            let b = #[trigger] out[i];
            &&& b.tracker_id is Some
            &&& b.well_formed()
            &&& b.within(bounds)
            &&& exists|k: int|
                0 <= k < tracks.len() && b.tracker_id == Some((#[trigger] tracks[k]).id)
                    && b.tracker_confidence == tracks[k].confidence
        } by {
            let b = out[i];
            if i < tracked_boxes(head, bounds).len() {
                assert(b == tracked_boxes(head, bounds)[i]);
                let k = choose|k: int|
                    0 <= k < head.len() && b.tracker_id == Some((#[trigger] head[k]).id)
                        && b.tracker_confidence == head[k].confidence;
                assert(tracks[k] == head[k]);
            } else {
                assert(tracks[tracks.len() - 1] == tracks.last());
            }
        }
    }
}

/// The track that a tracker would answer with if it handed an observation
/// back untouched.
pub open spec fn echoed(seen: Observation, id: i64, confidence: u32) -> Track {
    Track {
        id,
        xc: seen.xc as i32,
        yc: seen.yc as i32,
        height: seen.height as i32,
        aspect: seen.aspect,
        confidence,
        class: Some(seen.class as i64),
    }
}

/// The way to the tracker and back loses nothing of the geometry: a box of
/// positive width and height within its bounds comes back with the corners
/// and the class it went out with.
pub proof fn lemma_tracker_round_trip(b: BboxView, bounds: ImgDimensions, id: i64, confidence: u32)
    requires
        b.well_formed(),
        b.within(bounds),
        b.width() > 0,
        b.height() > 0,
        b.xmax <= i32::MAX,
        b.ymax <= i32::MAX,
        b.class <= i64::MAX,
    ensures
        box_of_track(echoed(observation_of(b), id, confidence), bounds) == Some(
            BboxView {
                detector_confidence: 0,
                tracker_confidence: confidence,
                tracker_id: Some(id),
                data: Seq::empty(),
                ..b
            },
        ),
{
    let w = b.width() as int;
    let h = b.height() as int;
    assert((h * w) / h == w) by (nonlinear_arith)
        requires
            h > 0,
            w >= 0,
    ;
    let t = echoed(observation_of(b), id, confidence);
    assert(t.aspect.scaled(t.height as nat) == w);
}

/// Where every box passes a test, the test lets them all through.
proof fn lemma_filter_all(s: Seq<BboxView>, pred: spec_fn(BboxView) -> bool)
    requires
        forall|i: int| 0 <= i < s.len() ==> pred(#[trigger] s[i]),
    ensures
        s.filter(pred) == s,
    decreases s.len(),
{
    reveal(Seq::filter);
    if s.len() > 0 {
        let head = s.drop_last();
        assert forall|i: int| 0 <= i < head.len() implies pred(#[trigger] head[i]) by {
            assert(head[i] == s[i]);
        }
        lemma_filter_all(head, pred);
        assert(s.last() == s[s.len() - 1]);
        assert(head.push(s.last()) =~= s);
    }
}

/// The boxes of groups by class carry the classes of their groups.
proof fn lemma_flattened_classes(groups: Seq<Seq<BboxView>>)
    requires
        grouped_by_class(groups),
    ensures
        forall|k: int|
            0 <= k < flattened(groups).len() ==> 0 <= (#[trigger] flattened(groups)[k]).class
                < groups.len(),
    decreases groups.len(),
{
    if groups.len() > 0 {
        let head = groups.drop_last();
        assert forall|c: int, i: int| 0 <= c < head.len() && 0 <= i < head[c].len() implies (
        #[trigger] head[c][i]).class == c by {
            assert(head[c] == groups[c]);
        }
        lemma_flattened_classes(head);
        let flat = flattened(groups);
        assert forall|k: int| 0 <= k < flat.len() implies 0 <= (#[trigger] flat[k]).class
            < groups.len() by {
            if k < flattened(head).len() {
                assert(flat[k] == flattened(head)[k]);
            } else {
                let i = k - flattened(head).len();
                assert(flat[k] == groups[groups.len() - 1][i]);
            }
        }
    }
}

/// Flattening boxes that are grouped by class and regrouping them by class
/// gives back every group as it was: the same boxes, as many, and in the
/// same order.
pub proof fn lemma_regroup_round_trip(groups: Seq<Seq<BboxView>>, class: int)
    requires
        grouped_by_class(groups),
        0 <= class < groups.len(),
    ensures
        of_class(flattened(groups), class) == groups[class],
    decreases groups.len(),
{
    let pred = |b: BboxView| b.class == class;
    let head = groups.drop_last();
    let last = groups.last();
    assert forall|c: int, i: int| 0 <= c < head.len() && 0 <= i < head[c].len() implies (
    #[trigger] head[c][i]).class == c by {
        assert(head[c] == groups[c]);
    }
    Seq::filter_distributes_over_add(flattened(head), last, pred);
    if class == groups.len() - 1 {
        lemma_flattened_classes(head);
        flattened(head).lemma_all_neg_filter_empty(pred);
        assert forall|i: int| 0 <= i < last.len() implies pred(#[trigger] last[i]) by {
            assert(last[i] == groups[groups.len() - 1][i]);
        }
        lemma_filter_all(last, pred);
        assert(Seq::<BboxView>::empty() + last =~= last);
    } else {
        lemma_regroup_round_trip(head, class);
        assert forall|i: int| 0 <= i < last.len() implies !pred(#[trigger] last[i]) by {
            assert(last[i] == groups[groups.len() - 1][i]);
        }
        last.lemma_all_neg_filter_empty(pred);
        assert(head[class] + Seq::<BboxView>::empty() =~= head[class]);
        assert(head[class] == groups[class]);
    }
}

/// A run of boxes grows by one view when it grows by one box.
proof fn lemma_views_push(boxes: Seq<Bbox>, b: Bbox)
    ensures
        views(boxes.push(b)) == views(boxes).push(b@),
{
    assert(views(boxes.push(b)) =~= views(boxes).push(b@));
}

/// Reads the observation that stands for a box.
pub fn observe(b: &Bbox) -> (seen: Observation)
    ensures
        seen == observation_of(b@),
{
    let w = b.width();
    let h = b.height();
    Observation {
        xc: b.xmin + w / 2,
        yc: b.ymin + h / 2,
        height: h,
        aspect: Ratio { num: w, den: h },
        class: b.class,
    }
}

/// Flattens the boxes of all classes into the observations that a tracker
/// takes for one frame: class after class, each class in its order.
pub fn observations(bboxes_per_class: &Vec<Vec<Bbox>>) -> (seen: Vec<Observation>)
    ensures
        seen@ == flattened(class_views(bboxes_per_class@)).map_values(
            |b: BboxView| observation_of(b),
        ),
{
    let mut seen: Vec<Observation> = Vec::new();
    let ghost groups = class_views(bboxes_per_class@);
    let ghost to_obs = |b: BboxView| observation_of(b);
    let mut c: usize = 0;
    assert(groups.take(0) =~= Seq::<Seq<BboxView>>::empty());
    assert(seen@ =~= flattened(groups.take(0)).map_values(to_obs));
    while c < bboxes_per_class.len()
        invariant
            c <= bboxes_per_class.len(),
            groups == class_views(bboxes_per_class@),
            to_obs == |b: BboxView| observation_of(b),
            seen@ == flattened(groups.take(c as int)).map_values(to_obs),
        decreases bboxes_per_class.len() - c,
    {
        let class_boxes = &bboxes_per_class[c];
        let ghost done = flattened(groups.take(c as int));
        let mut i: usize = 0;
        assert(seen@ =~= (done + views(class_boxes@).take(0)).map_values(to_obs));
        while i < class_boxes.len()
            invariant
                i <= class_boxes.len(),
                to_obs == |b: BboxView| observation_of(b),
                seen@ == (done + views(class_boxes@).take(i as int)).map_values(to_obs),
            decreases class_boxes.len() - i,
        {
            let o = observe(&class_boxes[i]);
            seen.push(o);
            assert(seen@ =~= (done + views(class_boxes@).take(i + 1)).map_values(to_obs));
            i += 1;
        }
        proof {
            assert(views(class_boxes@).take(class_boxes@.len() as int) =~= views(class_boxes@));
            assert(groups.take(c + 1).drop_last() =~= groups.take(c as int));
            assert(groups.take(c + 1).last() == views(class_boxes@));
        }
        c += 1;
    }
    assert(groups.take(bboxes_per_class@.len() as int) =~= groups);
    seen
}

/// Flattens the boxes of all classes into one list: class after class,
/// each class in its order.
pub fn flatten_bboxes(bboxes_per_class: Vec<Vec<Bbox>>) -> (flat: Vec<Bbox>)
    ensures
        views(flat@) == flattened(class_views(bboxes_per_class@)),
{
    let mut flat: Vec<Bbox> = Vec::new();
    let ghost groups = class_views(bboxes_per_class@);
    assert(groups.take(0) =~= Seq::<Seq<BboxView>>::empty());
    assert(views(flat@) =~= flattened(groups.take(0)));
    for class_boxes in it: bboxes_per_class
        invariant
            groups == class_views(bboxes_per_class@),
            views(flat@) == flattened(groups.take(it.index())),
    {
        let ghost done = views(flat@);
        let ghost group = views(class_boxes@);
        proof {
            assert(groups.take(it.index() + 1).drop_last() =~= groups.take(it.index()));
            assert(groups.take(it.index() + 1).last() == group);
            assert(views(flat@) =~= done + group.take(0));
        }
        for b in inner: class_boxes
            invariant
                group == views(class_boxes@),
                views(flat@) == done + group.take(inner.index()),
        {
            proof {
                lemma_views_push(flat@, b);
                assert(done + group.take(inner.index() + 1) =~= (done + group.take(
                    inner.index(),
                )).push(b@));
            }
            flat.push(b);
        }
        assert(group.take(group.len() as int) =~= group);
    }
    assert(groups.take(groups.len() as int) =~= groups);
    flat
}

/// Maps the tracks of a frame back to boxes, cut to `scaled_dims`, each
/// with the identity and the confidence that the tracker gave it. A track of
/// no positive height or width is dropped. A track without a class, or of a
/// class outside the taxonomy of `num_classes`, fails the frame.
pub fn tracks_to_bboxes(tracks: &Vec<Track>, scaled_dims: ImgDimensions, num_classes: usize) -> (out:
    Result<Vec<Bbox>, TrackError>)
    ensures
        match out {
            Ok(boxes) => first_fault(tracks@, num_classes) is None && views(boxes@)
                == tracked_boxes(tracks@, scaled_dims),
            Err(e) => first_fault(tracks@, num_classes) == Some(e),
        },
{
    let mut out: Vec<Bbox> = Vec::new();
    let mut i: usize = 0;
    assert(tracks@.take(0) =~= Seq::<Track>::empty());
    assert(views(out@) =~= Seq::<BboxView>::empty());
    while i < tracks.len()
        invariant
            i <= tracks.len(),
            first_fault(tracks@.take(i as int), num_classes) is None,
            views(out@) == tracked_boxes(tracks@.take(i as int), scaled_dims),
        decreases tracks.len() - i,
    {
        let track = &tracks[i];
        proof {
            assert(tracks@.take(i + 1).drop_last() =~= tracks@.take(i as int));
            assert(tracks@.take(i + 1).last() == *track);
        }
        let class_id: i64 = match track.class {
            Some(class) => class,
            None => {
                proof {
                    lemma_fault_stays(tracks@, i + 1, num_classes);
                }
                return Err(TrackError::MissingClass);
            },
        };
        if class_id < 0 || class_id as u64 >= num_classes as u64 {
            proof {
                lemma_fault_stays(tracks@, i + 1, num_classes);
            }
            return Err(TrackError::UnknownClass);
        }
        if track.height > 0 {
            let h = track.height as u32;
            let w = saturate(track.aspect.scale(h));
            match Bbox::from_center(track.xc, track.yc, w, h, scaled_dims, class_id as usize, 0) {
                Some(mut b) => {
                    b.tracker_confidence = track.confidence;
                    b.tracker_id = Some(track.id);
                    proof {
                        lemma_views_push(out@, b);
                    }
                    out.push(b);
                },
                None => {},
            }
        }
        i += 1;
    }
    assert(tracks@.take(tracks@.len() as int) =~= tracks@);
    Ok(out)
}

/// A fault found among the first tracks is the fault of them all.
proof fn lemma_fault_stays(tracks: Seq<Track>, n: int, num_classes: usize)
    requires
        0 <= n <= tracks.len(),
        first_fault(tracks.take(n), num_classes) is Some,
    ensures
        first_fault(tracks, num_classes) == first_fault(tracks.take(n), num_classes),
    decreases tracks.len() - n,
{
    if n < tracks.len() {
        assert(tracks.take(n + 1).drop_last() =~= tracks.take(n));
        lemma_fault_stays(tracks, n + 1, num_classes);
    } else {
        assert(tracks.take(n) =~= tracks);
    }
}

/// Transforms a flat list of boxes back into boxes grouped by class, each
/// class in the order of the list. A box of a class outside the taxonomy of
/// `num_classes` fails the frame.
pub fn unflatten_bboxes(flat_bboxes: Vec<Bbox>, num_classes: usize) -> (out: Result<
    Vec<Vec<Bbox>>,
    TrackError,
>)
    ensures
        out is Ok <==> forall|i: int|
            0 <= i < flat_bboxes@.len() ==> (#[trigger] flat_bboxes@[i]).class < num_classes,
        out is Err ==> out == Err::<Vec<Vec<Bbox>>, TrackError>(TrackError::UnknownClass),
        out matches Ok(per_class) ==> {
            &&& per_class@.len() == num_classes
            &&& forall|c: int|
                0 <= c < num_classes ==> views((#[trigger] per_class@[c])@) == of_class(
                    views(flat_bboxes@),
                    c,
                )
        },
{
    let mut per_class: Vec<Vec<Bbox>> = Vec::new();
    let mut k: usize = 0;
    while k < num_classes
        invariant
            k <= num_classes,
            per_class@.len() == k,
            forall|c: int| 0 <= c < k ==> (#[trigger] per_class@[c])@.len() == 0,
        decreases num_classes - k,
    {
        per_class.push(Vec::new());
        k += 1;
    }
    proof {
        reveal(Seq::filter);
        assert(flat_bboxes@.take(0) =~= Seq::<Bbox>::empty());
        assert forall|c: int| 0 <= c < num_classes implies views((#[trigger] per_class@[c])@)
            == of_class(views(flat_bboxes@.take(0)), c) by {
            assert(views(per_class@[c]@) =~= Seq::<BboxView>::empty());
            assert(views(flat_bboxes@.take(0)) =~= Seq::<BboxView>::empty());
        }
    }
    for b in it: flat_bboxes
        invariant
            per_class@.len() == num_classes,
            forall|i: int|
                0 <= i < it.index() ==> (#[trigger] flat_bboxes@[i]).class < num_classes,
            forall|c: int|
                0 <= c < num_classes ==> views((#[trigger] per_class@[c])@) == of_class(
                    views(flat_bboxes@.take(it.index())),
                    c,
                ),
    {
        if b.class >= num_classes {
            assert(flat_bboxes@[it.index()].class >= num_classes);
            return Err(TrackError::UnknownClass);
        }
        let ghost before = per_class@;
        let ghost class = b.class;
        let ghost bv = b@;
        let ghost seen = views(flat_bboxes@.take(it.index()));
        let ghost now_seen = views(flat_bboxes@.take(it.index() + 1));
        per_class[b.class].push(b);
        proof {
            reveal(Seq::filter);
            assert(now_seen.drop_last() =~= seen);
            assert(now_seen.last() == bv);
            assert forall|c: int| 0 <= c < num_classes implies views((#[trigger] per_class@[c])@)
                == of_class(now_seen, c) by {
                if c == class {
                    assert(views(per_class@[c]@) =~= views(before[c]@).push(bv));
                } else {
                    assert(per_class@[c] == before[c]);
                }
            }
        }
    }
    assert(flat_bboxes@.take(flat_bboxes@.len() as int) =~= flat_bboxes@);
    Ok(per_class)
}

/// The boxes that a frame ends with. Without a tracker the detector's boxes
/// pass through untouched. With one, its tracks replace them entirely:
/// mapped back to boxes and regrouped by class.
pub fn resolve_boxes(
    detected: Vec<Vec<Bbox>>,
    tracks: Option<&Vec<Track>>,
    scaled_dims: ImgDimensions,
    num_classes: usize,
) -> (out: Result<Vec<Vec<Bbox>>, TrackError>)
    ensures
        tracks is None ==> out == Ok::<Vec<Vec<Bbox>>, TrackError>(detected),
        tracks matches Some(ts) ==> match out {
            Ok(per_class) => {
                &&& first_fault(ts@, num_classes) is None
                &&& per_class@.len() == num_classes
                &&& forall|c: int|
                    0 <= c < num_classes ==> views((#[trigger] per_class@[c])@) == of_class(
                        tracked_boxes(ts@, scaled_dims),
                        c,
                    )
            },
            Err(e) => first_fault(ts@, num_classes) == Some(e),
        },
{
    match tracks {
        None => Ok(detected),
        Some(ts) => match tracks_to_bboxes(ts, scaled_dims, num_classes) {
            Ok(flat) => {
                proof {
                    lemma_tracked_classes(ts@, scaled_dims, num_classes);
                    assert forall|i: int| 0 <= i < flat@.len() implies (#[trigger] flat@[i]).class
                        < num_classes by {
                        assert(views(flat@)[i] == flat@[i]@);
                    }
                }
                unflatten_bboxes(flat, num_classes)
            },
            Err(e) => Err(e),
        },
    }
}

/// Tracks without fault give boxes of classes within the taxonomy.
proof fn lemma_tracked_classes(tracks: Seq<Track>, bounds: ImgDimensions, num_classes: usize)
    requires
        first_fault(tracks, num_classes) is None,
    ensures
        forall|i: int|
            0 <= i < tracked_boxes(tracks, bounds).len() ==> (#[trigger] tracked_boxes(
                tracks,
                bounds,
            )[i]).class < num_classes,
    decreases tracks.len(),
{
    if tracks.len() > 0 {
        lemma_tracked_classes(tracks.drop_last(), bounds, num_classes);
    }
}

} // verus!

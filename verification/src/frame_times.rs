//! Per-frame stage timings and running statistics over them.
//!
//! Every duration is a whole number of nanoseconds.

use crate::clock::nanos_since;
use crate::clock::now;
use std::time::Instant;
use vstd::arithmetic::div_mod::lemma_fundamental_div_mod;
use vstd::arithmetic::div_mod::lemma_fundamental_div_mod_converse;
use vstd::prelude::*;

verus! {

/// Nanoseconds in one millisecond.
pub const NANOS_PER_MILLI: u128 = 1_000_000;

/// The stages of processing one frame, in pipeline order.
#[derive(Debug, Clone, Copy, PartialEq, Eq, Structural)]
pub enum Stage {
    FrameToBuffer,
    BufferResize,
    BufferToTensor,
    ForwardPass,
    BboxExtraction,
    Nms,
    Tracking,
    Annotation,
    BufferToFrame,
}

/// Converts milliseconds to the nanoseconds that the timing records hold.
pub fn millis(ms: u64) -> (nanos: u128)
    ensures
        nanos == ms * NANOS_PER_MILLI,
{
    ms as u128 * NANOS_PER_MILLI
}

/// Adds one more time to a running sum that may have gone beyond what fits
/// already.
fn add_time(sum: Option<u128>, nanos: u128) -> (total: Option<u128>)
    ensures
        total is Some <==> sum is Some && sum->0 + nanos <= u128::MAX,
        total matches Some(t) ==> t == sum->0 + nanos,
{
    match sum {
        Some(s) => s.checked_add(nanos),
        None => None,
    }
}

/// Various timings for processing a single video frame, in nanoseconds.
#[derive(Debug, Clone, Copy, PartialEq, Eq, Structural)]
pub struct FrameTimes {
    pub frame_to_buffer: u128,
    pub buffer_resize: u128,
    pub buffer_to_tensor: u128,
    pub forward_pass: u128,
    pub bbox_extraction: u128,
    pub nms: u128,
    pub tracking: u128,
    pub annotation: u128,
    pub buffer_to_frame: u128,
}

impl FrameTimes {
    /// The time recorded for one stage.
    pub open spec fn stage(self, stage: Stage) -> nat {
        match stage {
            Stage::FrameToBuffer => self.frame_to_buffer as nat,
            Stage::BufferResize => self.buffer_resize as nat,
            Stage::BufferToTensor => self.buffer_to_tensor as nat,
            Stage::ForwardPass => self.forward_pass as nat,
            Stage::BboxExtraction => self.bbox_extraction as nat,
            Stage::Nms => self.nms as nat,
            Stage::Tracking => self.tracking as nat,
            Stage::Annotation => self.annotation as nat,
            Stage::BufferToFrame => self.buffer_to_frame as nat,
        }
    }

    /// The sum of all nine stages.
    pub open spec fn spec_total(self) -> nat {
        (self.frame_to_buffer + self.buffer_resize + self.buffer_to_tensor + self.forward_pass
            + self.bbox_extraction + self.nms + self.tracking + self.annotation
            + self.buffer_to_frame) as nat
    }

    /// The record in which every stage took no time.
    pub open spec fn zero() -> FrameTimes {
        FrameTimes {
            frame_to_buffer: 0,
            buffer_resize: 0,
            buffer_to_tensor: 0,
            forward_pass: 0,
            bbox_extraction: 0,
            nms: 0,
            tracking: 0,
            annotation: 0,
            buffer_to_frame: 0,
        }
    }

    /// Reads the time of one stage.
    pub fn get(&self, stage: Stage) -> (nanos: u128)
        ensures
            nanos == self.stage(stage),
    {
        match stage {
            Stage::FrameToBuffer => self.frame_to_buffer,
            Stage::BufferResize => self.buffer_resize,
            Stage::BufferToTensor => self.buffer_to_tensor,
            Stage::ForwardPass => self.forward_pass,
            Stage::BboxExtraction => self.bbox_extraction,
            Stage::Nms => self.nms,
            Stage::Tracking => self.tracking,
            Stage::Annotation => self.annotation,
            Stage::BufferToFrame => self.buffer_to_frame,
        }
    }

    /// Total time spent on the frame: the sum of the stages.
    pub fn total(&self) -> (nanos: u128)
        requires
            self.spec_total() <= u128::MAX,
        ensures
            nanos == self.spec_total(),
    {
        self.frame_to_buffer + self.buffer_resize + self.buffer_to_tensor + self.forward_pass
            + self.bbox_extraction + self.nms + self.tracking + self.annotation
            + self.buffer_to_frame
    }

    /// Total time spent on the frame, or `None` where the sum does not fit.
    pub fn checked_total(&self) -> (nanos: Option<u128>)
        ensures
            nanos is Some <==> self.spec_total() <= u128::MAX,
            nanos matches Some(t) ==> t == self.spec_total(),
    {
        let sum = add_time(Some(self.frame_to_buffer), self.buffer_resize);
        let sum = add_time(sum, self.buffer_to_tensor);
        let sum = add_time(sum, self.forward_pass);
        let sum = add_time(sum, self.bbox_extraction);
        let sum = add_time(sum, self.nms);
        let sum = add_time(sum, self.tracking);
        let sum = add_time(sum, self.annotation);
        add_time(sum, self.buffer_to_frame)
    }

    /// Sets the time of one stage and leaves the others as they were.
    pub fn set(&mut self, stage: Stage, nanos: u128)
        ensures
            final(self).stage(stage) == nanos,
            forall|s: Stage| s != stage ==> #[trigger] final(self).stage(s) == old(self).stage(s),
    {
        match stage {
            Stage::FrameToBuffer => {
                self.frame_to_buffer = nanos;
            },
            Stage::BufferResize => {
                self.buffer_resize = nanos;
            },
            Stage::BufferToTensor => {
                self.buffer_to_tensor = nanos;
            },
            Stage::ForwardPass => {
                self.forward_pass = nanos;
            },
            Stage::BboxExtraction => {
                self.bbox_extraction = nanos;
            },
            Stage::Nms => {
                self.nms = nanos;
            },
            Stage::Tracking => {
                self.tracking = nanos;
            },
            Stage::Annotation => {
                self.annotation = nanos;
            },
            Stage::BufferToFrame => {
                self.buffer_to_frame = nanos;
            },
        }
    }

    /// The sum of the records, stage by stage; `None` where the sum of some
    /// stage does not fit.
    pub fn sum(frames: &Vec<FrameTimes>) -> (total: Option<FrameTimes>)
        ensures
            total is Some <==> forall|s: Stage| #[trigger] stage_sum(frames@, s) <= u128::MAX,
            total matches Some(t) ==> forall|s: Stage| #[trigger] t.stage(s) == stage_sum(frames@, s),
    {
        let frame_to_buffer = match stage_total(frames, Stage::FrameToBuffer) {
            Some(t) => t,
            None => {
                assert(stage_sum(frames@, Stage::FrameToBuffer) > u128::MAX);
                return None;
            },
        };
        let buffer_resize = match stage_total(frames, Stage::BufferResize) {
            Some(t) => t,
            None => {
                assert(stage_sum(frames@, Stage::BufferResize) > u128::MAX);
                return None;
            },
        };
        let buffer_to_tensor = match stage_total(frames, Stage::BufferToTensor) {
            Some(t) => t,
            None => {
                assert(stage_sum(frames@, Stage::BufferToTensor) > u128::MAX);
                return None;
            },
        };
        let forward_pass = match stage_total(frames, Stage::ForwardPass) {
            Some(t) => t,
            None => {
                assert(stage_sum(frames@, Stage::ForwardPass) > u128::MAX);
                return None;
            },
        };
        let bbox_extraction = match stage_total(frames, Stage::BboxExtraction) {
            Some(t) => t,
            None => {
                assert(stage_sum(frames@, Stage::BboxExtraction) > u128::MAX);
                return None;
            },
        };
        let nms = match stage_total(frames, Stage::Nms) {
            Some(t) => t,
            None => {
                assert(stage_sum(frames@, Stage::Nms) > u128::MAX);
                return None;
            },
        };
        let tracking = match stage_total(frames, Stage::Tracking) {
            Some(t) => t,
            None => {
                assert(stage_sum(frames@, Stage::Tracking) > u128::MAX);
                return None;
            },
        };
        let annotation = match stage_total(frames, Stage::Annotation) {
            Some(t) => t,
            None => {
                assert(stage_sum(frames@, Stage::Annotation) > u128::MAX);
                return None;
            },
        };
        let buffer_to_frame = match stage_total(frames, Stage::BufferToFrame) {
            Some(t) => t,
            None => {
                assert(stage_sum(frames@, Stage::BufferToFrame) > u128::MAX);
                return None;
            },
        };
        Some(
            FrameTimes {
                frame_to_buffer,
                buffer_resize,
                buffer_to_tensor,
                forward_pass,
                bbox_extraction,
                nms,
                tracking,
                annotation,
                buffer_to_frame,
            },
        )
    }

    /// A record in which every stage took `ms` milliseconds.
    pub fn uniform(ms: u64) -> (times: Self)
        ensures
            forall|s: Stage| #[trigger] times.stage(s) == ms * NANOS_PER_MILLI,
    {
        let nanos = millis(ms);
        FrameTimes {
            frame_to_buffer: nanos,
            buffer_resize: nanos,
            buffer_to_tensor: nanos,
            forward_pass: nanos,
            bbox_extraction: nanos,
            nms: nanos,
            tracking: nanos,
            annotation: nanos,
            buffer_to_frame: nanos,
        }
    }
}

impl Default for FrameTimes {
    fn default() -> (times: Self)
        ensures
            times == FrameTimes::zero(),
    {
        FrameTimes {
            frame_to_buffer: 0,
            buffer_resize: 0,
            buffer_to_tensor: 0,
            forward_pass: 0,
            bbox_extraction: 0,
            nms: 0,
            tracking: 0,
            annotation: 0,
            buffer_to_frame: 0,
        }
    }
}

/// Measures the time that one stage takes, by the monotonic clock.
pub struct FrameTimer {
    start: Instant,
}

impl FrameTimer {
    /// Starts measuring.
    pub fn start() -> (timer: Self) {
        FrameTimer { start: now() }
    }

    /// Records the time gone by since the start as the time of `stage`,
    /// whatever the clock says it is, and leaves the other stages as they
    /// were.
    pub fn record(&self, times: &mut FrameTimes, stage: Stage)
        ensures
            forall|s: Stage| s != stage ==> #[trigger] final(times).stage(s) == old(times).stage(s),
    {
        times.set(stage, nanos_since(&self.start));
    }
}

/// The records that count towards a statistic: all of them, or all but the
/// first, which carries the cost of starting up.
pub open spec fn eligible(frames: Seq<FrameTimes>, ignore_first: bool) -> Seq<FrameTimes> {
    if ignore_first && frames.len() > 0 {
        frames.subrange(1, frames.len() as int)
    } else {
        frames
    }
}

/// The sum of one stage over a run of records.
pub open spec fn stage_sum(frames: Seq<FrameTimes>, stage: Stage) -> nat
    decreases frames.len(),
{
    if frames.len() == 0 {
        0
    } else {
        stage_sum(frames.drop_last(), stage) + frames.last().stage(stage)
    }
}

/// The sum over the first records is no more than the sum over all.
proof fn lemma_stage_sum_grows(frames: Seq<FrameTimes>, n: int, stage: Stage)
    requires
        0 <= n <= frames.len(),
    ensures
        stage_sum(frames.take(n), stage) <= stage_sum(frames, stage),
    decreases frames.len() - n,
{
    if n < frames.len() {
        assert(frames.take(n + 1).drop_last() =~= frames.take(n));
        lemma_stage_sum_grows(frames, n + 1, stage);
    } else {
        assert(frames.take(n) =~= frames);
    }
}

/// The sum of `stage` over the records, or `None` where it does not fit.
fn stage_total(frames: &Vec<FrameTimes>, stage: Stage) -> (total: Option<u128>)
    ensures
        total is Some <==> stage_sum(frames@, stage) <= u128::MAX,
        total matches Some(t) ==> t == stage_sum(frames@, stage),
{
    let mut sum: u128 = 0;
    let mut i: usize = 0;
    assert(frames@.take(0) =~= Seq::<FrameTimes>::empty());
    while i < frames.len()
        invariant
            i <= frames.len(),
            sum == stage_sum(frames@.take(i as int), stage),
        decreases frames.len() - i,
    {
        let x = frames[i].get(stage);
        proof {
            assert(frames@.take(i + 1).drop_last() =~= frames@.take(i as int));
            assert(frames@.take(i + 1).last() == frames@[i as int]);
        }
        match sum.checked_add(x) {
            Some(s) => {
                sum = s;
            },
            None => {
                proof {
                    lemma_stage_sum_grows(frames@, i + 1, stage);
                }
                return None;
            },
        }
        i += 1;
    }
    assert(frames@.take(frames@.len() as int) =~= frames@);
    Some(sum)
}

/// The time of `stage` in the record at `i`.
pub open spec fn stage_at(frames: Seq<FrameTimes>, i: int, stage: Stage) -> nat {
    frames[i].stage(stage)
}

/// `v` is the least time recorded for `stage` in `frames`.
pub open spec fn is_stage_min(v: nat, frames: Seq<FrameTimes>, stage: Stage) -> bool {
    &&& forall|i: int| 0 <= i < frames.len() ==> v <= #[trigger] stage_at(frames, i, stage)
    &&& exists|i: int| 0 <= i < frames.len() && #[trigger] stage_at(frames, i, stage) == v
}

/// `v` is the greatest time recorded for `stage` in `frames`.
pub open spec fn is_stage_max(v: nat, frames: Seq<FrameTimes>, stage: Stage) -> bool {
    &&& forall|i: int| 0 <= i < frames.len() ==> v >= #[trigger] stage_at(frames, i, stage)
    &&& exists|i: int| 0 <= i < frames.len() && #[trigger] stage_at(frames, i, stage) == v
}

/// One more record moves a running quotient and remainder to those of the
/// longer sum.
proof fn lemma_mean_step(q: nat, r: nat, n: nat, x: nat, sum: nat)
    requires
        n > 0,
        r < n,
        q * n + r == sum,
    ensures
        r + x % n < 2 * n,
        r + x % n >= n ==> (q + x / n + 1) * n + (r + x % n - n) == sum + x,
        r + x % n < n ==> (q + x / n) * n + (r + x % n) == sum + x,
{
    lemma_fundamental_div_mod(x as int, n as int);
    assert(x % n < n) by (nonlinear_arith)
        requires
            n > 0,
    ;
    assert((q + x / n + 1) * n == q * n + n * (x / n) + n) by (nonlinear_arith);
    assert((q + x / n) * n == q * n + n * (x / n)) by (nonlinear_arith);
}

/// A quotient of a sum of `count` values, none above `bound`, by at least
/// `count` is itself at most `bound`.
proof fn lemma_mean_bound(q: nat, r: nat, n: nat, sum: nat, count: nat, bound: nat)
    requires
        n > 0,
        q * n + r == sum,
        sum <= count * bound,
        count <= n,
    ensures
        q <= bound,
{
    if q > bound {
        assert(q * n >= (bound + 1) * n) by (nonlinear_arith)
            requires
                q >= bound + 1,
        ;
        assert((bound + 1) * n == bound * n + n) by (nonlinear_arith);
        assert(count * bound <= n * bound) by (nonlinear_arith)
            requires
                count <= n,
        ;
        assert(n * bound == bound * n) by (nonlinear_arith);
    }
}

/// The mean of `stage` over `frames[start..]`, rounded down; computed
/// without ever forming the sum.
fn stage_mean(frames: &Vec<FrameTimes>, start: usize, stage: Stage) -> (mean: u128)
    requires
        start < frames.len(),
    ensures
        mean == stage_sum(frames@.subrange(start as int, frames.len() as int), stage) / ((
        frames.len() - start) as nat),
{
    let n: u128 = (frames.len() - start) as u128;
    let mut q: u128 = 0;
    let mut r: u128 = 0;
    let mut i: usize = start;
    assert(frames@.subrange(start as int, start as int) =~= Seq::<FrameTimes>::empty());
    while i < frames.len()
        invariant
            start <= i <= frames.len(),
            start < frames.len(),
            n == frames.len() - start,
            r < n,
            q * n + r == stage_sum(frames@.subrange(start as int, i as int), stage),
            stage_sum(frames@.subrange(start as int, i as int), stage) <= (i - start) * u128::MAX,
        decreases frames.len() - i,
    {
        let x = frames[i].get(stage);
        proof {
            let before = frames@.subrange(start as int, i as int);
            let after = frames@.subrange(start as int, i + 1);
            assert(after.drop_last() =~= before);
            assert(after.last() == frames@[i as int]);
            let sum = stage_sum(before, stage);
            assert(stage_sum(after, stage) == sum + x);
            lemma_mean_step(q as nat, r as nat, n as nat, x as nat, sum);
            assert((i - start) * u128::MAX + u128::MAX == (i + 1 - start) * u128::MAX)
                by (nonlinear_arith);
            if r + x % n >= n {
                lemma_mean_bound(
                    (q + x / n + 1) as nat,
                    (r + x % n - n) as nat,
                    n as nat,
                    (sum + x) as nat,
                    (i + 1 - start) as nat,
                    u128::MAX as nat,
                );
            } else {
                lemma_mean_bound(
                    (q + x / n) as nat,
                    (r + x % n) as nat,
                    n as nat,
                    (sum + x) as nat,
                    (i + 1 - start) as nat,
                    u128::MAX as nat,
                );
            }
        }
        q = q + x / n;
        r = r + x % n;
        if r >= n {
            r = r - n;
            q = q + 1;
        }
        i += 1;
    }
    proof {
        let all = frames@.subrange(start as int, frames.len() as int);
        lemma_fundamental_div_mod_converse(
            stage_sum(all, stage) as int,
            n as int,
            q as int,
            r as int,
        );
    }
    q
}

/// The least time of `stage` over `frames[start..]`.
fn stage_min(frames: &Vec<FrameTimes>, start: usize, stage: Stage) -> (least: u128)
    requires
        start < frames.len(),
    ensures
        is_stage_min(least as nat, frames@.subrange(start as int, frames.len() as int), stage),
{
    let mut least = frames[start].get(stage);
    let mut i: usize = start + 1;
    assert(stage_at(frames@.subrange(start as int, start + 1), 0, stage) == least);
    while i < frames.len()
        invariant
            start < i <= frames.len(),
            is_stage_min(least as nat, frames@.subrange(start as int, i as int), stage),
        decreases frames.len() - i,
    {
        let x = frames[i].get(stage);
        proof {
            let before = frames@.subrange(start as int, i as int);
            let after = frames@.subrange(start as int, i + 1);
            let lesser = if x < least { x } else { least };
            let w = choose|j: int| 0 <= j < before.len() && #[trigger] stage_at(before, j, stage) == least;
            assert(stage_at(after, w, stage) == stage_at(before, w, stage));
            assert(stage_at(after, i - start, stage) == x);
            assert forall|j: int| 0 <= j < after.len() implies lesser <= #[trigger] stage_at(
                after,
                j,
                stage,
            ) by {
                if j < before.len() {
                    assert(stage_at(after, j, stage) == stage_at(before, j, stage));
                }
            }
        }
        if x < least {
            least = x;
        }
        i += 1;
    }
    least
}

/// The greatest time of `stage` over `frames[start..]`.
fn stage_max(frames: &Vec<FrameTimes>, start: usize, stage: Stage) -> (greatest: u128)
    requires
        start < frames.len(),
    ensures
        is_stage_max(greatest as nat, frames@.subrange(start as int, frames.len() as int), stage),
{
    let mut greatest = frames[start].get(stage);
    let mut i: usize = start + 1;
    assert(stage_at(frames@.subrange(start as int, start + 1), 0, stage) == greatest);
    while i < frames.len()
        invariant
            start < i <= frames.len(),
            is_stage_max(greatest as nat, frames@.subrange(start as int, i as int), stage),
        decreases frames.len() - i,
    {
        let x = frames[i].get(stage);
        proof {
            let before = frames@.subrange(start as int, i as int);
            let after = frames@.subrange(start as int, i + 1);
            let greater = if x > greatest { x } else { greatest };
            let w = choose|j: int|
                0 <= j < before.len() && #[trigger] stage_at(before, j, stage) == greatest;
            assert(stage_at(after, w, stage) == stage_at(before, w, stage));
            assert(stage_at(after, i - start, stage) == x);
            assert forall|j: int| 0 <= j < after.len() implies greater >= #[trigger] stage_at(
                after,
                j,
                stage,
            ) by {
                if j < before.len() {
                    assert(stage_at(after, j, stage) == stage_at(before, j, stage));
                }
            }
        }
        if x > greatest {
            greatest = x;
        }
        i += 1;
    }
    greatest
}

/// Basic frame times collector for aggregated stats: the records of a run,
/// in the order in which they were pushed.
pub struct AggregatedTimes(Vec<FrameTimes>);

impl View for AggregatedTimes {
    type V = Seq<FrameTimes>;

    closed spec fn view(&self) -> Seq<FrameTimes> {
        self.0@
    }
}

impl Default for AggregatedTimes {
    fn default() -> (agg: Self)
        ensures
            agg@ == Seq::<FrameTimes>::empty(),
    {
        AggregatedTimes(Vec::new())
    }
}

impl AggregatedTimes {
    /// Appends the record of a finished frame.
    pub fn push(&mut self, frame_times: FrameTimes)
        ensures
            final(self)@ == old(self)@.push(frame_times),
    {
        self.0.push(frame_times);
    }

    /// How many records have been pushed.
    pub fn len(&self) -> (n: usize)
        ensures
            n == self@.len(),
    {
        self.0.len()
    }

    /// The index at which the eligible records begin.
    fn first_eligible(&self, ignore_first: bool) -> (start: usize)
        ensures
            start <= self.0.len(),
            eligible(self@, ignore_first) == self.0@.subrange(start as int, self.0.len() as int),
    {
        if ignore_first && self.0.len() > 0 {
            1
        } else {
            assert(self.0@.subrange(0, self.0.len() as int) =~= self.0@);
            0
        }
    }

    /// Per-stage mean of the eligible records, rounded down to a nanosecond;
    /// all zero where no record is eligible.
    pub fn avg(&self, ignore_first: bool) -> (mean: FrameTimes)
        ensures
            eligible(self@, ignore_first).len() == 0 ==> mean == FrameTimes::zero(),
            eligible(self@, ignore_first).len() > 0 ==> forall|s: Stage| #[trigger]
                mean.stage(s) == stage_sum(eligible(self@, ignore_first), s) / eligible(
                    self@,
                    ignore_first,
                ).len(),
    {
        let start = self.first_eligible(ignore_first);
        if start >= self.0.len() {
            return FrameTimes::default();
        }
        let frame_to_buffer = stage_mean(&self.0, start, Stage::FrameToBuffer);
        let buffer_resize = stage_mean(&self.0, start, Stage::BufferResize);
        let buffer_to_tensor = stage_mean(&self.0, start, Stage::BufferToTensor);
        let forward_pass = stage_mean(&self.0, start, Stage::ForwardPass);
        let bbox_extraction = stage_mean(&self.0, start, Stage::BboxExtraction);
        let nms = stage_mean(&self.0, start, Stage::Nms);
        let tracking = stage_mean(&self.0, start, Stage::Tracking);
        let annotation = stage_mean(&self.0, start, Stage::Annotation);
        let buffer_to_frame = stage_mean(&self.0, start, Stage::BufferToFrame);
        let mean = FrameTimes {
            frame_to_buffer,
            buffer_resize,
            buffer_to_tensor,
            forward_pass,
            bbox_extraction,
            nms,
            tracking,
            annotation,
            buffer_to_frame,
        };
        proof {
            let counted = eligible(self@, ignore_first);
            assert forall|s: Stage| #[trigger] mean.stage(s) == stage_sum(counted, s) / counted.len() by {
                match s {
                    Stage::FrameToBuffer => {
                        assert(mean.stage(s) == frame_to_buffer);
                    },
                    Stage::BufferResize => {
                        assert(mean.stage(s) == buffer_resize);
                    },
                    Stage::BufferToTensor => {
                        assert(mean.stage(s) == buffer_to_tensor);
                    },
                    Stage::ForwardPass => {
                        assert(mean.stage(s) == forward_pass);
                    },
                    Stage::BboxExtraction => {
                        assert(mean.stage(s) == bbox_extraction);
                    },
                    Stage::Nms => {
                        assert(mean.stage(s) == nms);
                    },
                    Stage::Tracking => {
                        assert(mean.stage(s) == tracking);
                    },
                    Stage::Annotation => {
                        assert(mean.stage(s) == annotation);
                    },
                    Stage::BufferToFrame => {
                        assert(mean.stage(s) == buffer_to_frame);
                    },
                }
            }
        }
        mean
    }

    /// Per-stage minimum of the eligible records, each stage on its own; all
    /// zero where no record is eligible.
    pub fn min(&self, ignore_first: bool) -> (least: FrameTimes)
        ensures
            eligible(self@, ignore_first).len() == 0 ==> least == FrameTimes::zero(),
            eligible(self@, ignore_first).len() > 0 ==> forall|s: Stage|
                is_stage_min(#[trigger] least.stage(s), eligible(self@, ignore_first), s),
    {
        let start = self.first_eligible(ignore_first);
        if start >= self.0.len() {
            return FrameTimes::default();
        }
        let frame_to_buffer = stage_min(&self.0, start, Stage::FrameToBuffer);
        let buffer_resize = stage_min(&self.0, start, Stage::BufferResize);
        let buffer_to_tensor = stage_min(&self.0, start, Stage::BufferToTensor);
        let forward_pass = stage_min(&self.0, start, Stage::ForwardPass);
        let bbox_extraction = stage_min(&self.0, start, Stage::BboxExtraction);
        let nms = stage_min(&self.0, start, Stage::Nms);
        let tracking = stage_min(&self.0, start, Stage::Tracking);
        let annotation = stage_min(&self.0, start, Stage::Annotation);
        let buffer_to_frame = stage_min(&self.0, start, Stage::BufferToFrame);
        let least = FrameTimes {
            frame_to_buffer,
            buffer_resize,
            buffer_to_tensor,
            forward_pass,
            bbox_extraction,
            nms,
            tracking,
            annotation,
            buffer_to_frame,
        };
        proof {
            let counted = eligible(self@, ignore_first);
            assert forall|s: Stage| is_stage_min(#[trigger] least.stage(s), counted, s) by {
                match s {
                    Stage::FrameToBuffer => {
                        assert(least.stage(s) == frame_to_buffer);
                    },
                    Stage::BufferResize => {
                        assert(least.stage(s) == buffer_resize);
                    },
                    Stage::BufferToTensor => {
                        assert(least.stage(s) == buffer_to_tensor);
                    },
                    Stage::ForwardPass => {
                        assert(least.stage(s) == forward_pass);
                    },
                    Stage::BboxExtraction => {
                        assert(least.stage(s) == bbox_extraction);
                    },
                    Stage::Nms => {
                        assert(least.stage(s) == nms);
                    },
                    Stage::Tracking => {
                        assert(least.stage(s) == tracking);
                    },
                    Stage::Annotation => {
                        assert(least.stage(s) == annotation);
                    },
                    Stage::BufferToFrame => {
                        assert(least.stage(s) == buffer_to_frame);
                    },
                }
            }
        }
        least
    }

    /// Per-stage maximum of the eligible records, each stage on its own; all
    /// zero where no record is eligible.
    pub fn max(&self, ignore_first: bool) -> (greatest: FrameTimes)
        ensures
            eligible(self@, ignore_first).len() == 0 ==> greatest == FrameTimes::zero(),
            eligible(self@, ignore_first).len() > 0 ==> forall|s: Stage|
                is_stage_max(#[trigger] greatest.stage(s), eligible(self@, ignore_first), s),
    {
        let start = self.first_eligible(ignore_first);
        if start >= self.0.len() {
            return FrameTimes::default();
        }
        let frame_to_buffer = stage_max(&self.0, start, Stage::FrameToBuffer);
        let buffer_resize = stage_max(&self.0, start, Stage::BufferResize);
        let buffer_to_tensor = stage_max(&self.0, start, Stage::BufferToTensor);
        let forward_pass = stage_max(&self.0, start, Stage::ForwardPass);
        let bbox_extraction = stage_max(&self.0, start, Stage::BboxExtraction);
        let nms = stage_max(&self.0, start, Stage::Nms);
        let tracking = stage_max(&self.0, start, Stage::Tracking);
        let annotation = stage_max(&self.0, start, Stage::Annotation);
        let buffer_to_frame = stage_max(&self.0, start, Stage::BufferToFrame);
        let greatest = FrameTimes {
            frame_to_buffer,
            buffer_resize,
            buffer_to_tensor,
            forward_pass,
            bbox_extraction,
            nms,
            tracking,
            annotation,
            buffer_to_frame,
        };
        proof {
            let counted = eligible(self@, ignore_first);
            assert forall|s: Stage| is_stage_max(#[trigger] greatest.stage(s), counted, s) by {
                match s {
                    Stage::FrameToBuffer => {
                        assert(greatest.stage(s) == frame_to_buffer);
                    },
                    Stage::BufferResize => {
                        assert(greatest.stage(s) == buffer_resize);
                    },
                    Stage::BufferToTensor => {
                        assert(greatest.stage(s) == buffer_to_tensor);
                    },
                    Stage::ForwardPass => {
                        assert(greatest.stage(s) == forward_pass);
                    },
                    Stage::BboxExtraction => {
                        assert(greatest.stage(s) == bbox_extraction);
                    },
                    Stage::Nms => {
                        assert(greatest.stage(s) == nms);
                    },
                    Stage::Tracking => {
                        assert(greatest.stage(s) == tracking);
                    },
                    Stage::Annotation => {
                        assert(greatest.stage(s) == annotation);
                    },
                    Stage::BufferToFrame => {
                        assert(greatest.stage(s) == buffer_to_frame);
                    },
                }
            }
        }
        greatest
    }
}

} // verus!

//! What holds of a benchmark: which runs can begin, which frames they read, and
//! what is left of their times and of their memory.
use vstd::prelude::*;

use crate::benchmark::{
    calls_of, first_failure, first_too_short, frame_after_skips, frame_in_step, inlier_summary_of,
    inliers_of, inlying_walls, is_percentile, largest, nearest_rank,
    nearest_rank_covers_the_percentage, private_sizes, rank_is_percentile, run_check,
    shorter_at_a_place, size_sum, successes, sum, summary_error, value_is_a_wall, walls_of,
    working_sets, BenchmarkMode, FrameDirection, FrameSample, RunError,
    SummaryError, WorkerResult,
};
use crate::memory::ProcessMemory;
use crate::plugin::ReadMeasurement;
use crate::sorting::{is_sorted, sorted, sorted_is_sorted, Keyed};

verus! {

proof fn too_short_is_the_first(totals: Seq<i32>, required: int)
    ensures
        ({
            let at = first_too_short(totals, required);
            &&& 0 <= at <= totals.len()
            &&& forall|i: int| 0 <= i < at ==> #[trigger] totals[i] >= required
            &&& at < totals.len() ==> totals[at] < required
        }),
    decreases totals.len(),
{
    if totals.len() > 0 && totals[0] >= required {
        let rest = totals.skip(1);
        too_short_is_the_first(rest, required);
        let at = first_too_short(totals, required);
        assert forall|i: int| 0 <= i < at implies #[trigger] totals[i] >= required by {
            if i > 0 {
                assert(rest[i - 1] == totals[i]);
            }
        }
    }
}

/// A run begins exactly where there are inputs, each has as many frames as are
/// read with those that warm up, a plugin can number them, and inputs that are
/// read at the same time may be. It then reads that many.
pub proof fn run_begins_where_all_inputs_have_its_frames(
    totals: Seq<i32>,
    warmup: u32,
    frames: u32,
    mode: BenchmarkMode,
    is_concurrent: bool,
)
    ensures
        run_check(totals, warmup, frames, mode, is_concurrent) is Ok <==> {
            &&& totals.len() > 0
            &&& warmup + frames <= i32::MAX
            &&& forall|i: int| 0 <= i < totals.len() ==> #[trigger] totals[i] >= warmup + frames
            &&& mode is Parallel ==> is_concurrent
        },
        run_check(totals, warmup, frames, mode, is_concurrent) matches Ok(required) ==> required
            == warmup + frames,
        run_check(totals, warmup, frames, mode, is_concurrent) matches Err(RunError::TooFewFrames(at))
            ==> totals.len() <= usize::MAX ==> {
            &&& at < totals.len()
            &&& totals[at as int] < warmup + frames
            &&& forall|i: int| 0 <= i < at ==> #[trigger] totals[i] >= warmup + frames
        },
{
    too_short_is_the_first(totals, warmup + frames);
}

/// A forward run begins with the first frame and goes on to the next; a reverse
/// one begins with the last and goes back by one.
pub proof fn runs_go_frame_by_frame(total: u32, step: int)
    requires
        0 <= step,
        step + 1 < total,
    ensures
        frame_in_step(FrameDirection::Forward, total, 0) == 0,
        frame_in_step(FrameDirection::Reverse, total, 0) == total - 1,
        frame_in_step(FrameDirection::Forward, total, step + 1) == frame_in_step(
            FrameDirection::Forward,
            total,
            step,
        ) + 1,
        frame_in_step(FrameDirection::Reverse, total, step + 1) == frame_in_step(
            FrameDirection::Reverse,
            total,
            step,
        ) - 1,
{
}

/// Between two frames that are read lie as many as were skipped.
pub proof fn skipped_frames_lie_between(skips: Seq<u32>, k: int)
    requires
        0 <= k < skips.len(),
    ensures
        frame_after_skips(skips.take(k + 1)) - frame_after_skips(skips.take(k)) - 1 == skips[k],
        frame_after_skips(skips.take(0)) == 0,
{
    assert(skips.take(k + 1).drop_last() =~= skips.take(k));
    assert(skips.take(0) =~= seq![]);
}

/// The calls of inputs that are read one after the other: that at a place is the
/// call of the input there, with what it measured.
pub proof fn calls_are_those_of_their_inputs(measurements: Seq<ReadMeasurement>, i: int)
    requires
        measurements.len() <= usize::MAX,
        0 <= i < measurements.len(),
    ensures
        calls_of(measurements).len() == measurements.len(),
        calls_of(measurements)[i].input_index == i,
        calls_of(measurements)[i].duration == measurements[i].duration,
        calls_of(measurements)[i].bytes == measurements[i].bytes,
{
}

/// The failure that is kept is that of the first input that failed, in the order
/// in which they reported, with what it said; none is kept where none failed.
pub proof fn first_failure_is_the_first(results: Seq<WorkerResult>, frame: u32)
    ensures
        first_failure(results, frame) is None <==> forall|i: int|
            0 <= i < results.len() ==> (#[trigger] results[i]).measurement is Ok,
        first_failure(results, frame) matches Some(error) ==> error.frame == frame && exists|k: int|
            {
                &&& 0 <= k < results.len()
                &&& (#[trigger] results[k]).measurement == Err::<ReadMeasurement, String>(
                    error.message,
                )
                &&& results[k].input_index == error.input_index
                &&& forall|i: int| 0 <= i < k ==> (#[trigger] results[i]).measurement is Ok
            },
    decreases results.len(),
{
    if results.len() > 0 {
        let before = results.drop_last();
        let last = results.len() - 1;
        first_failure_is_the_first(before, frame);
        assert(results[last] == results.last());
        match first_failure(before, frame) {
            Some(error) => {
                let k = choose|k: int|
                    {
                        &&& 0 <= k < before.len()
                        &&& (#[trigger] before[k]).measurement == Err::<ReadMeasurement, String>(
                            error.message,
                        )
                        &&& before[k].input_index == error.input_index
                        &&& forall|i: int| 0 <= i < k ==> (#[trigger] before[i]).measurement is Ok
                    };
                assert forall|i: int| 0 <= i < k implies (#[trigger] results[i]).measurement is Ok by {
                    assert(before[i].measurement is Ok);
                }
                assert(results[k] == before[k]);
            },
            None => {
                assert forall|i: int| 0 <= i < last implies (#[trigger] results[i]).measurement is Ok by {
                    assert(before[i].measurement is Ok);
                }
            },
        }
    }
}

/// The calls that succeeded are as many as the inputs that did not fail, and each
/// of them is the call of such an input, with what it measured.
pub proof fn successes_are_those_that_did_not_fail(results: Seq<WorkerResult>)
    ensures
        successes(results).len() == results.filter(
            |r: WorkerResult| r.measurement is Ok,
        ).len(),
        forall|c: int|
            0 <= c < successes(results).len() ==> {
                let from = results.filter(|r: WorkerResult| r.measurement is Ok)[c];
                let call = #[trigger] successes(results)[c];
                &&& call.input_index == from.input_index
                &&& call.duration == from.measurement->Ok_0.duration
                &&& call.bytes == from.measurement->Ok_0.bytes
            },
    decreases results.len(),
{
    reveal(Seq::filter);
    if results.len() > 0 {
        let before = results.drop_last();
        successes_are_those_that_did_not_fail(before);
        let all = results.filter(|r: WorkerResult| r.measurement is Ok);
        let had = before.filter(|r: WorkerResult| r.measurement is Ok);
        assert forall|c: int| 0 <= c < successes(results).len() implies {
            let from = all[c];
            let call = #[trigger] successes(results)[c];
            &&& call.input_index == from.input_index
            &&& call.duration == from.measurement->Ok_0.duration
            &&& call.bytes == from.measurement->Ok_0.bytes
        } by {
            if c < successes(before).len() {
                assert(successes(results)[c] == successes(before)[c]);
                assert(all[c] == had[c]);
            }
        }
    }
}

/// Whether a time lies within the fences of Tukey: no further from the middle half
/// of the times than one and a half times its width.
pub open spec fn within_fences(time: int, first_quartile: int, third_quartile: int) -> bool {
    &&& 2 * (first_quartile - time) <= 3 * (third_quartile - first_quartile)
    &&& 2 * (time - third_quartile) <= 3 * (third_quartile - first_quartile)
}

/// Of some times those within the fences are kept, each as often as it occurs and
/// in their order; all others are removed.
pub proof fn inliers_lie_within_the_fences(times: Seq<u128>, first: int, third: int)
    ensures
        inliers_of(times, first, third) == times.filter(
            |t: u128| within_fences(t as int, first, third),
        ),
    decreases times.len(),
{
    reveal(Seq::filter);
    if times.len() > 0 {
        inliers_lie_within_the_fences(times.drop_last(), first, third);
    }
    assert(inliers_of(times, first, third) =~= times.filter(
        |t: u128| within_fences(t as int, first, third),
    ));
}

/// The times of a run that are kept are those within the fences of its quartiles:
/// a quarter of all times is no longer than the first and fewer are shorter, three
/// quarters are no longer than the third and fewer are shorter.
pub proof fn kept_times_lie_within_the_fences(samples: Seq<FrameSample>)
    requires
        samples.len() > 0,
    ensures
        exists|first: u128, third: u128|
            {
                &&& walls_of(samples).contains(first)
                &&& walls_of(samples).contains(third)
                &&& is_percentile(walls_of(samples), first as int, 25)
                &&& is_percentile(walls_of(samples), third as int, 75)
                &&& #[trigger] keeps_within(samples, first, third)
            },
{
    let all = walls_of(samples);
    let walls = sorted(all);
    let n = walls.len() as int;
    sorted_is_sorted(all);
    nearest_rank_covers_the_percentage(n, 25);
    nearest_rank_covers_the_percentage(n, 75);
    rank_is_percentile(all, 25);
    rank_is_percentile(all, 75);
    value_is_a_wall(all, nearest_rank(n, 25));
    value_is_a_wall(all, nearest_rank(n, 75));
    let first = walls[nearest_rank(n, 25)];
    let third = walls[nearest_rank(n, 75)];
    inliers_lie_within_the_fences(walls, first as int, third as int);
    assert(keeps_within(samples, first, third));
}

/// Whether the times of a run that are kept, from the shortest to the longest, are
/// those within the fences of two quartiles.
pub open spec fn keeps_within(samples: Seq<FrameSample>, first: u128, third: u128) -> bool {
    inlying_walls(samples) == sorted(walls_of(samples)).filter(
        |t: u128| within_fences(t as int, first as int, third as int),
    )
}

proof fn filtered_is_sorted(times: Seq<u128>, first: int, third: int)
    requires
        is_sorted(times),
    ensures
        is_sorted(inliers_of(times, first, third)),
        forall|i: int|
            0 <= i < inliers_of(times, first, third).len() ==> times.len() > 0 && (
            #[trigger] inliers_of(times, first, third)[i]) <= times[times.len() - 1],
    decreases times.len(),
{
    if times.len() > 0 {
        let before = times.drop_last();
        let last = times.len() - 1;
        assert(is_sorted(before)) by {
            assert forall|i: int, j: int| 0 <= i <= j < before.len() implies (
            #[trigger] before[i]).key() <= (#[trigger] before[j]).key() by {
                assert(times[i].key() <= times[j].key());
            }
        }
        filtered_is_sorted(before, first, third);
        let had = inliers_of(before, first, third);
        let all = inliers_of(times, first, third);
        assert forall|i: int| 0 <= i < all.len() implies (#[trigger] all[i]) <= times[last] by {
            if i < had.len() {
                assert(had[i] <= before[before.len() - 1]);
                assert(times[last - 1].key() <= times[last].key());
            }
        }
        assert forall|i: int, j: int| 0 <= i <= j < all.len() implies (#[trigger] all[i]).key() <= (
        #[trigger] all[j]).key() by {
            if j < had.len() {
                assert(had[i].key() <= had[j].key());
            } else {
                assert(all[i] <= times[last]);
            }
        }
    }
}

/// What a summary without outliers says of the times that are kept.
pub proof fn inlier_summary_is_of_the_kept_times(samples: Seq<FrameSample>)
    requires
        summary_error(samples) is None,
        inlying_walls(samples).len() > 0,
        inlying_walls(samples).len() <= usize::MAX,
        forall|i: int|
            0 <= i < inlying_walls(samples).len() ==> (#[trigger] inlying_walls(samples)[i])
                <= u64::MAX,
    ensures
        ({
            let kept = inlying_walls(samples);
            let s = inlier_summary_of(samples);
            &&& s.frames == kept.len()
            &&& s.mode == samples[0].mode
            &&& s.inputs == samples[0].calls@.len()
            &&& is_percentile(kept, s.median_ns as int, 50)
            &&& is_percentile(kept, s.p95_ns as int, 95)
            &&& forall|i: int| 0 <= i < kept.len() ==> s.min_ns <= #[trigger] kept[i] <= s.max_ns
            &&& kept.contains(s.min_ns as u128)
            &&& kept.contains(s.max_ns as u128)
            &&& sum(kept) <= u64::MAX ==> s.total_ns == sum(kept)
        }),
{
    let all = walls_of(samples);
    let walls = sorted(all);
    let n = walls.len() as int;
    let kept = inlying_walls(samples);
    let m = kept.len() as int;
    sorted_is_sorted(all);
    filtered_is_sorted(
        walls,
        walls[nearest_rank(n, 25)] as int,
        walls[nearest_rank(n, 75)] as int,
    );
    nearest_rank_covers_the_percentage(m, 50);
    nearest_rank_covers_the_percentage(m, 95);
    shorter_at_a_place(kept, nearest_rank(m, 50));
    shorter_at_a_place(kept, nearest_rank(m, 95));
    assert(kept[nearest_rank(m, 50)] <= u64::MAX && kept[nearest_rank(m, 95)] <= u64::MAX);
    assert(kept[0] <= u64::MAX && kept[m - 1] <= u64::MAX);
    assert forall|i: int| 0 <= i < kept.len() implies inlier_summary_of(samples).min_ns
        <= #[trigger] kept[i] <= inlier_summary_of(samples).max_ns by {
        assert(kept[0].key() <= kept[i].key() <= kept[m - 1].key());
    }
    let calls = samples[0].calls;
    assert(calls@.len() == calls.len());
}

/// The largest of some sizes is one of them, and none is larger.
pub proof fn largest_is_the_largest(sizes: Seq<u64>)
    ensures
        forall|i: int| 0 <= i < sizes.len() ==> #[trigger] sizes[i] <= largest(sizes),
        sizes.len() > 0 ==> sizes.contains(largest(sizes)),
    decreases sizes.len(),
{
    if sizes.len() > 0 {
        let before = sizes.drop_last();
        let last = sizes.len() - 1;
        largest_is_the_largest(before);
        assert(sizes[last] == sizes.last());
        assert forall|i: int| 0 <= i < sizes.len() implies #[trigger] sizes[i] <= largest(sizes) by {
            if i < last {
                assert(before[i] <= largest(before));
            }
        }
        if largest(sizes) != sizes.last() {
            if before.len() > 0 {
                let j = choose|j: int| 0 <= j < before.len() && before[j] == largest(before);
                assert(sizes[j] == largest(sizes));
            }
        }
    }
}

/// Sizes add up: of one size the sum is that size, and the sums of two parts make
/// that of the whole.
pub proof fn sizes_add_up(a: Seq<u64>, b: Seq<u64>)
    ensures
        size_sum(a + b) == size_sum(a) + size_sum(b),
        a.len() == 1 ==> size_sum(a) == a[0],
        a.len() == 0 ==> size_sum(a) == 0,
    decreases b.len(),
{
    if b.len() == 0 {
        assert(a + b =~= a);
    } else {
        assert((a + b).drop_last() =~= a + b.drop_last());
        sizes_add_up(a, b.drop_last());
    }
    if a.len() == 1 {
        assert(size_sum(a.drop_last()) == 0);
    }
}

/// The sizes that are summed up are those of the frames, each in its place: the
/// working sets, and beside them the private memory.
pub proof fn sizes_are_those_of_the_frames(memory: Seq<ProcessMemory>, i: int)
    requires
        0 <= i < memory.len(),
    ensures
        working_sets(memory).len() == memory.len(),
        private_sizes(memory).len() == memory.len(),
        working_sets(memory)[i] == memory[i].working_set_bytes,
        private_sizes(memory)[i] == memory[i].private_bytes,
        memory[i].working_set_bytes <= largest(working_sets(memory)),
        memory[i].private_bytes <= largest(private_sizes(memory)),
{
    largest_is_the_largest(working_sets(memory));
    largest_is_the_largest(private_sizes(memory));
    assert(working_sets(memory)[i] == memory[i].working_set_bytes);
    assert(private_sizes(memory)[i] == memory[i].private_bytes);
}

/// A run can be summed up exactly where it has frames, all of one mode and with
/// as many calls as the first, at least one, and all times and their sum can be held.
/// What stands in the way first is told of.
pub proof fn even_runs_can_be_summed_up(samples: Seq<FrameSample>)
    ensures
        summary_error(samples) is None <==> {
            &&& samples.len() > 0
            &&& samples[0].calls@.len() > 0
            &&& forall|i: int|
                0 <= i < samples.len() ==> (#[trigger] samples[i]).mode == samples[0].mode
                    && samples[i].calls@.len() == samples[0].calls@.len() && samples[i].wall
                    <= u64::MAX
            &&& sum(walls_of(samples)) <= u64::MAX
        },
        summary_error(samples) == Some(SummaryError::NoSamples) <==> samples.len() == 0,
        summary_error(samples) == Some(SummaryError::MixedModes) <==> exists|i: int|
            0 <= i < samples.len() && (#[trigger] samples[i]).mode != samples[0].mode,
        summary_error(samples) == Some(SummaryError::NoInputCalls) ==> samples[0].calls@.len() == 0,
        summary_error(samples) == Some(SummaryError::InputCountChanged) ==> exists|i: int|
            0 <= i < samples.len() && (#[trigger] samples[i]).calls@.len()
                != samples[0].calls@.len(),
        summary_error(samples) == Some(SummaryError::DurationTooLong) ==> exists|i: int|
            0 <= i < samples.len() && (#[trigger] samples[i]).wall > u64::MAX,
        summary_error(samples) == Some(SummaryError::TotalTooLong) ==> sum(walls_of(samples))
            > u64::MAX,
{
}

} // verus!

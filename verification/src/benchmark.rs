//! Measuring how fast a plugin reads frames: which frames are read, what is
//! recorded of them, and how the records are summed up.
use vstd::prelude::*;

use crate::cli::ExecutionMode;
use crate::manifest::VideoSource;
use crate::memory::ProcessMemory;
use crate::plugin::ReadMeasurement;
use crate::sorting::{
    is_sorted, place, place_is_within, sort, sorted, sorted_is_sorted, sorted_keeps_values, Keyed,
};

verus! {

/// Whether the inputs are read one after the other or at the same time.
#[derive(Debug, Clone, Copy, PartialEq, Eq, Structural)]
pub enum BenchmarkMode {
    Sequential,
    Parallel,
}

impl BenchmarkMode {
    /// The word for a mode.
    pub open spec fn word(self) -> Seq<char> {
        match self {
            BenchmarkMode::Sequential => "sequential"@,
            BenchmarkMode::Parallel => "parallel"@,
        }
    }

    /// The word for a mode.
    pub fn as_str(self) -> (res: &'static str)
        ensures
            res@ == self.word(),
    {
        match self {
            BenchmarkMode::Sequential => "sequential",
            BenchmarkMode::Parallel => "parallel",
        }
    }
}

/// The direction in which the frames of a run are read.
#[derive(Debug, Clone, Copy, PartialEq, Eq, Structural)]
pub enum FrameDirection {
    Forward,
    Reverse,
}

impl FrameDirection {
    /// The word for a direction.
    pub open spec fn word(self) -> Seq<char> {
        match self {
            FrameDirection::Forward => "forward"@,
            FrameDirection::Reverse => "reverse"@,
        }
    }

    /// The word for a direction.
    pub fn as_str(self) -> (res: &'static str)
        ensures
            res@ == self.word(),
    {
        match self {
            FrameDirection::Forward => "forward",
            FrameDirection::Reverse => "reverse",
        }
    }
}

/// The plugin does not let its inputs be read at the same time.
#[derive(Debug, Clone, Copy, PartialEq, Eq, Structural)]
pub struct NotConcurrent;

/// The modes of a benchmark. Both modes come down to the sequential one where
/// the plugin does not let its inputs be read at the same time.
pub fn modes_for_plugin(mode: ExecutionMode, is_concurrent: bool) -> (res: Result<
    Vec<BenchmarkMode>,
    NotConcurrent,
>)
    ensures
        match (mode, is_concurrent) {
            (ExecutionMode::Sequential, _) => res matches Ok(modes) && modes@
                == seq![BenchmarkMode::Sequential],
            (ExecutionMode::Parallel, true) => res matches Ok(modes) && modes@
                == seq![BenchmarkMode::Parallel],
            (ExecutionMode::Parallel, false) => res is Err,
            (ExecutionMode::Both, true) => res matches Ok(modes) && modes@
                == seq![BenchmarkMode::Sequential, BenchmarkMode::Parallel],
            (ExecutionMode::Both, false) => res matches Ok(modes) && modes@
                == seq![BenchmarkMode::Sequential],
        },
{
    match mode {
        ExecutionMode::Sequential => Ok(vec![BenchmarkMode::Sequential]),
        ExecutionMode::Parallel => {
            if is_concurrent {
                Ok(vec![BenchmarkMode::Parallel])
            } else {
                Err(NotConcurrent)
            }
        },
        ExecutionMode::Both => {
            if is_concurrent {
                Ok(vec![BenchmarkMode::Sequential, BenchmarkMode::Parallel])
            } else {
                Ok(vec![BenchmarkMode::Sequential])
            }
        },
    }
}

/// The directions of a benchmark.
pub fn directions(direction: crate::cli::FrameDirection) -> (res: Vec<FrameDirection>)
    ensures
        res@ == match direction {
            crate::cli::FrameDirection::Forward => seq![FrameDirection::Forward],
            crate::cli::FrameDirection::Reverse => seq![FrameDirection::Reverse],
            crate::cli::FrameDirection::Both => seq![
                FrameDirection::Forward,
                FrameDirection::Reverse,
            ],
        },
{
    match direction {
        crate::cli::FrameDirection::Forward => vec![FrameDirection::Forward],
        crate::cli::FrameDirection::Reverse => vec![FrameDirection::Reverse],
        crate::cli::FrameDirection::Both => vec![FrameDirection::Forward, FrameDirection::Reverse],
    }
}

/// Why a run cannot begin.
#[derive(Debug, Clone, Copy, PartialEq, Eq, Structural)]
pub enum RunError {
    NoInputs,
    FrameOverflow,
    /// More frames than a plugin can number.
    TooManyFrames,
    /// An input has fewer frames than are read.
    TooFewFrames(usize),
    NotConcurrent,
}

/// The first input that has fewer frames than are read, or the number of inputs.
pub open spec fn first_too_short(totals: Seq<i32>, required: int) -> int
    decreases totals.len(),
{
    if totals.len() == 0 || totals[0] < required {
        0
    } else {
        1 + first_too_short(totals.skip(1), required)
    }
}

/// Whether a run can begin, or why not.
pub open spec fn run_check(
    totals: Seq<i32>,
    warmup: u32,
    frames: u32,
    mode: BenchmarkMode,
    is_concurrent: bool,
) -> Result<u32, RunError> {
    let required = warmup + frames;
    let short = first_too_short(totals, required);
    if totals.len() == 0 {
        Err(RunError::NoInputs)
    } else if required > u32::MAX {
        Err(RunError::FrameOverflow)
    } else if required > i32::MAX {
        Err(RunError::TooManyFrames)
    } else if short < totals.len() {
        Err(RunError::TooFewFrames(short as usize))
    } else if mode is Parallel && !is_concurrent {
        Err(RunError::NotConcurrent)
    } else {
        Ok(required as u32)
    }
}

proof fn first_too_short_at(totals: Seq<i32>, required: int, at: int)
    requires
        0 <= at <= totals.len(),
        forall|i: int| 0 <= i < at ==> totals[i] >= required,
        at < totals.len() ==> totals[at] < required,
    ensures
        first_too_short(totals, required) == at,
    decreases at,
{
    if at > 0 {
        assert(totals[0] >= required);
        assert forall|i: int| 0 <= i < at - 1 implies totals.skip(1)[i] >= required by {
            assert(totals.skip(1)[i] == totals[i + 1]);
        }
        first_too_short_at(totals.skip(1), required, at - 1);
    }
}

/// Whether a run over inputs with so many frames can begin, and how many frames
/// it reads.
pub fn check_run(
    totals: &Vec<i32>,
    warmup: u32,
    frames: u32,
    mode: BenchmarkMode,
    is_concurrent: bool,
) -> (res: Result<u32, RunError>)
    ensures
        res == run_check(totals@, warmup, frames, mode, is_concurrent),
{
    if totals.len() == 0 {
        return Err(RunError::NoInputs);
    }
    let required: u32 = match warmup.checked_add(frames) {
        Some(required) => required,
        None => {
            return Err(RunError::FrameOverflow);
        },
    };
    if required > i32::MAX as u32 {
        return Err(RunError::TooManyFrames);
    }
    let n: usize = totals.len();
    for i in 0..n
        invariant
            n == totals.len(),
            required == warmup + frames,
            required <= i32::MAX,
            n > 0,
            forall|j: int| 0 <= j < i ==> totals[j] >= required,
    {
        if totals[i] < required as i32 {
            proof {
                first_too_short_at(totals@, required as int, i as int);
            }
            return Err(RunError::TooFewFrames(i));
        }
    }
    proof {
        first_too_short_at(totals@, required as int, n as int);
    }
    let parallel: bool = match mode {
        BenchmarkMode::Parallel => true,
        BenchmarkMode::Sequential => false,
    };
    if parallel && !is_concurrent {
        return Err(RunError::NotConcurrent);
    }
    Ok(required)
}

/// The frame that is read in a step of a run over so many frames.
pub open spec fn frame_in_step(direction: FrameDirection, total: u32, step: int) -> int {
    match direction {
        FrameDirection::Forward => step,
        FrameDirection::Reverse => total - 1 - step,
    }
}

/// The frame that is read in a step of a run: from the first to the last, or
/// from the last to the first.
pub fn frame_of_step(direction: FrameDirection, total: u32, step: u32) -> (res: u32)
    requires
        step < total,
    ensures
        res == frame_in_step(direction, total, step as int),
        res < total,
{
    match direction {
        FrameDirection::Forward => step,
        FrameDirection::Reverse => total - 1 - step,
    }
}

/// A run reads each of its frames once, in either direction.
pub proof fn run_reads_each_frame_once(direction: FrameDirection, total: u32, frame: int)
    requires
        0 <= frame < total,
    ensures
        ({
            let step = frame_in_step(direction, total, frame);
            &&& 0 <= step < total
            &&& frame_in_step(direction, total, step) == frame
            &&& forall|other: int|
                #![trigger frame_in_step(direction, total, other)]
                0 <= other < total && frame_in_step(direction, total, other) == frame ==> other
                    == step
        }),
{
}

/// The frame that is read once so many frames were read and skipped: one behind
/// the last, and behind those skipped in between.
pub open spec fn frame_after_skips(skips: Seq<u32>) -> int
    decreases skips.len(),
{
    if skips.len() == 0 {
        0
    } else {
        frame_after_skips(skips.drop_last()) + 1 + skips.last()
    }
}

/// The frame behind another, with some skipped in between. `None` where it
/// cannot be numbered.
pub fn next_frame(frame: u32, skip: u32) -> (res: Option<u32>)
    ensures
        res is Some <==> frame + 1 + skip <= u32::MAX,
        res matches Some(next) ==> next == frame + 1 + skip,
{
    match frame.checked_add(1) {
        Some(next) => next.checked_add(skip),
        None => None,
    }
}

/// A call that read a frame of an input.
#[derive(Debug, Clone, Copy, PartialEq, Eq, Structural)]
pub struct CallSample {
    pub input_index: usize,
    /// In nanoseconds.
    pub duration: u128,
    pub bytes: usize,
}

impl Keyed for CallSample {
    open spec fn key(&self) -> int {
        self.input_index as int
    }

    fn may_precede(&self, other: &CallSample) -> (res: bool) {
        self.input_index <= other.input_index
    }
}

/// A frame that was read of all inputs.
#[derive(Debug)]
pub struct FrameSample {
    pub mode: BenchmarkMode,
    pub frame: u32,
    /// The time until all inputs were read, in nanoseconds.
    pub wall: u128,
    pub calls: Vec<CallSample>,
}

/// The calls for the measurements of the inputs, in their order.
pub open spec fn calls_of(measurements: Seq<ReadMeasurement>) -> Seq<CallSample> {
    Seq::new(
        measurements.len(),
        |i: int|
            CallSample {
                input_index: i as usize,
                duration: measurements[i].duration,
                bytes: measurements[i].bytes,
            },
    )
}

/// What is recorded of a frame whose inputs were read one after the other:
/// nothing while the run warms up.
pub fn sequential_frame(
    frame: u32,
    measured: bool,
    wall: u128,
    measurements: &Vec<ReadMeasurement>,
) -> (res: Option<FrameSample>)
    ensures
        match res {
            Some(sample) => {
                &&& measured
                &&& sample.mode is Sequential
                &&& sample.frame == frame
                &&& sample.wall == wall
                &&& sample.calls@ == calls_of(measurements@)
            },
            None => !measured,
        },
{
    if !measured {
        return None;
    }
    let mut calls: Vec<CallSample> = Vec::new();
    let n: usize = measurements.len();
    for i in 0..n
        invariant
            n == measurements.len(),
            calls@ == calls_of(measurements@).take(i as int),
    {
        let m: ReadMeasurement = measurements[i];
        calls.push(CallSample { input_index: i, duration: m.duration, bytes: m.bytes });
        proof {
            assert(calls@ =~= calls_of(measurements@).take(i + 1));
        }
    }
    proof {
        assert(calls_of(measurements@).take(n as int) =~= calls_of(measurements@));
    }
    Some(FrameSample { mode: BenchmarkMode::Sequential, frame, wall, calls })
}

/// Whether a step of a run is measured: those before it warm up.
pub fn is_measured(step: u32, warmup: u32) -> (res: bool)
    ensures
        res == (step >= warmup),
{
    step >= warmup
}

/// Of the steps of a run that warms up first, as many are measured as frames
/// were asked for.
pub proof fn run_measures_its_frames(warmup: u32, frames: u32)
    ensures
        Set::new(|step: int| 0 <= step < warmup + frames && step >= warmup).len() == frames,
{
    let measured = Set::new(|step: int| 0 <= step < warmup + frames && step >= warmup);
    vstd::set_lib::lemma_int_range(warmup as int, warmup + frames);
    assert(measured =~= vstd::set_lib::set_int_range(warmup as int, warmup + frames));
}

/// What a thread that reads one input says of a frame.
#[derive(Debug)]
pub struct WorkerResult {
    pub input_index: usize,
    pub measurement: Result<ReadMeasurement, String>,
}

/// The first failure of a run whose inputs are read at the same time.
#[derive(Debug)]
pub struct WorkerError {
    pub input_index: usize,
    pub frame: u32,
    pub message: String,
}

/// The calls that succeeded, as they came.
pub open spec fn successes(results: Seq<WorkerResult>) -> Seq<CallSample>
    decreases results.len(),
{
    if results.len() == 0 {
        seq![]
    } else {
        let before = successes(results.drop_last());
        match results.last().measurement {
            Ok(m) => before.push(
                CallSample {
                    input_index: results.last().input_index,
                    duration: m.duration,
                    bytes: m.bytes,
                },
            ),
            Err(_) => before,
        }
    }
}

/// The first failure among some results.
pub open spec fn first_failure(results: Seq<WorkerResult>, frame: u32) -> Option<WorkerError>
    decreases results.len(),
{
    if results.len() == 0 {
        None
    } else {
        match first_failure(results.drop_last(), frame) {
            Some(error) => Some(error),
            None => match results.last().measurement {
                Err(message) => Some(
                    WorkerError { input_index: results.last().input_index, frame, message },
                ),
                Ok(_) => None,
            },
        }
    }
}

/// What is recorded of a frame whose inputs were read at the same time: the
/// calls in the order of the inputs, where all succeeded and the run does not
/// warm up. The first failure of the run is kept.
pub fn parallel_frame(
    frame: u32,
    measured: bool,
    wall: u128,
    results: Vec<WorkerResult>,
    input_count: usize,
    first_error: &mut Option<WorkerError>,
) -> (res: Option<FrameSample>)
    ensures
        match res {
            Some(sample) => {
                &&& measured
                &&& successes(results@).len() == input_count
                &&& sample.mode is Parallel
                &&& sample.frame == frame
                &&& sample.wall == wall
                &&& sample.calls@ == sorted(successes(results@))
            },
            None => !measured || successes(results@).len() != input_count,
        },
        *final(first_error) == match *old(first_error) {
            Some(error) => Some(error),
            None => first_failure(results@, frame),
        },
{
    let ghost all = results@;
    let ghost kept = *first_error;
    let mut calls: Vec<CallSample> = Vec::new();
    proof {
        assert(all.take(0) =~= seq![]);
    }
    for result in it: results.into_iter()
        invariant
            it.seq() == all,
            calls@ == successes(all.take(it.index())),
            *first_error == match kept {
                Some(error) => Some(error),
                None => first_failure(all.take(it.index()), frame),
            },
    {
        proof {
            assert(all.take(it.index() + 1).drop_last() =~= all.take(it.index()));
            assert(all.take(it.index() + 1).last() == result);
        }
        match result.measurement {
            Ok(m) => {
                calls.push(
                    CallSample {
                        input_index: result.input_index,
                        duration: m.duration,
                        bytes: m.bytes,
                    },
                );
            },
            Err(message) => {
                if first_error.is_none() {
                    *first_error = Some(
                        WorkerError { input_index: result.input_index, frame, message },
                    );
                }
            },
        }
    }
    proof {
        assert(all.take(all.len() as int) =~= all);
        sorted_is_sorted(calls@);
    }
    let calls: Vec<CallSample> = sort(calls);
    if measured && calls.len() == input_count {
        Some(FrameSample { mode: BenchmarkMode::Parallel, frame, wall, calls })
    } else {
        None
    }
}

/// What a run gives: its samples, unless an input failed.
pub fn finish_parallel(samples: Vec<FrameSample>, first_error: Option<WorkerError>) -> (res: Result<
    Vec<FrameSample>,
    WorkerError,
>)
    ensures
        match first_error {
            Some(error) => res == Err::<Vec<FrameSample>, WorkerError>(error),
            None => res == Ok::<Vec<FrameSample>, WorkerError>(samples),
        },
{
    match first_error {
        Some(error) => Err(error),
        None => Ok(samples),
    }
}

/// A time in nanoseconds is longer than a record can hold.
#[derive(Debug, Clone, Copy, PartialEq, Eq, Structural)]
pub struct DurationTooLong;

/// A time in nanoseconds as a record holds it.
pub fn duration_ns(nanoseconds: u128) -> (res: Result<u64, DurationTooLong>)
    ensures
        res is Ok <==> nanoseconds <= u64::MAX,
        res matches Ok(ns) ==> ns == nanoseconds,
{
    if nanoseconds > u64::MAX as u128 {
        Err(DurationTooLong)
    } else {
        Ok(nanoseconds as u64)
    }
}

/// The place among so many sorted values below or at which a percentage of
/// them lies: the nearest rank.
pub open spec fn nearest_rank(count: int, percent: int) -> int {
    let rank = (percent * count + 99) / 100;
    if rank <= 0 {
        0
    } else if rank > count {
        count - 1
    } else {
        rank - 1
    }
}

/// The value below or at which a percentage of sorted values lies.
pub fn percentile(sorted: &Vec<u128>, percent: u8) -> (res: u128)
    requires
        sorted.len() > 0,
        percent <= 100,
    ensures
        res == sorted@[nearest_rank(sorted@.len() as int, percent as int)],
{
    let n: usize = sorted.len();
    proof {
        assert(0 <= percent * n <= 100 * n) by (nonlinear_arith)
            requires
                0 <= percent <= 100,
                n >= 0,
        ;
    }
    let rank: u128 = ((percent as u128) * (n as u128) + 99) / 100;
    let place: u128 = if rank == 0 {
        0
    } else if rank > n as u128 {
        (n - 1) as u128
    } else {
        rank - 1
    };
    sorted[place as usize]
}

/// At least the given percentage of the values lies at or before the nearest
/// rank, and less than that before it.
pub proof fn nearest_rank_covers_the_percentage(count: int, percent: int)
    requires
        count > 0,
        0 < percent <= 100,
    ensures
        0 <= nearest_rank(count, percent) < count,
        (nearest_rank(count, percent) + 1) * 100 >= percent * count,
        nearest_rank(count, percent) * 100 < percent * count,
{
    assert(percent * count <= 100 * count && percent * count >= count) by (nonlinear_arith)
        requires
            0 < percent <= 100,
            count > 0,
    ;
}

/// The times of some frames.
pub open spec fn walls_of(samples: Seq<FrameSample>) -> Seq<u128> {
    samples.map_values(|s: FrameSample| s.wall)
}

/// The sum of some times.
pub open spec fn sum(times: Seq<u128>) -> nat
    decreases times.len(),
{
    if times.len() == 0 {
        0
    } else {
        sum(times.drop_last()) + times.last() as nat
    }
}

/// What a run comes to, with times in nanoseconds.
#[derive(Debug, Clone, Copy, PartialEq, Eq, Structural)]
pub struct Summary {
    pub mode: BenchmarkMode,
    pub frames: usize,
    pub inputs: usize,
    pub total_ns: u64,
    pub median_ns: u64,
    pub p95_ns: u64,
    pub min_ns: u64,
    pub max_ns: u64,
}

/// Why a run cannot be summed up.
#[derive(Debug, Clone, Copy, PartialEq, Eq, Structural)]
pub enum SummaryError {
    NoSamples,
    MixedModes,
    NoInputCalls,
    InputCountChanged,
    DurationTooLong,
    TotalTooLong,
}

/// Why some samples cannot be summed up.
pub open spec fn summary_error(samples: Seq<FrameSample>) -> Option<SummaryError> {
    if samples.len() == 0 {
        Some(SummaryError::NoSamples)
    } else if exists|i: int|
        0 <= i < samples.len() && (#[trigger] samples[i]).mode != samples[0].mode {
        Some(SummaryError::MixedModes)
    } else if samples[0].calls@.len() == 0 {
        Some(SummaryError::NoInputCalls)
    } else if exists|i: int|
        0 <= i < samples.len() && (#[trigger] samples[i]).calls@.len() != samples[0].calls@.len() {
        Some(SummaryError::InputCountChanged)
    } else if exists|i: int| 0 <= i < samples.len() && (#[trigger] samples[i]).wall > u64::MAX {
        Some(SummaryError::DurationTooLong)
    } else if sum(walls_of(samples)) > u64::MAX {
        Some(SummaryError::TotalTooLong)
    } else {
        None
    }
}

/// The summary of some samples: over the sorted times of the frames, the total,
/// the median, the 95th percentile and both ends.
pub open spec fn summary_of(samples: Seq<FrameSample>) -> Summary {
    let walls = sorted(walls_of(samples));
    let n = walls.len() as int;
    Summary {
        mode: samples[0].mode,
        frames: samples.len() as usize,
        inputs: samples[0].calls@.len() as usize,
        total_ns: sum(walls_of(samples)) as u64,
        median_ns: walls[nearest_rank(n, 50)] as u64,
        p95_ns: walls[nearest_rank(n, 95)] as u64,
        min_ns: walls[0] as u64,
        max_ns: walls[n - 1] as u64,
    }
}

/// Sums up a run.
pub fn summarize(samples: &Vec<FrameSample>) -> (res: Result<Summary, SummaryError>)
    ensures
        match res {
            Err(error) => summary_error(samples@) == Some(error),
            Ok(summary) => summary_error(samples@) is None && summary == summary_of(samples@),
        },
        res matches Ok(summary) ==> {
            &&& is_percentile(walls_of(samples@), summary.median_ns as int, 50)
            &&& is_percentile(walls_of(samples@), summary.p95_ns as int, 95)
        },
{
    let n: usize = samples.len();
    if n == 0 {
        return Err(SummaryError::NoSamples);
    }
    let mode: BenchmarkMode = samples[0].mode;
    for i in 0..n
        invariant
            n == samples.len(),
            n > 0,
            mode == samples[0].mode,
            forall|j: int| 0 <= j < i ==> (#[trigger] samples@[j]).mode == mode,
    {
        if samples[i].mode != mode {
            proof {
                assert(samples@[i as int].mode != samples@[0].mode);
            }
            return Err(SummaryError::MixedModes);
        }
    }
    let inputs: usize = samples[0].calls.len();
    if inputs == 0 {
        return Err(SummaryError::NoInputCalls);
    }
    for i in 0..n
        invariant
            n == samples.len(),
            n > 0,
            inputs == samples[0].calls@.len(),
            inputs > 0,
            forall|j: int| 0 <= j < n ==> (#[trigger] samples@[j]).mode == samples[0].mode,
            forall|j: int| 0 <= j < i ==> (#[trigger] samples@[j]).calls@.len() == inputs,
    {
        if samples[i].calls.len() != inputs {
            proof {
                assert(samples@[i as int].calls@.len() != samples@[0].calls@.len());
            }
            return Err(SummaryError::InputCountChanged);
        }
    }
    let mut walls: Vec<u128> = Vec::new();
    let mut total: u128 = 0;
    let ghost all = walls_of(samples@);
    proof {
        assert(all.take(0) =~= seq![]);
    }
    for i in 0..n
        invariant
            n == samples.len(),
            n > 0,
            all == walls_of(samples@),
            inputs == samples[0].calls@.len(),
            inputs > 0,
            forall|j: int| 0 <= j < n ==> (#[trigger] samples@[j]).mode == samples[0].mode,
            forall|j: int| 0 <= j < n ==> (#[trigger] samples@[j]).calls@.len() == inputs,
            forall|j: int| 0 <= j < i ==> (#[trigger] samples@[j]).wall <= u64::MAX,
            walls@ == all.take(i as int),
            total == sum(all.take(i as int)),
            total <= i * u64::MAX,
    {
        match duration_ns(samples[i].wall) {
            Err(_) => {
                proof {
                    assert(samples@[i as int].wall > u64::MAX);
                }
                return Err(SummaryError::DurationTooLong);
            },
            Ok(_) => {},
        }
        proof {
            assert(all.take(i + 1).drop_last() =~= all.take(i as int));
            assert(all.take(i + 1) =~= all.take(i as int).push(samples@[i as int].wall));
            assert((i + 1) * u64::MAX <= 0xffff_ffff_ffff_ffff * u64::MAX) by (nonlinear_arith)
                requires
                    i + 1 <= 0xffff_ffff_ffff_ffff,
            ;
        }
        walls.push(samples[i].wall);
        total = total + samples[i].wall;
    }
    proof {
        assert(all.take(n as int) =~= all);
    }
    if total > u64::MAX as u128 {
        return Err(SummaryError::TotalTooLong);
    }
    proof {
        sorted_is_sorted(all);
        sorted_keeps_values(all);
        assert forall|k: int| 0 <= k < all.len() implies #[trigger] sorted(all)[k] <= u64::MAX by {
            value_is_a_wall(all, k);
        }
    }
    let walls: Vec<u128> = sort(walls);
    let median: u128 = percentile(&walls, 50);
    let p95: u128 = percentile(&walls, 95);
    proof {
        summary_is_of_the_times(samples@, walls_of(samples@));
    }
    Ok(
        Summary {
            mode,
            frames: n,
            inputs,
            total_ns: total as u64,
            median_ns: median as u64,
            p95_ns: p95 as u64,
            min_ns: walls[0] as u64,
            max_ns: walls[n - 1] as u64,
        },
    )
}

pub(crate) proof fn value_is_a_wall(times: Seq<u128>, place: int)
    requires
        0 <= place < times.len(),
    ensures
        times.contains(sorted(times)[place]),
{
    broadcast use vstd::seq_lib::group_to_multiset_ensures;

    sorted_is_sorted(times);
    sorted_keeps_values(times);
    let value = sorted(times)[place];
    assert(sorted(times).contains(value));
    assert(sorted(times).to_multiset().count(value) > 0);
    assert(times.to_multiset().count(value) > 0);
}

/// The numbers of a summary stand in their order: the median and the 95th
/// percentile lie between the shortest and the longest time.
pub proof fn summary_is_ordered(samples: Seq<FrameSample>)
    requires
        summary_error(samples) is None,
    ensures
        ({
            let s = summary_of(samples);
            s.min_ns <= s.median_ns <= s.p95_ns <= s.max_ns <= s.total_ns
        }),
{
    let all = walls_of(samples);
    let walls = sorted(all);
    let n = walls.len() as int;
    sorted_is_sorted(all);
    nearest_rank_covers_the_percentage(n, 50);
    nearest_rank_covers_the_percentage(n, 95);
    assert forall|k: int| 0 <= k < all.len() implies #[trigger] walls[k] <= u64::MAX by {
        value_is_a_wall(all, k);
        let i = choose|i: int| 0 <= i < all.len() && all[i] == walls[k];
        assert(samples[i].wall == walls[k]);
    }
    assert(walls[0].key() <= walls[nearest_rank(n, 50)].key());
    assert(walls[nearest_rank(n, 50)].key() <= walls[nearest_rank(n, 95)].key());
    assert(walls[nearest_rank(n, 95)].key() <= walls[n - 1].key());
    value_is_a_wall(all, n - 1);
    let i = choose|i: int| 0 <= i < all.len() && all[i] == walls[n - 1];
    part_of_the_sum(all, i);
}

proof fn part_of_the_sum(times: Seq<u128>, at: int)
    requires
        0 <= at < times.len(),
    ensures
        times[at] <= sum(times),
    decreases times.len(),
{
    if at < times.len() - 1 {
        part_of_the_sum(times.drop_last(), at);
    }
}

/// How many of some times are shorter than a limit.
pub open spec fn shorter_than(times: Seq<u128>, limit: int) -> nat
    decreases times.len(),
{
    if times.len() == 0 {
        0
    } else {
        shorter_than(times.drop_last(), limit) + (if times.last() < limit {
            1nat
        } else {
            0nat
        })
    }
}

proof fn shorter_in_an_insert(times: Seq<u128>, at: int, time: u128, limit: int)
    requires
        0 <= at <= times.len(),
    ensures
        shorter_than(times.insert(at, time), limit) == shorter_than(times, limit) + (if time < limit {
            1nat
        } else {
            0nat
        }),
    decreases times.len(),
{
    let all = times.insert(at, time);
    if at == times.len() {
        assert(all.drop_last() =~= times);
    } else {
        assert(all.drop_last() =~= times.drop_last().insert(at, time));
        assert(all.last() == times.last());
        shorter_in_an_insert(times.drop_last(), at, time, limit);
    }
}

proof fn shorter_in_the_sorted(times: Seq<u128>, limit: int)
    ensures
        shorter_than(sorted(times), limit) == shorter_than(times, limit),
    decreases times.len(),
{
    if times.len() > 0 {
        let before = sorted(times.drop_last());
        shorter_in_the_sorted(times.drop_last(), limit);
        place_is_within(before, times.last());
        shorter_in_an_insert(before, place(before, times.last()), times.last(), limit);
    }
}

proof fn shorter_of_sorted(times: Seq<u128>, limit: int, k: int)
    requires
        is_sorted(times),
        0 <= k <= times.len(),
        forall|i: int| 0 <= i < k ==> (#[trigger] times[i]) < limit,
        forall|i: int| k <= i < times.len() ==> (#[trigger] times[i]) >= limit,
    ensures
        shorter_than(times, limit) == k,
    decreases times.len(),
{
    if times.len() > 0 {
        let before = times.drop_last();
        let last = times.len() - 1;
        assert(is_sorted(before)) by {
            assert forall|i: int, j: int| 0 <= i <= j < before.len() implies (
            #[trigger] before[i]).key() <= (#[trigger] before[j]).key() by {
                assert(times[i].key() <= times[j].key());
            }
        }
        assert(times[last] == times.last());
        if k == times.len() {
            shorter_of_sorted(before, limit, k - 1);
        } else {
            shorter_of_sorted(before, limit, k);
        }
    }
}

proof fn shorter_up_to(times: Seq<u128>, limit: int)
    ensures
        shorter_than(times, limit) <= times.len(),
    decreases times.len(),
{
    if times.len() > 0 {
        shorter_up_to(times.drop_last(), limit);
    }
}

pub(crate) proof fn shorter_at_a_place(times: Seq<u128>, k: int)
    requires
        is_sorted(times),
        0 <= k < times.len(),
    ensures
        shorter_than(times, times[k] as int) <= k,
        shorter_than(times, times[k] + 1) >= k + 1,
    decreases times.len(),
{
    let before = times.drop_last();
    let last = times.len() - 1;
    assert(is_sorted(before)) by {
        assert forall|i: int, j: int| 0 <= i <= j < before.len() implies (
        #[trigger] before[i]).key() <= (#[trigger] before[j]).key() by {
            assert(times[i].key() <= times[j].key());
        }
    }
    assert(times[k].key() <= times[last].key());
    if k < last {
        assert(before[k] == times[k]);
        shorter_at_a_place(before, k);
    } else {
        shorter_up_to(before, times[k] as int);
        if last > 0 {
            shorter_at_a_place(before, last - 1);
            assert(times[last - 1].key() <= times[last].key());
            shorter_of_all(before, times[k] + 1);
        }
    }
}

proof fn shorter_of_all(times: Seq<u128>, limit: int)
    requires
        is_sorted(times),
        times.len() > 0,
        times[times.len() - 1] < limit,
    ensures
        shorter_than(times, limit) == times.len(),
{
    assert forall|i: int| 0 <= i < times.len() implies (#[trigger] times[i]) < limit by {
        assert(times[i].key() <= times[times.len() - 1].key());
    }
    shorter_of_sorted(times, limit, times.len() as int);
}

/// Whether a time is that below or at which a percentage of some times lies: so
/// many are no longer, and fewer are shorter.
pub open spec fn is_percentile(times: Seq<u128>, time: int, percent: int) -> bool {
    &&& shorter_than(times, time + 1) * 100 >= percent * times.len()
    &&& shorter_than(times, time) * 100 < percent * times.len()
}

pub(crate) proof fn rank_is_percentile(times: Seq<u128>, percent: int)
    requires
        times.len() > 0,
        0 < percent <= 100,
    ensures
        is_percentile(
            times,
            sorted(times)[nearest_rank(times.len() as int, percent)] as int,
            percent,
        ),
{
    let walls = sorted(times);
    let n = times.len() as int;
    let k = nearest_rank(n, percent);
    sorted_is_sorted(times);
    nearest_rank_covers_the_percentage(n, percent);
    shorter_at_a_place(walls, k);
    shorter_in_the_sorted(times, walls[k] as int);
    shorter_in_the_sorted(times, walls[k] + 1);
}

/// What a summary says of the times of a run, whatever their order: half of them
/// are no longer than the median and fewer are shorter, 95 in a hundred are no
/// longer than the 95th percentile and fewer are shorter; none is shorter than
/// the shortest or longer than the longest, and both are times of the run.
pub proof fn summary_is_of_the_times(samples: Seq<FrameSample>, times: Seq<u128>)
    requires
        summary_error(samples) is None,
        times.len() == samples.len(),
        forall|i: int| 0 <= i < times.len() ==> #[trigger] times[i] == samples[i].wall,
    ensures
        ({
            let s = summary_of(samples);
            &&& is_percentile(times, s.median_ns as int, 50)
            &&& is_percentile(times, s.p95_ns as int, 95)
            &&& forall|i: int| 0 <= i < times.len() ==> s.min_ns <= #[trigger] times[i] <= s.max_ns
            &&& times.contains(s.median_ns as u128)
            &&& times.contains(s.p95_ns as u128)
            &&& times.contains(s.min_ns as u128)
            &&& times.contains(s.max_ns as u128)
        }),
{
    let walls = sorted(times);
    let n = times.len() as int;
    assert(walls_of(samples) =~= times);
    sorted_is_sorted(times);
    rank_is_percentile(times, 50);
    rank_is_percentile(times, 95);
    nearest_rank_covers_the_percentage(n, 50);
    nearest_rank_covers_the_percentage(n, 95);
    assert forall|k: int| 0 <= k < n implies #[trigger] walls[k] <= u64::MAX && times.contains(
        walls[k],
    ) by {
        value_is_a_wall(times, k);
        let i = choose|i: int| 0 <= i < times.len() && times[i] == walls[k];
        assert(samples[i].wall == walls[k]);
    }
    assert forall|i: int| 0 <= i < times.len() implies summary_of(samples).min_ns
        <= #[trigger] times[i] <= summary_of(samples).max_ns by {
        let k = place_in_the_sorted(times, i);
        assert(walls[0].key() <= walls[k].key() <= walls[n - 1].key());
    }
    assert(walls[nearest_rank(n, 50)] <= u64::MAX && walls[nearest_rank(n, 95)] <= u64::MAX);
    assert(walls[0] <= u64::MAX && walls[n - 1] <= u64::MAX);
}

proof fn place_in_the_sorted(times: Seq<u128>, i: int) -> (k: int)
    requires
        0 <= i < times.len(),
    ensures
        0 <= k < times.len(),
        sorted(times)[k] == times[i],
{
    broadcast use vstd::seq_lib::group_to_multiset_ensures;

    sorted_is_sorted(times);
    sorted_keeps_values(times);
    assert(times.contains(times[i]));
    assert(times.to_multiset().count(times[i]) > 0);
    assert(sorted(times).contains(times[i]));
    choose|k: int| 0 <= k < times.len() && sorted(times)[k] == times[i]
}

/// What a summary counts: as many frames as samples, as many inputs as each
/// sample has calls, in the mode of each sample.
pub proof fn summary_counts_the_samples(samples: Seq<FrameSample>, i: int)
    requires
        summary_error(samples) is None,
        samples.len() <= usize::MAX,
        0 <= i < samples.len(),
    ensures
        ({
            let s = summary_of(samples);
            &&& s.frames == samples.len()
            &&& s.inputs == samples[i].calls@.len()
            &&& s.inputs > 0
            &&& s.mode == samples[i].mode
        }),
{
    assert(samples[i].mode == samples[0].mode);
    assert(samples[i].calls@.len() == samples[0].calls@.len());
    let calls = samples[i].calls;
    assert(calls@.len() == calls.len());
}

/// The total is that of all times: of one sample it is its time, and the totals
/// of two runs add up.
pub proof fn totals_add_up(a: Seq<FrameSample>, b: Seq<FrameSample>)
    ensures
        sum(walls_of(a + b)) == sum(walls_of(a)) + sum(walls_of(b)),
        a.len() == 1 ==> sum(walls_of(a)) == a[0].wall,
        summary_error(a) is None ==> summary_of(a).total_ns == sum(walls_of(a)),
{
    let x = walls_of(a);
    let y = walls_of(b);
    assert(walls_of(a + b) =~= x + y);
    sum_of_both(x, y);
    if a.len() == 1 {
        assert(x.drop_last() =~= seq![]);
        assert(sum(x.drop_last()) == 0);
    }
}

proof fn sum_of_both(a: Seq<u128>, b: Seq<u128>)
    ensures
        sum(a + b) == sum(a) + sum(b),
    decreases b.len(),
{
    if b.len() == 0 {
        assert(a + b =~= a);
    } else {
        assert((a + b).drop_last() =~= a + b.drop_last());
        sum_of_both(a, b.drop_last());
    }
}

/// Samples are summed up exactly where there are some, all in one mode and with
/// one number of calls that is not zero, whose times and their total a record
/// can hold.
pub proof fn whole_runs_are_summed_up(samples: Seq<FrameSample>)
    ensures
        summary_error(samples) is None <==> {
            &&& samples.len() > 0
            &&& forall|i: int, j: int|
                0 <= i < samples.len() && 0 <= j < samples.len() ==> (
                #[trigger] samples[i]).mode == (#[trigger] samples[j]).mode
                    && samples[i].calls@.len() == samples[j].calls@.len()
            &&& forall|i: int|
                0 <= i < samples.len() ==> (#[trigger] samples[i]).calls@.len() > 0
                    && samples[i].wall <= u64::MAX
            &&& sum(walls_of(samples)) <= u64::MAX
        },
        summary_error(samples) == Some(SummaryError::NoSamples) <==> samples.len() == 0,
{
    if summary_error(samples) is None {
        assert forall|i: int, j: int| 0 <= i < samples.len() && 0 <= j < samples.len() implies (
        #[trigger] samples[i]).mode == (#[trigger] samples[j]).mode && samples[i].calls@.len()
            == samples[j].calls@.len() by {
            assert(samples[i].mode == samples[0].mode && samples[j].mode == samples[0].mode);
        }
    }
}

/// A frame that was read of all inputs, with the direction of its run and the
/// memory of the process behind it.
#[derive(Debug)]
pub struct MeasuredFrame {
    pub sample: FrameSample,
    pub direction: FrameDirection,
    pub memory: ProcessMemory,
}

/// A record of a call.
#[derive(Debug)]
pub struct CsvRow {
    pub mode: &'static str,
    pub direction: &'static str,
    pub frame: u32,
    pub input_index: usize,
    pub file: String,
    pub duration_ns: u64,
    pub bytes: usize,
    pub frame_wall_ns: u64,
    pub process_working_set_bytes: u64,
    pub process_private_bytes: u64,
}

/// A record of a call.
#[verifier::ext_equal]
pub struct RowText {
    pub mode: Seq<char>,
    pub direction: Seq<char>,
    pub frame: u32,
    pub input_index: usize,
    pub file: Seq<char>,
    pub duration_ns: u64,
    pub bytes: usize,
    pub frame_wall_ns: u64,
    pub process_working_set_bytes: u64,
    pub process_private_bytes: u64,
}

impl View for CsvRow {
    type V = RowText;

    open spec fn view(&self) -> RowText {
        RowText {
            mode: self.mode@,
            direction: self.direction@,
            frame: self.frame,
            input_index: self.input_index,
            file: self.file@,
            duration_ns: self.duration_ns,
            bytes: self.bytes,
            frame_wall_ns: self.frame_wall_ns,
            process_working_set_bytes: self.process_working_set_bytes,
            process_private_bytes: self.process_private_bytes,
        }
    }
}

/// The names of the columns of the records.
pub open spec fn column_names() -> Seq<Seq<char>> {
    seq![
        "mode"@,
        "direction"@,
        "frame"@,
        "input_index"@,
        "file"@,
        "duration_ns"@,
        "bytes"@,
        "frame_wall_ns"@,
        "process_working_set_bytes"@,
        "process_private_bytes"@,
    ]
}

/// The header of the records: the names of their columns.
pub fn csv_header() -> (res: Vec<&'static str>)
    ensures
        res@.map_values(|name: &'static str| name@) == column_names(),
{
    let mut names: Vec<&'static str> = Vec::new();
    names.push("mode");
    names.push("direction");
    names.push("frame");
    names.push("input_index");
    names.push("file");
    names.push("duration_ns");
    names.push("bytes");
    names.push("frame_wall_ns");
    names.push("process_working_set_bytes");
    names.push("process_private_bytes");
    proof {
        assert(names@.map_values(|name: &'static str| name@) =~= column_names());
    }
    names
}

/// Why a call has no record.
#[derive(Debug, Clone, Copy, PartialEq, Eq, Structural)]
pub enum CsvError {
    DurationTooLong,
    /// The call is one of an input that does not exist.
    InvalidInputIndex,
}

/// The record of a call of a frame, or why it has none.
pub open spec fn row_of(
    frame: MeasuredFrame,
    call: CallSample,
    videos: Seq<VideoSource>,
) -> Result<RowText, CsvError> {
    if call.input_index >= videos.len() {
        Err(CsvError::InvalidInputIndex)
    } else if call.duration > u64::MAX {
        Err(CsvError::DurationTooLong)
    } else {
        Ok(
            RowText {
                mode: frame.sample.mode.word(),
                direction: frame.direction.word(),
                frame: frame.sample.frame,
                input_index: call.input_index,
                file: videos[call.input_index as int].path@,
                duration_ns: call.duration as u64,
                bytes: call.bytes,
                frame_wall_ns: frame.sample.wall as u64,
                process_working_set_bytes: frame.memory.working_set_bytes,
                process_private_bytes: frame.memory.private_bytes,
            },
        )
    }
}

/// The records of some calls of a frame up to the first that has none, and why
/// that has none.
pub open spec fn call_rows(
    frame: MeasuredFrame,
    calls: Seq<CallSample>,
    videos: Seq<VideoSource>,
) -> (Seq<RowText>, Option<CsvError>)
    decreases calls.len(),
{
    if calls.len() == 0 {
        (seq![], None)
    } else {
        let before = call_rows(frame, calls.drop_last(), videos);
        if before.1 is Some {
            before
        } else {
            match row_of(frame, calls.last(), videos) {
                Ok(row) => (before.0.push(row), None),
                Err(error) => (before.0, Some(error)),
            }
        }
    }
}

/// The records of some frames up to the first call that has none, and why that
/// has none. Each call of each frame has one record, in their order.
pub open spec fn frame_rows(frames: Seq<MeasuredFrame>, videos: Seq<VideoSource>) -> (
    Seq<RowText>,
    Option<CsvError>,
)
    decreases frames.len(),
{
    if frames.len() == 0 {
        (seq![], None)
    } else {
        let before = frame_rows(frames.drop_last(), videos);
        let frame = frames.last();
        if before.1 is Some {
            before
        } else if frame.sample.wall > u64::MAX {
            (before.0, Some(CsvError::DurationTooLong))
        } else {
            let own = call_rows(frame, frame.sample.calls@, videos);
            (before.0 + own.0, own.1)
        }
    }
}

proof fn call_rows_stop(
    frame: MeasuredFrame,
    calls: Seq<CallSample>,
    videos: Seq<VideoSource>,
    count: int,
)
    requires
        0 <= count <= calls.len(),
        call_rows(frame, calls.take(count), videos).1 is Some,
    ensures
        call_rows(frame, calls, videos) == call_rows(frame, calls.take(count), videos),
    decreases calls.len(),
{
    if count == calls.len() {
        assert(calls.take(count) =~= calls);
    } else {
        assert(calls.drop_last().take(count) =~= calls.take(count));
        call_rows_stop(frame, calls.drop_last(), videos, count);
    }
}

proof fn frame_rows_stop(frames: Seq<MeasuredFrame>, videos: Seq<VideoSource>, count: int)
    requires
        0 <= count <= frames.len(),
        frame_rows(frames.take(count), videos).1 is Some,
    ensures
        frame_rows(frames, videos) == frame_rows(frames.take(count), videos),
    decreases frames.len(),
{
    if count == frames.len() {
        assert(frames.take(count) =~= frames);
    } else {
        assert(frames.drop_last().take(count) =~= frames.take(count));
        frame_rows_stop(frames.drop_last(), videos, count);
    }
}

/// The views of some records.
pub open spec fn row_views(rows: Seq<CsvRow>) -> Seq<RowText> {
    rows.map_values(|r: CsvRow| r@)
}

/// Writes the records of the calls of a frame behind others.
fn push_rows(frame: &MeasuredFrame, videos: &Vec<VideoSource>, rows: &mut Vec<CsvRow>) -> (res:
    Option<CsvError>)
    requires
        frame.sample.wall <= u64::MAX,
    ensures
        ({
            let own = call_rows(*frame, frame.sample.calls@, videos@);
            &&& row_views(final(rows)@) == row_views(old(rows)@) + own.0
            &&& res == own.1
        }),
{
    let ghost before = rows@;
    let n: usize = frame.sample.calls.len();
    let ghost calls = frame.sample.calls@;
    proof {
        assert(calls.take(0) =~= seq![]);
        assert(row_views(before) + Seq::<RowText>::empty() =~= row_views(before));
    }
    for i in 0..n
        invariant
            n == frame.sample.calls.len(),
            calls == frame.sample.calls@,
            before == old(rows)@,
            frame.sample.wall <= u64::MAX,
            call_rows(*frame, calls.take(i as int), videos@).1 is None,
            row_views(rows@) == row_views(before) + call_rows(
                *frame,
                calls.take(i as int),
                videos@,
            ).0,
    {
        let call: CallSample = frame.sample.calls[i];
        proof {
            assert(calls.take(i + 1).drop_last() =~= calls.take(i as int));
            assert(calls.take(i + 1).last() == call);
            if row_of(*frame, call, videos@) is Err {
                call_rows_stop(*frame, calls, videos@, i + 1);
            }
        }
        if call.input_index >= videos.len() {
            return Some(CsvError::InvalidInputIndex);
        }
        let duration: u64 = match duration_ns(call.duration) {
            Ok(ns) => ns,
            Err(_) => {
                return Some(CsvError::DurationTooLong);
            },
        };
        let ghost so_far = rows@;
        rows.push(
            CsvRow {
                mode: frame.sample.mode.as_str(),
                direction: frame.direction.as_str(),
                frame: frame.sample.frame,
                input_index: call.input_index,
                file: videos[call.input_index].path.clone(),
                duration_ns: duration,
                bytes: call.bytes,
                frame_wall_ns: frame.sample.wall as u64,
                process_working_set_bytes: frame.memory.working_set_bytes,
                process_private_bytes: frame.memory.private_bytes,
            },
        );
        proof {
            assert(row_views(rows@) =~= row_views(so_far).push(rows@.last()@));
            assert(row_views(rows@) =~= row_views(before) + call_rows(
                *frame,
                calls.take(i + 1),
                videos@,
            ).0);
        }
    }
    proof {
        assert(calls.take(n as int) =~= calls);
    }
    None
}

/// The records of a benchmark, up to the first call that has none, and why that
/// has none.
pub fn csv_rows(frames: &Vec<MeasuredFrame>, videos: &Vec<VideoSource>) -> (res: (
    Vec<CsvRow>,
    Option<CsvError>,
))
    ensures
        (row_views(res.0@), res.1) == frame_rows(frames@, videos@),
        forall|r: int|
            0 <= r < res.0@.len() ==> (#[trigger] res.0@[r]).input_index < videos@.len()
                && res.0@[r].file@ == videos@[res.0@[r].input_index as int].path@,
{
    let mut rows: Vec<CsvRow> = Vec::new();
    let n: usize = frames.len();
    proof {
        assert(frames@.take(0) =~= seq![]);
        assert(row_views(rows@) =~= seq![]);
    }
    for i in 0..n
        invariant
            n == frames.len(),
            (row_views(rows@), None::<CsvError>) == frame_rows(frames@.take(i as int), videos@),
    {
        proof {
            assert(frames@.take(i + 1).drop_last() =~= frames@.take(i as int));
            assert(frames@.take(i + 1).last() == frames@[i as int]);
            if frame_rows(frames@.take(i + 1), videos@).1 is Some {
                frame_rows_stop(frames@, videos@, i + 1);
            }
        }
        match duration_ns(frames[i].sample.wall) {
            Ok(_) => {},
            Err(_) => {
                proof {
                    rows_name_their_files(frames@, videos@, rows@);
                }
                return (rows, Some(CsvError::DurationTooLong));
            },
        }
        match push_rows(&frames[i], videos, &mut rows) {
            None => {},
            Some(error) => {
                proof {
                    rows_name_their_files(frames@, videos@, rows@);
                }
                return (rows, Some(error));
            },
        }
    }
    proof {
        assert(frames@.take(n as int) =~= frames@);
        rows_name_their_files(frames@, videos@, rows@);
    }
    (rows, None)
}

proof fn rows_name_their_files(
    frames: Seq<MeasuredFrame>,
    videos: Seq<VideoSource>,
    rows: Seq<CsvRow>,
)
    requires
        row_views(rows) == frame_rows(frames, videos).0,
    ensures
        forall|r: int|
            0 <= r < rows.len() ==> (#[trigger] rows[r]).input_index < videos.len()
                && rows[r].file@ == videos[rows[r].input_index as int].path@,
{
    assert forall|r: int| 0 <= r < rows.len() implies (#[trigger] rows[r]).input_index
        < videos.len() && rows[r].file@ == videos[rows[r].input_index as int].path@ by {
        every_record_is_of_a_call(frames, videos, r);
        assert(row_views(rows)[r] == rows[r]@);
    }
}

proof fn call_of_a_row(
    frame: MeasuredFrame,
    calls: Seq<CallSample>,
    videos: Seq<VideoSource>,
    r: int,
)
    requires
        0 <= r < call_rows(frame, calls, videos).0.len(),
    ensures
        r < calls.len(),
        row_of(frame, calls[r], videos) == Ok::<RowText, CsvError>(
            call_rows(frame, calls, videos).0[r],
        ),
    decreases calls.len(),
{
    if calls.len() > 0 {
        let before = call_rows(frame, calls.drop_last(), videos);
        call_rows_are_no_more(frame, calls.drop_last(), videos);
        if r < before.0.len() {
            call_of_a_row(frame, calls.drop_last(), videos, r);
        } else {
            one_record_per_call_of_a_frame(frame, calls.drop_last(), videos);
        }
    }
}

proof fn call_rows_are_no_more(frame: MeasuredFrame, calls: Seq<CallSample>, videos: Seq<VideoSource>)
    ensures
        call_rows(frame, calls, videos).0.len() <= calls.len(),
    decreases calls.len(),
{
    if calls.len() > 0 {
        call_rows_are_no_more(frame, calls.drop_last(), videos);
    }
}

/// Whether a record says what a call of a frame was: the mode, the direction and
/// the number of the frame, the input of the call and the file of that input,
/// the times of the call and of the frame, the bytes, and the memory.
pub open spec fn says(
    row: RowText,
    frame: MeasuredFrame,
    call: CallSample,
    videos: Seq<VideoSource>,
) -> bool {
    &&& row.mode == frame.sample.mode.word()
    &&& row.direction == frame.direction.word()
    &&& row.frame == frame.sample.frame
    &&& row.input_index == call.input_index
    &&& call.input_index < videos.len()
    &&& row.file == videos[row.input_index as int].path@
    &&& row.duration_ns == call.duration
    &&& row.bytes == call.bytes
    &&& row.frame_wall_ns == frame.sample.wall
    &&& row.process_working_set_bytes == frame.memory.working_set_bytes
    &&& row.process_private_bytes == frame.memory.private_bytes
}

/// Every record, whether the records stop early or not, says what some call was,
/// and names the file of the input of that call.
pub proof fn every_record_is_of_a_call(
    frames: Seq<MeasuredFrame>,
    videos: Seq<VideoSource>,
    r: int,
)
    requires
        0 <= r < frame_rows(frames, videos).0.len(),
    ensures
        ({
            let row = frame_rows(frames, videos).0[r];
            &&& row.input_index < videos.len()
            &&& row.file == videos[row.input_index as int].path@
            &&& exists|k: int, c: int|
                0 <= k < frames.len() && 0 <= c < frames[k].sample.calls@.len() && #[trigger] says(
                    row,
                    frames[k],
                    frames[k].sample.calls@[c],
                    videos,
                )
        }),
    decreases frames.len(),
{
    let row = frame_rows(frames, videos).0[r];
    if frames.len() > 0 {
        let last = frames.len() - 1;
        let before = frame_rows(frames.drop_last(), videos);
        if r < before.0.len() {
            every_record_is_of_a_call(frames.drop_last(), videos, r);
            let (k, c) = choose|k: int, c: int|
                0 <= k < frames.drop_last().len() && 0 <= c
                    < frames.drop_last()[k].sample.calls@.len() && #[trigger] says(
                    row,
                    frames.drop_last()[k],
                    frames.drop_last()[k].sample.calls@[c],
                    videos,
                );
            assert(says(row, frames[k], frames[k].sample.calls@[c], videos));
        } else {
            let c = r - before.0.len();
            call_of_a_row(frames.last(), frames.last().sample.calls@, videos, c);
            assert(says(row, frames[last], frames[last].sample.calls@[c], videos));
        }
    }
}

/// Where all calls have their record, the record of a call stands behind those of
/// all calls before it, and says what the call was.
pub proof fn each_call_has_its_record(
    frames: Seq<MeasuredFrame>,
    videos: Seq<VideoSource>,
    k: int,
    c: int,
)
    requires
        frame_rows(frames, videos).1 is None,
        0 <= k < frames.len(),
        0 <= c < frames[k].sample.calls@.len(),
    ensures
        call_count(frames.take(k)) + c < frame_rows(frames, videos).0.len(),
        says(
            frame_rows(frames, videos).0[call_count(frames.take(k)) + c],
            frames[k],
            frames[k].sample.calls@[c],
            videos,
        ),
    decreases frames.len(),
{
    let before = frames.drop_last();
    let last = frames.len() - 1;
    one_record_per_call(before, videos);
    one_record_per_call(frames, videos);
    if k < last {
        each_call_has_its_record(before, videos, k, c);
        assert(before.take(k) =~= frames.take(k));
    } else {
        assert(frames.take(k) =~= before);
        one_record_per_call_of_a_frame(frames.last(), frames.last().sample.calls@, videos);
        call_of_a_row(frames.last(), frames.last().sample.calls@, videos, c);
    }
}

/// Whether a frame and all of its calls can be recorded: their times can be held,
/// and the inputs exist.
pub open spec fn can_be_recorded(frame: MeasuredFrame, videos: Seq<VideoSource>) -> bool {
    &&& frame.sample.wall <= u64::MAX
    &&& forall|c: int|
        0 <= c < frame.sample.calls@.len() ==> (#[trigger] frame.sample.calls@[c]).input_index
            < videos.len() && frame.sample.calls@[c].duration <= u64::MAX
}

/// The records stop early exactly where a frame or one of its calls cannot be
/// recorded.
pub proof fn records_stop_for_a_reason(frames: Seq<MeasuredFrame>, videos: Seq<VideoSource>)
    ensures
        frame_rows(frames, videos).1 is None <==> forall|k: int|
            0 <= k < frames.len() ==> can_be_recorded(#[trigger] frames[k], videos),
    decreases frames.len(),
{
    if frames.len() > 0 {
        let before = frames.drop_last();
        let last = frames.len() - 1;
        records_stop_for_a_reason(before, videos);
        call_rows_stop_for_a_reason(frames.last(), frames.last().sample.calls@, videos);
        assert(frames[last] == frames.last());
        if frame_rows(frames, videos).1 is None {
            assert forall|k: int| 0 <= k < frames.len() implies can_be_recorded(
                #[trigger] frames[k],
                videos,
            ) by {
                if k < last {
                    assert(can_be_recorded(before[k], videos));
                }
            }
        }
        if forall|k: int| 0 <= k < frames.len() ==> can_be_recorded(#[trigger] frames[k], videos) {
            assert forall|k: int| 0 <= k < before.len() implies can_be_recorded(
                #[trigger] before[k],
                videos,
            ) by {
                assert(can_be_recorded(frames[k], videos));
            }
            assert(can_be_recorded(frames[last], videos));
        }
    }
}

proof fn call_rows_stop_for_a_reason(
    frame: MeasuredFrame,
    calls: Seq<CallSample>,
    videos: Seq<VideoSource>,
)
    ensures
        call_rows(frame, calls, videos).1 is None <==> forall|c: int|
            0 <= c < calls.len() ==> (#[trigger] calls[c]).input_index < videos.len()
                && calls[c].duration <= u64::MAX,
    decreases calls.len(),
{
    if calls.len() > 0 {
        let before = calls.drop_last();
        let last = calls.len() - 1;
        call_rows_stop_for_a_reason(frame, before, videos);
        assert(calls[last] == calls.last());
        if call_rows(frame, calls, videos).1 is None {
            assert forall|c: int| 0 <= c < calls.len() implies (#[trigger] calls[c]).input_index
                < videos.len() && calls[c].duration <= u64::MAX by {
                if c < last {
                    assert(before[c] == calls[c]);
                }
            }
        }
        if forall|c: int|
            0 <= c < calls.len() ==> (#[trigger] calls[c]).input_index < videos.len()
                && calls[c].duration <= u64::MAX {
            assert forall|c: int| 0 <= c < before.len() implies (#[trigger] before[c]).input_index
                < videos.len() && before[c].duration <= u64::MAX by {
                assert(before[c] == calls[c]);
            }
        }
    }
}

/// The number of calls of some frames.
pub open spec fn call_count(frames: Seq<MeasuredFrame>) -> nat
    decreases frames.len(),
{
    if frames.len() == 0 {
        0
    } else {
        call_count(frames.drop_last()) + frames.last().sample.calls@.len()
    }
}

/// Each call has one record, where all have.
pub proof fn one_record_per_call(frames: Seq<MeasuredFrame>, videos: Seq<VideoSource>)
    requires
        frame_rows(frames, videos).1 is None,
    ensures
        frame_rows(frames, videos).0.len() == call_count(frames),
    decreases frames.len(),
{
    if frames.len() > 0 {
        one_record_per_call(frames.drop_last(), videos);
        one_record_per_call_of_a_frame(frames.last(), frames.last().sample.calls@, videos);
    }
}

proof fn one_record_per_call_of_a_frame(
    frame: MeasuredFrame,
    calls: Seq<CallSample>,
    videos: Seq<VideoSource>,
)
    requires
        call_rows(frame, calls, videos).1 is None,
    ensures
        call_rows(frame, calls, videos).0.len() == calls.len(),
    decreases calls.len(),
{
    if calls.len() > 0 {
        one_record_per_call_of_a_frame(frame, calls.drop_last(), videos);
    }
}

/// The times of the frames that are no outliers by the method of Tukey: those
/// no further from the middle half than one and a half times its width. Twice
/// the bounds are compared, so that they are whole numbers.
pub open spec fn is_inlier(time: int, first_quartile: int, third_quartile: int) -> bool {
    let width = third_quartile - first_quartile;
    2 * first_quartile - 3 * width <= 2 * time <= 2 * third_quartile + 3 * width
}

/// The inliers among some times, in their order.
pub open spec fn inliers_of(times: Seq<u128>, first_quartile: int, third_quartile: int) -> Seq<u128>
    decreases times.len(),
{
    if times.len() == 0 {
        seq![]
    } else {
        let before = inliers_of(times.drop_last(), first_quartile, third_quartile);
        if is_inlier(times.last() as int, first_quartile, third_quartile) {
            before.push(times.last())
        } else {
            before
        }
    }
}

/// Removes the outliers among sorted times, and says how many they were. The
/// quartiles are those of the nearest rank.
pub fn remove_outliers(times: &Vec<u128>) -> (res: (Vec<u128>, usize))
    requires
        times.len() > 0,
        forall|i: int| 0 <= i < times.len() ==> (#[trigger] times@[i]) <= u64::MAX,
    ensures
        ({
            let n = times@.len() as int;
            let first = times@[nearest_rank(n, 25)] as int;
            let third = times@[nearest_rank(n, 75)] as int;
            &&& res.0@ == inliers_of(times@, first, third)
            &&& res.1 == times@.len() - res.0@.len()
        }),
{
    let n: usize = times.len();
    proof {
        nearest_rank_covers_the_percentage(n as int, 25);
        nearest_rank_covers_the_percentage(n as int, 75);
    }
    let first: u128 = percentile(times, 25);
    let third: u128 = percentile(times, 75);
    let a: i128 = first as i128;
    let b: i128 = third as i128;
    let width: i128 = b - a;
    let low: i128 = 2 * a - 3 * width;
    let high: i128 = 2 * b + 3 * width;
    let mut kept: Vec<u128> = Vec::new();
    proof {
        assert(times@.take(0) =~= seq![]);
    }
    for i in 0..n
        invariant
            n == times.len(),
            a == first,
            b == third,
            low == 2 * a - 3 * (b - a),
            high == 2 * b + 3 * (b - a),
            forall|i: int| 0 <= i < times.len() ==> (#[trigger] times@[i]) <= u64::MAX,
            kept@ == inliers_of(times@.take(i as int), first as int, third as int),
            kept.len() <= i,
    {
        proof {
            assert(times@.take(i + 1).drop_last() =~= times@.take(i as int));
            assert(times@[i as int] <= u64::MAX);
        }
        let twice: i128 = 2 * (times[i] as i128);
        if low <= twice && twice <= high {
            kept.push(times[i]);
        }
    }
    proof {
        assert(times@.take(n as int) =~= times@);
    }
    let removed: usize = n - kept.len();
    (kept, removed)
}

proof fn sum_of_a_push(times: Seq<u128>, time: u128)
    ensures
        sum(times.push(time)) == sum(times) + time as nat,
{
    assert(times.push(time).drop_last() =~= times);
}

proof fn sum_of_an_insert(times: Seq<u128>, at: int, time: u128)
    requires
        0 <= at <= times.len(),
    ensures
        sum(times.insert(at, time)) == sum(times) + time as nat,
    decreases times.len(),
{
    if at == times.len() {
        assert(times.insert(at, time) =~= times.push(time));
        sum_of_a_push(times, time);
    } else {
        sum_of_an_insert(times.drop_last(), at, time);
        assert(times.insert(at, time).drop_last() =~= times.drop_last().insert(at, time));
    }
}

proof fn sum_of_the_sorted(times: Seq<u128>)
    ensures
        sum(sorted(times)) == sum(times),
    decreases times.len(),
{
    if times.len() > 0 {
        let before = sorted(times.drop_last());
        sum_of_the_sorted(times.drop_last());
        place_is_within(before, times.last());
        sum_of_an_insert(before, place(before, times.last()), times.last());
    }
}

proof fn inliers_are_some(times: Seq<u128>, first_quartile: int, third_quartile: int)
    ensures
        inliers_of(times, first_quartile, third_quartile).len() <= times.len(),
        sum(inliers_of(times, first_quartile, third_quartile)) <= sum(times),
        forall|i: int|
            0 <= i < inliers_of(times, first_quartile, third_quartile).len() ==> times.contains(
                #[trigger] inliers_of(times, first_quartile, third_quartile)[i],
            ),
    decreases times.len(),
{
    if times.len() > 0 {
        let before = inliers_of(times.drop_last(), first_quartile, third_quartile);
        let all = inliers_of(times, first_quartile, third_quartile);
        inliers_are_some(times.drop_last(), first_quartile, third_quartile);
        if is_inlier(times.last() as int, first_quartile, third_quartile) {
            sum_of_a_push(before, times.last());
        }
        assert forall|i: int| 0 <= i < all.len() implies times.contains(#[trigger] all[i]) by {
            if i < before.len() {
                assert(times.drop_last().contains(before[i]));
                let j = choose|j: int|
                    0 <= j < times.drop_last().len() && times.drop_last()[j] == before[i];
                assert(times[j] == all[i]);
            } else {
                assert(times[times.len() - 1] == all[i]);
            }
        }
    }
}

proof fn an_inlier_is_kept(times: Seq<u128>, first_quartile: int, third_quartile: int, at: int)
    requires
        0 <= at < times.len(),
        is_inlier(times[at] as int, first_quartile, third_quartile),
    ensures
        inliers_of(times, first_quartile, third_quartile).len() > 0,
    decreases times.len(),
{
    if at < times.len() - 1 {
        an_inlier_is_kept(times.drop_last(), first_quartile, third_quartile, at);
    }
}

/// The times of a run that are no outliers, in the order of their length.
pub open spec fn inlying_walls(samples: Seq<FrameSample>) -> Seq<u128> {
    let walls = sorted(walls_of(samples));
    let n = walls.len() as int;
    inliers_of(walls, walls[nearest_rank(n, 25)] as int, walls[nearest_rank(n, 75)] as int)
}

/// The summary of a run without its outliers.
pub open spec fn inlier_summary_of(samples: Seq<FrameSample>) -> Summary {
    let walls = inlying_walls(samples);
    let n = walls.len() as int;
    Summary {
        mode: samples[0].mode,
        frames: n as usize,
        inputs: samples[0].calls@.len() as usize,
        total_ns: sum(walls) as u64,
        median_ns: walls[nearest_rank(n, 50)] as u64,
        p95_ns: walls[nearest_rank(n, 95)] as u64,
        min_ns: walls[0] as u64,
        max_ns: walls[n - 1] as u64,
    }
}

/// Sums up a run without its outliers, and says how many they were.
pub fn summarize_inliers(samples: &Vec<FrameSample>) -> (res: Result<
    (Summary, usize),
    SummaryError,
>)
    ensures
        match res {
            Err(error) => summary_error(samples@) == Some(error),
            Ok((summary, removed)) => {
                &&& summary_error(samples@) is None
                &&& inlying_walls(samples@).len() > 0
                &&& summary == inlier_summary_of(samples@)
                &&& removed == samples@.len() - inlying_walls(samples@).len()
            },
        },
{
    let whole: Summary = match summarize(samples) {
        Ok(summary) => summary,
        Err(error) => {
            return Err(error);
        },
    };
    let ghost all = walls_of(samples@);
    let n: usize = samples.len();
    let mut walls: Vec<u128> = Vec::new();
    for i in 0..n
        invariant
            n == samples.len(),
            all == walls_of(samples@),
            walls@ == all.take(i as int),
    {
        proof {
            assert(all.take(i + 1) =~= all.take(i as int).push(samples@[i as int].wall));
        }
        walls.push(samples[i].wall);
    }
    proof {
        assert(all.take(n as int) =~= all);
    }
    let walls: Vec<u128> = sort(walls);
    proof {
        sorted_is_sorted(all);
        sum_of_the_sorted(all);
        nearest_rank_covers_the_percentage(n as int, 25);
        nearest_rank_covers_the_percentage(n as int, 75);
        assert forall|k: int| 0 <= k < walls.len() implies #[trigger] walls@[k] <= u64::MAX by {
            value_is_a_wall(all, k);
            let i = choose|i: int| 0 <= i < all.len() && all[i] == walls@[k];
            assert(samples@[i].wall == walls@[k]);
        }
        let first = walls@[nearest_rank(n as int, 25)] as int;
        let third = walls@[nearest_rank(n as int, 75)] as int;
        assert(walls@[nearest_rank(n as int, 25)].key() <= walls@[nearest_rank(
            n as int,
            75,
        )].key());
        an_inlier_is_kept(walls@, first, third, nearest_rank(n as int, 25));
        inliers_are_some(walls@, first, third);
    }
    let (kept, removed) = remove_outliers(&walls);
    let m: usize = kept.len();
    let mut total: u128 = 0;
    proof {
        assert(kept@.take(0) =~= seq![]);
    }
    for i in 0..m
        invariant
            m == kept.len(),
            total == sum(kept@.take(i as int)),
            sum(kept@) <= u64::MAX,
    {
        proof {
            assert(kept@.take(i + 1).drop_last() =~= kept@.take(i as int));
            sum_of_a_prefix(kept@, i + 1);
        }
        total = total + kept[i];
    }
    proof {
        assert(kept@.take(m as int) =~= kept@);
    }
    let median: u128 = percentile(&kept, 50);
    let p95: u128 = percentile(&kept, 95);
    Ok(
        (
            Summary {
                mode: whole.mode,
                frames: m,
                inputs: whole.inputs,
                total_ns: total as u64,
                median_ns: median as u64,
                p95_ns: p95 as u64,
                min_ns: kept[0] as u64,
                max_ns: kept[m - 1] as u64,
            },
            removed,
        ),
    )
}

proof fn sum_of_a_prefix(times: Seq<u128>, count: int)
    requires
        0 <= count <= times.len(),
    ensures
        sum(times.take(count)) <= sum(times),
    decreases times.len(),
{
    if count == times.len() {
        assert(times.take(count) =~= times);
    } else {
        sum_of_a_prefix(times.drop_last(), count);
        assert(times.drop_last().take(count) =~= times.take(count));
    }
}

/// The average and the largest memory of some frames.
#[derive(Debug, Clone, Copy, PartialEq, Eq, Structural)]
pub struct MemorySummary {
    pub average: ProcessMemory,
    pub maximum: ProcessMemory,
}

/// The sum of some sizes.
pub open spec fn size_sum(sizes: Seq<u64>) -> nat
    decreases sizes.len(),
{
    if sizes.len() == 0 {
        0
    } else {
        size_sum(sizes.drop_last()) + sizes.last() as nat
    }
}

/// The largest of some sizes.
pub open spec fn largest(sizes: Seq<u64>) -> u64
    decreases sizes.len(),
{
    if sizes.len() == 0 {
        0
    } else if sizes.last() > largest(sizes.drop_last()) {
        sizes.last()
    } else {
        largest(sizes.drop_last())
    }
}

/// The working sets of some frames.
pub open spec fn working_sets(memory: Seq<ProcessMemory>) -> Seq<u64> {
    memory.map_values(|m: ProcessMemory| m.working_set_bytes)
}

/// The private memory of some frames.
pub open spec fn private_sizes(memory: Seq<ProcessMemory>) -> Seq<u64> {
    memory.map_values(|m: ProcessMemory| m.private_bytes)
}

/// The average, rounded down, and the largest memory of some frames, no frame
/// left out. `None` where there are no frames.
pub fn summarize_memory(memory: &Vec<ProcessMemory>) -> (res: Option<MemorySummary>)
    ensures
        match res {
            None => memory@.len() == 0,
            Some(summary) => {
                let n = memory@.len() as int;
                &&& n > 0
                &&& summary.average.working_set_bytes == size_sum(working_sets(memory@)) as int / n
                &&& summary.average.private_bytes == size_sum(private_sizes(memory@)) as int / n
                &&& summary.maximum.working_set_bytes == largest(working_sets(memory@))
                &&& summary.maximum.private_bytes == largest(private_sizes(memory@))
            },
        },
{
    let n: usize = memory.len();
    if n == 0 {
        return None;
    }
    let ghost sets = working_sets(memory@);
    let ghost sizes = private_sizes(memory@);
    let mut set_total: u128 = 0;
    let mut private_total: u128 = 0;
    let mut set_max: u64 = 0;
    let mut private_max: u64 = 0;
    proof {
        assert(sets.take(0) =~= seq![]);
        assert(sizes.take(0) =~= seq![]);
    }
    for i in 0..n
        invariant
            n == memory.len(),
            sets == working_sets(memory@),
            sizes == private_sizes(memory@),
            set_total == size_sum(sets.take(i as int)),
            private_total == size_sum(sizes.take(i as int)),
            set_max == largest(sets.take(i as int)),
            private_max == largest(sizes.take(i as int)),
            set_total <= i * u64::MAX,
            private_total <= i * u64::MAX,
    {
        let m: ProcessMemory = memory[i];
        proof {
            assert(sets.take(i + 1).drop_last() =~= sets.take(i as int));
            assert(sizes.take(i + 1).drop_last() =~= sizes.take(i as int));
            assert(sets.take(i + 1).last() == m.working_set_bytes);
            assert(sizes.take(i + 1).last() == m.private_bytes);
            assert((i + 1) * u64::MAX <= 0xffff_ffff_ffff_ffff * u64::MAX) by (nonlinear_arith)
                requires
                    i + 1 <= 0xffff_ffff_ffff_ffff,
            ;
        }
        set_total = set_total + m.working_set_bytes as u128;
        private_total = private_total + m.private_bytes as u128;
        if m.working_set_bytes > set_max {
            set_max = m.working_set_bytes;
        }
        if m.private_bytes > private_max {
            private_max = m.private_bytes;
        }
    }
    proof {
        assert(sets.take(n as int) =~= sets);
        assert(sizes.take(n as int) =~= sizes);
        assert(set_total as int / n as int <= u64::MAX && private_total as int / n as int
            <= u64::MAX) by (nonlinear_arith)
            requires
                n > 0,
                0 <= set_total <= n * u64::MAX,
                0 <= private_total <= n * u64::MAX,
        ;
    }
    let average: ProcessMemory = ProcessMemory {
        working_set_bytes: (set_total / n as u128) as u64,
        private_bytes: (private_total / n as u128) as u64,
    };
    let maximum: ProcessMemory = ProcessMemory {
        working_set_bytes: set_max,
        private_bytes: private_max,
    };
    Some(MemorySummary { average, maximum })
}

} // verus!

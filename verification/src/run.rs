//! A run of the benchmark as a whole: which frames are read, which of them are
//! recorded, and what becomes of a failure.
use vstd::prelude::*;

use crate::benchmark::{
    calls_of, finish_parallel, first_failure, frame_after_skips, frame_in_step, frame_of_step,
    is_measured, next_frame, parallel_frame, sequential_frame, successes, BenchmarkMode,
    CallSample, FrameDirection, FrameSample, WorkerError, WorkerResult,
};
use crate::benchmark_laws::first_failure_is_the_first;
use crate::plugin::ReadMeasurement;
use crate::sorting::{
    holds_key, sorted, sorted_is_sorted, sorted_keeps_values, sorted_keys_are_places, Keyed,
};

verus! {

/// How many frames are skipped, from a number that was drawn: each count between
/// both ends comes up.
pub fn skip_of(drawn: u64, least: u32, most: u32) -> (res: u32)
    requires
        least <= most,
    ensures
        res == least + drawn % ((most - least + 1) as u64),
        least <= res <= most,
{
    let spread: u64 = (most - least) as u64 + 1;
    let more: u64 = drawn % spread;
    least + more as u32
}

/// The frames of a run that skips some between two that it reads.
pub open spec fn order_of(direction: FrameDirection, skips: Seq<u32>) -> Seq<int> {
    let total = (skips.len() + 1) as u32;
    Seq::new(
        skips.len() + 1,
        |step: int| frame_after_skips(skips.take(frame_in_step(direction, total, step))),
    )
}

proof fn frames_grow(skips: Seq<u32>, count: int)
    requires
        0 <= count <= skips.len(),
    ensures
        count <= frame_after_skips(skips.take(count)) <= frame_after_skips(skips),
    decreases skips.len(),
{
    if count < skips.len() {
        frames_grow(skips.drop_last(), count);
        assert(skips.drop_last().take(count) =~= skips.take(count));
    } else {
        assert(skips.take(count) =~= skips);
        if count > 0 {
            frames_grow(skips.drop_last(), count - 1);
            assert(skips.drop_last().take(count - 1) =~= skips.drop_last());
        }
    }
}

/// The frames of a run that skips some between two that it reads, from the
/// first to the last or from the last to the first. `None` where one cannot be
/// numbered.
pub fn frame_order(direction: FrameDirection, skips: &Vec<u32>) -> (res: Option<Vec<u32>>)
    requires
        skips@.len() < u32::MAX,
    ensures
        res is Some <==> frame_after_skips(skips@) <= u32::MAX,
        res matches Some(order) ==> order@.map_values(|frame: u32| frame as int) == order_of(
            direction,
            skips@,
        ),
{
    let n: usize = skips.len();
    let mut forward: Vec<u32> = Vec::new();
    let mut frame: u32 = 0;
    forward.push(frame);
    proof {
        assert(skips@.take(0) =~= seq![]);
    }
    for i in 0..n
        invariant
            n == skips.len(),
            forward.len() == i + 1,
            frame == frame_after_skips(skips@.take(i as int)),
            forall|j: int|
                0 <= j <= i ==> (#[trigger] forward@[j]) == frame_after_skips(skips@.take(j)),
    {
        proof {
            assert(skips@.take(i + 1).drop_last() =~= skips@.take(i as int));
            frames_grow(skips@, i + 1);
        }
        match next_frame(frame, skips[i]) {
            Some(next) => {
                frame = next;
            },
            None => {
                return None;
            },
        }
        forward.push(frame);
    }
    proof {
        assert(skips@.take(n as int) =~= skips@);
    }
    let total: u32 = n as u32 + 1;
    let mut order: Vec<u32> = Vec::new();
    for step in 0..total
        invariant
            total == n + 1,
            n == skips.len(),
            forward.len() == n + 1,
            order.len() == step,
            forall|j: int|
                0 <= j <= n ==> (#[trigger] forward@[j]) == frame_after_skips(skips@.take(j)),
            forall|j: int|
                0 <= j < step ==> (#[trigger] order@[j]) == order_of(direction, skips@)[j],
    {
        let place: u32 = frame_of_step(direction, total, step);
        order.push(forward[place as usize]);
    }
    proof {
        assert(order@.map_values(|frame: u32| frame as int) =~= order_of(direction, skips@));
    }
    Some(order)
}

/// Without skips the frames of a run are those from the first on, without a gap.
pub proof fn order_without_skips(direction: FrameDirection, skips: Seq<u32>, step: int)
    requires
        skips.len() < u32::MAX,
        forall|i: int| 0 <= i < skips.len() ==> (#[trigger] skips[i]) == 0,
        0 <= step <= skips.len(),
    ensures
        order_of(direction, skips)[step] == frame_in_step(
            direction,
            (skips.len() + 1) as u32,
            step,
        ),
{
    no_skips_no_gaps(skips.take(frame_in_step(direction, (skips.len() + 1) as u32, step)));
}

proof fn no_skips_no_gaps(skips: Seq<u32>)
    requires
        forall|i: int| 0 <= i < skips.len() ==> (#[trigger] skips[i]) == 0,
    ensures
        frame_after_skips(skips) == skips.len(),
    decreases skips.len(),
{
    if skips.len() > 0 {
        assert(skips[skips.len() - 1] == 0);
        assert forall|i: int| 0 <= i < skips.drop_last().len() implies (
        #[trigger] skips.drop_last()[i]) == 0 by {
            assert(skips[i] == 0);
        }
        no_skips_no_gaps(skips.drop_last());
    }
}

/// A frame as it is recorded.
#[verifier::ext_equal]
pub struct FrameRecord {
    pub mode: BenchmarkMode,
    pub frame: u32,
    pub wall: u128,
    pub calls: Seq<CallSample>,
}

/// A frame as it is recorded.
pub open spec fn record_of(sample: FrameSample) -> FrameRecord {
    FrameRecord {
        mode: sample.mode,
        frame: sample.frame,
        wall: sample.wall,
        calls: sample.calls@,
    }
}

/// Some frames as they are recorded.
pub open spec fn records_of(samples: Seq<FrameSample>) -> Seq<FrameRecord> {
    samples.map_values(|s: FrameSample| record_of(s))
}

/// What came of one step of a run whose inputs are read one after the other.
pub struct SequentialReport {
    pub wall: u128,
    pub measurements: Seq<ReadMeasurement>,
}

/// What came of one step of a run whose inputs are read at the same time.
pub struct ParallelReport {
    pub wall: u128,
    pub results: Seq<WorkerResult>,
}

/// What a run records whose inputs are read one after the other: every step
/// behind those that warm up.
pub open spec fn sequential_records(
    frames: Seq<u32>,
    warmup: u32,
    reports: Seq<SequentialReport>,
) -> Seq<FrameRecord>
    decreases reports.len(),
{
    if reports.len() == 0 {
        seq![]
    } else {
        let before = sequential_records(frames, warmup, reports.drop_last());
        let step = reports.len() - 1;
        if step >= warmup {
            before.push(
                FrameRecord {
                    mode: BenchmarkMode::Sequential,
                    frame: frames[step],
                    wall: reports.last().wall,
                    calls: calls_of(reports.last().measurements),
                },
            )
        } else {
            before
        }
    }
}

/// What a run records whose inputs are read at the same time: every step behind
/// those that warm up in which all inputs were read.
pub open spec fn parallel_records(
    frames: Seq<u32>,
    warmup: u32,
    input_count: usize,
    reports: Seq<ParallelReport>,
) -> Seq<FrameRecord>
    decreases reports.len(),
{
    if reports.len() == 0 {
        seq![]
    } else {
        let before = parallel_records(frames, warmup, input_count, reports.drop_last());
        let step = reports.len() - 1;
        let calls = successes(reports.last().results);
        if step >= warmup && calls.len() == input_count {
            before.push(
                FrameRecord {
                    mode: BenchmarkMode::Parallel,
                    frame: frames[step],
                    wall: reports.last().wall,
                    calls: sorted(calls),
                },
            )
        } else {
            before
        }
    }
}

/// The first failure of a run, in the order in which it came.
pub open spec fn run_failure(frames: Seq<u32>, reports: Seq<ParallelReport>) -> Option<WorkerError>
    decreases reports.len(),
{
    if reports.len() == 0 {
        None
    } else {
        match run_failure(frames, reports.drop_last()) {
            Some(error) => Some(error),
            None => first_failure(reports.last().results, frames[reports.len() - 1]),
        }
    }
}

/// A run whose inputs are read one after the other.
pub struct SequentialRun {
    frames: Vec<u32>,
    warmup: u32,
    step: u32,
    samples: Vec<FrameSample>,
    seen: Ghost<Seq<SequentialReport>>,
}

impl SequentialRun {
    /// The frames that are read, in their order.
    pub closed spec fn order(self) -> Seq<u32> {
        self.frames@
    }

    /// The steps that are not recorded.
    pub closed spec fn warm(self) -> u32 {
        self.warmup
    }

    /// What came of the steps so far.
    pub closed spec fn reports(self) -> Seq<SequentialReport> {
        self.seen@
    }

    /// The records are those of the steps so far.
    pub closed spec fn wf(self) -> bool {
        &&& self.frames@.len() <= u32::MAX
        &&& self.step == self.seen@.len()
        &&& self.step <= self.frames@.len()
        &&& records_of(self.samples@) == sequential_records(
            self.frames@,
            self.warmup,
            self.seen@,
        )
    }

    /// Begins a run over some frames, of which the first warm up.
    pub fn new(frames: Vec<u32>, warmup: u32) -> (res: SequentialRun)
        requires
            frames@.len() <= u32::MAX,
        ensures
            res.wf(),
            res.order() == frames@,
            res.warm() == warmup,
            res.reports().len() == 0,
    {
        let res: SequentialRun = SequentialRun {
            frames,
            warmup,
            step: 0,
            samples: Vec::new(),
            seen: Ghost(Seq::empty()),
        };
        proof {
            assert(records_of(res.samples@) =~= seq![]);
        }
        res
    }

    /// The frame in turn, until all were read.
    pub fn next_frame(&self) -> (res: Option<u32>)
        requires
            self.wf(),
        ensures
            res == (if self.reports().len() < self.order().len() {
                Some(self.order()[self.reports().len() as int])
            } else {
                None
            }),
    {
        if (self.step as usize) < self.frames.len() {
            Some(self.frames[self.step as usize])
        } else {
            None
        }
    }

    /// Takes what came of the frame in turn, and says whether it is recorded.
    pub fn report(&mut self, wall: u128, measurements: &Vec<ReadMeasurement>) -> (res: bool)
        requires
            old(self).wf(),
            old(self).reports().len() < old(self).order().len(),
        ensures
            final(self).wf(),
            final(self).order() == old(self).order(),
            final(self).warm() == old(self).warm(),
            final(self).reports() == old(self).reports().push(
                SequentialReport { wall, measurements: measurements@ },
            ),
            res == (old(self).reports().len() >= old(self).warm()),
    {
        let ghost before = self.samples@;
        let ghost after = self.seen@.push(
            SequentialReport { wall, measurements: measurements@ },
        );
        proof {
            assert(after.drop_last() =~= self.seen@);
        }
        let frame: u32 = self.frames[self.step as usize];
        let measured: bool = is_measured(self.step, self.warmup);
        match sequential_frame(frame, measured, wall, measurements) {
            Some(sample) => {
                self.samples.push(sample);
                proof {
                    assert(records_of(self.samples@) =~= records_of(before).push(
                        record_of(sample),
                    ));
                }
            },
            None => {},
        }
        self.step = self.step + 1;
        self.seen = Ghost(after);
        measured
    }

    /// What the run has recorded.
    pub fn finish(self) -> (res: Vec<FrameSample>)
        requires
            self.wf(),
        ensures
            records_of(res@) == sequential_records(self.order(), self.warm(), self.reports()),
    {
        self.samples
    }
}

/// A run whose inputs are read at the same time.
pub struct ParallelRun {
    frames: Vec<u32>,
    warmup: u32,
    input_count: usize,
    step: u32,
    samples: Vec<FrameSample>,
    first_error: Option<WorkerError>,
    seen: Ghost<Seq<ParallelReport>>,
}

impl ParallelRun {
    /// The frames that are read, in their order.
    pub closed spec fn order(self) -> Seq<u32> {
        self.frames@
    }

    /// The steps that are not recorded.
    pub closed spec fn warm(self) -> u32 {
        self.warmup
    }

    /// The number of inputs.
    pub closed spec fn inputs(self) -> usize {
        self.input_count
    }

    /// What came of the steps so far.
    pub closed spec fn reports(self) -> Seq<ParallelReport> {
        self.seen@
    }

    /// The records and the failure are those of the steps so far.
    pub closed spec fn wf(self) -> bool {
        &&& self.frames@.len() <= u32::MAX
        &&& self.step == self.seen@.len()
        &&& self.step <= self.frames@.len()
        &&& records_of(self.samples@) == parallel_records(
            self.frames@,
            self.warmup,
            self.input_count,
            self.seen@,
        )
        &&& self.first_error == run_failure(self.frames@, self.seen@)
    }

    /// Begins a run of some inputs over some frames, of which the first warm up.
    pub fn new(frames: Vec<u32>, warmup: u32, input_count: usize) -> (res: ParallelRun)
        requires
            frames@.len() <= u32::MAX,
        ensures
            res.wf(),
            res.order() == frames@,
            res.warm() == warmup,
            res.inputs() == input_count,
            res.reports().len() == 0,
    {
        let res: ParallelRun = ParallelRun {
            frames,
            warmup,
            input_count,
            step: 0,
            samples: Vec::new(),
            first_error: None,
            seen: Ghost(Seq::empty()),
        };
        proof {
            assert(records_of(res.samples@) =~= seq![]);
        }
        res
    }

    /// The frame in turn, until all were read.
    pub fn next_frame(&self) -> (res: Option<u32>)
        requires
            self.wf(),
        ensures
            res == (if self.reports().len() < self.order().len() {
                Some(self.order()[self.reports().len() as int])
            } else {
                None
            }),
    {
        if (self.step as usize) < self.frames.len() {
            Some(self.frames[self.step as usize])
        } else {
            None
        }
    }

    /// Takes what the inputs said of the frame in turn, as it came, and says
    /// whether the frame is recorded.
    pub fn report(&mut self, wall: u128, results: Vec<WorkerResult>) -> (res: bool)
        requires
            old(self).wf(),
            old(self).reports().len() < old(self).order().len(),
        ensures
            final(self).wf(),
            final(self).order() == old(self).order(),
            final(self).warm() == old(self).warm(),
            final(self).inputs() == old(self).inputs(),
            final(self).reports() == old(self).reports().push(
                ParallelReport { wall, results: results@ },
            ),
            res == (old(self).reports().len() >= old(self).warm() && successes(results@).len()
                == old(self).inputs()),
    {
        let ghost before = self.samples@;
        let ghost after = self.seen@.push(ParallelReport { wall, results: results@ });
        proof {
            assert(after.drop_last() =~= self.seen@);
        }
        let frame: u32 = self.frames[self.step as usize];
        let measured: bool = is_measured(self.step, self.warmup);
        let sample: Option<FrameSample> = parallel_frame(
            frame,
            measured,
            wall,
            results,
            self.input_count,
            &mut self.first_error,
        );
        self.step = self.step + 1;
        self.seen = Ghost(after);
        match sample {
            Some(sample) => {
                self.samples.push(sample);
                proof {
                    assert(records_of(self.samples@) =~= records_of(before).push(
                        record_of(sample),
                    ));
                }
                true
            },
            None => false,
        }
    }

    /// What the run has recorded, unless an input failed.
    pub fn finish(self) -> (res: Result<Vec<FrameSample>, WorkerError>)
        requires
            self.wf(),
        ensures
            match run_failure(self.order(), self.reports()) {
                Some(error) => res == Err::<Vec<FrameSample>, WorkerError>(error),
                None => res matches Ok(samples) && records_of(samples@) == parallel_records(
                    self.order(),
                    self.warm(),
                    self.inputs(),
                    self.reports(),
                ),
            },
    {
        finish_parallel(self.samples, self.first_error)
    }
}

/// The reads of one frame from each of some inputs, in their order.
pub open spec fn reads_of_frame(frame: u32, inputs: usize) -> Seq<(i32, usize)> {
    Seq::new(inputs as nat, |input: int| (frame as i32, input as usize))
}

/// The reads that verify some frames, in the given order and each from every
/// input, up to the first frame that no plugin can be asked for; and whether
/// there was none.
pub open spec fn verification_of(frames: Seq<u32>, inputs: usize) -> (Seq<(i32, usize)>, bool)
    decreases frames.len(),
{
    if frames.len() == 0 {
        (seq![], true)
    } else {
        let before = verification_of(frames.drop_last(), inputs);
        if !before.1 || frames.last() > i32::MAX {
            (before.0, false)
        } else {
            (before.0 + reads_of_frame(frames.last(), inputs), true)
        }
    }
}

/// The reads that verify some frames, in the given order and each from every
/// input, up to the first frame above the range of the plugins; and whether all
/// frames lie within it.
pub fn verify_reads(frames: &Vec<u32>, inputs: usize) -> (res: (Vec<(i32, usize)>, bool))
    ensures
        (res.0@, res.1) == verification_of(frames@, inputs),
{
    let mut reads: Vec<(i32, usize)> = Vec::new();
    let n: usize = frames.len();
    let mut i: usize = 0;
    proof {
        assert(frames@.take(0) =~= seq![]);
    }
    while i < n
        invariant
            n == frames.len(),
            i <= n,
            verification_of(frames@.take(i as int), inputs) == (reads@, true),
        decreases n - i,
    {
        let frame: u32 = frames[i];
        let ghost part = frames@.take(i + 1);
        proof {
            assert(part.drop_last() =~= frames@.take(i as int));
            assert(part.last() == frame);
        }
        if frame > i32::MAX as u32 {
            proof {
                verification_stops(frames@, i + 1, inputs);
            }
            return (reads, false);
        }
        let ghost before = reads@;
        for input in 0..inputs
            invariant
                frame <= i32::MAX,
                reads@ == before + reads_of_frame(frame, inputs).take(input as int),
        {
            reads.push((frame as i32, input));
            proof {
                assert(reads@ =~= before + reads_of_frame(frame, inputs).take(input + 1));
            }
        }
        proof {
            assert(reads_of_frame(frame, inputs).take(inputs as int) =~= reads_of_frame(
                frame,
                inputs,
            ));
        }
        i = i + 1;
    }
    proof {
        assert(frames@.take(n as int) =~= frames@);
    }
    (reads, true)
}

proof fn verification_stops(frames: Seq<u32>, at: int, inputs: usize)
    requires
        0 <= at <= frames.len(),
        !verification_of(frames.take(at), inputs).1,
    ensures
        verification_of(frames, inputs) == verification_of(frames.take(at), inputs),
    decreases frames.len() - at,
{
    if at == frames.len() {
        assert(frames.take(at) =~= frames);
    } else {
        let longer = frames.take(at + 1);
        assert(longer.drop_last() =~= frames.take(at));
        verification_stops(frames, at + 1, inputs);
    }
}

/// Frames within the range of the plugins are all verified: each in its turn,
/// from each input in its turn.
pub proof fn verification_keeps_the_order(frames: Seq<u32>, inputs: usize)
    requires
        forall|k: int| 0 <= k < frames.len() ==> #[trigger] frames[k] <= i32::MAX,
    ensures
        verification_of(frames, inputs).1,
        verification_of(frames, inputs).0.len() == frames.len() * inputs,
        forall|k: int, input: int|
            0 <= k < frames.len() && 0 <= input < inputs ==> #[trigger] verification_of(
                frames,
                inputs,
            ).0[k * inputs + input] == (frames[k] as i32, input as usize),
    decreases frames.len(),
{
    if frames.len() > 0 {
        let before = frames.drop_last();
        let last = before.len() as int;
        assert forall|k: int| 0 <= k < before.len() implies #[trigger] before[k] <= i32::MAX by {
            assert(frames[k] <= i32::MAX);
        }
        verification_keeps_the_order(before, inputs);
        assert(frames[last] <= i32::MAX);
        let had = verification_of(before, inputs).0;
        let all = verification_of(frames, inputs).0;
        assert(frames.len() * inputs == last * inputs + inputs) by (nonlinear_arith)
            requires
                frames.len() == last + 1,
        ;
        assert forall|k: int, input: int|
            0 <= k < frames.len() && 0 <= input < inputs implies #[trigger] verification_of(
            frames,
            inputs,
        ).0[k * inputs + input] == (frames[k] as i32, input as usize) by {
            if k < last {
                assert(0 <= k * inputs + input < last * inputs) by (nonlinear_arith)
                    requires
                        0 <= k < last,
                        0 <= input < inputs,
                ;
                assert(had[k * inputs + input] == (before[k] as i32, input as usize));
            }
        }
    } else {
        assert(frames.len() * inputs == 0) by (nonlinear_arith)
            requires
                frames.len() == 0,
        ;
    }
}

/// The call of an input that was read.
pub open spec fn call_of(result: WorkerResult) -> Option<CallSample> {
    match result.measurement {
        Ok(m) => Some(
            CallSample { input_index: result.input_index, duration: m.duration, bytes: m.bytes },
        ),
        Err(_) => None,
    }
}

/// Whether an input is one of those that reported.
pub open spec fn has_reported(results: Seq<WorkerResult>, input: int) -> bool {
    exists|i: int| 0 <= i < results.len() && (#[trigger] results[i]).input_index == input
}

/// Whether each of some inputs reported, once.
pub open spec fn each_input_reported(results: Seq<WorkerResult>, input_count: usize) -> bool {
    &&& results.len() == input_count
    &&& forall|input: int| 0 <= input < input_count ==> #[trigger] has_reported(results, input)
}

/// Whether a call is that of a report.
pub open spec fn is_reported(results: Seq<WorkerResult>, call: CallSample) -> bool {
    exists|i: int| 0 <= i < results.len() && call_of(#[trigger] results[i]) == Some(call)
}

proof fn failure_free_results_succeed(results: Seq<WorkerResult>, frame: u32)
    requires
        first_failure(results, frame) is None,
    ensures
        successes(results).len() == results.len(),
        forall|i: int|
            0 <= i < results.len() ==> call_of(results[i]) == Some(
                #[trigger] successes(results)[i],
            ),
    decreases results.len(),
{
    if results.len() > 0 {
        let before = results.drop_last();
        failure_free_results_succeed(before, frame);
        assert forall|i: int| 0 <= i < results.len() implies call_of(results[i]) == Some(
            #[trigger] successes(results)[i],
        ) by {
            if i < before.len() {
                assert(call_of(before[i]) == Some(successes(before)[i]));
            }
        }
    }
}

proof fn calls_stand_at_their_input(
    results: Seq<WorkerResult>,
    frame: u32,
    input_count: usize,
    input: int,
)
    requires
        first_failure(results, frame) is None,
        each_input_reported(results, input_count),
        0 <= input < input_count,
    ensures
        sorted(successes(results))[input].input_index == input,
        is_reported(results, sorted(successes(results))[input]),
{
    broadcast use vstd::seq_lib::group_to_multiset_ensures;

    let calls = successes(results);
    failure_free_results_succeed(results, frame);
    assert forall|key: int| 0 <= key < calls.len() implies holds_key(calls, key) by {
        assert(has_reported(results, key));
        let i = choose|i: int| 0 <= i < results.len() && (#[trigger] results[i]).input_index == key;
        assert(call_of(results[i]) == Some(calls[i]));
        assert(calls[i].key() == key);
    }
    sorted_is_sorted(calls);
    sorted_keys_are_places(calls);
    sorted_keeps_values(calls);
    let call = sorted(calls)[input];
    assert(call.key() == input);
    assert(sorted(calls).contains(call));
    assert(sorted(calls).to_multiset().count(call) > 0);
    assert(calls.contains(call));
    let i = choose|i: int| 0 <= i < calls.len() && calls[i] == call;
    assert(call_of(results[i]) == Some(calls[i]));
}

/// A run that is over and did not fail has recorded each frame behind those that
/// warm up, in the order in which they were read, with the time that it took and
/// the calls of all of its inputs; where each input reported, each call stands at
/// the place of its input.
pub proof fn whole_run_is_recorded(
    frames: Seq<u32>,
    warmup: u32,
    input_count: usize,
    reports: Seq<ParallelReport>,
)
    requires
        reports.len() <= frames.len(),
        forall|i: int|
            0 <= i < reports.len() ==> (#[trigger] reports[i]).results.len() == input_count,
        run_failure(frames, reports) is None,
    ensures
        ({
            let records = parallel_records(frames, warmup, input_count, reports);
            &&& records.len() == (if reports.len() > warmup {
                reports.len() - warmup
            } else {
                0
            })
            &&& forall|i: int|
                0 <= i < records.len() ==> (#[trigger] records[i]).mode is Parallel
                    && records[i].frame == frames[warmup + i] && records[i].wall == reports[warmup
                    + i].wall && records[i].calls.len() == input_count
            &&& forall|i: int, input: int|
                0 <= i < records.len() && 0 <= input < input_count && each_input_reported(
                    reports[warmup + i].results,
                    input_count,
                ) ==> (#[trigger] records[i].calls[input]).input_index == input && is_reported(
                    reports[warmup + i].results,
                    records[i].calls[input],
                )
        }),
    decreases reports.len(),
{
    if reports.len() > 0 {
        let before = reports.drop_last();
        assert forall|i: int| 0 <= i < before.len() implies (#[trigger] before[i]).results.len()
            == input_count by {
            assert(reports[i].results.len() == input_count);
        }
        whole_run_is_recorded(frames, warmup, input_count, before);
        let step = reports.len() - 1;
        let last = reports.last();
        assert(reports[step].results.len() == input_count);
        failure_free_results_succeed(last.results, frames[step]);
        sorted_is_sorted(successes(last.results));
        let earlier = parallel_records(frames, warmup, input_count, before);
        let records = parallel_records(frames, warmup, input_count, reports);
        assert forall|i: int, input: int|
            0 <= i < records.len() && 0 <= input < input_count && each_input_reported(
                reports[warmup + i].results,
                input_count,
            ) implies (#[trigger] records[i].calls[input]).input_index == input && is_reported(
            reports[warmup + i].results,
            records[i].calls[input],
        ) by {
            if i < earlier.len() {
                assert(records[i] == earlier[i]);
                assert(earlier[i].calls[input].input_index == input);
                assert(before[warmup + i] == reports[warmup + i]);
            } else {
                calls_stand_at_their_input(last.results, frames[step], input_count, input);
            }
        }
    }
}

/// A run whose inputs are read one after the other has recorded each frame
/// behind those that warm up, in the order in which they were read, with the
/// time that it took and its calls.
pub proof fn whole_sequence_is_recorded(
    frames: Seq<u32>,
    warmup: u32,
    reports: Seq<SequentialReport>,
)
    requires
        reports.len() <= frames.len(),
    ensures
        ({
            let records = sequential_records(frames, warmup, reports);
            &&& records.len() == (if reports.len() > warmup {
                reports.len() - warmup
            } else {
                0
            })
            &&& forall|i: int|
                0 <= i < records.len() ==> (#[trigger] records[i]).mode is Sequential
                    && records[i].frame == frames[warmup + i] && records[i].wall == reports[warmup
                    + i].wall && records[i].calls == calls_of(reports[warmup + i].measurements)
        }),
    decreases reports.len(),
{
    if reports.len() > 0 {
        whole_sequence_is_recorded(frames, warmup, reports.drop_last());
    }
}

/// A forward run begins with the first frame; between two frames that it reads lie
/// as many as it skips there. The reverse run reads the same frames in
/// the opposite order.
pub proof fn order_skips_what_it_is_told(skips: Seq<u32>, step: int)
    requires
        skips.len() < u32::MAX,
        0 <= step < skips.len(),
    ensures
        ({
            let forward = order_of(FrameDirection::Forward, skips);
            let reverse = order_of(FrameDirection::Reverse, skips);
            &&& forward.len() == skips.len() + 1
            &&& reverse.len() == skips.len() + 1
            &&& forward[0] == 0
            &&& forward[step + 1] - forward[step] - 1 == skips[step]
            &&& reverse[step] == forward[skips.len() - step]
            &&& reverse[skips.len() as int] == forward[0]
        }),
{
    assert(skips.take(0) =~= seq![]);
    assert(skips.take(step + 1).drop_last() =~= skips.take(step));
}

/// The frames that are verified are those before the first that no plugin can be
/// asked for.
pub proof fn verification_ends_at_the_first_frame_beyond(frames: Seq<u32>, inputs: usize, at: int)
    requires
        0 <= at < frames.len(),
        forall|k: int| 0 <= k < at ==> #[trigger] frames[k] <= i32::MAX,
        frames[at] > i32::MAX,
    ensures
        !verification_of(frames, inputs).1,
        verification_of(frames, inputs).0.len() == at * inputs,
        forall|k: int, input: int|
            0 <= k < at && 0 <= input < inputs ==> #[trigger] verification_of(
                frames,
                inputs,
            ).0[k * inputs + input] == (frames[k] as i32, input as usize),
{
    let part = frames.take(at + 1);
    assert(part.drop_last() =~= frames.take(at));
    assert(part.last() == frames[at]);
    assert forall|k: int| 0 <= k < at implies #[trigger] frames.take(at)[k] <= i32::MAX by {
        assert(frames[k] <= i32::MAX);
    }
    verification_keeps_the_order(frames.take(at), inputs);
    verification_stops(frames, at + 1, inputs);
    assert forall|k: int, input: int|
        0 <= k < at && 0 <= input < inputs implies #[trigger] verification_of(
        frames,
        inputs,
    ).0[k * inputs + input] == (frames[k] as i32, input as usize) by {
        assert(verification_of(frames.take(at), inputs).0[k * inputs + input] == (
            frames.take(at)[k] as i32,
            input as usize,
        ));
    }
}

/// Whether all inputs of a step were read.
pub open spec fn all_were_read(report: ParallelReport) -> bool {
    forall|k: int|
        0 <= k < report.results.len() ==> (#[trigger] report.results[k]).measurement is Ok
}

/// Whether a failure is the first of a run: that of the input at a place, in the
/// order in which they reported, in the first step in which one failed, with the
/// frame of that step and what the input said.
pub open spec fn is_first_failure(
    frames: Seq<u32>,
    reports: Seq<ParallelReport>,
    error: WorkerError,
    step: int,
    place: int,
) -> bool {
    &&& 0 <= step < reports.len()
    &&& forall|i: int| 0 <= i < step ==> all_were_read(#[trigger] reports[i])
    &&& 0 <= place < reports[step].results.len()
    &&& forall|i: int|
        0 <= i < place ==> (#[trigger] reports[step].results[i]).measurement is Ok
    &&& error.frame == frames[step]
    &&& error.input_index == reports[step].results[place].input_index
    &&& reports[step].results[place].measurement == Err::<ReadMeasurement, String>(error.message)
}

/// A run fails exactly where an input failed in some step, and with the first
/// failure of all.
pub proof fn run_fails_with_its_first_failure(frames: Seq<u32>, reports: Seq<ParallelReport>)
    ensures
        run_failure(frames, reports) is None <==> forall|i: int|
            0 <= i < reports.len() ==> all_were_read(#[trigger] reports[i]),
        run_failure(frames, reports) matches Some(error) ==> exists|step: int, place: int|
            is_first_failure(frames, reports, error, step, place),
    decreases reports.len(),
{
    if reports.len() > 0 {
        let before = reports.drop_last();
        let last = reports.len() - 1;
        run_fails_with_its_first_failure(frames, before);
        first_failure_is_the_first(reports.last().results, frames[last]);
        assert(reports[last] == reports.last());
        assert forall|i: int| 0 <= i < last implies #[trigger] reports[i] == before[i] by {}
        match run_failure(frames, before) {
            Some(error) => {
                let (step, place) = choose|step: int, place: int|
                    is_first_failure(frames, before, error, step, place);
                assert(is_first_failure(frames, reports, error, step, place)) by {
                    assert(reports[step] == before[step]);
                    assert forall|i: int| 0 <= i < step implies all_were_read(
                        #[trigger] reports[i],
                    ) by {
                        assert(all_were_read(before[i]));
                    }
                }
                assert(!(forall|i: int| 0 <= i < before.len() ==> all_were_read(#[trigger] before[i])));
                let i = choose|i: int| 0 <= i < before.len() && !all_were_read(#[trigger] before[i]);
                assert(!all_were_read(reports[i]));
            },
            None => {
                assert forall|i: int| 0 <= i < last implies all_were_read(#[trigger] reports[i]) by {
                    assert(all_were_read(before[i]));
                }
                match first_failure(reports.last().results, frames[last]) {
                    Some(error) => {
                        let results = reports.last().results;
                        let place = choose|k: int|
                            {
                                &&& 0 <= k < results.len()
                                &&& (#[trigger] results[k]).measurement == Err::<
                                    ReadMeasurement,
                                    String,
                                >(error.message)
                                &&& results[k].input_index == error.input_index
                                &&& forall|i: int|
                                    0 <= i < k ==> (#[trigger] results[i]).measurement is Ok
                            };
                        assert(is_first_failure(frames, reports, error, last, place));
                        assert(!all_were_read(reports[last]));
                    },
                    None => {},
                }
            },
        }
    }
}

} // verus!

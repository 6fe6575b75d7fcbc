use ffmpeg_aui2::benchmark::{BenchmarkMode, FrameDirection, WorkerResult};
use ffmpeg_aui2::plugin::ReadMeasurement;
use ffmpeg_aui2::run::{frame_order, skip_of, verify_reads, ParallelRun, SequentialRun};

fn read(duration: u128) -> ReadMeasurement {
    ReadMeasurement { duration, bytes: 4 }
}

fn success(input_index: usize, duration: u128) -> WorkerResult {
    WorkerResult { input_index, measurement: Ok(read(duration)) }
}

fn failure(input_index: usize, message: &str) -> WorkerResult {
    WorkerResult { input_index, measurement: Err(message.to_string()) }
}

#[test]
fn skips_lie_between_their_ends() {
    assert_eq!(skip_of(0, 2, 4), 2);
    assert_eq!(skip_of(5, 2, 4), 4);
    assert_eq!(skip_of(u64::MAX, 7, 7), 7);
    assert_eq!(skip_of(u32::MAX as u64, 0, u32::MAX), u32::MAX);
}

#[test]
fn orders_go_either_way() {
    assert_eq!(frame_order(FrameDirection::Forward, &vec![]), Some(vec![0]));
    assert_eq!(frame_order(FrameDirection::Forward, &vec![0, 0, 0]), Some(vec![0, 1, 2, 3]));
    assert_eq!(frame_order(FrameDirection::Reverse, &vec![0, 0, 0]), Some(vec![3, 2, 1, 0]));
    assert_eq!(frame_order(FrameDirection::Forward, &vec![2, 0, 1]), Some(vec![0, 3, 4, 6]));
    assert_eq!(frame_order(FrameDirection::Reverse, &vec![2, 0, 1]), Some(vec![6, 4, 3, 0]));
    assert_eq!(
        frame_order(FrameDirection::Forward, &vec![u32::MAX - 1]),
        Some(vec![0, u32::MAX])
    );
    assert_eq!(frame_order(FrameDirection::Forward, &vec![u32::MAX - 1, 0]), None);
}

#[test]
fn sequences_are_recorded_whole() {
    let mut run = SequentialRun::new(vec![3, 2, 1, 0], 1);
    let mut seen = Vec::new();
    let mut recorded = Vec::new();
    while let Some(frame) = run.next_frame() {
        seen.push(frame);
        recorded.push(run.report(frame as u128 * 10, &vec![read(1), read(2)]));
    }
    assert_eq!(seen, vec![3, 2, 1, 0]);
    assert_eq!(recorded, vec![false, true, true, true]);
    let samples = run.finish();
    let frames: Vec<u32> = samples.iter().map(|sample| sample.frame).collect();
    assert_eq!(frames, vec![2, 1, 0]);
    assert!(samples.iter().all(|sample| sample.mode == BenchmarkMode::Sequential));
    assert_eq!(samples[0].wall, 20);
    assert_eq!((samples[0].calls[1].input_index, samples[0].calls[1].duration), (1, 2));
}

#[test]
fn runs_at_the_same_time_are_recorded_whole() {
    let mut run = ParallelRun::new(vec![0, 1, 2], 1, 2);
    let mut recorded = Vec::new();
    while let Some(frame) = run.next_frame() {
        recorded.push(run.report(frame as u128, vec![success(1, 7), success(0, 8)]));
    }
    assert_eq!(recorded, vec![false, true, true]);
    let samples = run.finish().unwrap();
    let frames: Vec<u32> = samples.iter().map(|sample| sample.frame).collect();
    assert_eq!(frames, vec![1, 2]);
    let inputs: Vec<usize> = samples[0].calls.iter().map(|call| call.input_index).collect();
    assert_eq!(inputs, vec![0, 1]);
    let durations: Vec<u128> = samples[1].calls.iter().map(|call| call.duration).collect();
    assert_eq!(durations, vec![8, 7]);
    assert!(samples.iter().all(|sample| sample.mode == BenchmarkMode::Parallel));
    assert_eq!((samples[0].wall, samples[1].wall), (1, 2));
}

#[test]
fn the_first_failure_of_a_run_is_kept() {
    let mut run = ParallelRun::new(vec![5, 6, 7], 0, 2);
    assert!(run.report(1, vec![success(0, 1), success(1, 1)]));
    assert!(!run.report(1, vec![success(0, 1), failure(1, "late")]));
    assert!(!run.report(1, vec![failure(0, "later"), success(1, 1)]));
    assert_eq!(run.next_frame(), None);
    let error = run.finish().unwrap_err();
    assert_eq!((error.input_index, error.frame, error.message.as_str()), (1, 6, "late"));
}

#[test]
fn frames_are_verified_in_their_order() {
    assert_eq!(verify_reads(&vec![], 2), (vec![], true));
    assert_eq!(verify_reads(&vec![7, 3], 0), (vec![], true));
    assert_eq!(
        verify_reads(&vec![7, 3, 7], 2),
        (vec![(7, 0), (7, 1), (3, 0), (3, 1), (7, 0), (7, 1)], true)
    );
    assert_eq!(
        verify_reads(&vec![i32::MAX as u32, i32::MAX as u32 + 1, 0], 1),
        (vec![(i32::MAX, 0)], false)
    );
}

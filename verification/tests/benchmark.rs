use ffmpeg_aui2::benchmark::{
    check_run, csv_header, csv_rows, directions, duration_ns, finish_parallel, frame_of_step, is_measured,
    modes_for_plugin, next_frame, parallel_frame, percentile, remove_outliers, sequential_frame,
    summarize, summarize_inliers, summarize_memory, BenchmarkMode, CallSample, CsvError, FrameDirection, FrameSample,
    MeasuredFrame, RunError, SummaryError, WorkerResult,
};
use ffmpeg_aui2::cli::ExecutionMode;
use ffmpeg_aui2::manifest::VideoSource;
use ffmpeg_aui2::memory::{process_memory, ProcessMemory};
use ffmpeg_aui2::plugin::ReadMeasurement;

fn sample(mode: BenchmarkMode, milliseconds: u64) -> FrameSample {
    FrameSample {
        mode,
        frame: 0,
        wall: std::time::Duration::from_millis(milliseconds).as_nanos(),
        calls: vec![CallSample {
            input_index: 0,
            duration: std::time::Duration::from_millis(milliseconds).as_nanos(),
            bytes: 4,
        }],
    }
}

fn millis(nanoseconds: u64) -> f64 {
    nanoseconds as f64 / 1_000_000.0
}

#[test]
fn summary_reports_nearest_rank_percentiles() {
    let samples = [1, 2, 3, 4, 100]
        .into_iter()
        .map(|milliseconds| sample(BenchmarkMode::Sequential, milliseconds))
        .collect::<Vec<_>>();

    let summary = summarize(&samples).unwrap();

    assert_eq!(millis(summary.median_ns), 3.0);
    assert_eq!(millis(summary.p95_ns), 100.0);
    assert_eq!(millis(summary.min_ns), 1.0);
    assert_eq!(millis(summary.max_ns), 100.0);
}

#[test]
fn mixed_modes_are_rejected() {
    let samples = vec![
        sample(BenchmarkMode::Sequential, 1),
        sample(BenchmarkMode::Parallel, 1),
    ];

    assert!(summarize(&samples).is_err());
}

#[test]
fn both_skips_parallel_for_non_concurrent_plugins() {
    assert_eq!(
        modes_for_plugin(ExecutionMode::Both, false).unwrap(),
        vec![BenchmarkMode::Sequential]
    );
    assert!(modes_for_plugin(ExecutionMode::Parallel, false).is_err());
}

#[test]
fn summaries_name_what_is_wrong() {
    assert_eq!(summarize(&Vec::new()), Err(SummaryError::NoSamples));
    let mixed = vec![
        sample(BenchmarkMode::Sequential, 1),
        sample(BenchmarkMode::Parallel, 1),
    ];
    assert_eq!(summarize(&mixed), Err(SummaryError::MixedModes));
    let mut empty = vec![sample(BenchmarkMode::Parallel, 1)];
    empty[0].calls.clear();
    assert_eq!(summarize(&empty), Err(SummaryError::NoInputCalls));
    let mut changed = vec![
        sample(BenchmarkMode::Parallel, 1),
        sample(BenchmarkMode::Parallel, 1),
    ];
    changed[1].calls.clear();
    assert_eq!(summarize(&changed), Err(SummaryError::InputCountChanged));
    let mut long = vec![sample(BenchmarkMode::Parallel, 1)];
    long[0].wall = u64::MAX as u128 + 1;
    assert_eq!(summarize(&long), Err(SummaryError::DurationTooLong));
    let mut total = vec![
        sample(BenchmarkMode::Parallel, 1),
        sample(BenchmarkMode::Parallel, 1),
    ];
    total[0].wall = u64::MAX as u128;
    assert_eq!(summarize(&total), Err(SummaryError::TotalTooLong));
    total.pop();
    assert_eq!(summarize(&total).unwrap().total_ns, u64::MAX);
}

#[test]
fn summaries_are_exact() {
    let samples = [5, 1, 3]
        .into_iter()
        .map(|ms| sample(BenchmarkMode::Parallel, ms))
        .collect::<Vec<_>>();
    let summary = summarize(&samples).unwrap();
    assert_eq!(summary.mode, BenchmarkMode::Parallel);
    assert_eq!(summary.frames, 3);
    assert_eq!(summary.inputs, 1);
    assert_eq!(summary.total_ns, 9_000_000);
    assert_eq!(summary.median_ns, 3_000_000);
    assert_eq!(summary.p95_ns, 5_000_000);
    assert_eq!(summary.min_ns, 1_000_000);
    assert_eq!(summary.max_ns, 5_000_000);
}

#[test]
fn percentiles_agree_with_rounded_products() {
    for count in 1usize..600 {
        let values: Vec<u128> = (0..count as u128).collect();
        for (percent, quantile) in [(50u8, 0.50f64), (95, 0.95), (25, 0.25), (75, 0.75)] {
            let rank = (quantile * count as f64).ceil() as usize;
            let place = rank.saturating_sub(1).min(count - 1);
            assert_eq!(percentile(&values, percent), place as u128);
        }
    }
    assert_eq!(percentile(&vec![7, 8], 0), 7);
    assert_eq!(percentile(&vec![7, 8], 100), 8);
}

#[test]
fn modes_and_directions() {
    assert_eq!(
        modes_for_plugin(ExecutionMode::Both, true).unwrap(),
        vec![BenchmarkMode::Sequential, BenchmarkMode::Parallel]
    );
    assert_eq!(
        modes_for_plugin(ExecutionMode::Parallel, true).unwrap(),
        vec![BenchmarkMode::Parallel]
    );
    assert_eq!(
        modes_for_plugin(ExecutionMode::Sequential, true).unwrap(),
        vec![BenchmarkMode::Sequential]
    );
    assert_eq!(
        directions(ffmpeg_aui2::cli::FrameDirection::Forward),
        vec![FrameDirection::Forward]
    );
    assert_eq!(
        directions(ffmpeg_aui2::cli::FrameDirection::Reverse),
        vec![FrameDirection::Reverse]
    );
    assert_eq!(
        directions(ffmpeg_aui2::cli::FrameDirection::Both),
        vec![FrameDirection::Forward, FrameDirection::Reverse]
    );
    assert_eq!(BenchmarkMode::Sequential.as_str(), "sequential");
    assert_eq!(BenchmarkMode::Parallel.as_str(), "parallel");
    assert_eq!(FrameDirection::Forward.as_str(), "forward");
    assert_eq!(FrameDirection::Reverse.as_str(), "reverse");
}

#[test]
fn runs_are_checked() {
    let run = |totals: &[i32], warmup, frames, mode, concurrent| {
        check_run(&totals.to_vec(), warmup, frames, mode, concurrent)
    };
    let mode = BenchmarkMode::Sequential;
    assert_eq!(run(&[], 1, 1, mode, true), Err(RunError::NoInputs));
    assert_eq!(run(&[5], u32::MAX, 1, mode, true), Err(RunError::FrameOverflow));
    assert_eq!(run(&[5], i32::MAX as u32, 1, mode, true), Err(RunError::TooManyFrames));
    assert_eq!(run(&[5, 4, 3], 1, 4, mode, true), Err(RunError::TooFewFrames(1)));
    assert_eq!(run(&[5, 5], 1, 4, mode, false), Ok(5));
    let mode = BenchmarkMode::Parallel;
    assert_eq!(run(&[5, 5], 1, 4, mode, false), Err(RunError::NotConcurrent));
    assert_eq!(run(&[5, 5], 1, 4, mode, true), Ok(5));
}

#[test]
fn frames_are_read_in_either_direction() {
    let order = |direction| (0..4).map(|step| frame_of_step(direction, 4, step)).collect::<Vec<_>>();
    assert_eq!(order(FrameDirection::Forward), vec![0, 1, 2, 3]);
    assert_eq!(order(FrameDirection::Reverse), vec![3, 2, 1, 0]);
    assert!(!is_measured(29, 30));
    assert!(is_measured(30, 30));
    assert_eq!(next_frame(4, 0), Some(5));
    assert_eq!(next_frame(4, 3), Some(8));
    assert_eq!(next_frame(u32::MAX, 0), None);
    assert_eq!(next_frame(u32::MAX - 1, 1), None);
}

#[test]
fn frames_in_sequence_are_recorded() {
    let reads = vec![
        ReadMeasurement { duration: 3, bytes: 8 },
        ReadMeasurement { duration: 4, bytes: 9 },
    ];
    assert!(sequential_frame(7, false, 10, &reads).is_none());
    let frame = sequential_frame(7, true, 10, &reads).unwrap();
    assert_eq!(frame.mode, BenchmarkMode::Sequential);
    assert_eq!(frame.frame, 7);
    assert_eq!(frame.wall, 10);
    assert_eq!(
        frame.calls,
        vec![
            CallSample { input_index: 0, duration: 3, bytes: 8 },
            CallSample { input_index: 1, duration: 4, bytes: 9 },
        ]
    );
}

fn worker(input_index: usize, result: Result<u128, &str>) -> WorkerResult {
    WorkerResult {
        input_index,
        measurement: match result {
            Ok(duration) => Ok(ReadMeasurement { duration, bytes: 8 }),
            Err(message) => Err(message.to_string()),
        },
    }
}

#[test]
fn frames_in_parallel_are_recorded() {
    let mut first_error = None;
    let results = vec![worker(2, Ok(1)), worker(0, Ok(2)), worker(1, Ok(3))];
    let frame = parallel_frame(5, true, 9, results, 3, &mut first_error).unwrap();
    assert_eq!(frame.mode, BenchmarkMode::Parallel);
    assert_eq!(frame.frame, 5);
    assert_eq!(frame.wall, 9);
    let order: Vec<(usize, u128)> =
        frame.calls.iter().map(|call| (call.input_index, call.duration)).collect();
    assert_eq!(order, vec![(0, 2), (1, 3), (2, 1)]);
    assert!(first_error.is_none());
    let warm = vec![worker(0, Ok(1))];
    assert!(parallel_frame(5, false, 9, warm, 1, &mut first_error).is_none());

    let results = vec![worker(1, Err("one")), worker(0, Err("zero"))];
    assert!(parallel_frame(6, true, 9, results, 2, &mut first_error).is_none());
    let results = vec![worker(0, Err("later"))];
    assert!(parallel_frame(7, true, 9, results, 1, &mut first_error).is_none());
    let error = finish_parallel(vec![frame], first_error).unwrap_err();
    assert_eq!((error.input_index, error.frame), (1, 6));
    assert_eq!(error.message, "one");
    assert_eq!(finish_parallel(Vec::new(), None).unwrap().len(), 0);
}

fn measured(wall: u128, calls: Vec<CallSample>) -> MeasuredFrame {
    MeasuredFrame {
        sample: FrameSample { mode: BenchmarkMode::Parallel, frame: 12, wall, calls },
        direction: FrameDirection::Reverse,
        memory: ProcessMemory { working_set_bytes: 100, private_bytes: 200 },
    }
}

#[test]
fn every_call_has_a_record() {
    let videos = vec![VideoSource { input_index: 0, path: "a.mp4".to_string() }];
    let call = CallSample { input_index: 0, duration: 5, bytes: 8 };
    let (rows, error) = csv_rows(&vec![measured(6, vec![call, call]), measured(7, vec![call])], &videos);
    assert_eq!(error, None);
    assert_eq!(rows.len(), 3);
    let row = &rows[2];
    assert_eq!(row.mode, "parallel");
    assert_eq!(row.direction, "reverse");
    assert_eq!(row.frame, 12);
    assert_eq!(row.input_index, 0);
    assert_eq!(row.file, "a.mp4");
    assert_eq!(row.duration_ns, 5);
    assert_eq!(row.bytes, 8);
    assert_eq!(row.frame_wall_ns, 7);
    assert_eq!(row.process_working_set_bytes, 100);
    assert_eq!(row.process_private_bytes, 200);
}

#[test]
fn records_stop_at_the_first_that_cannot_be_made() {
    let videos = vec![VideoSource { input_index: 0, path: "a.mp4".to_string() }];
    let good = CallSample { input_index: 0, duration: 5, bytes: 8 };
    let lost = CallSample { input_index: 1, duration: 5, bytes: 8 };
    let long = CallSample { input_index: 0, duration: u64::MAX as u128 + 1, bytes: 8 };
    let (rows, error) = csv_rows(&vec![measured(6, vec![good, lost, good])], &videos);
    assert_eq!((rows.len(), error), (1, Some(CsvError::InvalidInputIndex)));
    let (rows, error) = csv_rows(&vec![measured(6, vec![good, long])], &videos);
    assert_eq!((rows.len(), error), (1, Some(CsvError::DurationTooLong)));
    let frames = vec![measured(6, vec![good]), measured(u128::MAX, vec![good])];
    let (rows, error) = csv_rows(&frames, &videos);
    assert_eq!((rows.len(), error), (1, Some(CsvError::DurationTooLong)));
}

#[test]
fn durations_fit_a_record() {
    assert_eq!(duration_ns(u64::MAX as u128), Ok(u64::MAX));
    assert!(duration_ns(u64::MAX as u128 + 1).is_err());
}

#[test]
fn outliers_are_removed() {
    assert_eq!(remove_outliers(&vec![1, 2, 3, 4, 100]), (vec![1, 2, 3, 4], 1));
    assert_eq!(remove_outliers(&vec![1, 2, 3, 4, 7]), (vec![1, 2, 3, 4, 7], 0));
    assert_eq!(remove_outliers(&vec![1, 100, 101, 102, 103]), (vec![100, 101, 102, 103], 1));
    assert_eq!(remove_outliers(&vec![5]), (vec![5], 0));
}

#[test]
fn memory_is_averaged() {
    assert_eq!(summarize_memory(&Vec::new()), None);
    let summary = summarize_memory(&vec![process_memory(10, 7), process_memory(13, 2)]).unwrap();
    assert_eq!(summary.average, ProcessMemory { working_set_bytes: 11, private_bytes: 4 });
    assert_eq!(summary.maximum, ProcessMemory { working_set_bytes: 13, private_bytes: 7 });
}

#[test]
fn summaries_can_leave_out_outliers() {
    let samples = [100, 3, 1, 4, 2]
        .into_iter()
        .map(|ms| sample(BenchmarkMode::Sequential, ms))
        .collect::<Vec<_>>();
    let (summary, removed) = summarize_inliers(&samples).unwrap();
    assert_eq!(removed, 1);
    assert_eq!(summary.frames, 4);
    assert_eq!(summary.total_ns, 10_000_000);
    assert_eq!(summary.median_ns, 2_000_000);
    assert_eq!(summary.p95_ns, 4_000_000);
    assert_eq!(summary.min_ns, 1_000_000);
    assert_eq!(summary.max_ns, 4_000_000);
    assert_eq!(summarize_inliers(&Vec::new()), Err(SummaryError::NoSamples));
}

#[test]
fn records_have_a_header() {
    assert_eq!(
        csv_header().join(","),
        "mode,direction,frame,input_index,file,duration_ns,bytes,frame_wall_ns,\
         process_working_set_bytes,process_private_bytes"
    );
}

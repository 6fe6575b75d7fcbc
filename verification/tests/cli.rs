use ffmpeg_aui2::benchmark::directions;
use ffmpeg_aui2::cli::{
    Args, ArgsError, ExecutionMode, FrameDirection, Location, ParseError, ValueError,
};
use ffmpeg_aui2::priority::{ProcessPriority, ThreadPriority};
use windows_sys::Win32::System::Threading as win;

fn words(items: &[&str]) -> Vec<String> {
    items.iter().map(|item| item.to_string()).collect()
}

fn parse(items: &[&str]) -> Args {
    Args::try_parse_from(&words(items)).unwrap()
}

fn default_args() -> Args {
    Args {
        dll: "plugin.dll".to_string(),
        mode: ExecutionMode::Both,
        direction: FrameDirection::Both,
        process_priority: ProcessPriority::High,
        thread_priority: ThreadPriority::Highest,
        warmup: 30,
        frames: 300,
        read_delay_ms: 0,
        frame_skip_min: 0,
        frame_skip_max: 0,
        output: None,
        videos_dir: None,
        videos: Vec::new(),
        verify_frames: Vec::new(),
    }
}

fn in_crate(location: Location) -> Vec<String> {
    match location {
        Location::InCrate(names) => names,
        Location::Path(path) => panic!("unexpected path {path}"),
    }
}

#[test]
fn priority_defaults_are_high_and_highest() {
    let args = Args::try_parse_from(&words(&["benchmark", "plugin.dll"])).unwrap();

    assert_eq!(args.process_priority, ProcessPriority::High);
    assert_eq!(args.thread_priority, ThreadPriority::Highest);
}

#[test]
fn default_manifest_dir_is_inside_the_crate() {
    let args = default_args();

    let root = std::path::PathBuf::from("crate");
    let mut dir = root.clone();
    for name in in_crate(args.manifest_dir()) {
        dir = dir.join(name);
    }
    assert_eq!(dir, root.join("videos"));
}

#[test]
fn read_delay_can_be_configured_in_milliseconds() {
    let default_args = Args::try_parse_from(&words(&["benchmark", "plugin.dll"])).unwrap();
    let args = Args::try_parse_from(&words(&["benchmark", "plugin.dll", "--read-delay-ms", "10"]))
        .unwrap();

    assert_eq!(default_args.read_delay_ms, 0);
    assert_eq!(args.read_delay_ms, 10);
}

#[test]
fn frame_skip_range_can_be_configured() {
    let args = Args::try_parse_from(&words(&[
        "benchmark",
        "plugin.dll",
        "--frame-skip-min",
        "1",
        "--frame-skip-max",
        "3",
    ]))
    .unwrap();

    assert_eq!(args.frame_skip_min, 1);
    assert_eq!(args.frame_skip_max, 3);
}

#[test]
fn everything_has_a_default() {
    let args = parse(&["benchmark", "plugin.dll"]);
    assert_eq!(args.dll, "plugin.dll");
    assert_eq!(args.mode, ExecutionMode::Both);
    assert_eq!(args.direction, FrameDirection::Both);
    assert_eq!(
        directions(args.direction),
        vec![
            ffmpeg_aui2::benchmark::FrameDirection::Forward,
            ffmpeg_aui2::benchmark::FrameDirection::Reverse,
        ]
    );
    assert_eq!(args.warmup, 30);
    assert_eq!(args.frames, 300);
    assert_eq!(args.frame_skip_min, 0);
    assert_eq!(args.frame_skip_max, 0);
    assert_eq!(args.output, None);
    assert_eq!(args.videos_dir, None);
    assert!(args.videos.is_empty());
    assert!(args.verify_frames.is_empty());
}

#[test]
fn every_option_is_read() {
    let args = parse(&[
        "benchmark",
        "--mode",
        "parallel",
        "--direction=reverse",
        "--process-priority",
        "below-normal",
        "--thread-priority",
        "lowest",
        "--warmup",
        "+5",
        "--frames=7",
        "p.dll",
        "--output",
        "o.csv",
        "--videos-dir",
        "v",
        "--video",
        "a.mp4",
        "--video",
        "b.mp4",
        "--verify-frame",
        "3",
        "--verify-frame=1",
    ]);
    assert_eq!(args.dll, "p.dll");
    assert_eq!(args.mode, ExecutionMode::Parallel);
    assert_eq!(args.direction, FrameDirection::Reverse);
    assert_eq!(args.process_priority, ProcessPriority::BelowNormal);
    assert_eq!(args.thread_priority, ThreadPriority::Lowest);
    assert_eq!(args.warmup, 5);
    assert_eq!(args.frames, 7);
    assert_eq!(args.output, Some("o.csv".to_string()));
    assert_eq!(args.videos_dir, Some("v".to_string()));
    assert_eq!(args.videos, vec!["a.mp4".to_string(), "b.mp4".to_string()]);
    assert_eq!(args.verify_frames, vec![3, 1]);
}

#[test]
fn malformed_command_lines_are_refused() {
    for items in [
        vec!["benchmark"],
        vec!["benchmark", "a.dll", "b.dll"],
        vec!["benchmark", "a.dll", "--unknown"],
        vec!["benchmark", "a.dll", "--frames"],
        vec!["benchmark", "a.dll", "--frames", "1", "--frames", "2"],
    ] {
        match Args::try_parse_from(&words(&items)) {
            Err(ParseError::Usage(error)) => assert_eq!(error.exit_code, 2),
            other => panic!("accepted {other:?}"),
        }
    }
}

#[test]
fn help_is_no_failure() {
    match Args::try_parse_from(&words(&["benchmark", "--help"])) {
        Err(ParseError::Usage(error)) => {
            assert_eq!(error.exit_code, 0);
            assert!(error.text.contains("--frame-skip-max"));
        }
        other => panic!("accepted {other:?}"),
    }
}

#[test]
fn values_that_an_option_cannot_have_are_refused() {
    for (items, place) in [
        (vec!["b", "a.dll", "--mode", "fast"], 1),
        (vec!["b", "a.dll", "--direction", "Forward"], 2),
        (vec!["b", "a.dll", "--process-priority", "highest"], 3),
        (vec!["b", "a.dll", "--thread-priority", "high"], 4),
        (vec!["b", "a.dll", "--warmup", "4294967296"], 5),
        (vec!["b", "a.dll", "--frames", "1x"], 6),
        (vec!["b", "a.dll", "--read-delay-ms", "18446744073709551616"], 7),
        (vec!["b", "a.dll", "--frame-skip-min=-1"], 8),
        (vec!["b", "a.dll", "--frame-skip-max=-+0"], 9),
        (vec!["b", "a.dll", "--verify-frame", "1", "--verify-frame", "two"], 13),
    ] {
        match Args::try_parse_from(&words(&items)) {
            Err(ParseError::Value(error)) => assert_eq!(error, ValueError::Invalid(place)),
            other => panic!("accepted {other:?}"),
        }
    }
    assert_eq!(parse(&["b", "a.dll", "--warmup=-0"]).warmup, 0);
    assert_eq!(parse(&["b", "a.dll", "--frames", "4294967295"]).frames, u32::MAX);
    assert_eq!(
        parse(&["b", "a.dll", "--read-delay-ms", "18446744073709551615"]).read_delay_ms,
        u64::MAX
    );
}

#[test]
fn paths_are_not_empty() {
    for (place, line) in [
        (0, &["benchmark", ""][..]),
        (10, &["benchmark", "plugin.dll", "--output", ""][..]),
        (11, &["benchmark", "plugin.dll", "--videos-dir="][..]),
        (12, &["benchmark", "plugin.dll", "--video", "a.mp4", "--video", ""][..]),
    ] {
        assert!(matches!(
            Args::try_parse_from(&words(line)),
            Err(ParseError::Value(ValueError::Invalid(found))) if found == place
        ));
    }
}

#[test]
fn values_without_a_library_are_refused() {
    let values: Vec<Vec<String>> = (0..14).map(|_| Vec::new()).collect();
    assert_eq!(Args::from_values(&values).unwrap_err(), ValueError::NoDll);
}

#[test]
fn arguments_are_validated_in_order() {
    let ok: Vec<bool> = Vec::new();
    let args = default_args();
    assert_eq!(args.validate(true, &ok), Ok(()));
    assert_eq!(args.validate(false, &ok), Err(ArgsError::DllMissing));

    let args = Args { frames: 0, ..default_args() };
    assert_eq!(args.validate(true, &ok), Err(ArgsError::NoFrames));

    let args = Args { frame_skip_min: 2, frame_skip_max: 1, ..default_args() };
    assert_eq!(args.validate(true, &ok), Err(ArgsError::SkipRange));

    let args = Args { warmup: u32::MAX, frames: 1, ..default_args() };
    assert_eq!(args.validate(true, &ok), Err(ArgsError::FrameOverflow));

    let args = Args { warmup: 0, frames: 0x4000_0000, frame_skip_max: 1, ..default_args() };
    assert_eq!(args.validate(true, &ok), Err(ArgsError::FrameRange));
    let args = Args { warmup: 0, frames: 0x3fff_ffff, frame_skip_max: 1, ..default_args() };
    assert_eq!(args.validate(true, &ok), Ok(()));
    let args = Args { warmup: 0, frames: 1, frame_skip_max: u32::MAX, ..default_args() };
    assert_eq!(args.validate(true, &ok), Err(ArgsError::FrameRange));

    let args = default_args();
    assert_eq!(
        args.validate(true, &vec![true, false, false]),
        Err(ArgsError::VideoMissing(1))
    );
}

#[test]
fn records_go_below_the_crate_by_default() {
    let args = default_args();
    assert_eq!(
        in_crate(args.output_path(Some("plugin")).unwrap()),
        vec!["results".to_string(), "plugin.csv".to_string()]
    );
    assert!(args.output_path(None).is_err());

    let args = Args { output: Some("out.csv".to_string()), ..default_args() };
    match args.output_path(None) {
        Ok(Location::Path(path)) => assert_eq!(path, "out.csv"),
        other => panic!("unexpected {other:?}"),
    }
    let args = Args { videos_dir: Some("dir".to_string()), ..default_args() };
    match args.manifest_dir() {
        Location::Path(path) => assert_eq!(path, "dir"),
        other => panic!("unexpected {other:?}"),
    }
}

#[test]
fn words_of_priorities_lead_back() {
    for priority in [
        ProcessPriority::Idle,
        ProcessPriority::BelowNormal,
        ProcessPriority::Normal,
        ProcessPriority::AboveNormal,
        ProcessPriority::High,
    ] {
        let word: Vec<char> = priority.as_str().chars().collect();
        assert_eq!(ProcessPriority::from_word(&word), Some(priority));
    }
    for priority in [
        ThreadPriority::Idle,
        ThreadPriority::Lowest,
        ThreadPriority::BelowNormal,
        ThreadPriority::Normal,
        ThreadPriority::AboveNormal,
        ThreadPriority::Highest,
    ] {
        let word: Vec<char> = priority.as_str().chars().collect();
        assert_eq!(ThreadPriority::from_word(&word), Some(priority));
    }
}

#[test]
fn priorities_have_the_numbers_of_windows() {
    assert_eq!(ProcessPriority::Idle.as_windows_class(), win::IDLE_PRIORITY_CLASS);
    assert_eq!(ProcessPriority::BelowNormal.as_windows_class(), win::BELOW_NORMAL_PRIORITY_CLASS);
    assert_eq!(ProcessPriority::Normal.as_windows_class(), win::NORMAL_PRIORITY_CLASS);
    assert_eq!(ProcessPriority::AboveNormal.as_windows_class(), win::ABOVE_NORMAL_PRIORITY_CLASS);
    assert_eq!(ProcessPriority::High.as_windows_class(), win::HIGH_PRIORITY_CLASS);
    assert_eq!(ThreadPriority::Idle.as_windows_priority(), win::THREAD_PRIORITY_IDLE);
    assert_eq!(ThreadPriority::Lowest.as_windows_priority(), win::THREAD_PRIORITY_LOWEST);
    assert_eq!(
        ThreadPriority::BelowNormal.as_windows_priority(),
        win::THREAD_PRIORITY_BELOW_NORMAL
    );
    assert_eq!(ThreadPriority::Normal.as_windows_priority(), win::THREAD_PRIORITY_NORMAL);
    assert_eq!(
        ThreadPriority::AboveNormal.as_windows_priority(),
        win::THREAD_PRIORITY_ABOVE_NORMAL
    );
    assert_eq!(ThreadPriority::Highest.as_windows_priority(), win::THREAD_PRIORITY_HIGHEST);
}

use ffmpeg_aui2::config::{Config, FpsMode};
use ffmpeg_aui2::index::VideoOutputFormat;
use ffmpeg_aui2::input_plugin::VideoInputInfo;
use ffmpeg_aui2::rate::{chosen_rate, rounded_rate, track_rate_of};
use ffmpeg_aui2::timestamp::Timestamp;

fn at(seconds: f64) -> Timestamp {
    Timestamp::from_bits(seconds.to_bits()).unwrap()
}

#[test]
fn rates_are_rounded_to_digits() {
    assert_eq!(rounded_rate(1000, at(30.03), 0), Some((33, 1)));
    assert_eq!(rounded_rate(1000, at(30.03), 1), Some((333, 10)));
    assert_eq!(rounded_rate(1000, at(30.03), 3), Some((333, 10)));
    assert_eq!(rounded_rate(1000, at(30.03), 5), Some((3_330_003, 100_000)));
    assert_eq!(rounded_rate(30_000, at(1001.0), 3), Some((2997, 100)));
    assert_eq!(rounded_rate(300, at(10.01), 7), Some((2_997_003, 100_000)));
}

#[test]
fn durations_are_exact() {
    assert_eq!(rounded_rate(100, at(3.336667), 3), Some((2997, 100)));
}

#[test]
fn fractions_are_reduced() {
    assert_eq!(rounded_rate(24_000, at(1001.0), 3), Some((2997, 125)));
    assert_eq!(rounded_rate(150, at(32.768), 11), Some((9375, 2048)));
    assert_eq!(rounded_rate(150, at(32.768), 16), None);
    assert_eq!(rounded_rate(1, at(1024.0), 10), Some((1, 1024)));
    assert_eq!(rounded_rate(1, at(1024.0), 9), Some((976_563, 1_000_000_000)));
    assert_eq!(rounded_rate(1, at(1_073_741_824.0), 30), Some((1, 1_073_741_824)));
    assert_eq!(rounded_rate(1, at(1_073_741_824.0), 29), None);
    assert_eq!(rounded_rate(1, at(2_147_483_648.0), 31), None);
}

#[test]
fn halves_are_rounded_up() {
    assert_eq!(rounded_rate(1, at(2.0), 0), Some((1, 1)));
    assert_eq!(rounded_rate(1, at(2.001), 0), Some((0, 1)));
    assert_eq!(rounded_rate(125, at(100.0), 1), Some((13, 10)));
}

#[test]
fn exact_rates_take_any_digits() {
    for digits in [0, 1, 9, 10, 15, 16, 17, 30, 38, 39, 400, u32::MAX] {
        assert_eq!(rounded_rate(250, at(10.0), digits), Some((25, 1)));
    }
    assert_eq!(rounded_rate(1, at(1024.0), u32::MAX), Some((1, 1024)));
}

#[test]
fn rates_that_cannot_be_held_are_refused() {
    assert_eq!(rounded_rate(600, at(0.0), 3), None);
    assert_eq!(rounded_rate(600, at(-1.0), 3), None);
    assert_eq!(rounded_rate(1, at(3.0), 9), Some((333_333_333, 1_000_000_000)));
    assert_eq!(rounded_rate(1, at(3.0), 10), None);
    assert_eq!(rounded_rate(1, at(3.0), u32::MAX), None);
    assert_eq!(rounded_rate(u64::MAX, at(1.0), 15), None);
    assert_eq!(rounded_rate(i32::MAX as u64, at(1.0), 0), Some((i32::MAX, 1)));
    assert_eq!(rounded_rate(i32::MAX as u64 + 1, at(1.0), 0), None);
    assert_eq!(rounded_rate(1, at(f64::from_bits(1)), 0), None);
}

#[test]
fn long_durations_come_to_nothing() {
    assert_eq!(rounded_rate(0, at(5.0), 7), Some((0, 1)));
    assert_eq!(rounded_rate(5, at(f64::INFINITY), 7), Some((0, 1)));
    assert_eq!(rounded_rate(1, at(1e300), 3), Some((0, 1)));
    assert_eq!(rounded_rate(1, at(1e300), 299), Some((0, 1)));
    assert_eq!(rounded_rate(1, at(1e300), 300), None);
    assert_eq!(rounded_rate(1, at(f64::MAX), u32::MAX), None);
}

#[test]
fn modes_choose_their_rate() {
    assert_eq!(chosen_rate(FpsMode::Metadata, (30_000, 1001), (30, 1)), (30_000, 1001));
    assert_eq!(chosen_rate(FpsMode::Real, (30_000, 1001), (30, 1)), (30, 1));
    let metadata =
        |digits| track_rate_of(FpsMode::Metadata, digits, (30_000, 1001), 10, at(0.0));
    assert_eq!(metadata(0), Some((30_000, 1001)));
    assert_eq!(metadata(99), Some((30_000, 1001)));
    let real = |seconds| track_rate_of(FpsMode::Real, 0, (30_000, 1001), 1000, at(seconds));
    assert_eq!(real(30.03), Some((33, 1)));
    assert_eq!(real(0.0), None);
}

#[test]
fn tracks_have_the_rate_that_the_settings_ask_for() {
    let info = VideoInputInfo {
        width: 16,
        height: 16,
        frames: 100,
        duration: at(3.336667),
        output_format: VideoOutputFormat::Yuy2,
    };
    let mut config = Config::default();
    assert_eq!(info.frame_rate(&config, (25, 1)), Some((2997, 100)));
    config.fps_precision = 0;
    assert_eq!(info.frame_rate(&config, (25, 1)), Some((30, 1)));
    config.fps_mode = FpsMode::Metadata;
    assert_eq!(info.frame_rate(&config, (25, 1)), Some((25, 1)));
}

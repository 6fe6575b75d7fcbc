use ffmpeg_aui2::config::{
    default_key_entries, key_entries, Config, FileChange, FpsMode, HwAccel, LogLevel,
    DEFAULT_CONFIG,
};

fn load(text: &str) -> Config {
    Config::load(Some(text)).config
}

fn appended(text: &str) -> String {
    match Config::load(Some(text)).change {
        FileChange::Append(more) => more,
        FileChange::Keep => String::new(),
        FileChange::Write(_) => panic!("a file that was read is not written anew"),
    }
}

#[test]
fn defaults_hold_without_a_file() {
    let loaded = Config::load(None);
    assert_eq!(loaded.config, Config::default());
    match loaded.change {
        FileChange::Write(text) => assert_eq!(text, DEFAULT_CONFIG),
        _ => panic!("the defaults are written"),
    }
    let config = Config::default();
    assert_eq!(config.log_level, LogLevel::Info);
    assert_eq!(config.json_index, false);
    assert_eq!(config.hwaccel, HwAccel::Off);
    assert_eq!(config.prefetch_buffer_mb, 32);
    assert_eq!(config.prefetch_total_buffer_mb, 512);
    assert_eq!(config.prefetch_frames, 10);
    assert_eq!(config.fps_precision, 3);
    assert_eq!(config.fps_mode, FpsMode::Real);
    assert_eq!(config.rough_cache, false);
}

#[test]
fn default_file_states_the_defaults() {
    let loaded = Config::load(Some(DEFAULT_CONFIG));
    assert_eq!(loaded.config, Config::default());
    assert!(matches!(loaded.change, FileChange::Keep));
}

#[test]
fn every_setting_is_read() {
    let config = load(
        "[general]\nlog_level = TRACE\njson_index=Yes\nhwaccel=Cuda\nfps_mode=MetaData\n\
         fps_precision=0\nrough_cache=1\n[prefetch]\r\nprefetch_buffer_mb=+64\r\n\
         prefetch_total_buffer_mb=1024\r\nprefetch_frames=0",
    );
    assert_eq!(
        config,
        Config {
            log_level: LogLevel::Trace,
            json_index: true,
            hwaccel: HwAccel::Cuda,
            prefetch_buffer_mb: 64,
            prefetch_total_buffer_mb: 1024,
            prefetch_frames: 0,
            fps_precision: 0,
            fps_mode: FpsMode::Metadata,
            rough_cache: true,
        }
    );
}

#[test]
fn words_are_understood() {
    let level = |word: &str| load(&format!("[general]\nlog_level={word}")).log_level;
    assert_eq!(level("debug"), LogLevel::Debug);
    assert_eq!(level("info"), LogLevel::Info);
    assert_eq!(level("warn"), LogLevel::Warn);
    assert_eq!(level("Warning"), LogLevel::Warn);
    assert_eq!(level("error"), LogLevel::Error);
    assert_eq!(level("loud"), LogLevel::Info);
    let hwaccel = |word: &str| load(&format!("[general]\nhwaccel={word}")).hwaccel;
    assert_eq!(hwaccel("auto"), HwAccel::Auto);
    assert_eq!(hwaccel("D3D11VA"), HwAccel::D3d11va);
    assert_eq!(hwaccel("dxva2"), HwAccel::Dxva2);
    assert_eq!(hwaccel("off"), HwAccel::Off);
    assert_eq!(hwaccel("vdpau"), HwAccel::Off);
    let switch = |word: &str| load(&format!("[general]\njson_index={word}")).json_index;
    assert!(switch("true"));
    assert!(!switch("on"));
    assert_eq!(load("[general]\nfps_mode=fast").fps_mode, FpsMode::Real);
}

#[test]
fn numbers_that_are_none_change_nothing() {
    let frames = |word: &str| load(&format!("[prefetch]\nprefetch_frames={word}")).prefetch_frames;
    assert_eq!(frames("4294967295"), u32::MAX);
    assert_eq!(frames("4294967296"), 10);
    assert_eq!(frames("-1"), 10);
    assert_eq!(frames(""), 10);
    assert_eq!(frames("+"), 10);
    assert_eq!(frames("1 2"), 10);
    assert_eq!(frames("007"), 7);
    assert_eq!(load("[prefetch]\nprefetch_frames=5\nprefetch_frames=x").prefetch_frames, 5);
}

#[test]
fn sections_and_comments_count() {
    assert_eq!(load("log_level=error").log_level, LogLevel::Info);
    assert_eq!(load("[prefetch]\nlog_level=error").log_level, LogLevel::Info);
    assert_eq!(load("[ general ]\nlog_level=error").log_level, LogLevel::Info);
    assert_eq!(load("  [general]  \n  log_level = error  ").log_level, LogLevel::Error);
    assert_eq!(load("[general]\n;log_level=error").log_level, LogLevel::Info);
    assert_eq!(load("[general]\n# log_level=error").log_level, LogLevel::Info);
    assert_eq!(load("[general]\nlog_level=error\nlog_level=warn").log_level, LogLevel::Warn);
    assert_eq!(load("[general]\nlog_level=error=warn").log_level, LogLevel::Info);
    assert_eq!(load("[general]\n[\nlog_level=debug").log_level, LogLevel::Debug);
    assert_eq!(load("[general]\n\u{3000}log_level\u{a0}=\u{2009}debug").log_level, LogLevel::Debug);
    assert_eq!(load("[general]\nlog_level=debug\r").log_level, LogLevel::Debug);
}

#[test]
fn keys_of_a_file_are_found() {
    let entries = key_entries("; top\na=1\n[s]\n; c1\n\n; c2\nb = 2\nc=3\nloose\n# lost\n[t]\nd=4");
    let found: Vec<(&str, &str, &str)> = entries
        .iter()
        .map(|e| (e.key.as_str(), e.section.as_str(), e.block.as_str()))
        .collect();
    assert_eq!(
        found,
        vec![
            ("a", "", "\n; top\na=1\n"),
            ("b", "s", "\n; c1\n\n; c2\nb = 2\n"),
            ("c", "s", "c=3\n"),
            ("d", "t", "d=4\n"),
        ]
    );
}

#[test]
fn default_keys_stand_in_sections() {
    let entries = default_key_entries();
    let keys: Vec<&str> = entries.iter().map(|e| e.key.as_str()).collect();
    assert_eq!(
        keys,
        vec![
            "log_level",
            "json_index",
            "hwaccel",
            "fps_mode",
            "fps_precision",
            "rough_cache",
            "prefetch_buffer_mb",
            "prefetch_total_buffer_mb",
            "prefetch_frames",
        ]
    );
    assert!(entries.iter().all(|e| !e.section.is_empty()));
}

#[test]
fn missing_keys_are_appended_once() {
    let start = "[general]\nlog_level=warn";
    let more = appended(start);
    assert!(more.starts_with("\n[general]\n"));
    assert!(!more.contains("log_level"));
    assert_eq!(more.matches("[general]").count(), 1);
    assert_eq!(more.matches("[prefetch]").count(), 1);
    let whole = format!("{start}{more}");
    assert_eq!(appended(&whole), "");
    assert_eq!(load(&whole), Config { log_level: LogLevel::Warn, ..Config::default() });
}

#[test]
fn a_single_missing_key_is_appended_with_its_header() {
    let without = DEFAULT_CONFIG.replace("prefetch_frames=10\n", "");
    assert_eq!(
        appended(&without),
        "\n[prefetch]\n\n; Most frames to read ahead (0: no limit).\nprefetch_frames=10\n"
    );
}

#[test]
fn stated_settings_are_kept() {
    for start in [
        "",
        "\n",
        "[general]\r\nhwaccel=cuda\r\nfps_precision=5\r",
        "[prefetch]\nprefetch_frames=0\nprefetch_buffer_mb = 7",
        "[general]\nlog_level=trace\n[prefetch]\nprefetch_total_buffer_mb=9\n",
    ] {
        let before = load(start);
        let whole = format!("{start}{}", appended(start));
        assert_eq!(load(&whole), before);
        assert_eq!(appended(&whole), "");
    }
}

#[test]
fn files_are_changed_once() {
    let written = match Config::load(None).change {
        FileChange::Write(text) => text,
        _ => panic!("the defaults are written"),
    };
    assert!(matches!(Config::load(Some(&written)).change, FileChange::Keep));
    assert_eq!(load(&written), Config::default());
    for start in ["", "[general]", "hwaccel=cuda", "[prefetch]\n[]\nfps_mode=real\r", "x"] {
        let whole = format!("{start}{}", appended(start));
        assert!(matches!(Config::load(Some(&whole)).change, FileChange::Keep));
        assert_eq!(load(&whole), load(start));
    }
}

#[test]
fn each_section_is_opened_once() {
    for (start, general, prefetch) in [
        ("", 1, 1),
        ("[general]\nlog_level=warn\nhwaccel=auto\nrough_cache=1", 1, 1),
        ("prefetch_buffer_mb=1\nprefetch_total_buffer_mb=2\nprefetch_frames=3", 1, 0),
        ("[prefetch]\nprefetch_total_buffer_mb=2", 1, 1),
        (DEFAULT_CONFIG, 0, 0),
    ] {
        let more = appended(start);
        assert_eq!(more.matches("[general]").count(), general);
        assert_eq!(more.matches("[prefetch]").count(), prefetch);
    }
}

use aviutl2_sys::input2::{INPUT_INFO, INPUT_PLUGIN_TABLE};
use ffmpeg_aui2::plugin::{
    image_size, initialize_input_handle, is_concurrent, load_step, missing_function, normal_path,
    wide_path, BitmapHeader, FrameError, ImageSizeError, InputError, InputHandle, InputInfoValues,
    LoadAction, LoadError, LoadEvent, PluginFunction, TrackStep, DIGEST_START, HOST_VERSION,
    INFO_FLAG_VIDEO, TABLE_FLAG_CONCURRENT, TABLE_FLAG_MULTI_TRACK, TRACK_TYPE_AUDIO,
    TRACK_TYPE_VIDEO,
};

fn format() -> BitmapHeader {
    BitmapHeader { width: 2, height: 2, bit_count: 16, size_image: 8 }
}

fn info() -> InputInfoValues {
    InputInfoValues {
        flag: INPUT_INFO::FLAG_VIDEO,
        frames: 10,
        rate: 60,
        scale: 1,
        format: Some(format()),
    }
}

fn set_track(track_type: i32, track: i32) -> i32 {
    if track == -1 {
        if track_type == INPUT_PLUGIN_TABLE::TRACK_TYPE_VIDEO {
            1
        } else {
            0
        }
    } else {
        0
    }
}

#[test]
fn image_size_is_derived_when_header_size_is_zero() {
    let format = BitmapHeader { size_image: 0, ..format() };

    assert_eq!(image_size(&format).unwrap(), 8);
}

#[test]
fn wide_path_removes_windows_verbatim_prefixes() {
    let local = String::from_utf16(&[
        92, 92, 63, 92, 69, 58, 92, 118, 105, 100, 101, 111, 46, 109, 112, 52,
    ])
    .unwrap();
    let unc = String::from_utf16(&[
        92, 92, 63, 92, 85, 78, 67, 92, 115, 101, 114, 118, 101, 114, 92, 118, 105, 100, 101, 111,
        46, 109, 112, 52,
    ])
    .unwrap();

    assert_eq!(
        wide_path(&local.encode_utf16().collect()),
        vec![69, 58, 92, 118, 105, 100, 101, 111, 46, 109, 112, 52, 0]
    );
    assert_eq!(
        wide_path(&unc.encode_utf16().collect()),
        vec![
            92, 92, 115, 101, 114, 118, 101, 114, 92, 118, 105, 100, 101, 111, 46, 109, 112, 52, 0,
        ]
    );
}

#[test]
fn input_handle_uses_track_info_and_exact_image_size() {
    let flag = INPUT_PLUGIN_TABLE::FLAG_VIDEO | INPUT_PLUGIN_TABLE::FLAG_MULTI_TRACK;
    let mut step = TrackStep::begin(flag, true).unwrap();
    while let Some(call) = step.call() {
        step = step.answer(set_track(call.track_type, call.track)).unwrap();
    }
    let mut handle = initialize_input_handle(Some(info()), "mock.mp4".to_string()).unwrap();

    handle.buffer.fill(0x5a);
    handle.check_frame(0).unwrap();
    let measurement = handle.read_frame(0, 8, 1).unwrap();

    assert_eq!(measurement.bytes, 8);
    assert_eq!(handle.dimensions(), (2, 2));
    assert_eq!(handle.frame_rate(), (60, 1));
    assert!(handle.check_frame(10).is_err());
    assert!(handle.read_frame(10, 8, 1).is_err());
    assert_eq!(handle.total_frames(), 10);
    assert_eq!(handle.path(), "mock.mp4");
}

#[test]
fn constants_are_those_of_the_host() {
    assert_eq!(INFO_FLAG_VIDEO, INPUT_INFO::FLAG_VIDEO);
    assert_eq!(TABLE_FLAG_CONCURRENT, INPUT_PLUGIN_TABLE::FLAG_CONCURRENT);
    assert_eq!(TABLE_FLAG_MULTI_TRACK, INPUT_PLUGIN_TABLE::FLAG_MULTI_TRACK);
    assert_eq!(TRACK_TYPE_VIDEO, INPUT_PLUGIN_TABLE::TRACK_TYPE_VIDEO);
    assert_eq!(TRACK_TYPE_AUDIO, INPUT_PLUGIN_TABLE::TRACK_TYPE_AUDIO);
    assert_eq!(HOST_VERSION, 2010100);
    assert!(is_concurrent(1 | 16));
    assert!(!is_concurrent(1 | 32));
}

#[test]
fn image_sizes_are_checked() {
    let derived = BitmapHeader { size_image: 0, ..format() };
    assert_eq!(image_size(&format()), Ok(8));
    assert_eq!(image_size(&BitmapHeader { width: 3, bit_count: 24, height: -5, ..derived }), Ok(60));
    assert_eq!(
        image_size(&BitmapHeader { bit_count: 0, ..derived }),
        Err(ImageSizeError::NoBitCount)
    );
    assert_eq!(
        image_size(&BitmapHeader { width: -1, ..derived }),
        Err(ImageSizeError::NegativeWidth)
    );
    assert_eq!(
        image_size(&BitmapHeader {
            width: i32::MAX,
            height: i32::MIN,
            bit_count: u16::MAX,
            size_image: 0
        }),
        Err(ImageSizeError::Overflow)
    );
}

#[test]
fn inputs_are_checked() {
    let open = |info: Option<InputInfoValues>| {
        initialize_input_handle(info, String::new()).err().unwrap()
    };
    assert_eq!(open(None), InputError::NoInfo);
    assert_eq!(open(Some(InputInfoValues { flag: 2, ..info() })), InputError::NoVideoInfo);
    assert_eq!(open(Some(InputInfoValues { format: None, ..info() })), InputError::NoFormat);
    let with = |format: BitmapHeader| Some(InputInfoValues { format: Some(format), ..info() });
    assert_eq!(open(with(BitmapHeader { width: 0, ..format() })), InputError::InvalidWidth);
    assert_eq!(open(with(BitmapHeader { height: 0, ..format() })), InputError::InvalidHeight);
    assert_eq!(open(Some(InputInfoValues { frames: 0, ..info() })), InputError::NoFrames);
    assert_eq!(open(Some(InputInfoValues { rate: 0, ..info() })), InputError::InvalidFrameRate);
    assert_eq!(open(Some(InputInfoValues { scale: -1, ..info() })), InputError::InvalidFrameRate);
    assert_eq!(
        open(with(BitmapHeader { size_image: 0, bit_count: 0, ..format() })),
        InputError::ImageSize(ImageSizeError::NoBitCount)
    );
    let upside_down = BitmapHeader { height: -2, ..format() };
    let handle = initialize_input_handle(with(upside_down), String::new()).unwrap();
    assert_eq!(handle.dimensions(), (2, 2));
    assert_eq!(handle.buffer, vec![0; 8]);
}

#[test]
fn tracks_are_chosen_step_by_step() {
    assert_eq!(TrackStep::begin(1, false), Ok(TrackStep::Done));
    assert_eq!(TrackStep::begin(32, false), Err(InputError::NoSetTrack));
    let step = TrackStep::begin(33, true).unwrap();
    assert_eq!(step.answer(0), Err(InputError::NoVideoTrack));
    let step = step.answer(2).unwrap();
    assert_eq!(step.answer(-1), Err(InputError::AudioTracksUnknown));
    let step = step.answer(1).unwrap();
    assert_eq!(step.answer(1), Err(InputError::VideoTrackNotSelected));
    let step = step.answer(0).unwrap();
    assert_eq!(step, TrackStep::SelectAudio);
    assert_eq!(step.answer(3), Err(InputError::AudioTrackNotSelected));
    assert_eq!(step.answer(0), Ok(TrackStep::Done));
    assert_eq!(TrackStep::SelectVideo(0).answer(0), Ok(TrackStep::Done));
    assert_eq!(TrackStep::Done.call(), None);
}

#[test]
fn frames_are_checked() {
    let handle = initialize_input_handle(Some(info()), String::new()).unwrap();
    assert_eq!(handle.read_frame(-1, 8, 0), Err(FrameError::OutOfRange(-1)));
    assert_eq!(handle.read_frame(9, 0, 0), Err(FrameError::ReadFailed(9)));
    assert_eq!(handle.read_frame(9, -8, 0), Err(FrameError::ReadFailed(9)));
    assert_eq!(handle.read_frame(9, 7, 0), Err(FrameError::SizeMismatch(8, 7)));
    assert_eq!(handle.read_frame(9, 8, 5).unwrap().duration, 5);
}

#[test]
fn digests_are_exact() {
    let handle = |bytes: &[u8]| InputHandle {
        path: String::new(),
        total_frames: 1,
        width: 1,
        height: 1,
        rate: 1,
        scale: 1,
        buffer: bytes.to_vec(),
    };
    assert_eq!(handle(b"").frame_digest(), DIGEST_START);
    assert_eq!(handle(b"a").frame_digest(), 0xaf63dc4c8601ec8c);
    assert_eq!(handle(b"foobar").frame_digest(), 0x85944171f73967e8);
}

#[test]
fn loading_a_plugin_has_its_order() {
    assert_eq!(load_step(LoadEvent::TableFunction(true)), LoadAction::AskVersion);
    assert_eq!(
        load_step(LoadEvent::TableFunction(false)),
        LoadAction::Fail(LoadError::NoTableFunction)
    );
    assert_eq!(load_step(LoadEvent::Required(None)), LoadAction::Initialize);
    assert_eq!(load_step(LoadEvent::Required(Some(2010100))), LoadAction::Initialize);
    assert_eq!(
        load_step(LoadEvent::Required(Some(2010101))),
        LoadAction::Fail(LoadError::VersionTooOld(2010101))
    );
    assert_eq!(load_step(LoadEvent::Initialized(None)), LoadAction::AskTable);
    assert_eq!(load_step(LoadEvent::Initialized(Some(true))), LoadAction::AskTable);
    assert_eq!(
        load_step(LoadEvent::Initialized(Some(false))),
        LoadAction::Fail(LoadError::InitializeFailed)
    );
    assert_eq!(load_step(LoadEvent::Table(true)), LoadAction::Done);
    assert_eq!(
        load_step(LoadEvent::Table(false)),
        LoadAction::UndoAndFail(LoadError::NoTable)
    );
    assert_eq!(missing_function(true, true, true, true), None);
    assert_eq!(missing_function(false, false, true, true), Some(PluginFunction::Open));
    assert_eq!(missing_function(true, false, false, true), Some(PluginFunction::Close));
    assert_eq!(missing_function(true, true, false, false), Some(PluginFunction::InfoGet));
    assert_eq!(missing_function(true, true, true, false), Some(PluginFunction::ReadVideo));
}

#[test]
fn other_paths_are_left_alone() {
    let path: Vec<u16> = "C:\\video.mp4".encode_utf16().collect();
    assert_eq!(normal_path(&path), path);
    assert_eq!(normal_path(&vec![92, 92, 63]), vec![92, 92, 63]);
    assert_eq!(normal_path(&vec![92, 92, 63, 92]), Vec::<u16>::new());
    assert_eq!(wide_path(&Vec::new()), vec![0]);
}

//! An input plugin as its host sees it: what it has to provide, how its tracks
//! are chosen and its frames read.
use vstd::prelude::*;

verus! {

/// The version of the host that plugins are loaded for.
pub const HOST_VERSION: u32 = 2_010_100;

/// The flag of an input that has video.
pub const INFO_FLAG_VIDEO: i32 = 1;

/// The flag of a plugin whose inputs may be read at the same time.
pub const TABLE_FLAG_CONCURRENT: i32 = 16;

/// The flag of a plugin whose inputs have tracks to be chosen.
pub const TABLE_FLAG_MULTI_TRACK: i32 = 32;

/// The number that stands for video tracks.
pub const TRACK_TYPE_VIDEO: i32 = 0;

/// The number that stands for audio tracks.
pub const TRACK_TYPE_AUDIO: i32 = 1;

/// The track number that asks for the number of tracks.
pub const TRACK_COUNT: i32 = -1;

/// Whether a plugin that requires a version of the host can be loaded. One that
/// requires none can.
pub fn version_is_supported(required: Option<u32>) -> (res: bool)
    ensures
        res == (required matches Some(version) ==> version <= HOST_VERSION),
{
    match required {
        Some(version) => HOST_VERSION >= version,
        None => true,
    }
}

/// Why a plugin cannot be loaded.
#[derive(Debug, Clone, Copy, PartialEq, Eq, Structural)]
pub enum LoadError {
    /// The library has no function that gives the table of the plugin.
    NoTableFunction,
    /// The plugin requires a later version of the host.
    VersionTooOld(u32),
    /// The plugin could not be initialised.
    InitializeFailed,
    /// The plugin has no table.
    NoTable,
}

/// What is known while a plugin is loaded, in the order in which it is asked.
#[derive(Debug, Clone, Copy, PartialEq, Eq, Structural)]
pub enum LoadEvent {
    /// Whether the library has the function that gives the table.
    TableFunction(bool),
    /// The version of the host that the plugin requires, if it says so.
    Required(Option<u32>),
    /// Whether the plugin was initialised, if it can be.
    Initialized(Option<bool>),
    /// Whether the plugin gave its table.
    Table(bool),
}

/// What is done next while a plugin is loaded.
#[derive(Debug, Clone, Copy, PartialEq, Eq, Structural)]
pub enum LoadAction {
    AskVersion,
    /// Hand over the logger, the settings and the cache, then initialise.
    Initialize,
    AskTable,
    Done,
    Fail(LoadError),
    /// The plugin was initialised: undo that, then fail.
    UndoAndFail(LoadError),
}

/// What is done next while a plugin is loaded.
pub fn load_step(event: LoadEvent) -> (res: LoadAction)
    ensures
        res == match event {
            LoadEvent::TableFunction(true) => LoadAction::AskVersion,
            LoadEvent::TableFunction(false) => LoadAction::Fail(LoadError::NoTableFunction),
            LoadEvent::Required(None) => LoadAction::Initialize,
            LoadEvent::Required(Some(version)) => if version <= HOST_VERSION {
                LoadAction::Initialize
            } else {
                LoadAction::Fail(LoadError::VersionTooOld(version))
            },
            LoadEvent::Initialized(Some(false)) => LoadAction::Fail(LoadError::InitializeFailed),
            LoadEvent::Initialized(_) => LoadAction::AskTable,
            LoadEvent::Table(true) => LoadAction::Done,
            LoadEvent::Table(false) => LoadAction::UndoAndFail(LoadError::NoTable),
        },
{
    match event {
        LoadEvent::TableFunction(true) => LoadAction::AskVersion,
        LoadEvent::TableFunction(false) => LoadAction::Fail(LoadError::NoTableFunction),
        LoadEvent::Required(None) => LoadAction::Initialize,
        LoadEvent::Required(Some(version)) => {
            if version_is_supported(Some(version)) {
                LoadAction::Initialize
            } else {
                LoadAction::Fail(LoadError::VersionTooOld(version))
            }
        },
        LoadEvent::Initialized(Some(false)) => LoadAction::Fail(LoadError::InitializeFailed),
        LoadEvent::Initialized(_) => LoadAction::AskTable,
        LoadEvent::Table(true) => LoadAction::Done,
        LoadEvent::Table(false) => LoadAction::UndoAndFail(LoadError::NoTable),
    }
}

/// Whether a plugin lets its inputs be read at the same time.
pub fn is_concurrent(table_flag: i32) -> (res: bool)
    ensures
        res == (table_flag & TABLE_FLAG_CONCURRENT != 0),
{
    table_flag & TABLE_FLAG_CONCURRENT != 0
}

/// The functions without which a plugin opens no input.
#[derive(Debug, Clone, Copy, PartialEq, Eq, Structural)]
pub enum PluginFunction {
    Open,
    Close,
    InfoGet,
    ReadVideo,
}

/// The first function that a plugin lacks to open an input.
pub fn missing_function(open: bool, close: bool, info_get: bool, read_video: bool) -> (res: Option<
    PluginFunction,
>)
    ensures
        res == (if !open {
            Some(PluginFunction::Open)
        } else if !close {
            Some(PluginFunction::Close)
        } else if !info_get {
            Some(PluginFunction::InfoGet)
        } else if !read_video {
            Some(PluginFunction::ReadVideo)
        } else {
            None
        }),
{
    if !open {
        Some(PluginFunction::Open)
    } else if !close {
        Some(PluginFunction::Close)
    } else if !info_get {
        Some(PluginFunction::InfoGet)
    } else if !read_video {
        Some(PluginFunction::ReadVideo)
    } else {
        None
    }
}

/// Why an input cannot be used.
#[derive(Debug, Clone, Copy, PartialEq, Eq, Structural)]
pub enum InputError {
    NoSetTrack,
    NoVideoTrack,
    AudioTracksUnknown,
    VideoTrackNotSelected,
    AudioTrackNotSelected,
    NoInfo,
    NoVideoInfo,
    NoFormat,
    InvalidWidth,
    InvalidHeight,
    NoFrames,
    InvalidFrameRate,
    ImageSize(ImageSizeError),
}

/// A call of the function that chooses a track.
#[derive(Debug, Clone, Copy, PartialEq, Eq, Structural)]
pub struct TrackCall {
    pub track_type: i32,
    pub track: i32,
}

/// How far the choice of the tracks of an input has come.
#[derive(Debug, Clone, Copy, PartialEq, Eq, Structural)]
pub enum TrackStep {
    CountVideo,
    CountAudio,
    /// The number of audio tracks is known.
    SelectVideo(i32),
    SelectAudio,
    Done,
}

impl TrackStep {
    /// The call that a step makes.
    pub open spec fn call_of(self) -> Option<TrackCall> {
        match self {
            TrackStep::CountVideo => Some(
                TrackCall { track_type: TRACK_TYPE_VIDEO, track: TRACK_COUNT },
            ),
            TrackStep::CountAudio => Some(
                TrackCall { track_type: TRACK_TYPE_AUDIO, track: TRACK_COUNT },
            ),
            TrackStep::SelectVideo(_) => Some(TrackCall { track_type: TRACK_TYPE_VIDEO, track: 0 }),
            TrackStep::SelectAudio => Some(TrackCall { track_type: TRACK_TYPE_AUDIO, track: 0 }),
            TrackStep::Done => None,
        }
    }

    /// Begins the choice: a plugin without tracks has none to make.
    pub fn begin(table_flag: i32, has_set_track: bool) -> (res: Result<TrackStep, InputError>)
        ensures
            res == (if table_flag & TABLE_FLAG_MULTI_TRACK == 0 {
                Ok::<TrackStep, InputError>(TrackStep::Done)
            } else if has_set_track {
                Ok(TrackStep::CountVideo)
            } else {
                Err(InputError::NoSetTrack)
            }),
    {
        if table_flag & TABLE_FLAG_MULTI_TRACK == 0 {
            Ok(TrackStep::Done)
        } else if has_set_track {
            Ok(TrackStep::CountVideo)
        } else {
            Err(InputError::NoSetTrack)
        }
    }

    /// The call that a step makes.
    pub fn call(self) -> (res: Option<TrackCall>)
        ensures
            res == self.call_of(),
    {
        match self {
            TrackStep::CountVideo => Some(
                TrackCall { track_type: TRACK_TYPE_VIDEO, track: TRACK_COUNT },
            ),
            TrackStep::CountAudio => Some(
                TrackCall { track_type: TRACK_TYPE_AUDIO, track: TRACK_COUNT },
            ),
            TrackStep::SelectVideo(_) => Some(TrackCall { track_type: TRACK_TYPE_VIDEO, track: 0 }),
            TrackStep::SelectAudio => Some(TrackCall { track_type: TRACK_TYPE_AUDIO, track: 0 }),
            TrackStep::Done => None,
        }
    }

    /// Takes the answer to a call. There has to be a video track, and the first
    /// of each kind has to be chosen; there may be no audio track.
    pub fn answer(self, value: i32) -> (res: Result<TrackStep, InputError>)
        ensures
            res == answered(self, value),
    {
        match self {
            TrackStep::CountVideo => {
                if value > 0 {
                    Ok(TrackStep::CountAudio)
                } else {
                    Err(InputError::NoVideoTrack)
                }
            },
            TrackStep::CountAudio => {
                if value >= 0 {
                    Ok(TrackStep::SelectVideo(value))
                } else {
                    Err(InputError::AudioTracksUnknown)
                }
            },
            TrackStep::SelectVideo(audio_tracks) => {
                if value != 0 {
                    Err(InputError::VideoTrackNotSelected)
                } else if audio_tracks > 0 {
                    Ok(TrackStep::SelectAudio)
                } else {
                    Ok(TrackStep::Done)
                }
            },
            TrackStep::SelectAudio => {
                if value == 0 {
                    Ok(TrackStep::Done)
                } else {
                    Err(InputError::AudioTrackNotSelected)
                }
            },
            TrackStep::Done => Ok(TrackStep::Done),
        }
    }
}

/// The step behind the answer to a call.
pub open spec fn answered(step: TrackStep, value: i32) -> Result<TrackStep, InputError> {
    match step {
        TrackStep::CountVideo => if value > 0 {
            Ok(TrackStep::CountAudio)
        } else {
            Err(InputError::NoVideoTrack)
        },
        TrackStep::CountAudio => if value >= 0 {
            Ok(TrackStep::SelectVideo(value))
        } else {
            Err(InputError::AudioTracksUnknown)
        },
        TrackStep::SelectVideo(audio_tracks) => if value != 0 {
            Err(InputError::VideoTrackNotSelected)
        } else if audio_tracks > 0 {
            Ok(TrackStep::SelectAudio)
        } else {
            Ok(TrackStep::Done)
        },
        TrackStep::SelectAudio => if value == 0 {
            Ok(TrackStep::Done)
        } else {
            Err(InputError::AudioTrackNotSelected)
        },
        TrackStep::Done => Ok(TrackStep::Done),
    }
}

/// The header of the pictures of an input.
#[derive(Debug, Clone, Copy, PartialEq, Eq, Structural)]
pub struct BitmapHeader {
    pub width: i32,
    /// Negative where the picture stands upside down.
    pub height: i32,
    pub bit_count: u16,
    /// The bytes of a picture, or zero where they follow from the rest.
    pub size_image: u32,
}

/// Why the size of a picture is not known.
#[derive(Debug, Clone, Copy, PartialEq, Eq, Structural)]
pub enum ImageSizeError {
    NoBitCount,
    NegativeWidth,
    Overflow,
    TooLarge,
}

/// The bytes of a row: its bits, filled up to four bytes.
pub open spec fn row_bytes_of(header: BitmapHeader) -> int {
    (header.width * header.bit_count + 31) / 32 * 4
}

/// The number of rows.
pub open spec fn rows_of(header: BitmapHeader) -> int {
    if header.height < 0 {
        -header.height
    } else {
        header.height as int
    }
}

/// The bytes of a picture: as its header says, else its rows.
pub open spec fn image_size_of(header: BitmapHeader) -> Result<usize, ImageSizeError> {
    let bytes = row_bytes_of(header) * rows_of(header);
    if header.size_image > 0 {
        if header.size_image <= usize::MAX {
            Ok(header.size_image as usize)
        } else {
            Err(ImageSizeError::TooLarge)
        }
    } else if header.bit_count == 0 {
        Err(ImageSizeError::NoBitCount)
    } else if header.width < 0 {
        Err(ImageSizeError::NegativeWidth)
    } else if bytes > u64::MAX {
        Err(ImageSizeError::Overflow)
    } else if bytes > usize::MAX {
        Err(ImageSizeError::TooLarge)
    } else {
        Ok(bytes as usize)
    }
}

/// A picture whose header leaves its size open has room for all of its pixels:
/// each row is padded to a multiple of four bytes, by less than four.
pub proof fn rows_are_padded(header: BitmapHeader)
    requires
        header.width >= 0,
    ensures
        row_bytes_of(header) % 4 == 0,
        header.width * header.bit_count <= row_bytes_of(header) * 8 < header.width
            * header.bit_count + 32,
        header.size_image == 0 && image_size_of(header) is Ok ==> image_size_of(header)->Ok_0
            == row_bytes_of(header) * rows_of(header),
{
}

/// The bytes of a picture.
pub fn image_size(header: &BitmapHeader) -> (res: Result<usize, ImageSizeError>)
    ensures
        res == image_size_of(*header),
{
    if header.size_image > 0 {
        if header.size_image as u64 <= usize::MAX as u64 {
            return Ok(header.size_image as usize);
        } else {
            return Err(ImageSizeError::TooLarge);
        }
    }
    if header.bit_count == 0 {
        return Err(ImageSizeError::NoBitCount);
    }
    if header.width < 0 {
        return Err(ImageSizeError::NegativeWidth);
    }
    proof {
        assert(0 <= header.width * header.bit_count <= 0x7fff_ffff * 0xffff) by (nonlinear_arith)
            requires
                0 <= header.width <= 0x7fff_ffff,
                0 <= header.bit_count <= 0xffff,
        ;
    }
    let row_bits: u64 = (header.width as u64) * (header.bit_count as u64);
    let row_bytes: u64 = (row_bits + 31) / 32 * 4;
    let rows: u64 = if header.height < 0 {
        (-(header.height as i64)) as u64
    } else {
        header.height as u64
    };
    proof {
        assert(0 <= row_bytes * rows <= 0xffff_ffff_ffff_ffff * 0xffff_ffff_ffff_ffff)
            by (nonlinear_arith)
            requires
                0 <= row_bytes <= 0xffff_ffff_ffff_ffff,
                0 <= rows <= 0xffff_ffff_ffff_ffff,
        ;
    }
    let bytes: u128 = (row_bytes as u128) * (rows as u128);
    if bytes > u64::MAX as u128 {
        Err(ImageSizeError::Overflow)
    } else if bytes > usize::MAX as u128 {
        Err(ImageSizeError::TooLarge)
    } else {
        Ok(bytes as usize)
    }
}

/// What a plugin tells of an input.
#[derive(Debug, Clone, Copy, PartialEq, Eq, Structural)]
pub struct InputInfoValues {
    pub flag: i32,
    pub frames: i32,
    pub rate: i32,
    pub scale: i32,
    pub format: Option<BitmapHeader>,
}

/// Why an input cannot be used, as far as what is told of it shows.
pub open spec fn input_error(info: Option<InputInfoValues>) -> Option<InputError> {
    match info {
        None => Some(InputError::NoInfo),
        Some(info) => if info.flag & INFO_FLAG_VIDEO == 0 {
            Some(InputError::NoVideoInfo)
        } else {
            match info.format {
                None => Some(InputError::NoFormat),
                Some(header) => if header.width <= 0 {
                    Some(InputError::InvalidWidth)
                } else if header.height == 0 {
                    Some(InputError::InvalidHeight)
                } else if info.frames <= 0 {
                    Some(InputError::NoFrames)
                } else if info.rate <= 0 || info.scale <= 0 {
                    Some(InputError::InvalidFrameRate)
                } else {
                    match image_size_of(header) {
                        Err(error) => Some(InputError::ImageSize(error)),
                        Ok(_) => None,
                    }
                },
            }
        },
    }
}

/// An input that was opened.
pub struct InputHandle {
    pub path: String,
    pub total_frames: i32,
    pub width: i32,
    pub height: i32,
    pub rate: i32,
    pub scale: i32,
    /// The picture that was read last.
    pub buffer: Vec<u8>,
}

impl InputHandle {
    /// There are frames, and they have a size and a rate.
    pub open spec fn wf(self) -> bool {
        &&& self.total_frames > 0
        &&& self.width > 0
        &&& self.height > 0
        &&& self.rate > 0
        &&& self.scale > 0
    }
}

/// Makes the handle of an input from what the plugin tells of it, or `None`
/// where it tells nothing. The buffer has the size of a picture.
pub fn initialize_input_handle(info: Option<InputInfoValues>, path: String) -> (res: Result<
    InputHandle,
    InputError,
>)
    requires
        input_error(info) is None ==> info->0.format->0.height != i32::MIN,
    ensures
        match res {
            Err(error) => input_error(info) == Some(error),
            Ok(handle) => {
                &&& input_error(info) is None
                &&& handle.wf()
                &&& handle.path == path
                &&& handle.total_frames == info->0.frames
                &&& handle.width == info->0.format->0.width
                &&& handle.height == rows_of(info->0.format->0)
                &&& handle.rate == info->0.rate
                &&& handle.scale == info->0.scale
                &&& image_size_of(info->0.format->0) == Ok::<usize, ImageSizeError>(
                    handle.buffer@.len() as usize,
                )
                &&& forall|i: int| 0 <= i < handle.buffer@.len() ==> handle.buffer@[i] == 0
            },
        },
{
    let info: InputInfoValues = match info {
        Some(info) => info,
        None => {
            return Err(InputError::NoInfo);
        },
    };
    if info.flag & INFO_FLAG_VIDEO == 0 {
        return Err(InputError::NoVideoInfo);
    }
    let header: BitmapHeader = match info.format {
        Some(header) => header,
        None => {
            return Err(InputError::NoFormat);
        },
    };
    if header.width <= 0 {
        return Err(InputError::InvalidWidth);
    }
    if header.height == 0 {
        return Err(InputError::InvalidHeight);
    }
    if info.frames <= 0 {
        return Err(InputError::NoFrames);
    }
    if !(info.rate > 0 && info.scale > 0) {
        return Err(InputError::InvalidFrameRate);
    }
    let size: usize = match image_size(&header) {
        Ok(size) => size,
        Err(error) => {
            return Err(InputError::ImageSize(error));
        },
    };
    let height: i32 = if header.height < 0 {
        -header.height
    } else {
        header.height
    };
    Ok(
        InputHandle {
            path,
            total_frames: info.frames,
            width: header.width,
            height,
            rate: info.rate,
            scale: info.scale,
            buffer: vec![0u8; size],
        },
    )
}

/// How long a read took, in nanoseconds, and how many bytes it gave.
#[derive(Debug, Clone, Copy, PartialEq, Eq, Structural)]
pub struct ReadMeasurement {
    pub duration: u128,
    pub bytes: usize,
}

/// Why a frame was not read.
#[derive(Debug, Clone, Copy, PartialEq, Eq, Structural)]
pub enum FrameError {
    OutOfRange(i32),
    ReadFailed(i32),
    /// Another number of bytes than a picture has.
    SizeMismatch(usize, usize),
}

/// The hash of a picture before its first byte.
pub const DIGEST_START: u64 = 0xcbf2_9ce4_8422_2325;

/// The factor by which each byte of a picture spreads over its hash.
pub const DIGEST_FACTOR: u64 = 0x0000_0100_0000_01b3;

/// The hash of some bytes: each is mixed into the lowest bits, and the whole
/// multiplied.
pub open spec fn digest_of(bytes: Seq<u8>) -> u64
    decreases bytes.len(),
{
    if bytes.len() == 0 {
        DIGEST_START
    } else {
        ((digest_of(bytes.drop_last()) ^ (bytes.last() as u64)) * DIGEST_FACTOR
            % 0x1_0000_0000_0000_0000) as u64
    }
}

impl InputHandle {
    /// The path of the input.
    pub fn path(&self) -> (res: &String)
        ensures
            res == self.path,
    {
        &self.path
    }

    /// The number of frames.
    pub fn total_frames(&self) -> (res: i32)
        ensures
            res == self.total_frames,
    {
        self.total_frames
    }

    /// The width and the height.
    pub fn dimensions(&self) -> (res: (i32, i32))
        ensures
            res == (self.width, self.height),
    {
        (self.width, self.height)
    }

    /// The frame rate as a fraction.
    pub fn frame_rate(&self) -> (res: (i32, i32))
        ensures
            res == (self.rate, self.scale),
    {
        (self.rate, self.scale)
    }

    /// Whether a frame can be asked for.
    pub fn check_frame(&self, frame: i32) -> (res: Result<(), FrameError>)
        ensures
            res is Ok <==> 0 <= frame < self.total_frames,
            res matches Err(error) ==> error == FrameError::OutOfRange(frame),
    {
        if 0 <= frame && frame < self.total_frames {
            Ok(())
        } else {
            Err(FrameError::OutOfRange(frame))
        }
    }

    /// Takes what the plugin answered for a frame, and how long that took. It
    /// has to have written a whole picture.
    pub fn read_frame(&self, frame: i32, answer: i32, duration: u128) -> (res: Result<
        ReadMeasurement,
        FrameError,
    >)
        ensures
            res == (if !(0 <= frame < self.total_frames) {
                Err::<ReadMeasurement, FrameError>(FrameError::OutOfRange(frame))
            } else if answer <= 0 {
                Err(FrameError::ReadFailed(frame))
            } else if answer != self.buffer@.len() {
                Err(FrameError::SizeMismatch(self.buffer@.len() as usize, answer as usize))
            } else {
                Ok(ReadMeasurement { duration, bytes: answer as usize })
            }),
    {
        match self.check_frame(frame) {
            Ok(()) => {},
            Err(error) => {
                return Err(error);
            },
        }
        if answer <= 0 {
            return Err(FrameError::ReadFailed(frame));
        }
        let bytes: usize = answer as usize;
        if bytes != self.buffer.len() {
            return Err(FrameError::SizeMismatch(self.buffer.len(), bytes));
        }
        Ok(ReadMeasurement { duration, bytes })
    }

    /// The hash of the picture that was read last.
    pub fn frame_digest(&self) -> (res: u64)
        ensures
            res == digest_of(self.buffer@),
    {
        let mut hash: u64 = DIGEST_START;
        let n: usize = self.buffer.len();
        for i in 0..n
            invariant
                n == self.buffer.len(),
                hash == digest_of(self.buffer@.take(i as int)),
        {
            proof {
                assert(self.buffer@.take(i + 1).drop_last() =~= self.buffer@.take(i as int));
            }
            hash = (hash ^ (self.buffer[i] as u64)).wrapping_mul(DIGEST_FACTOR);
        }
        proof {
            assert(self.buffer@.take(n as int) =~= self.buffer@);
        }
        hash
    }
}

/// The four characters `\\?\` before a path that Windows takes as it is.
pub open spec fn verbatim_prefix() -> Seq<u16> {
    seq![92, 92, 63, 92]
}

/// The four characters `UNC\` behind that prefix, before a network path.
pub open spec fn unc_prefix() -> Seq<u16> {
    seq![85, 78, 67, 92]
}

/// Whether some characters begin with others.
pub open spec fn begins_with(path: Seq<u16>, prefix: Seq<u16>) -> bool {
    path.len() >= prefix.len() && path.take(prefix.len() as int) == prefix
}

/// A path without the prefix that makes Windows take it as it is. A network
/// path then begins with two backslashes.
pub open spec fn normal_path_of(path: Seq<u16>) -> Seq<u16> {
    if !begins_with(path, verbatim_prefix()) {
        path
    } else if begins_with(path.skip(4), unc_prefix()) {
        seq![92u16, 92u16] + path.skip(8)
    } else {
        path.skip(4)
    }
}

fn has_four_at(path: &Vec<u16>, at: usize, a: u16, b: u16, c: u16, d: u16) -> (res: bool)
    requires
        at <= 4,
    ensures
        res == (at <= path.len() && begins_with(path@.skip(at as int), seq![a, b, c, d])),
{
    if path.len() < at + 4 {
        return false;
    }
    let res: bool = path[at] == a && path[at + 1] == b && path[at + 2] == c && path[at + 3] == d;
    proof {
        let rest = path@.skip(at as int);
        let four = seq![a, b, c, d];
        if res {
            assert(rest.take(4) =~= four);
        } else if rest.take(4) == four {
            assert(rest.take(4)[0] == a && rest.take(4)[1] == b);
            assert(rest.take(4)[2] == c && rest.take(4)[3] == d);
        }
    }
    res
}

/// A path without the prefix that makes Windows take it as it is.
pub fn normal_path(path: &Vec<u16>) -> (res: Vec<u16>)
    ensures
        res@ == normal_path_of(path@),
{
    let mut res: Vec<u16> = Vec::new();
    let mut from: usize = 0;
    proof {
        assert(path@.skip(0) =~= path@);
    }
    if has_four_at(path, 0, 92, 92, 63, 92) {
        if has_four_at(path, 4, 85, 78, 67, 92) {
            res.push(92);
            res.push(92);
            from = 8;
        } else {
            from = 4;
        }
    }
    let ghost lead = res@;
    let n: usize = path.len();
    let mut i: usize = from;
    while i < n
        invariant
            n == path.len(),
            from <= i <= n,
            res@ == lead + path@.subrange(from as int, i as int),
        decreases n - i,
    {
        proof {
            assert(path@.subrange(from as int, i + 1) =~= path@.subrange(
                from as int,
                i as int,
            ).push(path[i as int]));
        }
        res.push(path[i]);
        i = i + 1;
    }
    proof {
        assert(res@ =~= lead + path@.skip(from as int));
        assert(res@ =~= normal_path_of(path@));
    }
    res
}

/// A path as Windows takes it: without that prefix, and with a zero behind it.
pub fn wide_path(path: &Vec<u16>) -> (res: Vec<u16>)
    ensures
        res@ == normal_path_of(path@).push(0),
{
    let mut res: Vec<u16> = normal_path(path);
    res.push(0);
    res
}

} // verus!

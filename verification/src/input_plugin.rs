//! The input plugin: the tracks of an open file, and where its frames and
//! samples are found.
use vstd::prelude::*;

use crate::config::Config;
use crate::frame_cache::PrefetchedFrame;
use crate::index::{
    audio_entries_are_picked, audio_entries_of, audio_tracks_are_picked, audio_tracks_of,
    video_entries_are_picked, video_entries_of, video_entry_is_found, video_tracks_are_picked,
    video_tracks_of, AudioEntry, AudioTrackInfo, IndexContentFile, IndexEntry, TrackInfo,
    VideoEntry, VideoOutputFormat, VideoTrackInfo,
};
use crate::prefetch::{after_read, frame_read, PrefetchConfig, PrefetchHandle};
use crate::rate::{rounded_rate_of, track_rate_of};
use crate::sorting::{
    first_from, first_from_splits, first_from_unique, is_sorted, sort, sorted, sorted_is_sorted,
    sorted_keeps_values, Keyed,
};
use crate::text::{decimal, decimal_of, extend, string_of};
use crate::timestamp::Timestamp;
use crate::video::{Clock, VideoDecoderState};

verus! {

impl Keyed for VideoEntry {
    open spec fn key(&self) -> int {
        self.timestamp.key as int
    }

    fn may_precede(&self, other: &VideoEntry) -> (res: bool) {
        self.timestamp.key <= other.timestamp.key
    }
}

impl Keyed for AudioEntry {
    open spec fn key(&self) -> int {
        self.timestamp.key as int
    }

    fn may_precede(&self, other: &AudioEntry) -> (res: bool) {
        self.timestamp.key <= other.timestamp.key
    }
}

/// What is told of a video track.
#[derive(Debug, Clone, Copy, PartialEq, Eq, Structural)]
pub struct VideoInputInfo {
    pub width: u32,
    pub height: u32,
    pub frames: u64,
    pub duration: Timestamp,
    pub output_format: VideoOutputFormat,
}

impl VideoInputInfo {
    /// The rate of the track as the settings ask for it, where its stream states
    /// a rate of its own.
    pub fn frame_rate(&self, config: &Config, stream_rate: (i32, i32)) -> (res: Option<(i32, i32)>)
        ensures
            config.fps_mode is Metadata ==> res == Some(stream_rate),
            config.fps_mode is Real ==> res == rounded_rate_of(
                self.frames,
                self.duration,
                config.fps_precision,
            ),
    {
        track_rate_of(
            config.fps_mode,
            config.fps_precision,
            stream_rate,
            self.frames,
            self.duration,
        )
    }
}

/// What is told of an audio track.
#[derive(Debug, Clone, Copy, PartialEq, Eq, Structural)]
pub struct AudioInputInfo {
    pub sample_rate: u32,
    pub channels: u16,
    pub samples: u64,
}

/// What is told of the tracks that were chosen.
#[derive(Debug, Clone, Copy, PartialEq, Eq, Structural)]
pub struct InputInfo {
    pub video: Option<VideoInputInfo>,
    pub audio: Option<AudioInputInfo>,
}

/// Whether a video track lasts for some time and has frames.
pub open spec fn playable_video(track: VideoTrackInfo) -> bool {
    track.duration.key > 0 && track.frames != 0
}

/// Whether an audio track lasts for some time and has samples.
pub open spec fn playable_audio(track: AudioTrackInfo) -> bool {
    track.duration.key > 0 && track.samples != 0
}

/// What is told of a video track.
pub open spec fn video_info(track: VideoTrackInfo) -> VideoInputInfo {
    VideoInputInfo {
        width: track.width,
        height: track.height,
        frames: track.frames,
        duration: track.duration,
        output_format: track.output_format,
    }
}

/// What is told of an audio track.
pub open spec fn audio_info(track: AudioTrackInfo) -> AudioInputInfo {
    AudioInputInfo {
        sample_rate: track.sample_rate,
        channels: track.channels,
        samples: track.samples,
    }
}

/// The item at a place, if there is one.
pub open spec fn nth<T>(items: Seq<T>, place: u32) -> Option<T> {
    if place < items.len() {
        Some(items[place as int])
    } else {
        None
    }
}

/// An open file.
pub struct FfmpegAui2InputHandle {
    pub index: IndexContentFile,
    /// The frames of the chosen video track in the order in which they are shown.
    pub video_index: Vec<VideoEntry>,
    /// The packets of the chosen audio track.
    pub audio_index: Vec<AudioEntry>,
    pub current_video_track: Option<VideoTrackInfo>,
    pub current_audio_track: Option<AudioTrackInfo>,
    /// The stream of the video decoder, where there is one.
    pub video_decoder: Option<usize>,
    /// The stream of the audio decoder, where there is one.
    pub audio_decoder: Option<usize>,
    pub prefetch: PrefetchHandle,
}

/// The decoder of a stream that is kept when a track is chosen: one of another
/// stream is dropped.
pub open spec fn kept_decoder(decoder: Option<usize>, stream: usize) -> Option<usize> {
    if decoder == Some(stream) {
        decoder
    } else {
        None
    }
}

/// What choosing a video track does to an open file, and what is told of it.
pub open spec fn video_chosen(
    before: FfmpegAui2InputHandle,
    after: FfmpegAui2InputHandle,
    place: u32,
    info: Option<VideoInputInfo>,
) -> bool {
    match nth(video_tracks_of(before.index.tracks@), place) {
        None => {
            &&& info is None
            &&& after.current_video_track == before.current_video_track
            &&& after.video_index@ == before.video_index@
            &&& after.video_decoder == before.video_decoder
        },
        Some(track) => if playable_video(track) {
            &&& info == Some(video_info(track))
            &&& after.current_video_track == Some(track)
            &&& after.video_index@ == sorted(
                video_entries_of(before.index.entries@, track.stream_index),
            )
            &&& after.video_decoder == kept_decoder(before.video_decoder, track.stream_index)
        } else {
            &&& info is None
            &&& after.current_video_track is None
            &&& after.video_index@ == before.video_index@
            &&& after.video_decoder == before.video_decoder
        },
    }
}

/// What choosing an audio track does to an open file, and what is told of it.
pub open spec fn audio_chosen(
    before: FfmpegAui2InputHandle,
    after: FfmpegAui2InputHandle,
    place: u32,
    info: Option<AudioInputInfo>,
) -> bool {
    match nth(audio_tracks_of(before.index.tracks@), place) {
        None => {
            &&& info is None
            &&& after.current_audio_track == before.current_audio_track
            &&& after.audio_index@ == before.audio_index@
            &&& after.audio_decoder == before.audio_decoder
        },
        Some(track) => if playable_audio(track) {
            &&& info == Some(audio_info(track))
            &&& after.current_audio_track == Some(track)
            &&& after.audio_index@ == audio_entries_of(before.index.entries@, track.stream_index)
            &&& after.audio_decoder == kept_decoder(before.audio_decoder, track.stream_index)
        } else {
            &&& info is None
            &&& after.current_audio_track is None
            &&& after.audio_index@ == before.audio_index@
            &&& after.audio_decoder == before.audio_decoder
        },
    }
}

/// Choosing a video track: the place counts the video tracks alone. A track that
/// lasts and has frames is told as it is; its frames are then all packets of its
/// stream, and no others, in the order of time; and a decoder is kept only where
/// it is one of its stream.
pub proof fn chosen_video_track_is_the_one_at_its_place(
    before: FfmpegAui2InputHandle,
    after: FfmpegAui2InputHandle,
    place: u32,
    info: Option<VideoInputInfo>,
)
    requires
        video_chosen(before, after, place, info),
    ensures
        ({
            let videos = before.index.tracks@.filter(|t: TrackInfo| t is Video);
            let entries = before.index.entries@;
            &&& info is Some <==> place < videos.len() && videos[place as int]->Video_0.duration.key
                > 0 && videos[place as int]->Video_0.frames > 0
            &&& info matches Some(told) ==> {
                let track = videos[place as int]->Video_0;
                &&& told.width == track.width
                &&& told.height == track.height
                &&& told.frames == track.frames
                &&& told.duration == track.duration
                &&& told.output_format == track.output_format
                &&& after.current_video_track == Some(track)
                &&& after.video_index@.len() == entries.filter(
                    |e: IndexEntry| e is Video && e->Video_0.stream_index == track.stream_index,
                ).len()
                &&& forall|e: VideoEntry|
                    #[trigger] after.video_index@.contains(e) <==> entries.contains(
                        IndexEntry::Video(e),
                    ) && e.stream_index == track.stream_index
                &&& forall|i: int, j: int|
                    0 <= i <= j < after.video_index@.len() ==> (
                    #[trigger] after.video_index@[i]).timestamp.key <= (
                    #[trigger] after.video_index@[j]).timestamp.key
                &&& after.video_decoder is Some ==> after.video_decoder == Some(track.stream_index)
                &&& after.video_decoder is Some <==> before.video_decoder == Some(
                    track.stream_index,
                )
            }
            &&& info is None ==> after.video_index@ == before.video_index@ && after.video_decoder
                == before.video_decoder
            &&& info is None && place < videos.len() ==> after.current_video_track is None
            &&& place >= videos.len() ==> after.current_video_track == before.current_video_track
        }),
{
    broadcast use vstd::seq_lib::group_to_multiset_ensures;

    let tracks = before.index.tracks@;
    let entries = before.index.entries@;
    video_tracks_are_picked(tracks);
    if let Some(told) = info {
        let track = video_tracks_of(tracks)[place as int];
        let stream = track.stream_index;
        let own = video_entries_of(entries, stream);
        video_entries_are_picked(entries, stream);
        sorted_is_sorted(own);
        sorted_keeps_values(own);
        let shown = after.video_index@;
        assert forall|e: VideoEntry| #[trigger] shown.contains(e) <==> entries.contains(
            IndexEntry::Video(e),
        ) && e.stream_index == stream by {
            video_entry_is_found(entries, stream, e);
            assert(shown.contains(e) <==> shown.to_multiset().count(e) > 0);
            assert(own.contains(e) <==> own.to_multiset().count(e) > 0);
        }
        assert forall|i: int, j: int| 0 <= i <= j < shown.len() implies (
        #[trigger] shown[i]).timestamp.key <= (#[trigger] shown[j]).timestamp.key by {
            assert(shown[i].key() <= shown[j].key());
        }
    }
}

/// Choosing an audio track: the place counts the audio tracks alone. A track that
/// lasts and has samples is told as it is; its packets are then those of its
/// stream in the order of the file; and a decoder is kept only where it is one of
/// its stream.
pub proof fn chosen_audio_track_is_the_one_at_its_place(
    before: FfmpegAui2InputHandle,
    after: FfmpegAui2InputHandle,
    place: u32,
    info: Option<AudioInputInfo>,
)
    requires
        audio_chosen(before, after, place, info),
    ensures
        ({
            let audios = before.index.tracks@.filter(|t: TrackInfo| t is Audio);
            &&& info is Some <==> place < audios.len() && audios[place as int]->Audio_0.duration.key
                > 0 && audios[place as int]->Audio_0.samples > 0
            &&& info matches Some(told) ==> {
                let track = audios[place as int]->Audio_0;
                &&& told.sample_rate == track.sample_rate
                &&& told.channels == track.channels
                &&& told.samples == track.samples
                &&& after.current_audio_track == Some(track)
                &&& after.audio_index@ == before.index.entries@.filter(
                    |e: IndexEntry| e is Audio && e->Audio_0.stream_index == track.stream_index,
                ).map_values(|e: IndexEntry| e->Audio_0)
                &&& after.audio_decoder is Some ==> after.audio_decoder == Some(track.stream_index)
                &&& after.audio_decoder is Some <==> before.audio_decoder == Some(
                    track.stream_index,
                )
            }
            &&& info is None ==> after.audio_index@ == before.audio_index@ && after.audio_decoder
                == before.audio_decoder
            &&& info is None && place < audios.len() ==> after.current_audio_track is None
            &&& place >= audios.len() ==> after.current_audio_track == before.current_audio_track
        }),
{
    audio_tracks_are_picked(before.index.tracks@);
    if let Some(told) = info {
        let track = audio_tracks_of(before.index.tracks@)[place as int];
        audio_entries_are_picked(before.index.entries@, track.stream_index);
    }
}

/// Why something cannot be read.
#[derive(Debug, Clone, Copy, PartialEq, Eq, Structural)]
pub enum ReadError {
    EmptyVideoIndex,
    EmptyAudioIndex,
    FrameOutOfRange(usize),
    NoVideoTrack,
    NoAudioTrack,
}

/// How a frame is read.
pub enum VideoRead {
    /// It was decoded ahead.
    Cached(PrefetchedFrame),
    /// It is decoded now, into a format.
    Decode(VideoEntry, VideoOutputFormat),
}

/// The lowest bits of a count that a 32-bit number holds.
pub open spec fn low_bits(n: int) -> u32 {
    (n % 0x1_0000_0000) as u32
}

/// A count below 2^32 is kept as it is; a larger one is kept but for whole
/// multiples of that.
pub proof fn small_counts_are_kept(n: int)
    requires
        n >= 0,
    ensures
        n < 0x1_0000_0000 ==> low_bits(n) == n,
        (n - low_bits(n)) % 0x1_0000_0000 == 0,
        0 <= low_bits(n) <= n,
{
}

pub(crate) fn to_low_bits(n: usize) -> (res: u32)
    ensures
        res == low_bits(n as int),
{
    ((n as u64) % 0x1_0000_0000) as u32
}

impl FfmpegAui2InputHandle {
    /// The frames stand in the order of time, and the frames decoded ahead are
    /// in order.
    pub open spec fn wf(self) -> bool {
        &&& is_sorted(self.video_index@)
        &&& self.prefetch.wf()
    }

    /// A file that was just opened: no track is chosen.
    pub fn open(index: IndexContentFile) -> (res: FfmpegAui2InputHandle)
        ensures
            res.wf(),
            res.index == index,
            res.video_index@.len() == 0,
            res.audio_index@.len() == 0,
            res.current_video_track is None,
            res.current_audio_track is None,
            res.video_decoder is None,
            res.audio_decoder is None,
            res.prefetch.cache@.dom() =~= Set::<usize>::empty(),
            res.prefetch.config is None,
    {
        FfmpegAui2InputHandle {
            index,
            video_index: Vec::new(),
            audio_index: Vec::new(),
            current_video_track: None,
            current_audio_track: None,
            video_decoder: None,
            audio_decoder: None,
            prefetch: PrefetchHandle::new(),
        }
    }

    fn choose_video(&mut self, video_track: u32) -> (res: Option<VideoInputInfo>)
        requires
            old(self).wf(),
        ensures
            final(self).wf(),
            video_chosen(*old(self), *final(self), video_track, res),
            *final(self) == (FfmpegAui2InputHandle {
                current_video_track: final(self).current_video_track,
                video_index: final(self).video_index,
                video_decoder: final(self).video_decoder,
                ..*old(self)
            }),
    {
        let tracks: Vec<VideoTrackInfo> = self.index.video_tracks();
        if (video_track as u64) >= tracks.len() as u64 {
            return None;
        }
        let track: VideoTrackInfo = tracks[video_track as usize];
        if track.duration.key <= 0 || track.frames == 0 {
            self.current_video_track = None;
            return None;
        }
        let entries: Vec<VideoEntry> = self.index.video_entries(track.stream_index);
        proof {
            sorted_is_sorted(entries@);
        }
        self.video_index = sort(entries);
        let stale: bool = match self.video_decoder {
            Some(stream) => stream != track.stream_index,
            None => false,
        };
        if stale {
            self.video_decoder = None;
        }
        self.current_video_track = Some(track);
        Some(
            VideoInputInfo {
                width: track.width,
                height: track.height,
                frames: track.frames,
                duration: track.duration,
                output_format: track.output_format,
            },
        )
    }

    fn choose_audio(&mut self, audio_track: u32) -> (res: Option<AudioInputInfo>)
        requires
            old(self).wf(),
        ensures
            final(self).wf(),
            audio_chosen(*old(self), *final(self), audio_track, res),
            *final(self) == (FfmpegAui2InputHandle {
                current_audio_track: final(self).current_audio_track,
                audio_index: final(self).audio_index,
                audio_decoder: final(self).audio_decoder,
                ..*old(self)
            }),
    {
        let tracks: Vec<AudioTrackInfo> = self.index.audio_tracks();
        if (audio_track as u64) >= tracks.len() as u64 {
            return None;
        }
        let track: AudioTrackInfo = tracks[audio_track as usize];
        if track.duration.key <= 0 || track.samples == 0 {
            self.current_audio_track = None;
            return None;
        }
        self.audio_index = self.index.audio_entries(track.stream_index);
        let stale: bool = match self.audio_decoder {
            Some(stream) => stream != track.stream_index,
            None => false,
        };
        if stale {
            self.audio_decoder = None;
        }
        self.current_audio_track = Some(track);
        Some(
            AudioInputInfo {
                sample_rate: track.sample_rate,
                channels: track.channels,
                samples: track.samples,
            },
        )
    }

    /// Chooses a video and an audio track by their place, and tells of them. A
    /// track that does not exist leaves the one chosen before; one without
    /// duration or content unsets it. The frames decoded ahead are dropped.
    pub fn get_input_info(&mut self, video_track: u32, audio_track: u32) -> (res: InputInfo)
        requires
            old(self).wf(),
        ensures
            final(self).wf(),
            video_chosen(*old(self), *final(self), video_track, res.video),
            audio_chosen(*old(self), *final(self), audio_track, res.audio),
            final(self).index == old(self).index,
            final(self).prefetch.config is None,
            final(self).prefetch.cache@ == crate::frame_cache::no_frames(),
            final(self).prefetch.position == old(self).prefetch.position,
    {
        let video: Option<VideoInputInfo> = self.choose_video(video_track);
        self.prefetch.set_config(None);
        let audio: Option<AudioInputInfo> = self.choose_audio(audio_track);
        InputInfo { video, audio }
    }

    /// Begins to decode the chosen video track ahead. For each of its frames
    /// the end of its window is given, and that of a window at zero.
    pub fn start_prefetch(&mut self, window_ends: Vec<Timestamp>, first_window_end: Timestamp)
        requires
            old(self).wf(),
            window_ends@.len() == old(self).video_index@.len(),
        ensures
            final(self).wf(),
            final(self).prefetch.cache@ == crate::frame_cache::no_frames(),
            final(self).prefetch.position == old(self).prefetch.position,
            match old(self).current_video_track {
                Some(track) => {
                    &&& final(self).prefetch.config matches Some(config)
                    &&& config.video_index@ == old(self).video_index@
                    &&& config.window_ends@ == window_ends@
                    &&& config.first_window_end == first_window_end
                    &&& config.output_format == track.output_format
                },
                None => final(self).prefetch.config is None,
            },
            *final(self) == (FfmpegAui2InputHandle {
                prefetch: final(self).prefetch,
                ..*old(self)
            }),
    {
        let config: Option<PrefetchConfig> = match self.current_video_track {
            Some(track) => {
                let video_index: Vec<VideoEntry> = copy_entries(&self.video_index);
                Some(
                    PrefetchConfig {
                        video_index,
                        window_ends,
                        first_window_end,
                        output_format: track.output_format,
                    },
                )
            },
            None => None,
        };
        self.prefetch.set_config(config);
    }

    /// The numbers of the video and the audio tracks, as 32-bit numbers.
    pub fn get_track_count(&self) -> (res: (u32, u32))
        ensures
            res.0 == low_bits(video_tracks_of(self.index.tracks@).len() as int),
            res.1 == low_bits(audio_tracks_of(self.index.tracks@).len() as int),
    {
        let video: Vec<VideoTrackInfo> = self.index.video_tracks();
        let audio: Vec<AudioTrackInfo> = self.index.audio_tracks();
        (to_low_bits(video.len()), to_low_bits(audio.len()))
    }

    /// The first frame that is not shown before a time, or the last of all. A
    /// time that is no number lies before all frames.
    pub fn time_to_frame(&self, time: Option<Timestamp>) -> (res: Result<u32, ReadError>)
        requires
            self.wf(),
        ensures
            self.video_index@.len() == 0 ==> res == Err::<u32, ReadError>(
                ReadError::EmptyVideoIndex,
            ),
            self.video_index@.len() > 0 ==> res == Ok::<u32, ReadError>(
                low_bits(frame_at(self.video_index@, time)),
            ),
    {
        let n: usize = self.video_index.len();
        if n == 0 {
            return Err(ReadError::EmptyVideoIndex);
        }
        let place: usize = match time {
            Some(t) => first_frame_from(&self.video_index, t),
            None => 0,
        };
        if place < n {
            Ok(to_low_bits(place))
        } else {
            Ok(to_low_bits(n - 1))
        }
    }

    /// Reads a frame of the chosen video track: one that was decoded ahead, or
    /// one to be decoded now. The frames before one that was decoded ahead are
    /// dropped.
    pub fn read_video(&mut self, frame: u32) -> (res: Result<VideoRead, ReadError>)
        requires
            old(self).wf(),
        ensures
            final(self).wf(),
            *final(self) == (FfmpegAui2InputHandle {
                prefetch: final(self).prefetch,
                ..*old(self)
            }),
            ({
                let key = frame as usize;
                if frame >= old(self).video_index@.len() {
                    &&& res == Err::<VideoRead, ReadError>(ReadError::FrameOutOfRange(key))
                    &&& final(self).prefetch == old(self).prefetch
                } else {
                    match old(self).current_video_track {
                        None => {
                            &&& res == Err::<VideoRead, ReadError>(ReadError::NoVideoTrack)
                            &&& final(self).prefetch == old(self).prefetch
                        },
                        Some(track) => {
                            &&& final(self).prefetch.position == key
                            &&& final(self).prefetch.config == old(self).prefetch.config
                            &&& final(self).prefetch.cache@ == after_read(
                                old(self).prefetch.cache@,
                                key,
                            )
                            &&& res == Ok::<VideoRead, ReadError>(
                                match frame_read(old(self).prefetch.cache@, key) {
                                    Some(data) => VideoRead::Cached(data),
                                    None => VideoRead::Decode(
                                        old(self).video_index@[frame as int],
                                        track.output_format,
                                    ),
                                },
                            )
                        },
                    }
                }
            }),
            res == frame_given(*old(self), frame),
    {
        let key: usize = frame as usize;
        if (frame as u64) >= self.video_index.len() as u64 {
            return Err(ReadError::FrameOutOfRange(key));
        }
        let entry: VideoEntry = self.video_index[key];
        match self.current_video_track {
            None => Err(ReadError::NoVideoTrack),
            Some(track) => {
                match self.prefetch.read(key) {
                    Some(data) => Ok(VideoRead::Cached(data)),
                    None => Ok(VideoRead::Decode(entry, track.output_format)),
                }
            },
        }
    }
}

/// What a reader of a frame is given.
pub open spec fn frame_given(handle: FfmpegAui2InputHandle, frame: u32) -> Result<
    VideoRead,
    ReadError,
> {
    if frame >= handle.video_index@.len() {
        Err(ReadError::FrameOutOfRange(frame as usize))
    } else {
        match handle.current_video_track {
            None => Err(ReadError::NoVideoTrack),
            Some(track) => Ok(
                match frame_read(handle.prefetch.cache@, frame as usize) {
                    Some(data) => VideoRead::Cached(data),
                    None => VideoRead::Decode(
                        handle.video_index@[frame as int],
                        track.output_format,
                    ),
                },
            ),
        }
    }
}

/// The frame that is given is the one that was asked for: what was decoded ahead
/// for its number, else the entry at its place, to be decoded into the format of
/// the track. One is given exactly where the frame exists and a track is chosen.
pub proof fn given_frame_is_the_one_asked_for(handle: FfmpegAui2InputHandle, frame: u32)
    ensures
        frame_given(handle, frame) is Ok <==> frame < handle.video_index@.len()
            && handle.current_video_track is Some,
        frame_given(handle, frame) matches Ok(VideoRead::Cached(data)) ==> {
            &&& handle.prefetch.cache@.contains_key(frame as usize)
            &&& handle.prefetch.cache@[frame as usize] == data
        },
        frame_given(handle, frame) matches Ok(VideoRead::Decode(entry, format)) ==> {
            &&& !handle.prefetch.cache@.contains_key(frame as usize)
            &&& entry == handle.video_index@[frame as int]
            &&& format == handle.current_video_track->0.output_format
        },
        frame_given(handle, frame) matches Err(ReadError::FrameOutOfRange(n)) ==> n == frame
            && frame >= handle.video_index@.len(),
        frame_given(handle, frame) == Err::<VideoRead, ReadError>(ReadError::NoVideoTrack)
            ==> frame < handle.video_index@.len() && handle.current_video_track is None,
{
}

fn copy_entries(entries: &Vec<VideoEntry>) -> (res: Vec<VideoEntry>)
    ensures
        res@ == entries@,
{
    let mut res: Vec<VideoEntry> = Vec::new();
    let n: usize = entries.len();
    for i in 0..n
        invariant
            n == entries.len(),
            res@ == entries@.take(i as int),
    {
        proof {
            assert(entries@.take(i + 1) =~= entries@.take(i as int).push(entries[i as int]));
        }
        res.push(entries[i]);
    }
    proof {
        assert(entries@.take(n as int) =~= entries@);
    }
    res
}

/// The frame at a time: the first that is not shown before it, or the last.
pub open spec fn frame_at(video_index: Seq<VideoEntry>, time: Option<Timestamp>) -> int {
    let place = match time {
        Some(t) => first_from(video_index, t.key as int),
        None => 0,
    };
    if place < video_index.len() {
        place
    } else {
        video_index.len() - 1
    }
}

fn first_frame_from(video_index: &Vec<VideoEntry>, time: Timestamp) -> (res: usize)
    requires
        is_sorted(video_index@),
    ensures
        res == first_from(video_index@, time.key as int),
{
    let mut low: usize = 0;
    let mut high: usize = video_index.len();
    while low < high
        invariant
            low <= high <= video_index.len(),
            is_sorted(video_index@),
            forall|i: int| 0 <= i < low ==> (#[trigger] video_index@[i]).key() < time.key,
            forall|i: int|
                high <= i < video_index.len() ==> (#[trigger] video_index@[i]).key() >= time.key,
        decreases high - low,
    {
        let middle: usize = low + (high - low) / 2;
        if video_index[middle].timestamp.key < time.key {
            proof {
                assert forall|i: int| 0 <= i < middle + 1 implies (#[trigger] video_index@[i]).key()
                    < time.key by {
                    assert(video_index@[i].key() <= video_index@[middle as int].key());
                }
            }
            low = middle + 1;
        } else {
            proof {
                assert forall|i: int| middle <= i < video_index.len() implies (
                #[trigger] video_index@[i]).key() >= time.key by {
                    assert(video_index@[middle as int].key() <= video_index@[i].key());
                }
            }
            high = middle;
        }
    }
    proof {
        first_from_unique(video_index@, time.key as int, low as int);
    }
    low
}

/// The frame at a time is the first that is not shown before it: each frame before
/// it is, and it is not, unless it is the last of all.
pub proof fn frame_at_a_time_is_the_first_not_before(video_index: Seq<VideoEntry>, time: Timestamp)
    requires
        is_sorted(video_index),
        video_index.len() > 0,
    ensures
        ({
            let found = frame_at(video_index, Some(time));
            &&& 0 <= found < video_index.len()
            &&& forall|i: int|
                0 <= i < found ==> (#[trigger] video_index[i]).timestamp.key < time.key
            &&& video_index[found].timestamp.key >= time.key || found == video_index.len() - 1
        }),
        frame_at(video_index, None) == 0,
{
    let place = first_from(video_index, time.key as int);
    first_from_splits(video_index, time.key as int);
    let found = frame_at(video_index, Some(time));
    assert forall|i: int| 0 <= i < found implies (#[trigger] video_index[i]).timestamp.key
        < time.key by {
        assert(video_index[i].key() < time.key);
    }
    if place < video_index.len() {
        assert(video_index[place].key() >= time.key);
    }
}

/// The time of a frame leads back to a frame that is shown at that time, and to
/// the frame itself where no other is.
pub proof fn time_leads_back_to_frame(video_index: Seq<VideoEntry>, frame: int)
    requires
        is_sorted(video_index),
        0 <= frame < video_index.len(),
    ensures
        ({
            let found = frame_at(video_index, Some(video_index[frame].timestamp));
            &&& 0 <= found <= frame
            &&& video_index[found].timestamp == video_index[frame].timestamp
            &&& (forall|i: int|
                0 <= i < video_index.len() && i != frame ==> (#[trigger] video_index[i]).timestamp
                    != video_index[frame].timestamp) ==> found == frame
        }),
{
    let time = video_index[frame].timestamp;
    let place = first_from(video_index, time.key as int);
    first_from_splits(video_index, time.key as int);
    if place > frame {
        assert(video_index[frame].key() < time.key);
    }
    assert(video_index[place].key() <= video_index[frame].key());
    assert(video_index[place].timestamp.key == time.key);
}

/// Whether a frame that is decoded now is reached by a seek: it lies back in
/// time, or its keyframe still lies ahead.
pub open spec fn read_seeks(clock: Clock, entry: VideoEntry) -> bool {
    entry.timestamp.key < clock.before.key || entry.last_keyframe_timestamp.key > clock.after.key
}

/// Whether a frame that is decoded now is reached by a seek.
pub fn read_needs_seek(decoder: &VideoDecoderState, entry: &VideoEntry) -> (res: bool)
    ensures
        res == read_seeks(decoder.clock, *entry),
        entry.timestamp.key < decoder.clock.before.key ==> res,
        decoder.clock.after.key < entry.last_keyframe_timestamp.key ==> res,
        decoder.clock.before.key <= entry.timestamp.key && entry.last_keyframe_timestamp.key
            <= decoder.clock.after.key ==> !res,
{
    entry.timestamp.key < decoder.clock.before.key || entry.last_keyframe_timestamp.key
        > decoder.clock.after.key
}

/// A frame that lies back in time is always reached by a seek, whether it is a
/// keyframe or not: a decoder does not go back.
pub proof fn frame_back_in_time_is_sought(decoder: VideoDecoderState, entry: VideoEntry)
    requires
        entry.timestamp.key < decoder.clock.before.key,
    ensures
        read_seeks(decoder.clock, entry),
{
}

/// A frame whose keyframe still lies ahead is reached by a seek, so that nothing
/// before the keyframe is decoded for it.
pub proof fn keyframe_ahead_is_sought(decoder: VideoDecoderState, entry: VideoEntry)
    requires
        entry.last_keyframe_timestamp.key > decoder.clock.after.key,
    ensures
        read_seeks(decoder.clock, entry),
{
}

/// A frame that does not lie back in time, and whose keyframe was passed, is
/// reached by decoding on.
pub proof fn frame_ahead_is_decoded_on(decoder: VideoDecoderState, entry: VideoEntry)
    requires
        decoder.clock.before.key <= entry.timestamp.key,
        entry.last_keyframe_timestamp.key <= decoder.clock.after.key,
    ensures
        !read_seeks(decoder.clock, entry),
{
}

/// Of an entry only its time and that of its keyframe decide on the seek, and an
/// earlier frame is sought where a later one with the same keyframe is because
/// it lies back in time.
pub proof fn only_times_decide_on_a_seek(clock: Clock, entry: VideoEntry, other: VideoEntry)
    requires
        entry.last_keyframe_timestamp == other.last_keyframe_timestamp,
        other.timestamp.key <= entry.timestamp.key,
    ensures
        read_seeks(clock, entry) ==> read_seeks(clock, other),
        entry.timestamp == other.timestamp ==> read_seeks(clock, entry) == read_seeks(clock, other),
{
}

/// A decoder that has decoded nothing yet seeks for a frame with a keyframe
/// after the beginning of time.
pub proof fn first_read_seeks(entry: VideoEntry)
    requires
        entry.last_keyframe_timestamp.key > crate::timestamp::BEGINNING_KEY,
    ensures
        read_seeks(crate::video::at_beginning(), entry),
{
}

/// Decoded samples, interleaved, from a place in the stream on.
pub struct AudioWindow {
    /// The place of the first sample, counted per channel.
    pub buffer_start: usize,
    pub buffer: Vec<u32>,
}

/// How a range of samples gets into the window.
#[derive(Debug, Clone, Copy, PartialEq, Eq, Structural)]
pub enum AudioRead {
    /// The input is sought to a time first.
    Seek(Timestamp),
    /// The window is filled on.
    Fill,
}

/// A range of samples: the place of the first, and how many.
#[derive(Debug, Clone, Copy, PartialEq, Eq, Structural)]
pub struct SampleRange {
    pub start: usize,
    pub length: usize,
}

/// The range that a pair of numbers stands for: a negative one counts as zero.
pub fn sample_range(start: i32, length: i32) -> (res: SampleRange)
    ensures
        res.start == (if start < 0 {
            0
        } else {
            start as int
        }),
        res.length == (if length < 0 {
            0
        } else {
            length as int
        }),
{
    let start: usize = if start < 0 {
        0
    } else {
        start as usize
    };
    let length: usize = if length < 0 {
        0
    } else {
        length as usize
    };
    SampleRange { start, length }
}

impl FfmpegAui2InputHandle {
    /// The chosen audio track, from which samples are read.
    pub fn audio_source(&self) -> (res: Result<AudioTrackInfo, ReadError>)
        ensures
            match res {
                Ok(track) => self.audio_index@.len() > 0 && self.current_audio_track == Some(track),
                Err(ReadError::EmptyAudioIndex) => self.audio_index@.len() == 0,
                Err(ReadError::NoAudioTrack) => self.audio_index@.len() > 0
                    && self.current_audio_track is None,
                Err(_) => false,
            },
    {
        if self.audio_index.len() == 0 {
            return Err(ReadError::EmptyAudioIndex);
        }
        match self.current_audio_track {
            Some(track) => Ok(track),
            None => Err(ReadError::NoAudioTrack),
        }
    }
}

impl AudioWindow {
    /// There is a channel, and the place behind the window can be counted.
    pub open spec fn wf(self, channels: usize) -> bool {
        &&& channels > 0
        &&& self.end(channels) <= usize::MAX
    }

    /// The place behind the window.
    pub open spec fn end(self, channels: usize) -> int {
        self.buffer_start + self.buffer@.len() as int / channels as int
    }

    /// Whether the window holds the samples of a place.
    pub open spec fn holds(self, place: int, channels: usize) -> bool {
        self.buffer_start <= place < self.end(channels)
    }

    /// The sample of a channel at a place.
    pub open spec fn sample(self, place: int, channel: int, channels: usize) -> u32 {
        self.buffer@[(place - self.buffer_start) * channels + channel]
    }

    /// Whether a place is so far off that it is sought: before the window, or
    /// more than a second behind it.
    pub open spec fn far(self, start: int, channels: usize, sample_rate: u32) -> bool {
        start < self.buffer_start || start > self.end(channels) + sample_rate
    }

    /// The samples that are dropped so that the window begins at a place.
    pub open spec fn dropped(self, start: int, channels: usize) -> int {
        let ahead = (start - self.buffer_start) * channels;
        if ahead < self.buffer@.len() {
            ahead
        } else {
            self.buffer@.len() as int
        }
    }

    /// The window that begins at a place, with the samples that are left.
    pub open spec fn from(self, start: usize, rest: Vec<u32>) -> AudioWindow {
        AudioWindow { buffer_start: start, buffer: rest }
    }

    /// Prepares the window for the samples from a place on; `start_time` is the
    /// time of that place. A place within reach becomes the beginning of the
    /// window; one that is far is sought, from the last packet before its time.
    pub fn prepare(
        &mut self,
        audio_index: &Vec<AudioEntry>,
        start: usize,
        start_time: Timestamp,
        channels: usize,
        sample_rate: u32,
    ) -> (res: AudioRead)
        requires
            old(self).wf(channels),
            start >= old(self).buffer_start ==> old(self).end(channels) + sample_rate
                <= usize::MAX,
            old(self).far(start as int, channels, sample_rate) ==> audio_index@.len() > 0,
        ensures
            if old(self).far(start as int, channels, sample_rate) {
                let place = first_from(audio_index@, start_time.key as int);
                &&& *final(self) == *old(self)
                &&& res == AudioRead::Seek(
                    audio_index@[if place > 0 {
                        place - 1
                    } else {
                        0
                    }].timestamp,
                )
            } else {
                &&& res is Fill
                &&& final(self).buffer_start == start
                &&& final(self).buffer@ == old(self).buffer@.skip(
                    old(self).dropped(start as int, channels),
                )
            },
            res is Fill <==> old(self).buffer_start <= start <= old(self).end(channels)
                + sample_rate,
            res is Fill ==> final(self).buffer_start == start && forall|place: int, channel: int|
                start <= place < old(self).end(channels) && 0 <= channel < channels
                    ==> final(self).holds(place, channels) && #[trigger] final(self).sample(
                    place,
                    channel,
                    channels,
                ) == old(self).sample(place, channel, channels),
            res is Fill && start <= old(self).end(channels) ==> final(self).end(channels) == old(
                self,
            ).end(channels),
            res matches AudioRead::Seek(time) ==> exists|k: int|
                0 <= k < audio_index@.len() && (#[trigger] audio_index@[k]).timestamp == time
                    && is_last_before(audio_index@, k, start_time),
    {
        let end: usize = self.buffer_start + self.buffer.len() / channels;
        if start < self.buffer_start || start > end + sample_rate as usize {
            let mut place: usize = 0;
            let n: usize = audio_index.len();
            while place < n && audio_index[place].timestamp.key < start_time.key
                invariant
                    n == audio_index.len(),
                    place <= n,
                    forall|i: int|
                        0 <= i < place ==> (#[trigger] audio_index@[i]).key() < start_time.key,
                decreases n - place,
            {
                place = place + 1;
            }
            proof {
                first_from_unique(audio_index@, start_time.key as int, place as int);
            }
            let before: usize = if place > 0 {
                place - 1
            } else {
                0
            };
            proof {
                let k = before as int;
                first_from_splits(audio_index@, start_time.key as int);
                assert forall|i: int| 0 <= i < place implies (#[trigger] audio_index@[i]).timestamp.key
                    < start_time.key by {
                    assert(audio_index@[i].key() < start_time.key);
                }
                if place < n {
                    assert(audio_index@[place as int].key() >= start_time.key);
                }
                assert(is_last_before(audio_index@, k, start_time));
            }
            return AudioRead::Seek(audio_index[before].timestamp);
        }
        proof {
            window_moves_no_sample(*self, start, channels);
        }
        if start > self.buffer_start {
            let held: usize = self.buffer.len();
            let gap: usize = start - self.buffer_start;
            proof {
                assert(gap * channels <= 0xffff_ffff_ffff_ffff * 0xffff_ffff_ffff_ffff)
                    by (nonlinear_arith)
                    requires
                        0 <= gap <= 0xffff_ffff_ffff_ffff,
                        0 <= channels <= 0xffff_ffff_ffff_ffff,
                ;
                assert(gap * channels >= 0) by (nonlinear_arith)
                    requires
                        gap >= 0,
                        channels >= 0,
                ;
            }
            let ahead: u128 = (gap as u128) * (channels as u128);
            let dropped: usize = if ahead < held as u128 {
                ahead as usize
            } else {
                held
            };
            let rest: Vec<u32> = self.buffer.split_off(dropped);
            self.buffer = rest;
            self.buffer_start = start;
        } else {
            proof {
                assert(self.dropped(start as int, channels) == 0) by {
                    assert((start - self.buffer_start) * channels == 0) by (nonlinear_arith)
                        requires
                            start == self.buffer_start,
                    ;
                }
                assert(self.buffer@.skip(0) =~= self.buffer@);
            }
        }
        proof {
            assert(self.buffer@ == old(self).buffer@.skip(
                old(self).dropped(start as int, channels),
            ));
            assert(*self == old(self).from(start, self.buffer));
        }
        AudioRead::Fill
    }

    /// The samples of a range that begins within the window or right behind it.
    /// Those that the window does not hold are silent.
    pub fn read(&self, range: SampleRange, channels: usize) -> (res: Vec<u32>)
        requires
            self.buffer_start <= range.start,
            (range.start - self.buffer_start) * channels <= self.buffer@.len(),
            range.length * channels <= usize::MAX,
        ensures
            res@ == Seq::new(
                (range.length * channels) as nat,
                |i: int|
                    {
                        let at = (range.start - self.buffer_start) * channels + i;
                        if at < self.buffer@.len() {
                            self.buffer@[at]
                        } else {
                            0
                        }
                    },
            ),
            res@ == window_range(*self, range, channels),
    {
        proof {
            assert((range.start - self.buffer_start) * channels >= 0) by (nonlinear_arith)
                requires
                    range.start >= self.buffer_start,
                    channels >= 0,
            ;
        }
        let held: usize = self.buffer.len();
        let offset: usize = (range.start - self.buffer_start) * channels;
        let needed: usize = range.length * channels;
        let available: usize = held - offset;
        let count: usize = if needed < available {
            needed
        } else {
            available
        };
        let mut output: Vec<u32> = Vec::new();
        for i in 0..needed
            invariant
                offset == (range.start - self.buffer_start) * channels,
                held == self.buffer.len(),
                offset <= held,
                available == held - offset,
                count == (if needed < available {
                    needed
                } else {
                    available
                }),
                output.len() == i,
                forall|j: int|
                    0 <= j < i ==> #[trigger] output[j] == (if offset + j < held {
                        self.buffer@[offset + j]
                    } else {
                        0
                    }),
        {
            if i < count {
                output.push(self.buffer[offset + i]);
            } else {
                output.push(0);
            }
        }
        output
    }
}

/// Whether a packet is the last before a time: it and all before it begin before
/// the time, and the next does not. Where the first does not, it is the first.
pub open spec fn is_last_before(index: Seq<AudioEntry>, k: int, time: Timestamp) -> bool {
    ||| {
        &&& forall|i: int| 0 <= i <= k ==> (#[trigger] index[i]).timestamp.key < time.key
        &&& k + 1 < index.len() ==> index[k + 1].timestamp.key >= time.key
    }
    ||| k == 0 && index[0].timestamp.key >= time.key
}

/// Moving the beginning of a window to a place that it reaches moves no sample:
/// each place from there on has the samples that it had, and the end stays.
pub proof fn window_moves_no_sample(window: AudioWindow, start: usize, channels: usize)
    requires
        window.wf(channels),
        window.buffer_start <= start,
    ensures
        forall|rest: Vec<u32>, place: int, channel: int|
            rest@ == window.buffer@.skip(window.dropped(start as int, channels)) && start <= place
                < window.end(channels) && 0 <= channel < channels ==> window.from(start, rest).holds(place, channels) && #[trigger] window.from(start, rest).sample(
                place,
                channel,
                channels,
            ) == window.sample(place, channel, channels),
        forall|rest: Vec<u32>|
            rest@ == window.buffer@.skip(window.dropped(start as int, channels)) && start
                <= window.end(channels) ==> #[trigger] window.from(start, rest).end(
                channels,
            ) == window.end(channels),
{
    let c = channels as int;
    let len = window.buffer@.len() as int;
    let gap = start - window.buffer_start;
    let whole = len / c;
    assert(0 <= whole * c <= len) by (nonlinear_arith)
        requires
            whole == len / c,
            c > 0,
            len >= 0,
    ;
    assert forall|rest: Vec<u32>|
        rest@ == window.buffer@.skip(window.dropped(start as int, channels)) && start
            <= window.end(channels) implies #[trigger] window.from(start, rest).end(
        channels,
    ) == window.end(channels) by {
        assert(0 <= gap * c <= whole * c) by (nonlinear_arith)
            requires
                0 <= gap <= whole,
                c > 0,
        ;
        assert((len - gap * c) / c == len / c - gap) by (nonlinear_arith)
            requires
                c > 0,
        ;
        assert(window.dropped(start as int, channels) == gap * c);
    }
    assert forall|rest: Vec<u32>, place: int, channel: int|
        rest@ == window.buffer@.skip(window.dropped(start as int, channels)) && start <= place
            < window.end(channels) && 0 <= channel < channels implies window.from(start, rest).holds(place, channels) && #[trigger] window.from(start, rest).sample(
        place,
        channel,
        channels,
    ) == window.sample(place, channel, channels) by {
        let after = window.from(start, rest);
        assert(after.end(channels) == window.end(channels));
        let ahead = place - start;
        assert((place - window.buffer_start) * c == gap * c + ahead * c) by (nonlinear_arith)
            requires
                place - window.buffer_start == gap + ahead,
        ;
        assert(0 <= gap * c && 0 <= ahead * c && gap * c + ahead * c + channel < whole * c)
            by (nonlinear_arith)
            requires
                0 <= gap,
                0 <= ahead,
                gap + ahead < whole,
                0 <= channel < c,
        ;
    }
}

/// The samples of a range, as a window gives them: those that it does not hold
/// are silent.
pub open spec fn window_range(window: AudioWindow, range: SampleRange, channels: usize) -> Seq<u32> {
    Seq::new(
        (range.length * channels) as nat,
        |i: int|
            {
                let at = (range.start - window.buffer_start) * channels + i;
                if at < window.buffer@.len() {
                    window.buffer@[at]
                } else {
                    0
                }
            },
    )
}

/// A range gives for each of its places and each channel the sample that the
/// window has there, and silence where it holds none.
pub proof fn range_gives_the_samples_of_its_places(
    window: AudioWindow,
    range: SampleRange,
    channels: usize,
    place: int,
    channel: int,
)
    requires
        channels > 0,
        window.buffer_start <= range.start <= place < range.start + range.length,
        0 <= channel < channels,
    ensures
        ({
            let read = window_range(window, range, channels);
            let i = (place - range.start) * channels + channel;
            &&& read.len() == range.length * channels
            &&& 0 <= i < read.len()
            &&& window.holds(place, channels) ==> read[i] == window.sample(place, channel, channels)
            &&& place > window.end(channels) ==> read[i] == 0
        }),
{
    let c = channels as int;
    let len = window.buffer@.len() as int;
    let i = (place - range.start) * c + channel;
    let at = (range.start - window.buffer_start) * c + i;
    let gap = place - window.buffer_start;
    assert(at == gap * c + channel) by (nonlinear_arith)
        requires
            at == (range.start - window.buffer_start) * c + ((place - range.start) * c + channel),
            gap == place - window.buffer_start,
    ;
    assert(0 <= i < range.length * c) by (nonlinear_arith)
        requires
            i == (place - range.start) * c + channel,
            0 <= place - range.start < range.length,
            0 <= channel < c,
    ;
    let whole = len / c;
    assert(0 <= gap * c && (gap < whole ==> gap * c + channel < len) && (gap > whole ==> gap * c
        >= len)) by (nonlinear_arith)
        requires
            gap >= 0,
            whole == len / c,
            0 <= channel < c,
            len >= 0,
    {
        assert(whole * c <= len < whole * c + c);
        if gap < whole {
            assert((gap + 1) * c <= whole * c);
        }
        if gap > whole {
            assert(gap * c >= (whole + 1) * c);
        }
    }
}

/// The version that a number stands for: three numbers with points between.
pub open spec fn version_text(version: u32) -> Seq<char> {
    decimal_of((version / 0x1_0000) as nat) + seq!['.'] + decimal_of(
        (version / 0x100 % 0x100) as nat,
    ) + seq!['.'] + decimal_of((version % 0x100) as nat)
}

/// A version is made of its three parts: each is written in decimal, the major
/// one first.
pub proof fn version_is_made_of_its_parts(major: nat, minor: nat, patch: nat)
    requires
        major < 0x1_0000,
        minor < 0x100,
        patch < 0x100,
    ensures
        version_text((major * 0x1_0000 + minor * 0x100 + patch) as u32) == decimal_of(major) + seq![
            '.',
        ] + decimal_of(minor) + seq!['.'] + decimal_of(patch),
{
    let version = (major * 0x1_0000 + minor * 0x100 + patch) as u32;
    assert(version / 0x1_0000 == major);
    assert(version / 0x100 % 0x100 == minor);
    assert(version % 0x100 == patch);
}

/// The version that a number of the FFmpeg libraries stands for.
pub fn format_ffmpeg_version(version: u32) -> (res: String)
    ensures
        res@ == version_text(version),
{
    let major: u32 = version / 0x1_0000;
    let minor: u32 = version / 0x100 % 0x100;
    let patch: u32 = version % 0x100;
    let mut text: Vec<char> = decimal(major as u64);
    text.push('.');
    extend(&mut text, &decimal(minor as u64));
    text.push('.');
    extend(&mut text, &decimal(patch as u64));
    proof {
        assert(text@ =~= version_text(version));
    }
    string_of(&text)
}

} // verus!

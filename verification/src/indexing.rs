//! Building the index of a file from what the demuxer and the audio decoders
//! report, packet by packet.
use crate::index::{
    AudioEntry, AudioTrackInfo, IndexContentFile, IndexEntry, TrackInfo, VideoEntry,
    VideoOutputFormat, VideoTrackInfo,
};
use crate::indexing_laws::track_of_a_video_stream;
use crate::media::{PixelFormat, TransferCharacteristic};
use crate::timestamp::Timestamp;
use std::collections::HashMap;
use vstd::prelude::*;

verus! {

broadcast use vstd::std_specs::hash::group_hash_axioms;

/// What the container and an opened decoder say of a video stream.
#[derive(Debug, Clone, Copy, PartialEq, Eq, Structural)]
pub struct VideoStream {
    pub stream_index: usize,
    pub width: u32,
    pub height: u32,
    /// The number of frames, not positive where the container gives none.
    pub frames: i64,
    /// The duration in ticks of the stream, not positive where there is none.
    pub duration_ticks: i64,
    /// The duration in seconds.
    pub duration: Timestamp,
    pub format: PixelFormat,
    pub transfer: TransferCharacteristic,
}

/// What the container and an opened decoder say of an audio stream.
#[derive(Debug, Clone, Copy, PartialEq, Eq, Structural)]
pub struct AudioStream {
    pub stream_index: usize,
    pub sample_rate: u32,
    pub channels: u16,
    /// The number of samples, not positive where the container gives none.
    pub frames: i64,
    /// The duration in ticks of the stream, not positive where there is none.
    pub duration_ticks: i64,
    /// The duration in seconds.
    pub duration: Timestamp,
}

/// A stream of the container. One without a usable decoder, or of another
/// kind, gives no track.
#[derive(Debug, Clone, Copy, PartialEq, Eq, Structural)]
pub enum StreamInfo {
    Video(VideoStream),
    Audio(AudioStream),
    Ignored,
}

/// A packet of a video stream.
#[derive(Debug, Clone, Copy, PartialEq, Eq, Structural)]
pub struct VideoPacket {
    pub stream_index: usize,
    pub keyframe: bool,
    pub position: u64,
    pub timestamp: Timestamp,
    /// The timestamp and the duration of the packet together.
    pub end_timestamp: Timestamp,
    pub duration: i64,
}

/// A packet of an audio stream.
#[derive(Debug, Clone, Copy, PartialEq, Eq, Structural)]
pub struct AudioPacket {
    pub stream_index: usize,
    pub position: u64,
    pub timestamp: Timestamp,
    /// The timestamp and the duration of the packet together.
    pub end_timestamp: Timestamp,
    /// How many samples the decoder gave back for this packet.
    pub decoded_samples: u64,
}

/// What happens while a file is read from its start to its end.
#[derive(Debug, Clone, Copy, PartialEq, Eq, Structural)]
pub enum PacketEvent {
    Video(VideoPacket),
    Audio(AudioPacket),
    /// The decoder of a stream was drained at the end of the file.
    Drained { stream_index: usize, decoded_samples: u64 },
}

/// The ticks at which a packet is presented: its presentation time, else its
/// decoding time, else the start.
pub fn packet_timestamp(pts: Option<i64>, dts: Option<i64>) -> (res: i64)
    ensures
        res == match (pts, dts) {
            (Some(p), _) => p,
            (None, Some(d)) => d,
            (None, None) => 0i64,
        },
{
    match pts {
        Some(p) => p,
        None => match dts {
            Some(d) => d,
            None => 0,
        },
    }
}

/// The duration of a stream: nothing where the container does not know it.
pub open spec fn known_duration(ticks: i64, seconds: Timestamp) -> Timestamp {
    if ticks <= 0 {
        Timestamp { key: 0 }
    } else {
        seconds
    }
}

/// The duration of a stream: nothing where the container does not know it.
pub fn stream_duration(ticks: i64, seconds: Timestamp) -> (res: Timestamp)
    ensures
        res == known_duration(ticks, seconds),
{
    if ticks <= 0 {
        Timestamp { key: 0 }
    } else {
        seconds
    }
}

/// A count that the container gives, with nothing in place of a negative one.
pub open spec fn known_count(count: i64) -> u64 {
    if count < 0 {
        0
    } else {
        count as u64
    }
}

pub(crate) fn stream_count(count: i64) -> (res: u64)
    ensures
        res == known_count(count),
{
    if count < 0 {
        0
    } else {
        count as u64
    }
}

/// The format in which the frames of a stream are handed on.
pub open spec fn output_format_of(
    transfer: TransferCharacteristic,
    format: PixelFormat,
) -> VideoOutputFormat {
    if transfer.hdr() {
        VideoOutputFormat::Hf64
    } else if format.yuv() {
        VideoOutputFormat::Yuy2
    } else {
        VideoOutputFormat::Bgra
    }
}

/// The format in which the frames of a stream are handed on.
pub fn choose_output_format(transfer: TransferCharacteristic, format: PixelFormat) -> (res:
    VideoOutputFormat)
    ensures
        res == output_format_of(transfer, format),
{
    if transfer.is_hdr_transfer() {
        VideoOutputFormat::Hf64
    } else if format.is_yuv() {
        VideoOutputFormat::Yuy2
    } else {
        VideoOutputFormat::Bgra
    }
}

/// The track that a stream gives, before its packets were seen.
pub open spec fn track_of(stream: StreamInfo) -> Option<TrackInfo> {
    match stream {
        StreamInfo::Video(s) => Some(
            TrackInfo::Video(
                VideoTrackInfo {
                    stream_index: s.stream_index,
                    width: s.width,
                    height: s.height,
                    frames: known_count(s.frames),
                    duration: known_duration(s.duration_ticks, s.duration),
                    output_format: output_format_of(s.transfer, s.format),
                },
            ),
        ),
        StreamInfo::Audio(s) => Some(
            TrackInfo::Audio(
                AudioTrackInfo {
                    stream_index: s.stream_index,
                    sample_rate: s.sample_rate,
                    channels: s.channels,
                    samples: known_count(s.frames),
                    duration: known_duration(s.duration_ticks, s.duration),
                },
            ),
        ),
        StreamInfo::Ignored => None,
    }
}

/// The tracks that the streams give, in their order.
pub open spec fn tracks_of(streams: Seq<StreamInfo>) -> Seq<TrackInfo>
    decreases streams.len(),
{
    if streams.len() == 0 {
        seq![]
    } else {
        match track_of(streams.last()) {
            Some(track) => tracks_of(streams.drop_last()).push(track),
            None => tracks_of(streams.drop_last()),
        }
    }
}

/// The number of pixels of a size.
pub open spec fn area(size: (u32, u32)) -> int {
    size.0 * size.1
}

/// The size of the first video track that no other exceeds in area, or nothing
/// where no video track has any area.
pub open spec fn largest_video_size(tracks: Seq<TrackInfo>) -> (u32, u32)
    decreases tracks.len(),
{
    if tracks.len() == 0 {
        (0u32, 0u32)
    } else {
        let rest = largest_video_size(tracks.drop_last());
        match tracks.last() {
            TrackInfo::Video(v) if area((v.width, v.height)) > area(rest) => (v.width, v.height),
            _ => rest,
        }
    }
}

/// The track at another size, if it is one of video.
pub open spec fn resized(track: TrackInfo, size: (u32, u32)) -> TrackInfo {
    match track {
        TrackInfo::Video(v) => TrackInfo::Video(
            VideoTrackInfo { width: size.0, height: size.1, ..v },
        ),
        TrackInfo::Audio(a) => TrackInfo::Audio(a),
    }
}

/// The tracks, with every video track at the size of the largest.
pub open spec fn same_sized(tracks: Seq<TrackInfo>) -> Seq<TrackInfo> {
    tracks.map_values(|track: TrackInfo| resized(track, largest_video_size(tracks)))
}

/// The timestamp of the last keyframe of any video stream so far.
pub open spec fn last_keyframe(events: Seq<PacketEvent>) -> Timestamp
    decreases events.len(),
{
    if events.len() == 0 {
        Timestamp { key: 0 }
    } else {
        match events.last() {
            PacketEvent::Video(p) if p.keyframe => p.timestamp,
            _ => last_keyframe(events.drop_last()),
        }
    }
}

/// How many samples of a stream were decoded so far.
pub open spec fn decoded_samples_of(events: Seq<PacketEvent>, stream: usize) -> nat
    decreases events.len(),
{
    if events.len() == 0 {
        0
    } else {
        let rest = decoded_samples_of(events.drop_last(), stream);
        match events.last() {
            PacketEvent::Audio(p) if p.stream_index == stream => rest + p.decoded_samples as nat,
            PacketEvent::Drained { stream_index, decoded_samples } if stream_index == stream => rest
                + decoded_samples as nat,
            _ => rest,
        }
    }
}

/// The later of a time that may not be known and one that is.
pub open spec fn latest_known(known: Option<Timestamp>, other: Timestamp) -> Timestamp {
    match known {
        Some(t) => crate::timestamp::latest(t, other),
        None => other,
    }
}

/// The end of a video stream so far, once it had a packet.
pub open spec fn video_end_of(events: Seq<PacketEvent>, stream: usize) -> Option<Timestamp>
    decreases events.len(),
{
    if events.len() == 0 {
        None
    } else {
        let rest = video_end_of(events.drop_last(), stream);
        match events.last() {
            PacketEvent::Video(p) if p.stream_index == stream => Some(
                latest_known(rest, p.end_timestamp),
            ),
            _ => rest,
        }
    }
}

/// The end of an audio stream so far, once it had a packet.
pub open spec fn audio_end_of(events: Seq<PacketEvent>, stream: usize) -> Option<Timestamp>
    decreases events.len(),
{
    if events.len() == 0 {
        None
    } else {
        let rest = audio_end_of(events.drop_last(), stream);
        match events.last() {
            PacketEvent::Audio(p) if p.stream_index == stream => Some(
                latest_known(rest, p.end_timestamp),
            ),
            _ => rest,
        }
    }
}

/// The entries that the packets give, in their order.
pub open spec fn entries_of(events: Seq<PacketEvent>) -> Seq<IndexEntry>
    decreases events.len(),
{
    if events.len() == 0 {
        seq![]
    } else {
        let before = events.drop_last();
        match events.last() {
            PacketEvent::Video(p) => entries_of(before).push(
                IndexEntry::Video(
                    VideoEntry {
                        stream_index: p.stream_index,
                        keyframe: p.keyframe,
                        position: p.position,
                        timestamp: p.timestamp,
                        duration: p.duration,
                        last_keyframe_timestamp: last_keyframe(events),
                    },
                ),
            ),
            PacketEvent::Audio(p) => entries_of(before).push(
                IndexEntry::Audio(
                    AudioEntry {
                        stream_index: p.stream_index,
                        position: p.position,
                        timestamp: p.timestamp,
                        start_sample: decoded_samples_of(before, p.stream_index) as u64,
                    },
                ),
            ),
            PacketEvent::Drained { .. } => entries_of(before),
        }
    }
}

/// How many video packets a stream has.
pub open spec fn video_packets_in(entries: Seq<IndexEntry>, stream: usize) -> nat
    decreases entries.len(),
{
    if entries.len() == 0 {
        0
    } else {
        let rest = video_packets_in(entries.drop_last(), stream);
        match entries.last() {
            IndexEntry::Video(e) if e.stream_index == stream => rest + 1,
            _ => rest,
        }
    }
}

/// A track once all packets were seen. Containers such as FLV often leave out
/// the frame count and the duration of a stream; what is left out is filled in
/// from the packets. The samples of an audio track are those that were decoded.
pub open spec fn completed(track: TrackInfo, events: Seq<PacketEvent>) -> TrackInfo {
    match track {
        TrackInfo::Video(v) => TrackInfo::Video(
            VideoTrackInfo {
                frames: if v.frames == 0 {
                    video_packets_in(entries_of(events), v.stream_index) as u64
                } else {
                    v.frames
                },
                duration: completed_duration(v.duration, video_end_of(events, v.stream_index)),
                ..v
            },
        ),
        TrackInfo::Audio(a) => TrackInfo::Audio(
            AudioTrackInfo {
                samples: if decoded_samples_of(events, a.stream_index) > 0 {
                    decoded_samples_of(events, a.stream_index) as u64
                } else {
                    a.samples
                },
                duration: completed_duration(a.duration, audio_end_of(events, a.stream_index)),
                ..a
            },
        ),
    }
}

/// A duration, or the end of the stream's packets where there is none.
pub open spec fn completed_duration(duration: Timestamp, end: Option<Timestamp>) -> Timestamp {
    match end {
        Some(t) if duration.key <= 0 => t,
        _ => duration,
    }
}

/// The tracks of the index of a file with these streams and packets.
pub open spec fn index_tracks(streams: Seq<StreamInfo>, events: Seq<PacketEvent>) -> Seq<
    TrackInfo,
> {
    same_sized(tracks_of(streams)).map_values(|track: TrackInfo| completed(track, events))
}

/// No stream has more samples than can be counted.
pub open spec fn samples_countable(events: Seq<PacketEvent>) -> bool {
    forall|stream: usize| #[trigger] decoded_samples_of(events, stream) <= u64::MAX
}

fn stream_tracks(streams: &Vec<StreamInfo>) -> (res: Vec<TrackInfo>)
    ensures
        res@ == tracks_of(streams@),
{
    let mut res: Vec<TrackInfo> = Vec::new();
    let n: usize = streams.len();
    for i in 0..n
        invariant
            n == streams.len(),
            res@ == tracks_of(streams@.take(i as int)),
    {
        proof {
            assert(streams@.take(i + 1).drop_last() =~= streams@.take(i as int));
        }
        match streams[i] {
            StreamInfo::Video(s) => {
                res.push(
                    TrackInfo::Video(
                        VideoTrackInfo {
                            stream_index: s.stream_index,
                            width: s.width,
                            height: s.height,
                            frames: stream_count(s.frames),
                            duration: stream_duration(s.duration_ticks, s.duration),
                            output_format: choose_output_format(s.transfer, s.format),
                        },
                    ),
                );
            },
            StreamInfo::Audio(s) => {
                res.push(
                    TrackInfo::Audio(
                        AudioTrackInfo {
                            stream_index: s.stream_index,
                            sample_rate: s.sample_rate,
                            channels: s.channels,
                            samples: stream_count(s.frames),
                            duration: stream_duration(s.duration_ticks, s.duration),
                        },
                    ),
                );
            },
            StreamInfo::Ignored => {},
        }
    }
    proof {
        assert(streams@.take(n as int) =~= streams@);
    }
    res
}

/// A product of two sizes fits twice their width.
proof fn area_fits(size: (u32, u32))
    ensures
        0 <= area(size) <= u64::MAX,
{
    let w = size.0 as int;
    let h = size.1 as int;
    assert(0 <= w * h <= 0xffff_ffff * 0xffff_ffff) by (nonlinear_arith)
        requires
            0 <= w <= 0xffff_ffff,
            0 <= h <= 0xffff_ffff,
    ;
}

fn largest_size(tracks: &Vec<TrackInfo>) -> (res: (u32, u32))
    ensures
        res == largest_video_size(tracks@),
{
    let mut width: u32 = 0;
    let mut height: u32 = 0;
    let n: usize = tracks.len();
    for i in 0..n
        invariant
            n == tracks.len(),
            (width, height) == largest_video_size(tracks@.take(i as int)),
    {
        proof {
            assert(tracks@.take(i + 1).drop_last() =~= tracks@.take(i as int));
        }
        if let TrackInfo::Video(v) = tracks[i] {
            proof {
                area_fits((v.width, v.height));
                area_fits((width, height));
            }
            if v.width as u64 * v.height as u64 > width as u64 * height as u64 {
                width = v.width;
                height = v.height;
            }
        }
    }
    proof {
        assert(tracks@.take(n as int) =~= tracks@);
    }
    (width, height)
}

fn resize_tracks(tracks: &Vec<TrackInfo>) -> (res: Vec<TrackInfo>)
    ensures
        res@ == same_sized(tracks@),
{
    let size: (u32, u32) = largest_size(tracks);
    let mut res: Vec<TrackInfo> = Vec::new();
    let n: usize = tracks.len();
    for i in 0..n
        invariant
            n == tracks.len(),
            size == largest_video_size(tracks@),
            res.len() == i,
            forall|j: int| 0 <= j < i ==> res[j] == resized(#[trigger] tracks[j], size),
    {
        match tracks[i] {
            TrackInfo::Video(v) => {
                res.push(
                    TrackInfo::Video(
                        VideoTrackInfo {
                            stream_index: v.stream_index,
                            width: size.0,
                            height: size.1,
                            frames: v.frames,
                            duration: v.duration,
                            output_format: v.output_format,
                        },
                    ),
                );
            },
            TrackInfo::Audio(a) => {
                res.push(TrackInfo::Audio(a));
            },
        }
    }
    proof {
        assert(res@ =~= same_sized(tracks@));
    }
    res
}

/// An index under construction: the streams are known, and the packets come in
/// the order in which the file holds them.
pub struct IndexBuilder {
    tracks: Vec<TrackInfo>,
    entries: Vec<IndexEntry>,
    last_keyframe_timestamp: Timestamp,
    decoded_audio_sample_counts: HashMap<usize, u64>,
    video_end_timestamps: HashMap<usize, Timestamp>,
    audio_end_timestamps: HashMap<usize, Timestamp>,
    seen: Ghost<Seq<PacketEvent>>,
}

impl IndexBuilder {
    /// The tracks as the streams gave them, all video tracks at one size.
    pub closed spec fn initial_tracks(self) -> Seq<TrackInfo> {
        self.tracks@
    }

    /// What happened so far.
    pub closed spec fn events(self) -> Seq<PacketEvent> {
        self.seen@
    }

    /// The state is what the events so far give.
    pub closed spec fn wf(self) -> bool {
        &&& self.entries@ == entries_of(self.seen@)
        &&& self.last_keyframe_timestamp == last_keyframe(self.seen@)
        &&& samples_countable(self.seen@)
        &&& forall|s: usize|
            #![trigger self.decoded_audio_sample_counts@.contains_key(s)]
            #![trigger decoded_samples_of(self.seen@, s)]
            decoded_samples_of(self.seen@, s) == (if self.decoded_audio_sample_counts@.contains_key(
                s,
            ) {
                self.decoded_audio_sample_counts@[s] as nat
            } else {
                0
            })
        &&& forall|s: usize|
            #![trigger self.video_end_timestamps@.contains_key(s)]
            #![trigger video_end_of(self.seen@, s)]
            video_end_of(self.seen@, s) == (if self.video_end_timestamps@.contains_key(s) {
                Some(self.video_end_timestamps@[s])
            } else {
                None
            })
        &&& forall|s: usize|
            #![trigger self.audio_end_timestamps@.contains_key(s)]
            #![trigger audio_end_of(self.seen@, s)]
            audio_end_of(self.seen@, s) == (if self.audio_end_timestamps@.contains_key(s) {
                Some(self.audio_end_timestamps@[s])
            } else {
                None
            })
    }

    /// An index of a file with these streams, before its packets are read.
    pub fn new(streams: &Vec<StreamInfo>) -> (res: IndexBuilder)
        ensures
            res.wf(),
            res.initial_tracks() == same_sized(tracks_of(streams@)),
            res.events() == Seq::<PacketEvent>::empty(),
    {
        let tracks: Vec<TrackInfo> = stream_tracks(streams);
        IndexBuilder {
            tracks: resize_tracks(&tracks),
            entries: Vec::new(),
            last_keyframe_timestamp: Timestamp { key: 0 },
            decoded_audio_sample_counts: HashMap::new(),
            video_end_timestamps: HashMap::new(),
            audio_end_timestamps: HashMap::new(),
            seen: Ghost(Seq::empty()),
        }
    }

    /// How many samples of a stream were decoded so far.
    pub fn decoded_samples(&self, stream: usize) -> (res: u64)
        requires
            self.wf(),
        ensures
            res == decoded_samples_of(self.events(), stream),
    {
        match self.decoded_audio_sample_counts.get(&stream) {
            Some(count) => *count,
            None => 0,
        }
    }

    fn count_samples(&mut self, stream: usize, samples: u64)
        requires
            old(self).decoded_audio_sample_counts@.contains_key(stream) ==> old(
                self,
            ).decoded_audio_sample_counts@[stream] + samples <= u64::MAX,
        ensures
            final(self).decoded_audio_sample_counts@ == old(
                self,
            ).decoded_audio_sample_counts@.insert(
                stream,
                (if old(self).decoded_audio_sample_counts@.contains_key(stream) {
                    old(self).decoded_audio_sample_counts@[stream] + samples
                } else {
                    samples as int
                }) as u64,
            ),
            final(self).tracks == old(self).tracks,
            final(self).entries == old(self).entries,
            final(self).last_keyframe_timestamp == old(self).last_keyframe_timestamp,
            final(self).video_end_timestamps == old(self).video_end_timestamps,
            final(self).audio_end_timestamps == old(self).audio_end_timestamps,
            final(self).seen == old(self).seen,
    {
        let before: u64 = match self.decoded_audio_sample_counts.get(&stream) {
            Some(count) => *count,
            None => 0,
        };
        self.decoded_audio_sample_counts.insert(stream, before + samples);
    }

    /// Takes in the next packet, or the samples that a drained decoder gave.
    pub fn push(&mut self, event: PacketEvent)
        requires
            old(self).wf(),
            samples_countable(old(self).events().push(event)),
        ensures
            final(self).wf(),
            final(self).initial_tracks() == old(self).initial_tracks(),
            final(self).events() == old(self).events().push(event),
    {
        let ghost before = self.seen@;
        let ghost after = self.seen@.push(event);
        proof {
            assert(after.drop_last() =~= before);
            assert(after.last() == event);
        }
        match event {
            PacketEvent::Video(p) => {
                if p.keyframe {
                    self.last_keyframe_timestamp = p.timestamp;
                }
                let end: Timestamp = match self.video_end_timestamps.get(&p.stream_index) {
                    Some(current) => current.max(p.end_timestamp),
                    None => p.end_timestamp,
                };
                self.video_end_timestamps.insert(p.stream_index, end);
                self.entries.push(
                    IndexEntry::Video(
                        VideoEntry {
                            stream_index: p.stream_index,
                            keyframe: p.keyframe,
                            position: p.position,
                            timestamp: p.timestamp,
                            duration: p.duration,
                            last_keyframe_timestamp: self.last_keyframe_timestamp,
                        },
                    ),
                );
            },
            PacketEvent::Audio(p) => {
                let start_sample: u64 = self.decoded_samples(p.stream_index);
                proof {
                    assert(decoded_samples_of(after, p.stream_index) <= u64::MAX);
                    assert(decoded_samples_of(before, p.stream_index) == start_sample);
                }
                self.count_samples(p.stream_index, p.decoded_samples);
                let end: Timestamp = match self.audio_end_timestamps.get(&p.stream_index) {
                    Some(current) => current.max(p.end_timestamp),
                    None => p.end_timestamp,
                };
                self.audio_end_timestamps.insert(p.stream_index, end);
                self.entries.push(
                    IndexEntry::Audio(
                        AudioEntry {
                            stream_index: p.stream_index,
                            position: p.position,
                            timestamp: p.timestamp,
                            start_sample,
                        },
                    ),
                );
            },
            PacketEvent::Drained { stream_index, decoded_samples } => {
                proof {
                    assert(decoded_samples_of(after, stream_index) <= u64::MAX);
                    assert(decoded_samples_of(before, stream_index) <= u64::MAX);
                }
                self.count_samples(stream_index, decoded_samples);
            },
        }
        self.seen = Ghost(after);
        proof {
            assert(self.entries@ =~= entries_of(after));
            assert forall|s: usize| true implies decoded_samples_of(after, s) == (
            if #[trigger] self.decoded_audio_sample_counts@.contains_key(s) {
                self.decoded_audio_sample_counts@[s] as nat
            } else {
                0
            }) by {
                assert(decoded_samples_of(before, s) <= u64::MAX);
            }
            assert forall|s: usize| true implies video_end_of(after, s) == (
            if #[trigger] self.video_end_timestamps@.contains_key(s) {
                Some(self.video_end_timestamps@[s])
            } else {
                None
            }) by {
                assert(video_end_of(before, s) == video_end_of(before, s));
            }
            assert forall|s: usize| true implies audio_end_of(after, s) == (
            if #[trigger] self.audio_end_timestamps@.contains_key(s) {
                Some(self.audio_end_timestamps@[s])
            } else {
                None
            }) by {
                assert(audio_end_of(before, s) == audio_end_of(before, s));
            }
        }
    }

    fn video_packets(&self, stream: usize) -> (res: u64)
        ensures
            res == video_packets_in(self.entries@, stream),
    {
        let mut count: usize = 0;
        let n: usize = self.entries.len();
        for i in 0..n
            invariant
                n == self.entries.len(),
                count <= i,
                count == video_packets_in(self.entries@.take(i as int), stream),
        {
            proof {
                assert(self.entries@.take(i + 1).drop_last() =~= self.entries@.take(i as int));
            }
            if let IndexEntry::Video(e) = self.entries[i] {
                if e.stream_index == stream {
                    count = count + 1;
                }
            }
        }
        proof {
            assert(self.entries@.take(n as int) =~= self.entries@);
        }
        count as u64
    }

    fn complete(&self, track: TrackInfo) -> (res: TrackInfo)
        requires
            self.wf(),
        ensures
            res == completed(track, self.seen@),
    {
        match track {
            TrackInfo::Video(v) => {
                let mut done: VideoTrackInfo = v;
                if v.frames == 0 {
                    done.frames = self.video_packets(v.stream_index);
                }
                if v.duration.key <= 0 {
                    if let Some(end) = self.video_end_timestamps.get(&v.stream_index) {
                        done.duration = *end;
                    }
                }
                TrackInfo::Video(done)
            },
            TrackInfo::Audio(a) => {
                let mut done: AudioTrackInfo = a;
                let samples: u64 = self.decoded_samples(a.stream_index);
                if samples > 0 {
                    done.samples = samples;
                }
                if a.duration.key <= 0 {
                    if let Some(end) = self.audio_end_timestamps.get(&a.stream_index) {
                        done.duration = *end;
                    }
                }
                TrackInfo::Audio(done)
            },
        }
    }

    /// The finished index, once the file was read to its end.
    pub fn finish(self) -> (res: IndexContentFile)
        requires
            self.wf(),
        ensures
            res.tracks@ == self.initial_tracks().map_values(
                |track: TrackInfo| completed(track, self.events()),
            ),
            res.entries@ == entries_of(self.events()),
    {
        let mut tracks: Vec<TrackInfo> = Vec::new();
        let n: usize = self.tracks.len();
        for i in 0..n
            invariant
                n == self.tracks.len(),
                self.wf(),
                tracks.len() == i,
                forall|j: int|
                    0 <= j < i ==> tracks[j] == completed(#[trigger] self.tracks[j], self.seen@),
        {
            let track: TrackInfo = self.complete(self.tracks[i]);
            tracks.push(track);
        }
        proof {
            assert(tracks@ =~= self.initial_tracks().map_values(
                |track: TrackInfo| completed(track, self.events()),
            ));
        }
        IndexContentFile { tracks, entries: self.entries }
    }
}

/// The index of a file with these streams and packets.
pub fn create_index(streams: &Vec<StreamInfo>, events: &Vec<PacketEvent>) -> (res:
    IndexContentFile)
    requires
        samples_countable(events@),
    ensures
        res.tracks@ == index_tracks(streams@, events@),
        res.entries@ == entries_of(events@),
        forall|i: int|
            0 <= i < streams@.len() && (#[trigger] streams@[i]) is Video
                && streams@[i]->Video_0.frames <= 0 ==> res.tracks@[tracks_of(
                streams@.take(i),
            ).len() as int]->Video_0.frames == events@.filter(
                |e: PacketEvent|
                    e is Video && e->Video_0.stream_index == streams@[i]->Video_0.stream_index,
            ).len(),
{
    let mut builder: IndexBuilder = IndexBuilder::new(streams);
    let n: usize = events.len();
    for i in 0..n
        invariant
            n == events.len(),
            samples_countable(events@),
            builder.wf(),
            builder.initial_tracks() == same_sized(tracks_of(streams@)),
            builder.events() == events@.take(i as int),
    {
        proof {
            assert(builder.events().push(events@[i as int]) =~= events@.take(i + 1));
            assert forall|s: usize| true implies #[trigger] decoded_samples_of(
                events@.take(i + 1),
                s,
            ) <= u64::MAX by {
                decoded_samples_grow(events@, i + 1, s);
            }
        }
        builder.push(events[i]);
    }
    proof {
        assert(events@.take(n as int) =~= events@);
        assert forall|i: int|
            0 <= i < streams@.len() && (#[trigger] streams@[i]) is Video
                && streams@[i]->Video_0.frames <= 0 implies index_tracks(
            streams@,
            events@,
        )[tracks_of(streams@.take(i)).len() as int]->Video_0.frames == events@.filter(
            |e: PacketEvent|
                e is Video && e->Video_0.stream_index == streams@[i]->Video_0.stream_index,
        ).len() by {
            track_of_a_video_stream(streams@, events@, i, streams@[i]->Video_0);
        }
    }
    builder.finish()
}

/// The number of decoded samples only grows while the file is read.
pub proof fn decoded_samples_grow(events: Seq<PacketEvent>, count: int, stream: usize)
    requires
        0 <= count <= events.len(),
    ensures
        decoded_samples_of(events.take(count), stream) <= decoded_samples_of(events, stream),
    decreases events.len(),
{
    if count == events.len() {
        assert(events.take(count) =~= events);
    } else {
        decoded_samples_grow(events.drop_last(), count, stream);
        assert(events.drop_last().take(count) =~= events.take(count));
    }
}

/// Whether an event is a packet, which gives an entry.
pub open spec fn is_packet(event: PacketEvent) -> bool {
    !(event is Drained)
}

/// Every packet gives one entry and nothing else does.
pub proof fn one_entry_per_packet(events: Seq<PacketEvent>)
    ensures
        entries_of(events).len() == events.filter(|e: PacketEvent| is_packet(e)).len(),
    decreases events.len(),
{
    reveal(Seq::filter);
    if events.len() > 0 {
        one_entry_per_packet(events.drop_last());
    }
}

/// The samples that were decoded before a packet are no more than those that
/// were decoded in all.
proof fn start_samples_bounded(events: Seq<PacketEvent>, i: int)
    requires
        samples_countable(events),
        0 <= i < entries_of(events).len(),
        entries_of(events)[i] is Audio,
    ensures
        entries_of(events)[i]->Audio_0.start_sample <= decoded_samples_of(
            events,
            entries_of(events)[i]->Audio_0.stream_index,
        ),
    decreases events.len(),
{
    let before = events.drop_last();
    prefix_countable(events);
    let stream = entries_of(events)[i]->Audio_0.stream_index;
    assert(decoded_samples_of(before, stream) <= u64::MAX);
    if i < entries_of(before).len() {
        assert(entries_of(events)[i] == entries_of(before)[i]);
        start_samples_bounded(before, i);
    }
}

proof fn prefix_countable(events: Seq<PacketEvent>)
    requires
        samples_countable(events),
        events.len() > 0,
    ensures
        samples_countable(events.drop_last()),
{
    assert forall|s: usize| true implies #[trigger] decoded_samples_of(events.drop_last(), s)
        <= u64::MAX by {
        decoded_samples_grow(events, events.len() - 1, s);
        assert(events.take(events.len() - 1) =~= events.drop_last());
        assert(decoded_samples_of(events, s) <= u64::MAX);
    }
}

/// Within an audio stream the entries stand in the order of their samples, so
/// that the last entry that starts at or before a sample is the place to seek to.
pub proof fn audio_entries_in_sample_order(events: Seq<PacketEvent>, i: int, j: int)
    requires
        samples_countable(events),
        0 <= i < j < entries_of(events).len(),
        entries_of(events)[i] is Audio,
        entries_of(events)[j] is Audio,
        entries_of(events)[i]->Audio_0.stream_index == entries_of(events)[j]->Audio_0.stream_index,
    ensures
        entries_of(events)[i]->Audio_0.start_sample <= entries_of(events)[j]->Audio_0.start_sample,
    decreases events.len(),
{
    let before = events.drop_last();
    prefix_countable(events);
    assert(entries_of(events)[i] == entries_of(before)[i]);
    if j < entries_of(before).len() {
        assert(entries_of(events)[j] == entries_of(before)[j]);
        audio_entries_in_sample_order(before, i, j);
    } else {
        start_samples_bounded(before, i);
        let stream = entries_of(events)[i]->Audio_0.stream_index;
        assert(decoded_samples_of(before, stream) <= u64::MAX);
    }
}

/// Decoders are drained only once all packets were read.
pub open spec fn drained_last(events: Seq<PacketEvent>) -> bool {
    forall|i: int, j: int|
        0 <= i < j < events.len() && (#[trigger] events[i]) is Drained ==> (
        #[trigger] events[j]) is Drained
}

/// The first packet of an audio stream starts at the first sample.
pub proof fn first_audio_entry_starts_at_zero(events: Seq<PacketEvent>, i: int)
    requires
        samples_countable(events),
        drained_last(events),
        0 <= i < entries_of(events).len(),
        entries_of(events)[i] is Audio,
        forall|j: int|
            0 <= j < i ==> !((#[trigger] entries_of(events)[j]) is Audio && entries_of(
                events,
            )[j]->Audio_0.stream_index == entries_of(events)[i]->Audio_0.stream_index),
    ensures
        entries_of(events)[i]->Audio_0.start_sample == 0,
    decreases events.len(),
{
    let before = events.drop_last();
    prefix_countable(events);
    assert(drained_last(before)) by {
        assert forall|a: int, b: int|
            0 <= a < b < before.len() && (#[trigger] before[a]) is Drained implies (
        #[trigger] before[b]) is Drained by {
            assert(before[a] == events[a] && before[b] == events[b]);
        }
    }
    if i < entries_of(before).len() {
        assert(entries_of(events)[i] == entries_of(before)[i]);
        assert forall|j: int| 0 <= j < i implies !((#[trigger] entries_of(before)[j]) is Audio
            && entries_of(before)[j]->Audio_0.stream_index == entries_of(
            before,
        )[i]->Audio_0.stream_index) by {
            assert(entries_of(events)[j] == entries_of(before)[j]);
        }
        first_audio_entry_starts_at_zero(before, i);
    } else {
        let stream = entries_of(events)[i]->Audio_0.stream_index;
        assert forall|j: int| 0 <= j < entries_of(before).len() implies !((
        #[trigger] entries_of(before)[j]) is Audio && entries_of(before)[j]->Audio_0.stream_index
            == stream) by {
            assert(entries_of(events)[j] == entries_of(before)[j]);
        }
        assert forall|j: int| 0 <= j < before.len() implies !((#[trigger] before[j]) is Drained) by {
            assert(before[j] == events[j]);
            assert(!(events[events.len() - 1] is Drained));
        }
        no_entries_no_samples(before, stream);
    }
}

/// A stream without audio entries has no decoded samples.
proof fn no_entries_no_samples(events: Seq<PacketEvent>, stream: usize)
    requires
        forall|j: int|
            0 <= j < entries_of(events).len() ==> !((#[trigger] entries_of(events)[j]) is Audio
                && entries_of(events)[j]->Audio_0.stream_index == stream),
        forall|j: int|
            0 <= j < events.len() ==> !((#[trigger] events[j]) is Drained),
    ensures
        decoded_samples_of(events, stream) == 0,
    decreases events.len(),
{
    if events.len() > 0 {
        let before = events.drop_last();
        assert forall|j: int| 0 <= j < entries_of(before).len() implies !((
        #[trigger] entries_of(before)[j]) is Audio && entries_of(before)[j]->Audio_0.stream_index
            == stream) by {
            assert(entries_of(events)[j] == entries_of(before)[j]);
        }
        assert forall|j: int| 0 <= j < before.len() implies !((#[trigger] before[j]) is Drained) by {
            assert(before[j] == events[j]);
        }
        no_entries_no_samples(before, stream);
        assert(!(events[events.len() - 1] is Drained));
        if let PacketEvent::Audio(p) = events.last() {
            let last = entries_of(events)[entries_of(events).len() - 1];
            assert(last is Audio);
        }
    }
}

/// The timestamp of the last keyframe among the entries.
pub open spec fn last_keyframe_in(entries: Seq<IndexEntry>) -> Timestamp
    decreases entries.len(),
{
    if entries.len() == 0 {
        Timestamp { key: 0 }
    } else {
        match entries.last() {
            IndexEntry::Video(e) if e.keyframe => e.timestamp,
            _ => last_keyframe_in(entries.drop_last()),
        }
    }
}

proof fn last_keyframe_is_indexed(events: Seq<PacketEvent>)
    ensures
        last_keyframe(events) == last_keyframe_in(entries_of(events)),
    decreases events.len(),
{
    if events.len() > 0 {
        let before = events.drop_last();
        last_keyframe_is_indexed(before);
        if is_packet(events.last()) {
            assert(entries_of(events).drop_last() =~= entries_of(before));
        }
    }
}

/// Every video entry names the last keyframe at or before it, the place from
/// which it can be decoded.
pub proof fn video_entry_names_its_keyframe(events: Seq<PacketEvent>, i: int)
    requires
        0 <= i < entries_of(events).len(),
        entries_of(events)[i] is Video,
    ensures
        entries_of(events)[i]->Video_0.last_keyframe_timestamp == last_keyframe_in(
            entries_of(events).take(i + 1),
        ),
    decreases events.len(),
{
    let before = events.drop_last();
    if i < entries_of(before).len() {
        video_entry_names_its_keyframe(before, i);
        assert(entries_of(events).take(i + 1) =~= entries_of(before).take(i + 1));
        assert(entries_of(events)[i] == entries_of(before)[i]);
    } else {
        assert(entries_of(events).take(i + 1) =~= entries_of(events));
        last_keyframe_is_indexed(events);
    }
}

/// The common size of the video tracks has the largest area of them, and is the
/// size of one of them unless they are all empty.
pub proof fn common_size_is_the_largest(tracks: Seq<TrackInfo>, i: int)
    requires
        0 <= i < tracks.len(),
        tracks[i] is Video,
    ensures
        area((tracks[i]->Video_0.width, tracks[i]->Video_0.height)) <= area(
            largest_video_size(tracks),
        ),
        largest_video_size(tracks) == (0u32, 0u32) || exists|k: int|
            0 <= k < tracks.len() && (#[trigger] tracks[k]) is Video && largest_video_size(tracks)
                == (tracks[k]->Video_0.width, tracks[k]->Video_0.height),
        same_sized(tracks)[i]->Video_0.width == largest_video_size(tracks).0,
        same_sized(tracks)[i]->Video_0.height == largest_video_size(tracks).1,
{
    largest_bounds(tracks, i);
    largest_attained(tracks);
}

proof fn largest_bounds(tracks: Seq<TrackInfo>, i: int)
    requires
        0 <= i < tracks.len(),
        tracks[i] is Video,
    ensures
        area((tracks[i]->Video_0.width, tracks[i]->Video_0.height)) <= area(
            largest_video_size(tracks),
        ),
    decreases tracks.len(),
{
    if i < tracks.len() - 1 {
        assert(tracks.drop_last()[i] == tracks[i]);
        largest_bounds(tracks.drop_last(), i);
    }
}

proof fn largest_attained(tracks: Seq<TrackInfo>)
    ensures
        largest_video_size(tracks) == (0u32, 0u32) || exists|k: int|
            0 <= k < tracks.len() && (#[trigger] tracks[k]) is Video && largest_video_size(tracks)
                == (tracks[k]->Video_0.width, tracks[k]->Video_0.height),
    decreases tracks.len(),
{
    if tracks.len() > 0 {
        largest_attained(tracks.drop_last());
        if largest_video_size(tracks) == largest_video_size(tracks.drop_last()) {
            if largest_video_size(tracks) != (0u32, 0u32) {
                let k = choose|k: int|
                    0 <= k < tracks.drop_last().len() && (#[trigger] tracks.drop_last()[k]) is Video
                        && largest_video_size(tracks) == (
                        tracks.drop_last()[k]->Video_0.width,
                        tracks.drop_last()[k]->Video_0.height,
                    );
                assert(tracks[k] == tracks.drop_last()[k]);
            }
        } else {
            assert(tracks[tracks.len() - 1] is Video);
        }
    }
}

} // verus!

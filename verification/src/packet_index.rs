//! An index made of packets alone, without decoding, whose tracks are chosen by
//! their place among all tracks.
use vstd::prelude::*;

use crate::index::{VideoEntry, VideoOutputFormat};
use crate::indexing::{known_count, stream_count, StreamInfo};
use crate::input_plugin::{low_bits, to_low_bits, AudioInputInfo, InputInfo, VideoInputInfo};
use crate::timestamp::Timestamp;

verus! {

/// A track of a file.
#[derive(Debug, Clone, Copy, PartialEq, Eq, Structural)]
pub enum PacketTrack {
    Video { stream_index: usize, width: u32, height: u32, frames: u64, duration: Timestamp },
    Audio {
        stream_index: usize,
        sample_rate: u32,
        channels: u16,
        samples: u64,
        duration: Timestamp,
    },
}

/// A packet of an audio stream.
#[derive(Debug, Clone, Copy, PartialEq, Eq, Structural)]
pub struct AudioPacketEntry {
    pub stream_index: usize,
    pub position: u64,
    pub timestamp: Timestamp,
}

/// A packet of a file.
#[derive(Debug, Clone, Copy, PartialEq, Eq, Structural)]
pub enum PacketEntry {
    Video(VideoEntry),
    Audio(AudioPacketEntry),
}

/// A packet as it is read.
#[derive(Debug, Clone, Copy, PartialEq, Eq, Structural)]
pub enum Packet {
    Video {
        stream_index: usize,
        keyframe: bool,
        position: u64,
        timestamp: Timestamp,
        duration: i64,
    },
    Audio { stream_index: usize, position: u64, timestamp: Timestamp },
    /// A packet of another kind of stream.
    Ignored,
}

/// The index of a file.
#[derive(Debug)]
pub struct PacketIndex {
    pub tracks: Vec<PacketTrack>,
    pub entries: Vec<PacketEntry>,
}

/// The larger of two numbers.
pub open spec fn larger(a: u32, b: u32) -> u32 {
    if b > a {
        b
    } else {
        a
    }
}

/// The largest width and the largest height of the video streams.
pub open spec fn bounding_size(streams: Seq<StreamInfo>) -> (u32, u32)
    decreases streams.len(),
{
    if streams.len() == 0 {
        (0u32, 0u32)
    } else {
        let rest = bounding_size(streams.drop_last());
        match streams.last() {
            StreamInfo::Video(v) => (larger(rest.0, v.width), larger(rest.1, v.height)),
            _ => rest,
        }
    }
}

/// The track that a stream gives, at a size.
pub open spec fn packet_track(stream: StreamInfo, size: (u32, u32)) -> Option<PacketTrack> {
    match stream {
        StreamInfo::Video(v) => Some(
            PacketTrack::Video {
                stream_index: v.stream_index,
                width: size.0,
                height: size.1,
                frames: known_count(v.frames),
                duration: v.duration,
            },
        ),
        StreamInfo::Audio(a) => Some(
            PacketTrack::Audio {
                stream_index: a.stream_index,
                sample_rate: a.sample_rate,
                channels: a.channels,
                samples: known_count(a.frames),
                duration: a.duration,
            },
        ),
        StreamInfo::Ignored => None,
    }
}

/// The tracks that streams give, at a size.
pub open spec fn packet_tracks(streams: Seq<StreamInfo>, size: (u32, u32)) -> Seq<PacketTrack>
    decreases streams.len(),
{
    if streams.len() == 0 {
        seq![]
    } else {
        let before = packet_tracks(streams.drop_last(), size);
        match packet_track(streams.last(), size) {
            Some(track) => before.push(track),
            None => before,
        }
    }
}

/// The time of the last keyframe among some packets, or zero.
pub open spec fn keyframe_time(packets: Seq<Packet>) -> Timestamp
    decreases packets.len(),
{
    if packets.len() == 0 {
        Timestamp { key: 0 }
    } else {
        match packets.last() {
            Packet::Video { keyframe: true, timestamp, .. } => timestamp,
            _ => keyframe_time(packets.drop_last()),
        }
    }
}

/// The entries for some packets: one for each of video and audio, in their
/// order, those of video with the time of the last keyframe up to them.
pub open spec fn packet_entries(packets: Seq<Packet>) -> Seq<PacketEntry>
    decreases packets.len(),
{
    if packets.len() == 0 {
        seq![]
    } else {
        let before = packet_entries(packets.drop_last());
        match packets.last() {
            Packet::Video { stream_index, keyframe, position, timestamp, duration } => before.push(
                PacketEntry::Video(
                    VideoEntry {
                        stream_index,
                        keyframe,
                        position,
                        timestamp,
                        duration,
                        last_keyframe_timestamp: keyframe_time(packets),
                    },
                ),
            ),
            Packet::Audio { stream_index, position, timestamp } => before.push(
                PacketEntry::Audio(AudioPacketEntry { stream_index, position, timestamp }),
            ),
            Packet::Ignored => before,
        }
    }
}

/// Makes the index of a file. All video tracks have the size that holds each of
/// them.
pub fn create_packet_index(streams: &Vec<StreamInfo>, packets: &Vec<Packet>) -> (res: PacketIndex)
    ensures
        res.tracks@ == packet_tracks(streams@, bounding_size(streams@)),
        res.entries@ == packet_entries(packets@),
{
    let mut width: u32 = 0;
    let mut height: u32 = 0;
    let n: usize = streams.len();
    proof {
        assert(streams@.take(0) =~= seq![]);
    }
    for i in 0..n
        invariant
            n == streams.len(),
            (width, height) == bounding_size(streams@.take(i as int)),
    {
        proof {
            assert(streams@.take(i + 1).drop_last() =~= streams@.take(i as int));
        }
        match &streams[i] {
            StreamInfo::Video(v) => {
                if v.width > width {
                    width = v.width;
                }
                if v.height > height {
                    height = v.height;
                }
            },
            StreamInfo::Audio(_) => {},
            StreamInfo::Ignored => {},
        }
    }
    let mut tracks: Vec<PacketTrack> = Vec::new();
    for i in 0..n
        invariant
            n == streams.len(),
            tracks@ == packet_tracks(streams@.take(i as int), (width, height)),
    {
        proof {
            assert(streams@.take(i + 1).drop_last() =~= streams@.take(i as int));
        }
        match &streams[i] {
            StreamInfo::Video(v) => {
                tracks.push(
                    PacketTrack::Video {
                        stream_index: v.stream_index,
                        width,
                        height,
                        frames: stream_count(v.frames),
                        duration: v.duration,
                    },
                );
            },
            StreamInfo::Audio(a) => {
                tracks.push(
                    PacketTrack::Audio {
                        stream_index: a.stream_index,
                        sample_rate: a.sample_rate,
                        channels: a.channels,
                        samples: stream_count(a.frames),
                        duration: a.duration,
                    },
                );
            },
            StreamInfo::Ignored => {},
        }
    }
    proof {
        assert(streams@.take(n as int) =~= streams@);
        assert(packets@.take(0) =~= seq![]);
    }
    let mut entries: Vec<PacketEntry> = Vec::new();
    let mut last_keyframe: Timestamp = Timestamp { key: 0 };
    let m: usize = packets.len();
    for i in 0..m
        invariant
            m == packets.len(),
            last_keyframe == keyframe_time(packets@.take(i as int)),
            entries@ == packet_entries(packets@.take(i as int)),
    {
        proof {
            assert(packets@.take(i + 1).drop_last() =~= packets@.take(i as int));
        }
        match packets[i] {
            Packet::Video { stream_index, keyframe, position, timestamp, duration } => {
                if keyframe {
                    last_keyframe = timestamp;
                }
                entries.push(
                    PacketEntry::Video(
                        VideoEntry {
                            stream_index,
                            keyframe,
                            position,
                            timestamp,
                            duration,
                            last_keyframe_timestamp: last_keyframe,
                        },
                    ),
                );
            },
            Packet::Audio { stream_index, position, timestamp } => {
                entries.push(
                    PacketEntry::Audio(AudioPacketEntry { stream_index, position, timestamp }),
                );
            },
            Packet::Ignored => {},
        }
    }
    proof {
        assert(packets@.take(m as int) =~= packets@);
    }
    PacketIndex { tracks, entries }
}

/// No video stream exceeds the size that all video tracks have.
pub proof fn bounding_size_holds_each(streams: Seq<StreamInfo>, i: int)
    requires
        0 <= i < streams.len(),
    ensures
        streams[i] matches StreamInfo::Video(v) ==> v.width <= bounding_size(streams).0 && v.height
            <= bounding_size(streams).1,
    decreases streams.len(),
{
    if i < streams.len() - 1 {
        bounding_size_holds_each(streams.drop_last(), i);
    }
}

/// The number of video tracks.
pub open spec fn video_count(tracks: Seq<PacketTrack>) -> nat
    decreases tracks.len(),
{
    if tracks.len() == 0 {
        0
    } else {
        video_count(tracks.drop_last()) + (if tracks.last() is Video {
            1nat
        } else {
            0
        })
    }
}

/// The entries of a video stream, in their order.
pub open spec fn video_packets(entries: Seq<PacketEntry>, stream: usize) -> Seq<VideoEntry>
    decreases entries.len(),
{
    if entries.len() == 0 {
        seq![]
    } else {
        let before = video_packets(entries.drop_last(), stream);
        match entries.last() {
            PacketEntry::Video(v) => if v.stream_index == stream {
                before.push(v)
            } else {
                before
            },
            PacketEntry::Audio(_) => before,
        }
    }
}

/// The entries of an audio stream, in their order.
pub open spec fn audio_packets(entries: Seq<PacketEntry>, stream: usize) -> Seq<AudioPacketEntry>
    decreases entries.len(),
{
    if entries.len() == 0 {
        seq![]
    } else {
        let before = audio_packets(entries.drop_last(), stream);
        match entries.last() {
            PacketEntry::Audio(a) => if a.stream_index == stream {
                before.push(a)
            } else {
                before
            },
            PacketEntry::Video(_) => before,
        }
    }
}

/// An open file, and the entries of the tracks that were chosen.
pub struct PacketInput {
    pub index: PacketIndex,
    pub video_index: Vec<VideoEntry>,
    pub audio_index: Vec<AudioPacketEntry>,
}

/// The video track at a place, if there is one that lasts and has frames.
pub open spec fn video_at(tracks: Seq<PacketTrack>, place: u32) -> Option<(usize, VideoInputInfo)> {
    if place < tracks.len() {
        match tracks[place as int] {
            PacketTrack::Video { stream_index, width, height, frames, duration } => if duration.key
                > 0 && frames != 0 {
                Some(
                    (
                        stream_index,
                        VideoInputInfo {
                            width,
                            height,
                            frames,
                            duration,
                            output_format: VideoOutputFormat::Hf64,
                        },
                    ),
                )
            } else {
                None
            },
            PacketTrack::Audio { .. } => None,
        }
    } else {
        None
    }
}

/// The audio track at a place, if there is one that lasts and has samples.
pub open spec fn audio_at(tracks: Seq<PacketTrack>, place: u32) -> Option<(usize, AudioInputInfo)> {
    if place < tracks.len() {
        match tracks[place as int] {
            PacketTrack::Audio {
                stream_index,
                sample_rate,
                channels,
                samples,
                duration,
            } => if duration.key > 0 && samples != 0 {
                Some((stream_index, AudioInputInfo { sample_rate, channels, samples }))
            } else {
                None
            },
            PacketTrack::Video { .. } => None,
        }
    } else {
        None
    }
}

impl PacketInput {
    /// A file that was just opened: no track is chosen.
    pub fn open(index: PacketIndex) -> (res: PacketInput)
        ensures
            res.index == index,
            res.video_index@.len() == 0,
            res.audio_index@.len() == 0,
    {
        PacketInput { index, video_index: Vec::new(), audio_index: Vec::new() }
    }

    fn video_entries(&self, stream: usize) -> (res: Vec<VideoEntry>)
        ensures
            res@ == video_packets(self.index.entries@, stream),
    {
        let ghost all = self.index.entries@;
        let mut res: Vec<VideoEntry> = Vec::new();
        let n: usize = self.index.entries.len();
        proof {
            assert(all.take(0) =~= seq![]);
        }
        for i in 0..n
            invariant
                all == self.index.entries@,
                n == all.len(),
                res@ == video_packets(all.take(i as int), stream),
        {
            proof {
                assert(all.take(i + 1).drop_last() =~= all.take(i as int));
            }
            if let PacketEntry::Video(v) = self.index.entries[i] {
                if v.stream_index == stream {
                    res.push(v);
                }
            }
        }
        proof {
            assert(all.take(n as int) =~= all);
        }
        res
    }

    fn audio_entries(&self, stream: usize) -> (res: Vec<AudioPacketEntry>)
        ensures
            res@ == audio_packets(self.index.entries@, stream),
    {
        let ghost all = self.index.entries@;
        let mut res: Vec<AudioPacketEntry> = Vec::new();
        let n: usize = self.index.entries.len();
        proof {
            assert(all.take(0) =~= seq![]);
        }
        for i in 0..n
            invariant
                all == self.index.entries@,
                n == all.len(),
                res@ == audio_packets(all.take(i as int), stream),
        {
            proof {
                assert(all.take(i + 1).drop_last() =~= all.take(i as int));
            }
            if let PacketEntry::Audio(a) = self.index.entries[i] {
                if a.stream_index == stream {
                    res.push(a);
                }
            }
        }
        proof {
            assert(all.take(n as int) =~= all);
        }
        res
    }

    /// Chooses a video and an audio track by their place among all tracks, and
    /// tells of them. A place with no such track, or with one that does not
    /// last or is empty, leaves the one chosen before.
    pub fn get_input_info(&mut self, video_track: u32, audio_track: u32) -> (res: InputInfo)
        ensures
            final(self).index == old(self).index,
            match video_at(old(self).index.tracks@, video_track) {
                Some((stream, info)) => {
                    &&& res.video == Some(info)
                    &&& final(self).video_index@ == video_packets(old(self).index.entries@, stream)
                },
                None => {
                    &&& res.video is None
                    &&& final(self).video_index@ == old(self).video_index@
                },
            },
            match audio_at(old(self).index.tracks@, audio_track) {
                Some((stream, info)) => {
                    &&& res.audio == Some(info)
                    &&& final(self).audio_index@ == audio_packets(old(self).index.entries@, stream)
                },
                None => {
                    &&& res.audio is None
                    &&& final(self).audio_index@ == old(self).audio_index@
                },
            },
    {
        let n: usize = self.index.tracks.len();
        let mut video: Option<VideoInputInfo> = None;
        let mut audio: Option<AudioInputInfo> = None;
        if (video_track as u64) < n as u64 {
            if let PacketTrack::Video { stream_index, width, height, frames, duration } =
                self.index.tracks[video_track as usize] {
                if duration.key > 0 && frames != 0 {
                    self.video_index = self.video_entries(stream_index);
                    video = Some(
                        VideoInputInfo {
                            width,
                            height,
                            frames,
                            duration,
                            output_format: VideoOutputFormat::Hf64,
                        },
                    );
                }
            }
        }
        if (audio_track as u64) < n as u64 {
            if let PacketTrack::Audio { stream_index, sample_rate, channels, samples, duration } =
                self.index.tracks[audio_track as usize] {
                if duration.key > 0 && samples != 0 {
                    self.audio_index = self.audio_entries(stream_index);
                    audio = Some(AudioInputInfo { sample_rate, channels, samples });
                }
            }
        }
        InputInfo { video, audio }
    }

    /// The numbers of the video and the audio tracks, as 32-bit numbers.
    pub fn get_track_count(&self) -> (res: (u32, u32))
        ensures
            res.0 == low_bits(video_count(self.index.tracks@) as int),
            res.1 == low_bits(
                self.index.tracks@.len() - video_count(self.index.tracks@),
            ),
    {
        let ghost all = self.index.tracks@;
        let n: usize = self.index.tracks.len();
        let mut videos: usize = 0;
        proof {
            assert(all.take(0) =~= seq![]);
        }
        for i in 0..n
            invariant
                all == self.index.tracks@,
                n == all.len(),
                videos == video_count(all.take(i as int)),
                videos <= i,
        {
            proof {
                assert(all.take(i + 1).drop_last() =~= all.take(i as int));
            }
            match self.index.tracks[i] {
                PacketTrack::Video { .. } => {
                    videos = videos + 1;
                },
                PacketTrack::Audio { .. } => {},
            }
        }
        proof {
            assert(all.take(n as int) =~= all);
        }
        let audios: usize = n - videos;
        (to_low_bits(videos), to_low_bits(audios))
    }
}

/// Both sides of the common size are those of some video stream.
pub proof fn bounding_size_is_no_larger(streams: Seq<StreamInfo>)
    ensures
        bounding_size(streams).0 == 0 || exists|i: int|
            0 <= i < streams.len() && (#[trigger] streams[i]) is Video && streams[i]->Video_0.width
                == bounding_size(streams).0,
        bounding_size(streams).1 == 0 || exists|i: int|
            0 <= i < streams.len() && (#[trigger] streams[i]) is Video && streams[i]->Video_0.height
                == bounding_size(streams).1,
    decreases streams.len(),
{
    if streams.len() > 0 {
        let before = streams.drop_last();
        let last = streams.len() - 1;
        bounding_size_is_no_larger(before);
        assert(streams[last] == streams.last());
        let size = bounding_size(streams);
        if size.0 != 0 && size.0 == bounding_size(before).0 {
            let i = choose|i: int|
                0 <= i < before.len() && (#[trigger] before[i]) is Video && before[i]->Video_0.width
                    == size.0;
            assert(streams[i] is Video);
        }
        if size.1 != 0 && size.1 == bounding_size(before).1 {
            let i = choose|i: int|
                0 <= i < before.len() && (#[trigger] before[i]) is Video
                    && before[i]->Video_0.height == size.1;
            assert(streams[i] is Video);
        }
    }
}

/// The track of a stream stands behind those of the streams before it, and says
/// what the stream does; a count below zero counts as none. Ignored streams give no
/// track.
pub proof fn stream_gives_its_packet_track(streams: Seq<StreamInfo>, size: (u32, u32), i: int)
    requires
        0 <= i < streams.len(),
    ensures
        ({
            let n = packet_tracks(streams.take(i), size).len() as int;
            let track = packet_tracks(streams, size)[n];
            &&& streams[i] is Ignored <==> packet_tracks(streams.take(i + 1), size).len() == n
            &&& !(streams[i] is Ignored) ==> n < packet_tracks(streams, size).len()
            &&& streams[i] matches StreamInfo::Video(v) ==> {
                &&& track matches PacketTrack::Video {
                    stream_index,
                    width,
                    height,
                    frames,
                    duration,
                }
                &&& stream_index == v.stream_index
                &&& width == size.0
                &&& height == size.1
                &&& v.frames >= 0 ==> frames == v.frames
                &&& v.frames < 0 ==> frames == 0
                &&& duration == v.duration
            }
            &&& streams[i] matches StreamInfo::Audio(a) ==> {
                &&& track matches PacketTrack::Audio {
                    stream_index,
                    sample_rate,
                    channels,
                    samples,
                    duration,
                }
                &&& stream_index == a.stream_index
                &&& sample_rate == a.sample_rate
                &&& channels == a.channels
                &&& a.frames >= 0 ==> samples == a.frames
                &&& a.frames < 0 ==> samples == 0
                &&& duration == a.duration
            }
        }),
    decreases streams.len(),
{
    let before = streams.drop_last();
    let last = streams.len() - 1;
    assert(streams.take(i + 1).drop_last() =~= streams.take(i));
    if i < last {
        stream_gives_its_packet_track(before, size, i);
        assert(before.take(i) =~= streams.take(i));
        assert(before.take(i + 1) =~= streams.take(i + 1));
        assert(before[i] == streams[i]);
        if !(streams[i] is Ignored) {
            let n = packet_tracks(streams.take(i), size).len() as int;
            assert(packet_tracks(streams, size)[n] == packet_tracks(before, size)[n]);
        }
    } else {
        assert(streams.take(i) =~= before);
        assert(streams.take(i + 1) =~= streams);
    }
}

/// Whether a packet is a keyframe.
pub open spec fn is_keyframe(packet: Packet) -> bool {
    packet matches Packet::Video { keyframe, .. } && keyframe
}

/// Whether a time is that of the last keyframe among some packets, of whatever
/// stream, or the start where there is none.
pub open spec fn is_keyframe_time(packets: Seq<Packet>, time: Timestamp) -> bool {
    ||| exists|j: int|
        {
            &&& 0 <= j < packets.len()
            &&& is_keyframe(#[trigger] packets[j])
            &&& packets[j]->Video_timestamp == time
            &&& forall|i: int| j < i < packets.len() ==> !is_keyframe(#[trigger] packets[i])
        }
    ||| time.key == 0 && forall|i: int|
        0 <= i < packets.len() ==> !is_keyframe(#[trigger] packets[i])
}

proof fn keyframe_time_is_the_last(packets: Seq<Packet>)
    ensures
        is_keyframe_time(packets, keyframe_time(packets)),
    decreases packets.len(),
{
    if packets.len() > 0 {
        let before = packets.drop_last();
        let last = packets.len() - 1;
        let time = keyframe_time(packets);
        keyframe_time_is_the_last(before);
        assert(packets[last] == packets.last());
        assert forall|i: int| 0 <= i < last implies #[trigger] packets[i] == before[i] by {}
        if !is_keyframe(packets.last()) {
            if exists|j: int|
                {
                    &&& 0 <= j < before.len()
                    &&& is_keyframe(#[trigger] before[j])
                    &&& before[j]->Video_timestamp == time
                    &&& forall|i: int| j < i < before.len() ==> !is_keyframe(#[trigger] before[i])
                } {
                let j = choose|j: int|
                    {
                        &&& 0 <= j < before.len()
                        &&& is_keyframe(#[trigger] before[j])
                        &&& before[j]->Video_timestamp == time
                        &&& forall|i: int|
                            j < i < before.len() ==> !is_keyframe(#[trigger] before[i])
                    };
                assert(is_keyframe(packets[j]));
                assert forall|i: int| j < i < packets.len() implies !is_keyframe(
                    #[trigger] packets[i],
                ) by {
                    if i < last {
                        assert(!is_keyframe(before[i]));
                    }
                }
            } else {
                assert forall|i: int| 0 <= i < packets.len() implies !is_keyframe(
                    #[trigger] packets[i],
                ) by {
                    if i < last {
                        assert(!is_keyframe(before[i]));
                    }
                }
            }
        }
    }
}

/// A packet gives an entry behind those of the packets before it, which holds
/// what the packet says, and of a video packet also the time of the last keyframe
/// up to it. Packets of other streams give none.
pub proof fn packet_gives_its_packet_entry(packets: Seq<Packet>, k: int)
    requires
        0 <= k < packets.len(),
    ensures
        ({
            let n = packet_entries(packets.take(k)).len() as int;
            let entry = packet_entries(packets)[n];
            &&& packets[k] is Ignored <==> packet_entries(packets.take(k + 1)).len() == n
            &&& !(packets[k] is Ignored) ==> n < packet_entries(packets).len()
            &&& packets[k] matches Packet::Video {
                stream_index,
                keyframe,
                position,
                timestamp,
                duration,
            } ==> {
                &&& entry is Video
                &&& entry->Video_0.stream_index == stream_index
                &&& entry->Video_0.keyframe == keyframe
                &&& entry->Video_0.position == position
                &&& entry->Video_0.timestamp == timestamp
                &&& entry->Video_0.duration == duration
                &&& is_keyframe_time(packets.take(k + 1), entry->Video_0.last_keyframe_timestamp)
            }
            &&& packets[k] matches Packet::Audio { stream_index, position, timestamp } ==> {
                &&& entry is Audio
                &&& entry->Audio_0.stream_index == stream_index
                &&& entry->Audio_0.position == position
                &&& entry->Audio_0.timestamp == timestamp
            }
        }),
    decreases packets.len(),
{
    let before = packets.drop_last();
    let last = packets.len() - 1;
    assert(packets.take(k + 1).drop_last() =~= packets.take(k));
    if k < last {
        packet_gives_its_packet_entry(before, k);
        assert(before.take(k) =~= packets.take(k));
        assert(before.take(k + 1) =~= packets.take(k + 1));
        assert(before[k] == packets[k]);
        if !(packets[k] is Ignored) {
            let n = packet_entries(packets.take(k)).len() as int;
            assert(packet_entries(packets)[n] == packet_entries(before)[n]);
        }
    } else {
        assert(packets.take(k) =~= before);
        assert(packets.take(k + 1) =~= packets);
        keyframe_time_is_the_last(packets);
    }
}

/// The entries of a video stream are those of video and of the stream, none left
/// out, in their order.
pub proof fn video_packets_are_picked(entries: Seq<PacketEntry>, stream: usize)
    ensures
        video_packets(entries, stream) == entries.filter(
            |e: PacketEntry| e is Video && e->Video_0.stream_index == stream,
        ).map_values(|e: PacketEntry| e->Video_0),
    decreases entries.len(),
{
    reveal(Seq::filter);
    let picked = entries.filter(
        |e: PacketEntry| e is Video && e->Video_0.stream_index == stream,
    ).map_values(|e: PacketEntry| e->Video_0);
    if entries.len() > 0 {
        video_packets_are_picked(entries.drop_last(), stream);
        assert(video_packets(entries, stream) =~= picked);
    } else {
        assert(video_packets(entries, stream) =~= picked);
    }
}

/// The entries of an audio stream are those of audio and of the stream, none left
/// out, in their order.
pub proof fn audio_packets_are_picked(entries: Seq<PacketEntry>, stream: usize)
    ensures
        audio_packets(entries, stream) == entries.filter(
            |e: PacketEntry| e is Audio && e->Audio_0.stream_index == stream,
        ).map_values(|e: PacketEntry| e->Audio_0),
    decreases entries.len(),
{
    reveal(Seq::filter);
    let picked = entries.filter(
        |e: PacketEntry| e is Audio && e->Audio_0.stream_index == stream,
    ).map_values(|e: PacketEntry| e->Audio_0);
    if entries.len() > 0 {
        audio_packets_are_picked(entries.drop_last(), stream);
        assert(audio_packets(entries, stream) =~= picked);
    } else {
        assert(audio_packets(entries, stream) =~= picked);
    }
}

/// The video tracks that are counted are all of them, and the other tracks are
/// those of audio.
pub proof fn tracks_are_counted(tracks: Seq<PacketTrack>)
    ensures
        video_count(tracks) == tracks.filter(|t: PacketTrack| t is Video).len(),
        tracks.len() - video_count(tracks) == tracks.filter(|t: PacketTrack| t is Audio).len(),
    decreases tracks.len(),
{
    reveal(Seq::filter);
    if tracks.len() > 0 {
        tracks_are_counted(tracks.drop_last());
    }
}

/// A video track is chosen exactly where one stands at the place, lasts and has
/// frames; it is told of as the track says, in the format of high dynamic range.
pub proof fn chosen_video_is_the_track_there(tracks: Seq<PacketTrack>, place: u32)
    ensures
        video_at(tracks, place) is Some <==> {
            &&& place < tracks.len()
            &&& tracks[place as int] is Video
            &&& tracks[place as int]->Video_duration.key > 0
            &&& tracks[place as int]->Video_frames > 0
        },
        video_at(tracks, place) matches Some((stream, info)) ==> {
            let track = tracks[place as int];
            &&& stream == track->Video_stream_index
            &&& info.width == track->Video_width
            &&& info.height == track->Video_height
            &&& info.frames == track->Video_frames
            &&& info.duration == track->Video_duration
            &&& info.output_format is Hf64
        },
{
}

/// An audio track is chosen exactly where one stands at the place, lasts and has
/// samples; it is told of as the track says.
pub proof fn chosen_audio_is_the_track_there(tracks: Seq<PacketTrack>, place: u32)
    ensures
        audio_at(tracks, place) is Some <==> {
            &&& place < tracks.len()
            &&& tracks[place as int] is Audio
            &&& tracks[place as int]->Audio_duration.key > 0
            &&& tracks[place as int]->Audio_samples > 0
        },
        audio_at(tracks, place) matches Some((stream, info)) ==> {
            let track = tracks[place as int];
            &&& stream == track->Audio_stream_index
            &&& info.sample_rate == track->Audio_sample_rate
            &&& info.channels == track->Audio_channels
            &&& info.samples == track->Audio_samples
        },
{
}

} // verus!

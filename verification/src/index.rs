//! The index of a media file: its tracks and its packets.
use crate::timestamp::Timestamp;
use vstd::prelude::*;

verus! {

/// The header that is written once the index beside it is complete.
#[derive(Debug, Clone)]
pub struct IndexHeaderFile {
    pub filename: String,
    pub filehash: u64,
    pub version_nonce: u64,
}

/// The tracks of a file and its packets, in the order in which they are stored.
#[derive(Debug, Clone)]
pub struct IndexContentFile {
    pub tracks: Vec<TrackInfo>,
    pub entries: Vec<IndexEntry>,
}

#[derive(Debug, Clone, Copy, PartialEq, Eq, Structural)]
pub enum TrackInfo {
    Video(VideoTrackInfo),
    Audio(AudioTrackInfo),
}

/// The pixel format in which the frames of a track are handed to the host.
#[derive(Debug, Clone, Copy, PartialEq, Eq, Structural)]
pub enum VideoOutputFormat {
    Bgra,
    Yuy2,
    Hf64,
}

impl VideoOutputFormat {
    /// The size of one pixel in bytes.
    pub open spec fn pixel_size(self) -> int {
        match self {
            VideoOutputFormat::Yuy2 => 2,
            VideoOutputFormat::Bgra => 4,
            VideoOutputFormat::Hf64 => 8,
        }
    }

    /// The size of one pixel in bytes.
    pub fn bytes_per_pixel(self) -> (res: usize)
        ensures
            res == self.pixel_size(),
    {
        match self {
            VideoOutputFormat::Yuy2 => 2,
            VideoOutputFormat::Bgra => 4,
            VideoOutputFormat::Hf64 => 8,
        }
    }
}

#[derive(Debug, Clone, Copy, PartialEq, Eq, Structural)]
pub struct VideoTrackInfo {
    pub stream_index: usize,
    pub width: u32,
    pub height: u32,
    pub frames: u64,
    pub duration: Timestamp,
    pub output_format: VideoOutputFormat,
}

#[derive(Debug, Clone, Copy, PartialEq, Eq, Structural)]
pub struct AudioTrackInfo {
    pub stream_index: usize,
    pub sample_rate: u32,
    pub channels: u16,
    pub samples: u64,
    pub duration: Timestamp,
}

/// One packet of a video stream.
#[derive(Debug, Clone, Copy, PartialEq, Eq, Structural)]
pub struct VideoEntry {
    pub stream_index: usize,
    pub keyframe: bool,
    pub position: u64,
    pub timestamp: Timestamp,
    pub duration: i64,
    pub last_keyframe_timestamp: Timestamp,
}

/// One packet of an audio stream.
#[derive(Debug, Clone, Copy, PartialEq, Eq, Structural)]
pub struct AudioEntry {
    pub stream_index: usize,
    pub position: u64,
    pub timestamp: Timestamp,
    /// How many samples of the stream were decoded from the packets before.
    pub start_sample: u64,
}

#[derive(Debug, Clone, Copy, PartialEq, Eq, Structural)]
pub enum IndexEntry {
    Video(VideoEntry),
    Audio(AudioEntry),
}

/// The video tracks among the given ones, in their order.
pub open spec fn video_tracks_of(tracks: Seq<TrackInfo>) -> Seq<VideoTrackInfo>
    decreases tracks.len(),
{
    if tracks.len() == 0 {
        seq![]
    } else {
        match tracks.last() {
            TrackInfo::Video(v) => video_tracks_of(tracks.drop_last()).push(v),
            TrackInfo::Audio(_) => video_tracks_of(tracks.drop_last()),
        }
    }
}

/// The audio tracks among the given ones, in their order.
pub open spec fn audio_tracks_of(tracks: Seq<TrackInfo>) -> Seq<AudioTrackInfo>
    decreases tracks.len(),
{
    if tracks.len() == 0 {
        seq![]
    } else {
        match tracks.last() {
            TrackInfo::Audio(a) => audio_tracks_of(tracks.drop_last()).push(a),
            TrackInfo::Video(_) => audio_tracks_of(tracks.drop_last()),
        }
    }
}

/// The video packets of one stream, in the order in which they are stored.
pub open spec fn video_entries_of(entries: Seq<IndexEntry>, stream: usize) -> Seq<VideoEntry>
    decreases entries.len(),
{
    if entries.len() == 0 {
        seq![]
    } else {
        let rest = video_entries_of(entries.drop_last(), stream);
        match entries.last() {
            IndexEntry::Video(e) if e.stream_index == stream => rest.push(e),
            _ => rest,
        }
    }
}

/// The audio packets of one stream, in the order in which they are stored.
pub open spec fn audio_entries_of(entries: Seq<IndexEntry>, stream: usize) -> Seq<AudioEntry>
    decreases entries.len(),
{
    if entries.len() == 0 {
        seq![]
    } else {
        let rest = audio_entries_of(entries.drop_last(), stream);
        match entries.last() {
            IndexEntry::Audio(e) if e.stream_index == stream => rest.push(e),
            _ => rest,
        }
    }
}

impl IndexContentFile {
    /// The video tracks, in the order of the streams.
    pub fn video_tracks(&self) -> (res: Vec<VideoTrackInfo>)
        ensures
            res@ == video_tracks_of(self.tracks@),
    {
        let mut res: Vec<VideoTrackInfo> = Vec::new();
        let n: usize = self.tracks.len();
        for i in 0..n
            invariant
                n == self.tracks.len(),
                res@ == video_tracks_of(self.tracks@.take(i as int)),
        {
            proof {
                assert(self.tracks@.take(i + 1).drop_last() =~= self.tracks@.take(i as int));
            }
            if let TrackInfo::Video(v) = self.tracks[i] {
                res.push(v);
            }
        }
        proof {
            assert(self.tracks@.take(n as int) =~= self.tracks@);
        }
        res
    }

    /// The audio tracks, in the order of the streams.
    pub fn audio_tracks(&self) -> (res: Vec<AudioTrackInfo>)
        ensures
            res@ == audio_tracks_of(self.tracks@),
    {
        let mut res: Vec<AudioTrackInfo> = Vec::new();
        let n: usize = self.tracks.len();
        for i in 0..n
            invariant
                n == self.tracks.len(),
                res@ == audio_tracks_of(self.tracks@.take(i as int)),
        {
            proof {
                assert(self.tracks@.take(i + 1).drop_last() =~= self.tracks@.take(i as int));
            }
            if let TrackInfo::Audio(a) = self.tracks[i] {
                res.push(a);
            }
        }
        proof {
            assert(self.tracks@.take(n as int) =~= self.tracks@);
        }
        res
    }

    /// The video packets of one stream, in the order in which they are stored.
    pub fn video_entries(&self, stream: usize) -> (res: Vec<VideoEntry>)
        ensures
            res@ == video_entries_of(self.entries@, stream),
    {
        let mut res: Vec<VideoEntry> = Vec::new();
        let n: usize = self.entries.len();
        for i in 0..n
            invariant
                n == self.entries.len(),
                res@ == video_entries_of(self.entries@.take(i as int), stream),
        {
            proof {
                assert(self.entries@.take(i + 1).drop_last() =~= self.entries@.take(i as int));
            }
            if self.entries[i].stream_index() == stream {
                if let Some(e) = self.entries[i].as_video() {
                    res.push(*e);
                }
            }
        }
        proof {
            assert(self.entries@.take(n as int) =~= self.entries@);
        }
        res
    }

    /// The audio packets of one stream, in the order in which they are stored.
    pub fn audio_entries(&self, stream: usize) -> (res: Vec<AudioEntry>)
        ensures
            res@ == audio_entries_of(self.entries@, stream),
    {
        let mut res: Vec<AudioEntry> = Vec::new();
        let n: usize = self.entries.len();
        for i in 0..n
            invariant
                n == self.entries.len(),
                res@ == audio_entries_of(self.entries@.take(i as int), stream),
        {
            proof {
                assert(self.entries@.take(i + 1).drop_last() =~= self.entries@.take(i as int));
            }
            if self.entries[i].stream_index() == stream {
                if let Some(e) = self.entries[i].as_audio() {
                    res.push(*e);
                }
            }
        }
        proof {
            assert(self.entries@.take(n as int) =~= self.entries@);
        }
        res
    }
}

impl IndexEntry {
    /// The stream that the packet belongs to.
    pub open spec fn stream(self) -> usize {
        match self {
            IndexEntry::Video(entry) => entry.stream_index,
            IndexEntry::Audio(entry) => entry.stream_index,
        }
    }

    /// The stream that the packet belongs to.
    pub fn stream_index(&self) -> (res: usize)
        ensures
            res == self.stream(),
    {
        match self {
            IndexEntry::Video(entry) => entry.stream_index,
            IndexEntry::Audio(entry) => entry.stream_index,
        }
    }

    /// The packet, if it is one of video.
    pub fn as_video(&self) -> (res: Option<&VideoEntry>)
        ensures
            match *self {
                IndexEntry::Video(entry) => res == Some(&entry),
                IndexEntry::Audio(_) => res is None,
            },
    {
        if let IndexEntry::Video(entry) = self {
            Some(entry)
        } else {
            None
        }
    }

    /// The packet, if it is one of audio.
    pub fn as_audio(&self) -> (res: Option<&AudioEntry>)
        ensures
            match *self {
                IndexEntry::Audio(entry) => res == Some(&entry),
                IndexEntry::Video(_) => res is None,
            },
    {
        if let IndexEntry::Audio(entry) = self {
            Some(entry)
        } else {
            None
        }
    }
}

/// Every track is either one of video or one of audio, so that the two counts
/// that the host asks for add up to the number of tracks.
pub proof fn tracks_are_video_or_audio(tracks: Seq<TrackInfo>)
    ensures
        video_tracks_of(tracks).len() + audio_tracks_of(tracks).len() == tracks.len(),
    decreases tracks.len(),
{
    if tracks.len() > 0 {
        tracks_are_video_or_audio(tracks.drop_last());
    }
}

/// The video tracks are those tracks that are of video, none left out, in their
/// order.
pub proof fn video_tracks_are_picked(tracks: Seq<TrackInfo>)
    ensures
        video_tracks_of(tracks) == tracks.filter(|t: TrackInfo| t is Video).map_values(
            |t: TrackInfo| t->Video_0,
        ),
    decreases tracks.len(),
{
    reveal(Seq::filter);
    let picked = tracks.filter(|t: TrackInfo| t is Video).map_values(|t: TrackInfo| t->Video_0);
    if tracks.len() > 0 {
        video_tracks_are_picked(tracks.drop_last());
        assert(video_tracks_of(tracks) =~= picked);
    } else {
        assert(video_tracks_of(tracks) =~= picked);
    }
}

/// The audio tracks are those tracks that are of audio, none left out, in their
/// order.
pub proof fn audio_tracks_are_picked(tracks: Seq<TrackInfo>)
    ensures
        audio_tracks_of(tracks) == tracks.filter(|t: TrackInfo| t is Audio).map_values(
            |t: TrackInfo| t->Audio_0,
        ),
    decreases tracks.len(),
{
    reveal(Seq::filter);
    let picked = tracks.filter(|t: TrackInfo| t is Audio).map_values(|t: TrackInfo| t->Audio_0);
    if tracks.len() > 0 {
        audio_tracks_are_picked(tracks.drop_last());
        assert(audio_tracks_of(tracks) =~= picked);
    } else {
        assert(audio_tracks_of(tracks) =~= picked);
    }
}

/// The video packets of a stream are those entries that are of video and of the
/// stream, none left out, in their order.
pub proof fn video_entries_are_picked(entries: Seq<IndexEntry>, stream: usize)
    ensures
        video_entries_of(entries, stream) == entries.filter(
            |e: IndexEntry| e is Video && e->Video_0.stream_index == stream,
        ).map_values(|e: IndexEntry| e->Video_0),
    decreases entries.len(),
{
    reveal(Seq::filter);
    let picked = entries.filter(
        |e: IndexEntry| e is Video && e->Video_0.stream_index == stream,
    ).map_values(|e: IndexEntry| e->Video_0);
    if entries.len() > 0 {
        video_entries_are_picked(entries.drop_last(), stream);
        assert(video_entries_of(entries, stream) =~= picked);
    } else {
        assert(video_entries_of(entries, stream) =~= picked);
    }
}

/// The audio packets of a stream are those entries that are of audio and of the
/// stream, none left out, in their order.
pub proof fn audio_entries_are_picked(entries: Seq<IndexEntry>, stream: usize)
    ensures
        audio_entries_of(entries, stream) == entries.filter(
            |e: IndexEntry| e is Audio && e->Audio_0.stream_index == stream,
        ).map_values(|e: IndexEntry| e->Audio_0),
    decreases entries.len(),
{
    reveal(Seq::filter);
    let picked = entries.filter(
        |e: IndexEntry| e is Audio && e->Audio_0.stream_index == stream,
    ).map_values(|e: IndexEntry| e->Audio_0);
    if entries.len() > 0 {
        audio_entries_are_picked(entries.drop_last(), stream);
        assert(audio_entries_of(entries, stream) =~= picked);
    } else {
        assert(audio_entries_of(entries, stream) =~= picked);
    }
}

/// A packet is among those of a stream exactly where it is among all entries and
/// is one of that stream.
pub proof fn video_entry_is_found(entries: Seq<IndexEntry>, stream: usize, entry: VideoEntry)
    ensures
        video_entries_of(entries, stream).contains(entry) <==> entries.contains(
            IndexEntry::Video(entry),
        ) && entry.stream_index == stream,
    decreases entries.len(),
{
    if entries.len() > 0 {
        let before = entries.drop_last();
        let found = video_entries_of(entries, stream);
        let had = video_entries_of(before, stream);
        video_entry_is_found(before, stream, entry);
        if found.contains(entry) {
            let i = choose|i: int| 0 <= i < found.len() && found[i] == entry;
            if i < had.len() {
                assert(had[i] == entry);
                assert(before.contains(IndexEntry::Video(entry)));
                let j = choose|j: int| 0 <= j < before.len() && before[j] == IndexEntry::Video(entry);
                assert(entries[j] == IndexEntry::Video(entry));
            } else {
                assert(entries[entries.len() - 1] == IndexEntry::Video(entry));
            }
        }
        if entries.contains(IndexEntry::Video(entry)) && entry.stream_index == stream {
            let j = choose|j: int| 0 <= j < entries.len() && entries[j] == IndexEntry::Video(entry);
            if j < before.len() {
                assert(before[j] == IndexEntry::Video(entry));
                assert(had.contains(entry));
                let i = choose|i: int| 0 <= i < had.len() && had[i] == entry;
                assert(found[i] == entry);
            } else {
                assert(found[found.len() - 1] == entry);
            }
        }
    }
}

} // verus!

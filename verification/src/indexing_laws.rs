//! What holds of an index: which entry a packet gives, and which track a stream.
use crate::index::{video_entries_of, TrackInfo};
use crate::indexing::{
    area, audio_end_of, decoded_samples_of, entries_of, index_tracks, is_packet, largest_video_size,
    last_keyframe, tracks_of, video_end_of, video_packets_in, AudioStream, PacketEvent,
    StreamInfo, VideoStream,
};
use crate::media::{PixelFormat, TransferCharacteristic};
use crate::timestamp::Timestamp;
use vstd::prelude::*;

verus! {

/// Whether a time is that of the last keyframe among some packets, of whatever
/// stream, or the start where there is none.
pub open spec fn is_last_keyframe(events: Seq<PacketEvent>, time: Timestamp) -> bool {
    ||| exists|j: int|
        {
            &&& 0 <= j < events.len()
            &&& (#[trigger] events[j]) is Video
            &&& events[j]->Video_0.keyframe
            &&& events[j]->Video_0.timestamp == time
            &&& forall|i: int|
                j < i < events.len() ==> !((#[trigger] events[i]) is Video
                    && events[i]->Video_0.keyframe)
        }
    ||| {
        &&& time.key == 0
        &&& forall|i: int|
            0 <= i < events.len() ==> !((#[trigger] events[i]) is Video
                && events[i]->Video_0.keyframe)
    }
}

proof fn last_keyframe_is_the_last(events: Seq<PacketEvent>)
    ensures
        is_last_keyframe(events, last_keyframe(events)),
    decreases events.len(),
{
    if events.len() > 0 {
        let before = events.drop_last();
        let last = events.len() - 1;
        let time = last_keyframe(events);
        last_keyframe_is_the_last(before);
        assert(events[last] == events.last());
        if !(events.last() is Video && events.last()->Video_0.keyframe) {
            if exists|j: int|
                {
                    &&& 0 <= j < before.len()
                    &&& (#[trigger] before[j]) is Video
                    &&& before[j]->Video_0.keyframe
                    &&& before[j]->Video_0.timestamp == time
                    &&& forall|i: int|
                        j < i < before.len() ==> !((#[trigger] before[i]) is Video
                            && before[i]->Video_0.keyframe)
                } {
                let j = choose|j: int|
                    {
                        &&& 0 <= j < before.len()
                        &&& (#[trigger] before[j]) is Video
                        &&& before[j]->Video_0.keyframe
                        &&& before[j]->Video_0.timestamp == time
                        &&& forall|i: int|
                            j < i < before.len() ==> !((#[trigger] before[i]) is Video
                                && before[i]->Video_0.keyframe)
                    };
                assert(events[j] == before[j]);
                assert forall|i: int| j < i < events.len() implies !((#[trigger] events[i]) is Video
                    && events[i]->Video_0.keyframe) by {
                    if i < last {
                        assert(before[i] == events[i]);
                    }
                }
            } else {
                assert forall|i: int| 0 <= i < events.len() implies !((
                #[trigger] events[i]) is Video && events[i]->Video_0.keyframe) by {
                    if i < last {
                        assert(before[i] == events[i]);
                    }
                }
            }
        }
    }
}

/// A packet gives an entry behind those of the packets before it, which holds
/// what the packet says. One of video also holds the time of the last keyframe up
/// to it, and one of audio how many samples of its stream were decoded before it.
pub proof fn packet_gives_its_entry(events: Seq<PacketEvent>, k: int)
    requires
        0 <= k < events.len(),
        is_packet(events[k]),
    ensures
        ({
            let n = entries_of(events.take(k)).len() as int;
            let entry = entries_of(events)[n];
            &&& n < entries_of(events).len()
            &&& events[k] matches PacketEvent::Video(p) ==> {
                &&& entry is Video
                &&& entry->Video_0.stream_index == p.stream_index
                &&& entry->Video_0.keyframe == p.keyframe
                &&& entry->Video_0.position == p.position
                &&& entry->Video_0.timestamp == p.timestamp
                &&& entry->Video_0.duration == p.duration
                &&& is_last_keyframe(events.take(k + 1), entry->Video_0.last_keyframe_timestamp)
            }
            &&& events[k] matches PacketEvent::Audio(p) ==> {
                &&& entry is Audio
                &&& entry->Audio_0.stream_index == p.stream_index
                &&& entry->Audio_0.position == p.position
                &&& entry->Audio_0.timestamp == p.timestamp
                &&& decoded_samples_of(events.take(k), p.stream_index) <= u64::MAX
                    ==> entry->Audio_0.start_sample == decoded_samples_of(
                    events.take(k),
                    p.stream_index,
                )
            }
        }),
    decreases events.len(),
{
    let before = events.drop_last();
    let last = events.len() - 1;
    if k < last {
        packet_gives_its_entry(before, k);
        assert(before.take(k) =~= events.take(k));
        assert(before.take(k + 1) =~= events.take(k + 1));
        assert(before[k] == events[k]);
        let n = entries_of(events.take(k)).len() as int;
        assert(entries_of(events)[n] == entries_of(before)[n]);
    } else {
        assert(events.take(k) =~= before);
        assert(events.take(k + 1) =~= events);
        last_keyframe_is_the_last(events);
    }
}

/// The samples of a stream that were decoded are those of its packets and of its
/// drained decoder, added up.
pub proof fn decoded_samples_add_up(a: Seq<PacketEvent>, b: Seq<PacketEvent>, stream: usize)
    ensures
        decoded_samples_of(a + b, stream) == decoded_samples_of(a, stream) + decoded_samples_of(
            b,
            stream,
        ),
        a.len() == 1 ==> decoded_samples_of(a, stream) == match a[0] {
            PacketEvent::Video(_) => 0nat,
            PacketEvent::Audio(p) => if p.stream_index == stream {
                p.decoded_samples as nat
            } else {
                0
            },
            PacketEvent::Drained { stream_index, decoded_samples } => if stream_index == stream {
                decoded_samples as nat
            } else {
                0
            },
        },
        a.len() == 0 ==> decoded_samples_of(a, stream) == 0,
    decreases b.len(),
{
    if b.len() == 0 {
        assert(a + b =~= a);
    } else {
        assert((a + b).drop_last() =~= a + b.drop_last());
        assert((a + b).last() == b.last());
        decoded_samples_add_up(a, b.drop_last(), stream);
    }
    if a.len() == 1 {
        assert(decoded_samples_of(a.drop_last(), stream) == 0);
    }
}

/// Whether a time is the latest at which a video packet of a stream ends.
pub open spec fn is_video_end(events: Seq<PacketEvent>, stream: usize, time: Timestamp) -> bool {
    &&& exists|k: int|
        0 <= k < events.len() && (#[trigger] events[k]) is Video && events[k]->Video_0.stream_index
            == stream && events[k]->Video_0.end_timestamp == time
    &&& forall|k: int|
        0 <= k < events.len() && (#[trigger] events[k]) is Video && events[k]->Video_0.stream_index
            == stream ==> events[k]->Video_0.end_timestamp.key <= time.key
}

/// A video stream ends where the last of its packets does, whatever their order;
/// one without packets has no end.
pub proof fn video_stream_ends_with_its_packets(events: Seq<PacketEvent>, stream: usize)
    ensures
        video_end_of(events, stream) is Some <==> exists|k: int|
            0 <= k < events.len() && (#[trigger] events[k]) is Video
                && events[k]->Video_0.stream_index == stream,
        video_end_of(events, stream) matches Some(time) ==> is_video_end(events, stream, time),
    decreases events.len(),
{
    if events.len() > 0 {
        let before = events.drop_last();
        let last = events.len() - 1;
        video_stream_ends_with_its_packets(before, stream);
        assert(events[last] == events.last());
        if let Some(time) = video_end_of(before, stream) {
            let k = choose|k: int|
                0 <= k < before.len() && (#[trigger] before[k]) is Video
                    && before[k]->Video_0.stream_index == stream && before[k]->Video_0.end_timestamp
                    == time;
            assert(events[k] == before[k]);
        }
        assert forall|k: int|
            0 <= k < events.len() && (#[trigger] events[k]) is Video
                && events[k]->Video_0.stream_index == stream implies video_end_of(
            events,
            stream,
        ) is Some && events[k]->Video_0.end_timestamp.key <= video_end_of(events, stream)->0.key by {
            if k < last {
                assert(before[k] == events[k]);
            }
        }
    }
}

/// Whether a time is the latest at which an audio packet of a stream ends.
pub open spec fn is_audio_end(events: Seq<PacketEvent>, stream: usize, time: Timestamp) -> bool {
    &&& exists|k: int|
        0 <= k < events.len() && (#[trigger] events[k]) is Audio && events[k]->Audio_0.stream_index
            == stream && events[k]->Audio_0.end_timestamp == time
    &&& forall|k: int|
        0 <= k < events.len() && (#[trigger] events[k]) is Audio && events[k]->Audio_0.stream_index
            == stream ==> events[k]->Audio_0.end_timestamp.key <= time.key
}

/// An audio stream ends where the last of its packets does, whatever their order;
/// one without packets has no end.
pub proof fn audio_stream_ends_with_its_packets(events: Seq<PacketEvent>, stream: usize)
    ensures
        audio_end_of(events, stream) is Some <==> exists|k: int|
            0 <= k < events.len() && (#[trigger] events[k]) is Audio
                && events[k]->Audio_0.stream_index == stream,
        audio_end_of(events, stream) matches Some(time) ==> is_audio_end(events, stream, time),
    decreases events.len(),
{
    if events.len() > 0 {
        let before = events.drop_last();
        let last = events.len() - 1;
        audio_stream_ends_with_its_packets(before, stream);
        assert(events[last] == events.last());
        if let Some(time) = audio_end_of(before, stream) {
            let k = choose|k: int|
                0 <= k < before.len() && (#[trigger] before[k]) is Audio
                    && before[k]->Audio_0.stream_index == stream && before[k]->Audio_0.end_timestamp
                    == time;
            assert(events[k] == before[k]);
        }
        assert forall|k: int|
            0 <= k < events.len() && (#[trigger] events[k]) is Audio
                && events[k]->Audio_0.stream_index == stream implies audio_end_of(
            events,
            stream,
        ) is Some && events[k]->Audio_0.end_timestamp.key <= audio_end_of(events, stream)->0.key by {
            if k < last {
                assert(before[k] == events[k]);
            }
        }
    }
}

/// The video packets of a stream that are counted are all of them, keyframes or
/// not, and as many as the entries of the stream.
pub proof fn every_video_packet_is_counted(events: Seq<PacketEvent>, stream: usize)
    ensures
        video_packets_in(entries_of(events), stream) == events.filter(
            |e: PacketEvent| e is Video && e->Video_0.stream_index == stream,
        ).len(),
        video_packets_in(entries_of(events), stream) == video_entries_of(
            entries_of(events),
            stream,
        ).len(),
        video_packets_in(entries_of(events), stream) <= events.len(),
    decreases events.len(),
{
    reveal(Seq::filter);
    if events.len() > 0 {
        let before = events.drop_last();
        every_video_packet_is_counted(before, stream);
        if is_packet(events.last()) {
            assert(entries_of(events).drop_last() =~= entries_of(before));
        }
    }
}

/// The tracks are as many as the streams that are not ignored, and the track of
/// such a stream stands behind those of the streams before it.
proof fn stream_has_its_place(streams: Seq<StreamInfo>, i: int)
    requires
        0 <= i < streams.len(),
        !(streams[i] is Ignored),
    ensures
        tracks_of(streams.take(i)).len() < tracks_of(streams).len(),
        tracks_of(streams)[tracks_of(streams.take(i)).len() as int] == tracks_of(
            seq![streams[i]],
        )[0],
    decreases streams.len(),
{
    let before = streams.drop_last();
    let last = streams.len() - 1;
    let alone = seq![streams[i]];
    assert(alone.drop_last() =~= seq![]);
    assert(alone.last() == streams[i]);
    assert(tracks_of(alone.drop_last()).len() == 0);
    if i < last {
        stream_has_its_place(before, i);
        assert(before.take(i) =~= streams.take(i));
        assert(before[i] == streams[i]);
        let n = tracks_of(streams.take(i)).len() as int;
        assert(tracks_of(streams)[n] == tracks_of(before)[n]);
    } else {
        assert(streams.take(i) =~= before);
    }
}

/// There are as many tracks as streams that are not ignored.
pub proof fn one_track_per_stream(streams: Seq<StreamInfo>, events: Seq<PacketEvent>)
    ensures
        index_tracks(streams, events).len() == streams.filter(
            |s: StreamInfo| !(s is Ignored),
        ).len(),
    decreases streams.len(),
{
    reveal(Seq::filter);
    if streams.len() > 0 {
        one_track_per_stream(streams.drop_last(), events);
    }
}

/// The track of a video stream. It has the stream's own frame count where the
/// container gives one, and else as many frames as the stream has packets,
/// keyframes or not; the stream's duration where there is one, and else the end of
/// its packets; and the format of high dynamic range, of packed 4:2:2 or of
/// colours, as its pictures are.
pub proof fn track_of_a_video_stream(
    streams: Seq<StreamInfo>,
    events: Seq<PacketEvent>,
    i: int,
    s: VideoStream,
)
    requires
        0 <= i < streams.len(),
        streams[i] == StreamInfo::Video(s),
        events.len() <= u64::MAX,
    ensures
        ({
            let n = tracks_of(streams.take(i)).len() as int;
            let track = index_tracks(streams, events)[n];
            let v = track->Video_0;
            let own = events.filter(
                |e: PacketEvent| e is Video && e->Video_0.stream_index == s.stream_index,
            );
            let ended = exists|k: int|
                0 <= k < events.len() && (#[trigger] events[k]) is Video
                    && events[k]->Video_0.stream_index == s.stream_index;
            &&& n < index_tracks(streams, events).len()
            &&& track is Video
            &&& v.stream_index == s.stream_index
            &&& s.frames > 0 ==> v.frames == s.frames
            &&& s.frames <= 0 ==> v.frames == own.len()
            &&& s.duration_ticks > 0 && s.duration.key > 0 ==> v.duration == s.duration
            &&& !(s.duration_ticks > 0 && s.duration.key > 0) && ended ==> is_video_end(
                events,
                s.stream_index,
                v.duration,
            )
            &&& s.duration_ticks <= 0 && !ended ==> v.duration.key == 0
            &&& s.duration_ticks > 0 && !ended ==> v.duration == s.duration
            &&& v.output_format is Hf64 <==> (s.transfer == TransferCharacteristic::Smpte2084
                || s.transfer == TransferCharacteristic::AribStdB67)
            &&& v.output_format is Bgra <==> s.transfer == TransferCharacteristic::Other && (
            s.format == PixelFormat::Bgra || s.format == PixelFormat::Gbrpf32Le || s.format
                == PixelFormat::Other)
            &&& area((s.width, s.height)) <= area((v.width, v.height))
            &&& (v.width, v.height) == largest_video_size(tracks_of(streams))
        }),
{
    let n = tracks_of(streams.take(i)).len() as int;
    stream_has_its_place(streams, i);
    every_video_packet_is_counted(events, s.stream_index);
    video_stream_ends_with_its_packets(events, s.stream_index);
    let alone = seq![streams[i]];
    assert(alone.last() == streams[i]);
    assert(tracks_of(alone.drop_last()).len() == 0);
    crate::indexing::common_size_is_the_largest(tracks_of(streams), n);
}

/// The track of an audio stream. Its samples are those that were decoded, and the
/// count of the container where none were; its duration is the stream's where there
/// is one, and else the end of its packets.
pub proof fn track_of_an_audio_stream(
    streams: Seq<StreamInfo>,
    events: Seq<PacketEvent>,
    i: int,
    s: AudioStream,
)
    requires
        0 <= i < streams.len(),
        streams[i] == StreamInfo::Audio(s),
        decoded_samples_of(events, s.stream_index) <= u64::MAX,
    ensures
        ({
            let n = tracks_of(streams.take(i)).len() as int;
            let track = index_tracks(streams, events)[n];
            let a = track->Audio_0;
            let decoded = decoded_samples_of(events, s.stream_index);
            let ended = exists|k: int|
                0 <= k < events.len() && (#[trigger] events[k]) is Audio
                    && events[k]->Audio_0.stream_index == s.stream_index;
            &&& n < index_tracks(streams, events).len()
            &&& track is Audio
            &&& a.stream_index == s.stream_index
            &&& a.sample_rate == s.sample_rate
            &&& a.channels == s.channels
            &&& decoded > 0 ==> a.samples == decoded
            &&& decoded == 0 && s.frames > 0 ==> a.samples == s.frames
            &&& decoded == 0 && s.frames <= 0 ==> a.samples == 0
            &&& s.duration_ticks > 0 && s.duration.key > 0 ==> a.duration == s.duration
            &&& !(s.duration_ticks > 0 && s.duration.key > 0) && ended ==> is_audio_end(
                events,
                s.stream_index,
                a.duration,
            )
            &&& s.duration_ticks <= 0 && !ended ==> a.duration.key == 0
            &&& s.duration_ticks > 0 && !ended ==> a.duration == s.duration
        }),
{
    stream_has_its_place(streams, i);
    audio_stream_ends_with_its_packets(events, s.stream_index);
    let alone = seq![streams[i]];
    assert(alone.last() == streams[i]);
    assert(tracks_of(alone.drop_last()).len() == 0);
}

/// The area of a video track, and nothing of another.
pub open spec fn track_area(track: TrackInfo) -> int {
    match track {
        TrackInfo::Video(v) => area((v.width, v.height)),
        TrackInfo::Audio(_) => 0,
    }
}

/// Whether a track is the first of those with the largest area.
pub open spec fn is_first_of_the_largest(tracks: Seq<TrackInfo>, k: int) -> bool {
    &&& 0 <= k < tracks.len()
    &&& tracks[k] is Video
    &&& forall|j: int| 0 <= j < k ==> track_area(#[trigger] tracks[j]) < track_area(tracks[k])
    &&& forall|j: int|
        k <= j < tracks.len() ==> track_area(#[trigger] tracks[j]) <= track_area(tracks[k])
}

proof fn track_area_is_not_negative(track: TrackInfo)
    ensures
        0 <= track_area(track),
{
    if let TrackInfo::Video(v) = track {
        let w = v.width as int;
        let h = v.height as int;
        assert(w * h >= 0) by (nonlinear_arith)
            requires
                w >= 0,
                h >= 0,
        ;
    }
}

/// Of several video tracks that are equally large the first gives the common size.
/// Where no track has any area there is none.
pub proof fn common_size_is_the_first_of_the_largest(tracks: Seq<TrackInfo>) -> (k: int)
    ensures
        is_first_of_the_largest(tracks, k) && largest_video_size(tracks) == (
            tracks[k]->Video_0.width,
            tracks[k]->Video_0.height,
        ) || largest_video_size(tracks) == (0u32, 0u32) && forall|j: int|
            0 <= j < tracks.len() ==> track_area(#[trigger] tracks[j]) == 0,
    decreases tracks.len(),
{
    if tracks.len() == 0 {
        0
    } else {
        let before = tracks.drop_last();
        let last = tracks.len() - 1;
        let k = common_size_is_the_first_of_the_largest(before);
        let zero = 0u32;
        assert(area((zero, zero)) == 0) by {
            assert(zero * zero == 0) by (nonlinear_arith)
                requires
                    zero == 0,
            ;
        }
        assert(tracks[last] == tracks.last());
        assert forall|j: int| 0 <= j < last implies #[trigger] tracks[j] == before[j] by {}
        track_area_is_not_negative(tracks[last]);
        if tracks[last] is Video && track_area(tracks[last]) > area(largest_video_size(before)) {
            assert(is_first_of_the_largest(tracks, last)) by {
                assert forall|j: int| 0 <= j < last implies track_area(#[trigger] tracks[j])
                    < track_area(tracks[last]) by {
                    assert(track_area(before[j]) <= area(largest_video_size(before)));
                }
            }
            last
        } else {
            if is_first_of_the_largest(before, k) && largest_video_size(before) == (
                before[k]->Video_0.width,
                before[k]->Video_0.height,
            ) {
                track_area_is_not_negative(before[k]);
            }
            k
        }
    }
}

} // verus!

use ffmpeg_aui2::index::{
    AudioEntry, AudioTrackInfo, IndexContentFile, IndexEntry, TrackInfo, VideoEntry,
    VideoOutputFormat, VideoTrackInfo,
};
use ffmpeg_aui2::indexing::{
    choose_output_format, create_index, packet_timestamp, stream_duration, AudioPacket,
    AudioStream, IndexBuilder, PacketEvent, StreamInfo, VideoPacket, VideoStream,
};
use ffmpeg_aui2::input_plugin::{
    format_ffmpeg_version, read_needs_seek, sample_range, AudioRead, AudioWindow,
    FfmpegAui2InputHandle, ReadError, SampleRange, VideoRead,
};
use ffmpeg_aui2::frame_cache::PrefetchedFrame;
use ffmpeg_aui2::media::{PixelFormat, TransferCharacteristic};
use ffmpeg_aui2::packet_index::{
    create_packet_index, AudioPacketEntry, Packet, PacketEntry, PacketInput, PacketTrack,
};
use ffmpeg_aui2::sorting::sort;
use ffmpeg_aui2::timestamp::Timestamp;
use ffmpeg_aui2::video::{Clock, VideoDecoderState};

fn at(seconds: f64) -> Timestamp {
    Timestamp::from_bits(seconds.to_bits()).unwrap()
}

fn video_stream(stream_index: usize, width: u32, height: u32) -> VideoStream {
    VideoStream {
        stream_index,
        width,
        height,
        frames: 3,
        duration_ticks: 90,
        duration: at(1.0),
        format: PixelFormat::Yuv420p,
        transfer: TransferCharacteristic::Other,
    }
}

fn audio_stream(stream_index: usize) -> AudioStream {
    AudioStream {
        stream_index,
        sample_rate: 48000,
        channels: 2,
        frames: -1,
        duration_ticks: 0,
        duration: at(-3.0),
    }
}

fn video_packet(stream_index: usize, keyframe: bool, seconds: f64) -> PacketEvent {
    PacketEvent::Video(VideoPacket {
        stream_index,
        keyframe,
        position: 7,
        timestamp: at(seconds),
        end_timestamp: at(seconds + 0.5),
        duration: 45,
    })
}

fn audio_packet(stream_index: usize, seconds: f64, decoded_samples: u64) -> PacketEvent {
    PacketEvent::Audio(AudioPacket {
        stream_index,
        position: 9,
        timestamp: at(seconds),
        end_timestamp: at(seconds + 0.25),
        decoded_samples,
    })
}

fn index() -> IndexContentFile {
    let streams = vec![
        StreamInfo::Video(video_stream(0, 640, 480)),
        StreamInfo::Ignored,
        StreamInfo::Audio(audio_stream(2)),
        StreamInfo::Video(VideoStream { frames: 0, duration_ticks: -5, ..video_stream(3, 320, 999) }),
    ];
    let events = vec![
        video_packet(0, true, 0.0),
        audio_packet(2, 0.0, 1024),
        video_packet(0, false, 1.5),
        video_packet(0, false, 0.5),
        video_packet(3, true, 2.0),
        audio_packet(2, 0.25, 1000),
        video_packet(0, false, 1.0),
        PacketEvent::Drained { stream_index: 2, decoded_samples: 24 },
    ];
    create_index(&streams, &events)
}

#[test]
fn times_keep_their_order() {
    let seconds = [
        f64::NEG_INFINITY,
        f64::MIN,
        -2.5,
        -1e-300,
        -0.0,
        0.0,
        1e-300,
        0.1,
        2.5,
        f64::MAX,
        f64::INFINITY,
    ];
    for a in seconds {
        for b in seconds {
            assert_eq!(at(a).key < at(b).key, a < b);
            assert_eq!(at(a).key == at(b).key, a == b);
            let later = if a < b { b } else { a };
            assert_eq!(at(a).max(at(b)).key, at(later).key);
        }
        assert_eq!(f64::from_bits(at(a).to_bits()), a);
    }
    assert!(Timestamp::from_bits(f64::NAN.to_bits()).is_none());
    assert!(Timestamp::from_bits((-f64::NAN).to_bits()).is_none());
    assert_eq!(at(-0.0).to_bits(), 0);
}

#[test]
fn packets_have_a_time() {
    assert_eq!(packet_timestamp(Some(5), Some(3)), 5);
    assert_eq!(packet_timestamp(None, Some(3)), 3);
    assert_eq!(packet_timestamp(None, None), 0);
    assert_eq!(stream_duration(5, at(2.0)), at(2.0));
    assert_eq!(stream_duration(0, at(2.0)), at(0.0));
}

#[test]
fn formats_are_chosen() {
    let other = TransferCharacteristic::Other;
    assert_eq!(choose_output_format(other, PixelFormat::Yuv420p10), VideoOutputFormat::Yuy2);
    assert_eq!(choose_output_format(other, PixelFormat::Uyvy422), VideoOutputFormat::Yuy2);
    assert_eq!(choose_output_format(other, PixelFormat::Other), VideoOutputFormat::Bgra);
    assert_eq!(choose_output_format(other, PixelFormat::Bgra), VideoOutputFormat::Bgra);
    let hdr = TransferCharacteristic::AribStdB67;
    assert_eq!(choose_output_format(hdr, PixelFormat::Yuv420p10), VideoOutputFormat::Hf64);
    assert_eq!(VideoOutputFormat::Hf64.bytes_per_pixel(), 8);
}

#[test]
fn indexes_are_exact() {
    let index = index();
    assert_eq!(
        index.tracks,
        vec![
            TrackInfo::Video(VideoTrackInfo {
                stream_index: 0,
                width: 320,
                height: 999,
                frames: 3,
                duration: at(1.0),
                output_format: VideoOutputFormat::Yuy2,
            }),
            TrackInfo::Audio(AudioTrackInfo {
                stream_index: 2,
                sample_rate: 48000,
                channels: 2,
                samples: 2048,
                duration: at(0.5),
            }),
            TrackInfo::Video(VideoTrackInfo {
                stream_index: 3,
                width: 320,
                height: 999,
                frames: 1,
                duration: at(2.5),
                output_format: VideoOutputFormat::Yuy2,
            }),
        ]
    );
    assert_eq!(index.entries.len(), 7);
    assert_eq!(
        index.entries[2],
        IndexEntry::Video(VideoEntry {
            stream_index: 0,
            keyframe: false,
            position: 7,
            timestamp: at(1.5),
            duration: 45,
            last_keyframe_timestamp: at(0.0),
        })
    );
    assert_eq!(index.entries[6].as_video().unwrap().last_keyframe_timestamp, at(2.0));
    assert_eq!(
        index.entries[5],
        IndexEntry::Audio(AudioEntry {
            stream_index: 2,
            position: 9,
            timestamp: at(0.25),
            start_sample: 1024,
        })
    );
    assert_eq!(index.entries[5].stream_index(), 2);
    assert!(index.entries[5].as_video().is_none());
    assert!(index.entries[4].as_audio().is_none());
    assert_eq!(index.video_tracks().len(), 2);
    assert_eq!(index.audio_tracks().len(), 1);
}

#[test]
fn indexes_grow_packet_by_packet() {
    let mut builder = IndexBuilder::new(&vec![StreamInfo::Audio(audio_stream(2))]);
    assert_eq!(builder.decoded_samples(2), 0);
    builder.push(audio_packet(2, 0.0, 10));
    builder.push(audio_packet(2, 0.5, 5));
    assert_eq!(builder.decoded_samples(2), 15);
    let index = builder.finish();
    assert_eq!(index.entries.len(), 2);
    assert_eq!(index.entries[1].as_audio().unwrap().start_sample, 10);
}

#[test]
fn tracks_are_chosen_by_place() {
    let mut handle = FfmpegAui2InputHandle::open(index());
    handle.video_decoder = Some(3);
    handle.audio_decoder = Some(2);
    assert_eq!(handle.get_track_count(), (2, 1));
    let info = handle.get_input_info(0, 0);
    let video = info.video.unwrap();
    assert_eq!((video.width, video.height, video.frames), (320, 999, 3));
    assert_eq!(video.duration, at(1.0));
    assert_eq!(video.output_format, VideoOutputFormat::Yuy2);
    let audio = info.audio.unwrap();
    assert_eq!((audio.sample_rate, audio.channels, audio.samples), (48000, 2, 2048));
    let times: Vec<Timestamp> = handle.video_index.iter().map(|e| e.timestamp).collect();
    assert_eq!(times, vec![at(0.0), at(0.5), at(1.0), at(1.5)]);
    assert_eq!(handle.audio_index.len(), 2);
    assert_eq!(handle.video_decoder, None);
    assert_eq!(handle.audio_decoder, Some(2));

    let info = handle.get_input_info(5, 5);
    assert!(info.video.is_none() && info.audio.is_none());
    assert!(handle.current_video_track.is_some() && handle.current_audio_track.is_some());

    if let TrackInfo::Video(track) = &mut handle.index.tracks[0] {
        track.frames = 0;
    }
    if let TrackInfo::Audio(track) = &mut handle.index.tracks[1] {
        track.duration = at(0.0);
    }
    let info = handle.get_input_info(0, 0);
    assert!(info.video.is_none() && info.audio.is_none());
    assert!(handle.current_video_track.is_none() && handle.current_audio_track.is_none());
    assert_eq!(handle.video_index.len(), 4);
}

#[test]
fn times_lead_to_frames() {
    let mut handle = FfmpegAui2InputHandle::open(index());
    assert_eq!(handle.time_to_frame(Some(at(0.0))), Err(ReadError::EmptyVideoIndex));
    handle.get_input_info(0, 0);
    let frame = |seconds: f64| handle.time_to_frame(Timestamp::from_bits(seconds.to_bits())).unwrap();
    assert_eq!(frame(-1.0), 0);
    assert_eq!(frame(0.0), 0);
    assert_eq!(frame(0.1), 1);
    assert_eq!(frame(0.5), 1);
    assert_eq!(frame(1.5), 3);
    assert_eq!(frame(99.0), 3);
    assert_eq!(frame(f64::NAN), 0);
}

#[test]
fn frames_are_read() {
    let mut handle = FfmpegAui2InputHandle::open(index());
    assert_eq!(handle.read_video(0).err(), Some(ReadError::FrameOutOfRange(0)));
    handle.get_input_info(0, 0);
    handle.start_prefetch(vec![at(0.1), at(0.6), at(1.1), at(1.6)], at(0.1));
    assert_eq!(handle.prefetch.config.as_ref().unwrap().video_index.len(), 4);
    assert_eq!(handle.read_video(4).err(), Some(ReadError::FrameOutOfRange(4)));
    match handle.read_video(2) {
        Ok(VideoRead::Decode(entry, format)) => {
            assert_eq!(entry.timestamp, at(1.0));
            assert_eq!(format, VideoOutputFormat::Yuy2);
        }
        _ => panic!("the frame is decoded"),
    }
    assert_eq!(handle.prefetch.position, 2);
    handle.prefetch.store(1, vec![1]);
    handle.prefetch.store(2, vec![2]);
    handle.prefetch.store(3, vec![3]);
    match handle.read_video(2) {
        Ok(VideoRead::Cached(PrefetchedFrame::Bytes(data, _))) => assert_eq!(data, vec![2]),
        _ => panic!("the frame was decoded ahead"),
    }
    assert!(!handle.prefetch.cache.contains(1));
    assert!(handle.prefetch.cache.contains(3));
    handle.current_video_track = None;
    assert_eq!(handle.read_video(2).err(), Some(ReadError::NoVideoTrack));
    handle.start_prefetch(vec![at(0.1); 4], at(0.1));
    assert!(handle.prefetch.config.is_none());
}

#[test]
fn reads_seek_for_far_keyframes() {
    let mut decoder = VideoDecoderState::new(0, false);
    let entry = |seconds: f64, keyframe: f64| VideoEntry {
        stream_index: 0,
        keyframe: false,
        position: 0,
        timestamp: at(seconds),
        duration: 1,
        last_keyframe_timestamp: at(keyframe),
    };
    assert!(read_needs_seek(&decoder, &entry(1.0, 0.0)));
    decoder.clock = Clock { now: at(2.0), before: at(2.0 - 1e-6), after: at(2.0 + 1e-6) };
    assert!(read_needs_seek(&decoder, &entry(1.0, 0.0)));
    assert!(!read_needs_seek(&decoder, &entry(3.0, 1.0)));
    assert!(read_needs_seek(&decoder, &entry(3.0, 2.5)));
}

#[test]
fn versions_are_written_with_points() {
    assert_eq!(format_ffmpeg_version((62 << 16) | (11 << 8) | 100), "62.11.100");
    assert_eq!(format_ffmpeg_version(u32::MAX), "65535.255.255");
    assert_eq!(format_ffmpeg_version(0), "0.0.0");
}

#[test]
fn sources_of_samples_are_checked() {
    let mut handle = FfmpegAui2InputHandle::open(index());
    assert_eq!(handle.audio_source(), Err(ReadError::EmptyAudioIndex));
    handle.get_input_info(0, 0);
    assert_eq!(handle.audio_source().unwrap().stream_index, 2);
    handle.current_audio_track = None;
    assert_eq!(handle.audio_source(), Err(ReadError::NoAudioTrack));
    assert_eq!(sample_range(-5, -1), SampleRange { start: 0, length: 0 });
    assert_eq!(sample_range(5, 7), SampleRange { start: 5, length: 7 });
}

#[test]
fn windows_of_samples() {
    let entry = |seconds: f64| AudioEntry {
        stream_index: 2,
        position: 0,
        timestamp: at(seconds),
        start_sample: 0,
    };
    let entries = vec![entry(0.0), entry(1.0), entry(2.0)];
    let window = || AudioWindow { buffer_start: 10, buffer: (0..20).collect() };
    let mut near = window();
    assert_eq!(near.prepare(&entries, 13, at(1.3), 2, 10), AudioRead::Fill);
    assert_eq!((near.buffer_start, near.buffer.len(), near.buffer[0]), (13, 14, 6));
    let mut same = window();
    assert_eq!(same.prepare(&entries, 10, at(1.0), 2, 10), AudioRead::Fill);
    assert_eq!(same.buffer.len(), 20);
    let mut gap = window();
    assert_eq!(gap.prepare(&entries, 30, at(3.0), 2, 10), AudioRead::Fill);
    assert_eq!((gap.buffer_start, gap.buffer.len()), (30, 0));
    let mut far = window();
    assert_eq!(far.prepare(&entries, 31, at(3.1), 2, 10), AudioRead::Seek(at(2.0)));
    assert_eq!(far.buffer_start, 10);
    assert_eq!(window().prepare(&entries, 9, at(0.9), 2, 10), AudioRead::Seek(at(0.0)));
    assert_eq!(window().prepare(&entries, 0, at(-1.0), 2, 10), AudioRead::Seek(at(0.0)));
    assert_eq!(
        window().read(SampleRange { start: 18, length: 3 }, 2),
        vec![16, 17, 18, 19, 0, 0]
    );
    assert_eq!(window().read(SampleRange { start: 20, length: 1 }, 2), vec![0, 0]);
}

#[test]
fn sorting_is_stable() {
    let entry = |seconds: f64, position: u64| VideoEntry {
        stream_index: 0,
        keyframe: false,
        position,
        timestamp: at(seconds),
        duration: 1,
        last_keyframe_timestamp: at(0.0),
    };
    let entries = vec![entry(2.0, 0), entry(1.0, 1), entry(2.0, 2), entry(-1.0, 3), entry(1.0, 4)];
    let positions: Vec<u64> = sort(entries).iter().map(|e| e.position).collect();
    assert_eq!(positions, vec![3, 1, 4, 0, 2]);
}

#[test]
fn packets_alone_make_an_index() {
    let streams = vec![
        StreamInfo::Video(video_stream(0, 640, 480)),
        StreamInfo::Audio(AudioStream { frames: 5, duration: at(2.0), ..audio_stream(1) }),
        StreamInfo::Ignored,
        StreamInfo::Video(video_stream(3, 320, 999)),
    ];
    let video = |stream_index, keyframe, seconds: f64| Packet::Video {
        stream_index,
        keyframe,
        position: 1,
        timestamp: at(seconds),
        duration: 2,
    };
    let packets = vec![
        video(0, true, 1.0),
        Packet::Audio { stream_index: 1, position: 3, timestamp: at(0.5) },
        Packet::Ignored,
        video(0, false, 0.5),
        video(3, true, 4.0),
    ];
    let index = create_packet_index(&streams, &packets);
    assert_eq!(
        index.tracks[0],
        PacketTrack::Video { stream_index: 0, width: 640, height: 999, frames: 3, duration: at(1.0) }
    );
    assert_eq!(index.tracks.len(), 3);
    assert_eq!(index.entries.len(), 4);
    match index.entries[2] {
        PacketEntry::Video(entry) => assert_eq!(entry.last_keyframe_timestamp, at(1.0)),
        PacketEntry::Audio(_) => panic!("the entry is one of video"),
    }
    let mut input = PacketInput::open(index);
    assert_eq!(input.get_track_count(), (2, 1));
    let info = input.get_input_info(0, 1);
    assert_eq!(info.video.unwrap().output_format, VideoOutputFormat::Hf64);
    assert_eq!(info.audio.unwrap().samples, 5);
    let times: Vec<Timestamp> = input.video_index.iter().map(|e| e.timestamp).collect();
    assert_eq!(times, vec![at(1.0), at(0.5)]);
    assert_eq!(
        input.audio_index,
        vec![AudioPacketEntry { stream_index: 1, position: 3, timestamp: at(0.5) }]
    );
    let info = input.get_input_info(1, 0);
    assert!(info.video.is_none() && info.audio.is_none());
    assert_eq!(input.video_index.len(), 2);
}

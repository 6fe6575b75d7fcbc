use ffmpeg_aui2::audio::{
    frame_route, AudioDecoderState, AudioFrame, FillAction, FillEvent, FrameRoute, SampleFormat,
};
use ffmpeg_aui2::audio_prefetch::{
    audio_buffer_range, needs_audio_decoder, prepare_range, read_audio_range, AudioPrefetchRequest,
    AudioRangeError, RangePlan,
};
use ffmpeg_aui2::index::AudioEntry;
use ffmpeg_aui2::timestamp::Timestamp;

fn at(seconds: f64) -> Timestamp {
    Timestamp::from_bits(seconds.to_bits()).unwrap()
}

fn samples(state: &AudioDecoderState) -> Vec<u32> {
    state.buffer.samples.iter().copied().collect()
}

fn state(start: Option<usize>, values: &[u32]) -> AudioDecoderState {
    let mut state = AudioDecoderState::new(1, 2);
    state.buffer.start_sample = start;
    state.buffer.samples = values.iter().copied().collect();
    state
}

fn entry(stream_index: usize, start_sample: u64, seconds: f64) -> AudioEntry {
    AudioEntry { stream_index, position: 0, timestamp: at(seconds), start_sample }
}

fn request(start: usize, length: usize) -> AudioPrefetchRequest {
    AudioPrefetchRequest {
        audio_index: vec![
            entry(1, 0, 0.5),
            entry(1, 10, 1.0),
            entry(2, 11, 1.1),
            entry(1, 20, 2.0),
        ],
        stream_index: 1,
        sample_rate: 10,
        channels: 2,
        start,
        length,
    }
}

#[test]
fn frames_take_their_routes() {
    assert_eq!(frame_route(SampleFormat::F32Planar, 2, 2), FrameRoute::Interleave);
    assert_eq!(frame_route(SampleFormat::F32Packed, 2, 2), FrameRoute::Copy);
    assert_eq!(frame_route(SampleFormat::Other, 2, 2), FrameRoute::Resample);
    assert_eq!(frame_route(SampleFormat::F32Planar, 1, 2), FrameRoute::Resample);
    assert_eq!(frame_route(SampleFormat::F32Packed, 6, 2), FrameRoute::Resample);
}

#[test]
fn frames_are_put_behind_the_buffer() {
    let mut state = AudioDecoderState::new(1, 2);
    assert_eq!(state.fill_until(4, FillEvent::Begin), FillAction::ReceiveFrame);
    let planar = AudioFrame::Planar(vec![vec![1, 2, 3], vec![4, 5, 6, 9]], 3);
    assert_eq!(state.fill_until(4, FillEvent::Frame(planar)), FillAction::ReceiveFrame);
    assert_eq!(state.buffer.start_sample, Some(0));
    assert_eq!(samples(&state), vec![1, 4, 2, 5, 3, 6]);
    let packed = AudioFrame::Packed(vec![7, 8]);
    assert_eq!(state.fill_until(4, FillEvent::Frame(packed)), FillAction::Done);
    let mut bytes = Vec::new();
    bytes.extend_from_slice(&0x0102_0304u32.to_le_bytes());
    bytes.extend_from_slice(&1.0f32.to_le_bytes());
    bytes.extend_from_slice(&[9, 9, 9]);
    let resampled = AudioFrame::Resampled(bytes, 1);
    assert_eq!(state.fill_until(9, FillEvent::Frame(resampled)), FillAction::ReceiveFrame);
    assert_eq!(
        samples(&state),
        vec![1, 4, 2, 5, 3, 6, 7, 8, 0x0102_0304, 1.0f32.to_bits()]
    );
}

#[test]
fn filling_answers_events() {
    let mut state = AudioDecoderState::new(1, 2);
    assert_eq!(state.fill_until(4, FillEvent::DecoderHungry), FillAction::ReadPacket);
    assert_eq!(state.fill_until(4, FillEvent::Packet(0)), FillAction::ReadPacket);
    assert_eq!(state.fill_until(4, FillEvent::Packet(1)), FillAction::SendPacket);
    assert_eq!(state.fill_until(4, FillEvent::PacketSent), FillAction::ReceiveFrame);
    assert_eq!(state.fill_until(4, FillEvent::InputEof), FillAction::SendEof);
    assert_eq!(state.fill_until(4, FillEvent::EofSent), FillAction::ReceiveFrame);
    assert!(state.decoder_eof_sent);
    assert_eq!(state.fill_until(4, FillEvent::InputEof), FillAction::Done);
    assert_eq!(state.fill_until(4, FillEvent::DecoderEof), FillAction::Done);
    assert_eq!(state.fill_until(4, FillEvent::DecoderFailed), FillAction::Fail);
    state.seek();
    assert!(!state.decoder_eof_sent);
}

#[test]
fn an_empty_buffer_keeps_its_place() {
    let mut state = state(Some(5), &[]);
    state.fill_until(9, FillEvent::Frame(AudioFrame::Packed(vec![1, 2])));
    assert_eq!(state.buffer.start_sample, Some(5));
}

#[test]
fn samples_before_a_place_are_dropped() {
    let mut buffer = state(Some(10), &[1, 2, 3, 4, 5, 6]);
    buffer.trim_before(9);
    assert_eq!(samples(&buffer).len(), 6);
    buffer.trim_before(11);
    assert_eq!(buffer.buffer.start_sample, Some(11));
    assert_eq!(samples(&buffer), vec![3, 4, 5, 6]);
    assert_eq!(audio_buffer_range(&buffer), Some((11, 13)));
    buffer.trim_before(100);
    assert_eq!(buffer.buffer.start_sample, Some(13));
    assert_eq!(samples(&buffer), Vec::<u32>::new());
    let mut nowhere = state(None, &[1, 2]);
    nowhere.trim_before(1);
    assert_eq!(samples(&nowhere), vec![1, 2]);
    assert_eq!(audio_buffer_range(&nowhere), None);
}

#[test]
fn ranges_are_planned() {
    let empty = AudioPrefetchRequest { audio_index: Vec::new(), ..request(0, 1) };
    assert_eq!(
        prepare_range(&mut state(None, &[]), &empty),
        Err(AudioRangeError::EmptyIndex)
    );
    let mut covered = state(Some(10), &[0; 8]);
    assert_eq!(prepare_range(&mut covered, &request(11, 3)), Ok(RangePlan::Covered));
    assert_eq!(prepare_range(&mut covered, &request(11, 4)), Ok(RangePlan::Fill));
    assert_eq!(samples(&covered).len(), 8);
    covered.decoder_eof_sent = true;
    assert_eq!(prepare_range(&mut covered, &request(11, 4)), Ok(RangePlan::Seek(at(1.0))));
    assert_eq!(covered.buffer.start_sample, Some(10));
    assert_eq!(samples(&covered), Vec::<u32>::new());
    assert!(!covered.decoder_eof_sent);

    let mut ahead = state(Some(30), &[0; 8]);
    assert_eq!(prepare_range(&mut ahead, &request(25, 1)), Ok(RangePlan::Seek(at(2.0))));
    assert_eq!(ahead.buffer.start_sample, Some(20));
    let mut fresh = AudioDecoderState::new(1, 2);
    assert_eq!(prepare_range(&mut fresh, &request(3, 1)), Ok(RangePlan::Seek(at(0.5))));
    assert_eq!(fresh.buffer.start_sample, Some(0));
    let other = AudioPrefetchRequest { stream_index: 9, ..request(3, 1) };
    let mut fresh = AudioDecoderState::new(9, 2);
    assert_eq!(prepare_range(&mut fresh, &other), Ok(RangePlan::Seek(at(0.0))));
    assert_eq!(fresh.buffer.start_sample, Some(0));
}

#[test]
fn ranges_are_read_with_silence_around_them() {
    let mut buffer = state(Some(10), &[1, 2, 3, 4, 5, 6, 7]);
    assert_eq!(read_audio_range(&mut buffer, &request(8, 6)), vec![0, 0, 0, 0, 1, 2, 3, 4, 5, 6, 0, 0]);
    assert_eq!(buffer.buffer.start_sample, Some(10));
    assert_eq!(read_audio_range(&mut buffer, &request(11, 2)), vec![3, 4, 5, 6]);
    assert_eq!(buffer.buffer.start_sample, Some(11));
    assert_eq!(read_audio_range(&mut buffer, &request(20, 1)), vec![0, 0]);
    assert_eq!(read_audio_range(&mut buffer, &request(20, 0)), Vec::<u32>::new());
    assert_eq!(read_audio_range(&mut state(None, &[1, 2]), &request(0, 1)), vec![0, 0]);
}

#[test]
fn ranges_that_meet_give_the_whole() {
    let values: Vec<u32> = (1..=40).collect();
    for split in 0..=8 {
        let mut parts = state(Some(3), &values);
        let mut whole = state(Some(3), &values);
        let mut found = read_audio_range(&mut parts, &request(1, split));
        found.extend(read_audio_range(&mut parts, &request(1 + split, 30 - split)));
        assert_eq!(found, read_audio_range(&mut whole, &request(1, 30)));
    }
}

#[test]
fn decoders_are_made_for_their_stream() {
    assert!(needs_audio_decoder(None, 1));
    assert!(!needs_audio_decoder(Some(&state(None, &[])), 1));
    assert!(needs_audio_decoder(Some(&state(None, &[])), 2));
}

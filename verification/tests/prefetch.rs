use ffmpeg_aui2::config::Config;
use ffmpeg_aui2::frame_cache::{
    CachedVideoFrame, FrameCache, PrefetchBudget, PrefetchReservation, PrefetchedFrame,
};
use ffmpeg_aui2::index::{VideoEntry, VideoOutputFormat};
use ffmpeg_aui2::prefetch::{
    keeps_running, PassAction, PrefetchConfig as TimedConfig, PrefetchHandle as TimedHandle,
    PrefetchPass, Signal,
};
use ffmpeg_aui2::timestamp::Timestamp;
use ffmpeg_aui2::video::{Clock, VideoDecoderState};
use ffmpeg_aui2::video_prefetch::{
    after_round, keeps_picture, needs_decoder, needs_seek_back, takes_over, AfterRound, Decoded,
    PrefetchConfig, PrefetchHandle, PrefetchRound, RoundAction, WaitAction, WaitEvent,
};

fn at(seconds: f64) -> Timestamp {
    Timestamp::from_bits(seconds.to_bits()).unwrap()
}

fn entry(seconds: f64) -> VideoEntry {
    VideoEntry {
        stream_index: 0,
        keyframe: false,
        position: 0,
        timestamp: at(seconds),
        duration: 1,
        last_keyframe_timestamp: at(0.0),
    }
}

fn config(frames: usize) -> PrefetchConfig {
    PrefetchConfig {
        video_index: (0..frames).map(|i| entry(i as f64 * 0.04)).collect(),
        output_format: VideoOutputFormat::Bgra,
        width: 512,
        height: 512,
    }
}

fn bytes(frame: Option<PrefetchedFrame>) -> Option<Vec<u8>> {
    frame.map(|frame| match frame {
        PrefetchedFrame::Bytes(data, _) => data,
        PrefetchedFrame::Yuy2(picture, _) => panic!("unexpected picture {picture:?}"),
    })
}

#[test]
fn budgets_are_kept() {
    let mut budget = PrefetchBudget::new();
    let first = PrefetchReservation::try_new(&mut budget, 60, 100).unwrap();
    assert_eq!(budget.used(), 60);
    assert!(PrefetchReservation::try_new(&mut budget, 41, 100).is_none());
    assert!(PrefetchReservation::try_new(&mut budget, usize::MAX, usize::MAX).is_none());
    assert_eq!(budget.used(), 60);
    let second = PrefetchReservation::try_new(&mut budget, 40, 100).unwrap();
    assert_eq!(second.bytes(), 40);
    first.release(&mut budget);
    assert_eq!(budget.used(), 40);
    second.release(&mut budget);
    assert_eq!(budget.used(), 0);
}

#[test]
fn caches_know_what_they_hold() {
    let mut budget = PrefetchBudget::new();
    let mut cache = FrameCache::new();
    for frame in 0..5 {
        let share = PrefetchReservation::try_new(&mut budget, 10, 1000).unwrap();
        cache.insert(frame, PrefetchedFrame::Bytes(vec![frame as u8], Some(share)), &mut budget);
    }
    assert_eq!((cache.reserved(), budget.used()), (50, 50));
    let share = PrefetchReservation::try_new(&mut budget, 7, 1000).unwrap();
    let picture = CachedVideoFrame { id: 9 };
    cache.insert(2, PrefetchedFrame::Yuy2(picture, Some(share)), &mut budget);
    assert_eq!((cache.reserved(), budget.used()), (47, 47));
    assert!(cache.contains(2));
    let taken = cache.remove(2).unwrap();
    assert_eq!(taken.held_bytes(), 7);
    assert!(!cache.contains(2));
    assert_eq!((cache.reserved(), budget.used()), (40, 47));
    taken.release(&mut budget);
    assert_eq!(budget.used(), 40);
    assert!(cache.remove(2).is_none());
    cache.clear(&mut budget);
    assert_eq!((cache.reserved(), budget.used()), (0, 0));
    assert!(!cache.contains(0));
}

#[test]
fn frames_up_to_a_number_are_dropped() {
    let mut budget = PrefetchBudget::new();
    let mut cache = FrameCache::new();
    for frame in 0..6 {
        cache.insert(frame, PrefetchedFrame::Bytes(vec![frame as u8], None), &mut budget);
    }
    cache.retain_behind(3);
    let left: Vec<usize> = (0..6).filter(|frame| cache.contains(*frame)).collect();
    assert_eq!(left, vec![4, 5]);
    assert_eq!(bytes(cache.remove(5)), Some(vec![5]));
}

#[test]
fn frames_have_a_size() {
    assert_eq!(config(1).frame_bytes(), Some(1 << 20));
    let yuy2 = PrefetchConfig { output_format: VideoOutputFormat::Yuy2, ..config(1) };
    assert_eq!(yuy2.frame_bytes(), Some(1 << 19));
    let hf64 = PrefetchConfig { output_format: VideoOutputFormat::Hf64, ..config(1) };
    assert_eq!(hf64.frame_bytes(), Some(1 << 21));
    assert_eq!(PrefetchConfig { width: 0, ..config(1) }.frame_bytes(), None);
    let huge = PrefetchConfig {
        width: u32::MAX,
        height: u32::MAX,
        output_format: VideoOutputFormat::Hf64,
        ..config(1)
    };
    assert_eq!(huge.frame_bytes(), None);
}

#[test]
fn windows_fit_their_memory() {
    let window = |mb: u32, frames: u32, bytes: usize| {
        let config = Config { prefetch_buffer_mb: mb, prefetch_frames: frames, ..Config::default() };
        PrefetchRound::new(&config, bytes, None).window
    };
    assert_eq!(window(32, 10, 1 << 20), 10);
    assert_eq!(window(32, 0, 1 << 20), 32);
    assert_eq!(window(32, 40, 1 << 20), 32);
    assert_eq!(window(1, 10, (1 << 20) + 1), 0);
    let round = PrefetchRound::new(&Config::default(), 1 << 20, Some(4));
    assert_eq!((round.frame, round.end_frame), (5, 15));
    assert_eq!(round.total_limit, 512 << 20);
    let round = PrefetchRound::new(&Config::default(), 1 << 20, Some(usize::MAX));
    assert_eq!((round.frame, round.end_frame), (usize::MAX, usize::MAX));
}

fn run(
    round: &mut PrefetchRound,
    config: &PrefetchConfig,
    handle: &mut PrefetchHandle,
    budget: &mut PrefetchBudget,
    position: Option<usize>,
) -> Vec<usize> {
    let mut decoded = Vec::new();
    loop {
        match round.advance(config, &handle.cache, false, position, budget) {
            RoundAction::Skip => {}
            RoundAction::Decode(job) => {
                decoded.push(job.frame);
                assert_eq!(job.entry, config.video_index[job.frame]);
                let data = Decoded::Bytes(vec![job.frame as u8]);
                assert!(handle.job_done(round, job.frame, job.reservation, Some(data), budget));
            }
            RoundAction::Finish => return decoded,
            RoundAction::Restart => panic!("nothing has changed"),
        }
    }
}

#[test]
fn rounds_decode_the_frames_ahead() {
    let settings = Config { prefetch_frames: 3, ..Config::default() };
    let config = config(20);
    let mut handle = PrefetchHandle::new();
    let mut budget = PrefetchBudget::new();
    let mut round = PrefetchRound::new(&settings, 1 << 20, None);
    assert_eq!(run(&mut round, &config, &mut handle, &mut budget, None), vec![0, 1, 2]);
    assert_eq!(after_round(round.did_work), AfterRound::Again);
    assert_eq!(handle.generation, 3);
    assert_eq!(budget.used(), 3 << 20);

    let mut round = PrefetchRound::new(&settings, 1 << 20, Some(0));
    assert_eq!(run(&mut round, &config, &mut handle, &mut budget, Some(0)), vec![3]);
    let mut round = PrefetchRound::new(&settings, 1 << 20, Some(0));
    assert_eq!(run(&mut round, &config, &mut handle, &mut budget, Some(0)), Vec::<usize>::new());
    assert_eq!(after_round(round.did_work), AfterRound::Wait);

    let mut round = PrefetchRound::new(&settings, 1 << 20, Some(18));
    assert_eq!(run(&mut round, &config, &mut handle, &mut budget, Some(18)), vec![19]);
    handle.clear_cache(&mut budget);
    assert_eq!(budget.used(), 0);
}

#[test]
fn rounds_follow_the_reader() {
    let settings = Config { prefetch_frames: 4, ..Config::default() };
    let config = config(40);
    let mut handle = PrefetchHandle::new();
    let mut budget = PrefetchBudget::new();
    let mut round = PrefetchRound::new(&settings, 1 << 20, Some(9));
    assert_eq!(run(&mut round, &config, &mut handle, &mut budget, Some(11)), vec![12, 13, 14, 15]);
    let mut round = PrefetchRound::new(&settings, 1 << 20, Some(20));
    assert_eq!(run(&mut round, &config, &mut handle, &mut budget, Some(30)), Vec::<usize>::new());
    let mut round = PrefetchRound::new(&settings, 1 << 20, Some(20));
    assert!(matches!(
        round.advance(&config, &handle.cache, true, Some(20), &mut budget),
        RoundAction::Restart
    ));
}

#[test]
fn rounds_end_where_memory_does() {
    let settings = Config { prefetch_total_buffer_mb: 2, ..Config::default() };
    let config = config(40);
    let mut handle = PrefetchHandle::new();
    let mut budget = PrefetchBudget::new();
    let mut round = PrefetchRound::new(&settings, 1 << 20, None);
    assert_eq!(run(&mut round, &config, &mut handle, &mut budget, None), vec![0, 1]);
    let mut round = PrefetchRound::new(&Config::default(), 1 << 20, Some(9));
    match round.advance(&config, &handle.cache, false, Some(9), &mut budget) {
        RoundAction::Decode(job) => {
            assert_eq!(budget.used(), 3 << 20);
            assert!(!handle.job_done(&mut round, job.frame, job.reservation, None, &mut budget));
            assert_eq!(budget.used(), 2 << 20);
            assert!(!round.did_work);
        }
        _ => panic!("a frame is decoded"),
    }
}

#[test]
fn readers_get_frames_or_wait() {
    let mut budget = PrefetchBudget::new();
    let mut handle = PrefetchHandle::new();
    let mut round = PrefetchRound::new(&Config::default(), 8, None);
    let share = PrefetchReservation::try_new(&mut budget, 8, 100).unwrap();
    handle.job_done(&mut round, 4, share, Some(Decoded::Bytes(vec![1, 2])), &mut budget);
    assert!(matches!(
        handle.take_frame_or_wait(3, WaitEvent::Look(false)),
        WaitAction::Wait(1)
    ));
    assert!(matches!(handle.take_frame_or_wait(3, WaitEvent::Look(true)), WaitAction::GiveUp));
    assert!(matches!(handle.take_frame_or_wait(3, WaitEvent::TimedOut), WaitAction::GiveUp));
    match handle.take_frame_or_wait(4, WaitEvent::TimedOut) {
        WaitAction::Deliver(frame) => {
            assert_eq!(frame.held_bytes(), 8);
            assert_eq!(bytes(Some(frame)), Some(vec![1, 2]));
        }
        _ => panic!("the frame is there"),
    }
    assert!(handle.take_frame(4).is_none());
    handle.remember_frame(6, CachedVideoFrame { id: 77 });
    for _ in 0..2 {
        match handle.take_frame(6) {
            Some(PrefetchedFrame::Yuy2(picture, share)) => {
                assert_eq!(picture.id, 77);
                assert_eq!(share, None);
            }
            other => panic!("unexpected {other:?}"),
        }
    }
    assert!(handle.take_frame(5).is_none());
}

#[test]
fn buffers_are_used_again() {
    let mut handle = PrefetchHandle::new();
    assert_eq!(handle.take_buffer(), Vec::<u8>::new());
    handle.recycle_buffer(Vec::with_capacity(10));
    let kept = handle.reusable_buffer.as_ref().unwrap().capacity();
    assert!(kept >= 10);
    handle.recycle_buffer(Vec::with_capacity(1));
    assert_eq!(handle.reusable_buffer.as_ref().unwrap().capacity(), kept);
    handle.recycle_buffer(Vec::with_capacity(1000));
    assert!(handle.take_buffer().capacity() >= 1000);
    assert!(handle.reusable_buffer.is_none());
    assert!(takes_over(None, 0));
    assert!(takes_over(Some(1), 2));
    assert!(!takes_over(Some(2), 2));
}

#[test]
fn the_buffer_with_more_memory_is_kept() {
    let mut handle = PrefetchHandle::new();
    handle.recycle_by(vec![1], 9, 1);
    assert_eq!(handle.reusable_buffer, Some(vec![1]));
    handle.recycle_by(vec![2], 1, 1);
    assert_eq!(handle.reusable_buffer, Some(vec![1]));
    handle.recycle_by(vec![3], 1, 2);
    assert_eq!(handle.reusable_buffer, Some(vec![3]));
}

#[test]
fn decoders_of_a_round() {
    let mut decoder = VideoDecoderState::new(0, false);
    assert!(needs_decoder(None, &entry(1.0)));
    assert!(!needs_decoder(Some(&decoder), &entry(1.0)));
    assert!(needs_decoder(Some(&VideoDecoderState::new(3, false)), &entry(1.0)));
    assert!(!needs_seek_back(&decoder, &entry(1.0)));
    decoder.clock = Clock { now: at(2.0), before: at(2.0 - 1e-6), after: at(2.0 + 1e-6) };
    assert!(needs_seek_back(&decoder, &entry(1.0)));
    assert!(!needs_seek_back(&decoder, &entry(2.0 - 1e-7)));
    assert!(keeps_picture(VideoOutputFormat::Yuy2));
    assert!(!keeps_picture(VideoOutputFormat::Bgra));
}

fn timed(frames: usize) -> TimedConfig {
    let video_index: Vec<VideoEntry> = (0..frames).map(|i| entry(i as f64 * 0.04)).collect();
    TimedConfig {
        window_ends: (0..frames).map(|i| at(i as f64 * 0.04 + 0.1)).collect(),
        video_index,
        first_window_end: at(0.1),
        output_format: VideoOutputFormat::Yuy2,
    }
}

fn pass_frames(pass: &mut PrefetchPass, config: &TimedConfig, handle: &mut TimedHandle, position: usize) -> Vec<usize> {
    let mut decoded = Vec::new();
    loop {
        match pass.advance(config, &handle.cache, position) {
            PassAction::Skip => {}
            PassAction::Decode(frame, _) => {
                decoded.push(frame);
                handle.store(frame, vec![frame as u8]);
            }
            PassAction::Finish => return decoded,
        }
    }
}

#[test]
fn passes_decode_a_tenth_of_a_second() {
    let config = timed(20);
    let mut handle = TimedHandle::new();
    let mut pass = PrefetchPass::new(&config, 3);
    assert_eq!(pass_frames(&mut pass, &config, &mut handle, 3), vec![4, 5]);
    let mut pass = PrefetchPass::new(&config, 3);
    assert_eq!(pass_frames(&mut pass, &config, &mut handle, 4), vec![6]);
    let mut pass = PrefetchPass::new(&config, 3);
    assert_eq!(pass_frames(&mut pass, &config, &mut handle, 9), Vec::<usize>::new());
    let mut pass = PrefetchPass::new(&config, 3);
    assert_eq!(pass_frames(&mut pass, &config, &mut handle, 99), Vec::<usize>::new());
    let mut pass = PrefetchPass::new(&config, 50);
    assert_eq!(pass.end, at(0.1));
    assert_eq!(pass_frames(&mut pass, &config, &mut handle, 50), Vec::<usize>::new());
    assert!(keeps_running(Signal::Message));
    assert!(keeps_running(Signal::Empty));
    assert!(!keeps_running(Signal::Disconnected));
}

#[test]
fn reading_drops_the_frames_before() {
    let mut handle = TimedHandle::new();
    for frame in 3..7 {
        handle.store(frame, vec![frame as u8]);
    }
    assert!(handle.read(9).is_none());
    assert_eq!(handle.position, 9);
    assert!(handle.cache.contains(3));
    assert_eq!(bytes(handle.read(5)), Some(vec![5]));
    assert_eq!(handle.position, 5);
    let left: Vec<usize> = (0..9).filter(|frame| handle.cache.contains(*frame)).collect();
    assert_eq!(left, vec![6]);
    handle.set_config(Some(timed(2)));
    assert!(!handle.cache.contains(6));
    assert_eq!(handle.config.as_ref().unwrap().video_index.len(), 2);
}

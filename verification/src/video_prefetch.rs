//! Decoding video ahead of where it is read: which frames, how many, and what
//! becomes of them.
use vstd::prelude::*;

use crate::config::Config;
use crate::frame_cache::{
    held_by, no_frames, CachedVideoFrame, FrameCache, PrefetchBudget, PrefetchReservation,
    PrefetchedFrame,
};
use crate::index::{VideoEntry, VideoOutputFormat};
use crate::video::VideoDecoderState;

verus! {

/// The bytes of a megabyte.
pub const MEGABYTE: usize = 1_048_576;

/// The video that is decoded ahead.
pub struct PrefetchConfig {
    /// The frames in the order in which they are shown.
    pub video_index: Vec<VideoEntry>,
    pub output_format: VideoOutputFormat,
    pub width: u32,
    pub height: u32,
}

impl PrefetchConfig {
    /// The bytes of a frame.
    pub open spec fn frame_size(self) -> int {
        self.width * self.height * self.output_format.pixel_size()
    }

    /// The bytes of a frame, where it has any and they can be counted.
    pub fn frame_bytes(&self) -> (res: Option<usize>)
        ensures
            res is Some <==> 0 < self.frame_size() <= usize::MAX,
            res matches Some(bytes) ==> bytes == self.frame_size(),
    {
        let size: usize = self.output_format.bytes_per_pixel();
        proof {
            assert(self.width * self.height <= 0xffff_ffff * 0xffff_ffff) by (nonlinear_arith)
                requires
                    0 <= self.width <= 0xffff_ffff,
                    0 <= self.height <= 0xffff_ffff,
            ;
            assert(0 <= self.width * self.height) by (nonlinear_arith)
                requires
                    0 <= self.width,
                    0 <= self.height,
            ;
        }
        let pixels: u64 = (self.width as u64) * (self.height as u64);
        proof {
            assert(pixels * size <= pixels * 8 && pixels <= pixels * size) by (nonlinear_arith)
                requires
                    pixels >= 0,
                    1 <= size <= 8,
            ;
        }
        let bytes: u128 = (pixels as u128) * (size as u128);
        if bytes == 0 || bytes > usize::MAX as u128 {
            proof {
                if pixels > 0 {
                    assert(pixels * size > 0) by (nonlinear_arith)
                        requires
                            pixels > 0,
                            size > 0,
                    ;
                }
            }
            None
        } else {
            Some(bytes as usize)
        }
    }
}

/// The number of frames that are decoded ahead: as many as the memory for one
/// video holds, and no more than a limit that is not zero.
pub open spec fn window_of(config: Config, frame_bytes: int) -> int {
    let fitting = config.prefetch_buffer_mb * MEGABYTE / frame_bytes;
    if config.prefetch_frames > 0 && config.prefetch_frames < fitting {
        config.prefetch_frames as int
    } else {
        fitting
    }
}

/// The frames that are decoded ahead fit into the memory for one video.
pub proof fn window_fits_its_memory(config: Config, frame_bytes: int)
    requires
        frame_bytes > 0,
    ensures
        0 <= window_of(config, frame_bytes),
        window_of(config, frame_bytes) * frame_bytes <= config.prefetch_buffer_mb * MEGABYTE,
        config.prefetch_frames > 0 ==> window_of(config, frame_bytes) <= config.prefetch_frames,
{
    let memory = config.prefetch_buffer_mb * MEGABYTE;
    let fitting = memory / frame_bytes;
    let window = window_of(config, frame_bytes);
    assert(0 <= fitting && fitting * frame_bytes <= memory) by (nonlinear_arith)
        requires
            fitting == memory / frame_bytes,
            frame_bytes > 0,
            memory >= 0,
    ;
    assert(window * frame_bytes <= fitting * frame_bytes) by (nonlinear_arith)
        requires
            window <= fitting,
            frame_bytes > 0,
    ;
}

/// The frame behind the one that was read, or the first.
pub open spec fn frame_behind(position: Option<usize>) -> int {
    match position {
        Some(frame) => saturated(frame + 1),
        None => 0,
    }
}

/// A number of frames, at most the largest that can be counted.
pub open spec fn saturated(n: int) -> int {
    if n > usize::MAX {
        usize::MAX as int
    } else {
        n
    }
}

fn next_frame(position: Option<usize>) -> (res: usize)
    ensures
        res == frame_behind(position),
{
    match position {
        Some(frame) => frame.saturating_add(1),
        None => 0,
    }
}

/// What is done next in a round.
pub enum RoundAction {
    /// The video has changed: begin anew.
    Restart,
    /// The frame in turn needs nothing: go on.
    Skip,
    /// Decode a frame, for which memory was reserved.
    Decode(DecodeJob),
    /// The round is over.
    Finish,
}

/// A frame to be decoded ahead.
pub struct DecodeJob {
    pub frame: usize,
    pub entry: VideoEntry,
    pub reservation: PrefetchReservation,
}

/// One pass over the frames behind the one that was read.
pub struct PrefetchRound {
    /// The bytes of a frame.
    pub frame_bytes: usize,
    /// The number of frames that are decoded ahead.
    pub window: usize,
    /// The memory for all videos.
    pub total_limit: usize,
    /// The frame that was read last.
    pub current: Option<usize>,
    /// The frame in turn.
    pub frame: usize,
    /// The frame before which the pass ends.
    pub end_frame: usize,
    /// Whether a frame was decoded.
    pub did_work: bool,
}

/// What a position that may be new does to a round: `None` where it lies
/// beyond the end of the pass.
pub open spec fn moved(round: PrefetchRound, position: Option<usize>) -> Option<PrefetchRound> {
    if position == round.current {
        Some(round)
    } else if frame_behind(position) > round.end_frame {
        None
    } else {
        Some(
            PrefetchRound {
                current: position,
                end_frame: saturated(frame_behind(position) + round.window) as usize,
                ..round
            },
        )
    }
}

/// Whether a frame was read already.
pub open spec fn was_read(current: Option<usize>, frame: usize) -> bool {
    current matches Some(c) && frame <= c
}

/// What a step of a round comes to.
pub enum Step {
    Restart,
    Finish,
    Skip(PrefetchRound),
    Decode(PrefetchRound),
}

/// What a step of a round comes to, where `room` says whether the budget has
/// room for a frame.
pub open spec fn step_of(
    round: PrefetchRound,
    video_index: Seq<VideoEntry>,
    cached: Set<usize>,
    config_changed: bool,
    position: Option<usize>,
    room: bool,
) -> Step {
    if round.frame >= video_index.len() {
        Step::Finish
    } else if config_changed {
        Step::Restart
    } else {
        match moved(round, position) {
            None => Step::Finish,
            Some(r) => {
                let next = PrefetchRound { frame: (r.frame + 1) as usize, ..r };
                if r.frame >= r.end_frame {
                    Step::Finish
                } else if was_read(r.current, r.frame) || cached.contains(r.frame) {
                    Step::Skip(next)
                } else if room {
                    Step::Decode(next)
                } else {
                    Step::Finish
                }
            },
        }
    }
}

impl PrefetchRound {
    /// The pass ends as many frames behind the one that was read as are
    /// decoded ahead.
    pub open spec fn wf(self) -> bool {
        self.end_frame == saturated(frame_behind(self.current) + self.window)
    }

    /// Begins a round behind the frame that was read last.
    pub fn new(config: &Config, frame_bytes: usize, position: Option<usize>) -> (res: PrefetchRound)
        requires
            frame_bytes > 0,
            config.prefetch_buffer_mb * MEGABYTE <= usize::MAX,
            config.prefetch_total_buffer_mb * MEGABYTE <= usize::MAX,
        ensures
            res.wf(),
            res.frame_bytes == frame_bytes,
            res.window == window_of(*config, frame_bytes as int),
            res.total_limit == config.prefetch_total_buffer_mb * MEGABYTE,
            res.current == position,
            res.frame == frame_behind(position),
            !res.did_work,
    {
        let per_video_limit: usize = (config.prefetch_buffer_mb as usize) * MEGABYTE;
        let total_limit: usize = (config.prefetch_total_buffer_mb as usize) * MEGABYTE;
        let frame_count_limit: usize = config.prefetch_frames as usize;
        let fitting: usize = per_video_limit / frame_bytes;
        let window: usize = if frame_count_limit > 0 && frame_count_limit < fitting {
            frame_count_limit
        } else {
            fitting
        };
        let frame: usize = next_frame(position);
        let end_frame: usize = frame.saturating_add(window);
        PrefetchRound {
            frame_bytes,
            window,
            total_limit,
            current: position,
            frame,
            end_frame,
            did_work: false,
        }
    }

    /// Takes the frame in turn. `config_changed` says whether the video has
    /// changed since the round began, `position` which frame was read last.
    pub fn advance(
        &mut self,
        config: &PrefetchConfig,
        cache: &FrameCache,
        config_changed: bool,
        position: Option<usize>,
        budget: &mut PrefetchBudget,
    ) -> (res: RoundAction)
        requires
            old(self).wf(),
        ensures
            final(self).wf(),
            ({
                let room = old(budget).in_use() + old(self).frame_bytes <= old(self).total_limit;
                let step = step_of(
                    *old(self),
                    config.video_index@,
                    cache@.dom(),
                    config_changed,
                    position,
                    room,
                );
                match res {
                    RoundAction::Restart => step is Restart && *final(budget) == *old(budget),
                    RoundAction::Finish => step is Finish && *final(budget) == *old(budget),
                    RoundAction::Skip => step == Step::Skip(*final(self)) && *final(budget) == *old(
                        budget,
                    ),
                    RoundAction::Decode(job) => {
                        &&& step == Step::Decode(*final(self))
                        &&& job.frame == old(self).frame
                        &&& job.entry == config.video_index[job.frame as int]
                        &&& job.reservation.size() == old(self).frame_bytes
                        &&& final(budget).in_use() == old(budget).in_use() + old(self).frame_bytes
                        &&& final(budget).in_use() <= old(self).total_limit
                    },
                }
            }),
            res is Restart || res is Finish ==> final(self).did_work == old(self).did_work,
    {
        if self.frame >= config.video_index.len() {
            return RoundAction::Finish;
        }
        if config_changed {
            return RoundAction::Restart;
        }
        let same: bool = match (self.current, position) {
            (Some(a), Some(b)) => a == b,
            (None, None) => true,
            _ => false,
        };
        if !same {
            let frame: usize = next_frame(position);
            if frame > self.end_frame {
                return RoundAction::Finish;
            }
            self.current = position;
            self.end_frame = frame.saturating_add(self.window);
        }
        let frame: usize = self.frame;
        if frame >= self.end_frame {
            return RoundAction::Finish;
        }
        let read: bool = match self.current {
            Some(current) => frame <= current,
            None => false,
        };
        if read || cache.contains(frame) {
            self.frame = frame + 1;
            return RoundAction::Skip;
        }
        match PrefetchReservation::try_new(budget, self.frame_bytes, self.total_limit) {
            None => RoundAction::Finish,
            Some(reservation) => {
                self.frame = frame + 1;
                RoundAction::Decode(
                    DecodeJob { frame, entry: config.video_index[frame], reservation },
                )
            },
        }
    }
}

/// A frame that is decoded ahead exists, was not read yet, is not there yet and
/// lies within the window behind the frame that was read last.
pub proof fn decoded_frame_is_wanted(
    round: PrefetchRound,
    video_index: Seq<VideoEntry>,
    cached: Set<usize>,
    position: Option<usize>,
    room: bool,
)
    requires
        round.wf(),
        step_of(round, video_index, cached, false, position, room) is Decode,
    ensures
        round.frame < video_index.len(),
        !was_read(position, round.frame),
        !cached.contains(round.frame),
        round.frame < frame_behind(position) + round.window,
        room,
{
}

/// A round comes to each frame once, in their order, and never past the last.
pub proof fn round_goes_forward(
    round: PrefetchRound,
    video_index: Seq<VideoEntry>,
    cached: Set<usize>,
    config_changed: bool,
    position: Option<usize>,
    room: bool,
)
    ensures
        match step_of(round, video_index, cached, config_changed, position, room) {
            Step::Skip(next) => next.frame == round.frame + 1 && next.frame <= video_index.len(),
            Step::Decode(next) => next.frame == round.frame + 1 && next.frame <= video_index.len(),
            _ => true,
        },
        round.frame >= video_index.len() ==> step_of(
            round,
            video_index,
            cached,
            config_changed,
            position,
            room,
        ) is Finish,
{
}

/// Whether the decoder has to be made for a frame: there is none, or one of
/// another stream.
pub fn needs_decoder(decoder: Option<&VideoDecoderState>, entry: &VideoEntry) -> (res: bool)
    ensures
        res == !(decoder matches Some(d) && d.stream_index == entry.stream_index),
{
    match decoder {
        Some(d) => d.stream_index != entry.stream_index,
        None => true,
    }
}

/// Whether a decoder that runs ahead has to seek for a frame: it lies back in time.
pub fn needs_seek_back(decoder: &VideoDecoderState, entry: &VideoEntry) -> (res: bool)
    ensures
        res == (entry.timestamp.key < decoder.clock.before.key),
{
    entry.timestamp.key < decoder.clock.before.key
}

/// What is done once a round is over.
#[derive(Debug, Clone, Copy, PartialEq, Eq, Structural)]
pub enum AfterRound {
    /// Begin the next round.
    Again,
    /// Wait until the video or the position changes, then begin the next.
    Wait,
}

/// What is done once a round is over: one that came to nothing is not repeated
/// before something changes.
pub fn after_round(did_work: bool) -> (res: AfterRound)
    ensures
        res is Again <==> did_work,
{
    if did_work {
        AfterRound::Again
    } else {
        AfterRound::Wait
    }
}

/// What happened while a reader waits for a frame.
#[derive(Debug, Clone, Copy, PartialEq, Eq, Structural)]
pub enum WaitEvent {
    /// The reader looks for the frame; `true` once its time is over.
    Look(bool),
    /// The wait for a new frame has timed out.
    TimedOut,
}

/// What a reader does that waits for a frame.
pub enum WaitAction {
    Deliver(PrefetchedFrame),
    /// Wait until another frame than the given was the last to come.
    Wait(u64),
    GiveUp,
}

/// The frames of one video that were decoded ahead.
pub struct PrefetchHandle {
    pub cache: FrameCache,
    /// A buffer whose memory may be written again.
    pub reusable_buffer: Option<Vec<u8>>,
    /// Grows with every frame that comes.
    pub generation: u64,
    /// The frame that was read last.
    pub last_frame: Option<(usize, CachedVideoFrame)>,
}

/// What a reader gets for a frame: the one that was decoded ahead, else the one
/// that was read last if it is the same.
pub open spec fn frame_of(handle: PrefetchHandle, frame: usize) -> Option<PrefetchedFrame> {
    if handle.cache@.dom().contains(frame) {
        Some(handle.cache@[frame])
    } else {
        match handle.last_frame {
            Some((kept, cached)) => if kept == frame {
                Some(PrefetchedFrame::Yuy2(cached, None))
            } else {
                None
            },
            None => None,
        }
    }
}

/// A frame that a job put in is the one that a reader gets, and only once: then
/// it is gone, unless it is the one that was read last.
pub proof fn decoded_frame_is_delivered(
    before: PrefetchHandle,
    stored: PrefetchHandle,
    read: PrefetchHandle,
    frame: usize,
    data: PrefetchedFrame,
)
    requires
        stored.cache@ == before.cache@.insert(frame, data),
        looked(stored, read, frame),
    ensures
        frame_of(stored, frame) == Some(data),
        forall|other: usize|
            other != frame && stored.last_frame == before.last_frame ==> frame_of(stored, other)
                == #[trigger] frame_of(before, other),
        !read.cache@.dom().contains(frame),
        forall|other: usize| other != frame ==> frame_of(read, other) == #[trigger] frame_of(
            stored,
            other,
        ),
{
}

/// What a handle is after a reader has looked for a frame.
pub open spec fn looked(before: PrefetchHandle, after: PrefetchHandle, frame: usize) -> bool {
    &&& after.wf()
    &&& after.cache@ == before.cache@.remove(frame)
    &&& after == (PrefetchHandle { cache: after.cache, ..before })
    &&& held_by(before.cache@) == held_by(after.cache@) + (if before.cache@.dom().contains(frame) {
        before.cache@[frame].held()
    } else {
        0
    })
}

impl PrefetchHandle {
    /// The cache is in order.
    pub open spec fn wf(self) -> bool {
        self.cache.wf()
    }

    /// A handle without frames.
    pub fn new() -> (res: PrefetchHandle)
        ensures
            res.wf(),
            res.cache@ == no_frames(),
            res.reusable_buffer is None,
            res.generation == 0,
            res.last_frame is None,
    {
        PrefetchHandle {
            cache: FrameCache::new(),
            reusable_buffer: None,
            generation: 0,
            last_frame: None,
        }
    }

    /// Drops all frames and buffers. What the frames held of the budget goes back.
    pub fn clear_cache(&mut self, budget: &mut PrefetchBudget)
        requires
            old(self).wf(),
            held_by(old(self).cache@) <= old(budget).in_use(),
        ensures
            final(self).wf(),
            final(self).cache@ == no_frames(),
            final(self).reusable_buffer is None,
            final(self).last_frame is None,
            final(self).generation == old(self).generation,
            final(budget).in_use() == old(budget).in_use() - held_by(old(self).cache@),
    {
        self.cache.clear(budget);
        self.reusable_buffer = None;
        self.last_frame = None;
    }

    /// Keeps a buffer whose memory may be written again: of two, the one with
    /// more memory, where the memory of the buffer that is kept and of the new
    /// one is given.
    pub fn recycle_by(&mut self, buffer: Vec<u8>, kept: usize, new: usize)
        ensures
            *final(self) == (PrefetchHandle {
                reusable_buffer: if old(self).reusable_buffer is None || kept < new {
                    Some(buffer)
                } else {
                    old(self).reusable_buffer
                },
                ..*old(self)
            }),
    {
        let existing: Option<usize> = match &self.reusable_buffer {
            Some(_) => Some(kept),
            None => None,
        };
        if takes_over(existing, new) {
            self.reusable_buffer = Some(buffer);
        }
    }

    /// Keeps a buffer whose memory may be written again: of two, the one with
    /// more memory. How much memory a buffer has is up to the allocator.
    pub fn recycle_buffer(&mut self, buffer: Vec<u8>)
        ensures
            old(self).reusable_buffer is None ==> final(self).reusable_buffer == Some(buffer),
            final(self).reusable_buffer == Some(buffer) || final(self).reusable_buffer == old(
                self,
            ).reusable_buffer,
            *final(self) == (PrefetchHandle {
                reusable_buffer: final(self).reusable_buffer,
                ..*old(self)
            }),
    {
        let kept: usize = match &self.reusable_buffer {
            Some(existing) => capacity_of(existing),
            None => 0,
        };
        let new: usize = capacity_of(&buffer);
        self.recycle_by(buffer, kept, new);
    }

    /// Hands out the kept buffer, or an empty one.
    pub fn take_buffer(&mut self) -> (res: Vec<u8>)
        ensures
            match old(self).reusable_buffer {
                Some(buffer) => res == buffer,
                None => res@.len() == 0,
            },
            final(self).reusable_buffer is None,
            *final(self) == (PrefetchHandle { reusable_buffer: None, ..*old(self) }),
    {
        match self.reusable_buffer.take() {
            Some(buffer) => buffer,
            None => Vec::new(),
        }
    }

    /// Takes a frame out, with what it holds of the budget. The frame that was
    /// read last stays for the next reader.
    pub fn take_frame(&mut self, frame: usize) -> (res: Option<PrefetchedFrame>)
        requires
            old(self).wf(),
        ensures
            res == frame_of(*old(self), frame),
            looked(*old(self), *final(self), frame),
    {
        match self.cache.remove(frame) {
            Some(cached) => Some(cached),
            None => {
                match self.last_frame {
                    Some((kept, cached)) => {
                        if kept == frame {
                            Some(PrefetchedFrame::Yuy2(cached, None))
                        } else {
                            None
                        }
                    },
                    None => None,
                }
            },
        }
    }

    /// Takes a frame out, or says whether to wait for it.
    pub fn take_frame_or_wait(&mut self, frame: usize, event: WaitEvent) -> (res: WaitAction)
        requires
            old(self).wf(),
        ensures
            looked(*old(self), *final(self), frame),
            match frame_of(*old(self), frame) {
                Some(data) => res == WaitAction::Deliver(data),
                None => res == (if event == WaitEvent::Look(false) {
                    WaitAction::Wait(old(self).generation)
                } else {
                    WaitAction::GiveUp
                }),
            },
    {
        match self.take_frame(frame) {
            Some(data) => WaitAction::Deliver(data),
            None => {
                match event {
                    WaitEvent::Look(false) => WaitAction::Wait(self.generation),
                    WaitEvent::Look(true) => WaitAction::GiveUp,
                    WaitEvent::TimedOut => WaitAction::GiveUp,
                }
            },
        }
    }

    /// Keeps the frame that was read, in place of the one before.
    pub fn remember_frame(&mut self, frame: usize, cached: CachedVideoFrame)
        ensures
            *final(self) == (PrefetchHandle { last_frame: Some((frame, cached)), ..*old(self) }),
    {
        self.last_frame = Some((frame, cached));
    }

    /// Puts in the frame of a job, and notes that the round has come to something.
    /// A job that failed gives back its share of the budget, and ends the round.
    pub fn job_done(
        &mut self,
        round: &mut PrefetchRound,
        frame: usize,
        reservation: PrefetchReservation,
        decoded: Option<Decoded>,
        budget: &mut PrefetchBudget,
    ) -> (res: bool)
        requires
            old(self).wf(),
            held_by(old(self).cache@) + reservation.size() <= old(budget).in_use(),
        ensures
            final(self).wf(),
            res == (decoded is Some),
            *final(round) == (PrefetchRound { did_work: old(round).did_work || res, ..*old(round) }),
            match decoded {
                Some(data) => {
                    &&& final(self).cache@ == old(self).cache@.insert(
                        frame,
                        frame_from(data, reservation),
                    )
                    &&& final(self).generation == (if old(self).generation == u64::MAX {
                        0
                    } else {
                        (old(self).generation + 1) as u64
                    })
                    &&& final(self).reusable_buffer == old(self).reusable_buffer
                    &&& final(self).last_frame == old(self).last_frame
                },
                None => *final(self) == *old(self),
            },
            final(budget).in_use() - held_by(final(self).cache@) == old(budget).in_use()
                - reservation.size() - held_by(old(self).cache@),
    {
        match decoded {
            Some(Decoded::Picture(cached)) => {
                self.cache.insert(frame, PrefetchedFrame::Yuy2(cached, Some(reservation)), budget);
            },
            Some(Decoded::Bytes(data)) => {
                self.cache.insert(frame, PrefetchedFrame::Bytes(data, Some(reservation)), budget);
            },
            None => {
                reservation.release(budget);
                return false;
            },
        }
        self.generation = self.generation.wrapping_add(1);
        round.did_work = true;
        true
    }
}

/// What a job gives: packed 4:2:2 is made of the picture when it is read, other
/// formats are bytes at once.
pub enum Decoded {
    Picture(CachedVideoFrame),
    Bytes(Vec<u8>),
}

/// The frame that a job gives, with its share of the budget.
pub open spec fn frame_from(data: Decoded, reservation: PrefetchReservation) -> PrefetchedFrame {
    match data {
        Decoded::Picture(cached) => PrefetchedFrame::Yuy2(cached, Some(reservation)),
        Decoded::Bytes(bytes) => PrefetchedFrame::Bytes(bytes, Some(reservation)),
    }
}

/// Whether frames of a format are kept as pictures.
pub fn keeps_picture(format: VideoOutputFormat) -> (res: bool)
    ensures
        res == (format is Yuy2),
{
    match format {
        VideoOutputFormat::Yuy2 => true,
        _ => false,
    }
}

/// Whether a buffer takes the place of the one that is kept, by their memory.
pub fn takes_over(existing: Option<usize>, new: usize) -> (res: bool)
    ensures
        res == (existing matches Some(e) ==> e < new),
{
    match existing {
        Some(e) => e < new,
        None => true,
    }
}

/// `Vec::capacity`: the bytes for which the buffer has memory, no fewer than it
/// holds. How many more is up to the allocator.
#[verifier::external_body]
fn capacity_of(buffer: &Vec<u8>) -> (res: usize)
    ensures
        res >= buffer@.len(),
{
    buffer.capacity()
}

/// As many frames are decoded ahead as the memory for one video holds: one more
/// would not fit, unless a limit is set that is reached.
pub proof fn window_is_as_large_as_fits(config: Config, frame_bytes: int)
    requires
        frame_bytes > 0,
    ensures
        ({
            let window = window_of(config, frame_bytes);
            let memory = config.prefetch_buffer_mb * 1_048_576;
            &&& window * frame_bytes <= memory
            &&& (config.prefetch_frames > 0 && window == config.prefetch_frames) || (window + 1)
                * frame_bytes > memory
            &&& config.prefetch_frames > 0 ==> window <= config.prefetch_frames
        }),
{
    window_fits_its_memory(config, frame_bytes);
    let memory = config.prefetch_buffer_mb * MEGABYTE;
    let fitting = memory / frame_bytes;
    assert((fitting + 1) * frame_bytes > memory) by (nonlinear_arith)
        requires
            fitting == memory / frame_bytes,
            frame_bytes > 0,
            memory >= 0,
    ;
}

/// The frame behind one that was read is the next; before any was read it is the
/// first.
pub proof fn frame_behind_is_the_next(position: Option<usize>)
    ensures
        position is None ==> frame_behind(position) == 0,
        position matches Some(frame) ==> frame < usize::MAX ==> frame_behind(position) == frame + 1,
{
}

/// Whether a round goes on although another frame was read: where it was not
/// another, or one that lies no further than where the round ends.
pub open spec fn goes_on(round: PrefetchRound, position: Option<usize>) -> bool {
    position == round.current || frame_behind(position) <= round.end_frame
}

/// Where a round ends that goes on: as many frames behind the one that was read
/// last as are decoded ahead.
pub open spec fn end_behind(round: PrefetchRound, position: Option<usize>) -> int {
    if position == round.current {
        round.end_frame as int
    } else if frame_behind(position) + round.window <= usize::MAX {
        frame_behind(position) + round.window
    } else {
        usize::MAX as int
    }
}

/// The frame in turn is decoded exactly where it exists, lies behind the frame
/// that was read and within the window, is not there yet, and there is room for it.
/// A frame that was read or is there is passed over. The round begins anew exactly
/// where the video has changed.
pub proof fn wanted_frame_is_decoded(
    round: PrefetchRound,
    video_index: Seq<VideoEntry>,
    cached: Set<usize>,
    config_changed: bool,
    position: Option<usize>,
    room: bool,
)
    requires
        round.frame < video_index.len(),
        video_index.len() <= usize::MAX,
    ensures
        ({
            let step = step_of(round, video_index, cached, config_changed, position, room);
            let within = !config_changed && goes_on(round, position) && round.frame < end_behind(
                round,
                position,
            );
            let done = cached.contains(round.frame) || (position matches Some(read) && round.frame
                <= read);
            &&& step is Restart <==> config_changed
            &&& step is Decode <==> within && !done && room
            &&& step is Skip <==> within && done
            &&& step matches Step::Decode(next) ==> {
                &&& next.frame == round.frame + 1
                &&& next.current == position
                &&& next.end_frame == end_behind(round, position)
                &&& next.window == round.window
                &&& next.frame_bytes == round.frame_bytes
                &&& next.total_limit == round.total_limit
                &&& next.did_work == round.did_work
            }
            &&& step matches Step::Skip(next) ==> {
                &&& next.frame == round.frame + 1
                &&& next.current == position
                &&& next.end_frame == end_behind(round, position)
                &&& next.window == round.window
                &&& next.frame_bytes == round.frame_bytes
                &&& next.total_limit == round.total_limit
                &&& next.did_work == round.did_work
            }
        }),
{
}

/// A frame that was read last is delivered again as often as it is asked for, as
/// long as no other was read and none was decoded ahead in its place; a frame that
/// is neither is not delivered.
pub proof fn last_frame_is_delivered_again(
    before: PrefetchHandle,
    read: PrefetchHandle,
    frame: usize,
    cached: CachedVideoFrame,
)
    requires
        before.last_frame == Some((frame, cached)),
        looked(before, read, frame),
    ensures
        frame_of(read, frame) == Some(PrefetchedFrame::Yuy2(cached, None)),
        frame_of(read, frame)->0.held() == 0,
        read.last_frame == before.last_frame,
        forall|other: usize|
            other != frame && !before.cache@.dom().contains(other) ==> (#[trigger] frame_of(
                before,
                other,
            )) is None,
{
}

/// A decoded frame keeps its share of the budget, as a picture or as bytes.
pub proof fn decoded_frame_keeps_its_share(data: Decoded, reservation: PrefetchReservation)
    ensures
        frame_from(data, reservation).held() == reservation.size(),
        data matches Decoded::Picture(cached) ==> (frame_from(data, reservation) matches
            PrefetchedFrame::Yuy2(kept, _) && kept == cached),
        data matches Decoded::Bytes(bytes) ==> (frame_from(data, reservation) matches
            PrefetchedFrame::Bytes(kept, _) && kept == bytes),
{
}

} // verus!

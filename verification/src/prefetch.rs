//! Decoding video ahead by time: the frames of the next tenth of a second.
use vstd::prelude::*;

use crate::frame_cache::{
    held_by, kept_behind, no_frames, FrameCache, PrefetchBudget, PrefetchedFrame,
};
use crate::index::{VideoEntry, VideoOutputFormat};
use crate::timestamp::Timestamp;

verus! {

/// The key of the latest time that has an end.
pub const LATEST_KEY: i64 = 0x7fef_ffff_ffff_ffff;

/// The video that is decoded ahead.
pub struct PrefetchConfig {
    /// The frames in the order in which they are shown.
    pub video_index: Vec<VideoEntry>,
    /// For each frame the time a tenth of a second behind it.
    pub window_ends: Vec<Timestamp>,
    /// A tenth of a second.
    pub first_window_end: Timestamp,
    pub output_format: VideoOutputFormat,
}

impl PrefetchConfig {
    /// Each frame has its window.
    pub open spec fn wf(self) -> bool {
        self.window_ends@.len() == self.video_index@.len()
    }
}

/// Where the window ends with which a pass begins at a frame: a frame that does
/// not exist counts as one at zero.
pub open spec fn initial_end(config: PrefetchConfig, position: usize) -> Timestamp {
    if position < config.video_index@.len() {
        config.window_ends@[position as int]
    } else {
        config.first_window_end
    }
}

/// The time of a frame to which a reader has moved on: a frame that does not
/// exist lies behind all others.
pub open spec fn time_of(config: PrefetchConfig, position: usize) -> Timestamp {
    if position < config.video_index@.len() {
        config.video_index@[position as int].timestamp
    } else {
        Timestamp { key: LATEST_KEY }
    }
}

/// Where the window ends behind a frame to which a reader has moved on.
pub open spec fn end_of(config: PrefetchConfig, position: usize) -> Timestamp {
    if position < config.video_index@.len() {
        config.window_ends@[position as int]
    } else {
        Timestamp { key: LATEST_KEY }
    }
}

/// One pass over the frames behind the one that was read.
pub struct PrefetchPass {
    /// The frame that was read last.
    pub current: usize,
    /// Where the window ends.
    pub end: Timestamp,
    /// The frame in turn.
    pub frame: usize,
}

/// What is done next in a pass.
pub enum PassAction {
    /// The frame in turn is there: go on.
    Skip,
    /// Decode a frame.
    Decode(usize, VideoEntry),
    /// The pass is over.
    Finish,
}

/// What a position that may be new does to a pass: `None` where it lies behind
/// the end of the window.
pub open spec fn pass_moved(
    pass: PrefetchPass,
    config: PrefetchConfig,
    position: usize,
) -> Option<PrefetchPass> {
    if position == pass.current {
        Some(pass)
    } else if time_of(config, position).key > pass.end.key {
        None
    } else {
        Some(PrefetchPass { current: position, end: end_of(config, position), ..pass })
    }
}

/// What a step of a pass comes to.
pub enum PassStep {
    Finish,
    Skip(PrefetchPass),
    Decode(PrefetchPass),
}

/// What a step of a pass comes to.
pub open spec fn pass_step(
    pass: PrefetchPass,
    config: PrefetchConfig,
    cached: Set<usize>,
    position: usize,
) -> PassStep {
    if pass.frame >= config.video_index@.len() {
        PassStep::Finish
    } else {
        match pass_moved(pass, config, position) {
            None => PassStep::Finish,
            Some(p) => {
                let next = PrefetchPass { frame: (p.frame + 1) as usize, ..p };
                if config.video_index@[p.frame as int].timestamp.key > p.end.key {
                    PassStep::Finish
                } else if cached.contains(p.frame) {
                    PassStep::Skip(next)
                } else {
                    PassStep::Decode(next)
                }
            },
        }
    }
}

impl PrefetchPass {
    /// Begins a pass behind the frame that was read last.
    pub fn new(config: &PrefetchConfig, position: usize) -> (res: PrefetchPass)
        requires
            config.wf(),
            position < usize::MAX,
        ensures
            res.current == position,
            res.end == initial_end(*config, position),
            res.frame == position + 1,
    {
        let end: Timestamp = if position < config.video_index.len() {
            config.window_ends[position]
        } else {
            config.first_window_end
        };
        PrefetchPass { current: position, end, frame: position + 1 }
    }

    /// Takes the frame in turn; `position` says which frame was read last.
    pub fn advance(&mut self, config: &PrefetchConfig, cache: &FrameCache, position: usize) -> (res:
        PassAction)
        requires
            config.wf(),
        ensures
            ({
                let step = pass_step(*old(self), *config, cache@.dom(), position);
                match res {
                    PassAction::Finish => step is Finish,
                    PassAction::Skip => step == PassStep::Skip(*final(self)),
                    PassAction::Decode(frame, entry) => {
                        &&& step == PassStep::Decode(*final(self))
                        &&& frame == old(self).frame
                        &&& entry == config.video_index[frame as int]
                    },
                }
            }),
    {
        let n: usize = config.video_index.len();
        if self.frame >= n {
            return PassAction::Finish;
        }
        if position != self.current {
            let time: Timestamp = if position < n {
                config.video_index[position].timestamp
            } else {
                Timestamp { key: LATEST_KEY }
            };
            if time.key > self.end.key {
                return PassAction::Finish;
            }
            self.current = position;
            self.end = if position < n {
                config.window_ends[position]
            } else {
                Timestamp { key: LATEST_KEY }
            };
        }
        let frame: usize = self.frame;
        let entry: VideoEntry = config.video_index[frame];
        if entry.timestamp.key > self.end.key {
            return PassAction::Finish;
        }
        self.frame = frame + 1;
        if cache.contains(frame) {
            PassAction::Skip
        } else {
            PassAction::Decode(frame, entry)
        }
    }
}

/// A frame that is decoded ahead exists, is not there yet and lies no later
/// than the end of the window behind the frame that was read last.
pub proof fn decoded_frame_is_in_the_window(
    pass: PrefetchPass,
    config: PrefetchConfig,
    cached: Set<usize>,
    position: usize,
)
    requires
        pass_step(pass, config, cached, position) is Decode,
    ensures
        pass.frame < config.video_index@.len(),
        !cached.contains(pass.frame),
        config.video_index@[pass.frame as int].timestamp.key <= (if position == pass.current {
            pass.end
        } else {
            end_of(config, position)
        }).key,
{
}

/// What the thread that decodes ahead finds in its mailbox.
#[derive(Debug, Clone, Copy, PartialEq, Eq, Structural)]
pub enum Signal {
    Message,
    Empty,
    Disconnected,
}

/// Whether the thread goes on: it ends when nobody can write to it any more.
pub fn keeps_running(signal: Signal) -> (res: bool)
    ensures
        res == !(signal is Disconnected),
{
    match signal {
        Signal::Disconnected => false,
        _ => true,
    }
}

/// The frames of one video that were decoded ahead.
pub struct PrefetchHandle {
    pub cache: FrameCache,
    pub config: Option<PrefetchConfig>,
    /// The frame that was read last.
    pub position: usize,
}

/// The frames after the bytes of one were put in.
pub open spec fn with_frame(
    frames: Map<usize, PrefetchedFrame>,
    frame: usize,
    data: Vec<u8>,
) -> Map<usize, PrefetchedFrame> {
    frames.insert(frame, PrefetchedFrame::Bytes(data, None))
}

/// The frame that a reader gets, where it is there.
pub open spec fn frame_read(frames: Map<usize, PrefetchedFrame>, frame: usize) -> Option<
    PrefetchedFrame,
> {
    if frames.dom().contains(frame) {
        Some(frames[frame])
    } else {
        None
    }
}

/// The frames after one was read: once it was there, only those behind it.
pub open spec fn after_read(frames: Map<usize, PrefetchedFrame>, frame: usize) -> Map<
    usize,
    PrefetchedFrame,
> {
    if frames.dom().contains(frame) {
        kept_behind(frames, frame)
    } else {
        frames
    }
}

/// What was put in for a frame is what its reader gets. Once a frame was read
/// neither it nor one before it is there, and those behind it are as before.
pub proof fn stored_frame_is_read(
    frames: Map<usize, PrefetchedFrame>,
    frame: usize,
    data: Vec<u8>,
    other: usize,
)
    ensures
        ({
            let stored = with_frame(frames, frame, data);
            let rest = after_read(stored, frame);
            &&& frame_read(stored, frame) == Some(PrefetchedFrame::Bytes(data, None))
            &&& other != frame ==> frame_read(stored, other) == frame_read(frames, other)
            &&& other <= frame ==> frame_read(rest, other) is None
            &&& other > frame ==> frame_read(rest, other) == frame_read(frames, other)
        }),
{
}

impl PrefetchHandle {
    /// The cache is in order, and its frames hold nothing of a budget.
    pub open spec fn wf(self) -> bool {
        &&& self.cache.wf()
        &&& held_by(self.cache@) == 0
        &&& self.config matches Some(config) ==> config.wf()
    }

    /// A handle without a video.
    pub fn new() -> (res: PrefetchHandle)
        ensures
            res.wf(),
            res.cache@ == no_frames(),
            res.config is None,
            res.position == 0,
    {
        PrefetchHandle { cache: FrameCache::new(), config: None, position: 0 }
    }

    /// Takes another video, or none, and drops all frames.
    pub fn set_config(&mut self, config: Option<PrefetchConfig>)
        requires
            old(self).wf(),
            config matches Some(c) ==> c.wf(),
        ensures
            final(self).wf(),
            final(self).config == config,
            final(self).cache@ == no_frames(),
            final(self).position == old(self).position,
    {
        self.config = config;
        let mut budget: PrefetchBudget = PrefetchBudget::new();
        self.cache.clear(&mut budget);
    }

    /// Puts in the bytes of a frame.
    pub fn store(&mut self, frame: usize, data: Vec<u8>)
        requires
            old(self).wf(),
        ensures
            final(self).wf(),
            final(self).cache@ == with_frame(old(self).cache@, frame, data),
            *final(self) == (PrefetchHandle { cache: final(self).cache, ..*old(self) }),
    {
        let mut budget: PrefetchBudget = PrefetchBudget::new();
        self.cache.insert(frame, PrefetchedFrame::Bytes(data, None), &mut budget);
    }

    /// Notes that a frame is read, and takes it out where it was decoded ahead.
    /// The frames before it are then dropped.
    pub fn read(&mut self, frame: usize) -> (res: Option<PrefetchedFrame>)
        requires
            old(self).wf(),
        ensures
            final(self).wf(),
            final(self).position == frame,
            final(self).config == old(self).config,
            res == frame_read(old(self).cache@, frame),
            final(self).cache@ == after_read(old(self).cache@, frame),
    {
        self.position = frame;
        let ghost before = self.cache@;
        match self.cache.remove(frame) {
            Some(data) => {
                self.cache.retain_behind(frame);
                proof {
                    let behind = Set::new(|key: usize| key > frame);
                    assert(before.remove(frame).restrict(behind) =~= before.restrict(behind));
                }
                Some(data)
            },
            None => {
                proof {
                    assert(before.remove(frame) =~= before);
                }
                None
            },
        }
    }
}

/// A pass comes to each frame in its turn. The frame in turn is decoded exactly
/// where it exists, is not there yet, and lies within the window; one that is there
/// already is passed over. The window is that of the frame that was read last,
/// unless that frame lies behind the window of the pass, which then ends.
pub proof fn frame_in_the_window_is_decoded(
    pass: PrefetchPass,
    config: PrefetchConfig,
    cached: Set<usize>,
    position: usize,
)
    requires
        pass.frame < config.video_index@.len(),
    ensures
        ({
            let step = pass_step(pass, config, cached, position);
            let stays = position == pass.current;
            let exists = position < config.video_index@.len();
            let time = config.video_index@[pass.frame as int].timestamp;
            let left = !stays && (if exists {
                config.video_index@[position as int].timestamp.key > pass.end.key
            } else {
                0x7fef_ffff_ffff_ffff > pass.end.key
            });
            let end_key = if stays {
                pass.end.key
            } else if exists {
                config.window_ends@[position as int].key
            } else {
                0x7fef_ffff_ffff_ffff
            };
            &&& step is Decode <==> !left && time.key <= end_key && !cached.contains(pass.frame)
            &&& step is Skip <==> !left && time.key <= end_key && cached.contains(pass.frame)
            &&& step matches PassStep::Decode(next) ==> next.frame == pass.frame + 1 && next.current
                == position && next.end.key == end_key
            &&& step matches PassStep::Skip(next) ==> next.frame == pass.frame + 1 && next.current
                == position && next.end.key == end_key
        }),
{
    assert(config.video_index.len() <= usize::MAX);
}

/// A pass over no more frames is over.
pub proof fn pass_ends_behind_the_last_frame(
    pass: PrefetchPass,
    config: PrefetchConfig,
    cached: Set<usize>,
    position: usize,
)
    requires
        pass.frame >= config.video_index@.len(),
    ensures
        pass_step(pass, config, cached, position) is Finish,
{
}

/// A pass begins with the window of the frame that was read; where that does not
/// exist, with that of the first tenth of a second.
pub proof fn pass_begins_with_the_window_of_its_frame(config: PrefetchConfig, position: usize)
    ensures
        position < config.video_index@.len() ==> initial_end(config, position)
            == config.window_ends@[position as int],
        position >= config.video_index@.len() ==> initial_end(config, position)
            == config.first_window_end,
{
}

} // verus!

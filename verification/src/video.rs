//! Decoding one video stream: when to seek, which frame to deliver, and how its
//! pixels are laid out.
use vstd::prelude::*;

use crate::config::HwAccel;
use crate::index::VideoOutputFormat;
use crate::media::{ColorRange, ColorSpace, PixelFormat, TransferCharacteristic};
use crate::text::{
    chars_of, decimal, decimal_of, extend, signed_decimal, signed_decimal_of, string_of,
};
use crate::timestamp::{Timestamp, BEGINNING_KEY};

verus! {

/// The most frames that are decoded forward without a thought to seeking.
pub const FORWARD_SEEK_THRESHOLD: usize = 10;

/// A time on the axis of seconds, with the times a microsecond before and
/// behind it. Frames that lie closer than that count as one.
#[derive(Debug, Clone, Copy, PartialEq, Eq, Structural)]
pub struct Clock {
    pub now: Timestamp,
    pub before: Timestamp,
    pub after: Timestamp,
}

impl Clock {
    /// The three times stand in their order.
    pub open spec fn wf(self) -> bool {
        &&& self.now.wf()
        &&& self.before.wf()
        &&& self.after.wf()
        &&& self.before.key <= self.now.key <= self.after.key
    }

    /// The time before every frame.
    pub fn beginning() -> (res: Clock)
        ensures
            res == at_beginning(),
            res.wf(),
    {
        Clock {
            now: Timestamp { key: BEGINNING_KEY },
            before: Timestamp { key: BEGINNING_KEY },
            after: Timestamp { key: BEGINNING_KEY },
        }
    }
}

/// The time before every frame.
pub open spec fn at_beginning() -> Clock {
    Clock {
        now: Timestamp { key: BEGINNING_KEY },
        before: Timestamp { key: BEGINNING_KEY },
        after: Timestamp { key: BEGINNING_KEY },
    }
}

/// Whether a frame is reached by a seek: one that lies back in time or in the
/// order of frames, any where no frame was shown yet, and one further ahead
/// than the threshold whose keyframe still lies ahead.
pub open spec fn seek_needed(
    current_frame: Option<usize>,
    clock: Clock,
    target_frame: usize,
    target: Timestamp,
    target_keyframe: Timestamp,
) -> bool {
    ||| target.key < clock.before.key
    ||| match current_frame {
        None => true,
        Some(current) => {
            ||| target_frame < current
            ||| target_frame > current + FORWARD_SEEK_THRESHOLD && target_keyframe.key
                > clock.after.key
        },
    }
}

/// Whether a frame is reached by a seek rather than by decoding on.
pub fn should_seek_video(
    current_frame_index: Option<usize>,
    clock: Clock,
    target_frame_index: usize,
    target_ts: Timestamp,
    target_keyframe_ts: Timestamp,
) -> (res: bool)
    ensures
        res == seek_needed(
            current_frame_index,
            clock,
            target_frame_index,
            target_ts,
            target_keyframe_ts,
        ),
{
    if target_ts.key < clock.before.key {
        return true;
    }
    match current_frame_index {
        None => true,
        Some(current) => {
            if target_frame_index <= current {
                target_frame_index < current
            } else {
                let forward_distance: usize = target_frame_index - current;
                forward_distance > FORWARD_SEEK_THRESHOLD && target_keyframe_ts.key
                    > clock.after.key
            }
        },
    }
}

/// The frame that was shown last is shown again without a seek.
pub proof fn no_seek_to_the_frame_shown(clock: Clock, frame: usize, keyframe: Timestamp)
    requires
        clock.wf(),
    ensures
        !seek_needed(Some(frame), clock, frame, clock.now, keyframe),
{
}

/// A frame within the threshold ahead, in both orders, is reached without a
/// seek, wherever its keyframe lies.
pub proof fn no_seek_to_a_near_frame(
    clock: Clock,
    frame: usize,
    target_frame: usize,
    target: Timestamp,
    keyframe: Timestamp,
)
    requires
        clock.wf(),
        clock.now.key <= target.key,
        frame <= target_frame <= frame + FORWARD_SEEK_THRESHOLD,
    ensures
        !seek_needed(Some(frame), clock, target_frame, target, keyframe),
{
}

/// How a decoder shares its work.
#[derive(Debug, Clone, Copy, PartialEq, Eq, Structural)]
pub enum Threading {
    Frame,
    Slice,
    Single,
}

/// The threading of a codec: by frames where it can, else by slices where it can.
pub fn threading_kind(frame_threads: bool, slice_threads: bool) -> (res: Threading)
    ensures
        res is Frame <==> frame_threads,
        res is Slice <==> !frame_threads && slice_threads,
{
    if frame_threads {
        Threading::Frame
    } else if slice_threads {
        Threading::Slice
    } else {
        Threading::Single
    }
}

/// The devices that can decode in hardware.
#[derive(Debug, Clone, Copy, PartialEq, Eq, Structural)]
pub enum HwDevice {
    D3d11va,
    Dxva2,
    Cuda,
    Other,
}

/// The devices that a setting stands for, in the order in which they are tried.
pub open spec fn candidates_of(hwaccel: HwAccel) -> Seq<HwDevice> {
    match hwaccel {
        HwAccel::Off => seq![],
        HwAccel::Auto => seq![HwDevice::D3d11va, HwDevice::Dxva2],
        HwAccel::D3d11va => seq![HwDevice::D3d11va],
        HwAccel::Dxva2 => seq![HwDevice::Dxva2],
        HwAccel::Cuda => seq![HwDevice::Cuda],
    }
}

/// The devices that a setting stands for, in the order in which they are tried.
pub fn hwaccel_candidates(hwaccel: HwAccel) -> (res: Vec<HwDevice>)
    ensures
        res@ == candidates_of(hwaccel),
{
    let mut res: Vec<HwDevice> = Vec::new();
    match hwaccel {
        HwAccel::Off => {},
        HwAccel::Auto => {
            res.push(HwDevice::D3d11va);
            res.push(HwDevice::Dxva2);
        },
        HwAccel::D3d11va => {
            res.push(HwDevice::D3d11va);
        },
        HwAccel::Dxva2 => {
            res.push(HwDevice::Dxva2);
        },
        HwAccel::Cuda => {
            res.push(HwDevice::Cuda);
        },
    }
    proof {
        assert(res@ =~= candidates_of(hwaccel));
    }
    res
}

/// Whether a codec, of which the hardware configurations are given, works with
/// a device.
pub fn codec_supports_hwaccel(configurations: &Vec<HwDevice>, device: HwDevice) -> (res: bool)
    ensures
        res == configurations@.contains(device),
{
    let n: usize = configurations.len();
    for i in 0..n
        invariant
            n == configurations.len(),
            forall|j: int| 0 <= j < i ==> configurations[j] != device,
    {
        if configurations[i] == device {
            proof {
                assert(configurations@[i as int] == device);
            }
            return true;
        }
    }
    false
}

/// The devices of a setting that a codec works with, in their order.
pub open spec fn supported_of(candidates: Seq<HwDevice>, configurations: Seq<HwDevice>) -> Seq<
    HwDevice,
>
    decreases candidates.len(),
{
    if candidates.len() == 0 {
        seq![]
    } else {
        let before = supported_of(candidates.drop_last(), configurations);
        if configurations.contains(candidates.last()) {
            before.push(candidates.last())
        } else {
            before
        }
    }
}

/// The devices on which a context is to be made, one after the other until the
/// first that succeeds. Where none does, software decodes.
pub fn hwaccel_attempts(hwaccel: HwAccel, configurations: &Vec<HwDevice>) -> (res: Vec<HwDevice>)
    ensures
        res@ == supported_of(candidates_of(hwaccel), configurations@),
{
    let candidates: Vec<HwDevice> = hwaccel_candidates(hwaccel);
    let mut res: Vec<HwDevice> = Vec::new();
    let n: usize = candidates.len();
    proof {
        assert(candidates@.take(0) =~= seq![]);
    }
    for i in 0..n
        invariant
            n == candidates.len(),
            res@ == supported_of(candidates@.take(i as int), configurations@),
    {
        proof {
            assert(candidates@.take(i + 1).drop_last() =~= candidates@.take(i as int));
        }
        if codec_supports_hwaccel(configurations, candidates[i]) {
            res.push(candidates[i]);
        }
    }
    proof {
        assert(candidates@.take(n as int) =~= candidates@);
    }
    res
}

/// The matrices that the scaler knows by number.
#[derive(Debug, Clone, Copy, PartialEq, Eq, Structural)]
pub enum ScalerMatrix {
    Itu709,
    Fcc,
    Smpte240m,
    Bt2020,
    Itu601,
    Standard,
}

/// What the scaler has to know of a decoded frame.
#[derive(Debug, Clone, Copy, PartialEq, Eq, Structural)]
pub struct FrameInfo {
    pub width: u32,
    pub height: u32,
    pub format: PixelFormat,
    pub transfer: TransferCharacteristic,
    pub color_space: ColorSpace,
    pub color_range: ColorRange,
}

/// The matrix of a frame. One that states none is taken for high definition
/// by its size.
pub open spec fn matrix_of(frame: FrameInfo) -> ScalerMatrix {
    match frame.color_space {
        ColorSpace::Bt709 => ScalerMatrix::Itu709,
        ColorSpace::Fcc => ScalerMatrix::Fcc,
        ColorSpace::Smpte240m => ScalerMatrix::Smpte240m,
        ColorSpace::Bt2020Ncl => ScalerMatrix::Bt2020,
        ColorSpace::Bt2020Cl => ScalerMatrix::Bt2020,
        ColorSpace::Bt470bg => ScalerMatrix::Itu601,
        ColorSpace::Smpte170m => ScalerMatrix::Itu601,
        ColorSpace::Unspecified => if frame.width >= 1280 || frame.height > 576 {
            ScalerMatrix::Itu709
        } else {
            ScalerMatrix::Itu601
        },
        ColorSpace::Other => ScalerMatrix::Standard,
    }
}

/// The matrix of a frame.
pub fn swscale_colorspace(frame: FrameInfo) -> (res: ScalerMatrix)
    ensures
        res == matrix_of(frame),
{
    match frame.color_space {
        ColorSpace::Bt709 => ScalerMatrix::Itu709,
        ColorSpace::Fcc => ScalerMatrix::Fcc,
        ColorSpace::Smpte240m => ScalerMatrix::Smpte240m,
        ColorSpace::Bt2020Ncl => ScalerMatrix::Bt2020,
        ColorSpace::Bt2020Cl => ScalerMatrix::Bt2020,
        ColorSpace::Bt470bg => ScalerMatrix::Itu601,
        ColorSpace::Smpte170m => ScalerMatrix::Itu601,
        ColorSpace::Unspecified => {
            if frame.width >= 1280 || frame.height > 576 {
                ScalerMatrix::Itu709
            } else {
                ScalerMatrix::Itu601
            }
        },
        ColorSpace::Other => ScalerMatrix::Standard,
    }
}

/// The scaler's number for a range: one for the full range, else zero.
pub open spec fn range_of(range: ColorRange) -> i32 {
    if range is Jpeg {
        1
    } else {
        0
    }
}

/// The scaler's number for a range.
pub fn swscale_range(range: ColorRange) -> (res: i32)
    ensures
        res == range_of(range),
{
    match range {
        ColorRange::Jpeg => 1,
        ColorRange::Mpeg => 0,
        ColorRange::Unspecified => 0,
    }
}

/// The pixel format into which frames are scaled for an output format.
pub open spec fn scaled_format_of(output: VideoOutputFormat) -> PixelFormat {
    match output {
        VideoOutputFormat::Yuy2 => PixelFormat::Yuyv422,
        VideoOutputFormat::Bgra => PixelFormat::Bgra,
        VideoOutputFormat::Hf64 => PixelFormat::Gbrpf32Le,
    }
}

/// The pixel format into which frames are scaled for an output format.
pub fn scaled_format(output: VideoOutputFormat) -> (res: PixelFormat)
    ensures
        res == scaled_format_of(output),
{
    match output {
        VideoOutputFormat::Yuy2 => PixelFormat::Yuyv422,
        VideoOutputFormat::Bgra => PixelFormat::Bgra,
        VideoOutputFormat::Hf64 => PixelFormat::Gbrpf32Le,
    }
}

/// What is done next to turn a decoded frame into bytes.
#[derive(Debug, Clone, Copy, PartialEq, Eq, Structural)]
pub enum ConversionStep {
    /// Build the filter graph that makes high dynamic range linear.
    BuildHdrFilter,
    /// Send the frame through that graph and interleave its planes.
    FilterHdr,
    /// Make a scaler into the given format.
    MakeScaler(PixelFormat),
    /// Tell the scaler the matrix and the range of the frame.
    SetColorspace(ScalerMatrix, i32),
    /// Scale into packed pixels of some bytes each, upside down or not.
    ScalePacked(usize, bool),
    /// Scale into planes and interleave them.
    ScalePlanes,
}

impl ConversionStep {
    /// Whether the step gives the bytes of the frame.
    pub open spec fn last(self) -> bool {
        self is FilterHdr || self is ScalePacked || self is ScalePlanes
    }
}

/// What happens while a stream is decoded up to a time.
#[derive(Debug, Clone, Copy, PartialEq, Eq, Structural)]
pub enum DecodeEvent {
    /// A packet of a stream was read.
    Packet(usize),
    /// The packet was handed to the decoder, which took it or did not.
    Sent(bool),
    /// The decoder was asked for a frame, and gave one with its time or none.
    Received(Option<Clock>),
    /// There are no more packets.
    Ended,
    /// The decoder was told so and asked for a frame, which it gave or did not.
    Drained(bool),
}

/// What is to be done next to decode a stream up to a time.
#[derive(Debug, Clone, Copy, PartialEq, Eq, Structural)]
pub enum DecodeAction {
    ReadPacket,
    SendPacket,
    ReceiveFrame,
    Drain,
    /// The frame that was received last is the one.
    Deliver,
    /// There is no frame at that time.
    NotFound,
}

/// The clock and the action after an event, on the way to a time.
pub open spec fn decoded(stream_index: usize, clock: Clock, target: Clock, event: DecodeEvent) -> (
    Clock,
    DecodeAction,
) {
    match event {
        DecodeEvent::Packet(stream) => (
            clock,
            if stream == stream_index {
                DecodeAction::SendPacket
            } else {
                DecodeAction::ReadPacket
            },
        ),
        DecodeEvent::Sent(taken) => (
            clock,
            if taken {
                DecodeAction::ReceiveFrame
            } else {
                DecodeAction::ReadPacket
            },
        ),
        DecodeEvent::Received(None) => (clock, DecodeAction::ReadPacket),
        DecodeEvent::Received(Some(frame)) => (
            frame,
            if frame.now.key >= target.before.key {
                DecodeAction::Deliver
            } else {
                DecodeAction::ReceiveFrame
            },
        ),
        DecodeEvent::Ended => (
            clock,
            if clock.now.key < target.before.key {
                DecodeAction::Drain
            } else {
                DecodeAction::Deliver
            },
        ),
        DecodeEvent::Drained(true) => (target, DecodeAction::Deliver),
        DecodeEvent::Drained(false) => (clock, DecodeAction::NotFound),
    }
}

/// A frame is delivered only once the clock has reached the target, but for
/// the microsecond within which times count as one.
pub proof fn delivered_frame_is_not_early(
    stream_index: usize,
    clock: Clock,
    target: Clock,
    event: DecodeEvent,
)
    requires
        target.wf(),
        decoded(stream_index, clock, target, event).1 is Deliver,
    ensures
        decoded(stream_index, clock, target, event).0.now.key >= target.before.key,
{
}

/// What is known of a decoder of one video stream.
pub struct VideoDecoderState {
    pub stream_index: usize,
    /// The time of the frame that was decoded last.
    pub clock: Clock,
    /// Whether frames come from hardware and have to be fetched from it.
    pub is_hw: bool,
    /// Whether the scaler was made.
    pub has_scaler: bool,
    /// Whether the filter graph for high dynamic range was built.
    pub has_hdr_filter: bool,
    /// The matrix and the range that the scaler was told last.
    pub cached_colorspace: Option<(ScalerMatrix, i32)>,
    /// The bytes of the frame that was read last.
    pub output_buffer: Vec<u8>,
    /// The number of the frame whose bytes are kept.
    pub output_frame_index: Option<usize>,
    /// The number of the frame that was shown last.
    pub shown_frame_index: Option<usize>,
}

/// The bytes that are kept for a frame.
pub open spec fn kept_bytes(state: VideoDecoderState, frame_index: usize) -> Option<Seq<u8>> {
    if state.output_frame_index == Some(frame_index) {
        Some(state.output_buffer@)
    } else {
        None
    }
}

/// The state of a decoder once the bytes of a frame are kept.
pub open spec fn with_bytes(
    state: VideoDecoderState,
    output: Vec<u8>,
    frame_index: usize,
) -> VideoDecoderState {
    VideoDecoderState {
        output_buffer: output,
        output_frame_index: Some(frame_index),
        shown_frame_index: Some(frame_index),
        ..state
    }
}

/// Whether the kept bytes were handed out: none are kept for any frame, and the
/// rest is as before.
pub open spec fn output_taken(before: VideoDecoderState, after: VideoDecoderState) -> bool {
    &&& after.output_buffer@.len() == 0
    &&& after == (VideoDecoderState {
        output_buffer: after.output_buffer,
        output_frame_index: None,
        ..before
    })
}

/// What is kept for a frame are the bytes of that frame: once the buffer was
/// handed out to be written again nothing is kept, until the bytes of a frame
/// come in, which are then those of that frame alone.
pub proof fn kept_bytes_are_those_of_their_frame(
    before: VideoDecoderState,
    taken: VideoDecoderState,
    output: Vec<u8>,
    frame_index: usize,
    other: usize,
)
    requires
        output_taken(before, taken),
    ensures
        kept_bytes(taken, other) is None,
        kept_bytes(with_bytes(taken, output, frame_index), other) == (if other == frame_index {
            Some(output@)
        } else {
            None
        }),
{
}

/// What is done next to turn a frame into bytes.
pub open spec fn next_conversion(
    state: VideoDecoderState,
    frame: FrameInfo,
    output: VideoOutputFormat,
) -> ConversionStep {
    let colours = (matrix_of(frame), range_of(frame.color_range));
    if output is Hf64 && frame.transfer.hdr() {
        if state.has_hdr_filter {
            ConversionStep::FilterHdr
        } else {
            ConversionStep::BuildHdrFilter
        }
    } else if !state.has_scaler {
        ConversionStep::MakeScaler(scaled_format_of(output))
    } else if !(output is Yuy2) && state.cached_colorspace != Some(colours) {
        ConversionStep::SetColorspace(colours.0, colours.1)
    } else {
        match output {
            VideoOutputFormat::Yuy2 => ConversionStep::ScalePacked(2, false),
            VideoOutputFormat::Bgra => ConversionStep::ScalePacked(4, true),
            VideoOutputFormat::Hf64 => ConversionStep::ScalePlanes,
        }
    }
}

/// The state of a decoder after a step of a conversion has succeeded.
pub open spec fn conversion_done(state: VideoDecoderState, step: ConversionStep) -> VideoDecoderState {
    match step {
        ConversionStep::BuildHdrFilter => VideoDecoderState { has_hdr_filter: true, ..state },
        ConversionStep::MakeScaler(_) => VideoDecoderState { has_scaler: true, ..state },
        ConversionStep::SetColorspace(matrix, range) => VideoDecoderState {
            cached_colorspace: Some((matrix, range)),
            ..state
        },
        _ => state,
    }
}

/// A conversion whose steps succeed gives its bytes after at most two others.
pub proof fn conversion_takes_three_steps(
    state: VideoDecoderState,
    frame: FrameInfo,
    output: VideoOutputFormat,
)
    ensures
        ({
            let first = next_conversion(state, frame, output);
            let second = next_conversion(conversion_done(state, first), frame, output);
            let third = next_conversion(
                conversion_done(conversion_done(state, first), second),
                frame,
                output,
            );
            first.last() || second.last() || third.last()
        }),
{
}

/// The colours of a frame are told to the scaler once: the next frame with the
/// same colours is scaled at once.
pub proof fn colorspace_is_set_once(
    state: VideoDecoderState,
    frame: FrameInfo,
    other: FrameInfo,
    output: VideoOutputFormat,
)
    requires
        next_conversion(state, frame, output) is SetColorspace,
        matrix_of(other) == matrix_of(frame),
        range_of(other.color_range) == range_of(frame.color_range),
        output is Hf64 ==> !other.transfer.hdr(),
    ensures
        next_conversion(
            conversion_done(state, next_conversion(state, frame, output)),
            other,
            output,
        ).last(),
{
}

impl VideoDecoderState {
    /// A decoder that has decoded nothing yet.
    pub fn new(stream_index: usize, is_hw: bool) -> (res: VideoDecoderState)
        ensures
            res.stream_index == stream_index,
            res.clock == at_beginning(),
            res.is_hw == is_hw,
            !res.has_scaler,
            !res.has_hdr_filter,
            res.cached_colorspace is None,
            res.output_buffer@.len() == 0,
            res.output_frame_index is None,
            res.shown_frame_index is None,
    {
        VideoDecoderState {
            stream_index,
            clock: Clock::beginning(),
            is_hw,
            has_scaler: false,
            has_hdr_filter: false,
            cached_colorspace: None,
            output_buffer: Vec::new(),
            output_frame_index: None,
            shown_frame_index: None,
        }
    }

    /// Notes that the input was sought and the decoder flushed. The bytes that
    /// are kept stay.
    pub fn seek(&mut self)
        ensures
            *final(self) == (VideoDecoderState { clock: at_beginning(), ..*old(self) }),
    {
        self.clock = Clock::beginning();
    }

    /// Whether a frame is reached by a seek.
    pub fn should_seek_to(
        &self,
        target_frame_index: usize,
        target_ts: Timestamp,
        target_keyframe_ts: Timestamp,
    ) -> (res: bool)
        ensures
            res == seek_needed(
                self.shown_frame_index,
                self.clock,
                target_frame_index,
                target_ts,
                target_keyframe_ts,
            ),
    {
        should_seek_video(
            self.shown_frame_index,
            self.clock,
            target_frame_index,
            target_ts,
            target_keyframe_ts,
        )
    }

    /// Takes up what happened on the way to a time, and says what to do next.
    /// The first thing to do is to read a packet.
    pub fn decode_to(&mut self, target: Clock, event: DecodeEvent) -> (res: DecodeAction)
        ensures
            (final(self).clock, res) == decoded(
                old(self).stream_index,
                old(self).clock,
                target,
                event,
            ),
            *final(self) == (VideoDecoderState { clock: final(self).clock, ..*old(self) }),
    {
        match event {
            DecodeEvent::Packet(stream) => {
                if stream == self.stream_index {
                    DecodeAction::SendPacket
                } else {
                    DecodeAction::ReadPacket
                }
            },
            DecodeEvent::Sent(taken) => {
                if taken {
                    DecodeAction::ReceiveFrame
                } else {
                    DecodeAction::ReadPacket
                }
            },
            DecodeEvent::Received(None) => DecodeAction::ReadPacket,
            DecodeEvent::Received(Some(frame)) => {
                self.clock = frame;
                if frame.now.key >= target.before.key {
                    DecodeAction::Deliver
                } else {
                    DecodeAction::ReceiveFrame
                }
            },
            DecodeEvent::Ended => {
                if self.clock.now.key < target.before.key {
                    DecodeAction::Drain
                } else {
                    DecodeAction::Deliver
                }
            },
            DecodeEvent::Drained(true) => {
                self.clock = target;
                DecodeAction::Deliver
            },
            DecodeEvent::Drained(false) => DecodeAction::NotFound,
        }
    }

    /// What is done next to turn a frame into bytes.
    pub fn next_conversion(&self, frame: FrameInfo, output: VideoOutputFormat) -> (res:
        ConversionStep)
        ensures
            res == next_conversion(*self, frame, output),
    {
        let hf64: bool = match output {
            VideoOutputFormat::Hf64 => true,
            _ => false,
        };
        if hf64 && frame.transfer.is_hdr_transfer() {
            if self.has_hdr_filter {
                return ConversionStep::FilterHdr;
            } else {
                return ConversionStep::BuildHdrFilter;
            }
        }
        if !self.has_scaler {
            return ConversionStep::MakeScaler(scaled_format(output));
        }
        let rgb: bool = match output {
            VideoOutputFormat::Yuy2 => false,
            _ => true,
        };
        if rgb {
            let matrix: ScalerMatrix = swscale_colorspace(frame);
            let range: i32 = swscale_range(frame.color_range);
            let known: bool = match self.cached_colorspace {
                Some((m, r)) => m == matrix && r == range,
                None => false,
            };
            if !known {
                return ConversionStep::SetColorspace(matrix, range);
            }
        }
        match output {
            VideoOutputFormat::Yuy2 => ConversionStep::ScalePacked(2, false),
            VideoOutputFormat::Bgra => ConversionStep::ScalePacked(4, true),
            VideoOutputFormat::Hf64 => ConversionStep::ScalePlanes,
        }
    }

    /// Notes that a step of a conversion has succeeded.
    pub fn conversion_done(&mut self, step: ConversionStep)
        ensures
            *final(self) == conversion_done(*old(self), step),
    {
        match step {
            ConversionStep::BuildHdrFilter => {
                self.has_hdr_filter = true;
            },
            ConversionStep::MakeScaler(_) => {
                self.has_scaler = true;
            },
            ConversionStep::SetColorspace(matrix, range) => {
                self.cached_colorspace = Some((matrix, range));
            },
            _ => {},
        }
    }

    /// Hands out the kept bytes, so that their memory is written again. No bytes
    /// are kept until those of a frame come in; the frame that was shown last
    /// stays known.
    pub fn take_output(&mut self) -> (res: Vec<u8>)
        ensures
            res@ == old(self).output_buffer@,
            output_taken(*old(self), *final(self)),
    {
        let mut output: Vec<u8> = Vec::new();
        std::mem::swap(&mut output, &mut self.output_buffer);
        self.output_frame_index = None;
        output
    }

    /// Keeps the bytes of a frame, which is the one shown last.
    pub fn frame_to_bytes_buffered(&mut self, output: Vec<u8>, frame_index: usize)
        ensures
            *final(self) == with_bytes(*old(self), output, frame_index),
    {
        self.output_buffer = output;
        self.output_frame_index = Some(frame_index);
        self.shown_frame_index = Some(frame_index);
    }

    /// The bytes of a frame, where they are the ones kept.
    pub fn cached_frame_bytes(&self, frame_index: usize) -> (res: Option<&Vec<u8>>)
        ensures
            kept_bytes(*self, frame_index) == (match res {
                Some(bytes) => Some(bytes@),
                None => None,
            }),
            res matches Some(bytes) ==> *bytes == self.output_buffer,
    {
        match self.output_frame_index {
            Some(kept) => {
                if kept == frame_index {
                    Some(&self.output_buffer)
                } else {
                    None
                }
            },
            None => None,
        }
    }
}

/// Where the rows of a packed picture go in a buffer.
#[derive(Debug, Clone, Copy, PartialEq, Eq, Structural)]
pub struct PackedLayout {
    /// The bytes of the whole picture.
    pub size: usize,
    /// The place of the first row that is written.
    pub first: usize,
    /// How far each row starts behind the one written before it.
    pub stride: i32,
}

/// Why a picture has no layout.
#[derive(Debug, Clone, Copy, PartialEq, Eq, Structural)]
pub enum LayoutError {
    InvalidDimensions,
    StrideTooLarge,
}

/// The layout of a picture, from the top down or from the bottom up.
pub open spec fn packed_layout_of(
    width: u32,
    height: u32,
    bytes_per_pixel: usize,
    vertically_flip: bool,
) -> Result<PackedLayout, LayoutError> {
    let row = width * bytes_per_pixel;
    if width == 0 || height == 0 {
        Err(LayoutError::InvalidDimensions)
    } else if row > i32::MAX {
        Err(LayoutError::StrideTooLarge)
    } else if vertically_flip {
        Ok(
            PackedLayout {
                size: (height * row) as usize,
                first: ((height - 1) * row) as usize,
                stride: -row as i32,
            },
        )
    } else {
        Ok(PackedLayout { size: (height * row) as usize, first: 0, stride: row as i32 })
    }
}

/// Where a row that is written starts.
pub open spec fn row_start(layout: PackedLayout, row: int) -> int {
    layout.first + row * layout.stride
}

/// The layout of a picture, from the top down or from the bottom up.
pub fn packed_layout(
    width: u32,
    height: u32,
    bytes_per_pixel: usize,
    vertically_flip: bool,
) -> (res: Result<PackedLayout, LayoutError>)
    requires
        width > 0 && height > 0 ==> width * bytes_per_pixel <= usize::MAX,
        width * bytes_per_pixel <= i32::MAX ==> height * (width * bytes_per_pixel) <= usize::MAX,
    ensures
        res == packed_layout_of(width, height, bytes_per_pixel, vertically_flip),
{
    if width == 0 || height == 0 {
        return Err(LayoutError::InvalidDimensions);
    }
    let row: usize = (width as usize) * bytes_per_pixel;
    if row > i32::MAX as usize {
        return Err(LayoutError::StrideTooLarge);
    }
    let size: usize = (height as usize) * row;
    if vertically_flip {
        proof {
            assert((height - 1) * row <= height * row) by (nonlinear_arith)
                requires
                    height >= 1,
                    row >= 0,
            ;
            assert((height - 1) * row >= 0) by (nonlinear_arith)
                requires
                    height >= 1,
                    row >= 0,
            ;
        }
        let first: usize = ((height - 1) as usize) * row;
        Ok(PackedLayout { size, first, stride: -(row as i32) })
    } else {
        Ok(PackedLayout { size, first: 0, stride: row as i32 })
    }
}

/// Every row of a picture lies within its buffer: from the top down in the
/// order in which rows are written, from the bottom up in the opposite one.
pub proof fn packed_rows_fill_the_buffer(
    width: u32,
    height: u32,
    bytes_per_pixel: usize,
    vertically_flip: bool,
    row: int,
)
    requires
        height * (width * bytes_per_pixel) <= usize::MAX,
        packed_layout_of(width, height, bytes_per_pixel, vertically_flip) is Ok,
        0 <= row < height,
    ensures
        ({
            let layout = packed_layout_of(width, height, bytes_per_pixel, vertically_flip)->Ok_0;
            let bytes = width * bytes_per_pixel;
            &&& row_start(layout, row) == (if vertically_flip {
                (height - 1 - row) * bytes
            } else {
                row * bytes
            })
            &&& 0 <= row_start(layout, row)
            &&& row_start(layout, row) + bytes <= layout.size
        }),
{
    let bytes = width * bytes_per_pixel;
    assert(bytes >= 0) by (nonlinear_arith)
        requires
            bytes == width * bytes_per_pixel,
            width >= 0,
            bytes_per_pixel >= 0,
    ;
    let h = height as int;
    assert((h - 1) * bytes <= h * bytes && (h - 1) * bytes >= 0) by (nonlinear_arith)
        requires
            h >= 1,
            bytes >= 0,
    ;
    assert((h - 1) * bytes + row * -bytes == (h - 1 - row) * bytes) by (nonlinear_arith);
    assert(0 <= (h - 1 - row) * bytes && (h - 1 - row) * bytes + bytes <= h * bytes && 0 <= row
        * bytes && row * bytes + bytes <= h * bytes) by (nonlinear_arith)
        requires
            0 <= row < h,
            bytes >= 0,
    ;
    assert(h * bytes >= 0) by (nonlinear_arith)
        requires
            h >= 1,
            bytes >= 0,
    ;
}

/// The number that four bytes stand for, the lowest first.
pub open spec fn le_word(data: Seq<u8>, at: int) -> u32 {
    (data[at] + data[at + 1] * 0x100 + data[at + 2] * 0x1_0000 + data[at + 3] * 0x100_0000) as u32
}

/// The samples of a row of a plane, each as the number of its four bytes.
pub fn plane_row(data: &Vec<u8>, stride: usize, row: usize, width: usize) -> (res: Vec<u32>)
    requires
        row * stride + width * 4 <= data.len(),
    ensures
        res@ == Seq::new(width as nat, |x: int| le_word(data@, row * stride + x * 4)),
{
    proof {
        assert(row * stride >= 0) by (nonlinear_arith)
            requires
                row >= 0,
                stride >= 0,
        ;
    }
    let start: usize = row * stride;
    let mut res: Vec<u32> = Vec::new();
    for x in 0..width
        invariant
            start == row * stride,
            start + width * 4 <= data.len(),
            res@ == Seq::new(x as nat, |x: int| le_word(data@, row * stride + x * 4)),
    {
        let at: usize = start + x * 4;
        let word: u32 = (data[at] as u32) + (data[at + 1] as u32) * 0x100 + (data[at + 2] as u32)
            * 0x1_0000 + (data[at + 3] as u32) * 0x100_0000;
        res.push(word);
        proof {
            assert(res@ =~= Seq::new((x + 1) as nat, |x: int| le_word(data@, row * stride + x * 4)));
        }
    }
    res
}

/// The half-precision bit pattern of one.
pub const HALF_ONE: u16 = 0x3c00;

/// The eight bytes of an opaque pixel: red, green, blue and alpha as
/// half-precision bit patterns, the low byte of each first.
pub open spec fn hf64_pixel(r: u16, g: u16, b: u16) -> Seq<u8> {
    seq![
        (r % 0x100) as u8,
        (r / 0x100) as u8,
        (g % 0x100) as u8,
        (g / 0x100) as u8,
        (b % 0x100) as u8,
        (b / 0x100) as u8,
        (HALF_ONE % 0x100) as u8,
        (HALF_ONE / 0x100) as u8,
    ]
}

/// The bytes of a row of opaque pixels.
pub open spec fn hf64_pixels(r: Seq<u16>, g: Seq<u16>, b: Seq<u16>) -> Seq<u8>
    decreases r.len(),
{
    if r.len() == 0 {
        seq![]
    } else {
        hf64_pixels(r.drop_last(), g.drop_last(), b.drop_last()) + hf64_pixel(
            r.last(),
            g.last(),
            b.last(),
        )
    }
}

/// The bytes of a row of opaque pixels, from the half-precision bit patterns of
/// their colours.
pub fn hf64_row(r: &Vec<u16>, g: &Vec<u16>, b: &Vec<u16>) -> (res: Vec<u8>)
    requires
        g.len() == r.len(),
        b.len() == r.len(),
    ensures
        res@ == hf64_pixels(r@, g@, b@),
{
    let mut res: Vec<u8> = Vec::new();
    let n: usize = r.len();
    for x in 0..n
        invariant
            n == r.len() == g.len() == b.len(),
            res@ == hf64_pixels(r@.take(x as int), g@.take(x as int), b@.take(x as int)),
    {
        proof {
            assert(r@.take(x + 1).drop_last() =~= r@.take(x as int));
            assert(g@.take(x + 1).drop_last() =~= g@.take(x as int));
            assert(b@.take(x + 1).drop_last() =~= b@.take(x as int));
        }
        let ghost before = res@;
        res.push((r[x] % 0x100) as u8);
        res.push((r[x] / 0x100) as u8);
        res.push((g[x] % 0x100) as u8);
        res.push((g[x] / 0x100) as u8);
        res.push((b[x] % 0x100) as u8);
        res.push((b[x] / 0x100) as u8);
        res.push((HALF_ONE % 0x100) as u8);
        res.push((HALF_ONE / 0x100) as u8);
        proof {
            assert(res@ =~= before + hf64_pixel(r[x as int], g[x as int], b[x as int]));
        }
    }
    proof {
        assert(r@.take(n as int) =~= r@);
        assert(g@.take(n as int) =~= g@);
        assert(b@.take(n as int) =~= b@);
    }
    res
}

/// A row of pixels takes eight bytes for each, and the pixel at a place takes
/// the eight bytes from eight times that place on.
pub proof fn hf64_pixel_stands_at_its_place(r: Seq<u16>, g: Seq<u16>, b: Seq<u16>, x: int)
    requires
        g.len() == r.len(),
        b.len() == r.len(),
        0 <= x < r.len(),
    ensures
        hf64_pixels(r, g, b).len() == 8 * r.len(),
        hf64_pixels(r, g, b).subrange(8 * x, 8 * x + 8) == hf64_pixel(r[x], g[x], b[x]),
    decreases r.len(),
{
    let before = hf64_pixels(r.drop_last(), g.drop_last(), b.drop_last());
    let all = hf64_pixels(r, g, b);
    let n = r.len() - 1;
    if n > 0 {
        hf64_pixel_stands_at_its_place(
            r.drop_last(),
            g.drop_last(),
            b.drop_last(),
            if x < n {
                x
            } else {
                0
            },
        );
    }
    assert(before.len() == 8 * n);
    if x < n {
        assert(all.subrange(8 * x, 8 * x + 8) =~= before.subrange(8 * x, 8 * x + 8));
    } else {
        assert(all.subrange(8 * x, 8 * x + 8) =~= hf64_pixel(r[x], g[x], b[x]));
    }
}

/// The bytes that a picture of planes takes once they are interleaved, or its
/// format where that is none of planes.
pub fn hf64_size(format: PixelFormat, width: u32, height: u32) -> (res: Result<usize, PixelFormat>)
    requires
        format is Gbrpf32Le ==> height * width * 8 <= usize::MAX,
    ensures
        format is Gbrpf32Le ==> res == Ok::<usize, PixelFormat>((height * width * 8) as usize),
        !(format is Gbrpf32Le) ==> res == Err::<usize, PixelFormat>(format),
{
    match format {
        PixelFormat::Gbrpf32Le => {
            proof {
                assert(0 <= height * width) by (nonlinear_arith)
                    requires
                        height >= 0,
                        width >= 0,
                ;
            }
            Ok((height as usize) * (width as usize) * 8)
        },
        _ => Err(format),
    }
}

/// The filters that turn high dynamic range into linear planes.
pub const HDR_FILTER_CHAIN: &'static str =
    "zscale=transfer=linear:range=full:rangein=full,format=pix_fmts=gbrpf32le";

/// What the source of a filter graph is told of the frames that it gets. The
/// pixel format is the number by which FFmpeg knows it.
pub open spec fn filter_source_text(
    width: u32,
    height: u32,
    pixel_format: i32,
    numerator: i32,
    denominator: i32,
) -> Seq<char> {
    "video_size="@ + decimal_of(width as nat) + "x"@ + decimal_of(height as nat) + ":pix_fmt="@
        + signed_decimal_of(pixel_format as int) + ":time_base="@ + signed_decimal_of(
        numerator as int,
    ) + "/"@ + signed_decimal_of(denominator as int) + ":pixel_aspect=1/1"@
}

/// What the source of a filter graph is told of the frames that it gets.
pub fn filter_source(
    width: u32,
    height: u32,
    pixel_format: i32,
    numerator: i32,
    denominator: i32,
) -> (res: String)
    ensures
        res@ == filter_source_text(width, height, pixel_format, numerator, denominator),
{
    let mut text: Vec<char> = chars_of("video_size=");
    extend(&mut text, &decimal(width as u64));
    extend(&mut text, &chars_of("x"));
    extend(&mut text, &decimal(height as u64));
    extend(&mut text, &chars_of(":pix_fmt="));
    extend(&mut text, &signed_decimal(pixel_format as i64));
    extend(&mut text, &chars_of(":time_base="));
    extend(&mut text, &signed_decimal(numerator as i64));
    extend(&mut text, &chars_of("/"));
    extend(&mut text, &signed_decimal(denominator as i64));
    extend(&mut text, &chars_of(":pixel_aspect=1/1"));
    string_of(&text)
}

} // verus!

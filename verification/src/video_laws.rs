//! What holds of decoding a video stream and of its pixels.
use vstd::prelude::*;

use crate::config::HwAccel;
use crate::index::VideoOutputFormat;
use crate::media::ColorRange;
use crate::timestamp::Timestamp;
use crate::video::{
    at_beginning, candidates_of, conversion_done, decoded, hf64_pixel, le_word, matrix_of,
    next_conversion, packed_layout_of, range_of, scaled_format_of, seek_needed, supported_of,
    with_bytes, Clock, ConversionStep, DecodeEvent, FrameInfo, HwDevice, LayoutError,
    VideoDecoderState,
};

verus! {

/// No time of a frame lies before the time before every frame.
pub proof fn nothing_lies_before_the_beginning(time: Timestamp)
    requires
        time.wf(),
    ensures
        at_beginning().now.key <= time.key,
        at_beginning().before.key <= time.key,
        at_beginning().after.key <= time.key,
{
}

/// Four reasons make a seek needed, and nothing else does: the frame lies back in
/// time, no frame was shown yet, the frame has a lower number than the one shown, or
/// it lies more than ten frames ahead and its keyframe ahead of the clock.
pub proof fn seek_has_a_reason(
    current: Option<usize>,
    clock: Clock,
    target_frame: usize,
    target: Timestamp,
    keyframe: Timestamp,
)
    ensures
        target.key < clock.before.key ==> seek_needed(
            current,
            clock,
            target_frame,
            target,
            keyframe,
        ),
        current is None ==> seek_needed(current, clock, target_frame, target, keyframe),
        current matches Some(shown) ==> target_frame < shown ==> seek_needed(
            current,
            clock,
            target_frame,
            target,
            keyframe,
        ),
        current matches Some(shown) ==> target_frame - shown > 10 && keyframe.key > clock.after.key
            ==> seek_needed(current, clock, target_frame, target, keyframe),
        current matches Some(shown) ==> target.key >= clock.before.key && shown <= target_frame && (
        target_frame - shown <= 10 || keyframe.key <= clock.after.key) ==> !seek_needed(
            current,
            clock,
            target_frame,
            target,
            keyframe,
        ),
{
}

/// On the way to a time: packets of other streams are passed over; a packet that
/// the decoder took asks for a frame; the first frame that is not early is the one
/// delivered, and its time is that of the clock; frames before it are passed over.
pub proof fn first_frame_in_time_is_delivered(
    stream: usize,
    clock: Clock,
    target: Clock,
    event: DecodeEvent,
)
    ensures
        ({
            let (after, action) = decoded(stream, clock, target, event);
            &&& event matches DecodeEvent::Packet(of) ==> {
                &&& of == stream ==> action is SendPacket
                &&& of != stream ==> action is ReadPacket
                &&& after == clock
            }
            &&& event matches DecodeEvent::Sent(taken) ==> {
                &&& taken ==> action is ReceiveFrame
                &&& !taken ==> action is ReadPacket
                &&& after == clock
            }
            &&& event matches DecodeEvent::Received(Some(frame)) ==> {
                &&& after == frame
                &&& frame.now.key >= target.before.key ==> action is Deliver
                &&& frame.now.key < target.before.key ==> action is ReceiveFrame
            }
            &&& event matches DecodeEvent::Received(None) ==> action is ReadPacket && after == clock
        }),
{
}

/// At the end of the input the decoder is drained where the clock has not reached
/// the target. No frame is found exactly where nothing came out of it then, and a
/// frame that did come out is taken for the one at the target.
pub proof fn input_ends_in_a_frame_or_none(
    stream: usize,
    clock: Clock,
    target: Clock,
    event: DecodeEvent,
)
    ensures
        ({
            let (after, action) = decoded(stream, clock, target, event);
            &&& action is Drain <==> event is Ended && clock.now.key < target.before.key
            &&& event is Ended && clock.now.key >= target.before.key ==> action is Deliver
            &&& event is Ended ==> after == clock
            &&& action is NotFound <==> event == DecodeEvent::Drained(false)
            &&& event == DecodeEvent::Drained(true) ==> action is Deliver && after == target
            &&& event == DecodeEvent::Drained(false) ==> after == clock
        }),
{
}

/// The devices on which a context is tried are those of the setting with which the
/// codec works, in the order of the setting.
pub proof fn attempts_are_the_supported_candidates(
    candidates: Seq<HwDevice>,
    configurations: Seq<HwDevice>,
)
    ensures
        supported_of(candidates, configurations) == candidates.filter(
            |d: HwDevice| configurations.contains(d),
        ),
    decreases candidates.len(),
{
    reveal(Seq::filter);
    if candidates.len() > 0 {
        attempts_are_the_supported_candidates(candidates.drop_last(), configurations);
    }
    assert(supported_of(candidates, configurations) =~= candidates.filter(
        |d: HwDevice| configurations.contains(d),
    ));
}

/// A setting that names a device stands for it alone; none stands for the setting
/// that turns hardware off; and the automatic one tries the two devices of the
/// system, the newer first.
pub proof fn setting_stands_for_its_devices(hwaccel: HwAccel)
    ensures
        candidates_of(hwaccel).len() == 0 <==> hwaccel is Off,
        candidates_of(hwaccel).len() == 2 <==> hwaccel is Auto,
        candidates_of(hwaccel).len() <= 2,
        hwaccel is Auto || hwaccel is D3d11va ==> candidates_of(hwaccel)[0] is D3d11va,
        hwaccel is Auto ==> candidates_of(hwaccel)[1] is Dxva2,
        hwaccel is Dxva2 ==> candidates_of(hwaccel)[0] is Dxva2,
        hwaccel is Cuda ==> candidates_of(hwaccel)[0] is Cuda,
{
}

/// Frames that state the same matrix have the same one, whatever their size. One
/// that states none has that of high definition where it is as wide as 1280 or
/// higher than 576, and else that of standard definition.
pub proof fn stated_matrix_is_taken(frame: FrameInfo, other: FrameInfo)
    ensures
        frame.color_space == other.color_space && !(frame.color_space is Unspecified) ==> matrix_of(
            frame,
        ) == matrix_of(other),
        frame.color_space is Unspecified && (frame.width >= 1280 || frame.height >= 577)
            ==> matrix_of(frame) is Itu709,
        frame.color_space is Unspecified && frame.width <= 1279 && frame.height <= 576
            ==> matrix_of(frame) is Itu601,
        frame.color_space is Bt709 ==> matrix_of(frame) is Itu709,
        matrix_of(frame) is Fcc <==> frame.color_space is Fcc,
        matrix_of(frame) is Smpte240m <==> frame.color_space is Smpte240m,
        matrix_of(frame) is Bt2020 <==> frame.color_space is Bt2020Ncl
            || frame.color_space is Bt2020Cl,
        frame.color_space is Bt470bg || frame.color_space is Smpte170m ==> matrix_of(
            frame,
        ) is Itu601,
        matrix_of(frame) is Standard <==> frame.color_space is Other,
{
}

/// High dynamic range goes through the filter exactly where it is also the output;
/// everything else goes through the scaler. Nothing is scaled before there is a
/// scaler, and nothing into colours before the scaler was told those of the frame.
pub proof fn frame_is_converted_with_its_own_colours(
    state: VideoDecoderState,
    frame: FrameInfo,
    output: VideoOutputFormat,
)
    ensures
        ({
            let step = next_conversion(state, frame, output);
            let filtered = output is Hf64 && (frame.transfer is Smpte2084
                || frame.transfer is AribStdB67);
            let told = state.cached_colorspace == Some(
                (matrix_of(frame), range_of(frame.color_range)),
            );
            &&& step is FilterHdr || step is BuildHdrFilter <==> filtered
            &&& step is FilterHdr ==> state.has_hdr_filter
            &&& step is BuildHdrFilter ==> !state.has_hdr_filter
            &&& step is MakeScaler <==> !filtered && !state.has_scaler
            &&& step matches ConversionStep::MakeScaler(format) ==> format == scaled_format_of(
                output,
            )
            &&& step is SetColorspace <==> !filtered && state.has_scaler && !(output is Yuy2)
                && !told
            &&& step matches ConversionStep::SetColorspace(matrix, range) ==> matrix == matrix_of(
                frame,
            ) && range == range_of(frame.color_range)
            &&& step is ScalePlanes ==> output is Hf64
            &&& step matches ConversionStep::ScalePacked(bytes, flip) ==> {
                &&& !(output is Hf64)
                &&& bytes == output.pixel_size()
                &&& flip <==> output is Bgra
            }
        }),
{
}

/// The range of a frame is the full one exactly where it states so.
pub proof fn full_range_is_stated(range: ColorRange)
    ensures
        range_of(range) == 1 <==> range is Jpeg,
        range_of(range) == 0 <==> !(range is Jpeg),
{
}

/// Frames are scaled into the pixel format of the output: packed luma and chroma,
/// packed colours, or planes of colours.
pub proof fn scaled_formats_are_those_of_the_output(output: VideoOutputFormat)
    ensures
        scaled_format_of(output) is Yuyv422 <==> output is Yuy2,
        scaled_format_of(output) is Bgra <==> output is Bgra,
        scaled_format_of(output) is Gbrpf32Le <==> output is Hf64,
        output.pixel_size() == (if output is Yuy2 {
            2int
        } else if output is Bgra {
            4
        } else {
            8
        }),
{
}

/// A step of a conversion that succeeded is not asked for again, and changes
/// nothing else.
pub proof fn done_step_is_noted(state: VideoDecoderState, step: ConversionStep)
    ensures
        ({
            let after = conversion_done(state, step);
            &&& after.has_hdr_filter <==> state.has_hdr_filter || step is BuildHdrFilter
            &&& after.has_scaler <==> state.has_scaler || step is MakeScaler
            &&& step matches ConversionStep::SetColorspace(matrix, range)
                ==> after.cached_colorspace == Some((matrix, range))
            &&& !(step is SetColorspace) ==> after.cached_colorspace == state.cached_colorspace
            &&& after.stream_index == state.stream_index
            &&& after.clock == state.clock
            &&& after.is_hw == state.is_hw
            &&& after.output_buffer == state.output_buffer
            &&& after.output_frame_index == state.output_frame_index
            &&& after.shown_frame_index == state.shown_frame_index
        }),
{
}

/// The frame whose bytes are kept is also the one that was shown last.
pub proof fn kept_frame_was_shown(state: VideoDecoderState, output: Vec<u8>, frame_index: usize)
    ensures
        ({
            let after = with_bytes(state, output, frame_index);
            &&& after.output_buffer == output
            &&& after.output_frame_index == Some(frame_index)
            &&& after.shown_frame_index == Some(frame_index)
            &&& after.clock == state.clock
            &&& after.stream_index == state.stream_index
            &&& after.is_hw == state.is_hw
            &&& after.has_scaler == state.has_scaler
            &&& after.has_hdr_filter == state.has_hdr_filter
            &&& after.cached_colorspace == state.cached_colorspace
        }),
{
}

/// A picture has a layout exactly where it has pixels and its rows are no longer
/// than a stride can tell; it takes the bytes of all of its rows, and the rows follow
/// each other without a gap, in the one direction or the other.
pub proof fn picture_has_a_layout(width: u32, height: u32, bytes_per_pixel: usize, flip: bool)
    requires
        height * (width * bytes_per_pixel) <= usize::MAX,
    ensures
        ({
            let res = packed_layout_of(width, height, bytes_per_pixel, flip);
            let row = width * bytes_per_pixel;
            &&& res == Err::<crate::video::PackedLayout, LayoutError>(
                LayoutError::InvalidDimensions,
            ) <==> width == 0 || height == 0
            &&& res == Err::<crate::video::PackedLayout, LayoutError>(LayoutError::StrideTooLarge)
                <==> width > 0 && height > 0 && row > i32::MAX
            &&& res matches Ok(layout) ==> {
                &&& layout.size == height * row
                &&& flip ==> layout.stride == -row && layout.first + row == layout.size
                &&& !flip ==> layout.stride == row && layout.first == 0
            }
        }),
{
    let row = width * bytes_per_pixel;
    assert(row >= 0) by (nonlinear_arith)
        requires
            row == width * bytes_per_pixel,
            width >= 0,
            bytes_per_pixel >= 0,
    ;
    if height > 0 {
        assert((height - 1) * row == height * row - row) by (nonlinear_arith);
        assert((height - 1) * row >= 0) by (nonlinear_arith)
            requires
                height >= 1,
                row >= 0,
        ;
    }
    assert(height * row >= 0) by (nonlinear_arith)
        requires
            height >= 0,
            row >= 0,
    ;
}

/// Four bytes and the number that they stand for tell each other.
pub proof fn bytes_of_a_number(data: Seq<u8>, at: int)
    ensures
        le_word(data, at) % 0x100 == data[at],
        (le_word(data, at) / 0x100) % 0x100 == data[at + 1],
        (le_word(data, at) / 0x1_0000) % 0x100 == data[at + 2],
        le_word(data, at) / 0x100_0000 == data[at + 3],
{
}

/// The bytes of a pixel give back its red, its green and its blue, in that order
/// and the low byte of each first; the pixel is opaque.
pub proof fn bytes_of_a_pixel(r: u16, g: u16, b: u16)
    ensures
        ({
            let bytes = hf64_pixel(r, g, b);
            &&& bytes.len() == 8
            &&& bytes[0] + 0x100 * bytes[1] == r
            &&& bytes[2] + 0x100 * bytes[3] == g
            &&& bytes[4] + 0x100 * bytes[5] == b
            &&& bytes[6] + 0x100 * bytes[7] == 0x3c00
        }),
{
}

} // verus!

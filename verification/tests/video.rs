use ffmpeg_aui2::config::HwAccel;
use ffmpeg_aui2::index::VideoOutputFormat;
use ffmpeg_aui2::media::{ColorRange, ColorSpace, PixelFormat, TransferCharacteristic};
use ffmpeg_aui2::timestamp::Timestamp;
use ffmpeg_aui2::video::{
    codec_supports_hwaccel, filter_source, hf64_row, hf64_size, hwaccel_attempts, hwaccel_candidates,
    packed_layout, plane_row, scaled_format, should_seek_video, swscale_colorspace, swscale_range,
    threading_kind, Clock, ConversionStep, DecodeAction, DecodeEvent, FrameInfo, HwDevice,
    LayoutError, ScalerMatrix, Threading, VideoDecoderState,
};

fn at(seconds: f64) -> Timestamp {
    Timestamp::from_bits(seconds.to_bits()).unwrap()
}

fn clock(seconds: f64) -> Clock {
    Clock { now: at(seconds), before: at(seconds - 1e-6), after: at(seconds + 1e-6) }
}

fn should_seek(
    current: Option<usize>,
    current_ts: f64,
    target: usize,
    target_ts: f64,
    keyframe_ts: f64,
) -> bool {
    should_seek_video(current, clock(current_ts), target, at(target_ts), at(keyframe_ts))
}

#[test]
fn seek_decision_matches_lwlibav_forward_threshold() {
    assert!(should_seek(None, f64::NEG_INFINITY, 0, 0.0, 0.0));
    assert!(!should_seek(Some(20), 2.0, 20, 2.0, 2.0));
    assert!(should_seek(Some(20), 2.0, 19, 2.0, 1.0));
    assert!(!should_seek(Some(20), 2.0, 30, 3.0, 2.5));
    assert!(!should_seek(Some(20), 2.0, 31, 3.1, 1.0));
    assert!(should_seek(Some(20), 2.0, 31, 3.1, 2.5));
}

#[test]
fn packed_rows_are_flipped() {
    let width = 4;
    let height = 2;
    let bytes_per_row = 16usize;
    let rows = [vec![0x11u8; bytes_per_row], vec![0x22u8; bytes_per_row]];
    let layout = packed_layout(width, height, 4, true).unwrap();
    let mut output = vec![0u8; layout.size];
    for (y, row) in rows.iter().enumerate() {
        let start = (layout.first as i64 + y as i64 * layout.stride as i64) as usize;
        output[start..start + bytes_per_row].copy_from_slice(row);
    }
    assert_eq!(output[..bytes_per_row], rows[1]);
    assert_eq!(output[bytes_per_row..], rows[0]);
}

#[test]
fn layouts_are_exact() {
    let layout = packed_layout(3, 2, 2, false).unwrap();
    assert_eq!((layout.size, layout.first, layout.stride), (12, 0, 6));
    let layout = packed_layout(3, 2, 4, true).unwrap();
    assert_eq!((layout.size, layout.first, layout.stride), (24, 12, -12));
    assert_eq!(packed_layout(0, 2, 4, true), Err(LayoutError::InvalidDimensions));
    assert_eq!(packed_layout(2, 0, 4, true), Err(LayoutError::InvalidDimensions));
    assert_eq!(packed_layout(u32::MAX, 1, 4, true), Err(LayoutError::StrideTooLarge));
    assert_eq!(packed_layout(0x1fff_ffff, 1, 4, false).unwrap().stride, 0x7fff_fffc);
}

#[test]
fn a_frame_back_in_time_is_sought() {
    assert!(should_seek(Some(20), 2.0, 21, 1.9, 1.0));
    assert!(!should_seek(Some(20), 2.0, 21, 1.9999999, 1.0));
    assert!(!should_seek(Some(20), 2.0, 20, 2.0, 9.0));
}

#[test]
fn decoding_goes_on_up_to_the_target() {
    let mut state = VideoDecoderState::new(3, false);
    let target = clock(1.0);
    assert_eq!(state.decode_to(target, DecodeEvent::Packet(2)), DecodeAction::ReadPacket);
    assert_eq!(state.decode_to(target, DecodeEvent::Packet(3)), DecodeAction::SendPacket);
    assert_eq!(state.decode_to(target, DecodeEvent::Sent(false)), DecodeAction::ReadPacket);
    assert_eq!(state.decode_to(target, DecodeEvent::Sent(true)), DecodeAction::ReceiveFrame);
    assert_eq!(
        state.decode_to(target, DecodeEvent::Received(Some(clock(0.5)))),
        DecodeAction::ReceiveFrame
    );
    assert_eq!(state.clock, clock(0.5));
    assert_eq!(state.decode_to(target, DecodeEvent::Received(None)), DecodeAction::ReadPacket);
    assert_eq!(
        state.decode_to(target, DecodeEvent::Received(Some(clock(0.9999995)))),
        DecodeAction::Deliver
    );
    assert_eq!(state.decode_to(target, DecodeEvent::Ended), DecodeAction::Deliver);
    state.seek();
    assert_eq!(state.clock, clock(f64::NEG_INFINITY));
    assert_eq!(state.decode_to(target, DecodeEvent::Ended), DecodeAction::Drain);
    assert_eq!(state.decode_to(target, DecodeEvent::Drained(false)), DecodeAction::NotFound);
    assert_eq!(state.decode_to(target, DecodeEvent::Drained(true)), DecodeAction::Deliver);
    assert_eq!(state.clock, target);
}

fn frame(color_space: ColorSpace, width: u32, height: u32) -> FrameInfo {
    FrameInfo {
        width,
        height,
        format: PixelFormat::Yuv420p,
        transfer: TransferCharacteristic::Other,
        color_space,
        color_range: ColorRange::Mpeg,
    }
}

#[test]
fn matrices_and_ranges() {
    let matrix = |space| swscale_colorspace(frame(space, 640, 480));
    assert_eq!(matrix(ColorSpace::Bt709), ScalerMatrix::Itu709);
    assert_eq!(matrix(ColorSpace::Fcc), ScalerMatrix::Fcc);
    assert_eq!(matrix(ColorSpace::Smpte240m), ScalerMatrix::Smpte240m);
    assert_eq!(matrix(ColorSpace::Bt2020Ncl), ScalerMatrix::Bt2020);
    assert_eq!(matrix(ColorSpace::Bt2020Cl), ScalerMatrix::Bt2020);
    assert_eq!(matrix(ColorSpace::Bt470bg), ScalerMatrix::Itu601);
    assert_eq!(matrix(ColorSpace::Smpte170m), ScalerMatrix::Itu601);
    assert_eq!(matrix(ColorSpace::Other), ScalerMatrix::Standard);
    let sized = |width, height| swscale_colorspace(frame(ColorSpace::Unspecified, width, height));
    assert_eq!(sized(1279, 576), ScalerMatrix::Itu601);
    assert_eq!(sized(1280, 1), ScalerMatrix::Itu709);
    assert_eq!(sized(1, 577), ScalerMatrix::Itu709);
    assert_eq!(swscale_range(ColorRange::Jpeg), 1);
    assert_eq!(swscale_range(ColorRange::Mpeg), 0);
    assert_eq!(swscale_range(ColorRange::Unspecified), 0);
    assert_eq!(scaled_format(VideoOutputFormat::Yuy2), PixelFormat::Yuyv422);
    assert_eq!(scaled_format(VideoOutputFormat::Bgra), PixelFormat::Bgra);
    assert_eq!(scaled_format(VideoOutputFormat::Hf64), PixelFormat::Gbrpf32Le);
}

fn steps(state: &mut VideoDecoderState, info: FrameInfo, output: VideoOutputFormat) -> Vec<ConversionStep> {
    let mut found = Vec::new();
    loop {
        let step = state.next_conversion(info, output);
        found.push(step);
        match step {
            ConversionStep::FilterHdr
            | ConversionStep::ScalePacked(_, _)
            | ConversionStep::ScalePlanes => return found,
            _ => state.conversion_done(step),
        }
    }
}

#[test]
fn conversions_prepare_themselves_once() {
    let info = frame(ColorSpace::Bt709, 64, 64);
    let mut state = VideoDecoderState::new(0, false);
    assert_eq!(
        steps(&mut state, info, VideoOutputFormat::Bgra),
        vec![
            ConversionStep::MakeScaler(PixelFormat::Bgra),
            ConversionStep::SetColorspace(ScalerMatrix::Itu709, 0),
            ConversionStep::ScalePacked(4, true),
        ]
    );
    assert_eq!(
        steps(&mut state, info, VideoOutputFormat::Bgra),
        vec![ConversionStep::ScalePacked(4, true)]
    );
    let full = FrameInfo { color_range: ColorRange::Jpeg, ..info };
    assert_eq!(
        steps(&mut state, full, VideoOutputFormat::Bgra),
        vec![
            ConversionStep::SetColorspace(ScalerMatrix::Itu709, 1),
            ConversionStep::ScalePacked(4, true),
        ]
    );
    let mut state = VideoDecoderState::new(0, false);
    assert_eq!(
        steps(&mut state, info, VideoOutputFormat::Yuy2),
        vec![
            ConversionStep::MakeScaler(PixelFormat::Yuyv422),
            ConversionStep::ScalePacked(2, false),
        ]
    );
    let hdr = FrameInfo { transfer: TransferCharacteristic::Smpte2084, ..info };
    let mut state = VideoDecoderState::new(0, false);
    assert_eq!(
        steps(&mut state, hdr, VideoOutputFormat::Hf64),
        vec![ConversionStep::BuildHdrFilter, ConversionStep::FilterHdr]
    );
    assert_eq!(steps(&mut state, hdr, VideoOutputFormat::Hf64), vec![ConversionStep::FilterHdr]);
    assert_eq!(
        steps(&mut state, info, VideoOutputFormat::Hf64),
        vec![
            ConversionStep::MakeScaler(PixelFormat::Gbrpf32Le),
            ConversionStep::SetColorspace(ScalerMatrix::Itu709, 0),
            ConversionStep::ScalePlanes,
        ]
    );
}

#[test]
fn bytes_of_the_last_frame_are_kept() {
    let mut state = VideoDecoderState::new(0, true);
    assert!(state.is_hw);
    assert_eq!(state.cached_frame_bytes(0), None);
    assert!(state.should_seek_to(0, at(0.0), at(0.0)));
    assert_eq!(state.take_output(), Vec::<u8>::new());
    state.frame_to_bytes_buffered(vec![1, 2], 5);
    assert_eq!(state.cached_frame_bytes(5), Some(&vec![1, 2]));
    assert_eq!(state.cached_frame_bytes(4), None);
    state.seek();
    assert_eq!(state.cached_frame_bytes(5), Some(&vec![1, 2]));
    assert!(!state.should_seek_to(5, at(0.0), at(0.0)));
    assert_eq!(state.take_output(), vec![1, 2]);
    assert_eq!(state.cached_frame_bytes(5), None);
    assert_eq!(state.cached_frame_bytes(6), None);
    assert!(!state.should_seek_to(5, at(0.0), at(0.0)));
    state.frame_to_bytes_buffered(vec![3], 6);
    assert_eq!(state.cached_frame_bytes(5), None);
    assert_eq!(state.cached_frame_bytes(6), Some(&vec![3]));
}

#[test]
fn hardware_is_tried_in_order() {
    assert_eq!(hwaccel_candidates(HwAccel::Off), vec![]);
    assert_eq!(hwaccel_candidates(HwAccel::Auto), vec![HwDevice::D3d11va, HwDevice::Dxva2]);
    assert_eq!(hwaccel_candidates(HwAccel::D3d11va), vec![HwDevice::D3d11va]);
    assert_eq!(hwaccel_candidates(HwAccel::Dxva2), vec![HwDevice::Dxva2]);
    assert_eq!(hwaccel_candidates(HwAccel::Cuda), vec![HwDevice::Cuda]);
    let known = vec![HwDevice::Other, HwDevice::Dxva2, HwDevice::D3d11va];
    assert!(codec_supports_hwaccel(&known, HwDevice::Dxva2));
    assert!(!codec_supports_hwaccel(&known, HwDevice::Cuda));
    assert_eq!(
        hwaccel_attempts(HwAccel::Auto, &known),
        vec![HwDevice::D3d11va, HwDevice::Dxva2]
    );
    assert_eq!(hwaccel_attempts(HwAccel::Auto, &vec![HwDevice::Dxva2]), vec![HwDevice::Dxva2]);
    assert_eq!(hwaccel_attempts(HwAccel::Cuda, &known), vec![]);
    assert_eq!(threading_kind(true, true), Threading::Frame);
    assert_eq!(threading_kind(false, true), Threading::Slice);
    assert_eq!(threading_kind(false, false), Threading::Single);
}

#[test]
fn planes_are_interleaved() {
    let mut data = vec![0u8; 24];
    data[12..16].copy_from_slice(&1.5f32.to_le_bytes());
    data[16..20].copy_from_slice(&(-2.0f32).to_le_bytes());
    assert_eq!(plane_row(&data, 12, 1, 2), vec![1.5f32.to_bits(), (-2.0f32).to_bits()]);
    assert_eq!(
        hf64_row(&vec![0x3c01, 1], &vec![0x4002, 2], &vec![0x4403, 3]),
        vec![
            0x01, 0x3c, 0x02, 0x40, 0x03, 0x44, 0x00, 0x3c, 1, 0, 2, 0, 3, 0, 0x00, 0x3c,
        ]
    );
    assert_eq!(hf64_size(PixelFormat::Gbrpf32Le, 3, 2), Ok(48));
    assert_eq!(hf64_size(PixelFormat::Bgra, 3, 2), Err(PixelFormat::Bgra));
}

#[test]
fn filter_sources_are_described() {
    assert_eq!(
        filter_source(1920, 1080, 62, 1, 90000),
        "video_size=1920x1080:pix_fmt=62:time_base=1/90000:pixel_aspect=1/1"
    );
    assert_eq!(
        filter_source(0, 7, -1, -1001, i32::MIN),
        "video_size=0x7:pix_fmt=-1:time_base=-1001/-2147483648:pixel_aspect=1/1"
    );
}

//! What holds of an input plugin.
use vstd::prelude::*;

use crate::plugin::{
    answered, digest_of, image_size_of, input_error, normal_path_of, rows_of, BitmapHeader,
    ImageSizeError, InputError, InputInfoValues, TrackStep,
};

verus! {

/// The tracks of an input are chosen exactly where it has a video track, the
/// number of its audio tracks is known, the first video track can be chosen, and so
/// can the first audio track where there is one.
pub proof fn first_tracks_are_chosen(videos: i32, audios: i32, video: i32, audio: i32)
    ensures
        answered(TrackStep::CountVideo, videos) == Ok::<TrackStep, InputError>(
            TrackStep::CountAudio,
        ) <==> videos >= 1,
        answered(TrackStep::CountVideo, videos) == Err::<TrackStep, InputError>(
            InputError::NoVideoTrack,
        ) <==> videos <= 0,
        answered(TrackStep::CountAudio, audios) == Ok::<TrackStep, InputError>(
            TrackStep::SelectVideo(audios),
        ) <==> audios >= 0,
        answered(TrackStep::CountAudio, audios) == Err::<TrackStep, InputError>(
            InputError::AudioTracksUnknown,
        ) <==> audios <= -1,
        answered(TrackStep::SelectVideo(audios), video) == Ok::<TrackStep, InputError>(
            TrackStep::SelectAudio,
        ) <==> video == 0 && audios >= 1,
        answered(TrackStep::SelectVideo(audios), video) == Ok::<TrackStep, InputError>(
            TrackStep::Done,
        ) <==> video == 0 && audios <= 0,
        answered(TrackStep::SelectVideo(audios), video) == Err::<TrackStep, InputError>(
            InputError::VideoTrackNotSelected,
        ) <==> video != 0,
        answered(TrackStep::SelectAudio, audio) == Ok::<TrackStep, InputError>(TrackStep::Done)
            <==> audio == 0,
        answered(TrackStep::SelectAudio, audio) == Err::<TrackStep, InputError>(
            InputError::AudioTrackNotSelected,
        ) <==> audio != 0,
{
}

/// Tracks are counted by asking for the track before the first, and chosen by
/// asking for the first; those of video are of the first kind, those of audio of the
/// second.
pub proof fn tracks_are_asked_for(audios: i32)
    ensures
        TrackStep::CountVideo.call_of()->0.track_type == 0,
        TrackStep::CountVideo.call_of()->0.track == -1,
        TrackStep::CountAudio.call_of()->0.track_type == 1,
        TrackStep::CountAudio.call_of()->0.track == -1,
        TrackStep::SelectVideo(audios).call_of()->0.track_type == 0,
        TrackStep::SelectVideo(audios).call_of()->0.track == 0,
        TrackStep::SelectAudio.call_of()->0.track_type == 1,
        TrackStep::SelectAudio.call_of()->0.track == 0,
        TrackStep::Done.call_of() is None,
{
}

/// A picture has as many rows whether it stands upside down or not.
pub proof fn rows_do_not_depend_on_the_direction(header: BitmapHeader, other: BitmapHeader)
    requires
        other.height == header.height || other.height == -header.height,
    ensures
        rows_of(header) == rows_of(other),
        header.height >= 0 ==> rows_of(header) == header.height,
        rows_of(header) >= 0,
{
}

/// A picture has the size that its header states, whatever else the header says.
/// One whose header states none has no size where its pixels have no bits or its
/// rows a negative length.
pub proof fn stated_size_is_taken(header: BitmapHeader)
    ensures
        header.size_image > 0 && header.size_image <= usize::MAX ==> image_size_of(header) == Ok::<
            usize,
            ImageSizeError,
        >(header.size_image as usize),
        header.size_image == 0 && header.bit_count == 0 ==> image_size_of(header) == Err::<
            usize,
            ImageSizeError,
        >(ImageSizeError::NoBitCount),
        header.size_image == 0 && header.bit_count > 0 && header.width < 0 ==> image_size_of(header)
            == Err::<usize, ImageSizeError>(ImageSizeError::NegativeWidth),
        header.size_image == 0 && header.bit_count > 0 && header.width == 0 ==> image_size_of(
            header,
        ) == Ok::<usize, ImageSizeError>(0),
{
    if header.size_image == 0 && header.bit_count > 0 && header.width == 0 {
        let rows = rows_of(header);
        assert(header.width * header.bit_count == 0) by (nonlinear_arith)
            requires
                header.width == 0,
        ;
        assert(0 * rows == 0);
    }
}

/// An input can be used exactly where it has video, its pictures have a format
/// with a width, a height and a size, it has frames, and its frame rate is positive.
pub proof fn input_can_be_used(info: InputInfoValues)
    ensures
        input_error(None) == Some(InputError::NoInfo),
        input_error(Some(info)) is None <==> {
            &&& info.flag & 1 != 0
            &&& info.format is Some
            &&& info.format->0.width >= 1
            &&& info.format->0.height != 0
            &&& info.frames >= 1
            &&& info.rate >= 1
            &&& info.scale >= 1
            &&& image_size_of(info.format->0) is Ok
        },
        input_error(Some(info)) == Some(InputError::NoVideoInfo) <==> info.flag & 1 == 0,
        input_error(Some(info)) == Some(InputError::NoFormat) <==> info.flag & 1 != 0
            && info.format is None,
        input_error(Some(info)) == Some(InputError::InvalidFrameRate) ==> info.rate <= 0
            || info.scale <= 0,
        input_error(Some(info)) == Some(InputError::NoFrames) ==> info.frames <= 0,
        input_error(Some(info)) == Some(InputError::InvalidWidth) ==> info.format->0.width <= 0,
        input_error(Some(info)) == Some(InputError::InvalidHeight) ==> info.format->0.height == 0,
{
}

/// The hash of no bytes is the offset of the 64-bit hash of Fowler, Noll and Vo;
/// one more byte is mixed into the hash of those before it, and the whole multiplied
/// by the prime of that hash.
pub proof fn each_byte_is_mixed_in(bytes: Seq<u8>, next: u8)
    ensures
        digest_of(seq![]) == 14_695_981_039_346_656_037,
        digest_of(bytes.push(next)) == (digest_of(bytes) ^ (next as u64)) * 1_099_511_628_211
            % 0x1_0000_0000_0000_0000,
{
    assert(bytes.push(next).drop_last() =~= bytes);
    let mixed = digest_of(bytes) ^ (next as u64);
    let product = mixed * 1_099_511_628_211;
    assert(0 <= product % 0x1_0000_0000_0000_0000 < 0x1_0000_0000_0000_0000);
}

/// A path behind the prefix that makes Windows take it as it is comes out without
/// that prefix; a network path behind it begins with two backslashes; and any other
/// path stays as it is.
pub proof fn prefix_is_taken_off(rest: Seq<u16>, path: Seq<u16>)
    ensures
        ({
            let verbatim = seq!['\\' as u16, '\\' as u16, '?' as u16, '\\' as u16];
            let network = seq!['U' as u16, 'N' as u16, 'C' as u16, '\\' as u16];
            &&& normal_path_of(verbatim + network + rest) == seq!['\\' as u16, '\\' as u16] + rest
            &&& !network.is_prefix_of(rest) ==> normal_path_of(verbatim + rest) == rest
            &&& !verbatim.is_prefix_of(path) ==> normal_path_of(path) == path
        }),
{
    let verbatim = seq!['\\' as u16, '\\' as u16, '?' as u16, '\\' as u16];
    let network = seq!['U' as u16, 'N' as u16, 'C' as u16, '\\' as u16];
    assert(verbatim =~= crate::plugin::verbatim_prefix());
    assert(network =~= crate::plugin::unc_prefix());
    let whole = verbatim + network + rest;
    assert(whole.take(4) =~= verbatim);
    assert(whole.skip(4) =~= network + rest);
    assert(whole.skip(4).take(4) =~= network);
    assert(whole.skip(8) =~= rest);
    let plain = verbatim + rest;
    assert(plain.take(4) =~= verbatim);
    assert(plain.skip(4) =~= rest);
    if rest.len() >= 4 && rest.take(4) == network {
        assert(network =~= rest.subrange(0, 4));
        assert(network.is_prefix_of(rest));
    }
    if path.len() >= 4 && path.take(4) == verbatim {
        assert(verbatim =~= path.subrange(0, 4));
        assert(verbatim.is_prefix_of(path));
    }
}

} // verus!

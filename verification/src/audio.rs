//! Decoding one audio stream into a buffer of interleaved samples.
//!
//! Samples are the 32-bit patterns of single-precision numbers.
use std::collections::VecDeque;

use vstd::prelude::*;

use crate::video::le_word;

verus! {

/// Decoded samples, interleaved by channel.
#[derive(Debug)]
pub struct BufferedAudio {
    /// The place of the first sample in the stream, counted per channel.
    pub start_sample: Option<usize>,
    pub samples: VecDeque<u32>,
}

impl BufferedAudio {
    /// A buffer without samples, at no place.
    pub fn new() -> (res: BufferedAudio)
        ensures
            res.start_sample is None,
            res.samples@ == Seq::<u32>::empty(),
    {
        BufferedAudio { start_sample: None, samples: VecDeque::new() }
    }
}

/// How the samples of a decoded frame lie.
#[derive(Debug, Clone, Copy, PartialEq, Eq, Structural)]
pub enum SampleFormat {
    /// Single precision, each channel by itself.
    F32Planar,
    /// Single precision, interleaved.
    F32Packed,
    Other,
}

/// How a decoded frame gets into the buffer.
#[derive(Debug, Clone, Copy, PartialEq, Eq, Structural)]
pub enum FrameRoute {
    Interleave,
    Copy,
    Resample,
}

/// How a decoded frame gets into the buffer: as it is where its format and the
/// number of its channels fit, else through the resampler.
pub fn frame_route(format: SampleFormat, frame_channels: usize, channels: usize) -> (res:
    FrameRoute)
    ensures
        res is Interleave <==> format is F32Planar && frame_channels == channels,
        res is Copy <==> format is F32Packed && frame_channels == channels,
{
    if frame_channels != channels {
        return FrameRoute::Resample;
    }
    match format {
        SampleFormat::F32Planar => FrameRoute::Interleave,
        SampleFormat::F32Packed => FrameRoute::Copy,
        SampleFormat::Other => FrameRoute::Resample,
    }
}

/// The samples of a decoded frame.
pub enum AudioFrame {
    /// The samples of each channel, of which so many count.
    Planar(Vec<Vec<u32>>, usize),
    /// Interleaved samples.
    Packed(Vec<u32>),
    /// The bytes of interleaved samples, of which so many count per channel.
    Resampled(Vec<u8>, usize),
}

/// The samples of each channel.
pub open spec fn plane_views(planes: Seq<Vec<u32>>) -> Seq<Seq<u32>> {
    planes.map_values(|plane: Vec<u32>| plane@)
}

/// The first samples of all channels, interleaved.
pub open spec fn interleaved(planes: Seq<Seq<u32>>, count: nat) -> Seq<u32>
    decreases count,
{
    if count == 0 {
        seq![]
    } else {
        interleaved(planes, (count - 1) as nat) + planes.map_values(
            |plane: Seq<u32>| plane[count - 1],
        )
    }
}

/// Interleaved samples stand in the order of time, and those of one moment in
/// the order of the channels.
pub proof fn interleaved_sample_stands_at_its_place(
    planes: Seq<Seq<u32>>,
    count: nat,
    moment: int,
    channel: int,
)
    requires
        0 <= moment < count,
        0 <= channel < planes.len(),
    ensures
        interleaved(planes, count).len() == count * planes.len(),
        0 <= moment * planes.len() + channel < count * planes.len(),
        interleaved(planes, count)[moment * planes.len() + channel] == planes[channel][moment],
    decreases count,
{
    let n = planes.len() as int;
    let before = (count - 1) as nat;
    interleaved_length(planes, before);
    assert(count * n == before * n + n) by (nonlinear_arith)
        requires
            before == count - 1,
    ;
    assert(0 <= moment * n && moment * n + channel < count * n) by (nonlinear_arith)
        requires
            0 <= moment < count,
            0 <= channel < n,
    ;
    if moment < before {
        interleaved_sample_stands_at_its_place(planes, before, moment, channel);
    } else {
        assert(moment == before);
    }
}

proof fn interleaved_length(planes: Seq<Seq<u32>>, count: nat)
    ensures
        interleaved(planes, count).len() == count * planes.len(),
    decreases count,
{
    let n = planes.len() as int;
    if count > 0 {
        let before = (count - 1) as nat;
        interleaved_length(planes, before);
        assert(count * n == before * n + n) by (nonlinear_arith)
            requires
                before == count - 1,
        ;
    } else {
        assert(0 * n == 0);
    }
}

/// The numbers that bytes stand for, four each, the lowest first.
pub open spec fn words(data: Seq<u8>, count: nat) -> Seq<u32> {
    Seq::new(count, |i: int| le_word(data, i * 4))
}

impl AudioFrame {
    /// The frame has as many samples as it claims.
    pub open spec fn wf(self, channels: usize) -> bool {
        match self {
            AudioFrame::Planar(planes, count) => {
                &&& planes@.len() == channels
                &&& forall|c: int| 0 <= c < channels ==> (#[trigger] planes@[c])@.len() >= count
            },
            AudioFrame::Packed(_) => true,
            AudioFrame::Resampled(data, count) => count * channels * 4 <= data@.len(),
        }
    }

    /// The samples of the frame, interleaved.
    pub open spec fn samples(self, channels: usize) -> Seq<u32> {
        match self {
            AudioFrame::Planar(planes, count) => interleaved(plane_views(planes@), count as nat),
            AudioFrame::Packed(samples) => samples@,
            AudioFrame::Resampled(data, count) => words(data@, (count * channels) as nat),
        }
    }
}

/// What happens while the buffer is filled.
pub enum FillEvent {
    /// The filling begins.
    Begin,
    /// The decoder gave a frame.
    Frame(AudioFrame),
    /// The decoder gives no more frames.
    DecoderEof,
    /// The decoder wants a packet first.
    DecoderHungry,
    /// The decoder failed.
    DecoderFailed,
    /// A packet of a stream was read.
    Packet(usize),
    /// The packet was handed to the decoder.
    PacketSent,
    /// There are no more packets.
    InputEof,
    /// The decoder was told so.
    EofSent,
}

/// What is to be done next to fill the buffer.
#[derive(Debug, Clone, Copy, PartialEq, Eq, Structural)]
pub enum FillAction {
    ReceiveFrame,
    ReadPacket,
    SendPacket,
    SendEof,
    Done,
    Fail,
}

/// What is known of a decoder of one audio stream.
#[derive(Debug)]
pub struct AudioDecoderState {
    pub stream_index: usize,
    pub channels: usize,
    pub buffer: BufferedAudio,
    /// Whether the decoder was told that the input has ended.
    pub decoder_eof_sent: bool,
}

/// What is known of a decoder of one audio stream.
#[verifier::ext_equal]
pub struct AudioModel {
    pub stream_index: usize,
    pub channels: usize,
    pub start: Option<usize>,
    pub samples: Seq<u32>,
    pub eof_sent: bool,
}

impl View for AudioDecoderState {
    type V = AudioModel;

    open spec fn view(&self) -> AudioModel {
        AudioModel {
            stream_index: self.stream_index,
            channels: self.channels,
            start: self.buffer.start_sample,
            samples: self.buffer.samples@,
            eof_sent: self.decoder_eof_sent,
        }
    }
}

impl AudioModel {
    /// There is a channel, and the place behind the buffer can be counted.
    pub open spec fn wf(self) -> bool {
        &&& self.channels > 0
        &&& self.end() <= usize::MAX
    }

    /// The samples per channel in the buffer.
    pub open spec fn count(self) -> int {
        self.samples.len() as int / self.channels as int
    }

    /// The place behind the buffer; one at no place ends at its number of samples.
    pub open spec fn end(self) -> int {
        match self.start {
            Some(start) => start + self.count(),
            None => self.count(),
        }
    }

    /// Whether the buffer reaches to a place.
    pub open spec fn reaches(self, place: int) -> bool {
        self.start is Some && self.end() >= place
    }

    /// The decoder after a seek: the buffer is empty and at no place.
    pub open spec fn sought(self) -> AudioModel {
        AudioModel { start: None, samples: seq![], eof_sent: false, ..self }
    }

    /// The decoder after a frame: its samples stand behind those in the buffer.
    /// An empty buffer that is at no place begins the stream.
    pub open spec fn received(self, samples: Seq<u32>) -> AudioModel {
        AudioModel {
            start: if self.samples.len() == 0 && self.start is None {
                Some(0)
            } else {
                self.start
            },
            samples: self.samples + samples,
            ..self
        }
    }

    /// The decoder after the samples before a place were dropped.
    pub open spec fn trimmed(self, place: int) -> AudioModel {
        match self.start {
            Some(start) => if place > start {
                let frames = if place - start < self.count() {
                    place - start
                } else {
                    self.count()
                };
                AudioModel {
                    start: Some((start + frames) as usize),
                    samples: self.samples.skip(frames * self.channels),
                    ..self
                }
            } else {
                self
            },
            None => self,
        }
    }
}

/// The decoder after an event while the buffer is filled up to a place, and
/// what is done next.
pub open spec fn filled(state: AudioModel, place: int, event: FillEvent) -> (
    AudioModel,
    FillAction,
) {
    let after = match event {
        FillEvent::Frame(frame) => state.received(frame.samples(state.channels)),
        FillEvent::EofSent => AudioModel { eof_sent: true, ..state },
        _ => state,
    };
    let action = match event {
        FillEvent::DecoderEof => FillAction::Done,
        FillEvent::DecoderHungry => FillAction::ReadPacket,
        FillEvent::DecoderFailed => FillAction::Fail,
        FillEvent::Packet(stream) => if stream == state.stream_index {
            FillAction::SendPacket
        } else {
            FillAction::ReadPacket
        },
        FillEvent::InputEof => if state.eof_sent {
            FillAction::Done
        } else {
            FillAction::SendEof
        },
        _ => if after.reaches(place) {
            FillAction::Done
        } else {
            FillAction::ReceiveFrame
        },
    };
    (after, action)
}

/// The filling ends well only where the buffer reaches to the place, the
/// decoder gives no more frames, or the input has ended and the decoder was told
/// so; it fails only where the decoder does. What is in the buffer stays.
pub proof fn filling_ends_for_a_reason(state: AudioModel, place: int, event: FillEvent)
    ensures
        ({
            let (after, action) = filled(state, place, event);
            &&& action is Done ==> after.reaches(place) || event is DecoderEof || (event is InputEof
                && state.eof_sent)
            &&& action is Fail <==> event is DecoderFailed
            &&& state.samples.is_prefix_of(after.samples)
            &&& state.start is Some ==> after.start == state.start
        }),
{
    let (after, action) = filled(state, place, event);
    assert(state.samples =~= after.samples.take(state.samples.len() as int));
}

fn push_planar(target: &mut VecDeque<u32>, planes: &Vec<Vec<u32>>, count: usize)
    requires
        forall|c: int| 0 <= c < planes.len() ==> (#[trigger] planes[c])@.len() >= count,
    ensures
        final(target)@ == old(target)@ + interleaved(plane_views(planes@), count as nat),
{
    let ghost before = target@;
    let ghost views = plane_views(planes@);
    let n: usize = planes.len();
    proof {
        assert(before + interleaved(views, 0) =~= before);
    }
    for i in 0..count
        invariant
            n == planes.len(),
            views == plane_views(planes@),
            forall|c: int| 0 <= c < planes.len() ==> (#[trigger] planes[c])@.len() >= count,
            target@ == before + interleaved(views, i as nat),
    {
        let ghost so_far = target@;
        let ghost row = views.map_values(|plane: Seq<u32>| plane[i as int]);
        for c in 0..n
            invariant
                n == planes.len(),
                i < count,
                views == plane_views(planes@),
                row == views.map_values(|plane: Seq<u32>| plane[i as int]),
                forall|c: int| 0 <= c < planes.len() ==> (#[trigger] planes[c])@.len() >= count,
                target@ == so_far + row.take(c as int),
        {
            proof {
                assert(row.take(c + 1) =~= row.take(c as int).push(planes[c as int][i as int]));
            }
            target.push_back(planes[c][i]);
        }
        proof {
            assert(row.take(n as int) =~= row);
            let count_next = (i + 1) as nat;
            assert(views.map_values(|plane: Seq<u32>| plane[count_next - 1]) =~= row);
            assert(target@ =~= before + interleaved(views, count_next));
        }
    }
}

fn push_all(target: &mut VecDeque<u32>, samples: &Vec<u32>)
    ensures
        final(target)@ == old(target)@ + samples@,
{
    let ghost before = target@;
    let n: usize = samples.len();
    for i in 0..n
        invariant
            n == samples.len(),
            target@ == before + samples@.take(i as int),
    {
        proof {
            assert(samples@.take(i + 1) =~= samples@.take(i as int).push(samples[i as int]));
        }
        target.push_back(samples[i]);
    }
    proof {
        assert(samples@.take(n as int) =~= samples@);
    }
}

fn push_words(target: &mut VecDeque<u32>, data: &Vec<u8>, count: usize)
    requires
        count * 4 <= data.len(),
    ensures
        final(target)@ == old(target)@ + words(data@, count as nat),
{
    let ghost before = target@;
    for i in 0..count
        invariant
            count * 4 <= data.len(),
            target@ == before + words(data@, i as nat),
    {
        let at: usize = i * 4;
        let word: u32 = (data[at] as u32) + (data[at + 1] as u32) * 0x100 + (data[at + 2] as u32)
            * 0x1_0000 + (data[at + 3] as u32) * 0x100_0000;
        target.push_back(word);
        proof {
            assert(words(data@, (i + 1) as nat) =~= words(data@, i as nat).push(word));
        }
    }
}

impl AudioDecoderState {
    /// A decoder that has decoded nothing yet.
    pub fn new(stream_index: usize, channels: usize) -> (res: AudioDecoderState)
        ensures
            res@ == (AudioModel {
                stream_index,
                channels,
                start: None,
                samples: seq![],
                eof_sent: false,
            }),
            channels > 0 ==> res@.wf(),
    {
        let res: AudioDecoderState = AudioDecoderState {
            stream_index,
            channels,
            buffer: BufferedAudio::new(),
            decoder_eof_sent: false,
        };
        proof {
            if channels > 0 {
                assert(0int / (channels as int) == 0) by (nonlinear_arith)
                    requires
                        channels > 0,
                ;
            }
        }
        res
    }

    /// Whether the buffer reaches to a place.
    fn reaches(&self, place: usize) -> (res: bool)
        requires
            self@.channels > 0,
        ensures
            res == self@.reaches(place as int),
    {
        match self.buffer.start_sample {
            None => false,
            Some(start) => {
                let count: usize = self.buffer.samples.len() / self.channels;
                (start as u128) + (count as u128) >= place as u128
            },
        }
    }

    /// Takes up what happened while the buffer is filled up to a place, and says
    /// what to do next.
    pub fn fill_until(&mut self, end_sample: usize, event: FillEvent) -> (res: FillAction)
        requires
            old(self)@.channels > 0,
            event matches FillEvent::Frame(frame) ==> frame.wf(old(self)@.channels),
        ensures
            (final(self)@, res) == filled(old(self)@, end_sample as int, event),
    {
        match event {
            FillEvent::Frame(frame) => {
                if self.buffer.samples.len() == 0 && self.buffer.start_sample.is_none() {
                    self.buffer.start_sample = Some(0);
                }
                match frame {
                    AudioFrame::Planar(planes, count) => {
                        push_planar(&mut self.buffer.samples, &planes, count);
                    },
                    AudioFrame::Packed(samples) => {
                        push_all(&mut self.buffer.samples, &samples);
                    },
                    AudioFrame::Resampled(data, count) => {
                        proof {
                            assert(count * self.channels * 4 <= data.len());
                            assert(count * self.channels >= 0) by (nonlinear_arith)
                                requires
                                    count >= 0,
                                    self.channels >= 0,
                            ;
                        }
                        push_words(&mut self.buffer.samples, &data, count * self.channels);
                    },
                }
            },
            FillEvent::EofSent => {
                self.decoder_eof_sent = true;
            },
            FillEvent::Begin => {},
            FillEvent::PacketSent => {},
            FillEvent::DecoderEof => {
                return FillAction::Done;
            },
            FillEvent::DecoderHungry => {
                return FillAction::ReadPacket;
            },
            FillEvent::DecoderFailed => {
                return FillAction::Fail;
            },
            FillEvent::Packet(stream) => {
                if stream == self.stream_index {
                    return FillAction::SendPacket;
                } else {
                    return FillAction::ReadPacket;
                }
            },
            FillEvent::InputEof => {
                if self.decoder_eof_sent {
                    return FillAction::Done;
                } else {
                    return FillAction::SendEof;
                }
            },
        }
        if self.reaches(end_sample) {
            FillAction::Done
        } else {
            FillAction::ReceiveFrame
        }
    }

    /// Drops the samples before a place.
    pub fn trim_before(&mut self, sample: usize)
        requires
            old(self)@.wf(),
        ensures
            final(self)@ == old(self)@.trimmed(sample as int),
            final(self)@.wf(),
    {
        if let Some(start) = self.buffer.start_sample {
            if sample > start {
                let count: usize = self.buffer.samples.len() / self.channels;
                let ahead: usize = sample - start;
                let frames: usize = if ahead < count {
                    ahead
                } else {
                    count
                };
                proof {
                    whole_frames_fit(self.buffer.samples@.len() as int, self.channels as int, frames as int);
                }
                let drop_count: usize = frames * self.channels;
                let rest: VecDeque<u32> = self.buffer.samples.split_off(drop_count);
                self.buffer.samples = rest;
                self.buffer.start_sample = Some(start + frames);
            }
        }
        proof {
            assert(self@ =~= old(self)@.trimmed(sample as int));
            trim_keeps_the_end(old(self)@, sample as int);
        }
    }

    /// Notes that the input was sought and the decoder flushed.
    pub fn seek(&mut self)
        ensures
            final(self)@ == old(self)@.sought(),
    {
        self.buffer.start_sample = None;
        self.buffer.samples.clear();
        self.decoder_eof_sent = false;
    }
}

/// Frames that the buffer holds take no more samples than it has.
pub(crate) proof fn whole_frames_fit(len: int, channels: int, frames: int)
    requires
        channels > 0,
        0 <= frames <= len / channels,
        len >= 0,
    ensures
        0 <= frames * channels <= len,
{
    assert(0 <= frames * channels <= (len / channels) * channels && (len / channels) * channels
        <= len) by (nonlinear_arith)
        requires
            channels > 0,
            0 <= frames <= len / channels,
            len >= 0,
    ;
}

/// Dropping samples from the front leaves the place behind the buffer where it was.
pub proof fn trim_keeps_the_end(state: AudioModel, place: int)
    requires
        state.wf(),
    ensures
        state.trimmed(place).end() == state.end(),
        state.trimmed(place).wf(),
{
    if let Some(start) = state.start {
        if place > start {
            let frames = if place - start < state.count() {
                place - start
            } else {
                state.count()
            };
            let len = state.samples.len() as int;
            let channels = state.channels as int;
            whole_frames_fit(len, channels, frames);
            assert((len - frames * channels) / channels == len / channels - frames)
                by (nonlinear_arith)
                requires
                    channels > 0,
            ;
        }
    }
}

/// What is done next while the buffer is filled. A packet goes to the decoder
/// exactly where it is one of its stream; a decoder that wants a packet gets one
/// read; and at the end of the input the decoder is told once.
pub proof fn filling_goes_on(state: AudioModel, place: int, event: FillEvent)
    ensures
        ({
            let (after, action) = filled(state, place, event);
            &&& action is SendPacket <==> (event matches FillEvent::Packet(stream) && stream
                == state.stream_index)
            &&& action is ReadPacket <==> event is DecoderHungry || (event matches
                FillEvent::Packet(stream) && stream != state.stream_index)
            &&& action is SendEof <==> event is InputEof && !state.eof_sent
            &&& after.eof_sent <==> state.eof_sent || event is EofSent
            &&& event is Begin || event is Frame || event is PacketSent || event is EofSent ==> (
            action is Done <==> after.start is Some && after.end() >= place)
            &&& action is ReceiveFrame ==> after.start is None || after.end() < place
            &&& !(event is Frame) ==> after.start == state.start && after.samples == state.samples
            &&& after.stream_index == state.stream_index
            &&& after.channels == state.channels
        }),
{
}

/// The samples of a frame stand behind those in the buffer, none lost and none
/// moved. The first samples of a buffer at no place are the first of the stream.
pub proof fn frame_stands_behind_the_buffer(state: AudioModel, place: int, frame: AudioFrame)
    ensures
        ({
            let after = filled(state, place, FillEvent::Frame(frame)).0;
            let new = frame.samples(state.channels);
            let had = state.samples.len() as int;
            &&& after.samples.len() == had + new.len()
            &&& forall|i: int| 0 <= i < had ==> #[trigger] after.samples[i] == state.samples[i]
            &&& forall|i: int| 0 <= i < new.len() ==> #[trigger] after.samples[had + i] == new[i]
            &&& state.start is Some ==> after.start == state.start
            &&& state.start is None && had == 0 ==> after.start == Some(0usize)
            &&& state.start is None && had > 0 ==> after.start is None
        }),
{
    let new = frame.samples(state.channels);
    let had = state.samples.len() as int;
    let after = filled(state, place, FillEvent::Frame(frame)).0;
    assert forall|i: int| 0 <= i < new.len() implies #[trigger] after.samples[had + i] == new[i] by {}
}

/// A resampled frame has the samples that four bytes each stand for, the lowest
/// byte first.
pub proof fn resampled_bytes_are_numbers(data: Vec<u8>, count: usize, channels: usize, i: int)
    requires
        AudioFrame::Resampled(data, count).wf(channels),
        0 <= i < count * channels,
    ensures
        AudioFrame::Resampled(data, count).samples(channels).len() == count * channels,
        ({
            let word = AudioFrame::Resampled(data, count).samples(channels)[i];
            &&& word % 0x100 == data@[4 * i]
            &&& (word / 0x100) % 0x100 == data@[4 * i + 1]
            &&& (word / 0x1_0000) % 0x100 == data@[4 * i + 2]
            &&& word / 0x100_0000 == data@[4 * i + 3]
        }),
{
}

/// The buffer after the samples before a place were dropped begins there, or at
/// its end where it does not reach so far; one that begins later stays as it is.
pub proof fn trimmed_buffer_begins_at_the_place(state: AudioModel, place: int)
    requires
        state.wf(),
    ensures
        ({
            let after = state.trimmed(place);
            &&& state.start is None ==> after == state
            &&& state.start matches Some(from) ==> place <= from ==> after == state
            &&& state.start matches Some(from) ==> from < place <= state.end() ==> after.start
                == Some(place as usize)
            &&& state.start matches Some(from) ==> place > state.end() ==> after.start == Some(
                state.end() as usize,
            ) && after.samples.len() < state.channels
            &&& after.eof_sent == state.eof_sent
            &&& after.stream_index == state.stream_index
            &&& after.channels == state.channels
        }),
{
    let len = state.samples.len() as int;
    let c = state.channels as int;
    whole_frames_fit(len, c, len / c);
    assert(len - (len / c) * c < c) by (nonlinear_arith)
        requires
            c > 0,
            len >= 0,
    ;
}

/// After a seek the buffer is empty and at no place, and the decoder can be told
/// of the end of the input again.
pub proof fn seek_empties_the_buffer(state: AudioModel)
    ensures
        state.sought().start is None,
        state.sought().samples.len() == 0,
        !state.sought().eof_sent,
        state.sought().stream_index == state.stream_index,
        state.sought().channels == state.channels,
{
}

} // verus!

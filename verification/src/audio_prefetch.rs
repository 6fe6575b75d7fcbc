//! Reading a range of an audio stream out of the buffer of its decoder.
use vstd::prelude::*;

use crate::audio::{whole_frames_fit, AudioDecoderState, AudioModel};
use crate::index::AudioEntry;
use crate::timestamp::Timestamp;

verus! {

/// A range of an audio stream, counted in samples per channel.
pub struct AudioPrefetchRequest {
    pub audio_index: Vec<AudioEntry>,
    pub stream_index: usize,
    pub sample_rate: u32,
    pub channels: usize,
    pub start: usize,
    pub length: usize,
}

impl AudioPrefetchRequest {
    /// The place behind the range, and the samples in it, can be counted.
    pub open spec fn wf(self) -> bool {
        &&& self.channels > 0
        &&& self.start + self.length <= usize::MAX
        &&& self.length * self.channels <= usize::MAX
    }

    /// The place behind the range.
    pub open spec fn end(self) -> int {
        self.start + self.length
    }
}

/// Whether the decoder has to be made for a request: there is none, or one of
/// another stream.
pub fn needs_audio_decoder(decoder: Option<&AudioDecoderState>, stream_index: usize) -> (res: bool)
    ensures
        res == !(decoder matches Some(d) && d.stream_index == stream_index),
{
    match decoder {
        Some(d) => d.stream_index != stream_index,
        None => true,
    }
}

/// The places at which the buffer begins and behind it.
pub fn audio_buffer_range(state: &AudioDecoderState) -> (res: Option<(usize, usize)>)
    requires
        state@.wf(),
    ensures
        match state@.start {
            Some(start) => res matches Some((from, to)) && from == start && to == state@.end(),
            None => res is None,
        },
{
    match state.buffer.start_sample {
        Some(start) => Some((start, start + state.buffer.samples.len() / state.channels)),
        None => None,
    }
}

/// Whether the buffer holds a whole range.
pub open spec fn covers(state: AudioModel, start: int, end: int) -> bool {
    state.start matches Some(from) && from <= start && end <= state.end()
}

/// Whether a range can only be reached by a seek: the buffer is at no place or
/// begins behind the range, or the stream has ended before its end.
pub open spec fn audio_seek_needed(state: AudioModel, start: int, end: int) -> bool {
    match state.start {
        None => true,
        Some(from) => from > start || (state.eof_sent && state.end() < end),
    }
}

/// The last packet of a stream that begins no later than a place.
pub open spec fn entry_at(index: Seq<AudioEntry>, stream: usize, start: int) -> Option<AudioEntry>
    decreases index.len(),
{
    if index.len() == 0 {
        None
    } else if index.last().stream_index == stream && index.last().start_sample <= start {
        Some(index.last())
    } else {
        entry_at(index.drop_last(), stream, start)
    }
}

fn find_entry(index: &Vec<AudioEntry>, stream: usize, start: usize) -> (res: Option<AudioEntry>)
    ensures
        res == entry_at(index@, stream, start as int),
{
    let mut n: usize = index.len();
    proof {
        assert(index@.take(n as int) =~= index@);
    }
    while n > 0
        invariant
            n <= index.len(),
            entry_at(index@, stream, start as int) == entry_at(
                index@.take(n as int),
                stream,
                start as int,
            ),
        decreases n,
    {
        let entry: AudioEntry = index[n - 1];
        proof {
            assert(index@.take(n as int).drop_last() =~= index@.take(n - 1));
            assert(index@.take(n as int).last() == entry);
        }
        if entry.stream_index == stream && entry.start_sample <= start as u64 {
            return Some(entry);
        }
        n = n - 1;
    }
    None
}

/// How a range gets into the buffer.
#[derive(Debug, Clone, Copy, PartialEq, Eq, Structural)]
pub enum RangePlan {
    /// It is there.
    Covered,
    /// The buffer is filled on.
    Fill,
    /// The input is sought to a time, and the buffer filled from there.
    Seek(Timestamp),
}

/// Why a range cannot be read.
#[derive(Debug, Clone, Copy, PartialEq, Eq, Structural)]
pub enum AudioRangeError {
    EmptyIndex,
}

/// Where a seek for a range goes: to the last packet that begins no later, or
/// to the beginning.
pub open spec fn seek_target(index: Seq<AudioEntry>, stream: usize, start: int) -> (Timestamp, int) {
    match entry_at(index, stream, start) {
        Some(entry) => (entry.timestamp, entry.start_sample as int),
        None => (Timestamp { key: 0 }, 0),
    }
}

/// Prepares the buffer for a range. After a seek it begins where the sought
/// packet does.
pub fn prepare_range(state: &mut AudioDecoderState, request: &AudioPrefetchRequest) -> (res: Result<
    RangePlan,
    AudioRangeError,
>)
    requires
        old(state)@.wf(),
        request.audio_index@.len() > 0 ==> request.wf(),
        request.channels == old(state)@.channels,
    ensures
        final(state)@.wf(),
        ({
            let before = old(state)@;
            let after = final(state)@;
            let start = request.start as int;
            let target = seek_target(request.audio_index@, request.stream_index, start);
            if request.audio_index@.len() == 0 {
                res == Err::<RangePlan, AudioRangeError>(AudioRangeError::EmptyIndex) && after
                    == before
            } else if covers(before, start, request.end()) {
                res == Ok::<RangePlan, AudioRangeError>(RangePlan::Covered) && after == before
            } else if audio_seek_needed(before, start, request.end()) {
                res == Ok::<RangePlan, AudioRangeError>(RangePlan::Seek(target.0)) && after == (
                AudioModel { start: Some(target.1 as usize), ..before.sought() })
            } else {
                res == Ok::<RangePlan, AudioRangeError>(RangePlan::Fill) && after == before
            }
        }),
        res is Ok ==> final(state)@.start is Some && final(state)@.start->0 <= request.start,
        res matches Ok(RangePlan::Covered) ==> request.end() <= final(state)@.end(),
        res matches Ok(RangePlan::Fill) ==> final(state)@.end() < request.end(),
        res matches Ok(RangePlan::Seek(_)) ==> final(state)@.samples.len() == 0,
        res matches Ok(RangePlan::Seek(_)) ==> !final(state)@.eof_sent,
{
    if request.audio_index.len() == 0 {
        return Err(AudioRangeError::EmptyIndex);
    }
    let end: usize = request.start + request.length;
    let range: Option<(usize, usize)> = audio_buffer_range(state);
    let covered: bool = match range {
        Some((from, to)) => from <= request.start && end <= to,
        None => false,
    };
    if covered {
        return Ok(RangePlan::Covered);
    }
    let needs_seek: bool = match range {
        None => true,
        Some((from, to)) => from > request.start || (state.decoder_eof_sent && to < end),
    };
    if !needs_seek {
        return Ok(RangePlan::Fill);
    }
    let found: Option<AudioEntry> = find_entry(
        &request.audio_index,
        request.stream_index,
        request.start,
    );
    proof {
        entry_begins_in_time(request.audio_index@, request.stream_index, request.start as int);
        assert(0int / (state.channels as int) == 0) by (nonlinear_arith)
            requires
                state.channels > 0,
        ;
    }
    state.seek();
    match found {
        Some(entry) => {
            state.buffer.start_sample = Some(entry.start_sample as usize);
            Ok(RangePlan::Seek(entry.timestamp))
        },
        None => {
            state.buffer.start_sample = Some(0);
            Ok(RangePlan::Seek(Timestamp { key: 0 }))
        },
    }
}

/// The packet to which a seek for a range goes is one of the stream, and begins
/// no later than the range.
pub proof fn entry_begins_in_time(index: Seq<AudioEntry>, stream: usize, start: int)
    ensures
        entry_at(index, stream, start) matches Some(entry) ==> index.contains(entry)
            && entry.stream_index == stream && entry.start_sample <= start,
    decreases index.len(),
{
    if index.len() > 0 {
        if index.last().stream_index == stream && index.last().start_sample <= start {
            assert(index[index.len() - 1] == index.last());
        } else {
            entry_begins_in_time(index.drop_last(), stream, start);
            if let Some(entry) = entry_at(index, stream, start) {
                let i = choose|i: int| 0 <= i < index.drop_last().len() && index.drop_last()[i] == entry;
                assert(index[i] == entry);
            }
        }
    }
}

/// The sample at a place of a range: the one in the buffer, or silence.
pub open spec fn sample_at(state: AudioModel, start: int, i: int) -> u32 {
    match state.start {
        Some(from) => {
            let at = (start - from) * state.channels + i;
            if 0 <= at < state.count() * state.channels {
                state.samples[at]
            } else {
                0
            }
        },
        None => 0,
    }
}

/// The samples of a range, interleaved. Those that the buffer does not hold are
/// silent.
pub open spec fn range_of(state: AudioModel, start: int, length: int) -> Seq<u32> {
    Seq::new((length * state.channels) as nat, |i: int| sample_at(state, start, i))
}

/// Reads a range out of the buffer, and drops what lies before it.
pub fn read_audio_range(state: &mut AudioDecoderState, request: &AudioPrefetchRequest) -> (res: Vec<
    u32,
>)
    requires
        old(state)@.wf(),
        request.wf(),
        request.channels == old(state)@.channels,
    ensures
        res@ == range_of(old(state)@, request.start as int, request.length as int),
        final(state)@ == old(state)@.trimmed(request.start as int),
        final(state)@.wf(),
{
    let channels: usize = request.channels;
    let start: usize = request.start;
    let end: usize = start + request.length;
    let total: usize = request.length * channels;
    let mut samples: Vec<u32> = vec![0u32; total];
    let ghost model = state@;
    let held: usize = state.buffer.samples.len();
    if let Some((from, to)) = audio_buffer_range(state) {
        let copy_start: usize = if start < from {
            from
        } else {
            start
        };
        let copy_end: usize = if end < to {
            end
        } else {
            to
        };
        if copy_start < copy_end {
            proof {
                let c = channels as int;
                whole_frames_fit(model.samples.len() as int, c, copy_end - from);
                assert((copy_end - from) * c == (copy_start - from) * c + (copy_end - copy_start)
                    * c) by (nonlinear_arith);
                assert((copy_end - start) * c == (copy_start - start) * c + (copy_end - copy_start)
                    * c) by (nonlinear_arith);
                assert(0 <= (copy_start - from) * c && 0 <= (copy_start - start) * c && 0 <= (
                copy_end - copy_start) * c && (copy_end - start) * c <= (end - start) * c)
                    by (nonlinear_arith)
                    requires
                        from <= copy_start < copy_end,
                        start <= copy_start,
                        copy_end <= end,
                        c > 0,
                ;
            }
            let source: usize = (copy_start - from) * channels;
            let target: usize = (copy_start - start) * channels;
            let count: usize = (copy_end - copy_start) * channels;
            for i in 0..count
                invariant
                    target + count <= total,
                    source + count <= held,
                    held == model.samples.len(),
                    samples.len() == total,
                    state@ == model,
                    forall|j: int|
                        0 <= j < total ==> #[trigger] samples[j] == (if target <= j < target + i {
                            model.samples[j - target + source]
                        } else {
                            0
                        }),
            {
                let sample: u32 = state.buffer.samples[source + i];
                samples.set(target + i, sample);
            }
            proof {
                let c = channels as int;
                assert forall|j: int| 0 <= j < total implies #[trigger] samples[j] == sample_at(
                    model,
                    start as int,
                    j,
                ) by {
                    let at = (start - from) * c + j;
                    let whole = model.count() * c;
                    assert((start - from) * c == (copy_start - from) * c - (copy_start - start) * c)
                        by (nonlinear_arith);
                    assert(at == j - target + source);
                    assert(whole == (to - from) * c);
                    whole_frames_fit(model.samples.len() as int, c, model.count());
                    if start < from {
                        assert(source == 0) by (nonlinear_arith)
                            requires
                                source == (copy_start - from) * c,
                                copy_start == from,
                        ;
                    } else {
                        assert(target == 0) by (nonlinear_arith)
                            requires
                                target == (copy_start - start) * c,
                                copy_start == start,
                        ;
                    }
                    assert(model.channels == c && model.start == Some(from));
                    if end < to {
                        assert(target + count == total) by (nonlinear_arith)
                            requires
                                target == (copy_start - start) * c,
                                count == (copy_end - copy_start) * c,
                                copy_end == end,
                                total == (end - start) * c,
                        ;
                    } else {
                        assert(source + count == whole) by (nonlinear_arith)
                            requires
                                source == (copy_start - from) * c,
                                count == (copy_end - copy_start) * c,
                                copy_end == to,
                                whole == (to - from) * c,
                        ;
                    }
                    assert(source + count <= whole) by (nonlinear_arith)
                        requires
                            source == (copy_start - from) * c,
                            count == (copy_end - copy_start) * c,
                            copy_end <= to,
                            whole == (to - from) * c,
                            c > 0,
                    ;
                    if target <= j < target + count {
                        assert(samples[j] == model.samples[at]);
                    } else {
                        assert(samples[j] == 0);
                        assert(!(0 <= at < whole));
                    }
                }
            }
        } else {
            proof {
                let c = channels as int;
                assert forall|j: int| 0 <= j < total implies #[trigger] samples[j] == sample_at(
                    model,
                    start as int,
                    j,
                ) by {
                    let at = (start - from) * c + j;
                    let whole = model.count() * c;
                    if to <= start {
                        assert(at >= whole) by (nonlinear_arith)
                            requires
                                at == (start - from) * c + j,
                                whole == (to - from) * c,
                                to <= start,
                                j >= 0,
                                c > 0,
                        ;
                    } else if end <= from {
                        assert(at < 0) by (nonlinear_arith)
                            requires
                                at == (start - from) * c + j,
                                j < (end - start) * c,
                                end <= from,
                                c > 0,
                        ;
                    } else if from == to {
                        assert(whole == 0) by (nonlinear_arith)
                            requires
                                whole == (to - from) * c,
                                to == from,
                        ;
                    } else {
                        assert(end == start);
                        assert(total == 0) by (nonlinear_arith)
                            requires
                                total == (end - start) * c,
                                end == start,
                        ;
                    }
                }
            }
        }
    }
    proof {
        assert(samples@ =~= range_of(model, start as int, request.length as int));
    }
    state.trim_before(start);
    samples
}

/// Two ranges that meet give the samples of both together.
pub proof fn ranges_that_meet(state: AudioModel, start: int, first: int, second: int)
    requires
        first >= 0,
        second >= 0,
    ensures
        range_of(state, start, first + second) == range_of(state, start, first) + range_of(
            state,
            start + first,
            second,
        ),
{
    let c = state.channels as int;
    assert((first + second) * c == first * c + second * c) by (nonlinear_arith);
    assert(first * c >= 0 && second * c >= 0) by (nonlinear_arith)
        requires
            first >= 0,
            second >= 0,
            c >= 0,
    ;
    let whole = range_of(state, start, first + second);
    let left = range_of(state, start, first);
    let right = range_of(state, start + first, second);
    assert forall|i: int| 0 <= i < whole.len() implies #[trigger] whole[i] == (left + right)[i] by {
        if i >= first * c {
            if let Some(from) = state.start {
                assert((start + first - from) * c + (i - first * c) == (start - from) * c + i)
                    by (nonlinear_arith);
            }
            assert(right[i - first * c] == sample_at(state, start + first, i - first * c));
        }
    }
    assert(whole =~= left + right);
}

/// Dropping what lies before a place leaves every range from there on as it was.
pub proof fn trimming_keeps_later_ranges(state: AudioModel, place: int, start: int, length: int)
    requires
        state.wf(),
        place <= start,
        length >= 0,
    ensures
        range_of(state.trimmed(place), start, length) == range_of(state, start, length),
{
    let after = state.trimmed(place);
    let c = state.channels as int;
    if let Some(from) = state.start {
        if place > from {
            let frames = if place - from < state.count() {
                place - from
            } else {
                state.count()
            };
            let len = state.samples.len() as int;
            whole_frames_fit(len, c, frames);
            whole_frames_fit(len, c, state.count());
            crate::audio::trim_keeps_the_end(state, place);
            assert(after.count() == state.count() - frames);
            assert((state.count() - frames) * c == state.count() * c - frames * c)
                by (nonlinear_arith);
            assert((start - (from + frames)) * c == (start - from) * c - frames * c)
                by (nonlinear_arith);
            assert((start - from) * c >= frames * c) by (nonlinear_arith)
                requires
                    start - from >= frames,
                    c > 0,
            ;
            assert forall|i: int| 0 <= i implies sample_at(after, start, i) == sample_at(
                state,
                start,
                i,
            ) by {
                let at = (start - from) * c + i;
                if at < state.count() * c {
                    assert(after.samples[at - frames * c] == state.samples[at]);
                }
            }
        }
    }
    assert(range_of(after, start, length) =~= range_of(state, start, length));
}

/// A range that the buffer covers is read without silence put in.
pub proof fn covered_range_is_read_whole(state: AudioModel, start: int, length: int, i: int)
    requires
        state.wf(),
        covers(state, start, start + length),
        0 <= i < length * state.channels,
    ensures
        ({
            let at = (start - state.start->0) * state.channels + i;
            &&& 0 <= at < state.samples.len()
            &&& range_of(state, start, length)[i] == state.samples[at]
        }),
{
    let from = state.start->0;
    let c = state.channels as int;
    let at = (start - from) * c + i;
    whole_frames_fit(state.samples.len() as int, c, state.count());
    assert(0 <= at && at < state.count() * c) by (nonlinear_arith)
        requires
            at == (start - from) * c + i,
            from <= start,
            start + length <= from + state.count(),
            0 <= i < length * c,
            c > 0,
    ;
}

/// The packet to which a seek for a range goes is the last of the stream that
/// begins no later than the range; there is none only where none begins so early.
pub proof fn entry_is_the_last_in_time(index: Seq<AudioEntry>, stream: usize, start: int)
    ensures
        entry_at(index, stream, start) is None <==> forall|i: int|
            0 <= i < index.len() ==> !((#[trigger] index[i]).stream_index == stream
                && index[i].start_sample <= start),
        entry_at(index, stream, start) matches Some(entry) ==> exists|k: int|
            {
                &&& 0 <= k < index.len()
                &&& #[trigger] index[k] == entry
                &&& entry.stream_index == stream
                &&& entry.start_sample <= start
                &&& forall|i: int|
                    k < i < index.len() ==> !((#[trigger] index[i]).stream_index == stream
                        && index[i].start_sample <= start)
            },
    decreases index.len(),
{
    if index.len() > 0 {
        let before = index.drop_last();
        let last = index.len() - 1;
        entry_is_the_last_in_time(before, stream, start);
        assert(index[last] == index.last());
        assert forall|i: int| 0 <= i < last implies #[trigger] index[i] == before[i] by {}
        if index.last().stream_index == stream && index.last().start_sample <= start {
            assert(index[last] == entry_at(index, stream, start)->0);
        } else if let Some(entry) = entry_at(before, stream, start) {
            let k = choose|k: int|
                {
                    &&& 0 <= k < before.len()
                    &&& #[trigger] before[k] == entry
                    &&& entry.stream_index == stream
                    &&& entry.start_sample <= start
                    &&& forall|i: int|
                        k < i < before.len() ==> !((#[trigger] before[i]).stream_index == stream
                            && before[i].start_sample <= start)
                };
            assert(index[k] == entry);
            assert forall|i: int| k < i < index.len() implies !((
            #[trigger] index[i]).stream_index == stream && index[i].start_sample <= start) by {
                if i < last {
                    assert(index[i] == before[i]);
                }
            }
        } else {
            assert forall|i: int| 0 <= i < index.len() implies !((
            #[trigger] index[i]).stream_index == stream && index[i].start_sample <= start) by {
                if i < last {
                    assert(index[i] == before[i]);
                }
            }
        }
    }
}

/// A seek goes to the time of a packet and begins the buffer with its first
/// sample; where no packet begins so early it goes to the beginning of the stream.
pub proof fn seek_goes_to_a_packet(index: Seq<AudioEntry>, stream: usize, start: int)
    ensures
        ({
            let target = seek_target(index, stream, start);
            &&& entry_at(index, stream, start) matches Some(entry) ==> target.0 == entry.timestamp
                && target.1 == entry.start_sample
            &&& entry_at(index, stream, start) is None ==> target.0.key == 0 && target.1 == 0
        }),
{
}

/// A range is sought exactly where the buffer cannot reach it by being filled on:
/// it is at no place, it begins behind the range, or the stream has ended before
/// the end of the range.
pub proof fn ranges_within_reach_are_not_sought(state: AudioModel, start: int, end: int)
    ensures
        state.start is None ==> audio_seek_needed(state, start, end) && !covers(state, start, end),
        state.start matches Some(from) ==> from > start ==> audio_seek_needed(state, start, end)
            && !covers(state, start, end),
        state.start matches Some(from) ==> from <= start ==> {
            &&& covers(state, start, end) <==> end <= state.end()
            &&& audio_seek_needed(state, start, end) <==> state.eof_sent && state.end() < end
        },
{
}

/// The sample of a channel at a place of the stream, read out of a range: the one
/// that the buffer holds of that place, and silence at a place that it does not
/// hold.
pub proof fn range_gives_the_sample_of_a_place(
    state: AudioModel,
    start: int,
    length: int,
    place: int,
    channel: int,
)
    requires
        state.wf(),
        start <= place < start + length,
        0 <= channel < state.channels,
    ensures
        ({
            let c = state.channels as int;
            let given = range_of(state, start, length)[(place - start) * c + channel];
            &&& range_of(state, start, length).len() == length * c
            &&& 0 <= (place - start) * c + channel < length * c
            &&& state.start matches Some(from) ==> from <= place < state.end() ==> given
                == state.samples[(place - from) * c + channel]
            &&& !(state.start matches Some(from) && from <= place < state.end()) ==> given == 0
        }),
{
    let c = state.channels as int;
    let i = (place - start) * c + channel;
    assert(0 <= i < length * c) by (nonlinear_arith)
        requires
            i == (place - start) * c + channel,
            0 <= place - start < length,
            0 <= channel < c,
    ;
    if let Some(from) = state.start {
        let at = (start - from) * c + i;
        assert(at == (place - from) * c + channel) by (nonlinear_arith)
            requires
                at == (start - from) * c + i,
                i == (place - start) * c + channel,
        ;
        let n = state.count();
        if from <= place < state.end() {
            assert(0 <= at < n * c) by (nonlinear_arith)
                requires
                    at == (place - from) * c + channel,
                    0 <= place - from < n,
                    0 <= channel < c,
            ;
        } else if place < from {
            assert(at < 0) by (nonlinear_arith)
                requires
                    at == (place - from) * c + channel,
                    place - from <= -1,
                    0 <= channel < c,
            ;
        } else {
            assert(at >= n * c) by (nonlinear_arith)
                requires
                    at == (place - from) * c + channel,
                    place - from >= n,
                    0 <= channel < c,
            ;
        }
    }
}

} // verus!

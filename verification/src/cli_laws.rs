//! What holds of the command line of the benchmark.
use vstd::prelude::*;

use crate::cli::{
    are_paths, args_error, delay_value, direction_value, first_no, mode_value, number_value,
    option_number, option_numbers, process_value, string_views, thread_value,
    value_error, values_say, Args, ArgsError, ExecutionMode, FrameDirection, ValueError,
};
use crate::priority::{ProcessPriority, ThreadPriority};
use crate::text::{decimal_of, number_up_to};

verus! {

proof fn first_no_is_the_first(answers: Seq<bool>)
    ensures
        0 <= first_no(answers) <= answers.len(),
        forall|i: int| 0 <= i < first_no(answers) ==> #[trigger] answers[i],
        first_no(answers) < answers.len() ==> !answers[first_no(answers)],
    decreases answers.len(),
{
    if answers.len() > 0 && answers[0] {
        let rest = answers.skip(1);
        first_no_is_the_first(rest);
        assert forall|i: int| 0 <= i < first_no(answers) implies #[trigger] answers[i] by {
            if i > 0 {
                assert(rest[i - 1] == answers[i]);
            }
        }
    }
}

/// A benchmark can be run exactly where the library and all videos exist, frames
/// are measured, the fewest frames that are skipped are no more than the most, and
/// a plugin can number all frames even if the most are skipped.
pub proof fn benchmark_can_be_run(args: Args, dll_exists: bool, videos_exist: Seq<bool>)
    requires
        videos_exist.len() <= usize::MAX,
    ensures
        args_error(args, dll_exists, videos_exist) is None <==> {
            &&& dll_exists
            &&& args.frames >= 1
            &&& args.frame_skip_min <= args.frame_skip_max
            &&& (args.warmup + args.frames) * (args.frame_skip_max + 1) <= i32::MAX
            &&& forall|i: int| 0 <= i < videos_exist.len() ==> #[trigger] videos_exist[i]
        },
        args_error(args, dll_exists, videos_exist) == Some(ArgsError::DllMissing) <==> !dll_exists,
        args_error(args, dll_exists, videos_exist) == Some(ArgsError::NoFrames) <==> dll_exists
            && args.frames == 0,
        args_error(args, dll_exists, videos_exist) == Some(ArgsError::SkipRange) <==> dll_exists
            && args.frames > 0 && args.frame_skip_min > args.frame_skip_max,
        args_error(args, dll_exists, videos_exist) == Some(ArgsError::FrameOverflow) ==> args.warmup
            + args.frames > u32::MAX,
        args_error(args, dll_exists, videos_exist) == Some(ArgsError::FrameRange) ==> (args.warmup
            + args.frames) * (args.frame_skip_max + 1) > i32::MAX,
        args_error(args, dll_exists, videos_exist) matches Some(ArgsError::VideoMissing(at)) ==> {
            &&& at < videos_exist.len()
            &&& !videos_exist[at as int]
            &&& forall|i: int| 0 <= i < at ==> #[trigger] videos_exist[i]
        },
{
    first_no_is_the_first(videos_exist);
    let end = args.warmup + args.frames;
    let interval = args.frame_skip_max + 1;
    assert(end * interval >= end) by (nonlinear_arith)
        requires
            end >= 0,
            interval >= 1,
    ;
}

/// The word for a mode leads back to it.
pub proof fn mode_words(mode: ExecutionMode, text: Seq<char>)
    ensures
        ExecutionMode::of_word(mode.word()) == Some(mode),
        ExecutionMode::of_word(text) == Some(mode) ==> text == mode.word(),
{
    reveal_strlit("sequential");
    reveal_strlit("parallel");
    reveal_strlit("both");
    assert("sequential"@.len() == 10 && "parallel"@.len() == 8 && "both"@.len() == 4);
}

/// The word for a direction leads back to it.
pub proof fn direction_words(direction: FrameDirection, text: Seq<char>)
    ensures
        FrameDirection::of_word(direction.word()) == Some(direction),
        FrameDirection::of_word(text) == Some(direction) ==> text == direction.word(),
{
    reveal_strlit("forward");
    reveal_strlit("reverse");
    reveal_strlit("both");
    assert("forward"@[0] == 'f' && "reverse"@[0] == 'r' && "both"@[0] == 'b');
}

/// The digits of a number stand for it, up to the largest that an option takes.
pub proof fn option_takes_a_number(n: nat)
    ensures
        n <= u32::MAX ==> option_number(decimal_of(n)) == Some(n),
        n <= u32::MAX ==> option_number(seq!['+'] + decimal_of(n)) == Some(n),
        n > u32::MAX ==> option_number(decimal_of(n)) is None,
        option_number(seq!['-'] + decimal_of(n)) is Some <==> n == 0,
{
    let digits = decimal_of(n);
    crate::text::decimal_reads_back(n, n);
    crate::text_laws::number_is_told_apart(digits, n, u32::MAX as nat);
    crate::text_laws::number_is_told_apart(digits, n, 0);
    let plus = seq!['+'] + digits;
    assert(plus.skip(1) =~= digits);
    let minus = seq!['-'] + digits;
    assert(minus.skip(1) =~= digits);
    crate::text_laws::decimal_begins_with_a_digit(n);
}

/// The frames that are verified are as many as were given, each the number that
/// its text stands for, in their order.
pub proof fn numbers_are_taken_one_by_one(texts: Seq<Seq<char>>)
    ensures
        option_numbers(texts) is Some <==> forall|i: int|
            0 <= i < texts.len() ==> option_number(#[trigger] texts[i]) is Some,
        option_numbers(texts) matches Some(numbers) ==> {
            &&& numbers.len() == texts.len()
            &&& forall|i: int|
                0 <= i < texts.len() ==> option_number(texts[i]) == Some(
                    #[trigger] numbers[i] as nat,
                )
        },
    decreases texts.len(),
{
    if texts.len() > 0 {
        let before = texts.drop_last();
        let last = texts.len() - 1;
        numbers_are_taken_one_by_one(before);
        assert(texts[last] == texts.last());
        assert forall|i: int| 0 <= i < last implies #[trigger] texts[i] == before[i] by {}
        crate::text_laws::numbers_stay_below_their_limit(texts.last(), u32::MAX as nat);
        if option_numbers(texts) is Some {
            assert forall|i: int| 0 <= i < texts.len() implies option_number(
                #[trigger] texts[i],
            ) is Some by {
                if i < last {
                    assert(option_number(before[i]) is Some);
                }
            }
            let numbers = option_numbers(texts)->0;
            let had = option_numbers(before)->0;
            assert forall|i: int| 0 <= i < texts.len() implies option_number(texts[i]) == Some(
                #[trigger] numbers[i] as nat,
            ) by {
                if i < last {
                    assert(numbers[i] == had[i]);
                    assert(option_number(before[i]) == Some(had[i] as nat));
                }
            }
        } else if option_numbers(before) is None {
            let i = choose|i: int| 0 <= i < before.len() && option_number(
                #[trigger] before[i],
            ) is None;
            assert(option_number(texts[i]) is None);
        } else {
            assert(option_number(texts[last]) is None);
        }
    }
}

/// What holds of options that are not given.
pub proof fn options_have_their_defaults(values: Seq<Seq<Seq<char>>>, args: Args)
    requires
        values_say(values, args),
    ensures
        values[1].len() == 0 ==> args.mode is Both,
        values[2].len() == 0 ==> args.direction is Both,
        values[3].len() == 0 ==> args.process_priority is High,
        values[4].len() == 0 ==> args.thread_priority is Highest,
        values[5].len() == 0 ==> args.warmup == 30,
        values[6].len() == 0 ==> args.frames == 300,
        values[7].len() == 0 ==> args.read_delay_ms == 0,
        values[8].len() == 0 ==> args.frame_skip_min == 0,
        values[9].len() == 0 ==> args.frame_skip_max == 0,
        values[10].len() == 0 ==> args.output is None,
        values[11].len() == 0 ==> args.videos_dir is None,
        values[12].len() == 0 ==> args.videos@.len() == 0,
        values[13].len() == 0 ==> args.verify_frames@.len() == 0,
{
    numbers_are_taken_one_by_one(values[13]);
    assert(string_views(args.videos@).len() == args.videos@.len());
}

/// Options that are given have the value that their text stands for.
pub proof fn options_have_their_values(values: Seq<Seq<Seq<char>>>, args: Args)
    requires
        values_say(values, args),
    ensures
        args.dll@ == values[0][0],
        values[1].len() > 0 ==> values[1][0] == args.mode.word(),
        values[2].len() > 0 ==> values[2][0] == args.direction.word(),
        values[3].len() > 0 ==> values[3][0] == args.process_priority.word(),
        values[4].len() > 0 ==> values[4][0] == args.thread_priority.word(),
        values[5].len() > 0 ==> option_number(values[5][0]) == Some(args.warmup as nat),
        values[6].len() > 0 ==> option_number(values[6][0]) == Some(args.frames as nat),
        values[7].len() > 0 ==> number_up_to(values[7][0], u64::MAX as nat) == Some(
            args.read_delay_ms as nat,
        ),
        values[8].len() > 0 ==> option_number(values[8][0]) == Some(args.frame_skip_min as nat),
        values[9].len() > 0 ==> option_number(values[9][0]) == Some(args.frame_skip_max as nat),
        values[10].len() > 0 ==> (args.output matches Some(path) && path@ == values[10][0]),
        values[11].len() > 0 ==> (args.videos_dir matches Some(path) && path@ == values[11][0]),
        args.videos@.len() == values[12].len(),
        forall|i: int| 0 <= i < args.videos@.len() ==> (#[trigger] args.videos@[i])@ == values[12][i],
        args.verify_frames@.len() == values[13].len(),
        forall|i: int|
            0 <= i < values[13].len() ==> option_number(values[13][i]) == Some(
                #[trigger] args.verify_frames@[i] as nat,
            ),
{
    numbers_are_taken_one_by_one(values[13]);
    let videos = string_views(args.videos@);
    assert(videos.len() == args.videos@.len());
    assert forall|i: int| 0 <= i < args.videos@.len() implies (#[trigger] args.videos@[i])@
        == values[12][i] by {
        assert(videos[i] == args.videos@[i]@);
    }
    crate::text_laws::numbers_stay_below_their_limit(values[5][0], u32::MAX as nat);
    crate::text_laws::numbers_stay_below_their_limit(values[6][0], u32::MAX as nat);
    crate::text_laws::numbers_stay_below_their_limit(values[7][0], u64::MAX as nat);
    crate::text_laws::numbers_stay_below_their_limit(values[8][0], u32::MAX as nat);
    crate::text_laws::numbers_stay_below_their_limit(values[9][0], u32::MAX as nat);
}

/// Whether the group of values at a place is one that can stand there.
pub open spec fn can_stand(values: Seq<Seq<Seq<char>>>, place: int) -> bool {
    let group = values[place];
    if place == 0 || place == 10 || place == 11 || place == 12 {
        forall|i: int| 0 <= i < group.len() ==> (#[trigger] group[i]).len() > 0
    } else if place == 13 {
        forall|i: int| 0 <= i < group.len() ==> option_number(#[trigger] group[i]) is Some
    } else if group.len() == 0 {
        true
    } else if place == 1 {
        exists|mode: ExecutionMode| group[0] == #[trigger] mode.word()
    } else if place == 2 {
        exists|direction: FrameDirection| group[0] == #[trigger] direction.word()
    } else if place == 3 {
        exists|priority: ProcessPriority| group[0] == #[trigger] priority.word()
    } else if place == 4 {
        exists|priority: ThreadPriority| group[0] == #[trigger] priority.word()
    } else if place == 7 {
        number_up_to(group[0], u64::MAX as nat) is Some
    } else {
        option_number(group[0]) is Some
    }
}

/// The values of a command line are taken exactly where the library is named and
/// every option has a value that it can have; else the first that has not is told of.
pub proof fn first_bad_value_is_told(values: Seq<Seq<Seq<char>>>)
    requires
        values.len() == 14,
    ensures
        value_error(values) == Some(ValueError::NoDll) <==> values[0].len() == 0,
        value_error(values) is None <==> values[0].len() > 0 && forall|k: int|
            0 <= k < 14 ==> #[trigger] can_stand(values, k),
        value_error(values) matches Some(ValueError::Invalid(at)) ==> {
            &&& at < 14
            &&& !can_stand(values, at as int)
            &&& forall|k: int| 0 <= k < at ==> #[trigger] can_stand(values, k)
        },
{
    numbers_are_taken_one_by_one(values[13]);
    if let Some(mode) = ExecutionMode::of_word(values[1][0]) {
        assert(values[1][0] == mode.word());
    } else if exists|mode: ExecutionMode| values[1][0] == #[trigger] mode.word() {
        let mode = choose|mode: ExecutionMode| values[1][0] == #[trigger] mode.word();
        mode_words(mode, values[1][0]);
    }
    if let Some(direction) = FrameDirection::of_word(values[2][0]) {
        assert(values[2][0] == direction.word());
    } else if exists|direction: FrameDirection| values[2][0] == #[trigger] direction.word() {
        let direction = choose|direction: FrameDirection|
            values[2][0] == #[trigger] direction.word();
        direction_words(direction, values[2][0]);
    }
    if let Some(priority) = ProcessPriority::of_word(values[3][0]) {
        assert(values[3][0] == priority.word());
    } else if exists|priority: ProcessPriority| values[3][0] == #[trigger] priority.word() {
        let priority = choose|priority: ProcessPriority|
            values[3][0] == #[trigger] priority.word();
        crate::priority::process_priority_words(priority, priority);
    }
    if let Some(priority) = ThreadPriority::of_word(values[4][0]) {
        assert(values[4][0] == priority.word());
    } else if exists|priority: ThreadPriority| values[4][0] == #[trigger] priority.word() {
        let priority = choose|priority: ThreadPriority|
            values[4][0] == #[trigger] priority.word();
        crate::priority::thread_priority_words(priority, priority);
    }
    assert(can_stand(values, 0) == are_paths(values[0]));
    assert(can_stand(values, 1) == (mode_value(values[1]) is Some));
    assert(can_stand(values, 2) == (direction_value(values[2]) is Some));
    assert(can_stand(values, 3) == (process_value(values[3]) is Some));
    assert(can_stand(values, 4) == (thread_value(values[4]) is Some));
    assert(can_stand(values, 5) == (number_value(values[5], 30) is Some));
    assert(can_stand(values, 6) == (number_value(values[6], 300) is Some));
    assert(can_stand(values, 7) == (delay_value(values[7]) is Some));
    assert(can_stand(values, 8) == (number_value(values[8], 0) is Some));
    assert(can_stand(values, 9) == (number_value(values[9], 0) is Some));
    assert(can_stand(values, 10) == are_paths(values[10]));
    assert(can_stand(values, 11) == are_paths(values[11]));
    assert(can_stand(values, 12) == are_paths(values[12]));
    assert(can_stand(values, 13) == (option_numbers(values[13]) is Some));
}

} // verus!

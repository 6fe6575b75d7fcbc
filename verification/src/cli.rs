//! The command line of the benchmark.
use clap::{Arg, ArgAction, Command};
use vstd::prelude::*;

use crate::priority::{ProcessPriority, ThreadPriority};
use crate::text::{chars_of, extend, is_str, number_up_to, parse_number, part, string_of};

verus! {

/// Which modes are run.
#[derive(Debug, Clone, Copy, PartialEq, Eq, Structural)]
pub enum ExecutionMode {
    Sequential,
    Parallel,
    Both,
}

/// In which directions frames are read.
#[derive(Debug, Clone, Copy, PartialEq, Eq, Structural)]
pub enum FrameDirection {
    Forward,
    Reverse,
    Both,
}

impl ExecutionMode {
    /// The word for a mode.
    pub open spec fn word(self) -> Seq<char> {
        match self {
            ExecutionMode::Sequential => "sequential"@,
            ExecutionMode::Parallel => "parallel"@,
            ExecutionMode::Both => "both"@,
        }
    }

    /// The mode for a word.
    pub open spec fn of_word(text: Seq<char>) -> Option<ExecutionMode> {
        if text == "sequential"@ {
            Some(ExecutionMode::Sequential)
        } else if text == "parallel"@ {
            Some(ExecutionMode::Parallel)
        } else if text == "both"@ {
            Some(ExecutionMode::Both)
        } else {
            None
        }
    }

    /// The mode for a word.
    pub fn from_word(text: &Vec<char>) -> (res: Option<ExecutionMode>)
        ensures
            res == ExecutionMode::of_word(text@),
    {
        if is_str(text, "sequential") {
            Some(ExecutionMode::Sequential)
        } else if is_str(text, "parallel") {
            Some(ExecutionMode::Parallel)
        } else if is_str(text, "both") {
            Some(ExecutionMode::Both)
        } else {
            None
        }
    }
}

impl FrameDirection {
    /// The word for a direction.
    pub open spec fn word(self) -> Seq<char> {
        match self {
            FrameDirection::Forward => "forward"@,
            FrameDirection::Reverse => "reverse"@,
            FrameDirection::Both => "both"@,
        }
    }

    /// The direction for a word.
    pub open spec fn of_word(text: Seq<char>) -> Option<FrameDirection> {
        if text == "forward"@ {
            Some(FrameDirection::Forward)
        } else if text == "reverse"@ {
            Some(FrameDirection::Reverse)
        } else if text == "both"@ {
            Some(FrameDirection::Both)
        } else {
            None
        }
    }

    /// The direction for a word.
    pub fn from_word(text: &Vec<char>) -> (res: Option<FrameDirection>)
        ensures
            res == FrameDirection::of_word(text@),
    {
        if is_str(text, "forward") {
            Some(FrameDirection::Forward)
        } else if is_str(text, "reverse") {
            Some(FrameDirection::Reverse)
        } else if is_str(text, "both") {
            Some(FrameDirection::Both)
        } else {
            None
        }
    }
}

/// What the benchmark was told to do.
#[derive(Debug)]
pub struct Args {
    /// The library of the plugin.
    pub dll: String,
    pub mode: ExecutionMode,
    pub direction: FrameDirection,
    pub process_priority: ProcessPriority,
    pub thread_priority: ThreadPriority,
    /// Frames that are read before the measurement.
    pub warmup: u32,
    /// Frames that are measured.
    pub frames: u32,
    /// The pause after each frame.
    pub read_delay_ms: u64,
    /// The fewest frames that are skipped between two that are read.
    pub frame_skip_min: u32,
    /// The most frames that are skipped between two that are read.
    pub frame_skip_max: u32,
    /// Where the records go.
    pub output: Option<String>,
    /// The directory with the manifest and the videos.
    pub videos_dir: Option<String>,
    /// Videos in place of those of the manifest.
    pub videos: Vec<String>,
    /// Frames that are hashed before the benchmark.
    pub verify_frames: Vec<u32>,
}

/// Why the benchmark cannot be run as told.
#[derive(Debug, Clone, Copy, PartialEq, Eq, Structural)]
pub enum ArgsError {
    DllMissing,
    NoFrames,
    SkipRange,
    FrameOverflow,
    FrameRange,
    /// A video, at a place, that does not exist.
    VideoMissing(usize),
}

/// The first of some answers that is no, or their number.
pub open spec fn first_no(answers: Seq<bool>) -> int
    decreases answers.len(),
{
    if answers.len() == 0 || !answers[0] {
        0
    } else {
        1 + first_no(answers.skip(1))
    }
}

proof fn first_no_at(answers: Seq<bool>, at: int)
    requires
        0 <= at <= answers.len(),
        forall|i: int| 0 <= i < at ==> answers[i],
        at < answers.len() ==> !answers[at],
    ensures
        first_no(answers) == at,
    decreases at,
{
    if at > 0 {
        assert(answers[0]);
        assert forall|i: int| 0 <= i < at - 1 implies answers.skip(1)[i] by {
            assert(answers.skip(1)[i] == answers[i + 1]);
        }
        first_no_at(answers.skip(1), at - 1);
    }
}

/// Why the benchmark cannot be run as told, given whether the library and the
/// videos exist.
pub open spec fn args_error(args: Args, dll_exists: bool, videos_exist: Seq<bool>) -> Option<
    ArgsError,
> {
    if !dll_exists {
        Some(ArgsError::DllMissing)
    } else if args.frames == 0 {
        Some(ArgsError::NoFrames)
    } else if args.frame_skip_min > args.frame_skip_max {
        Some(ArgsError::SkipRange)
    } else if args.warmup + args.frames > u32::MAX {
        Some(ArgsError::FrameOverflow)
    } else if (args.warmup + args.frames) * (args.frame_skip_max + 1) > i32::MAX {
        Some(ArgsError::FrameRange)
    } else if first_no(videos_exist) < videos_exist.len() {
        Some(ArgsError::VideoMissing(first_no(videos_exist) as usize))
    } else {
        None
    }
}

/// A file or a directory: a path, or one below the directory of the benchmark.
#[derive(Debug)]
pub enum Location {
    Path(String),
    /// The names of the directories on the way, and of the file.
    InCrate(Vec<String>),
}

/// The name of a library has no stem that is text.
#[derive(Debug, Clone, Copy, PartialEq, Eq, Structural)]
pub struct NoFileStem;

/// The views of some strings.
pub open spec fn string_views(strings: Seq<String>) -> Seq<Seq<char>> {
    strings.map_values(|s: String| s@)
}

impl Args {
    /// Whether the benchmark can be run as told. The frames that it reads, with
    /// the most that are skipped in between, have to be numbers of a plugin.
    pub fn validate(&self, dll_exists: bool, videos_exist: &Vec<bool>) -> (res: Result<
        (),
        ArgsError,
    >)
        ensures
            match res {
                Ok(()) => args_error(*self, dll_exists, videos_exist@) is None,
                Err(error) => args_error(*self, dll_exists, videos_exist@) == Some(error),
            },
    {
        if !dll_exists {
            return Err(ArgsError::DllMissing);
        }
        if self.frames == 0 {
            return Err(ArgsError::NoFrames);
        }
        if self.frame_skip_min > self.frame_skip_max {
            return Err(ArgsError::SkipRange);
        }
        let end_frame: u32 = match self.warmup.checked_add(self.frames) {
            Some(end) => end,
            None => {
                return Err(ArgsError::FrameOverflow);
            },
        };
        let interval: u64 = self.frame_skip_max as u64 + 1;
        proof {
            assert(0 <= end_frame * interval <= 0xffff_ffff * 0x1_0000_0000) by (nonlinear_arith)
                requires
                    0 <= end_frame <= 0xffff_ffff,
                    0 <= interval <= 0x1_0000_0000,
            ;
        }
        let bound: u64 = (end_frame as u64) * interval;
        if bound > i32::MAX as u64 {
            return Err(ArgsError::FrameRange);
        }
        let n: usize = videos_exist.len();
        for i in 0..n
            invariant
                n == videos_exist.len(),
                dll_exists,
                self.frames > 0,
                self.frame_skip_min <= self.frame_skip_max,
                self.warmup + self.frames <= u32::MAX,
                (self.warmup + self.frames) * (self.frame_skip_max + 1) <= i32::MAX,
                forall|j: int| 0 <= j < i ==> videos_exist[j],
        {
            if !videos_exist[i] {
                proof {
                    first_no_at(videos_exist@, i as int);
                }
                return Err(ArgsError::VideoMissing(i));
            }
        }
        proof {
            first_no_at(videos_exist@, n as int);
        }
        Ok(())
    }

    /// The directory with the manifest and the videos.
    pub fn manifest_dir(&self) -> (res: Location)
        ensures
            match self.videos_dir {
                Some(dir) => res matches Location::Path(path) && path@ == dir@,
                None => res matches Location::InCrate(names) && string_views(names@)
                    == seq!["videos"@],
            },
    {
        match &self.videos_dir {
            Some(dir) => Location::Path(dir.clone()),
            None => {
                let mut names: Vec<String> = Vec::new();
                names.push(String::from_str("videos"));
                proof {
                    assert(string_views(names@) =~= seq!["videos"@]);
                }
                Location::InCrate(names)
            },
        }
    }

    /// Where the records go, given the stem of the name of the library, unless
    /// that is no text.
    pub fn output_path(&self, dll_stem: Option<&str>) -> (res: Result<Location, NoFileStem>)
        ensures
            match (self.output, dll_stem) {
                (Some(output), _) => res matches Ok(Location::Path(path)) && path@ == output@,
                (None, Some(stem)) => res matches Ok(Location::InCrate(names)) && string_views(
                    names@,
                ) == seq!["results"@, stem@ + ".csv"@],
                (None, None) => res is Err,
            },
    {
        match &self.output {
            Some(output) => Ok(Location::Path(output.clone())),
            None => {
                match dll_stem {
                    Some(stem) => {
                        let mut file: Vec<char> = chars_of(stem);
                        extend(&mut file, &chars_of(".csv"));
                        let mut names: Vec<String> = Vec::new();
                        names.push(String::from_str("results"));
                        names.push(string_of(&file));
                        proof {
                            assert(string_views(names@) =~= seq!["results"@, stem@ + ".csv"@]);
                        }
                        Ok(Location::InCrate(names))
                    },
                    None => Err(NoFileStem),
                }
            },
        }
    }
}

/// The frame that is read after so many others in a benchmark that can be run:
/// none lies beyond what a plugin can number, however many are skipped within
/// the limit.
pub proof fn validated_frames_can_be_numbered(
    args: Args,
    dll_exists: bool,
    videos_exist: Seq<bool>,
    skips: Seq<u32>,
)
    requires
        args_error(args, dll_exists, videos_exist) is None,
        skips.len() < args.warmup + args.frames,
        forall|i: int| 0 <= i < skips.len() ==> #[trigger] skips[i] <= args.frame_skip_max,
    ensures
        0 <= crate::benchmark::frame_after_skips(skips) < i32::MAX,
{
    let interval = args.frame_skip_max + 1;
    skipped_frames_bound(skips, args.frame_skip_max as int);
    assert(skips.len() * interval < (args.warmup + args.frames) * interval) by (nonlinear_arith)
        requires
            skips.len() < args.warmup + args.frames,
            interval > 0,
    ;
}

proof fn skipped_frames_bound(skips: Seq<u32>, most: int)
    requires
        forall|i: int| 0 <= i < skips.len() ==> #[trigger] skips[i] <= most,
    ensures
        0 <= crate::benchmark::frame_after_skips(skips) <= skips.len() * (most + 1),
    decreases skips.len(),
{
    if skips.len() > 0 {
        assert(skips[skips.len() - 1] <= most);
        assert forall|i: int| 0 <= i < skips.drop_last().len() implies #[trigger] skips.drop_last()[i]
            <= most by {
            assert(skips[i] <= most);
        }
        skipped_frames_bound(skips.drop_last(), most);
        assert((skips.len() - 1) * (most + 1) + (most + 1) == skips.len() * (most + 1))
            by (nonlinear_arith);
    }
}

/// An option of the command line.
pub struct OptionSpec {
    pub name: &'static str,
    pub help: &'static str,
}

/// The names of some options.
pub open spec fn names_of(options: Seq<OptionSpec>) -> Seq<Seq<char>> {
    options.map_values(|o: OptionSpec| o.name@)
}

/// What stands on a command line is not as it should be, or help was asked for.
#[derive(Debug)]
pub struct UsageError {
    pub exit_code: i32,
    /// What the user is told.
    pub text: String,
}

/// The values of some strings, grouped.
pub open spec fn value_views(values: Seq<Vec<String>>) -> Seq<Seq<Seq<char>>> {
    values.map_values(|v: Vec<String>| string_views(v@))
}

/// The values that `clap` finds on a command line for a required argument, for
/// options that may stand once and for options that may be repeated, in this
/// order, or `None` where it rejects the command line or is asked for help.
pub uninterp spec fn clap_values(
    required: Seq<char>,
    single: Seq<Seq<char>>,
    repeated: Seq<Seq<char>>,
    args: Seq<Seq<char>>,
) -> Option<Seq<Seq<Seq<char>>>>;

/// Names that options can have together: none is empty, starts with a hyphen,
/// asks for help or stands twice.
pub open spec fn usable_names(names: Seq<Seq<char>>) -> bool {
    &&& names.no_duplicates()
    &&& forall|i: int|
        0 <= i < names.len() ==> (#[trigger] names[i]).len() > 0 && names[i][0] != '-' && names[i]
            != "help"@
}

/// `clap::Command::try_get_matches_from`, on a command with a required argument,
/// options that take one value and may stand once, and such that may be
/// repeated; then `ArgMatches::get_many` for each. There is a group of values
/// for each name. What the user is told of an error is left open.
#[verifier::external_body]
fn clap_parse(
    required: &OptionSpec,
    single: &Vec<OptionSpec>,
    repeated: &Vec<OptionSpec>,
    args: &Vec<String>,
) -> (res: Result<Vec<Vec<String>>, (i32, String)>)
    requires
        usable_names(seq![required.name@] + names_of(single@) + names_of(repeated@)),
    ensures
        match res {
            Ok(values) => clap_values(
                required.name@,
                names_of(single@),
                names_of(repeated@),
                string_views(args@),
            ) == Some(value_views(values@)) && values@.len() == 1 + single@.len() + repeated@.len(),
            Err(_) => clap_values(
                required.name@,
                names_of(single@),
                names_of(repeated@),
                string_views(args@),
            ) is None,
        },
{
    let arg = |o: &OptionSpec| Arg::new(o.name).long(o.name).help(o.help);
    let many = |o: &OptionSpec| arg(o).action(ArgAction::Append);
    let found = Command::new("benchmark")
        .about("Benchmark an AviUtl2 input plugin DLL")
        .arg(Arg::new(required.name).help(required.help).required(true))
        .args(single.iter().map(arg))
        .args(repeated.iter().map(many))
        .try_get_matches_from(args)
        .map_err(|e| (e.exit_code(), e.to_string()))?;
    let all = [required].into_iter().chain(single).chain(repeated);
    Ok(all.map(|o| found.get_many(o.name).unwrap_or_default().cloned().collect()).collect())
}

/// The number that a text stands for, as an option takes it: one below 2^32,
/// after a plus sign that may be left out. A minus sign may stand before zero.
pub open spec fn option_number(text: Seq<char>) -> Option<nat> {
    if text.len() > 0 && text[0] == '-' {
        if text.len() > 1 && text[1] != '+' && number_up_to(text.skip(1), 0) == Some(0nat) {
            Some(0)
        } else {
            None
        }
    } else {
        number_up_to(text, u32::MAX as nat)
    }
}

fn parse_option_number(text: &Vec<char>) -> (res: Option<u32>)
    ensures
        match res {
            Some(n) => option_number(text@) == Some(n as nat),
            None => option_number(text@) is None,
        },
{
    let n: usize = text.len();
    if n > 0 && text[0] == '-' {
        if n > 1 && text[1] != '+' {
            let digits: Vec<char> = part(text, 1, n);
            proof {
                assert(digits@ =~= text@.skip(1));
            }
            match parse_number(&digits, 0) {
                Some(_) => Some(0),
                None => None,
            }
        } else {
            None
        }
    } else {
        match parse_number(text, u32::MAX as u64) {
            Some(value) => Some(value as u32),
            None => None,
        }
    }
}

/// The numbers that some texts stand for, unless one stands for none.
pub open spec fn option_numbers(texts: Seq<Seq<char>>) -> Option<Seq<u32>>
    decreases texts.len(),
{
    if texts.len() == 0 {
        Some(seq![])
    } else {
        match (option_numbers(texts.drop_last()), option_number(texts.last())) {
            (Some(numbers), Some(n)) => Some(numbers.push(n as u32)),
            _ => None,
        }
    }
}

proof fn option_numbers_fail(texts: Seq<Seq<char>>, count: int)
    requires
        0 <= count <= texts.len(),
        option_numbers(texts.take(count)) is None,
    ensures
        option_numbers(texts) is None,
    decreases texts.len(),
{
    if count == texts.len() {
        assert(texts.take(count) =~= texts);
    } else {
        assert(texts.drop_last().take(count) =~= texts.take(count));
        option_numbers_fail(texts.drop_last(), count);
    }
}

/// The value of a number option: a default where it is not given.
pub open spec fn number_value(texts: Seq<Seq<char>>, default: u32) -> Option<u32> {
    if texts.len() == 0 {
        Some(default)
    } else {
        match option_number(texts[0]) {
            Some(n) => Some(n as u32),
            None => None,
        }
    }
}

/// The value of the option for the pause: zero where it is not given.
pub open spec fn delay_value(texts: Seq<Seq<char>>) -> Option<u64> {
    if texts.len() == 0 {
        Some(0)
    } else {
        match number_up_to(texts[0], u64::MAX as nat) {
            Some(n) => Some(n as u64),
            None => None,
        }
    }
}

/// The value of the option for the mode: both where it is not given.
pub open spec fn mode_value(texts: Seq<Seq<char>>) -> Option<ExecutionMode> {
    if texts.len() == 0 {
        Some(ExecutionMode::Both)
    } else {
        ExecutionMode::of_word(texts[0])
    }
}

/// The value of the option for the direction: both where it is not given.
pub open spec fn direction_value(texts: Seq<Seq<char>>) -> Option<FrameDirection> {
    if texts.len() == 0 {
        Some(FrameDirection::Both)
    } else {
        FrameDirection::of_word(texts[0])
    }
}

/// The value of the option for the priority of the process: high where it is
/// not given.
pub open spec fn process_value(texts: Seq<Seq<char>>) -> Option<ProcessPriority> {
    if texts.len() == 0 {
        Some(ProcessPriority::High)
    } else {
        ProcessPriority::of_word(texts[0])
    }
}

/// The value of the option for the priority of threads: the highest where it is
/// not given.
pub open spec fn thread_value(texts: Seq<Seq<char>>) -> Option<ThreadPriority> {
    if texts.len() == 0 {
        Some(ThreadPriority::Highest)
    } else {
        ThreadPriority::of_word(texts[0])
    }
}

/// The value of an option for a path, where it is given.
pub open spec fn path_value(texts: Seq<Seq<char>>) -> Option<Seq<char>> {
    if texts.len() == 0 {
        None
    } else {
        Some(texts[0])
    }
}

/// Whether some texts can be paths: none is empty.
pub open spec fn are_paths(texts: Seq<Seq<char>>) -> bool {
    forall|i: int| 0 <= i < texts.len() ==> (#[trigger] texts[i]).len() > 0
}

/// Why the values of a command line are not taken.
#[derive(Debug, Clone, Copy, PartialEq, Eq, Structural)]
pub enum ValueError {
    /// The library is not named.
    NoDll,
    /// The value of an option, by its place, is none that it can have.
    Invalid(usize),
}

/// Why the values of a command line are not taken: the library is not named, or
/// an option, here the first, has a value that it cannot have.
pub open spec fn value_error(values: Seq<Seq<Seq<char>>>) -> Option<ValueError> {
    if values[0].len() == 0 {
        Some(ValueError::NoDll)
    } else if !are_paths(values[0]) {
        Some(ValueError::Invalid(0))
    } else if mode_value(values[1]) is None {
        Some(ValueError::Invalid(1))
    } else if direction_value(values[2]) is None {
        Some(ValueError::Invalid(2))
    } else if process_value(values[3]) is None {
        Some(ValueError::Invalid(3))
    } else if thread_value(values[4]) is None {
        Some(ValueError::Invalid(4))
    } else if number_value(values[5], 30) is None {
        Some(ValueError::Invalid(5))
    } else if number_value(values[6], 300) is None {
        Some(ValueError::Invalid(6))
    } else if delay_value(values[7]) is None {
        Some(ValueError::Invalid(7))
    } else if number_value(values[8], 0) is None {
        Some(ValueError::Invalid(8))
    } else if number_value(values[9], 0) is None {
        Some(ValueError::Invalid(9))
    } else if !are_paths(values[10]) {
        Some(ValueError::Invalid(10))
    } else if !are_paths(values[11]) {
        Some(ValueError::Invalid(11))
    } else if !are_paths(values[12]) {
        Some(ValueError::Invalid(12))
    } else if option_numbers(values[13]) is None {
        Some(ValueError::Invalid(13))
    } else {
        None
    }
}

/// Whether the values of a command line say what is to be done.
pub open spec fn values_say(values: Seq<Seq<Seq<char>>>, args: Args) -> bool {
    &&& args.dll@ == values[0][0]
    &&& mode_value(values[1]) == Some(args.mode)
    &&& direction_value(values[2]) == Some(args.direction)
    &&& process_value(values[3]) == Some(args.process_priority)
    &&& thread_value(values[4]) == Some(args.thread_priority)
    &&& number_value(values[5], 30) == Some(args.warmup)
    &&& number_value(values[6], 300) == Some(args.frames)
    &&& delay_value(values[7]) == Some(args.read_delay_ms)
    &&& number_value(values[8], 0) == Some(args.frame_skip_min)
    &&& number_value(values[9], 0) == Some(args.frame_skip_max)
    &&& path_value(values[10]) == (match args.output {
        Some(path) => Some(path@),
        None => None,
    })
    &&& path_value(values[11]) == (match args.videos_dir {
        Some(path) => Some(path@),
        None => None,
    })
    &&& string_views(args.videos@) == values[12]
    &&& option_numbers(values[13]) == Some(args.verify_frames@)
}

fn number_of(texts: &Vec<String>, default: u32) -> (res: Option<u32>)
    ensures
        res == number_value(string_views(texts@), default),
{
    if texts.len() == 0 {
        Some(default)
    } else {
        parse_option_number(&chars_of(texts[0].as_str()))
    }
}

fn delay_of(texts: &Vec<String>) -> (res: Option<u64>)
    ensures
        res == delay_value(string_views(texts@)),
{
    if texts.len() == 0 {
        Some(0)
    } else {
        parse_number(&chars_of(texts[0].as_str()), u64::MAX)
    }
}

fn mode_of(texts: &Vec<String>) -> (res: Option<ExecutionMode>)
    ensures
        res == mode_value(string_views(texts@)),
{
    if texts.len() == 0 {
        Some(ExecutionMode::Both)
    } else {
        ExecutionMode::from_word(&chars_of(texts[0].as_str()))
    }
}

fn direction_of(texts: &Vec<String>) -> (res: Option<FrameDirection>)
    ensures
        res == direction_value(string_views(texts@)),
{
    if texts.len() == 0 {
        Some(FrameDirection::Both)
    } else {
        FrameDirection::from_word(&chars_of(texts[0].as_str()))
    }
}

fn process_of(texts: &Vec<String>) -> (res: Option<ProcessPriority>)
    ensures
        res == process_value(string_views(texts@)),
{
    if texts.len() == 0 {
        Some(ProcessPriority::High)
    } else {
        ProcessPriority::from_word(&chars_of(texts[0].as_str()))
    }
}

fn thread_of(texts: &Vec<String>) -> (res: Option<ThreadPriority>)
    ensures
        res == thread_value(string_views(texts@)),
{
    if texts.len() == 0 {
        Some(ThreadPriority::Highest)
    } else {
        ThreadPriority::from_word(&chars_of(texts[0].as_str()))
    }
}

fn path_of(texts: &Vec<String>) -> (res: Option<String>)
    ensures
        path_value(string_views(texts@)) == (match res {
            Some(path) => Some(path@),
            None => None,
        }),
{
    if texts.len() == 0 {
        None
    } else {
        Some(texts[0].clone())
    }
}

fn can_be_paths(texts: &Vec<String>) -> (res: bool)
    ensures
        res == are_paths(string_views(texts@)),
{
    let ghost all = string_views(texts@);
    let n: usize = texts.len();
    for i in 0..n
        invariant
            n == texts.len(),
            all == string_views(texts@),
            forall|j: int| 0 <= j < i ==> (#[trigger] all[j]).len() > 0,
    {
        proof {
            assert(all[i as int] == texts@[i as int]@);
        }
        if chars_of(texts[i].as_str()).len() == 0 {
            return false;
        }
    }
    true
}

fn copy_strings(texts: &Vec<String>) -> (res: Vec<String>)
    ensures
        string_views(res@) == string_views(texts@),
{
    let mut res: Vec<String> = Vec::new();
    let n: usize = texts.len();
    for i in 0..n
        invariant
            n == texts.len(),
            res.len() == i,
            forall|j: int| 0 <= j < i ==> (#[trigger] res@[j])@ == texts@[j]@,
    {
        res.push(texts[i].clone());
    }
    proof {
        assert(string_views(res@) =~= string_views(texts@));
    }
    res
}

fn numbers_of(texts: &Vec<String>) -> (res: Option<Vec<u32>>)
    ensures
        match res {
            Some(numbers) => option_numbers(string_views(texts@)) == Some(numbers@),
            None => option_numbers(string_views(texts@)) is None,
        },
{
    let ghost all = string_views(texts@);
    let mut numbers: Vec<u32> = Vec::new();
    let n: usize = texts.len();
    proof {
        assert(all.take(0) =~= seq![]);
        assert(numbers@ =~= seq![]);
    }
    for i in 0..n
        invariant
            n == texts.len(),
            all == string_views(texts@),
            option_numbers(all.take(i as int)) == Some(numbers@),
    {
        proof {
            assert(all.take(i + 1).drop_last() =~= all.take(i as int));
            assert(all.take(i + 1).last() == texts@[i as int]@);
        }
        match parse_option_number(&chars_of(texts[i].as_str())) {
            Some(number) => {
                numbers.push(number);
            },
            None => {
                proof {
                    option_numbers_fail(all, i + 1);
                }
                return None;
            },
        }
    }
    proof {
        assert(all.take(n as int) =~= all);
    }
    Some(numbers)
}

/// The name of the required argument.
pub open spec fn required_name() -> Seq<char> {
    "dll"@
}

/// The names of the options that may stand once.
pub open spec fn single_names() -> Seq<Seq<char>> {
    seq![
        "mode"@,
        "direction"@,
        "process-priority"@,
        "thread-priority"@,
        "warmup"@,
        "frames"@,
        "read-delay-ms"@,
        "frame-skip-min"@,
        "frame-skip-max"@,
        "output"@,
        "videos-dir"@,
    ]
}

/// The names of the options that may be repeated.
pub open spec fn repeated_names() -> Seq<Seq<char>> {
    seq!["video"@, "verify-frame"@]
}

fn single_options() -> (res: Vec<OptionSpec>)
    ensures
        names_of(res@) == single_names(),
{
    let mut res: Vec<OptionSpec> = Vec::new();
    res.push(
        OptionSpec {
            name: "mode",
            help: "Execution mode for multiple input handles: sequential, parallel or both [default: both]",
        },
    );
    res.push(
        OptionSpec {
            name: "direction",
            help: "Frame access direction: forward, reverse or both [default: both]",
        },
    );
    res.push(
        OptionSpec {
            name: "process-priority",
            help: "Windows process priority class [default: high]",
        },
    );
    res.push(
        OptionSpec {
            name: "thread-priority",
            help: "Priority for benchmark threads that call the input plugin [default: highest]",
        },
    );
    res.push(
        OptionSpec {
            name: "warmup",
            help: "Frame reads executed before measurement [default: 30]",
        },
    );
    res.push(
        OptionSpec {
            name: "frames",
            help: "Number of frame reads to measure [default: 300]",
        },
    );
    res.push(
        OptionSpec {
            name: "read-delay-ms",
            help: "Delay after each frame batch before requesting the next frame [default: 0]",
        },
    );
    res.push(
        OptionSpec {
            name: "frame-skip-min",
            help: "Minimum number of frames skipped between requests [default: 0]",
        },
    );
    res.push(
        OptionSpec {
            name: "frame-skip-max",
            help: "Maximum number of frames skipped between requests [default: 0]",
        },
    );
    res.push(
        OptionSpec {
            name: "output",
            help: "CSV output path",
        },
    );
    res.push(
        OptionSpec {
            name: "videos-dir",
            help: "Directory containing manifest.csv and the benchmark videos",
        },
    );
    proof {
        assert(names_of(res@) =~= single_names());
    }
    res
}

fn repeated_options() -> (res: Vec<OptionSpec>)
    ensures
        names_of(res@) == repeated_names(),
{
    let mut res: Vec<OptionSpec> = Vec::new();
    res.push(
        OptionSpec {
            name: "video",
            help: "Video path; repeat this option to override manifest.csv",
        },
    );
    res.push(
        OptionSpec {
            name: "verify-frame",
            help: "Read and hash a frame before benchmarking; repeat to verify an access sequence",
        },
    );
    proof {
        assert(names_of(res@) =~= repeated_names());
    }
    res
}

proof fn names_are_usable()
    ensures
        usable_names(seq![required_name()] + single_names() + repeated_names()),
{
    reveal_strlit("dll");
    reveal_strlit("mode");
    reveal_strlit("direction");
    reveal_strlit("process-priority");
    reveal_strlit("thread-priority");
    reveal_strlit("warmup");
    reveal_strlit("frames");
    reveal_strlit("read-delay-ms");
    reveal_strlit("frame-skip-min");
    reveal_strlit("frame-skip-max");
    reveal_strlit("output");
    reveal_strlit("videos-dir");
    reveal_strlit("video");
    reveal_strlit("verify-frame");
    reveal_strlit("help");
    let names = seq![required_name()] + single_names() + repeated_names();
    assert(names.len() == 14);
    assert(names[0] == "dll"@ && names[0].len() == 3 && names[0][0] == 'd' && names[0][2] == 'l');
    assert(names[1] == "mode"@ && names[1].len() == 4 && names[1][0] == 'm' && names[1][3] == 'e');
    assert(names[2] == "direction"@ && names[2].len() == 9 && names[2][0] == 'd' && names[2][8] == 'n');
    assert(names[3] == "process-priority"@ && names[3].len() == 16 && names[3][0] == 'p' && names[3][15] == 'y');
    assert(names[4] == "thread-priority"@ && names[4].len() == 15 && names[4][0] == 't' && names[4][14] == 'y');
    assert(names[5] == "warmup"@ && names[5].len() == 6 && names[5][0] == 'w' && names[5][5] == 'p');
    assert(names[6] == "frames"@ && names[6].len() == 6 && names[6][0] == 'f' && names[6][5] == 's');
    assert(names[7] == "read-delay-ms"@ && names[7].len() == 13 && names[7][0] == 'r' && names[7][12] == 's');
    assert(names[8] == "frame-skip-min"@ && names[8].len() == 14 && names[8][0] == 'f' && names[8][13] == 'n');
    assert(names[9] == "frame-skip-max"@ && names[9].len() == 14 && names[9][0] == 'f' && names[9][13] == 'x');
    assert(names[10] == "output"@ && names[10].len() == 6 && names[10][0] == 'o' && names[10][5] == 't');
    assert(names[11] == "videos-dir"@ && names[11].len() == 10 && names[11][0] == 'v' && names[11][9] == 'r');
    assert(names[12] == "video"@ && names[12].len() == 5 && names[12][0] == 'v' && names[12][4] == 'o');
    assert(names[13] == "verify-frame"@ && names[13].len() == 12 && names[13][0] == 'v' && names[13][11] == 'e');
}

/// Why a command line is not taken.
#[derive(Debug)]
pub enum ParseError {
    /// It does not have the form of a command line.
    Usage(UsageError),
    Value(ValueError),
}

impl Args {
    /// What the values of a command line say: one group for the library, then
    /// one for each option that may stand once, then one for each that may be
    /// repeated.
    pub fn from_values(values: &Vec<Vec<String>>) -> (res: Result<Args, ValueError>)
        requires
            values@.len() == 14,
        ensures
            match res {
                Ok(args) => value_error(value_views(values@)) is None && values_say(
                    value_views(values@),
                    args,
                ),
                Err(error) => value_error(value_views(values@)) == Some(error),
            },
    {
        let ghost views = value_views(values@);
        proof {
            assert forall|i: int| 0 <= i < 14 implies #[trigger] views[i] == string_views(
                values@[i]@,
            ) by {}
        }
        if values[0].len() == 0 {
            return Err(ValueError::NoDll);
        }
        if !can_be_paths(&values[0]) {
            return Err(ValueError::Invalid(0));
        }
        let dll: String = values[0][0].clone();
        let mode: ExecutionMode = match mode_of(&values[1]) {
            Some(value) => value,
            None => {
                return Err(ValueError::Invalid(1));
            },
        };
        let direction: FrameDirection = match direction_of(&values[2]) {
            Some(value) => value,
            None => {
                return Err(ValueError::Invalid(2));
            },
        };
        let process_priority: ProcessPriority = match process_of(&values[3]) {
            Some(value) => value,
            None => {
                return Err(ValueError::Invalid(3));
            },
        };
        let thread_priority: ThreadPriority = match thread_of(&values[4]) {
            Some(value) => value,
            None => {
                return Err(ValueError::Invalid(4));
            },
        };
        let warmup: u32 = match number_of(&values[5], 30) {
            Some(value) => value,
            None => {
                return Err(ValueError::Invalid(5));
            },
        };
        let frames: u32 = match number_of(&values[6], 300) {
            Some(value) => value,
            None => {
                return Err(ValueError::Invalid(6));
            },
        };
        let read_delay_ms: u64 = match delay_of(&values[7]) {
            Some(value) => value,
            None => {
                return Err(ValueError::Invalid(7));
            },
        };
        let frame_skip_min: u32 = match number_of(&values[8], 0) {
            Some(value) => value,
            None => {
                return Err(ValueError::Invalid(8));
            },
        };
        let frame_skip_max: u32 = match number_of(&values[9], 0) {
            Some(value) => value,
            None => {
                return Err(ValueError::Invalid(9));
            },
        };
        if !can_be_paths(&values[10]) {
            return Err(ValueError::Invalid(10));
        }
        if !can_be_paths(&values[11]) {
            return Err(ValueError::Invalid(11));
        }
        if !can_be_paths(&values[12]) {
            return Err(ValueError::Invalid(12));
        }
        let verify_frames: Vec<u32> = match numbers_of(&values[13]) {
            Some(value) => value,
            None => {
                return Err(ValueError::Invalid(13));
            },
        };
        Ok(
            Args {
                dll,
                mode,
                direction,
                process_priority,
                thread_priority,
                warmup,
                frames,
                read_delay_ms,
                frame_skip_min,
                frame_skip_max,
                output: path_of(&values[10]),
                videos_dir: path_of(&values[11]),
                videos: copy_strings(&values[12]),
                verify_frames,
            },
        )
    }

    /// Reads a command line, of which the first word names the program.
    pub fn try_parse_from(args: &Vec<String>) -> (res: Result<Args, ParseError>)
        ensures
            match clap_values(
                required_name(),
                single_names(),
                repeated_names(),
                string_views(args@),
            ) {
                None => res matches Err(ParseError::Usage(_)),
                Some(values) => match res {
                    Ok(args) => value_error(values) is None && values_say(values, args),
                    Err(ParseError::Value(error)) => value_error(values) == Some(error),
                    Err(ParseError::Usage(_)) => false,
                },
            },
    {
        let required: OptionSpec = OptionSpec {
            name: "dll",
            help: "AviUtl2 input plugin DLL to load",
        };
        let single: Vec<OptionSpec> = single_options();
        let repeated: Vec<OptionSpec> = repeated_options();
        proof {
            names_are_usable();
            assert(names_of(single@).len() == 11);
            assert(names_of(repeated@).len() == 2);
        }
        match clap_parse(&required, &single, &repeated, args) {
            Ok(values) => {
                match Args::from_values(&values) {
                    Ok(args) => Ok(args),
                    Err(error) => Err(ParseError::Value(error)),
                }
            },
            Err((exit_code, text)) => Err(ParseError::Usage(UsageError { exit_code, text })),
        }
    }
}

} // verus!

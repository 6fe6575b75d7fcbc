//! The settings of the plugin: an INI file, read line by line, to which keys
//! that it lacks are appended with their defaults.
use vstd::prelude::*;

use crate::text::{
    chars_of, extend, is_str, line_views, lines, lines_of, lowercase, lowercased, number_up_to,
    parse_number, part, same, split_at_first, split_once, string_of, trim, trimmed,
};

verus! {

/// What a settings file holds when nothing was changed in it.
pub const DEFAULT_CONFIG: &'static str =
    "[general]\n; Log level: trace, debug, info, warn or error.\nlog_level=info\n; Write the index as JSON as well, beside the binary format.\njson_index=false\n; Hardware decoding: none, auto, d3d11va, dxva2 or cuda.\nhwaccel=none\n; Frame rate: metadata (as the stream states it) or real (frames / duration).\nfps_mode=real\n; Digits behind the point to which a real frame rate is rounded.\nfps_precision=3\n; Hash only the size, the time and both ends of a file.\nrough_cache=false\n\n[prefetch]\n; Megabytes of frames to read ahead for one video.\nprefetch_buffer_mb=32\n; Megabytes of frames to read ahead for all open videos.\nprefetch_total_buffer_mb=512\n; Most frames to read ahead (0: no limit).\nprefetch_frames=10\n";

/// How much is logged.
#[derive(Debug, Clone, Copy, PartialEq, Eq, Structural)]
pub enum LogLevel {
    Trace,
    Debug,
    Info,
    Warn,
    Error,
}

/// Where the frame rate comes from.
#[derive(Debug, Clone, Copy, PartialEq, Eq, Structural)]
pub enum FpsMode {
    /// The average frame rate that the stream states.
    Metadata,
    /// Frames over duration, rounded to `fps_precision` digits.
    Real,
}

/// Which hardware decodes.
#[derive(Debug, Clone, Copy, PartialEq, Eq, Structural)]
pub enum HwAccel {
    /// Software decodes.
    Off,
    Auto,
    D3d11va,
    Dxva2,
    Cuda,
}

/// The settings.
#[derive(Debug, Clone, Copy, PartialEq, Eq, Structural)]
pub struct Config {
    pub log_level: LogLevel,
    pub json_index: bool,
    pub hwaccel: HwAccel,
    /// Megabytes of frames to read ahead for one video.
    pub prefetch_buffer_mb: u32,
    /// Megabytes of frames to read ahead for all open videos.
    pub prefetch_total_buffer_mb: u32,
    /// Most frames to read ahead; zero stands for no limit.
    pub prefetch_frames: u32,
    /// Digits behind the point of a frame rate, where `fps_mode` is `Real`.
    pub fps_precision: u32,
    pub fps_mode: FpsMode,
    /// Whether only the size, the time and both ends of a file are hashed.
    pub rough_cache: bool,
}

/// The settings that hold where no file says otherwise.
pub open spec fn default_config() -> Config {
    Config {
        log_level: LogLevel::Info,
        json_index: false,
        hwaccel: HwAccel::Off,
        prefetch_buffer_mb: 32,
        prefetch_total_buffer_mb: 512,
        prefetch_frames: 10,
        fps_precision: 3,
        fps_mode: FpsMode::Real,
        rough_cache: false,
    }
}

impl Default for Config {
    fn default() -> (res: Config)
        ensures
            res == default_config(),
    {
        Config {
            log_level: LogLevel::Info,
            json_index: false,
            hwaccel: HwAccel::Off,
            prefetch_buffer_mb: 32,
            prefetch_total_buffer_mb: 512,
            prefetch_frames: 10,
            fps_precision: 3,
            fps_mode: FpsMode::Real,
            rough_cache: false,
        }
    }
}

/// What a line of a settings file says.
pub enum Statement {
    /// `[name]`
    Section(Seq<char>),
    /// An empty line, or one that starts with `;` or `#`.
    Comment,
    /// `key = value`, without the white space around both.
    Setting(Seq<char>, Seq<char>),
    /// Anything else.
    Other,
}

/// What a line of a settings file says.
pub open spec fn statement(line: Seq<char>) -> Statement {
    let t = trim(line);
    if t.len() >= 2 && t[0] == '[' && t.last() == ']' {
        Statement::Section(t.subrange(1, t.len() - 1))
    } else if t.len() == 0 || t[0] == ';' || t[0] == '#' {
        Statement::Comment
    } else {
        match split_once(t, '=') {
            Some((key, value)) => Statement::Setting(trim(key), trim(value)),
            None => Statement::Other,
        }
    }
}

enum Parsed {
    Section(Vec<char>),
    Comment,
    Setting(Vec<char>, Vec<char>),
    Other,
}

impl View for Parsed {
    type V = Statement;

    closed spec fn view(&self) -> Statement {
        match self {
            Parsed::Section(name) => Statement::Section(name@),
            Parsed::Comment => Statement::Comment,
            Parsed::Setting(key, value) => Statement::Setting(key@, value@),
            Parsed::Other => Statement::Other,
        }
    }
}

fn parse_line(line: &Vec<char>) -> (res: Parsed)
    ensures
        res@ == statement(line@),
{
    let t: Vec<char> = trimmed(line);
    let n: usize = t.len();
    if n >= 2 && t[0] == '[' && t[n - 1] == ']' {
        return Parsed::Section(part(&t, 1, n - 1));
    }
    if n == 0 || t[0] == ';' || t[0] == '#' {
        return Parsed::Comment;
    }
    match split_at_first(&t, '=') {
        Some((key, value)) => Parsed::Setting(trimmed(&key), trimmed(&value)),
        None => Parsed::Other,
    }
}

/// The log level of a value; a word that is none stands for `Info`.
pub open spec fn log_level_of(value: Seq<char>) -> LogLevel {
    let v = lowercase(value);
    if v == "trace"@ {
        LogLevel::Trace
    } else if v == "debug"@ {
        LogLevel::Debug
    } else if v == "info"@ {
        LogLevel::Info
    } else if v == "warn"@ || v == "warning"@ {
        LogLevel::Warn
    } else if v == "error"@ {
        LogLevel::Error
    } else {
        LogLevel::Info
    }
}

/// The switch of a value: `true`, `1` and `yes` turn it on.
pub open spec fn switch_of(value: Seq<char>) -> bool {
    let v = lowercase(value);
    v == "true"@ || v == "1"@ || v == "yes"@
}

/// The hardware of a value; a word that is none stands for `Off`.
pub open spec fn hwaccel_of(value: Seq<char>) -> HwAccel {
    let v = lowercase(value);
    if v == "auto"@ {
        HwAccel::Auto
    } else if v == "d3d11va"@ {
        HwAccel::D3d11va
    } else if v == "dxva2"@ {
        HwAccel::Dxva2
    } else if v == "cuda"@ {
        HwAccel::Cuda
    } else {
        HwAccel::Off
    }
}

/// The frame rate mode of a value; a word that is none stands for `Real`.
pub open spec fn fps_mode_of(value: Seq<char>) -> FpsMode {
    if lowercase(value) == "metadata"@ {
        FpsMode::Metadata
    } else {
        FpsMode::Real
    }
}

/// The number of a value, or the one before where the value is no `u32`.
pub open spec fn number_or(value: Seq<char>, before: u32) -> u32 {
    match number_up_to(value, u32::MAX as nat) {
        Some(n) => n as u32,
        None => before,
    }
}

/// The settings after `key = value` in a section. A key that the section does
/// not have changes nothing.
pub open spec fn with_setting(
    c: Config,
    section: Seq<char>,
    key: Seq<char>,
    value: Seq<char>,
) -> Config {
    if section == "general"@ {
        if key == "log_level"@ {
            Config { log_level: log_level_of(value), ..c }
        } else if key == "json_index"@ {
            Config { json_index: switch_of(value), ..c }
        } else if key == "hwaccel"@ {
            Config { hwaccel: hwaccel_of(value), ..c }
        } else if key == "fps_mode"@ {
            Config { fps_mode: fps_mode_of(value), ..c }
        } else if key == "fps_precision"@ {
            Config { fps_precision: number_or(value, c.fps_precision), ..c }
        } else if key == "rough_cache"@ {
            Config { rough_cache: switch_of(value), ..c }
        } else {
            c
        }
    } else if section == "prefetch"@ {
        if key == "prefetch_buffer_mb"@ {
            Config { prefetch_buffer_mb: number_or(value, c.prefetch_buffer_mb), ..c }
        } else if key == "prefetch_total_buffer_mb"@ {
            Config { prefetch_total_buffer_mb: number_or(value, c.prefetch_total_buffer_mb), ..c }
        } else if key == "prefetch_frames"@ {
            Config { prefetch_frames: number_or(value, c.prefetch_frames), ..c }
        } else {
            c
        }
    } else {
        c
    }
}

/// The section that is open after some lines.
pub open spec fn section_after(lines: Seq<Seq<char>>) -> Seq<char>
    decreases lines.len(),
{
    if lines.len() == 0 {
        seq![]
    } else {
        match statement(lines.last()) {
            Statement::Section(name) => name,
            _ => section_after(lines.drop_last()),
        }
    }
}

/// The settings after some lines: each setting in the section that is open
/// where it stands, a later one in place of an earlier one.
pub open spec fn config_after(lines: Seq<Seq<char>>) -> Config
    decreases lines.len(),
{
    if lines.len() == 0 {
        default_config()
    } else {
        let before = config_after(lines.drop_last());
        match statement(lines.last()) {
            Statement::Setting(key, value) => with_setting(
                before,
                section_after(lines.drop_last()),
                key,
                value,
            ),
            _ => before,
        }
    }
}

fn parse_log_level(value: &Vec<char>) -> (res: LogLevel)
    ensures
        res == log_level_of(value@),
{
    let v: Vec<char> = lowercased(value);
    if is_str(&v, "trace") {
        LogLevel::Trace
    } else if is_str(&v, "debug") {
        LogLevel::Debug
    } else if is_str(&v, "info") {
        LogLevel::Info
    } else if is_str(&v, "warn") || is_str(&v, "warning") {
        LogLevel::Warn
    } else if is_str(&v, "error") {
        LogLevel::Error
    } else {
        LogLevel::Info
    }
}

fn parse_switch(value: &Vec<char>) -> (res: bool)
    ensures
        res == switch_of(value@),
{
    let v: Vec<char> = lowercased(value);
    is_str(&v, "true") || is_str(&v, "1") || is_str(&v, "yes")
}

fn parse_hwaccel(value: &Vec<char>) -> (res: HwAccel)
    ensures
        res == hwaccel_of(value@),
{
    let v: Vec<char> = lowercased(value);
    if is_str(&v, "auto") {
        HwAccel::Auto
    } else if is_str(&v, "d3d11va") {
        HwAccel::D3d11va
    } else if is_str(&v, "dxva2") {
        HwAccel::Dxva2
    } else if is_str(&v, "cuda") {
        HwAccel::Cuda
    } else {
        HwAccel::Off
    }
}

fn parse_fps_mode(value: &Vec<char>) -> (res: FpsMode)
    ensures
        res == fps_mode_of(value@),
{
    let v: Vec<char> = lowercased(value);
    if is_str(&v, "metadata") {
        FpsMode::Metadata
    } else {
        FpsMode::Real
    }
}

fn parse_number_or(value: &Vec<char>, before: u32) -> (res: u32)
    ensures
        res == number_or(value@, before),
{
    match parse_number(value, u32::MAX as u64) {
        Some(n) => n as u32,
        None => before,
    }
}

fn set(c: Config, section: &Vec<char>, key: &Vec<char>, value: &Vec<char>) -> (res: Config)
    ensures
        res == with_setting(c, section@, key@, value@),
{
    let mut c: Config = c;
    if is_str(section, "general") {
        if is_str(key, "log_level") {
            c.log_level = parse_log_level(value);
        } else if is_str(key, "json_index") {
            c.json_index = parse_switch(value);
        } else if is_str(key, "hwaccel") {
            c.hwaccel = parse_hwaccel(value);
        } else if is_str(key, "fps_mode") {
            c.fps_mode = parse_fps_mode(value);
        } else if is_str(key, "fps_precision") {
            c.fps_precision = parse_number_or(value, c.fps_precision);
        } else if is_str(key, "rough_cache") {
            c.rough_cache = parse_switch(value);
        }
    } else if is_str(section, "prefetch") {
        if is_str(key, "prefetch_buffer_mb") {
            c.prefetch_buffer_mb = parse_number_or(value, c.prefetch_buffer_mb);
        } else if is_str(key, "prefetch_total_buffer_mb") {
            c.prefetch_total_buffer_mb = parse_number_or(value, c.prefetch_total_buffer_mb);
        } else if is_str(key, "prefetch_frames") {
            c.prefetch_frames = parse_number_or(value, c.prefetch_frames);
        }
    }
    c
}

fn parse_settings(lines: &Vec<Vec<char>>) -> (res: Config)
    ensures
        res == config_after(line_views(lines@)),
{
    let mut config: Config = Config::default();
    let mut section: Vec<char> = Vec::new();
    let n: usize = lines.len();
    let ghost views = line_views(lines@);
    proof {
        assert(views.take(0) =~= seq![]);
    }
    for i in 0..n
        invariant
            n == lines.len(),
            views == line_views(lines@),
            section@ == section_after(views.take(i as int)),
            config == config_after(views.take(i as int)),
    {
        proof {
            assert(views.take(i + 1).drop_last() =~= views.take(i as int));
            assert(views.take(i + 1).last() == lines[i as int]@);
        }
        match parse_line(&lines[i]) {
            Parsed::Section(name) => {
                section = name;
            },
            Parsed::Setting(key, value) => {
                config = set(config, &section, &key, &value);
            },
            Parsed::Comment => {},
            Parsed::Other => {},
        }
    }
    proof {
        assert(views.take(n as int) =~= views);
    }
    config
}

/// A key of the default settings, and the lines that state it.
pub struct KeyEntry {
    pub key: String,
    pub section: String,
    /// The comments before the key and its own line.
    pub block: String,
}

/// A key of the default settings, and the lines that state it.
#[verifier::ext_equal]
pub struct KeyText {
    pub key: Seq<char>,
    pub section: Seq<char>,
    pub block: Seq<char>,
}

impl View for KeyEntry {
    type V = KeyText;

    open spec fn view(&self) -> KeyText {
        KeyText { key: self.key@, section: self.section@, block: self.block@ }
    }
}

/// Lines, each with a line feed behind it.
pub open spec fn joined(lines: Seq<Seq<char>>) -> Seq<char>
    decreases lines.len(),
{
    if lines.len() == 0 {
        seq![]
    } else {
        joined(lines.drop_last()) + lines.last() + seq!['\n']
    }
}

/// The comments since the last line that is none.
pub open spec fn comments_after(lines: Seq<Seq<char>>) -> Seq<Seq<char>>
    decreases lines.len(),
{
    if lines.len() == 0 {
        seq![]
    } else {
        match statement(lines.last()) {
            Statement::Comment => comments_after(lines.drop_last()).push(lines.last()),
            _ => seq![],
        }
    }
}

/// The text that states a key: its line after the comments that belong to it,
/// with an empty line before the comments.
pub open spec fn block_of(comments: Seq<Seq<char>>, line: Seq<char>) -> Seq<char> {
    (if comments.len() > 0 {
        seq!['\n']
    } else {
        seq![]
    }) + joined(comments) + (line + seq!['\n'])
}

/// The keys that some lines state, in their order.
pub open spec fn keys_after(lines: Seq<Seq<char>>) -> Seq<KeyText>
    decreases lines.len(),
{
    if lines.len() == 0 {
        seq![]
    } else {
        let before = lines.drop_last();
        match statement(lines.last()) {
            Statement::Setting(key, _) => keys_after(before).push(
                KeyText {
                    key,
                    section: section_after(before),
                    block: block_of(comments_after(before), lines.last()),
                },
            ),
            _ => keys_after(before),
        }
    }
}

/// The keys that a settings file states.
pub open spec fn keys_of(text: Seq<char>) -> Seq<KeyText> {
    keys_after(lines_of(text))
}

/// The views of some entries.
pub open spec fn entry_views(entries: Seq<KeyEntry>) -> Seq<KeyText> {
    entries.map_values(|e: KeyEntry| e@)
}

/// What stands before the first equals sign of a line.
pub open spec fn key_of(line: Seq<char>) -> Option<Seq<char>> {
    match split_once(line, '=') {
        Some((key, _)) => Some(trim(key)),
        None => None,
    }
}

/// Whether a line of a settings file states a key, in whichever section.
pub open spec fn has_key(content: Seq<char>, key: Seq<char>) -> bool {
    exists|i: int|
        0 <= i < lines_of(content).len() && key_of(#[trigger] lines_of(content)[i]) == Some(key)
}

/// The section of the last of some entries that a settings file lacks.
pub open spec fn last_added_section(content: Seq<char>, entries: Seq<KeyText>) -> Seq<char>
    decreases entries.len(),
{
    if entries.len() == 0 {
        seq![]
    } else if has_key(content, entries.last().key) {
        last_added_section(content, entries.drop_last())
    } else {
        entries.last().section
    }
}

/// The header that opens a section.
pub open spec fn header(section: Seq<char>) -> Seq<char> {
    seq!['\n', '['] + section + seq![']', '\n']
}

/// The text that gives a settings file the entries that it lacks. A header
/// stands before the first of each section.
pub open spec fn additions(content: Seq<char>, entries: Seq<KeyText>) -> Seq<char>
    decreases entries.len(),
{
    if entries.len() == 0 {
        seq![]
    } else {
        let before = additions(content, entries.drop_last());
        let entry = entries.last();
        if has_key(content, entry.key) {
            before
        } else if entry.section == last_added_section(content, entries.drop_last()) {
            before + entry.block
        } else {
            before + header(entry.section) + entry.block
        }
    }
}

fn block(comments: &Vec<Vec<char>>, line: &Vec<char>) -> (res: Vec<char>)
    ensures
        res@ == block_of(line_views(comments@), line@),
{
    let mut res: Vec<char> = Vec::new();
    let n: usize = comments.len();
    if n > 0 {
        res.push('\n');
    }
    let ghost lead = res@;
    let ghost views = line_views(comments@);
    proof {
        assert(views.take(0) =~= seq![]);
        assert(lead + joined(views.take(0)) =~= lead);
        assert(lead =~= if n > 0 {
            seq!['\n']
        } else {
            seq![]
        });
    }
    for i in 0..n
        invariant
            n == comments.len(),
            views == line_views(comments@),
            res@ == lead + joined(views.take(i as int)),
    {
        proof {
            assert(views.take(i + 1).drop_last() =~= views.take(i as int));
            assert(views.take(i + 1).last() == comments[i as int]@);
        }
        extend(&mut res, &comments[i]);
        res.push('\n');
        proof {
            assert(res@ =~= lead + joined(views.take(i + 1)));
        }
    }
    proof {
        assert(views.take(n as int) =~= views);
    }
    extend(&mut res, line);
    res.push('\n');
    proof {
        assert(res@ =~= block_of(views, line@));
    }
    res
}

/// The keys that a settings file states, in their order.
pub fn key_entries(text: &str) -> (res: Vec<KeyEntry>)
    ensures
        entry_views(res@) == keys_of(text@),
{
    let all: Vec<Vec<char>> = lines(&chars_of(text));
    let mut res: Vec<KeyEntry> = Vec::new();
    let mut comments: Vec<Vec<char>> = Vec::new();
    let mut section: Vec<char> = Vec::new();
    let n: usize = all.len();
    let ghost views = line_views(all@);
    proof {
        assert(views.take(0) =~= seq![]);
        assert(line_views(comments@) =~= seq![]);
        assert(entry_views(res@) =~= seq![]);
    }
    for i in 0..n
        invariant
            n == all.len(),
            views == line_views(all@),
            section@ == section_after(views.take(i as int)),
            line_views(comments@) == comments_after(views.take(i as int)),
            entry_views(res@) == keys_after(views.take(i as int)),
    {
        proof {
            assert(views.take(i + 1).drop_last() =~= views.take(i as int));
            assert(views.take(i + 1).last() == all[i as int]@);
        }
        match parse_line(&all[i]) {
            Parsed::Section(name) => {
                section = name;
                comments = Vec::new();
            },
            Parsed::Comment => {
                let ghost before = comments@;
                comments.push(part(&all[i], 0, all[i].len()));
                proof {
                    assert(all[i as int]@.subrange(0, all[i as int].len() as int)
                        =~= all[i as int]@);
                    assert(line_views(comments@) =~= line_views(before).push(all[i as int]@));
                }
            },
            Parsed::Setting(key, _value) => {
                let text: Vec<char> = block(&comments, &all[i]);
                let ghost before = res@;
                res.push(
                    KeyEntry {
                        key: string_of(&key),
                        section: string_of(&section),
                        block: string_of(&text),
                    },
                );
                proof {
                    assert(entry_views(res@) =~= entry_views(before).push(res@.last()@));
                }
                comments = Vec::new();
            },
            Parsed::Other => {
                comments = Vec::new();
            },
        }
        proof {
            if comments.len() == 0 {
                assert(line_views(comments@) =~= seq![]);
            }
        }
    }
    proof {
        assert(views.take(n as int) =~= views);
    }
    res
}

/// The keys of the default settings, in their order.
pub fn default_key_entries() -> (res: Vec<KeyEntry>)
    ensures
        entry_views(res@) == keys_of(DEFAULT_CONFIG@),
{
    key_entries(DEFAULT_CONFIG)
}

fn states_key(all: &Vec<Vec<char>>, key: &Vec<char>) -> (res: bool)
    ensures
        res == (exists|i: int|
            0 <= i < all.len() && key_of(#[trigger] line_views(all@)[i]) == Some(key@)),
{
    let n: usize = all.len();
    for i in 0..n
        invariant
            n == all.len(),
            forall|j: int| 0 <= j < i ==> key_of(#[trigger] line_views(all@)[j]) != Some(key@),
    {
        proof {
            assert(line_views(all@)[i as int] == all[i as int]@);
        }
        match split_at_first(&all[i], '=') {
            Some((before, _after)) => {
                let found: Vec<char> = trimmed(&before);
                if same(&found, key) {
                    return true;
                }
            },
            None => {},
        }
    }
    false
}

fn missing(content: &str, entries: &Vec<KeyEntry>) -> (res: Vec<char>)
    ensures
        res@ == additions(content@, entry_views(entries@)),
{
    let all: Vec<Vec<char>> = lines(&chars_of(content));
    let mut res: Vec<char> = Vec::new();
    let mut last_section: Vec<char> = Vec::new();
    let n: usize = entries.len();
    let ghost views = entry_views(entries@);
    proof {
        assert(views.take(0) =~= seq![]);
    }
    for i in 0..n
        invariant
            n == entries.len(),
            views == entry_views(entries@),
            line_views(all@) == lines_of(content@),
            res@ == additions(content@, views.take(i as int)),
            last_section@ == last_added_section(content@, views.take(i as int)),
    {
        let entry: &KeyEntry = &entries[i];
        proof {
            assert(views.take(i + 1).drop_last() =~= views.take(i as int));
            assert(views.take(i + 1).last() == entry@);
        }
        let key: Vec<char> = chars_of(entry.key.as_str());
        if !states_key(&all, &key) {
            let ghost before = res@;
            let section: Vec<char> = chars_of(entry.section.as_str());
            let block: Vec<char> = chars_of(entry.block.as_str());
            if !same(&section, &last_section) {
                res.push('\n');
                res.push('[');
                extend(&mut res, &section);
                res.push(']');
                res.push('\n');
                proof {
                    assert(res@ =~= before + header(entry.section@));
                }
                last_section = section;
            }
            extend(&mut res, &block);
        }
    }
    proof {
        assert(views.take(n as int) =~= views);
    }
    res
}

/// What becomes of a settings file once it was read.
pub enum FileChange {
    /// It stays as it is.
    Keep,
    /// It is written anew with this text.
    Write(String),
    /// This text is put at its end.
    Append(String),
}

/// The settings that a file gives, and what becomes of the file.
pub struct Loaded {
    pub config: Config,
    pub change: FileChange,
}

/// What becomes of a settings file: one that cannot be read is written with
/// the defaults; one that lacks keys gets them at its end.
pub open spec fn change_of(content: Option<Seq<char>>, change: FileChange) -> bool {
    match content {
        None => change matches FileChange::Write(text) && text@ == DEFAULT_CONFIG@,
        Some(content) => {
            let more = additions(content, keys_of(DEFAULT_CONFIG@));
            if more.len() == 0 {
                change is Keep
            } else {
                change matches FileChange::Append(text) && text@ == more
            }
        },
    }
}

impl Config {
    /// Reads the settings from what the settings file holds, or `None` where it
    /// cannot be read.
    pub fn load(content: Option<&str>) -> (res: Loaded)
        ensures
            content is None ==> res.config == default_config(),
            content is Some ==> res.config == config_after(lines_of(content->0@)),
            change_of(
                match content {
                    Some(text) => Some(text@),
                    None => None,
                },
                res.change,
            ),
    {
        match content {
            None => Loaded {
                config: Config::default(),
                change: FileChange::Write(String::from_str(DEFAULT_CONFIG)),
            },
            Some(text) => {
                let config: Config = parse_settings(&lines(&chars_of(text)));
                let more: Vec<char> = missing(text, &default_key_entries());
                let change: FileChange = if more.len() == 0 {
                    FileChange::Keep
                } else {
                    FileChange::Append(string_of(&more))
                };
                Loaded { config, change }
            },
        }
    }
}

} // verus!

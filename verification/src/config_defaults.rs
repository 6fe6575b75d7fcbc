//! What the default settings file states, and what a file that got the keys that
//! it lacked gives.
use vstd::prelude::*;

use crate::config::{
    additions, block_of, change_of, comments_after, config_after, default_config, has_key, header,
    key_of, keys_after, keys_of, last_added_section, section_after, statement,
    with_setting, Config, FileChange, FpsMode, HwAccel, KeyText, LogLevel, Statement,
    DEFAULT_CONFIG,
};
use crate::config_laws::{
    additions_set_what_is_lacked, comments_are_comments, defaults_state_themselves, grouped,
    header_lines, lines_before_line_feed, lines_behind_line_feed, lines_hold_no_line_feed,
    lines_of_a_block, one_piece, sections_open_the_text, sets_what_is_lacked, setting_has_its_key,
    statement_without_return, states_itself, text_after, trim_end_is_prefix,
};
use crate::text::{
    digits_value, find_unique, lines_of, lines_of_concat, lowercase, number_up_to, trim,
    unsigned_digits, white_space,
};

verus! {

/// The settings with that of a key at its default.
pub open spec fn with_default(c: Config, key: Seq<char>) -> Config {
    if key == "log_level"@ {
        Config { log_level: LogLevel::Info, ..c }
    } else if key == "json_index"@ {
        Config { json_index: false, ..c }
    } else if key == "hwaccel"@ {
        Config { hwaccel: HwAccel::Off, ..c }
    } else if key == "fps_mode"@ {
        Config { fps_mode: FpsMode::Real, ..c }
    } else if key == "fps_precision"@ {
        Config { fps_precision: 3, ..c }
    } else if key == "rough_cache"@ {
        Config { rough_cache: false, ..c }
    } else if key == "prefetch_buffer_mb"@ {
        Config { prefetch_buffer_mb: 32, ..c }
    } else if key == "prefetch_total_buffer_mb"@ {
        Config { prefetch_total_buffer_mb: 512, ..c }
    } else if key == "prefetch_frames"@ {
        Config { prefetch_frames: 10, ..c }
    } else {
        c
    }
}

proof fn unstated_lines_have_their_default(lines: Seq<Seq<char>>, key: Seq<char>)
    requires
        forall|i: int| 0 <= i < lines.len() ==> key_of(#[trigger] lines[i]) != Some(key),
    ensures
        with_default(config_after(lines), key) == config_after(lines),
    decreases lines.len(),
{
    if lines.len() > 0 {
        let before = lines.drop_last();
        assert forall|i: int| 0 <= i < before.len() implies key_of(#[trigger] before[i]) != Some(
            key,
        ) by {
            assert(key_of(lines[i]) != Some(key));
        }
        unstated_lines_have_their_default(before, key);
        assert(key_of(lines[lines.len() - 1]) != Some(key));
        if statement(lines.last()) is Setting {
            setting_has_its_key(lines.last());
        }
    }
}

/// A setting whose key a file does not state, in whichever section, has its
/// default.
pub proof fn unstated_settings_have_their_default(content: Seq<char>, key: Seq<char>)
    requires
        !has_key(content, key),
    ensures
        with_default(config_after(lines_of(content)), key) == config_after(lines_of(content)),
{
    unstated_lines_have_their_default(lines_of(content), key);
}

/// Whether a line of a section gives a setting its default.
pub open spec fn states_default(section: Seq<char>, key: Seq<char>, value: Seq<char>) -> bool {
    forall|c: Config| #[trigger] with_setting(c, section, key, value) == with_default(c, key)
}

/// Whether each setting among some lines stands in a section that gives it its
/// default.
spec fn states_defaults(lines: Seq<Seq<char>>) -> bool {
    forall|i: int|
        0 <= i < lines.len() ==> (statement(#[trigger] lines[i]) matches Statement::Setting(k, v)
            ==> section_after(lines.take(i)).len() > 0 && states_default(
            section_after(lines.take(i)),
            k,
            v,
        ))
}

proof fn section_behind(front: Seq<Seq<char>>, lines: Seq<Seq<char>>)
    ensures
        section_after(lines).len() > 0 ==> section_after(front + lines) == section_after(lines),
        section_after(front).len() == 0 ==> section_after(front + lines) == section_after(lines),
    decreases lines.len(),
{
    if lines.len() == 0 {
        assert(front + lines =~= front);
        if section_after(front).len() == 0 {
            assert(section_after(front) =~= section_after(lines));
        }
    } else {
        assert((front + lines).drop_last() =~= front + lines.drop_last());
        assert((front + lines).last() == lines.last());
        section_behind(front, lines.drop_last());
    }
}

proof fn section_stays(front: Seq<Seq<char>>, lines: Seq<Seq<char>>)
    requires
        forall|i: int| 0 <= i < lines.len() ==> statement(#[trigger] lines[i]) !is Section,
    ensures
        section_after(front + lines) == section_after(front),
    decreases lines.len(),
{
    if lines.len() == 0 {
        assert(front + lines =~= front);
    } else {
        let before = lines.drop_last();
        assert((front + lines).drop_last() =~= front + before);
        assert((front + lines).last() == lines[lines.len() - 1]);
        assert forall|i: int| 0 <= i < before.len() implies statement(
            #[trigger] before[i],
        ) !is Section by {
            assert(statement(lines[i]) !is Section);
        }
        section_stays(front, before);
    }
}

/// Whether the lines of a block open no section and give the settings of a
/// section their defaults.
spec fn block_states_defaults(lines: Seq<Seq<char>>, section: Seq<char>) -> bool {
    forall|i: int|
        0 <= i < lines.len() ==> {
            &&& statement(#[trigger] lines[i]) !is Section
            &&& statement(lines[i]) matches Statement::Setting(k, v) ==> states_default(
                section,
                k,
                v,
            )
        }
}

proof fn block_behind(front: Seq<Seq<char>>, lines: Seq<Seq<char>>)
    requires
        states_defaults(front),
        section_after(front).len() > 0,
        block_states_defaults(lines, section_after(front)),
    ensures
        states_defaults(front + lines),
        section_after(front + lines) == section_after(front),
{
    let all = front + lines;
    assert forall|i: int| 0 <= i < lines.len() implies statement(#[trigger] lines[i]) !is Section by {
    }
    section_stays(front, lines);
    assert forall|i: int| 0 <= i < all.len() implies (statement(
        #[trigger] all[i],
    ) matches Statement::Setting(k, v) ==> section_after(all.take(i)).len() > 0 && states_default(
        section_after(all.take(i)),
        k,
        v,
    )) by {
        if i < front.len() {
            assert(all[i] == front[i]);
            assert(all.take(i) =~= front.take(i));
        } else {
            let j = i - front.len();
            let part = lines.take(j);
            assert(all[i] == lines[j]);
            assert(all.take(i) =~= front + part);
            assert forall|n: int| 0 <= n < part.len() implies statement(
                #[trigger] part[n],
            ) !is Section by {
                assert(part[n] == lines[n]);
            }
            section_stays(front, part);
        }
    }
}

proof fn header_behind(front: Seq<Seq<char>>, section: Seq<char>)
    requires
        states_defaults(front),
        one_piece(section),
    ensures
        states_defaults(front + lines_of(header(section))),
        section_after(front + lines_of(header(section))) == section,
{
    let line = seq!['['] + section + seq![']'];
    let lines = lines_of(header(section));
    let all = front + lines;
    header_lines(section);
    assert(all.last() == line);
    assert forall|i: int| 0 <= i < all.len() implies (statement(
        #[trigger] all[i],
    ) matches Statement::Setting(k, v) ==> section_after(all.take(i)).len() > 0 && states_default(
        section_after(all.take(i)),
        k,
        v,
    )) by {
        if i < front.len() {
            assert(all[i] == front[i]);
            assert(all.take(i) =~= front.take(i));
        } else {
            assert(all[i] == lines[i - front.len()]);
        }
    }
}

proof fn additions_state_defaults(content: Seq<char>, entries: Seq<KeyText>)
    requires
        forall|k: int| 0 <= k < entries.len() ==> states_itself(#[trigger] entries[k]),
        forall|k: int| 0 <= k < entries.len() ==> (#[trigger] entries[k]).section.len() > 0,
        forall|k: int|
            0 <= k < entries.len() ==> block_states_defaults(
                lines_of((#[trigger] entries[k]).block),
                entries[k].section,
            ),
    ensures
        states_defaults(lines_of(additions(content, entries))),
        additions(content, entries).len() > 0 ==> section_after(
            lines_of(additions(content, entries)),
        ) == last_added_section(content, entries),
    decreases entries.len(),
{
    if entries.len() == 0 {
        assert(lines_of(additions(content, entries)).len() == 0);
    } else {
        let before = entries.drop_last();
        let entry = entries.last();
        assert(entry == entries[entries.len() - 1]);
        assert forall|k: int| 0 <= k < before.len() implies states_itself(#[trigger] before[k]) by {
            assert(states_itself(entries[k]));
        }
        assert forall|k: int| 0 <= k < before.len() implies (#[trigger] before[k]).section.len()
            > 0 by {
            assert(entries[k].section.len() > 0);
        }
        assert forall|k: int| 0 <= k < before.len() implies block_states_defaults(
            lines_of((#[trigger] before[k]).block),
            before[k].section,
        ) by {
            assert(block_states_defaults(lines_of(entries[k].block), entries[k].section));
        }
        additions_state_defaults(content, before);
        additions_set_what_is_lacked(content, before);
        sections_open_the_text(content, before);
        if !has_key(content, entry.key) {
            let had = additions(content, before);
            let opened = if entry.section == last_added_section(content, before) {
                had
            } else {
                had + header(entry.section)
            };
            if opened != had {
                header_behind(lines_of(had), entry.section);
                if had.len() > 0 {
                    lines_of_concat(had, header(entry.section));
                } else {
                    assert(opened =~= header(entry.section));
                    assert(lines_of(had) + lines_of(header(entry.section)) =~= lines_of(
                        header(entry.section),
                    ));
                }
                assert(opened.last() == '\n');
            }
            assert(section_after(lines_of(opened)) == entry.section);
            lines_of_concat(opened, entry.block);
            block_behind(lines_of(opened), lines_of(entry.block));
            assert(additions(content, entries) =~= opened + entry.block);
        }
    }
}

proof fn keys_state_defaults(lines: Seq<Seq<char>>)
    requires
        forall|i: int| 0 <= i < lines.len() ==> one_piece(#[trigger] lines[i]),
        states_defaults(lines),
    ensures
        forall|k: int|
            0 <= k < keys_after(lines).len() ==> block_states_defaults(
                lines_of((#[trigger] keys_after(lines)[k]).block),
                keys_after(lines)[k].section,
            ),
    decreases lines.len(),
{
    if lines.len() > 0 {
        let before = lines.drop_last();
        let line = lines.last();
        assert(line == lines[lines.len() - 1]);
        assert(one_piece(line));
        assert(lines.take(lines.len() - 1) =~= before);
        assert forall|i: int| 0 <= i < before.len() implies one_piece(#[trigger] before[i]) by {
            assert(one_piece(lines[i]));
        }
        shorter_lines_state_defaults(lines);
        keys_state_defaults(before);
        comments_are_comments(before);
        if statement(line) is Setting {
            lines_of_a_block(comments_after(before), line);
            let last = keys_after(lines).last();
            assert(last.block == block_of(comments_after(before), line));
            assert(last.section == section_after(before));
            assert(block_states_defaults(lines_of(last.block), last.section));
        }
        assert forall|k: int| 0 <= k < keys_after(lines).len() implies block_states_defaults(
            lines_of((#[trigger] keys_after(lines)[k]).block),
            keys_after(lines)[k].section,
        ) by {
            if k < keys_after(before).len() {
                assert(keys_after(lines)[k] == keys_after(before)[k]);
            }
        }
    }
}

proof fn shorter_lines_state_defaults(lines: Seq<Seq<char>>)
    requires
        lines.len() > 0,
        states_defaults(lines),
    ensures
        states_defaults(lines.drop_last()),
{
    let before = lines.drop_last();
    assert forall|i: int| 0 <= i < before.len() implies (statement(
        #[trigger] before[i],
    ) matches Statement::Setting(k, v) ==> section_after(before.take(i)).len() > 0
        && states_default(section_after(before.take(i)), k, v)) by {
        assert(before[i] == lines[i]);
        assert(before.take(i) =~= lines.take(i));
    }
}

proof fn defaults_change_nothing(
    content: Seq<char>,
    front: Seq<Seq<char>>,
    lines: Seq<Seq<char>>,
)
    requires
        sets_what_is_lacked(content, lines),
        states_defaults(lines),
        config_after(front) == config_after(lines_of(content)),
    ensures
        config_after(front + lines) == config_after(front),
    decreases lines.len(),
{
    if lines.len() == 0 {
        assert(front + lines =~= front);
    } else {
        let before = lines.drop_last();
        let line = lines.last();
        assert(line == lines[lines.len() - 1]);
        assert(lines.take(lines.len() - 1) =~= before);
        assert(sets_what_is_lacked(content, before)) by {
            assert forall|i: int| 0 <= i < before.len() implies (statement(
                #[trigger] before[i],
            ) matches Statement::Setting(k, _) ==> !has_key(content, k)) by {
                assert(before[i] == lines[i]);
            }
        }
        shorter_lines_state_defaults(lines);
        defaults_change_nothing(content, front, before);
        assert((front + lines).drop_last() =~= front + before);
        assert((front + lines).last() == line);
        section_behind(front, before);
        if let Statement::Setting(k, v) = statement(line) {
            unstated_settings_have_their_default(content, k);
        }
    }
}

proof fn next_line(text: Seq<char>, from: int, to: int)
    requires
        0 <= from <= to < text.len(),
        text[to] == '\n',
        forall|j: int| from <= j < to ==> text[j] != '\n' && text[j] != '\r',
    ensures
        lines_of(text.skip(from)) == seq![text.subrange(from, to)] + lines_of(text.skip(to + 1)),
{
    let s = text.skip(from);
    let line = text.subrange(from, to);
    find_unique(s, '\n', to - from);
    assert(s.take(to - from) =~= line);
    assert(s.skip(to - from + 1) =~= text.skip(to + 1));
    if line.len() > 0 {
        assert(line.last() == text[to - 1]);
    }
}

proof fn comment_line(line: Seq<char>)
    requires
        line.len() == 0 || line[0] == ';',
    ensures
        statement(line) is Comment,
{
    trim_end_is_prefix(line);
}

proof fn setting_line(line: Seq<char>, at: int)
    requires
        0 < at < line.len() - 1,
        line[at] == '=',
        forall|j: int| 0 <= j < at ==> line[j] != '=',
        line[0] != '[' && line[0] != ';' && line[0] != '#',
        !white_space(line[0]) && !white_space(line[at - 1]),
        !white_space(line[at + 1]) && !white_space(line.last()),
    ensures
        statement(line) == Statement::Setting(line.take(at), line.skip(at + 1)),
{
    let key = line.take(at);
    let value = line.skip(at + 1);
    assert(trim(line) == line);
    find_unique(line, '=', at);
    assert(key[0] == line[0] && key.last() == line[at - 1]);
    assert(trim(key) == key);
    assert(value[0] == line[at + 1] && value.last() == line.last());
    assert(trim(value) == value);
}

proof fn log_level_line()
    ensures
        statement("log_level=info"@) == Statement::Setting("log_level"@, "info"@),
        states_default("general"@, "log_level"@, "info"@),
{
    reveal_strlit("log_level=info");
    reveal_strlit("info");
    reveal_strlit("log_level");
    reveal_strlit("trace");
    reveal_strlit("debug");
    reveal_strlit("warn");
    reveal_strlit("warning");
    reveal_strlit("error");
    let line = "log_level=info"@;
    setting_line(line, 9);
    assert(line.take(9) =~= "log_level"@);
    assert(line.skip(10) =~= "info"@);
    assert(lowercase("info"@) =~= "info"@);
}

proof fn json_index_line()
    ensures
        statement("json_index=false"@) == Statement::Setting("json_index"@, "false"@),
        states_default("general"@, "json_index"@, "false"@),
{
    reveal_strlit("json_index=false");
    reveal_strlit("false");
    reveal_strlit("log_level");
    reveal_strlit("json_index");
    reveal_strlit("true");
    reveal_strlit("1");
    reveal_strlit("yes");
    let line = "json_index=false"@;
    setting_line(line, 10);
    assert(line.take(10) =~= "json_index"@);
    assert(line.skip(11) =~= "false"@);
    assert(lowercase("false"@) =~= "false"@);
}

proof fn hwaccel_line()
    ensures
        statement("hwaccel=none"@) == Statement::Setting("hwaccel"@, "none"@),
        states_default("general"@, "hwaccel"@, "none"@),
{
    reveal_strlit("hwaccel=none");
    reveal_strlit("none");
    reveal_strlit("log_level");
    reveal_strlit("json_index");
    reveal_strlit("hwaccel");
    reveal_strlit("auto");
    reveal_strlit("d3d11va");
    reveal_strlit("dxva2");
    reveal_strlit("cuda");
    let line = "hwaccel=none"@;
    setting_line(line, 7);
    assert(line.take(7) =~= "hwaccel"@);
    assert(line.skip(8) =~= "none"@);
    assert(lowercase("none"@) =~= "none"@);
}

proof fn fps_mode_line()
    ensures
        statement("fps_mode=real"@) == Statement::Setting("fps_mode"@, "real"@),
        states_default("general"@, "fps_mode"@, "real"@),
{
    reveal_strlit("fps_mode=real");
    reveal_strlit("real");
    reveal_strlit("log_level");
    reveal_strlit("json_index");
    reveal_strlit("hwaccel");
    reveal_strlit("fps_mode");
    reveal_strlit("metadata");
    let line = "fps_mode=real"@;
    setting_line(line, 8);
    assert(line.take(8) =~= "fps_mode"@);
    assert(line.skip(9) =~= "real"@);
    assert(lowercase("real"@) =~= "real"@);
}

proof fn fps_precision_line()
    ensures
        statement("fps_precision=3"@) == Statement::Setting("fps_precision"@, "3"@),
        states_default("general"@, "fps_precision"@, "3"@),
{
    reveal_strlit("fps_precision=3");
    reveal_strlit("3");
    reveal_strlit("log_level");
    reveal_strlit("json_index");
    reveal_strlit("hwaccel");
    reveal_strlit("fps_mode");
    reveal_strlit("fps_precision");
    let line = "fps_precision=3"@;
    setting_line(line, 13);
    assert(line.take(13) =~= "fps_precision"@);
    assert(line.skip(14) =~= "3"@);
    let digits = "3"@;
    assert(unsigned_digits(digits) =~= digits);
    reveal_with_fuel(digits_value, 2);
    assert(digits_value(digits) == 3);
    assert(number_up_to(digits, u32::MAX as nat) == Some(3nat));
}

proof fn rough_cache_line()
    ensures
        statement("rough_cache=false"@) == Statement::Setting("rough_cache"@, "false"@),
        states_default("general"@, "rough_cache"@, "false"@),
{
    reveal_strlit("rough_cache=false");
    reveal_strlit("false");
    reveal_strlit("log_level");
    reveal_strlit("json_index");
    reveal_strlit("hwaccel");
    reveal_strlit("fps_mode");
    reveal_strlit("fps_precision");
    reveal_strlit("rough_cache");
    reveal_strlit("true");
    reveal_strlit("1");
    reveal_strlit("yes");
    let line = "rough_cache=false"@;
    setting_line(line, 11);
    assert(line.take(11) =~= "rough_cache"@);
    assert(line.skip(12) =~= "false"@);
    assert(lowercase("false"@) =~= "false"@);
}

proof fn prefetch_buffer_mb_line()
    ensures
        statement("prefetch_buffer_mb=32"@) == Statement::Setting("prefetch_buffer_mb"@, "32"@),
        states_default("prefetch"@, "prefetch_buffer_mb"@, "32"@),
{
    reveal_strlit("prefetch_buffer_mb=32");
    reveal_strlit("32");
    reveal_strlit("log_level");
    reveal_strlit("json_index");
    reveal_strlit("hwaccel");
    reveal_strlit("fps_mode");
    reveal_strlit("fps_precision");
    reveal_strlit("rough_cache");
    reveal_strlit("prefetch_buffer_mb");
    reveal_strlit("general");
    reveal_strlit("prefetch");
    let line = "prefetch_buffer_mb=32"@;
    setting_line(line, 18);
    assert(line.take(18) =~= "prefetch_buffer_mb"@);
    assert(line.skip(19) =~= "32"@);
    let digits = "32"@;
    assert(unsigned_digits(digits) =~= digits);
    reveal_with_fuel(digits_value, 3);
    assert(digits_value(digits) == 32);
    assert(number_up_to(digits, u32::MAX as nat) == Some(32nat));
    assert("prefetch"@.len() != "general"@.len());
}

proof fn prefetch_total_buffer_mb_line()
    ensures
        statement("prefetch_total_buffer_mb=512"@) == Statement::Setting("prefetch_total_buffer_mb"@, "512"@),
        states_default("prefetch"@, "prefetch_total_buffer_mb"@, "512"@),
{
    reveal_strlit("prefetch_total_buffer_mb=512");
    reveal_strlit("512");
    reveal_strlit("log_level");
    reveal_strlit("json_index");
    reveal_strlit("hwaccel");
    reveal_strlit("fps_mode");
    reveal_strlit("fps_precision");
    reveal_strlit("rough_cache");
    reveal_strlit("prefetch_buffer_mb");
    reveal_strlit("prefetch_total_buffer_mb");
    reveal_strlit("general");
    reveal_strlit("prefetch");
    let line = "prefetch_total_buffer_mb=512"@;
    setting_line(line, 24);
    assert(line.take(24) =~= "prefetch_total_buffer_mb"@);
    assert(line.skip(25) =~= "512"@);
    let digits = "512"@;
    assert(unsigned_digits(digits) =~= digits);
    reveal_with_fuel(digits_value, 4);
    assert(digits_value(digits) == 512);
    assert(number_up_to(digits, u32::MAX as nat) == Some(512nat));
    assert("prefetch"@.len() != "general"@.len());
}

proof fn prefetch_frames_line()
    ensures
        statement("prefetch_frames=10"@) == Statement::Setting("prefetch_frames"@, "10"@),
        states_default("prefetch"@, "prefetch_frames"@, "10"@),
{
    reveal_strlit("prefetch_frames=10");
    reveal_strlit("10");
    reveal_strlit("log_level");
    reveal_strlit("json_index");
    reveal_strlit("hwaccel");
    reveal_strlit("fps_mode");
    reveal_strlit("fps_precision");
    reveal_strlit("rough_cache");
    reveal_strlit("prefetch_buffer_mb");
    reveal_strlit("prefetch_total_buffer_mb");
    reveal_strlit("prefetch_frames");
    reveal_strlit("general");
    reveal_strlit("prefetch");
    let line = "prefetch_frames=10"@;
    setting_line(line, 15);
    assert(line.take(15) =~= "prefetch_frames"@);
    assert(line.skip(16) =~= "10"@);
    let digits = "10"@;
    assert(unsigned_digits(digits) =~= digits);
    reveal_with_fuel(digits_value, 3);
    assert(digits_value(digits) == 10);
    assert(number_up_to(digits, u32::MAX as nat) == Some(10nat));
    assert("prefetch"@.len() != "general"@.len());
}

proof fn general_section()
    ensures
        statement("[general]"@) == Statement::Section("general"@),
{
    reveal_strlit("[general]");
    reveal_strlit("general");
    let line = "[general]"@;
    assert(trim(line) == line);
    assert(line.subrange(1, line.len() - 1) =~= "general"@);
}

proof fn prefetch_section()
    ensures
        statement("[prefetch]"@) == Statement::Section("prefetch"@),
{
    reveal_strlit("[prefetch]");
    reveal_strlit("prefetch");
    let line = "[prefetch]"@;
    assert(trim(line) == line);
    assert(line.subrange(1, line.len() - 1) =~= "prefetch"@);
}

/// Where the lines of the default settings end.
spec fn is_line_end(at: int) -> bool {
    ||| at == 9
    ||| at == 57
    ||| at == 72
    ||| at == 133
    ||| at == 150
    ||| at == 207
    ||| at == 220
    ||| at == 298
    ||| at == 312
    ||| at == 377
    ||| at == 393
    ||| at == 449
    ||| at == 467
    ||| at == 468
    ||| at == 479
    ||| at == 530
    ||| at == 552
    ||| at == 609
    ||| at == 638
    ||| at == 681
    ||| at == 700
}

proof fn default_text()
    ensures
        DEFAULT_CONFIG@.len() == 701,
        forall|j: int|
            0 <= j < 701 ==> (#[trigger] DEFAULT_CONFIG@[j] == '\n') == is_line_end(j)
                && DEFAULT_CONFIG@[j] != '\r',
        DEFAULT_CONFIG@.subrange(0, 9) == "[general]"@,
        DEFAULT_CONFIG@[10] == ';',
        DEFAULT_CONFIG@.subrange(58, 72) == "log_level=info"@,
        DEFAULT_CONFIG@[73] == ';',
        DEFAULT_CONFIG@.subrange(134, 150) == "json_index=false"@,
        DEFAULT_CONFIG@[151] == ';',
        DEFAULT_CONFIG@.subrange(208, 220) == "hwaccel=none"@,
        DEFAULT_CONFIG@[221] == ';',
        DEFAULT_CONFIG@.subrange(299, 312) == "fps_mode=real"@,
        DEFAULT_CONFIG@[313] == ';',
        DEFAULT_CONFIG@.subrange(378, 393) == "fps_precision=3"@,
        DEFAULT_CONFIG@[394] == ';',
        DEFAULT_CONFIG@.subrange(450, 467) == "rough_cache=false"@,
        DEFAULT_CONFIG@.subrange(469, 479) == "[prefetch]"@,
        DEFAULT_CONFIG@[480] == ';',
        DEFAULT_CONFIG@.subrange(531, 552) == "prefetch_buffer_mb=32"@,
        DEFAULT_CONFIG@[553] == ';',
        DEFAULT_CONFIG@.subrange(610, 638) == "prefetch_total_buffer_mb=512"@,
        DEFAULT_CONFIG@[639] == ';',
        DEFAULT_CONFIG@.subrange(682, 700) == "prefetch_frames=10"@,
{
    reveal_strlit(
        "[general]\n; Log level: trace, debug, info, warn or error.\nlog_level=info\n; Write the index as JSON as well, beside the binary format.\njson_index=false\n; Hardware decoding: none, auto, d3d11va, dxva2 or cuda.\nhwaccel=none\n; Frame rate: metadata (as the stream states it) or real (frames / duration).\nfps_mode=real\n; Digits behind the point to which a real frame rate is rounded.\nfps_precision=3\n; Hash only the size, the time and both ends of a file.\nrough_cache=false\n\n[prefetch]\n; Megabytes of frames to read ahead for one video.\nprefetch_buffer_mb=32\n; Megabytes of frames to read ahead for all open videos.\nprefetch_total_buffer_mb=512\n; Most frames to read ahead (0: no limit).\nprefetch_frames=10\n",
    );
    reveal_strlit("[general]");
    assert(DEFAULT_CONFIG@.subrange(0, 9) =~= "[general]"@);
    reveal_strlit("log_level=info");
    assert(DEFAULT_CONFIG@.subrange(58, 72) =~= "log_level=info"@);
    reveal_strlit("json_index=false");
    assert(DEFAULT_CONFIG@.subrange(134, 150) =~= "json_index=false"@);
    reveal_strlit("hwaccel=none");
    assert(DEFAULT_CONFIG@.subrange(208, 220) =~= "hwaccel=none"@);
    reveal_strlit("fps_mode=real");
    assert(DEFAULT_CONFIG@.subrange(299, 312) =~= "fps_mode=real"@);
    reveal_strlit("fps_precision=3");
    assert(DEFAULT_CONFIG@.subrange(378, 393) =~= "fps_precision=3"@);
    reveal_strlit("rough_cache=false");
    assert(DEFAULT_CONFIG@.subrange(450, 467) =~= "rough_cache=false"@);
    reveal_strlit("[prefetch]");
    assert(DEFAULT_CONFIG@.subrange(469, 479) =~= "[prefetch]"@);
    reveal_strlit("prefetch_buffer_mb=32");
    assert(DEFAULT_CONFIG@.subrange(531, 552) =~= "prefetch_buffer_mb=32"@);
    reveal_strlit("prefetch_total_buffer_mb=512");
    assert(DEFAULT_CONFIG@.subrange(610, 638) =~= "prefetch_total_buffer_mb=512"@);
    reveal_strlit("prefetch_frames=10");
    assert(DEFAULT_CONFIG@.subrange(682, 700) =~= "prefetch_frames=10"@);
}

/// The lines of the default settings.
spec fn default_lines() -> Seq<Seq<char>> {
    let text = DEFAULT_CONFIG@;
    seq![
        text.subrange(0, 9),
        text.subrange(10, 57),
        text.subrange(58, 72),
        text.subrange(73, 133),
        text.subrange(134, 150),
        text.subrange(151, 207),
        text.subrange(208, 220),
        text.subrange(221, 298),
        text.subrange(299, 312),
        text.subrange(313, 377),
        text.subrange(378, 393),
        text.subrange(394, 449),
        text.subrange(450, 467),
        text.subrange(468, 468),
        text.subrange(469, 479),
        text.subrange(480, 530),
        text.subrange(531, 552),
        text.subrange(553, 609),
        text.subrange(610, 638),
        text.subrange(639, 681),
        text.subrange(682, 700),
    ]
}

proof fn defaults_come_apart()
    ensures
        lines_of(DEFAULT_CONFIG@) == default_lines(),
{
    let text = DEFAULT_CONFIG@;
    default_text();
    assert(text.skip(0) =~= text);
    next_line(text, 0, 9);
    next_line(text, 10, 57);
    next_line(text, 58, 72);
    next_line(text, 73, 133);
    next_line(text, 134, 150);
    next_line(text, 151, 207);
    next_line(text, 208, 220);
    next_line(text, 221, 298);
    next_line(text, 299, 312);
    next_line(text, 313, 377);
    next_line(text, 378, 393);
    next_line(text, 394, 449);
    next_line(text, 450, 467);
    next_line(text, 468, 468);
    next_line(text, 469, 479);
    next_line(text, 480, 530);
    next_line(text, 531, 552);
    next_line(text, 553, 609);
    next_line(text, 610, 638);
    next_line(text, 639, 681);
    next_line(text, 682, 700);
    assert(lines_of(text.skip(701)) =~= seq![]);
    assert(lines_of(text) =~= default_lines());
}

proof fn default_statements()
    ensures
        statement(default_lines()[0]) == Statement::Section("general"@),
        statement(default_lines()[1]) is Comment,
        statement(default_lines()[2]) == Statement::Setting("log_level"@, "info"@),
        statement(default_lines()[3]) is Comment,
        statement(default_lines()[4]) == Statement::Setting("json_index"@, "false"@),
        statement(default_lines()[5]) is Comment,
        statement(default_lines()[6]) == Statement::Setting("hwaccel"@, "none"@),
        statement(default_lines()[7]) is Comment,
        statement(default_lines()[8]) == Statement::Setting("fps_mode"@, "real"@),
        statement(default_lines()[9]) is Comment,
        statement(default_lines()[10]) == Statement::Setting("fps_precision"@, "3"@),
        statement(default_lines()[11]) is Comment,
        statement(default_lines()[12]) == Statement::Setting("rough_cache"@, "false"@),
        statement(default_lines()[13]) is Comment,
        statement(default_lines()[14]) == Statement::Section("prefetch"@),
        statement(default_lines()[15]) is Comment,
        statement(default_lines()[16]) == Statement::Setting("prefetch_buffer_mb"@, "32"@),
        statement(default_lines()[17]) is Comment,
        statement(default_lines()[18]) == Statement::Setting("prefetch_total_buffer_mb"@, "512"@),
        statement(default_lines()[19]) is Comment,
        statement(default_lines()[20]) == Statement::Setting("prefetch_frames"@, "10"@),
{
    default_text();
    general_section();
    prefetch_section();
    log_level_line();
    json_index_line();
    hwaccel_line();
    fps_mode_line();
    fps_precision_line();
    rough_cache_line();
    prefetch_buffer_mb_line();
    prefetch_total_buffer_mb_line();
    prefetch_frames_line();
    comment_line(default_lines()[1]);
    comment_line(default_lines()[3]);
    comment_line(default_lines()[5]);
    comment_line(default_lines()[7]);
    comment_line(default_lines()[9]);
    comment_line(default_lines()[11]);
    comment_line(default_lines()[13]);
    comment_line(default_lines()[15]);
    comment_line(default_lines()[17]);
    comment_line(default_lines()[19]);
}

proof fn default_sections(at: int)
    requires
        0 < at <= 21,
    ensures
        section_after(default_lines().take(at)) == (if at <= 14 {
            "general"@
        } else {
            "prefetch"@
        }),
    decreases at,
{
    default_statements();
    let lines = default_lines();
    let part = lines.take(at);
    assert(part.drop_last() =~= lines.take(at - 1));
    assert(part.last() == lines[at - 1]);
    if at > 1 {
        default_sections(at - 1);
    }
}

proof fn defaults_state_defaults()
    ensures
        states_defaults(lines_of(DEFAULT_CONFIG@)),
{
    let lines = default_lines();
    defaults_come_apart();
    default_statements();
    reveal_strlit("general");
    reveal_strlit("prefetch");
    log_level_line();
    json_index_line();
    hwaccel_line();
    fps_mode_line();
    fps_precision_line();
    rough_cache_line();
    prefetch_buffer_mb_line();
    prefetch_total_buffer_mb_line();
    prefetch_frames_line();
    assert forall|i: int| 0 <= i < lines.len() implies (statement(
        #[trigger] lines[i],
    ) matches Statement::Setting(k, v) ==> section_after(lines.take(i)).len() > 0
        && states_default(section_after(lines.take(i)), k, v)) by {
        if i > 0 {
            default_sections(i);
        }
    }
}

proof fn keys_stand_in_sections(lines: Seq<Seq<char>>)
    requires
        states_defaults(lines),
    ensures
        forall|k: int|
            0 <= k < keys_after(lines).len() ==> (#[trigger] keys_after(lines)[k]).section.len()
                > 0,
    decreases lines.len(),
{
    if lines.len() > 0 {
        let before = lines.drop_last();
        assert(lines.last() == lines[lines.len() - 1]);
        assert(lines.take(lines.len() - 1) =~= before);
        shorter_lines_state_defaults(lines);
        keys_stand_in_sections(before);
        assert forall|k: int| 0 <= k < keys_after(lines).len() implies (#[trigger] keys_after(
            lines,
        )[k]).section.len() > 0 by {
            if k < keys_after(before).len() {
                assert(keys_after(lines)[k] == keys_after(before)[k]);
            }
        }
    }
}

/// Each of the default settings stands in a section.
pub proof fn default_keys_stand_in_sections()
    ensures
        forall|k: int|
            0 <= k < keys_of(DEFAULT_CONFIG@).len() ==> (#[trigger] keys_of(
                DEFAULT_CONFIG@,
            )[k]).section.len() > 0,
{
    defaults_state_defaults();
    keys_stand_in_sections(lines_of(DEFAULT_CONFIG@));
}

proof fn default_keys_by_section(at: int)
    requires
        0 < at <= 21,
    ensures
        ({
            let keys = keys_after(default_lines().take(at));
            let first = keys_after(default_lines().take(14)).len();
            &&& at <= 14 ==> forall|k: int|
                0 <= k < keys.len() ==> (#[trigger] keys[k]).section == "general"@
            &&& at > 14 ==> first <= keys.len() && forall|k: int|
                0 <= k < keys.len() ==> (#[trigger] keys[k]).section == (if k < first {
                    "general"@
                } else {
                    "prefetch"@
                })
        }),
    decreases at,
{
    default_statements();
    let lines = default_lines();
    let part = lines.take(at);
    assert(part.drop_last() =~= lines.take(at - 1));
    assert(part.last() == lines[at - 1]);
    let keys = keys_after(part);
    let earlier = keys_after(lines.take(at - 1));
    let first = keys_after(lines.take(14)).len();
    if at > 1 {
        default_keys_by_section(at - 1);
        default_sections(at - 1);
        assert forall|k: int| 0 <= k < keys.len() implies (#[trigger] keys[k]).section == (if at
            <= 14 || k < first {
            "general"@
        } else {
            "prefetch"@
        }) by {
            if k < earlier.len() {
                assert(keys[k] == earlier[k]);
            } else {
                assert(at - 1 != 14);
                assert(keys[k].section == section_after(lines.take(at - 1)));
            }
        }
    } else {
        assert(earlier.len() == 0);
    }
}

/// The default settings of one section stand together.
pub proof fn default_keys_are_grouped()
    ensures
        grouped(keys_of(DEFAULT_CONFIG@)),
{
    defaults_come_apart();
    default_keys_by_section(21);
    assert(default_lines().take(21) =~= default_lines());
}

proof fn default_lines_give_defaults(lines: Seq<Seq<char>>)
    requires
        states_defaults(lines),
    ensures
        config_after(lines) == default_config(),
    decreases lines.len(),
{
    if lines.len() > 0 {
        let line = lines.last();
        assert(line == lines[lines.len() - 1]);
        assert(lines.take(lines.len() - 1) =~= lines.drop_last());
        shorter_lines_state_defaults(lines);
        default_lines_give_defaults(lines.drop_last());
        if let Statement::Setting(k, v) = statement(line) {
            assert(with_default(default_config(), k) == default_config());
        }
    }
}

/// The default settings file gives the default settings.
pub proof fn default_file_gives_the_defaults()
    ensures
        config_after(lines_of(DEFAULT_CONFIG@)) == default_config(),
{
    defaults_state_defaults();
    default_lines_give_defaults(lines_of(DEFAULT_CONFIG@));
}

/// A settings file that got the keys that it lacked gives the same settings as
/// before.
pub proof fn appended_keys_change_no_setting(content: Seq<char>)
    ensures
        config_after(lines_of(content + additions(content, keys_of(DEFAULT_CONFIG@))))
            == config_after(lines_of(content)),
{
    let entries = keys_of(DEFAULT_CONFIG@);
    let more = additions(content, entries);
    defaults_state_defaults();
    lines_hold_no_line_feed(DEFAULT_CONFIG@);
    keys_state_defaults(lines_of(DEFAULT_CONFIG@));
    default_keys_stand_in_sections();
    defaults_state_themselves(DEFAULT_CONFIG@);
    additions_state_defaults(content, entries);
    additions_set_what_is_lacked(content, entries);
    sections_open_the_text(content, entries);
    if more.len() == 0 {
        assert(content + more =~= content);
    } else if content.len() == 0 {
        assert(content + more =~= more);
        assert(lines_of(content) + lines_of(more) =~= lines_of(more));
        defaults_change_nothing(content, lines_of(content), lines_of(more));
    } else if content.last() == '\n' {
        lines_of_concat(content, more);
        defaults_change_nothing(content, lines_of(content), lines_of(more));
    } else {
        let front = content + seq!['\n'];
        let rest = more.skip(1);
        assert(more =~= seq!['\n'] + rest);
        assert(content + more =~= front + rest);
        lines_behind_line_feed(rest);
        lines_before_line_feed(content);
        lines_of_concat(front, rest);
        let all = lines_of(content);
        let ended = lines_of(front);
        statement_without_return(all.last());
        assert(ended.drop_last() =~= all.drop_last());
        assert(config_after(ended) == config_after(all));
        let lines = lines_of(rest);
        assert(sets_what_is_lacked(content, lines)) by {
            assert forall|i: int| 0 <= i < lines.len() implies (statement(
                #[trigger] lines[i],
            ) matches Statement::Setting(k, _) ==> !has_key(content, k)) by {
                assert(lines[i] == lines_of(more)[i + 1]);
            }
        }
        assert(states_defaults(lines)) by {
            let empty = seq![Seq::<char>::empty()];
            assert(trim(Seq::<char>::empty()).len() == 0);
            assert(section_after(empty).len() == 0) by {
                assert(section_after(empty.drop_last()).len() == 0);
                assert(statement(empty.last()) is Comment);
            }
            assert forall|i: int| 0 <= i < lines.len() implies (statement(
                #[trigger] lines[i],
            ) matches Statement::Setting(k, v) ==> section_after(lines.take(i)).len() > 0
                && states_default(section_after(lines.take(i)), k, v)) by {
                assert(lines[i] == lines_of(more)[i + 1]);
                assert(lines_of(more).take(i + 1) =~= empty + lines.take(i));
                section_behind(empty, lines.take(i));
            }
        }
        defaults_change_nothing(content, ended, lines);
    }
}

/// The settings that a file gives, or those without one.
pub open spec fn settings_of(content: Option<Seq<char>>) -> Config {
    match content {
        Some(text) => config_after(lines_of(text)),
        None => default_config(),
    }
}

/// The change that reading a settings file asks for changes no setting: reading
/// it again gives what was read before.
pub proof fn settings_outlast_the_change(content: Option<Seq<char>>, change: FileChange)
    requires
        change_of(content, change),
    ensures
        text_after(content, change) is Some,
        settings_of(text_after(content, change)) == settings_of(content),
{
    match content {
        None => {
            default_file_gives_the_defaults();
        },
        Some(text) => {
            appended_keys_change_no_setting(text);
        },
    }
}

} // verus!

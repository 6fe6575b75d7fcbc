//! What holds of the settings that a file states.
use vstd::prelude::*;

use crate::config::{
    config_after, fps_mode_of, hwaccel_of, log_level_of, section_after, statement, switch_of,
    with_setting, Config, Statement,
};
use crate::text::{lowercase, number_up_to, split_once, trim};

verus! {

/// A line says what stands in it, whatever white space stands around it: the name
/// of a section between brackets; nothing where it is empty or begins with a
/// semicolon or a hash; or a key before the first equals sign and its value behind
/// it, neither with white space around it.
pub proof fn line_says_what_stands_in_it(line: Seq<char>)
    ensures
        ({
            let t = trim(line);
            &&& statement(line) matches Statement::Section(name) ==> t == seq!['['] + name + seq![
                ']',
            ]
            &&& t.len() >= 2 && t[0] == '[' && t.last() == ']' ==> statement(line) is Section
            &&& statement(line) is Comment <==> t.len() == 0 || t[0] == ';' || t[0] == '#'
            &&& statement(line) matches Statement::Setting(key, value) ==> exists|
                a: Seq<char>,
                b: Seq<char>,
            |
                #![trigger trim(a), trim(b)]
                t == a + seq!['='] + b && !a.contains('=') && key == trim(a) && value == trim(b)
            &&& statement(line) is Other ==> !t.contains('=')
        }),
{
    let t = trim(line);
    crate::text_laws::text_is_split_at_the_first(t, '=');
    if t.len() >= 2 && t[0] == '[' && t.last() == ']' {
        let name = t.subrange(1, t.len() - 1);
        assert(t =~= seq!['['] + name + seq![']']);
    } else if !(t.len() == 0 || t[0] == ';' || t[0] == '#') {
        if let Some((a, b)) = split_once(t, '=') {
            assert(statement(line) == Statement::Setting(trim(a), trim(b)));
        }
    }
}

/// The section that is open is that of the last line that opens one, and none
/// before the first.
pub proof fn last_section_is_open(lines: Seq<Seq<char>>)
    ensures
        (forall|i: int| 0 <= i < lines.len() ==> !(statement(#[trigger] lines[i]) is Section))
            ==> section_after(lines).len() == 0,
        forall|k: int|
            0 <= k < lines.len() && statement(#[trigger] lines[k]) is Section && (forall|i: int|
                k < i < lines.len() ==> !(statement(#[trigger] lines[i]) is Section)) ==> (
            statement(lines[k]) == Statement::Section(section_after(lines))),
    decreases lines.len(),
{
    if lines.len() > 0 {
        let before = lines.drop_last();
        let last = lines.len() - 1;
        last_section_is_open(before);
        assert(lines[last] == lines.last());
        assert forall|i: int| 0 <= i < last implies #[trigger] lines[i] == before[i] by {}
        if forall|i: int| 0 <= i < lines.len() ==> !(statement(#[trigger] lines[i]) is Section) {
            assert forall|i: int| 0 <= i < before.len() implies !(statement(
                #[trigger] before[i],
            ) is Section) by {
                assert(!(statement(lines[i]) is Section));
            }
            assert(!(statement(lines[last]) is Section));
        }
        assert forall|k: int|
            0 <= k < lines.len() && statement(#[trigger] lines[k]) is Section && (forall|i: int|
                k < i < lines.len() ==> !(statement(
                    #[trigger] lines[i],
                ) is Section)) implies statement(lines[k]) == Statement::Section(
            section_after(lines),
        ) by {
            if k < last {
                assert(!(statement(lines[last]) is Section));
                assert forall|i: int| k < i < before.len() implies !(statement(
                    #[trigger] before[i],
                ) is Section) by {
                    assert(!(statement(lines[i]) is Section));
                }
                assert(statement(before[k]) is Section);
            }
        }
    }
}

/// Whether a line states a key in a section.
pub open spec fn states(
    lines: Seq<Seq<char>>,
    i: int,
    section: Seq<char>,
    key: Seq<char>,
) -> bool {
    &&& statement(lines[i]) matches Statement::Setting(k, _) && k == key
    &&& section_after(lines.take(i)) == section
}

/// Whether the settings have the value that a line states for a key of a section.
/// A value that is no number leaves a number alone.
pub open spec fn has_value(
    c: Config,
    section: Seq<char>,
    key: Seq<char>,
    value: Seq<char>,
) -> bool {
    let number = number_up_to(value, u32::MAX as nat);
    &&& section == "general"@ ==> {
        &&& key == "log_level"@ ==> c.log_level == log_level_of(value)
        &&& key == "json_index"@ ==> c.json_index == switch_of(value)
        &&& key == "hwaccel"@ ==> c.hwaccel == hwaccel_of(value)
        &&& key == "fps_mode"@ ==> c.fps_mode == fps_mode_of(value)
        &&& key == "fps_precision"@ && number is Some ==> c.fps_precision == number->0
        &&& key == "rough_cache"@ ==> c.rough_cache == switch_of(value)
    }
    &&& section == "prefetch"@ ==> {
        &&& key == "prefetch_buffer_mb"@ && number is Some ==> c.prefetch_buffer_mb == number->0
        &&& key == "prefetch_total_buffer_mb"@ && number is Some ==> c.prefetch_total_buffer_mb
            == number->0
        &&& key == "prefetch_frames"@ && number is Some ==> c.prefetch_frames == number->0
    }
}

proof fn setting_keeps_the_others(
    c: Config,
    section: Seq<char>,
    key: Seq<char>,
    value: Seq<char>,
    other_section: Seq<char>,
    other_key: Seq<char>,
    other_value: Seq<char>,
)
    ensures
        has_value(with_setting(c, section, key, value), section, key, value),
        has_value(c, other_section, other_key, other_value) && !(section == other_section && key
            == other_key) ==> has_value(
            with_setting(c, section, key, value),
            other_section,
            other_key,
            other_value,
        ),
{
    reveal_strlit("general");
    reveal_strlit("prefetch");
    reveal_strlit("log_level");
    reveal_strlit("json_index");
    reveal_strlit("hwaccel");
    reveal_strlit("fps_mode");
    reveal_strlit("fps_precision");
    reveal_strlit("rough_cache");
    reveal_strlit("prefetch_buffer_mb");
    reveal_strlit("prefetch_total_buffer_mb");
    reveal_strlit("prefetch_frames");
    assert("general"@.len() == 7 && "prefetch"@.len() == 8);
    assert("log_level"@.len() == 9 && "json_index"@.len() == 10 && "hwaccel"@.len() == 7);
    assert("fps_mode"@.len() == 8 && "fps_precision"@.len() == 13 && "rough_cache"@.len() == 11);
    assert("prefetch_buffer_mb"@.len() == 18 && "prefetch_total_buffer_mb"@.len() == 24);
    assert("prefetch_frames"@.len() == 15);
}

/// A setting has the value that the last line gives it that states its key in its
/// section, wherever in the file that line stands.
pub proof fn last_statement_holds(
    lines: Seq<Seq<char>>,
    i: int,
    section: Seq<char>,
    key: Seq<char>,
    value: Seq<char>,
)
    requires
        0 <= i < lines.len(),
        states(lines, i, section, key),
        statement(lines[i]) == Statement::Setting(key, value),
        forall|j: int| i < j < lines.len() ==> !#[trigger] states(lines, j, section, key),
    ensures
        has_value(config_after(lines), section, key, value),
    decreases lines.len(),
{
    let before = lines.drop_last();
    let last = lines.len() - 1;
    assert(lines.take(last) =~= before);
    assert(lines[last] == lines.last());
    if i == last {
        setting_keeps_the_others(config_after(before), section, key, value, section, key, value);
    } else {
        assert(before.take(i) =~= lines.take(i));
        assert(before[i] == lines[i]);
        assert forall|j: int| i < j < before.len() implies !#[trigger] states(
            before,
            j,
            section,
            key,
        ) by {
            assert(before.take(j) =~= lines.take(j));
            assert(before[j] == lines[j]);
            assert(!states(lines, j, section, key));
        }
        last_statement_holds(before, i, section, key, value);
        assert(!states(lines, last, section, key));
        if let Statement::Setting(k, v) = statement(lines.last()) {
            setting_keeps_the_others(
                config_after(before),
                section_after(before),
                k,
                v,
                section,
                key,
                value,
            );
        }
    }
}

/// Without lines the settings are the defaults.
pub proof fn empty_file_gives_the_defaults()
    ensures
        ({
            let c = config_after(seq![]);
            &&& c.log_level is Info
            &&& !c.json_index
            &&& c.hwaccel is Off
            &&& c.prefetch_buffer_mb == 32
            &&& c.prefetch_total_buffer_mb == 512
            &&& c.prefetch_frames == 10
            &&& c.fps_precision == 3
            &&& c.fps_mode is Real
            &&& !c.rough_cache
        }),
{
}

/// The case of its letters does not matter to a word of a setting.
pub proof fn case_does_not_matter(a: Seq<char>, b: Seq<char>)
    requires
        lowercase(a) == lowercase(b),
    ensures
        log_level_of(a) == log_level_of(b),
        switch_of(a) == switch_of(b),
        hwaccel_of(a) == hwaccel_of(b),
        fps_mode_of(a) == fps_mode_of(b),
{
}

/// The words that a setting knows, and what any other stands for.
pub proof fn settings_know_their_words(value: Seq<char>)
    ensures
        ({
            let v = lowercase(value);
            &&& log_level_of(value) is Trace <==> v == "trace"@
            &&& log_level_of(value) is Debug <==> v == "debug"@
            &&& log_level_of(value) is Warn <==> v == "warn"@ || v == "warning"@
            &&& log_level_of(value) is Error <==> v == "error"@
            &&& hwaccel_of(value) is Auto <==> v == "auto"@
            &&& hwaccel_of(value) is D3d11va <==> v == "d3d11va"@
            &&& hwaccel_of(value) is Dxva2 <==> v == "dxva2"@
            &&& hwaccel_of(value) is Cuda <==> v == "cuda"@
            &&& fps_mode_of(value) is Metadata <==> v == "metadata"@
            &&& switch_of(value) <==> v == "true"@ || v == "1"@ || v == "yes"@
        }),
{
    reveal_strlit("trace");
    reveal_strlit("debug");
    reveal_strlit("info");
    reveal_strlit("warn");
    reveal_strlit("warning");
    reveal_strlit("error");
    reveal_strlit("auto");
    reveal_strlit("d3d11va");
    reveal_strlit("dxva2");
    reveal_strlit("cuda");
    assert("trace"@[0] == 't' && "debug"@[0] == 'd' && "info"@[0] == 'i' && "warn"@[0] == 'w');
    assert("warning"@[0] == 'w' && "error"@[0] == 'e');
    assert("auto"@[0] == 'a' && "d3d11va"@.len() == 7 && "dxva2"@.len() == 5 && "cuda"@[0] == 'c');
}

} // verus!

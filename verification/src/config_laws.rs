//! What holds of a settings file that got the keys that it lacked.
use vstd::prelude::*;

use crate::config::{
    additions, block_of, change_of, comments_after, has_key, header, joined, key_of, keys_after,
    keys_of, last_added_section, section_after, statement, FileChange, KeyText, Statement,
    DEFAULT_CONFIG,
};
use crate::config_defaults::{default_keys_are_grouped, default_keys_stand_in_sections};
use crate::text::{
    find, find_range, find_unique, lines_of, lines_of_concat, trim, trim_end, trim_start,
    white_space, without_return,
};

verus! {

/// No line feed stands in the text.
pub open spec fn one_piece(s: Seq<char>) -> bool {
    forall|j: int| 0 <= j < s.len() ==> s[j] != '\n'
}

pub(crate) proof fn lines_hold_no_line_feed(s: Seq<char>)
    ensures
        forall|i: int| 0 <= i < lines_of(s).len() ==> one_piece(#[trigger] lines_of(s)[i]),
    decreases s.len(),
{
    let at = find(s, '\n');
    find_range(s, '\n');
    if s.len() > 0 && at < s.len() {
        let rest = s.skip(at + 1);
        lines_hold_no_line_feed(rest);
        let first = without_return(s.take(at));
        assert forall|i: int| 0 <= i < lines_of(s).len() implies one_piece(
            #[trigger] lines_of(s)[i],
        ) by {
            if i == 0 {
                assert(lines_of(s)[i] == first);
                assert forall|j: int| 0 <= j < first.len() implies first[j] != '\n' by {
                    assert(first[j] == s[j]);
                }
            } else {
                assert(lines_of(s)[i] == lines_of(rest)[i - 1]);
            }
        }
    }
}

pub(crate) proof fn trim_end_is_prefix(s: Seq<char>)
    ensures
        trim_end(s).len() <= s.len(),
        trim_end(s) == s.take(trim_end(s).len() as int),
    decreases s.len(),
{
    if s.len() > 0 && white_space(s.last()) {
        trim_end_is_prefix(s.drop_last());
        assert(s.drop_last().take(trim_end(s).len() as int) =~= s.take(trim_end(s).len() as int));
    } else {
        assert(s.take(s.len() as int) =~= s);
    }
}

proof fn trim_start_stays_one_piece(s: Seq<char>)
    requires
        one_piece(s),
    ensures
        one_piece(trim_start(s)),
    decreases s.len(),
{
    if s.len() > 0 && white_space(s[0]) {
        trim_start_stays_one_piece(s.skip(1));
    }
}

proof fn trim_stays_one_piece(s: Seq<char>)
    requires
        one_piece(s),
    ensures
        one_piece(trim(s)),
{
    trim_start_stays_one_piece(s);
    trim_end_is_prefix(trim_start(s));
}

/// White space behind a text is trimmed away.
proof fn trim_behind(s: Seq<char>, c: char)
    requires
        white_space(c),
    ensures
        trim(s.push(c)) == trim(s),
    decreases s.len(),
{
    let t = s.push(c);
    if s.len() == 0 {
        assert(t.skip(1) =~= seq![]);
        assert(s =~= seq![]);
    } else if white_space(s[0]) {
        assert(t[0] == s[0]);
        assert(t.skip(1) =~= s.skip(1).push(c));
        trim_behind(s.skip(1), c);
    } else {
        assert(t[0] == s[0]);
        assert(t.drop_last() =~= s);
    }
}

/// A line says the same without its carriage return.
pub(crate) proof fn statement_without_return(line: Seq<char>)
    ensures
        statement(without_return(line)) == statement(line),
{
    if line.len() > 0 && line.last() == '\r' {
        trim_behind(line.drop_last(), '\r');
        assert(line.drop_last().push('\r') =~= line);
    }
}

proof fn key_without_leading_space(s: Seq<char>)
    requires
        key_of(trim_start(s)) is Some,
    ensures
        key_of(s) == key_of(trim_start(s)),
    decreases s.len(),
{
    if s.len() > 0 && white_space(s[0]) {
        let rest = s.skip(1);
        key_without_leading_space(rest);
        find_range(rest, '=');
        let f = find(rest, '=');
        assert(find(s, '=') == f + 1);
        let before = s.take(f + 1);
        assert(before[0] == s[0]);
        assert(before.skip(1) =~= rest.take(f));
        assert(trim_start(before) == trim_start(rest.take(f)));
    }
}

pub(crate) proof fn setting_has_its_key(line: Seq<char>)
    requires
        statement(line) is Setting,
    ensures
        key_of(line) == Some(statement(line)->Setting_0),
{
    let u = trim_start(line);
    let t = trim(line);
    trim_end_is_prefix(u);
    find_range(t, '=');
    let f = find(t, '=');
    assert forall|i: int| 0 <= i < f implies u[i] != '=' by {
        assert(u[i] == t[i]);
    }
    find_unique(u, '=', f);
    assert(u.take(f) =~= t.take(f));
    key_without_leading_space(line);
}

proof fn key_without_return(line: Seq<char>)
    requires
        key_of(line) is Some,
    ensures
        key_of(without_return(line)) == key_of(line),
{
    let f = find(line, '=');
    find_range(line, '=');
    if line.len() > 0 && line.last() == '\r' {
        let short = line.drop_last();
        assert(f < line.len() - 1);
        find_unique(short, '=', f);
        assert(short.take(f) =~= line.take(f));
    }
}

pub(crate) proof fn one_line(line: Seq<char>)
    requires
        one_piece(line),
    ensures
        lines_of(line + seq!['\n']) == seq![without_return(line)],
{
    let s = line + seq!['\n'];
    find_unique(s, '\n', line.len() as int);
    assert(s.take(line.len() as int) =~= line);
    assert(s.skip(line.len() as int + 1) =~= seq![]);
    assert(lines_of(s.skip(line.len() as int + 1)) =~= seq![]);
    assert(lines_of(s) =~= seq![without_return(line)]);
}

/// An empty line stands before the lines of a text that a line feed begins.
pub(crate) proof fn lines_behind_line_feed(s: Seq<char>)
    ensures
        lines_of(seq!['\n'] + s) == seq![Seq::<char>::empty()] + lines_of(s),
{
    one_line(seq![]);
    assert(Seq::<char>::empty() + seq!['\n'] =~= seq!['\n']);
    lines_of_concat(seq!['\n'], s);
}

/// A line feed at the end of a text that has none there leaves its lines, but
/// for a carriage return.
pub(crate) proof fn lines_before_line_feed(s: Seq<char>)
    requires
        s.len() > 0,
        s.last() != '\n',
    ensures
        lines_of(s).len() > 0,
        lines_of(s + seq!['\n']) == lines_of(s).drop_last().push(
            without_return(lines_of(s).last()),
        ),
    decreases s.len(),
{
    let at = find(s, '\n');
    find_range(s, '\n');
    let t = s + seq!['\n'];
    if at < s.len() {
        let rest = s.skip(at + 1);
        assert(at < s.len() - 1);
        assert(rest.last() == s.last());
        lines_before_line_feed(rest);
        find_unique(t, '\n', at);
        assert(t.take(at) =~= s.take(at));
        assert(t.skip(at + 1) =~= rest + seq!['\n']);
        assert(lines_of(s).drop_last() =~= seq![without_return(s.take(at))] + lines_of(
            rest,
        ).drop_last());
        assert(lines_of(s).last() == lines_of(rest).last());
        assert(lines_of(t) =~= lines_of(s).drop_last().push(without_return(lines_of(s).last())));
    } else {
        assert(lines_of(s) == seq![s]);
        one_line(s);
        assert(lines_of(s).drop_last() =~= seq![]);
        assert(lines_of(t) =~= lines_of(s).drop_last().push(without_return(lines_of(s).last())));
    }
}

proof fn key_in_front(a: Seq<char>, b: Seq<char>, key: Seq<char>)
    requires
        a.len() > 0,
        a.last() == '\n',
        has_key(a, key),
    ensures
        has_key(a + b, key),
{
    lines_of_concat(a, b);
    let i = choose|i: int|
        0 <= i < lines_of(a).len() && key_of(#[trigger] lines_of(a)[i]) == Some(key);
    assert(lines_of(a + b)[i] == lines_of(a)[i]);
}

proof fn key_behind(a: Seq<char>, b: Seq<char>, key: Seq<char>)
    requires
        begins_a_line(a, b),
        has_key(b, key),
    ensures
        has_key(a + b, key),
{
    let i = choose|i: int|
        0 <= i < lines_of(b).len() && key_of(#[trigger] lines_of(b)[i]) == Some(key);
    if a.len() == 0 {
        assert(a + b =~= b);
    } else if a.last() == '\n' {
        lines_of_concat(a, b);
        assert(lines_of(a + b)[lines_of(a).len() + i] == lines_of(b)[i]);
    } else {
        let front = a + seq!['\n'];
        let rest = b.skip(1);
        assert(b =~= seq!['\n'] + rest);
        assert(a + b =~= front + rest);
        lines_behind_line_feed(rest);
        assert(key_of(Seq::<char>::empty()) is None);
        lines_of_concat(front, rest);
        assert(lines_of(rest)[i - 1] == lines_of(b)[i]);
        assert(lines_of(a + b)[lines_of(front).len() + i - 1] == lines_of(b)[i]);
    }
}

proof fn key_before_line_feed(s: Seq<char>, key: Seq<char>)
    requires
        s.len() > 0,
        s.last() != '\n',
        has_key(s, key),
    ensures
        has_key(s + seq!['\n'], key),
{
    lines_before_line_feed(s);
    let all = lines_of(s);
    let i = choose|i: int| 0 <= i < all.len() && key_of(#[trigger] all[i]) == Some(key);
    key_without_return(all[i]);
    if i < all.len() - 1 {
        assert(lines_of(s + seq!['\n'])[i] == all[i]);
    } else {
        assert(lines_of(s + seq!['\n'])[i] == without_return(all[i]));
    }
}

pub(crate) proof fn joined_ends_a_line(lines: Seq<Seq<char>>)
    ensures
        lines.len() > 0 ==> joined(lines).len() > 0 && joined(lines).last() == '\n',
        lines.len() == 0 ==> joined(lines).len() == 0,
{
}

/// Lines that were joined come apart again, but for carriage returns.
pub(crate) proof fn joined_comes_apart(lines: Seq<Seq<char>>)
    requires
        forall|i: int| 0 <= i < lines.len() ==> one_piece(#[trigger] lines[i]),
    ensures
        lines_of(joined(lines)).len() == lines.len(),
        forall|i: int|
            0 <= i < lines.len() ==> #[trigger] lines_of(joined(lines))[i] == without_return(
                lines[i],
            ),
    decreases lines.len(),
{
    if lines.len() > 0 {
        let before = lines.drop_last();
        assert forall|i: int| 0 <= i < before.len() implies one_piece(#[trigger] before[i]) by {
            assert(one_piece(lines[i]));
        }
        joined_comes_apart(before);
        joined_ends_a_line(before);
        let own = lines.last() + seq!['\n'];
        assert(one_piece(lines[lines.len() - 1]));
        one_line(lines.last());
        assert(joined(lines) =~= joined(before) + own);
        if before.len() > 0 {
            lines_of_concat(joined(before), own);
        } else {
            assert(joined(lines) =~= own);
        }
        assert forall|i: int| 0 <= i < lines.len() implies #[trigger] lines_of(joined(lines))[i]
            == without_return(lines[i]) by {
            if i < before.len() {
                assert(lines_of(joined(before))[i] == without_return(before[i]));
            }
        }
    }
}

/// Each of some lines that is a setting is one of a key.
pub open spec fn sets_only(lines: Seq<Seq<char>>, key: Seq<char>) -> bool {
    forall|i: int|
        0 <= i < lines.len() ==> (statement(#[trigger] lines[i]) matches Statement::Setting(k, _)
            ==> k == key)
}

/// None of some lines opens a section.
pub open spec fn opens_no_section(lines: Seq<Seq<char>>) -> bool {
    forall|i: int| 0 <= i < lines.len() ==> statement(#[trigger] lines[i]) !is Section
}

/// The text of an entry states its key and no other, up to the end of a line,
/// and opens no section; its section stands on one line.
pub open spec fn states_itself(entry: KeyText) -> bool {
    &&& entry.block.len() > 0
    &&& entry.block.last() == '\n'
    &&& has_key(entry.block, entry.key)
    &&& sets_only(lines_of(entry.block), entry.key)
    &&& opens_no_section(lines_of(entry.block))
    &&& one_piece(entry.section)
}

pub(crate) proof fn comments_are_comments(lines: Seq<Seq<char>>)
    requires
        forall|i: int| 0 <= i < lines.len() ==> one_piece(#[trigger] lines[i]),
    ensures
        forall|i: int|
            0 <= i < comments_after(lines).len() ==> {
                &&& statement(#[trigger] comments_after(lines)[i]) is Comment
                &&& one_piece(comments_after(lines)[i])
            },
        one_piece(section_after(lines)),
    decreases lines.len(),
{
    if lines.len() > 0 {
        let before = lines.drop_last();
        assert forall|i: int| 0 <= i < before.len() implies one_piece(#[trigger] before[i]) by {
            assert(one_piece(lines[i]));
        }
        comments_are_comments(before);
        assert(one_piece(lines[lines.len() - 1]));
        trim_stays_one_piece(lines.last());
        assert forall|i: int| 0 <= i < comments_after(lines).len() implies {
            &&& statement(#[trigger] comments_after(lines)[i]) is Comment
            &&& one_piece(comments_after(lines)[i])
        } by {
            if i < comments_after(before).len() {
                assert(statement(comments_after(before)[i]) is Comment);
            }
        }
    }
}

/// The text that states a key states that key alone.
proof fn block_states_its_key(comments: Seq<Seq<char>>, line: Seq<char>)
    requires
        forall|i: int|
            0 <= i < comments.len() ==> statement(#[trigger] comments[i]) is Comment && one_piece(
                comments[i],
            ),
        one_piece(line),
        statement(line) is Setting,
    ensures
        ({
            let block = block_of(comments, line);
            let key = statement(line)->Setting_0;
            &&& block.len() > 0
            &&& block.last() == '\n'
            &&& has_key(block, key)
            &&& sets_only(lines_of(block), key)
        }),
{
    let body = joined(comments);
    let own = line + seq!['\n'];
    let block = block_of(comments, line);
    let key = statement(line)->Setting_0;
    joined_ends_a_line(comments);
    joined_comes_apart(comments);
    one_line(line);
    setting_has_its_key(line);
    key_without_return(line);
    statement_without_return(line);
    assert(key_of(lines_of(own)[0]) == Some(key));
    let rest = body + own;
    if comments.len() > 0 {
        lines_of_concat(body, own);
    } else {
        assert(rest =~= own);
    }
    key_behind(body, own, key);
    assert(sets_only(lines_of(rest), key)) by {
        assert forall|i: int| 0 <= i < lines_of(rest).len() implies (statement(
            #[trigger] lines_of(rest)[i],
        ) matches Statement::Setting(k, _) ==> k == key) by {
            if i < comments.len() {
                assert(lines_of(rest)[i] == lines_of(body)[i]);
                assert(statement(comments[i]) is Comment);
                statement_without_return(comments[i]);
            } else {
                assert(lines_of(rest)[i] == without_return(line));
            }
        }
    }
    if comments.len() > 0 {
        assert(block =~= seq!['\n'] + rest);
        lines_behind_line_feed(rest);
        key_behind(seq!['\n'], rest, key);
        assert forall|i: int| 0 <= i < lines_of(block).len() implies (statement(
            #[trigger] lines_of(block)[i],
        ) matches Statement::Setting(k, _) ==> k == key) by {
            if i == 0 {
                assert(trim(Seq::<char>::empty()).len() == 0);
            } else {
                assert(lines_of(block)[i] == lines_of(rest)[i - 1]);
            }
        }
    } else {
        assert(block =~= rest);
    }
    assert(block.last() == own.last());
}

/// The lines of the text that states a key: comments, and the line of the key.
pub(crate) proof fn lines_of_a_block(comments: Seq<Seq<char>>, line: Seq<char>)
    requires
        forall|i: int|
            0 <= i < comments.len() ==> statement(#[trigger] comments[i]) is Comment && one_piece(
                comments[i],
            ),
        one_piece(line),
    ensures
        forall|i: int|
            0 <= i < lines_of(block_of(comments, line)).len() ==> statement(
                #[trigger] lines_of(block_of(comments, line))[i],
            ) is Comment || statement(lines_of(block_of(comments, line))[i]) == statement(line),
{
    let body = joined(comments);
    let own = line + seq!['\n'];
    let block = block_of(comments, line);
    let rest = body + own;
    joined_ends_a_line(comments);
    joined_comes_apart(comments);
    one_line(line);
    statement_without_return(line);
    if comments.len() > 0 {
        lines_of_concat(body, own);
        assert(block =~= seq!['\n'] + rest);
        lines_behind_line_feed(rest);
    } else {
        assert(rest =~= own);
        assert(block =~= own);
    }
    assert forall|i: int| 0 <= i < lines_of(block).len() implies statement(
        #[trigger] lines_of(block)[i],
    ) is Comment || statement(lines_of(block)[i]) == statement(line) by {
        if comments.len() == 0 {
            assert(lines_of(block)[i] == without_return(line));
        } else if i == 0 {
            assert(trim(Seq::<char>::empty()).len() == 0);
        } else if i <= comments.len() {
            assert(lines_of(block)[i] == lines_of(rest)[i - 1]);
            assert(lines_of(rest)[i - 1] == lines_of(body)[i - 1]);
            assert(statement(comments[i - 1]) is Comment);
            statement_without_return(comments[i - 1]);
        } else {
            assert(lines_of(block)[i] == lines_of(rest)[i - 1]);
            assert(lines_of(block)[i] == without_return(line));
        }
    }
}

proof fn keys_state_themselves(lines: Seq<Seq<char>>)
    requires
        forall|i: int| 0 <= i < lines.len() ==> one_piece(#[trigger] lines[i]),
    ensures
        forall|k: int| 0 <= k < keys_after(lines).len() ==> states_itself(
            #[trigger] keys_after(lines)[k],
        ),
    decreases lines.len(),
{
    if lines.len() > 0 {
        let before = lines.drop_last();
        let line = lines.last();
        assert forall|i: int| 0 <= i < before.len() implies one_piece(#[trigger] before[i]) by {
            assert(one_piece(lines[i]));
        }
        keys_state_themselves(before);
        comments_are_comments(before);
        if statement(line) is Setting {
            assert(one_piece(lines[lines.len() - 1]));
            block_states_its_key(comments_after(before), line);
            lines_of_a_block(comments_after(before), line);
            assert(states_itself(keys_after(lines).last()));
        }
        assert forall|k: int| 0 <= k < keys_after(lines).len() implies states_itself(
            #[trigger] keys_after(lines)[k],
        ) by {
            if k < keys_after(before).len() {
                assert(keys_after(lines)[k] == keys_after(before)[k]);
            }
        }
    }
}

/// The keys of a settings file state themselves.
pub(crate) proof fn defaults_state_themselves(text: Seq<char>)
    ensures
        forall|k: int| 0 <= k < keys_of(text).len() ==> states_itself(#[trigger] keys_of(text)[k]),
{
    lines_hold_no_line_feed(text);
    keys_state_themselves(lines_of(text));
}

/// Whether text that is put at the end of a file begins a line of its own.
spec fn begins_a_line(content: Seq<char>, more: Seq<char>) -> bool {
    ||| content.len() == 0
    ||| content.last() == '\n'
    ||| more.len() == 0
    ||| more[0] == '\n'
}

proof fn additions_state_keys(content: Seq<char>, entries: Seq<KeyText>)
    requires
        forall|k: int| 0 <= k < entries.len() ==> states_itself(#[trigger] entries[k]),
        begins_a_line(content, additions(content, entries)),
    ensures
        ({
            let more = additions(content, entries);
            &&& more.len() > 0 ==> more.last() == '\n'
            &&& forall|k: int|
                0 <= k < entries.len() && !has_key(content, (#[trigger] entries[k]).key)
                    ==> more.len() > 0 && has_key(content + more, entries[k].key)
        }),
    decreases entries.len(),
{
    if entries.len() > 0 {
        let before = entries.drop_last();
        let entry = entries.last();
        assert forall|k: int| 0 <= k < before.len() implies states_itself(#[trigger] before[k]) by {
            assert(states_itself(entries[k]));
        }
        let had = additions(content, before);
        let more = additions(content, entries);
        if had.len() > 0 {
            assert(more[0] == had[0]);
        }
        additions_state_keys(content, before);
        assert(states_itself(entries[entries.len() - 1]));
        if has_key(content, entry.key) {
            assert forall|k: int|
                0 <= k < entries.len() && !has_key(
                    content,
                    (#[trigger] entries[k]).key,
                ) implies more.len() > 0 && has_key(content + more, entries[k].key) by {
                assert(entries[k] == before[k]);
            }
        } else {
            let head = if entry.section == last_added_section(content, before) {
                seq![]
            } else {
                header(entry.section)
            };
            let front = content + had + head;
            assert(more =~= had + head + entry.block);
            assert(begins_a_line(front, entry.block)) by {
                if head.len() > 0 {
                    assert(front.last() == head.last());
                } else if had.len() > 0 {
                    assert(front.last() == had.last());
                } else {
                    assert(front =~= content);
                    assert(more =~= entry.block);
                }
            }
            assert(content + more =~= front + entry.block);
            key_behind(front, entry.block, entry.key);
            assert(more.last() == entry.block.last());
            assert forall|k: int|
                0 <= k < entries.len() && !has_key(
                    content,
                    (#[trigger] entries[k]).key,
                ) implies more.len() > 0 && has_key(content + more, entries[k].key) by {
                if k < before.len() {
                    assert(entries[k] == before[k]);
                    assert((content + had).last() == had.last());
                    key_in_front(content + had, head + entry.block, entries[k].key);
                    assert(content + more =~= (content + had) + (head + entry.block));
                }
            }
        }
    }
}

proof fn nothing_to_add(content: Seq<char>, entries: Seq<KeyText>)
    requires
        forall|k: int| 0 <= k < entries.len() ==> has_key(content, (#[trigger] entries[k]).key),
    ensures
        additions(content, entries) == Seq::<char>::empty(),
    decreases entries.len(),
{
    if entries.len() > 0 {
        assert(has_key(content, entries[entries.len() - 1].key));
        assert forall|k: int| 0 <= k < entries.drop_last().len() implies has_key(
            content,
            (#[trigger] entries.drop_last()[k]).key,
        ) by {
            assert(has_key(content, entries[k].key));
        }
        nothing_to_add(content, entries.drop_last());
    }
}

pub(crate) proof fn sections_open_the_text(content: Seq<char>, entries: Seq<KeyText>)
    requires
        forall|k: int| 0 <= k < entries.len() ==> (#[trigger] entries[k]).section.len() > 0,
    ensures
        ({
            let more = additions(content, entries);
            &&& more.len() > 0 ==> more[0] == '\n'
            &&& more.len() == 0 ==> last_added_section(content, entries).len() == 0
        }),
    decreases entries.len(),
{
    if entries.len() > 0 {
        let before = entries.drop_last();
        assert forall|k: int| 0 <= k < before.len() implies (#[trigger] before[k]).section.len()
            > 0 by {
            assert(entries[k].section.len() > 0);
        }
        assert(entries[entries.len() - 1].section.len() > 0);
        sections_open_the_text(content, before);
        let had = additions(content, before);
        let more = additions(content, entries);
        if !has_key(content, entries.last().key) {
            if had.len() > 0 {
                assert(more[0] == had[0]);
            } else {
                assert(more[0] == header(entries.last().section)[0]);
            }
        }
    }
}

/// What is appended begins a line of its own in any file where each of the
/// defaults stands in a section.
proof fn sections_begin_a_line(content: Seq<char>, defaults: Seq<char>)
    requires
        forall|k: int|
            0 <= k < keys_of(defaults).len() ==> (#[trigger] keys_of(defaults)[k]).section.len()
                > 0,
    ensures
        begins_a_line(content, additions(content, keys_of(defaults))),
{
    sections_open_the_text(content, keys_of(defaults));
}

/// A settings file that got what it lacked states every key of the defaults.
proof fn every_key_is_stated(content: Seq<char>, defaults: Seq<char>)
    requires
        begins_a_line(content, additions(content, keys_of(defaults))),
    ensures
        forall|k: int|
            0 <= k < keys_of(defaults).len() ==> has_key(
                content + additions(content, keys_of(defaults)),
                (#[trigger] keys_of(defaults)[k]).key,
            ),
{
    let entries = keys_of(defaults);
    let more = additions(content, entries);
    defaults_state_themselves(defaults);
    additions_state_keys(content, entries);
    assert forall|k: int| 0 <= k < entries.len() implies has_key(
        content + more,
        (#[trigger] entries[k]).key,
    ) by {
        let key = entries[k].key;
        if has_key(content, key) {
            assert(content.len() > 0) by {
                if content.len() == 0 {
                    assert(lines_of(content).len() == 0);
                }
            }
            if more.len() == 0 {
                assert(content + more =~= content);
            } else if content.last() == '\n' {
                key_in_front(content, more, key);
            } else {
                key_before_line_feed(content, key);
                let front = content + seq!['\n'];
                key_in_front(front, more.skip(1), key);
                assert(content + more =~= front + more.skip(1));
            }
        }
    }
}

/// Nothing is appended a second time.
proof fn nothing_is_appended_again(content: Seq<char>, defaults: Seq<char>)
    requires
        begins_a_line(content, additions(content, keys_of(defaults))),
    ensures
        additions(content + additions(content, keys_of(defaults)), keys_of(defaults)) == Seq::<
            char,
        >::empty(),
{
    every_key_is_stated(content, defaults);
    nothing_to_add(content + additions(content, keys_of(defaults)), keys_of(defaults));
}

/// None of some lines is a setting whose key a settings file states.
pub open spec fn sets_what_is_lacked(content: Seq<char>, lines: Seq<Seq<char>>) -> bool {
    forall|i: int|
        0 <= i < lines.len() ==> (statement(#[trigger] lines[i]) matches Statement::Setting(k, _)
            ==> !has_key(content, k))
}

/// The lines of a header: an empty one, and that which opens the section.
pub(crate) proof fn header_lines(section: Seq<char>)
    requires
        one_piece(section),
    ensures
        ({
            let line = seq!['['] + section + seq![']'];
            &&& lines_of(header(section)) == seq![Seq::<char>::empty(), line]
            &&& statement(Seq::<char>::empty()) is Comment
            &&& statement(line) == Statement::Section(section)
        }),
{
    let line = seq!['['] + section + seq![']'];
    let rest = line + seq!['\n'];
    assert(header(section) =~= seq!['\n'] + rest);
    assert(one_piece(line)) by {
        assert forall|j: int| 0 <= j < line.len() implies line[j] != '\n' by {
            if 0 < j && j < line.len() - 1 {
                assert(line[j] == section[j - 1]);
            }
        }
    }
    one_line(line);
    lines_behind_line_feed(rest);
    assert(line[0] == '[' && line.last() == ']');
    assert(trim(line) == line);
    assert(line.subrange(1, line.len() - 1) =~= section);
    assert(trim(Seq::<char>::empty()).len() == 0);
    assert(lines_of(header(section)) =~= seq![Seq::<char>::empty(), line]);
}

proof fn header_sets_nothing(content: Seq<char>, section: Seq<char>)
    requires
        one_piece(section),
    ensures
        sets_what_is_lacked(content, lines_of(header(section))),
{
    header_lines(section);
}

pub(crate) proof fn additions_set_what_is_lacked(content: Seq<char>, entries: Seq<KeyText>)
    requires
        forall|k: int| 0 <= k < entries.len() ==> states_itself(#[trigger] entries[k]),
    ensures
        additions(content, entries).len() > 0 ==> additions(content, entries).last() == '\n',
        sets_what_is_lacked(content, lines_of(additions(content, entries))),
    decreases entries.len(),
{
    if entries.len() == 0 {
        assert(lines_of(additions(content, entries)).len() == 0);
    } else {
        let before = entries.drop_last();
        let entry = entries.last();
        assert forall|k: int| 0 <= k < before.len() implies states_itself(#[trigger] before[k]) by {
            assert(states_itself(entries[k]));
        }
        additions_set_what_is_lacked(content, before);
        assert(states_itself(entries[entries.len() - 1]));
        if !has_key(content, entry.key) {
            let had = additions(content, before);
            let more = additions(content, entries);
            let opened = if entry.section == last_added_section(content, before) {
                had
            } else {
                had + header(entry.section)
            };
            if opened != had {
                header_sets_nothing(content, entry.section);
                assert(header(entry.section).last() == '\n');
                together(content, had, header(entry.section));
                assert(opened.last() == '\n');
            }
            assert(sets_what_is_lacked(content, lines_of(entry.block)));
            together(content, opened, entry.block);
            assert(more == opened + entry.block);
            assert(more.last() == entry.block.last());
        }
    }
}

proof fn together(content: Seq<char>, a: Seq<char>, b: Seq<char>)
    requires
        a.len() > 0 ==> a.last() == '\n',
        sets_what_is_lacked(content, lines_of(a)),
        sets_what_is_lacked(content, lines_of(b)),
    ensures
        sets_what_is_lacked(content, lines_of(a + b)),
{
    if a.len() == 0 {
        assert(a + b =~= b);
    } else {
        lines_of_concat(a, b);
        assert forall|i: int| 0 <= i < lines_of(a + b).len() implies (statement(
            #[trigger] lines_of(a + b)[i],
        ) matches Statement::Setting(k, _) ==> !has_key(content, k)) by {
            if i < lines_of(a).len() {
                assert(lines_of(a + b)[i] == lines_of(a)[i]);
            } else {
                assert(lines_of(a + b)[i] == lines_of(b)[i - lines_of(a).len()]);
            }
        }
    }
}

/// A settings file that got what it lacked states every key of the defaults.
pub proof fn appended_file_states_every_key(content: Seq<char>)
    ensures
        forall|k: int|
            0 <= k < keys_of(DEFAULT_CONFIG@).len() ==> has_key(
                content + additions(content, keys_of(DEFAULT_CONFIG@)),
                (#[trigger] keys_of(DEFAULT_CONFIG@)[k]).key,
            ),
{
    default_keys_stand_in_sections();
    sections_begin_a_line(content, DEFAULT_CONFIG@);
    every_key_is_stated(content, DEFAULT_CONFIG@);
}

/// Nothing is appended a second time: a file that got what it lacked is left
/// as it is the next time.
pub proof fn keys_are_appended_once(content: Seq<char>)
    ensures
        additions(
            content + additions(content, keys_of(DEFAULT_CONFIG@)),
            keys_of(DEFAULT_CONFIG@),
        ) == Seq::<char>::empty(),
{
    default_keys_stand_in_sections();
    sections_begin_a_line(content, DEFAULT_CONFIG@);
    nothing_is_appended_again(content, DEFAULT_CONFIG@);
}

proof fn lines_state_their_keys(lines: Seq<Seq<char>>)
    ensures
        forall|k: int|
            0 <= k < keys_after(lines).len() ==> exists|i: int|
                0 <= i < lines.len() && key_of(#[trigger] lines[i]) == Some(
                    (#[trigger] keys_after(lines)[k]).key,
                ),
    decreases lines.len(),
{
    if lines.len() > 0 {
        let before = lines.drop_last();
        lines_state_their_keys(before);
        assert forall|k: int| 0 <= k < keys_after(lines).len() implies exists|i: int|
            0 <= i < lines.len() && key_of(#[trigger] lines[i]) == Some(
                (#[trigger] keys_after(lines)[k]).key,
            ) by {
            if k < keys_after(before).len() {
                let key = keys_after(before)[k].key;
                let i = choose|i: int| 0 <= i < before.len() && key_of(#[trigger] before[i]) == Some(key);
                assert(key_of(lines[i]) == Some(key));
            } else {
                setting_has_its_key(lines.last());
                assert(key_of(lines[lines.len() - 1]) == Some(keys_after(lines)[k].key));
            }
        }
    }
}

/// A text lacks none of the keys that it states; so the default settings, once
/// written, are left as they are.
pub proof fn own_keys_are_not_appended(text: Seq<char>)
    ensures
        additions(text, keys_of(text)) == Seq::<char>::empty(),
{
    lines_state_their_keys(lines_of(text));
    assert forall|k: int| 0 <= k < keys_of(text).len() implies has_key(
        text,
        (#[trigger] keys_of(text)[k]).key,
    ) by {
        let key = keys_after(lines_of(text))[k].key;
        let i = choose|i: int|
            0 <= i < lines_of(text).len() && key_of(#[trigger] lines_of(text)[i]) == Some(key);
        assert(key_of(lines_of(text)[i]) == Some(key));
    }
    nothing_to_add(text, keys_of(text));
}

/// What a settings file holds once the change was made that reading it asked for.
pub open spec fn text_after(content: Option<Seq<char>>, change: FileChange) -> Option<Seq<char>> {
    match change {
        FileChange::Keep => content,
        FileChange::Write(text) => Some(text@),
        FileChange::Append(text) => match content {
            Some(content) => Some(content + text@),
            None => None,
        },
    }
}

/// A settings file is changed once: after the change that reading it asked for,
/// reading it again leaves it as it is.
pub proof fn settings_file_is_changed_once(
    content: Option<Seq<char>>,
    change: FileChange,
    next: FileChange,
)
    requires
        change_of(content, change),
        change_of(text_after(content, change), next),
    ensures
        next is Keep,
{
    match content {
        None => {
            own_keys_are_not_appended(DEFAULT_CONFIG@);
        },
        Some(content) => {
            keys_are_appended_once(content);
        },
    }
}

/// How many of some lines open a section.
pub open spec fn headers_in(lines: Seq<Seq<char>>, section: Seq<char>) -> nat
    decreases lines.len(),
{
    if lines.len() == 0 {
        0
    } else {
        headers_in(lines.drop_last(), section) + (if statement(lines.last())
            == Statement::Section(section) {
            1nat
        } else {
            0nat
        })
    }
}

/// Whether the entries of one section stand together.
pub open spec fn grouped(entries: Seq<KeyText>) -> bool {
    forall|i: int, j: int, k: int|
        0 <= i < j < k < entries.len() && (#[trigger] entries[i]).section == (
        #[trigger] entries[k]).section ==> (#[trigger] entries[j]).section == entries[i].section
}

/// Whether a settings file lacks an entry of a section.
pub open spec fn lacks_in(content: Seq<char>, entries: Seq<KeyText>, section: Seq<char>) -> bool {
    exists|k: int|
        0 <= k < entries.len() && (#[trigger] entries[k]).section == section && !has_key(
            content,
            entries[k].key,
        )
}

proof fn headers_add(a: Seq<Seq<char>>, b: Seq<Seq<char>>, section: Seq<char>)
    ensures
        headers_in(a + b, section) == headers_in(a, section) + headers_in(b, section),
    decreases b.len(),
{
    if b.len() == 0 {
        assert(a + b =~= a);
    } else {
        assert((a + b).drop_last() =~= a + b.drop_last());
        headers_add(a, b.drop_last(), section);
    }
}

proof fn no_headers(lines: Seq<Seq<char>>, section: Seq<char>)
    requires
        opens_no_section(lines),
    ensures
        headers_in(lines, section) == 0,
    decreases lines.len(),
{
    if lines.len() > 0 {
        let before = lines.drop_last();
        assert(statement(lines[lines.len() - 1]) !is Section);
        assert forall|i: int| 0 <= i < before.len() implies statement(
            #[trigger] before[i],
        ) !is Section by {
            assert(statement(lines[i]) !is Section);
        }
        no_headers(before, section);
    }
}

proof fn last_added(content: Seq<char>, entries: Seq<KeyText>) -> (at: int)
    requires
        last_added_section(content, entries).len() > 0 || exists|k: int|
            0 <= k < entries.len() && !has_key(content, (#[trigger] entries[k]).key),
    ensures
        0 <= at < entries.len(),
        !has_key(content, entries[at].key),
        entries[at].section == last_added_section(content, entries),
        forall|k: int| at < k < entries.len() ==> has_key(content, (#[trigger] entries[k]).key),
    decreases entries.len(),
{
    let before = entries.drop_last();
    let last = entries.len() - 1;
    if has_key(content, entries.last().key) {
        if last_added_section(content, entries).len() == 0 {
            let k = choose|k: int|
                0 <= k < entries.len() && !has_key(content, (#[trigger] entries[k]).key);
            assert(before[k] == entries[k]);
        }
        let at = last_added(content, before);
        assert forall|k: int| at < k < entries.len() implies has_key(
            content,
            (#[trigger] entries[k]).key,
        ) by {
            if k < last {
                assert(has_key(content, before[k].key));
            }
        }
        assert(before[at] == entries[at]);
        at
    } else {
        last
    }
}

proof fn headers_of_additions(content: Seq<char>, entries: Seq<KeyText>, section: Seq<char>)
    requires
        forall|k: int| 0 <= k < entries.len() ==> states_itself(#[trigger] entries[k]),
        forall|k: int| 0 <= k < entries.len() ==> (#[trigger] entries[k]).section.len() > 0,
        grouped(entries),
    ensures
        headers_in(lines_of(additions(content, entries)), section) == (if lacks_in(
            content,
            entries,
            section,
        ) {
            1nat
        } else {
            0nat
        }),
    decreases entries.len(),
{
    if entries.len() == 0 {
        assert(lines_of(additions(content, entries)).len() == 0);
    } else {
        let before = entries.drop_last();
        let entry = entries.last();
        let last = entries.len() - 1;
        assert(entry == entries[last]);
        assert(states_itself(entry));
        assert forall|k: int| 0 <= k < before.len() implies states_itself(#[trigger] before[k]) by {
            assert(states_itself(entries[k]));
        }
        assert forall|k: int| 0 <= k < before.len() implies (#[trigger] before[k]).section.len()
            > 0 by {
            assert(entries[k].section.len() > 0);
        }
        assert(grouped(before)) by {
            assert forall|i: int, j: int, k: int|
                0 <= i < j < k < before.len() && (#[trigger] before[i]).section == (
                #[trigger] before[k]).section implies (#[trigger] before[j]).section
                == before[i].section by {
                assert(entries[i] == before[i] && entries[j] == before[j] && entries[k]
                    == before[k]);
            }
        }
        headers_of_additions(content, before, section);
        additions_set_what_is_lacked(content, before);
        let had = additions(content, before);
        let more = additions(content, entries);
        if lacks_in(content, before, section) {
            let k = choose|k: int|
                0 <= k < before.len() && (#[trigger] before[k]).section == section && !has_key(
                    content,
                    before[k].key,
                );
            assert(entries[k] == before[k]);
            assert(lacks_in(content, entries, section));
        }
        if lacks_in(content, entries, section) {
            let k = choose|k: int|
                0 <= k < entries.len() && (#[trigger] entries[k]).section == section && !has_key(
                    content,
                    entries[k].key,
                );
            if k < last {
                assert(before[k] == entries[k]);
                assert(lacks_in(content, before, section));
            }
        }
        if !has_key(content, entry.key) {
            no_headers(lines_of(entry.block), section);
            if entry.section == last_added_section(content, before) {
                let at = last_added(content, before);
                assert(lacks_in(content, before, entry.section));
                assert(had.len() > 0) by {
                    sections_open_the_text(content, before);
                }
                lines_of_concat(had, entry.block);
                headers_add(lines_of(had), lines_of(entry.block), section);
            } else {
                let head = header(entry.section);
                header_lines(entry.section);
                let lines = lines_of(head);
                assert(lines.drop_last() =~= seq![Seq::<char>::empty()]);
                assert(lines.drop_last().drop_last() =~= seq![]);
                reveal_with_fuel(headers_in, 3);
                assert(headers_in(lines, section) == (if section == entry.section {
                    1nat
                } else {
                    0nat
                }));
                if had.len() > 0 {
                    lines_of_concat(had, head);
                } else {
                    assert(had + head =~= head);
                    assert(lines_of(had) + lines =~= lines);
                }
                headers_add(lines_of(had), lines, section);
                assert((had + head).last() == '\n');
                lines_of_concat(had + head, entry.block);
                headers_add(lines_of(had + head), lines_of(entry.block), section);
                if lacks_in(content, before, entry.section) {
                    let k = choose|k: int|
                        0 <= k < before.len() && (#[trigger] before[k]).section == entry.section
                            && !has_key(content, before[k].key);
                    let at = last_added(content, before);
                    assert(k <= at);
                    assert(entries[k] == before[k] && entries[at] == before[at]);
                    if k < at {
                        assert(entries[k].section == entries[last].section);
                        assert(entries[at].section == entries[k].section);
                    }
                    assert(false);
                }
                if section == entry.section {
                    assert(lacks_in(content, entries, section));
                }
            }
        }
    }
}

/// What is appended opens each section that lacks a key once, and no other.
pub proof fn each_section_is_opened_once(content: Seq<char>, section: Seq<char>)
    ensures
        headers_in(lines_of(additions(content, keys_of(DEFAULT_CONFIG@))), section) == (
        if lacks_in(content, keys_of(DEFAULT_CONFIG@), section) {
            1nat
        } else {
            0nat
        }),
{
    default_keys_stand_in_sections();
    default_keys_are_grouped();
    defaults_state_themselves(DEFAULT_CONFIG@);
    headers_of_additions(content, keys_of(DEFAULT_CONFIG@), section);
}

} // verus!

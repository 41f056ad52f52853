//! What holds of env files and of the configuration source, stated over the
//! lines and the variables themselves.

use crate::env_file;
use crate::env_file::{EnvFileErrorKind, EnvLine, EnvSource};
use crate::text;
use crate::text_laws;
use vstd::prelude::*;

verus! {

// ---- quotes ---------------------------------------------------------------

/// One pair of quotes comes off where the same quote stands at both ends, and
/// what stands between stays; any other text stays whole.
pub proof fn lemma_one_pair_of_quotes_comes_off(v: Seq<char>)
    ensures
        env_file::unquoted(seq!['"'] + v + seq!['"']) == v,
        env_file::unquoted(seq!['\''] + v + seq!['\'']) == v,
        v.len() < 2 || v[0] != v[v.len() - 1] || (v[0] != '"' && v[0] != '\'')
            ==> env_file::unquoted(v) == v,
{
    let d = seq!['"'] + v + seq!['"'];
    let s = seq!['\''] + v + seq!['\''];
    assert(d[0] == '"' && d.last() == '"');
    assert(s[0] == '\'' && s.last() == '\'');
    assert(d.subrange(1, d.len() - 1) =~= v);
    assert(s.subrange(1, s.len() - 1) =~= v);
}

// ---- lines ----------------------------------------------------------------

/// A blank line says nothing, nor does a line that opens with `#`, however it
/// goes on, white space around either aside.
pub proof fn lemma_comments_say_nothing(before: Seq<char>, core: Seq<char>, after: Seq<char>)
    requires
        text_laws::is_blank(before),
        text_laws::is_solid(core),
        text_laws::is_blank(after),
        core.len() == 0 || core[0] == '#',
    ensures
        env_file::env_line(before + core + after) == EnvLine::Nothing,
{
    text_laws::lemma_trimming_bares_the_core(before, core, after);
}

/// A usable key: some characters, none of them white space or `=`.
pub open spec fn is_name(key: Seq<char>) -> bool {
    &&& key.len() > 0
    &&& key[0] != '#'
    &&& forall|k: int|
        0 <= k < key.len() ==> !text::is_white_space(#[trigger] key[k]) && key[k] != '='
}

/// What may stand before a key: nothing, or `export` and white space.
pub open spec fn is_lead(lead: Seq<char>, key: Seq<char>) -> bool {
    ||| lead.len() == 0 && key != "export"@
    ||| lead.len() >= 7 && lead.take(7) == "export "@ && text_laws::is_blank(lead.skip(7))
}

proof fn lemma_blank_has_no_equals(s: Seq<char>, k: int)
    requires
        text_laws::is_blank(s),
        0 <= k < s.len(),
    ensures
        s[k] != '=',
        text::is_white_space(s[k]),
{
    assert(text::is_white_space(s[k]));
}

/// A line without its lead, read as a pair.
proof fn lemma_pair_body(key: Seq<char>, w1: Seq<char>, tail: Seq<char>, value: Seq<char>)
    requires
        is_name(key),
        text_laws::is_blank(w1),
        text::trimmed(tail) == value,
    ensures
        ({
            let body = key + w1 + seq!['='] + tail;
            &&& text::trimmed_start(body) == body
            &&& text::first_index(body, '=') == Some((key.len() + w1.len()) as int)
            &&& text::trimmed(body.take((key.len() + w1.len()) as int)) == key
            &&& text::trimmed(body.skip((key.len() + w1.len()) as int + 1)) == value
            &&& env_file::is_key(key)
        }),
{
    let body = key + w1 + seq!['='] + tail;
    let n = key.len() as int;
    let i = (key.len() + w1.len()) as int;
    assert(!text::is_white_space(key[0]));
    assert(body[0] == key[0]);
    assert forall|j: int| 0 <= j < i implies body[j] != '=' by {
        if j < n {
            assert(body[j] == key[j]);
        } else {
            assert(body[j] == w1[j - n]);
            lemma_blank_has_no_equals(w1, j - n);
        }
    }
    assert(body[i] == '=');
    text::lemma_first_index_is(body, '=', i);
    let none = Seq::<char>::empty();
    assert(body.take(i) =~= none + key + w1);
    assert(!text::is_white_space(key[n - 1]));
    text_laws::lemma_trimming_bares_the_core(none, key, w1);
    assert(body.skip(i + 1) =~= tail);
}

/// `export` and white space come off, and nothing that only begins like them.
proof fn lemma_lead_comes_off(lead: Seq<char>, key: Seq<char>, w1: Seq<char>, tail: Seq<char>)
    requires
        is_name(key),
        is_lead(lead, key),
        text_laws::is_blank(w1),
    ensures
        ({
            let body = key + w1 + seq!['='] + tail;
            text::trimmed_start(env_file::without_export(lead + body)) == body
        }),
{
    reveal_strlit("export ");
    reveal_strlit("export");
    let body = key + w1 + seq!['='] + tail;
    let line = lead + body;
    let n = key.len() as int;
    assert(!text::is_white_space(key[0]));
    assert(body[0] == key[0]);
    if lead.len() == 0 {
        assert(line =~= body);
        if text::occurs_at(line, "export "@, 0) {
            let s = line.subrange(0, 7);
            assert(s == "export "@);
            if n > 6 {
                assert(s[6] == key[6]);
                assert(text::is_white_space(' '));
            } else if n < 6 {
                if w1.len() > 0 {
                    assert(s[n] == w1[0]);
                    lemma_blank_has_no_equals(w1, 0);
                    assert(text::is_white_space("export "@[n]));
                } else {
                    assert(s[n] == '=');
                }
            } else {
                assert(key =~= "export"@) by {
                    assert forall|k: int| 0 <= k < 6 implies key[k] == "export"@[k] by {
                        assert(s[k] == key[k]);
                        assert("export "@[k] == "export"@[k]);
                    }
                }
            }
        }
        assert(env_file::without_export(line) == line);
        assert(text::trimmed_start(body) == body);
    } else {
        assert(line.subrange(0, 7) =~= lead.take(7));
        assert(text::occurs_at(line, "export "@, 0));
        assert(line.skip(7) =~= lead.skip(7) + body);
        text_laws::lemma_trimming_bares_the_start(lead.skip(7), body);
    }
}

/// A pair gives its key and its value: whatever white space stands around the
/// line, around the equals sign or after `export`, and whatever the value
/// holds. Of the value one pair of quotes comes off.
pub proof fn lemma_pairs_are_read(
    before: Seq<char>,
    lead: Seq<char>,
    key: Seq<char>,
    w1: Seq<char>,
    w2: Seq<char>,
    value: Seq<char>,
    after: Seq<char>,
)
    requires
        text_laws::is_blank(before),
        is_lead(lead, key),
        is_name(key),
        text_laws::is_blank(w1),
        text_laws::is_blank(w2),
        text_laws::is_solid(value),
        text_laws::is_blank(after),
    ensures
        env_file::env_line(before + (lead + (key + w1 + seq!['='] + (w2 + value))) + after)
            == (EnvLine::Entry { key, value: env_file::unquoted(value) }),
{
    reveal_strlit("export ");
    let line = before + (lead + (key + w1 + seq!['='] + (w2 + value))) + after;
    let none = Seq::<char>::empty();
    let n = key.len() as int;
    assert(!text::is_white_space(key[0]) && !text::is_white_space(key[n - 1]));
    if value.len() > 0 {
        let tail = w2 + value;
        let body = key + w1 + seq!['='] + tail;
        let core = lead + body;
        assert(core.last() == value.last());
        if lead.len() > 0 {
            assert(core[0] == lead.take(7)[0]);
        } else {
            assert(core[0] == key[0]);
        }
        text_laws::lemma_trimming_bares_the_core(before, core, after);
        assert(tail =~= w2 + value + none);
        text_laws::lemma_trimming_bares_the_core(w2, value, none);
        lemma_lead_comes_off(lead, key, w1, tail);
        lemma_pair_body(key, w1, tail, value);
        if lead.len() == 0 {
            assert(core[0] != '#');
        }
    } else {
        let body = key + w1 + seq!['='] + none;
        let core = lead + body;
        let gap = w2 + after;
        assert(line =~= before + core + gap);
        assert forall|k: int| 0 <= k < gap.len() implies text::is_white_space(
            #[trigger] gap[k],
        ) by {
            if k < w2.len() {
                assert(text::is_white_space(w2[k]));
            } else {
                assert(text::is_white_space(after[k - w2.len()]));
            }
        }
        assert(core.last() == '=');
        if lead.len() > 0 {
            assert(core[0] == lead.take(7)[0]);
        } else {
            assert(core[0] == key[0]);
        }
        text_laws::lemma_trimming_bares_the_core(before, core, gap);
        assert(text::trimmed(none) == none);
        lemma_lead_comes_off(lead, key, w1, none);
        lemma_pair_body(key, w1, none, none);
        assert(value =~= none);
    }
}

/// A line that says something and has no equals sign is wrong, with `export`
/// or without.
pub proof fn lemma_lines_need_an_equals_sign(before: Seq<char>, core: Seq<char>, after: Seq<char>)
    requires
        text_laws::is_blank(before),
        text_laws::is_solid(core),
        text_laws::is_blank(after),
        core.len() > 0,
        core[0] != '#',
        !core.contains('='),
    ensures
        env_file::env_line(before + core + after) == EnvLine::Wrong(EnvFileErrorKind::NotAPair),
{
    reveal_strlit("export ");
    text_laws::lemma_trimming_bares_the_core(before, core, after);
    let stripped = env_file::without_export(core);
    let i = text_laws::lemma_start_trimmed_lies_within(stripped);
    let body = stripped.skip(i);
    let shift = core.len() - body.len();
    text::lemma_first_index(body, '=');
    if let Some(k) = text::first_index(body, '=') {
        assert(body[k] == core[shift + k]);
        assert(core.contains(core[shift + k]));
    }
}

/// A pair whose key is empty or has white space in it is wrong, whatever
/// follows the equals sign, with `export` or without.
pub proof fn lemma_keys_have_no_white_space(
    before: Seq<char>,
    lead: Seq<char>,
    key: Seq<char>,
    w1: Seq<char>,
    rest: Seq<char>,
    after: Seq<char>,
)
    requires
        text_laws::is_blank(before),
        text_laws::is_blank(w1),
        text_laws::is_blank(after),
        text_laws::is_solid(lead + (key + w1 + seq!['='] + rest)),
        text_laws::is_solid(key),
        !key.contains('='),
        key.len() == 0 && w1.len() == 0 || exists|k: int|
            0 <= k < key.len() && text::is_white_space(#[trigger] key[k]),
        lead.len() == 0 && (key + w1 + seq!['='] + rest)[0] != '#' && ((key + w1 + seq!['=']
            + rest).len() < 7 || (key + w1 + seq!['='] + rest).take(7) != "export "@) || (lead.len()
            >= 7 && lead.take(7) == "export "@ && text_laws::is_blank(lead.skip(7))),
    ensures
        env_file::env_line(before + (lead + (key + w1 + seq!['='] + rest)) + after)
            == EnvLine::Wrong(EnvFileErrorKind::MalformedKey),
{
    reveal_strlit("export ");
    let body = key + w1 + seq!['='] + rest;
    let core = lead + body;
    let none = Seq::<char>::empty();
    let n = (key.len() + w1.len()) as int;
    text_laws::lemma_trimming_bares_the_core(before, core, after);
    assert(body[n] == '=');
    assert(!text::is_white_space('='));
    assert(body[0] == (if key.len() > 0 {
        key[0]
    } else {
        '='
    }));
    if lead.len() == 0 {
        assert(core =~= body);
        if text::occurs_at(core, "export "@, 0) {
            assert(core.subrange(0, 7) =~= core.take(7));
        }
        assert(env_file::without_export(core) == core);
        assert(text::trimmed_start(core) == core);
    } else {
        assert(core[0] == lead.take(7)[0]);
        assert(core.subrange(0, 7) =~= lead.take(7));
        assert(text::occurs_at(core, "export "@, 0));
        assert(core.skip(7) =~= lead.skip(7) + body);
        text_laws::lemma_trimming_bares_the_start(lead.skip(7), body);
    }
    assert forall|j: int| 0 <= j < n implies body[j] != '=' by {
        if j < key.len() {
            assert(body[j] == key[j]);
            assert(key.contains(key[j]));
        } else {
            assert(body[j] == w1[j - key.len()]);
            lemma_blank_has_no_equals(w1, j - key.len());
        }
    }
    text::lemma_first_index_is(body, '=', n);
    assert(body.take(n) =~= none + key + w1);
    text_laws::lemma_trimming_bares_the_core(none, key, w1);
}

// ---- files ----------------------------------------------------------------

/// A file is read line by line, with either line break. A line that says
/// nothing is passed over, an entry replaces what its key had, and a wrong
/// line ends the reading with its number and what is wrong. The last line
/// needs no line break.
pub proof fn lemma_files_are_read_line_by_line(
    line: Seq<char>,
    end: Seq<char>,
    rest: Seq<char>,
    seen: nat,
    entries: Map<Seq<char>, Seq<char>>,
)
    requires
        !line.contains('\n'),
        end == seq!['\r', '\n'] || (end == seq!['\n'] && (line.len() == 0 || line[line.len() - 1]
            != '\r')) || (end.len() == 0 && rest.len() == 0 && line.len() > 0),
    ensures
        env_file::env_line(line) is Nothing ==> env_file::env_entries(
            line + end + rest,
            seen,
            entries,
        ) == env_file::env_entries(rest, seen + 1, entries),
        env_file::env_line(line) matches EnvLine::Entry { key, value } ==> env_file::env_entries(
            line + end + rest,
            seen,
            entries,
        ) == env_file::env_entries(rest, seen + 1, entries.insert(key, value)),
        env_file::env_line(line) matches EnvLine::Wrong(kind) ==> env_file::env_entries(
            line + end + rest,
            seen,
            entries,
        ) == Err::<Map<Seq<char>, Seq<char>>, _>((seen + 1, kind)),
        env_file::env_entries(Seq::empty(), seen, entries) == Ok::<_, (nat, EnvFileErrorKind)>(
            entries,
        ),
{
    text_laws::lemma_lines_end_at_newlines(line, rest);
    if end.len() == 0 {
        assert(line + end + rest =~= line);
        assert(rest =~= Seq::empty());
    }
}

/// An env file error names the file, the line and the kind, and nothing else.
pub proof fn lemma_file_errors_in_words(origin: Seq<char>, line: nat)
    ensures
        env_file::env_error_text(origin, line, EnvFileErrorKind::NotAPair) == origin + ":"@
            + text::decimal(line) + ": expected KEY=VALUE, comment, or blank line"@,
        env_file::env_error_text(origin, line, EnvFileErrorKind::MalformedKey) == origin + ":"@
            + text::decimal(line) + ": malformed key"@,
{
}

// ---- the source -----------------------------------------------------------

/// The file has the first word on a variable and the process environment the
/// second.
pub proof fn lemma_the_file_goes_first(src: EnvSource, key: Seq<char>)
    ensures
        src.file().contains_key(key) ==> env_file::lookup(src@, key) == Some(src.file()[key]),
        !src.file().contains_key(key) && src.process().contains_key(key) ==> env_file::lookup(
            src@,
            key,
        ) == Some(src.process()[key]),
        !src.file().contains_key(key) && !src.process().contains_key(key) ==> env_file::lookup(
            src@,
            key,
        ) is None,
{
}

/// A variable of the process environment has the value under which its name
/// first occurs, and a name that does not occur has none.
pub proof fn lemma_first_of_a_name_counts(vars: Seq<(String, String)>, i: int, name: Seq<char>)
    ensures
        0 <= i < vars.len() && (forall|j: int| 0 <= j < i ==> (#[trigger] vars[j]).0@ != vars[i].0@)
            ==> env_file::environment(vars).contains_key(vars[i].0@) && env_file::environment(
            vars,
        )[vars[i].0@] == vars[i].1@,
        (forall|j: int| 0 <= j < vars.len() ==> (#[trigger] vars[j]).0@ != name)
            ==> !env_file::environment(vars).contains_key(name),
    decreases vars.len(),
{
    if vars.len() > 0 {
        let rest = vars.skip(1);
        lemma_first_of_a_name_counts(rest, i - 1, name);
        assert forall|j: int| 0 <= j < rest.len() implies (#[trigger] rest[j]) == vars[j + 1] by {}
        if 0 < i < vars.len() && (forall|j: int|
            0 <= j < i ==> (#[trigger] vars[j]).0@ != vars[i].0@) {
            assert(vars[0].0@ != vars[i].0@);
            assert(rest[i - 1] == vars[i]);
            assert forall|j: int| 0 <= j < i - 1 implies (#[trigger] rest[j]).0@ != rest[i - 1].0@ by {
                assert(rest[j] == vars[j + 1]);
            }
        }
        if forall|j: int| 0 <= j < vars.len() ==> (#[trigger] vars[j]).0@ != name {
            assert(vars[0].0@ != name);
            assert forall|j: int| 0 <= j < rest.len() implies (#[trigger] rest[j]).0@ != name by {
                assert(rest[j] == vars[j + 1]);
            }
        }
    }
}

} // verus!

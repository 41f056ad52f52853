//! The configuration source: an optional env file first, then the process
//! environment.
//!
//! A file holds `KEY=VALUE` lines, `#` comments and blank lines. A line may
//! open with `export `. Quotes around a value are stripped when the same quote
//! stands at both ends. There is no interpolation, no escape and no multi-line
//! value; anything else is an error when the file is read.
//!
//! An error names the file and the line, never the content of the line, which
//! could be a mistyped secret.

use crate::text;
use vstd::hash_map::StringHashMap;
use vstd::prelude::*;
use vstd::slice::slice_subrange;

verus! {

/// What is wrong with a line of an env file.
#[derive(Debug, Clone, Copy, PartialEq, Eq, Structural)]
pub enum EnvFileErrorKind {
    /// The line has no `=`.
    NotAPair,
    /// The key is empty or has white space in it.
    MalformedKey,
}

/// An env file that cannot be used.
#[derive(Debug)]
pub struct EnvFileError {
    pub origin: String,
    /// Line number, from 1.
    pub line: usize,
    pub kind: EnvFileErrorKind,
}

/// The message of an env file error: position and kind, nothing else.
pub open spec fn env_error_text(origin: Seq<char>, line: nat, kind: EnvFileErrorKind) -> Seq<char> {
    origin + ":"@ + text::decimal(line) + (match kind {
        EnvFileErrorKind::NotAPair => ": expected KEY=VALUE, comment, or blank line"@,
        EnvFileErrorKind::MalformedKey => ": malformed key"@,
    })
}

impl EnvFileError {
    /// The message, for people.
    pub fn to_string(&self) -> (r: String)
        ensures
            r@ == env_error_text(self.origin@, self.line as nat, self.kind),
    {
        let mut out: String = text::concat(self.origin.as_str(), ":");
        text::push_decimal(&mut out, self.line as u64);
        match self.kind {
            EnvFileErrorKind::NotAPair => out.append(
                ": expected KEY=VALUE, comment, or blank line",
            ),
            EnvFileErrorKind::MalformedKey => out.append(": malformed key"),
        }
        out
    }
}

// ---- lines ----------------------------------------------------------------

/// What one line of an env file says.
pub enum EnvLine {
    /// A comment or a blank line.
    Nothing,
    Entry { key: Seq<char>, value: Seq<char> },
    Wrong(EnvFileErrorKind),
}

/// `v` without one layer of quotes, where the same quote opens and closes it.
pub open spec fn unquoted(v: Seq<char>) -> Seq<char> {
    if v.len() >= 2 && (v[0] == '"' || v[0] == '\'') && v.last() == v[0] {
        v.subrange(1, v.len() - 1)
    } else {
        v
    }
}

/// `line` without a leading `export `.
pub open spec fn without_export(line: Seq<char>) -> Seq<char> {
    if text::occurs_at(line, "export "@, 0) {
        line.skip(7)
    } else {
        line
    }
}

/// Whether a text is usable as a key.
pub open spec fn is_key(key: Seq<char>) -> bool {
    key.len() > 0 && forall|i: int| 0 <= i < key.len() ==> !text::is_white_space(#[trigger] key[i])
}

/// Reading one line.
pub open spec fn env_line(raw: Seq<char>) -> EnvLine {
    let line = text::trimmed(raw);
    if line.len() == 0 || line[0] == '#' {
        EnvLine::Nothing
    } else {
        let body = text::trimmed_start(without_export(line));
        match text::first_index(body, '=') {
            None => EnvLine::Wrong(EnvFileErrorKind::NotAPair),
            Some(i) => {
                let key = text::trimmed(body.take(i));
                if !is_key(key) {
                    EnvLine::Wrong(EnvFileErrorKind::MalformedKey)
                } else {
                    EnvLine::Entry { key, value: unquoted(text::trimmed(body.skip(i + 1))) }
                }
            },
        }
    }
}

/// Reading a text line by line, after `seen` lines that gave `entries`. A
/// later entry replaces an earlier one of the same key. The first line that is
/// wrong decides the error, with its number.
pub open spec fn env_entries(
    t: Seq<char>,
    seen: nat,
    entries: Map<Seq<char>, Seq<char>>,
) -> Result<Map<Seq<char>, Seq<char>>, (nat, EnvFileErrorKind)>
    decreases t.len(),
{
    if t.len() == 0 {
        Ok(entries)
    } else {
        proof {
            text::lemma_after_first_line_shrinks(t);
        }
        match env_line(text::first_line(t)) {
            EnvLine::Nothing => env_entries(text::after_first_line(t), seen + 1, entries),
            EnvLine::Entry { key, value } => env_entries(
                text::after_first_line(t),
                seen + 1,
                entries.insert(key, value),
            ),
            EnvLine::Wrong(kind) => Err((seen + 1, kind)),
        }
    }
}

/// Strip one layer of quotes where the same quote opens and closes the value.
fn strip_matching_quotes(v: &[char]) -> (r: &[char])
    ensures
        r@ == unquoted(v@),
{
    if v.len() >= 2 && (v[0] == '"' || v[0] == '\'') && v[v.len() - 1] == v[0] {
        slice_subrange(v, 1, v.len() - 1)
    } else {
        v
    }
}

fn strip_export(line: &[char]) -> (r: &[char])
    ensures
        r@ == without_export(line@),
{
    proof {
        reveal_strlit("export ");
    }
    let prefix = text::chars_of("export ");
    if line.len() >= 7 && text::same_chars(slice_subrange(line, 0, 7), prefix.as_slice()) {
        assert(line@.subrange(7, line@.len() as int) =~= line@.skip(7));
        slice_subrange(line, 7, line.len())
    } else {
        line
    }
}

fn key_is_usable(key: &[char]) -> (r: bool)
    ensures
        r == is_key(key@),
{
    let mut i: usize = 0;
    while i < key.len()
        invariant
            i <= key@.len(),
            forall|j: int| 0 <= j < i ==> !text::is_white_space(#[trigger] key@[j]),
        decreases key@.len() - i,
    {
        if text::white_space(key[i]) {
            assert(text::is_white_space(key@[i as int]));
            return false;
        }
        i += 1;
    }
    key.len() > 0
}

// ---- the source -----------------------------------------------------------

/// A configuration source: the entries of an env file, if one was given, and
/// the process environment as it stood when the source was made.
pub struct EnvSource {
    file_entries: StringHashMap<String>,
    process_entries: StringHashMap<String>,
    /// The file that the entries came from, for diagnostics.
    pub origin: Option<String>,
}

/// String values as the specification sees them.
pub open spec fn entries_view(m: Map<Seq<char>, String>) -> Map<Seq<char>, Seq<char>> {
    m.map_values(|s: String| s@)
}

/// The value of `key` in `m`, if it has one.
pub open spec fn lookup(m: Map<Seq<char>, Seq<char>>, key: Seq<char>) -> Option<Seq<char>> {
    if m.contains_key(key) {
        Some(m[key])
    } else {
        None
    }
}

/// The environment that a list of variables stands for. Of several variables
/// with one name, the first counts.
pub open spec fn environment(vars: Seq<(String, String)>) -> Map<Seq<char>, Seq<char>>
    decreases vars.len(),
{
    if vars.len() == 0 {
        Map::empty()
    } else {
        environment(vars.skip(1)).insert(vars[0].0@, vars[0].1@)
    }
}

fn environment_of(vars: &Vec<(String, String)>) -> (r: StringHashMap<String>)
    ensures
        entries_view(r@) == environment(vars@),
{
    let mut m: StringHashMap<String> = StringHashMap::new();
    let mut i: usize = vars.len();
    assert(vars@.skip(i as int) =~= Seq::empty());
    assert(entries_view(m@) =~= environment(vars@.skip(i as int)));
    while i > 0
        invariant
            i <= vars@.len(),
            entries_view(m@) == environment(vars@.skip(i as int)),
        decreases i,
    {
        i -= 1;
        let ghost before = m@;
        m.insert(vars[i].0.clone(), vars[i].1.clone());
        proof {
            let rest = vars@.skip(i as int);
            assert(rest.skip(1) =~= vars@.skip(i + 1));
            assert(rest[0] == vars@[i as int]);
            assert(entries_view(m@) =~= entries_view(before).insert(
                vars@[i as int].0@,
                vars@[i as int].1@,
            ));
        }
    }
    assert(vars@.skip(0) =~= vars@);
    m
}

impl View for EnvSource {
    type V = Map<Seq<char>, Seq<char>>;

    /// What the source says of each key: the file's entry, else the process
    /// environment's.
    open spec fn view(&self) -> Map<Seq<char>, Seq<char>> {
        self.process().union_prefer_right(self.file())
    }
}

impl EnvSource {
    /// The entries of the env file.
    pub closed spec fn file(&self) -> Map<Seq<char>, Seq<char>> {
        entries_view(self.file_entries@)
    }

    /// The process environment.
    pub closed spec fn process(&self) -> Map<Seq<char>, Seq<char>> {
        entries_view(self.process_entries@)
    }

    /// The file that the entries came from.
    pub closed spec fn origin_text(&self) -> Option<Seq<char>> {
        match self.origin {
            Some(o) => Some(o@),
            None => None,
        }
    }

    /// A source backed only by the process environment.
    pub fn process_only(process: &Vec<(String, String)>) -> (r: Self)
        ensures
            r.file() == Map::<Seq<char>, Seq<char>>::empty(),
            r.process() == environment(process@),
            r.origin_text() is None,
    {
        let r = EnvSource {
            file_entries: StringHashMap::new(),
            process_entries: environment_of(process),
            origin: None,
        };
        assert(r.file() =~= Map::empty());
        r
    }

    /// Read `content`, the text of the env file at `path`.
    pub fn from_file(path: &str, content: &str, process: &Vec<(String, String)>) -> (r: Result<
        Self,
        EnvFileError,
    >)
        ensures
            match r {
                Ok(src) => env_entries(content@, 0, Map::empty()) == Ok::<_, (nat, EnvFileErrorKind)>(
                    src.file(),
                ) && src.process() == environment(process@) && src.origin_text() == Some(path@),
                Err(e) => env_entries(content@, 0, Map::empty()) == Err::<
                    Map<Seq<char>, Seq<char>>,
                    _,
                >((e.line as nat, e.kind)) && e.origin@ == path@,
            },
    {
        let all = text::chars_of(content);
        let mut rest: &[char] = all.as_slice();
        let mut entries: StringHashMap<String> = StringHashMap::new();
        let mut seen: usize = 0;
        assert(entries_view(entries@) =~= Map::empty());
        while rest.len() > 0
            invariant
                all@ == content@,
                seen + rest@.len() <= all.len(),
                env_entries(content@, 0, Map::empty()) == env_entries(
                    rest@,
                    seen as nat,
                    entries_view(entries@),
                ),
            decreases rest@.len(),
        {
            proof {
                text::lemma_after_first_line_shrinks(rest@);
            }
            let (raw, after) = text::next_line(rest);
            let line = text::trim(raw);
            if !(line.len() == 0 || line[0] == '#') {
                let body = text::trim_start(strip_export(line));
                match text::index_of(body, '=') {
                    None => {
                        return Err(
                            EnvFileError {
                                origin: path.to_owned(),
                                line: seen + 1,
                                kind: EnvFileErrorKind::NotAPair,
                            },
                        );
                    },
                    Some(i) => {
                        assert(i < body.len());
                        let key = text::trim(slice_subrange(body, 0, i));
                        assert(body@.subrange(0, i as int) =~= body@.take(i as int));
                        if !key_is_usable(key) {
                            return Err(
                                EnvFileError {
                                    origin: path.to_owned(),
                                    line: seen + 1,
                                    kind: EnvFileErrorKind::MalformedKey,
                                },
                            );
                        }
                        let value = strip_matching_quotes(
                            text::trim(slice_subrange(body, i + 1, body.len())),
                        );
                        assert(body@.subrange(i + 1, body@.len() as int) =~= body@.skip(i + 1));
                        let ghost before = entries@;
                        entries.insert(text::string_of(key), text::string_of(value));
                        assert(entries_view(entries@) =~= entries_view(before).insert(
                            key@,
                            value@,
                        ));
                    },
                }
            }
            rest = after;
            seen += 1;
        }
        let r = EnvSource {
            file_entries: entries,
            process_entries: environment_of(process),
            origin: Some(path.to_owned()),
        };
        Ok(r)
    }

    /// The one lookup path: the file first, then the process environment.
    pub fn get(&self, key: &str) -> (r: Option<String>)
        ensures
            (match r {
                Some(v) => Some(v@),
                None => None,
            }) == lookup(self@, key@),
            self.file().contains_key(key@) ==> lookup(self@, key@) == lookup(self.file(), key@),
            !self.file().contains_key(key@) ==> lookup(self@, key@) == lookup(self.process(), key@),
    {
        if let Some(v) = self.file_entries.get(key) {
            return Some(v.clone());
        }
        match self.process_entries.get(key) {
            Some(v) => Some(v.clone()),
            None => None,
        }
    }

    /// The file that the entries came from, if there is one.
    pub fn origin(&self) -> (r: Option<&str>)
        ensures
            (match r {
                Some(o) => Some(o@),
                None => None,
            }) == self.origin_text(),
    {
        match &self.origin {
            Some(o) => Some(o.as_str()),
            None => None,
        }
    }
}

// ---- laws -----------------------------------------------------------------

/// Whether white space neither begins nor ends a text.
pub open spec fn is_trim(s: Seq<char>) -> bool {
    s.len() > 0 ==> !text::is_white_space(s[0]) && !text::is_white_space(s.last())
}

/// The line `key=value`.
pub open spec fn pair(key: Seq<char>, value: Seq<char>) -> Seq<char> {
    key + seq!['='] + value
}

proof fn lemma_pair_splits(key: Seq<char>, value: Seq<char>)
    requires
        is_key(key),
        key[0] != '#',
        !key.contains('='),
        is_trim(value),
    ensures
        env_line(pair(key, value)) == (EnvLine::Entry { key, value: unquoted(value) }),
{
    reveal_strlit("export ");
    let line = pair(key, value);
    let n = key.len() as int;
    assert(line[0] == key[0]);
    assert(line[n] == '=');
    assert(line.last() == (if value.len() > 0 {
        value.last()
    } else {
        '='
    }));
    assert(text::trimmed(line) == line);
    assert(!text::occurs_at(line, "export "@, 0)) by {
        if text::occurs_at(line, "export "@, 0) {
            assert(line.subrange(0, 7)[6] == ' ');
            if n > 6 {
                assert(line[6] == key[6]);
            } else if n < 6 {
                assert(line.subrange(0, 7)[n] == '=');
            }
        }
    }
    assert(without_export(line) == line);
    assert(text::trimmed_start(line) == line);
    assert forall|i: int| 0 <= i < n implies line[i] != '=' by {
        assert(line[i] == key[i]);
        assert(key.contains(key[i]));
    }
    text::lemma_first_index_is(line, '=', n);
    assert(line.take(n) =~= key);
    assert(line.skip(n + 1) =~= value);
    assert(text::trimmed(key) == key);
    assert(text::trimmed(value) == value);
}

/// What stands between quotes is taken as it is: `KEY="value"` and
/// `KEY='value'` give back the value, white space and quotes in it included.
pub proof fn lemma_quoted_values_read_back(key: Seq<char>, value: Seq<char>, quote: char)
    requires
        is_key(key),
        key[0] != '#',
        !key.contains('='),
        quote == '"' || quote == '\'',
    ensures
        env_line(pair(key, seq![quote] + value + seq![quote])) == (EnvLine::Entry { key, value }),
{
    let quoted = seq![quote] + value + seq![quote];
    lemma_pair_splits(key, quoted);
    assert(quoted.subrange(1, quoted.len() - 1) =~= value);
}

/// A bare value reads back too, if white space does not begin or end it and it
/// is not in quotes.
pub proof fn lemma_bare_values_read_back(key: Seq<char>, value: Seq<char>)
    requires
        is_key(key),
        key[0] != '#',
        !key.contains('='),
        is_trim(value),
        unquoted(value) == value,
    ensures
        env_line(pair(key, value)) == (EnvLine::Entry { key, value }),
{
    lemma_pair_splits(key, value);
}

} // verus!

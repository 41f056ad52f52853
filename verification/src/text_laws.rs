//! What holds of the text functions, whatever the text.

use crate::text;
use crate::text::IntegerError;
use vstd::prelude::*;

verus! {

// ---- trimming -------------------------------------------------------------

/// White space is the tabs and line breaks of ASCII, the next line, and the
/// spaces and separators of Unicode; nothing else is.
pub proof fn lemma_white_space_is_unicode(c: char)
    ensures
        text::is_white_space(c) <==> c == '\t' || c == '\n' || c == '\u{b}' || c == '\u{c}' || c
            == '\r' || c == ' ' || c == '\u{85}' || c == '\u{a0}' || c == '\u{1680}' || '\u{2000}'
            <= c <= '\u{200a}' || c == '\u{2028}' || c == '\u{2029}' || c == '\u{202f}' || c
            == '\u{205f}' || c == '\u{3000}',
{
}

/// A text of nothing but white space.
pub open spec fn is_blank(s: Seq<char>) -> bool {
    forall|k: int| 0 <= k < s.len() ==> text::is_white_space(#[trigger] s[k])
}

/// A text that white space neither begins nor ends.
pub open spec fn is_solid(s: Seq<char>) -> bool {
    s.len() > 0 ==> !text::is_white_space(s[0]) && !text::is_white_space(s[s.len() - 1])
}

/// Trimming takes off the white space around a text, all of it, and nothing
/// else.
pub proof fn lemma_trimming_bares_the_core(before: Seq<char>, core: Seq<char>, after: Seq<char>)
    requires
        is_blank(before),
        is_solid(core),
        is_blank(after),
    ensures
        text::trimmed(before + core + after) == core,
    decreases before.len() + after.len(),
{
    let s = before + core + after;
    if before.len() > 0 {
        assert(text::is_white_space(before[0]));
        assert(s[0] == before[0]);
        assert(s.skip(1) =~= before.skip(1) + core + after);
        assert forall|k: int| 0 <= k < before.skip(1).len() implies text::is_white_space(
            #[trigger] before.skip(1)[k],
        ) by {
            assert(text::is_white_space(before[k + 1]));
        }
        lemma_trimming_bares_the_core(before.skip(1), core, after);
    } else if core.len() > 0 {
        assert(s[0] == core[0]);
        assert(text::trimmed_start(s) == s);
        assert(s =~= core + after);
        lemma_trimming_the_end(core, after);
    } else {
        assert(s =~= after);
        lemma_blank_trims_away(after);
    }
}

proof fn lemma_trimming_the_end(core: Seq<char>, after: Seq<char>)
    requires
        core.len() > 0,
        is_solid(core),
        is_blank(after),
    ensures
        text::trimmed_end(core + after) == core,
    decreases after.len(),
{
    let s = core + after;
    if after.len() > 0 {
        assert(text::is_white_space(after[after.len() - 1]));
        assert(s.last() == after.last());
        assert(s.drop_last() =~= core + after.drop_last());
        assert forall|k: int| 0 <= k < after.drop_last().len() implies text::is_white_space(
            #[trigger] after.drop_last()[k],
        ) by {
            assert(text::is_white_space(after[k]));
        }
        lemma_trimming_the_end(core, after.drop_last());
    } else {
        assert(s =~= core);
    }
}

proof fn lemma_blank_trims_away(s: Seq<char>)
    requires
        is_blank(s),
    ensures
        text::trimmed_start(s) == Seq::<char>::empty(),
        text::trimmed(s) == Seq::<char>::empty(),
    decreases s.len(),
{
    if s.len() > 0 {
        assert(text::is_white_space(s[0]));
        assert forall|k: int| 0 <= k < s.skip(1).len() implies text::is_white_space(
            #[trigger] s.skip(1)[k],
        ) by {
            assert(text::is_white_space(s[k + 1]));
        }
        lemma_blank_trims_away(s.skip(1));
    } else {
        assert(s =~= Seq::empty());
    }
}

/// What trimming leaves lies within the text, with white space alone on
/// either side of it.
pub proof fn lemma_trimmed_lies_within(s: Seq<char>)
    ensures
        exists|i: int, j: int|
            0 <= i <= j <= s.len() && is_blank(s.take(i)) && is_blank(s.skip(j)) && #[trigger]
                s.subrange(i, j) == text::trimmed(s),
{
    let i = lemma_start_trimmed_lies_within(s);
    let t = s.skip(i);
    let n = lemma_end_trimmed_lies_within(t);
    let j = i + n;
    assert(t.take(n) =~= s.subrange(i, j));
    assert(t.skip(n) =~= s.skip(j));
}

/// What trimming the start leaves is the text from some position on, with
/// white space alone before it.
pub proof fn lemma_start_trimmed_lies_within(s: Seq<char>) -> (i: int)
    ensures
        0 <= i <= s.len(),
        is_blank(s.take(i)),
        text::trimmed_start(s) == s.skip(i),
    decreases s.len(),
{
    if s.len() > 0 && text::is_white_space(s[0]) {
        let rest = s.skip(1);
        let i = lemma_start_trimmed_lies_within(rest);
        assert(rest.skip(i) =~= s.skip(i + 1));
        assert forall|k: int| 0 <= k < s.take(i + 1).len() implies text::is_white_space(
            #[trigger] s.take(i + 1)[k],
        ) by {
            if k > 0 {
                assert(rest.take(i)[k - 1] == s[k]);
            }
        }
        i + 1
    } else {
        assert(s.skip(0) =~= s);
        0
    }
}

proof fn lemma_end_trimmed_lies_within(s: Seq<char>) -> (n: int)
    ensures
        0 <= n <= s.len(),
        is_blank(s.skip(n)),
        text::trimmed_end(s) == s.take(n),
    decreases s.len(),
{
    if s.len() > 0 && text::is_white_space(s.last()) {
        let rest = s.drop_last();
        let n = lemma_end_trimmed_lies_within(rest);
        assert(rest.take(n) =~= s.take(n));
        assert forall|k: int| 0 <= k < s.skip(n).len() implies text::is_white_space(
            #[trigger] s.skip(n)[k],
        ) by {
            if n + k < s.len() - 1 {
                assert(rest.skip(n)[k] == s[n + k]);
            }
        }
        n
    } else {
        assert(s.take(s.len() as int) =~= s);
        s.len() as int
    }
}

/// Trimming the start takes off the white space there, all of it, and nothing
/// else.
pub proof fn lemma_trimming_bares_the_start(before: Seq<char>, rest: Seq<char>)
    requires
        is_blank(before),
        rest.len() > 0 ==> !text::is_white_space(rest[0]),
    ensures
        text::trimmed_start(before + rest) == rest,
    decreases before.len(),
{
    let s = before + rest;
    if before.len() > 0 {
        assert(text::is_white_space(before[0]));
        assert(s[0] == before[0]);
        assert(s.skip(1) =~= before.skip(1) + rest);
        assert forall|k: int| 0 <= k < before.skip(1).len() implies text::is_white_space(
            #[trigger] before.skip(1)[k],
        ) by {
            assert(text::is_white_space(before[k + 1]));
        }
        lemma_trimming_bares_the_start(before.skip(1), rest);
    } else {
        assert(s =~= rest);
    }
}

/// A trailing run of one character comes off whole, however long, and nothing
/// else does.
pub proof fn lemma_trailing_run_comes_off(s: Seq<char>, c: char, n: nat)
    requires
        s.len() > 0 ==> s[s.len() - 1] != c,
    ensures
        text::trimmed_end_of(s + Seq::new(n, |i: int| c), c) == s,
    decreases n,
{
    let run = Seq::new(n, |i: int| c);
    let all = s + run;
    if n > 0 {
        let fewer = Seq::new((n - 1) as nat, |i: int| c);
        assert(all.last() == c);
        assert(all.drop_last() =~= s + fewer);
        lemma_trailing_run_comes_off(s, c, (n - 1) as nat);
    } else {
        assert(all =~= s);
    }
}

// ---- searching ------------------------------------------------------------

/// One sequence stands in another at a position exactly if every element of it
/// does.
pub proof fn lemma_occurrence_is_elementwise<T>(hay: Seq<T>, needle: Seq<T>, i: int)
    ensures
        text::occurs_at(hay, needle, i) <==> (0 <= i && i + needle.len() <= hay.len() && forall|
            k: int,
        |
            0 <= k < needle.len() ==> hay[i + k] == #[trigger] needle[k]),
{
    if 0 <= i && i + needle.len() <= hay.len() {
        let part = hay.subrange(i, i + needle.len());
        if text::occurs_at(hay, needle, i) {
            assert forall|k: int| 0 <= k < needle.len() implies hay[i + k] == #[trigger] needle[k] by {
                assert(part[k] == hay[i + k]);
            }
        }
        if forall|k: int| 0 <= k < needle.len() ==> hay[i + k] == #[trigger] needle[k] {
            assert(part =~= needle);
        }
    }
}

// ---- lines ----------------------------------------------------------------

/// A line ends at a newline, or at a carriage return and a newline, wherever
/// that stands; the last line of a text ends with the text and keeps every
/// character.
pub proof fn lemma_lines_end_at_newlines(line: Seq<char>, rest: Seq<char>)
    requires
        !line.contains('\n'),
    ensures
        text::first_line(line + seq!['\r', '\n'] + rest) == line,
        text::after_first_line(line + seq!['\r', '\n'] + rest) == rest,
        line.len() == 0 || line[line.len() - 1] != '\r' ==> text::first_line(
            line + seq!['\n'] + rest,
        ) == line,
        text::after_first_line(line + seq!['\n'] + rest) == rest,
        text::first_line(line) == line,
        text::after_first_line(line) == Seq::<char>::empty(),
{
    let n = line.len() as int;
    assert forall|j: int| 0 <= j < n implies line[j] != '\n' by {
        assert(line.contains(line[j]));
    }
    let a = line + seq!['\r', '\n'] + rest;
    assert(a[n] == '\r' && a[n + 1] == '\n');
    assert forall|j: int| 0 <= j < n + 1 implies a[j] != '\n' by {
        if j < n {
            assert(a[j] == line[j]);
        }
    }
    text::lemma_first_index_is(a, '\n', n + 1);
    assert(a.take(n + 1) =~= line.push('\r'));
    assert(a.take(n + 1).drop_last() =~= line);
    assert(a.skip(n + 2) =~= rest);
    let b = line + seq!['\n'] + rest;
    assert(b[n] == '\n');
    assert forall|j: int| 0 <= j < n implies b[j] != '\n' by {
        assert(b[j] == line[j]);
    }
    text::lemma_first_index_is(b, '\n', n);
    assert(b.take(n) =~= line);
    assert(b.skip(n + 1) =~= rest);
    text::lemma_first_index(line, '\n');
}

// ---- joining --------------------------------------------------------------

/// Joining puts the separator between neighbours and nowhere else, and leaves
/// every part as it is.
pub proof fn lemma_joining_is_seamless(
    a: Seq<Seq<char>>,
    b: Seq<Seq<char>>,
    one: Seq<char>,
    sep: Seq<char>,
)
    ensures
        text::joined(Seq::empty(), sep) == Seq::<char>::empty(),
        text::joined(seq![one], sep) == one,
        a.len() > 0 && b.len() > 0 ==> text::joined(a + b, sep) == text::joined(a, sep) + sep
            + text::joined(b, sep),
    decreases b.len(),
{
    if a.len() > 0 && b.len() > 0 {
        let all = a + b;
        assert(all.drop_last() =~= a + b.drop_last());
        assert(all.last() == b.last());
        if b.len() == 1 {
            assert(all.drop_last() =~= a);
        } else {
            lemma_joining_is_seamless(a, b.drop_last(), one, sep);
        }
        assert(text::joined(all, sep) =~= text::joined(a, sep) + sep + text::joined(b, sep));
    }
}

// ---- numbers --------------------------------------------------------------

/// A decimal digit.
pub open spec fn is_numeral(c: char) -> bool {
    '0' <= c <= '9'
}

/// A text of nothing but decimal digits.
pub open spec fn are_numerals(s: Seq<char>) -> bool {
    forall|k: int| 0 <= k < s.len() ==> is_numeral(#[trigger] s[k])
}

/// The value of a run of decimal digits, by place.
pub open spec fn place_value(s: Seq<char>) -> int
    decreases s.len(),
{
    if s.len() == 0 {
        0
    } else {
        place_value(s.drop_last()) * 10 + (s[s.len() - 1] as int - '0' as int)
    }
}

/// A number in decimal is a run of digits whose value is the number, without
/// leading zeros.
pub proof fn lemma_decimal_has_its_value(n: nat)
    ensures
        text::decimal(n).len() > 0,
        are_numerals(text::decimal(n)),
        place_value(text::decimal(n)) == n,
        n > 0 ==> text::decimal(n)[0] != '0',
        n < 10 ==> text::decimal(n).len() == 1,
    decreases n,
{
    let d = text::decimal(n);
    if n < 10 {
        let none = d.drop_last();
        assert(none.len() == 0);
        assert(place_value(none) == 0);
        assert(place_value(d) == n);
    } else {
        lemma_decimal_has_its_value(n / 10);
        assert(d.drop_last() =~= text::decimal(n / 10));
        assert(d[0] == text::decimal(n / 10)[0]);
        assert forall|k: int| 0 <= k < d.len() implies is_numeral(#[trigger] d[k]) by {
            if k < d.len() - 1 {
                assert(d[k] == text::decimal(n / 10)[k]);
            }
        }
    }
}

proof fn lemma_prefix_of_numerals(s: Seq<char>, k: int)
    requires
        are_numerals(s),
        0 <= k <= s.len(),
    ensures
        are_numerals(s.take(k)),
        0 <= place_value(s.take(k)) <= place_value(s),
    decreases s.len(),
{
    assert forall|j: int| 0 <= j < k implies is_numeral(#[trigger] s.take(k)[j]) by {
        assert(is_numeral(s[j]));
    }
    if k < s.len() {
        let f = s.drop_last();
        assert forall|j: int| 0 <= j < f.len() implies is_numeral(#[trigger] f[j]) by {
            assert(is_numeral(s[j]));
        }
        lemma_prefix_of_numerals(f, k);
        assert(f.take(k) =~= s.take(k));
        assert(is_numeral(s[s.len() - 1]));
    } else {
        assert(s.take(k) =~= s);
        if s.len() > 0 {
            let f = s.drop_last();
            assert forall|j: int| 0 <= j < f.len() implies is_numeral(#[trigger] f[j]) by {
                assert(is_numeral(s[j]));
            }
            lemma_prefix_of_numerals(f, f.len() as int);
            assert(f.take(f.len() as int) =~= f);
            assert(is_numeral(s[s.len() - 1]));
        }
    }
}

/// Reading left to right, position `k` is the first trouble, and it is a
/// character that is no digit.
pub open spec fn stumbles_at(s: Seq<char>, max: nat, k: int) -> bool {
    &&& 0 <= k < s.len()
    &&& !is_numeral(s[k])
    &&& are_numerals(s.take(k))
    &&& place_value(s.take(k)) <= max
}

proof fn lemma_digits(s: Seq<char>, max: nat)
    ensures
        text::digits_value(s, max) is Ok <==> are_numerals(s) && place_value(s) <= max,
        text::digits_value(s, max) matches Ok(v) ==> v == place_value(s),
        text::digits_value(s, max) == Err::<nat, IntegerError>(IntegerError::InvalidDigit)
            <==> exists|k: int| #[trigger] stumbles_at(s, max, k),
        text::digits_value(s, max) != Err::<nat, IntegerError>(IntegerError::Empty),
    decreases s.len(),
{
    if s.len() > 0 {
        let f = s.drop_last();
        let n = f.len() as int;
        lemma_digits(f, max);
        assert forall|k: int| 0 <= k <= n implies f.take(k) =~= #[trigger] s.take(k) by {}
        if are_numerals(s) {
            lemma_prefix_of_numerals(s, n);
            assert(s.take(n) =~= f);
            assert(is_numeral(s[n]));
        }
        if are_numerals(f) && is_numeral(s[n]) {
            assert forall|j: int| 0 <= j < s.len() implies is_numeral(#[trigger] s[j]) by {
                if j < n {
                    assert(is_numeral(f[j]));
                }
            }
        }
        if exists|k: int| #[trigger] stumbles_at(f, max, k) {
            let k = choose|k: int| #[trigger] stumbles_at(f, max, k);
            assert(f.take(k) =~= s.take(k));
            assert(s[k] == f[k]);
            assert(stumbles_at(s, max, k));
        }
        if exists|k: int| #[trigger] stumbles_at(s, max, k) {
            let k = choose|k: int| #[trigger] stumbles_at(s, max, k);
            assert(f.take(k) =~= s.take(k));
            if k < n {
                assert(stumbles_at(f, max, k));
            } else {
                assert(s.take(n) =~= f);
            }
        }
        if text::digits_value(f, max) is Ok && !is_numeral(s[n]) {
            assert(s.take(n) =~= f);
            assert(stumbles_at(s, max, n));
        }
    } else {
        assert(!exists|k: int| #[trigger] stumbles_at(s, max, k));
    }
}

/// `s` without the one plus sign that may lead.
pub open spec fn unsigned_part(s: Seq<char>) -> Seq<char> {
    if s.len() > 0 && s[0] == '+' {
        s.skip(1)
    } else {
        s
    }
}

/// A text reads as an unsigned integer exactly if, after one optional plus
/// sign, it is a run of digits whose value is not above the bound; and then it
/// reads as that value. Otherwise the first trouble from the left is told: no
/// text at all, a character that is no digit (or a sign alone), or too large.
pub proof fn lemma_integers_read_by_place(s: Seq<char>, max: nat)
    ensures
        text::unsigned_value(s, max) is Ok <==> unsigned_part(s).len() > 0 && are_numerals(
            unsigned_part(s),
        ) && place_value(unsigned_part(s)) <= max,
        text::unsigned_value(s, max) matches Ok(v) ==> v == place_value(unsigned_part(s)),
        text::unsigned_value(s, max) == Err::<nat, IntegerError>(IntegerError::Empty) <==> s.len()
            == 0,
        text::unsigned_value(s, max) == Err::<nat, IntegerError>(IntegerError::InvalidDigit)
            <==> s.len() > 0 && (unsigned_part(s).len() == 0 || exists|k: int| #[trigger]
            stumbles_at(unsigned_part(s), max, k)),
{
    let d = unsigned_part(s);
    lemma_digits(d, max);
    if s.len() > 0 && s[0] == '+' && d.len() == 0 {
        assert(s =~= seq!['+']);
    }
}

/// What was written in decimal reads back, up to the bound.
pub proof fn lemma_decimals_read_back(n: nat, max: nat)
    ensures
        n <= max ==> text::unsigned_value(text::decimal(n), max) == Ok::<nat, IntegerError>(n),
        n > max ==> text::unsigned_value(text::decimal(n), max) == Err::<nat, IntegerError>(
            IntegerError::PosOverflow,
        ),
{
    lemma_decimal_has_its_value(n);
    lemma_integers_read_by_place(text::decimal(n), max);
    let d = text::decimal(n);
    assert(is_numeral(d[0]));
    assert(unsigned_part(d) == d);
    if exists|k: int| #[trigger] stumbles_at(d, max, k) {
        let k = choose|k: int| #[trigger] stumbles_at(d, max, k);
        assert(is_numeral(d[k]));
    }
}

// ---- hexadecimal ----------------------------------------------------------

/// Bytes in hexadecimal: two digits each, high half first, in lower case, with
/// one space between neighbours.
pub proof fn lemma_hex_shows_every_byte(bytes: Seq<u8>)
    ensures
        bytes.len() == 0 ==> text::hex_dump(bytes).len() == 0,
        bytes.len() > 0 ==> text::hex_dump(bytes).len() == 3 * bytes.len() - 1,
        forall|k: int|
            0 <= k < bytes.len() ==> text::hex_dump(bytes)[3 * k] == "0123456789abcdef"@[(#[trigger] bytes[k]
                / 16) as int],
        forall|k: int|
            0 <= k < bytes.len() ==> text::hex_dump(bytes)[3 * k + 1]
                == "0123456789abcdef"@[(#[trigger] bytes[k] % 16) as int],
        forall|k: int|
            0 <= k < bytes.len() - 1 ==> #[trigger] text::hex_dump(bytes)[3 * k + 2] == ' ',
    decreases bytes.len(),
{
    reveal_strlit("0123456789abcdef");
    let parts = bytes.map_values(|b: u8| text::hex_byte(b));
    let all = text::hex_dump(bytes);
    if bytes.len() > 0 {
        let f = bytes.drop_last();
        let n = f.len() as int;
        let last = bytes[n];
        lemma_hex_shows_every_byte(f);
        let fparts = f.map_values(|b: u8| text::hex_byte(b));
        assert(parts.drop_last() =~= fparts);
        assert(parts.last() == text::hex_byte(last));
        if n == 0 {
            assert(all == text::hex_byte(last));
        } else {
            assert(all =~= text::hex_dump(f) + seq![' '] + text::hex_byte(last));
        }
        assert(all.len() == 3 * n + 2);
        assert(all[3 * n] == text::hex_byte(last)[0]);
        assert(all[3 * n + 1] == text::hex_byte(last)[1]);
        let d = text::hex_dump(f);
        assert forall|k: int| 0 <= k < bytes.len() implies all[3 * k]
            == "0123456789abcdef"@[(#[trigger] bytes[k] / 16) as int] by {
            if k < n {
                assert(all[3 * k] == d[3 * k]);
                assert(bytes[k] == f[k]);
            }
        }
        assert forall|k: int| 0 <= k < bytes.len() implies all[3 * k + 1]
            == "0123456789abcdef"@[(#[trigger] bytes[k] % 16) as int] by {
            if k < n {
                assert(all[3 * k + 1] == d[3 * k + 1]);
                assert(bytes[k] == f[k]);
            }
        }
        assert forall|k: int| 0 <= k < bytes.len() - 1 implies #[trigger] all[3 * k + 2] == ' ' by {
            if k < n - 1 {
                assert(all[3 * k + 2] == d[3 * k + 2]);
            }
        }
    }
}

} // verus!

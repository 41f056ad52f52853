//! Character-level text handling.
//!
//! Strings are read into vectors of characters, cut as slices, and written
//! back; every cut is stated over the sequence of characters. The functions
//! follow the conventions of the standard string methods of the same purpose.

use vstd::prelude::*;
use vstd::slice::slice_subrange;

verus! {

// ---- white space and trimming ---------------------------------------------

/// The Unicode `White_Space` property.
pub open spec fn is_white_space(c: char) -> bool {
    let u = c as u32;
    ||| 0x09 <= u <= 0x0d
    ||| u == 0x20
    ||| u == 0x85
    ||| u == 0xa0
    ||| u == 0x1680
    ||| 0x2000 <= u <= 0x200a
    ||| u == 0x2028
    ||| u == 0x2029
    ||| u == 0x202f
    ||| u == 0x205f
    ||| u == 0x3000
}

/// `s` without its leading white space.
pub open spec fn trimmed_start(s: Seq<char>) -> Seq<char>
    decreases s.len(),
{
    if s.len() > 0 && is_white_space(s[0]) {
        trimmed_start(s.skip(1))
    } else {
        s
    }
}

/// `s` without its trailing white space.
pub open spec fn trimmed_end(s: Seq<char>) -> Seq<char>
    decreases s.len(),
{
    if s.len() > 0 && is_white_space(s.last()) {
        trimmed_end(s.drop_last())
    } else {
        s
    }
}

/// `s` without white space at either end.
pub open spec fn trimmed(s: Seq<char>) -> Seq<char> {
    trimmed_end(trimmed_start(s))
}

/// `s` without the trailing run of the character `c`.
pub open spec fn trimmed_end_of(s: Seq<char>, c: char) -> Seq<char>
    decreases s.len(),
{
    if s.len() > 0 && s.last() == c {
        trimmed_end_of(s.drop_last(), c)
    } else {
        s
    }
}

/// Whether `c` has the Unicode `White_Space` property.
pub fn white_space(c: char) -> (r: bool)
    ensures
        r == is_white_space(c),
{
    let u: u32 = c as u32;
    (0x09 <= u && u <= 0x0d) || u == 0x20 || u == 0x85 || u == 0xa0 || u == 0x1680 || (0x2000 <= u
        && u <= 0x200a) || u == 0x2028 || u == 0x2029 || u == 0x202f || u == 0x205f || u == 0x3000
}

/// Cut leading white space.
pub fn trim_start(s: &[char]) -> (r: &[char])
    ensures
        r@ == trimmed_start(s@),
{
    let mut i: usize = 0;
    assert(s@.skip(0) =~= s@);
    while i < s.len() && white_space(s[i])
        invariant
            i <= s@.len(),
            trimmed_start(s@.skip(i as int)) == trimmed_start(s@),
        decreases s@.len() - i,
    {
        assert(s@.skip(i as int).skip(1) =~= s@.skip(i + 1));
        i += 1;
    }
    assert(s@.subrange(i as int, s@.len() as int) =~= s@.skip(i as int));
    slice_subrange(s, i, s.len())
}

/// Cut trailing white space.
pub fn trim_end(s: &[char]) -> (r: &[char])
    ensures
        r@ == trimmed_end(s@),
{
    let mut n: usize = s.len();
    assert(s@.take(n as int) =~= s@);
    while n > 0 && white_space(s[n - 1])
        invariant
            n <= s@.len(),
            trimmed_end(s@.take(n as int)) == trimmed_end(s@),
        decreases n,
    {
        assert(s@.take(n as int).drop_last() =~= s@.take(n - 1));
        n -= 1;
    }
    assert(s@.subrange(0, n as int) =~= s@.take(n as int));
    slice_subrange(s, 0, n)
}

/// Cut white space at both ends.
pub fn trim(s: &[char]) -> (r: &[char])
    ensures
        r@ == trimmed(s@),
{
    trim_end(trim_start(s))
}

/// Cut the trailing run of `c`.
pub fn trim_end_of(s: &[char], c: char) -> (r: &[char])
    ensures
        r@ == trimmed_end_of(s@, c),
{
    let mut n: usize = s.len();
    assert(s@.take(n as int) =~= s@);
    while n > 0 && s[n - 1] == c
        invariant
            n <= s@.len(),
            trimmed_end_of(s@.take(n as int), c) == trimmed_end_of(s@, c),
        decreases n,
    {
        assert(s@.take(n as int).drop_last() =~= s@.take(n - 1));
        n -= 1;
    }
    assert(s@.subrange(0, n as int) =~= s@.take(n as int));
    slice_subrange(s, 0, n)
}

// ---- strings as characters ------------------------------------------------

/// `String::push` appends exactly the given character.
pub assume_specification[ String::push ](s: &mut String, c: char)
    ensures
        final(s)@ == old(s)@.push(c),
;

/// The characters of a string slice.
pub fn chars_of(s: &str) -> (r: Vec<char>)
    ensures
        r@ == s@,
{
    let mut out: Vec<char> = Vec::new();
    for c in it: s.chars()
        invariant
            it.seq() == s@,
            out@ == s@.take(it.index() as int),
    {
        out.push(c);
    }
    out
}

/// The string made of the given characters.
pub fn string_of(s: &[char]) -> (r: String)
    ensures
        r@ == s@,
{
    let mut out: String = String::new();
    let mut i: usize = 0;
    while i < s.len()
        invariant
            i <= s@.len(),
            out@ == s@.take(i as int),
        decreases s@.len() - i,
    {
        out.push(s[i]);
        i += 1;
    }
    assert(s@.take(i as int) =~= s@);
    out
}

/// Whether two character slices hold the same text.
pub fn same_chars(a: &[char], b: &[char]) -> (r: bool)
    ensures
        r == (a@ == b@),
{
    if a.len() != b.len() {
        return false;
    }
    let mut i: usize = 0;
    while i < a.len()
        invariant
            i <= a@.len(),
            a@.len() == b@.len(),
            forall|j: int| 0 <= j < i ==> a@[j] == b@[j],
        decreases a@.len() - i,
    {
        if a[i] != b[i] {
            return false;
        }
        i += 1;
    }
    assert(a@ =~= b@);
    true
}

/// Whether a string slice holds exactly the text `b`.
pub fn same_text(a: &str, b: &str) -> (r: bool)
    ensures
        r == (a@ == b@),
{
    let x = chars_of(a);
    let y = chars_of(b);
    same_chars(x.as_slice(), y.as_slice())
}

/// The text of `a` followed by the text of `b`.
pub fn concat(a: &str, b: &str) -> (r: String)
    ensures
        r@ == a@ + b@,
{
    let mut out: String = a.to_owned();
    out.append(b);
    out
}

// ---- searching and splitting ----------------------------------------------

/// The first position at which `c` stands in `s`.
pub open spec fn first_index(s: Seq<char>, c: char) -> Option<int>
    decreases s.len(),
{
    if s.len() == 0 {
        None
    } else if s[0] == c {
        Some(0)
    } else {
        match first_index(s.skip(1), c) {
            Some(i) => Some(i + 1),
            None => None,
        }
    }
}

/// What `first_index` says, stated position by position.
pub proof fn lemma_first_index(s: Seq<char>, c: char)
    ensures
        match first_index(s, c) {
            Some(i) => 0 <= i < s.len() && s[i] == c && (forall|j: int| 0 <= j < i ==> s[j] != c),
            None => forall|j: int| 0 <= j < s.len() ==> s[j] != c,
        },
    decreases s.len(),
{
    if s.len() > 0 && s[0] != c {
        let t = s.skip(1);
        lemma_first_index(t, c);
        assert forall|j: int| 1 <= j < s.len() implies s[j] == t[j - 1] by {}
    }
}

/// A position that has the character, with none before it, is the first.
pub proof fn lemma_first_index_is(s: Seq<char>, c: char, i: int)
    requires
        0 <= i < s.len(),
        s[i] == c,
        forall|j: int| 0 <= j < i ==> s[j] != c,
    ensures
        first_index(s, c) == Some(i),
{
    lemma_first_index(s, c);
}

/// Find the first position of `c`.
pub fn index_of(s: &[char], c: char) -> (r: Option<usize>)
    ensures
        match r {
            Some(i) => first_index(s@, c) == Some(i as int) && i < s@.len(),
            None => first_index(s@, c) is None,
        },
{
    let mut i: usize = 0;
    while i < s.len()
        invariant
            i <= s@.len(),
            forall|j: int| 0 <= j < i ==> s@[j] != c,
        decreases s@.len() - i,
    {
        if s[i] == c {
            proof {
                lemma_first_index_is(s@, c, i as int);
            }
            return Some(i);
        }
        i += 1;
    }
    proof {
        lemma_first_index(s@, c);
    }
    None
}

/// `needle` stands in `hay` at position `i`.
pub open spec fn occurs_at<T>(hay: Seq<T>, needle: Seq<T>, i: int) -> bool {
    &&& 0 <= i
    &&& i + needle.len() <= hay.len()
    &&& hay.subrange(i, i + needle.len()) == needle
}

/// Whether `needle` occurs anywhere in `hay`.
pub fn contains(hay: &str, needle: &str) -> (r: bool)
    ensures
        r == (exists|i: int| occurs_at(hay@, needle@, i)),
{
    let h = chars_of(hay);
    let n = chars_of(needle);
    if h.len() < n.len() {
        return false;
    }
    let last: usize = h.len() - n.len();
    let mut i: usize = 0;
    while i <= last
        invariant
            h@ == hay@,
            n@ == needle@,
            last == h@.len() - n@.len(),
            i <= last + 1,
            forall|j: int| 0 <= j < i ==> !occurs_at(hay@, needle@, j),
        decreases last + 1 - i,
    {
        assert(i + n.len() <= h.len());
        if same_chars(slice_subrange(h.as_slice(), i, i + n.len()), n.as_slice()) {
            assert(occurs_at(hay@, needle@, i as int));
            return true;
        }
        if i == last {
            assert forall|j: int| !occurs_at(hay@, needle@, j) by {
                if occurs_at(hay@, needle@, j) {
                    assert(j <= last);
                }
            }
            return false;
        }
        i += 1;
    }
    false
}

// ---- lines ----------------------------------------------------------------

/// A terminated line without the carriage return that may precede its end.
pub open spec fn without_cr(line: Seq<char>) -> Seq<char> {
    if line.len() > 0 && line.last() == '\r' {
        line.drop_last()
    } else {
        line
    }
}

/// The first line of `s`. A line ends at `\n` or `\r\n`; the last line of a
/// text may be unterminated, and then keeps every character.
pub open spec fn first_line(s: Seq<char>) -> Seq<char> {
    match first_index(s, '\n') {
        Some(i) => without_cr(s.take(i)),
        None => s,
    }
}

/// What follows the first line of `s`.
pub open spec fn after_first_line(s: Seq<char>) -> Seq<char> {
    match first_index(s, '\n') {
        Some(i) => s.skip(i + 1),
        None => Seq::empty(),
    }
}

/// Every text but the empty one shrinks when its first line is cut.
pub proof fn lemma_after_first_line_shrinks(s: Seq<char>)
    requires
        s.len() > 0,
    ensures
        after_first_line(s).len() < s.len(),
{
    lemma_first_index(s, '\n');
}

/// Cut the first line off: the line, and the text after it.
pub fn next_line(s: &[char]) -> (r: (&[char], &[char]))
    ensures
        r.0@ == first_line(s@),
        r.1@ == after_first_line(s@),
{
    match index_of(s, '\n') {
        Some(i) => {
            let n: usize = if i > 0 && s[i - 1] == '\r' {
                i - 1
            } else {
                i
            };
            let line = slice_subrange(s, 0, n);
            let rest = slice_subrange(s, i + 1, s.len());
            assert(line@ =~= first_line(s@));
            assert(rest@ =~= after_first_line(s@));
            (line, rest)
        },
        None => {
            let rest = slice_subrange(s, s.len(), s.len());
            assert(rest@ =~= Seq::<char>::empty());
            (s, rest)
        },
    }
}

/// The parts in order, with `sep` between neighbours.
pub open spec fn joined(parts: Seq<Seq<char>>, sep: Seq<char>) -> Seq<char>
    decreases parts.len(),
{
    if parts.len() == 0 {
        Seq::empty()
    } else if parts.len() == 1 {
        parts[0]
    } else {
        joined(parts.drop_last(), sep) + sep + parts.last()
    }
}

// ---- numbers --------------------------------------------------------------

/// The character for one decimal digit.
pub open spec fn digit_char(d: int) -> char {
    (48 + d) as char
}

/// `n` in decimal, without leading zeros.
pub open spec fn decimal(n: nat) -> Seq<char>
    decreases n,
{
    if n < 10 {
        seq![digit_char(n as int)]
    } else {
        decimal(n / 10).push(digit_char((n % 10) as int))
    }
}

/// Append `n` in decimal.
pub fn push_decimal(s: &mut String, n: u64)
    ensures
        final(s)@ == old(s)@ + decimal(n as nat),
    decreases n,
{
    if n >= 10 {
        push_decimal(s, n / 10);
    }
    s.push((48u8 + (n % 10) as u8) as char);
    assert(s@ =~= old(s)@ + decimal(n as nat));
}

/// A number in decimal between two texts.
pub fn number_between(before: &str, n: u64, after: &str) -> (r: String)
    ensures
        r@ == before@ + decimal(n as nat) + after@,
{
    let mut out: String = before.to_owned();
    push_decimal(&mut out, n);
    out.append(after);
    out
}

/// The character for one hexadecimal digit, in lower case.
pub open spec fn hex_char(d: int) -> char {
    if d < 10 {
        (48 + d) as char
    } else {
        (87 + d) as char
    }
}

/// One byte as two hexadecimal digits.
pub open spec fn hex_byte(b: u8) -> Seq<char> {
    seq![hex_char(b as int / 16), hex_char(b as int % 16)]
}

/// The given bytes as two-digit hexadecimal, separated by single spaces.
pub open spec fn hex_dump(bytes: Seq<u8>) -> Seq<char> {
    joined(bytes.map_values(|b: u8| hex_byte(b)), seq![' '])
}

fn push_hex_digit(s: &mut String, d: u8)
    requires
        d < 16,
    ensures
        final(s)@ == old(s)@.push(hex_char(d as int)),
{
    if d < 10 {
        s.push((48u8 + d) as char);
    } else {
        s.push((87u8 + d) as char);
    }
}

/// The first `n` bytes as two-digit hexadecimal, separated by single spaces.
pub fn hex_prefix(bytes: &[u8], n: usize) -> (r: String)
    ensures
        r@ == hex_dump(
            if bytes@.len() <= n {
                bytes@
            } else {
                bytes@.take(n as int)
            },
        ),
{
    let m: usize = if bytes.len() <= n {
        bytes.len()
    } else {
        n
    };
    let ghost all = bytes@.map_values(|b: u8| hex_byte(b));
    let mut out: String = String::new();
    let mut i: usize = 0;
    assert(all.take(0) =~= Seq::empty());
    while i < m
        invariant
            i <= m <= bytes@.len(),
            all == bytes@.map_values(|b: u8| hex_byte(b)),
            out@ == joined(all.take(i as int), seq![' ']),
        decreases m - i,
    {
        if i > 0 {
            out.push(' ');
        }
        push_hex_digit(&mut out, bytes[i] / 16);
        push_hex_digit(&mut out, bytes[i] % 16);
        proof {
            let before = all.take(i as int);
            let after = all.take(i + 1);
            assert(after.drop_last() =~= before);
            assert(after.last() == hex_byte(bytes@[i as int]));
            assert(out@ =~= joined(after, seq![' ']));
        }
        i += 1;
    }
    assert(all.take(m as int) =~= bytes@.take(m as int).map_values(|b: u8| hex_byte(b)));
    assert(bytes@.take(bytes@.len() as int) =~= bytes@);
    out
}

/// Why a text is not an unsigned integer.
#[derive(Debug, Clone, Copy, PartialEq, Eq, Structural)]
pub enum IntegerError {
    /// There is nothing to read.
    Empty,
    /// A character is not a decimal digit, or a sign stands alone.
    InvalidDigit,
    /// The value exceeds the target type.
    PosOverflow,
}

impl IntegerError {
    /// The message for people.
    pub open spec fn message_text(self) -> Seq<char> {
        match self {
            IntegerError::Empty => "cannot parse integer from empty string"@,
            IntegerError::InvalidDigit => "invalid digit found in string"@,
            IntegerError::PosOverflow => "number too large to fit in target type"@,
        }
    }

    /// The message for people.
    pub fn message(&self) -> (r: &'static str)
        ensures
            r@ == self.message_text(),
    {
        match self {
            IntegerError::Empty => "cannot parse integer from empty string",
            IntegerError::InvalidDigit => "invalid digit found in string",
            IntegerError::PosOverflow => "number too large to fit in target type",
        }
    }
}

pub open spec fn is_digit(c: char) -> bool {
    '0' <= c <= '9'
}

pub open spec fn digit_value(c: char) -> nat {
    (c as int - '0' as int) as nat
}

/// The value of a run of digits read from the left, within `max`. The first
/// character that is no digit, or that carries the value past `max`, decides
/// the error.
pub open spec fn digits_value(s: Seq<char>, max: nat) -> Result<nat, IntegerError>
    decreases s.len(),
{
    if s.len() == 0 {
        Ok(0)
    } else {
        match digits_value(s.drop_last(), max) {
            Err(e) => Err(e),
            Ok(v) => if !is_digit(s.last()) {
                Err(IntegerError::InvalidDigit)
            } else if v * 10 + digit_value(s.last()) > max {
                Err(IntegerError::PosOverflow)
            } else {
                Ok((v * 10 + digit_value(s.last())) as nat)
            },
        }
    }
}

/// A text as an unsigned integer not above `max`: decimal digits, optionally
/// after one `+`.
pub open spec fn unsigned_value(s: Seq<char>, max: nat) -> Result<nat, IntegerError> {
    if s.len() == 0 {
        Err(IntegerError::Empty)
    } else if s == seq!['+'] {
        Err(IntegerError::InvalidDigit)
    } else if s[0] == '+' {
        digits_value(s.skip(1), max)
    } else {
        digits_value(s, max)
    }
}

/// An error in the first digits is an error of the whole.
proof fn lemma_digits_error_sticks(s: Seq<char>, n: int, max: nat)
    requires
        0 <= n <= s.len(),
        digits_value(s.take(n), max) is Err,
    ensures
        digits_value(s, max) == digits_value(s.take(n), max),
    decreases s.len(),
{
    if n < s.len() {
        assert(s.drop_last().take(n) =~= s.take(n));
        lemma_digits_error_sticks(s.drop_last(), n, max);
    } else {
        assert(s.take(n) =~= s);
    }
}

/// Read an unsigned integer not above `max`.
pub fn parse_unsigned(s: &str, max: u64) -> (r: Result<u64, IntegerError>)
    ensures
        match r {
            Ok(v) => unsigned_value(s@, max as nat) == Ok::<nat, IntegerError>(v as nat),
            Err(e) => unsigned_value(s@, max as nat) == Err::<nat, IntegerError>(e),
        },
        r matches Ok(v) ==> v <= max,
{
    let all = chars_of(s);
    if all.len() == 0 {
        return Err(IntegerError::Empty);
    }
    if all.len() == 1 && all[0] == '+' {
        assert(s@ =~= seq!['+']);
        return Err(IntegerError::InvalidDigit);
    }
    let start: usize = if all[0] == '+' {
        1
    } else {
        0
    };
    let ghost digits = s@.skip(start as int);
    assert(s@.skip(0) =~= s@);
    assert(s@ != seq!['+']) by {
        if s@ == seq!['+'] {
            assert(s@.len() == 1 && s@[0] == '+');
        }
    }
    let mut v: u64 = 0;
    let mut i: usize = start;
    assert(digits.take(0) =~= Seq::empty());
    while i < all.len()
        invariant
            all@ == s@,
            start <= i <= all@.len(),
            digits == s@.skip(start as int),
            unsigned_value(s@, max as nat) == digits_value(digits, max as nat),
            digits_value(digits.take(i - start), max as nat) == Ok::<nat, IntegerError>(v as nat),
            v <= max,
        decreases all@.len() - i,
    {
        let c: char = all[i];
        let ghost upto = digits.take(i - start + 1);
        proof {
            assert(upto.drop_last() =~= digits.take(i - start));
            assert(upto.last() == c);
        }
        if !('0' <= c && c <= '9') {
            proof {
                lemma_digits_error_sticks(digits, i - start + 1, max as nat);
            }
            return Err(IntegerError::InvalidDigit);
        }
        let d: u64 = (c as u32 - 48u32) as u64;
        if v > max / 10 || d > max || v * 10 > max - d {
            proof {
                assert(v * 10 + d > max) by (nonlinear_arith)
                    requires
                        v > max / 10 || d > max || v * 10 > max - d,
                        max >= 0,
                        v >= 0,
                        d >= 0,
                ;
                lemma_digits_error_sticks(digits, i - start + 1, max as nat);
            }
            return Err(IntegerError::PosOverflow);
        }
        v = v * 10 + d;
        i += 1;
    }
    assert(digits.take(i - start) =~= digits);
    Ok(v)
}

} // verus!

//! What holds of the framing as a whole.

use crate::sse;
use crate::sse::{SseEvent, SsePayload};
use crate::text;
use vstd::prelude::*;
use vstd::utf8::*;

verus! {

/// A first frame that has ended keeps its end whatever bytes arrive later.
proof fn lemma_frame_end_is_stable(x: Seq<u8>, y: Seq<u8>)
    requires
        sse::frame_end(x) is Some,
    ensures
        sse::frame_end(x + y) == sse::frame_end(x),
        sse::separator_len(x + y, sse::frame_end(x)->0) == sse::separator_len(
            x,
            sse::frame_end(x)->0,
        ),
{
    let w = x + y;
    let i = sse::frame_end(x)->0;
    sse::lemma_frame_end(x);
    sse::lemma_frame_end(w);
    assert forall|j: int, k: int| 0 <= j <= k <= x.len() implies #[trigger] w.subrange(j, k)
        == x.subrange(j, k) by {
        assert(w.subrange(j, k) =~= x.subrange(j, k));
    }
    assert(sse::separator_len(w, i) == sse::separator_len(x, i));
    assert forall|j: int| 0 <= j < i implies sse::separator_len(w, j) == 0 by {
        assert(sse::separator_len(x, j) == 0);
        if text::occurs_at(w, sse::crlf_crlf(), j) && j + 4 > x.len() {
            // Only a CRLF pair one byte before an LF pair could reach past `x`,
            // and the two disagree on the byte after `i`.
            assert(j == i - 1);
            assert(text::occurs_at(x, sse::lf_lf(), i));
            assert(w.subrange(j, j + 4)[2] == 13);
            assert(x.subrange(i, i + 2)[1] == 10);
        }
    }
}

/// How bytes are cut into chunks does not matter: the frames of a whole
/// stream are those of its first part, followed by those that the second part
/// completes after the first part's remainder. The events follow suit, and
/// the same bytes remain.
pub proof fn lemma_chunking_is_irrelevant(x: Seq<u8>, y: Seq<u8>)
    ensures
        sse::frames(x + y) == sse::frames(x) + sse::frames(sse::residue(x) + y),
        sse::residue(x + y) == sse::residue(sse::residue(x) + y),
        sse::events_of(sse::frames(x + y)) == sse::events_of(sse::frames(x)) + sse::events_of(
            sse::frames(sse::residue(x) + y),
        ),
    decreases x.len(),
{
    match sse::frame_end(x) {
        Some(i) => {
            sse::lemma_frame_end(x);
            lemma_frame_end_is_stable(x, y);
            let n = sse::separator_len(x, i);
            let rest = x.skip(i + n);
            assert((x + y).take(i) =~= x.take(i));
            assert((x + y).skip(i + n) =~= rest + y);
            lemma_chunking_is_irrelevant(rest, y);
            assert(sse::frames(x + y) =~= sse::frames(x) + sse::frames(sse::residue(x) + y));
        },
        None => {
            assert(sse::frames(x) + sse::frames(x + y) =~= sse::frames(x + y));
        },
    }
    lemma_events_of_concat(sse::frames(x), sse::frames(sse::residue(x) + y));
}

/// Events of two runs of frames in a row.
pub proof fn lemma_events_of_concat(a: Seq<Seq<u8>>, b: Seq<Seq<u8>>)
    ensures
        sse::events_of(a + b) == sse::events_of(a) + sse::events_of(b),
    decreases b.len(),
{
    if b.len() == 0 {
        assert(a + b =~= a);
        assert(sse::events_of(a) + sse::events_of(b) =~= sse::events_of(a));
    } else {
        lemma_events_of_concat(a, b.drop_last());
        assert((a + b).drop_last() =~= a + b.drop_last());
        assert((a + b).last() == b.last());
        assert(sse::events_of(a + b) =~= sse::events_of(a) + sse::events_of(b));
    }
}

/// Nothing on the wire is eaten: the frames with their terminators, then the
/// remainder, are the bytes that arrived; and every terminator is a blank line
/// in one of its two forms.
pub proof fn lemma_nothing_is_eaten(buf: Seq<u8>)
    ensures
        sse::separators(buf).len() == sse::frames(buf).len(),
        forall|k: int|
            0 <= k < sse::separators(buf).len() ==> (#[trigger] sse::separators(buf)[k]
                == sse::lf_lf() || sse::separators(buf)[k] == sse::crlf_crlf()),
        sse::terminated(sse::frames(buf), sse::separators(buf)) + sse::residue(buf) == buf,
    decreases buf.len(),
{
    match sse::frame_end(buf) {
        Some(i) => {
            sse::lemma_frame_end(buf);
            let n = sse::separator_len(buf, i);
            let rest = buf.skip(i + n);
            let f = sse::frames(buf);
            let s = sse::separators(buf);
            lemma_nothing_is_eaten(rest);
            assert(f.skip(1) =~= sse::frames(rest));
            assert(s.skip(1) =~= sse::separators(rest));
            assert(s[0] == sse::lf_lf() || s[0] == sse::crlf_crlf());
            assert forall|k: int| 0 <= k < s.len() implies (#[trigger] s[k] == sse::lf_lf() || s[k]
                == sse::crlf_crlf()) by {
                if k > 0 {
                    assert(s[k] == sse::separators(rest)[k - 1]);
                }
            }
            assert(sse::terminated(f, s) + sse::residue(buf) =~= buf.take(i) + buf.subrange(
                i,
                i + n,
            ) + (sse::terminated(f.skip(1), s.skip(1)) + sse::residue(rest)));
            assert(buf.take(i) + buf.subrange(i, i + n) + rest =~= buf);
        },
        None => {
            assert(sse::terminated(sse::frames(buf), sse::separators(buf)) + buf =~= buf);
        },
    }
}

/// What remains after framing holds no complete frame, and framing it again
/// changes nothing.
pub proof fn lemma_residue_is_frameless(buf: Seq<u8>)
    ensures
        sse::frame_end(sse::residue(buf)) is None,
        sse::frames(sse::residue(buf)) == Seq::<Seq<u8>>::empty(),
        sse::residue(sse::residue(buf)) == sse::residue(buf),
    decreases buf.len(),
{
    if let Some(i) = sse::frame_end(buf) {
        sse::lemma_frame_end(buf);
        lemma_residue_is_frameless(buf.skip(i + sse::separator_len(buf, i)));
    }
}

/// Valid UTF-8 stays valid after a leading ASCII byte is cut.
proof fn lemma_skip_ascii(bytes: Seq<u8>)
    requires
        valid_utf8(bytes),
        bytes.len() > 0,
        bytes[0] < 0x80,
    ensures
        valid_utf8(bytes.skip(1)),
        bytes[0] as char == decode_utf8(bytes)[0],
        decode_utf8(bytes) == seq![bytes[0] as char] + decode_utf8(bytes.skip(1)),
{
    let b = bytes[0];
    assert(pop_first_scalar(bytes) =~= bytes.skip(1));
    assert((b & 0x7f) == b) by (bit_vector)
        requires
            b < 0x80,
    ;
    assert(decode_first_scalar(bytes) == b as u32);
}

/// Valid UTF-8 splits in two before any ASCII byte.
proof fn lemma_split_at_ascii(bytes: Seq<u8>, i: int)
    requires
        valid_utf8(bytes),
        0 <= i < bytes.len(),
        bytes[i] < 0x80,
    ensures
        valid_utf8(bytes.take(i)),
        valid_utf8(bytes.skip(i)),
        decode_utf8(bytes) == decode_utf8(bytes.take(i)) + decode_utf8(bytes.skip(i)),
{
    is_char_boundary_iff_not_is_continuation_byte(bytes, i);
    valid_utf8_split(bytes, i);
    decode_utf8_split(bytes, i);
    assert(bytes.subrange(0, i) =~= bytes.take(i));
    assert(bytes.subrange(i, bytes.len() as int) =~= bytes.skip(i));
}

/// No character is ever split: where the stream is valid UTF-8, so are every
/// frame of it and the remainder, wherever the reads were cut.
pub proof fn lemma_frames_keep_characters_whole(buf: Seq<u8>)
    requires
        valid_utf8(buf),
    ensures
        forall|k: int| 0 <= k < sse::frames(buf).len() ==> valid_utf8(#[trigger] sse::frames(buf)[k]),
        valid_utf8(sse::residue(buf)),
    decreases buf.len(),
{
    if let Some(i) = sse::frame_end(buf) {
        sse::lemma_frame_end(buf);
        let n = sse::separator_len(buf, i);
        let rest = buf.skip(i + n);
        assert forall|j: int| i <= j < i + n implies buf[j] < 0x80 by {
            assert(buf[j] == buf.subrange(i, i + n)[j - i]);
        }
        lemma_split_at_ascii(buf, i);
        let s0 = buf.skip(i);
        lemma_skip_ascii(s0);
        let s1 = s0.skip(1);
        lemma_skip_ascii(s1);
        assert(s1.skip(1) =~= buf.skip(i + 2));
        if n == 4 {
            let s2 = buf.skip(i + 2);
            lemma_skip_ascii(s2);
            let s3 = s2.skip(1);
            lemma_skip_ascii(s3);
            assert(s3.skip(1) =~= buf.skip(i + 4));
        }
        lemma_frames_keep_characters_whole(rest);
        let f = sse::frames(buf);
        assert forall|k: int| 0 <= k < f.len() implies valid_utf8(#[trigger] f[k]) by {
            if k > 0 {
                assert(f[k] == sse::frames(rest)[k - 1]);
            }
        }
    }
}

// ---- reading back what was written ----------------------------------------

/// The text of a frame that carries `t`: one `data` line per line of `t`.
pub open spec fn data_lines(t: Seq<char>) -> Seq<char>
    decreases t.len(),
{
    match text::first_index(t, '\n') {
        Some(i) => {
            proof {
                text::lemma_first_index(t, '\n');
            }
            "data: "@ + t.take(i) + seq!['\n'] + data_lines(t.skip(i + 1))
        },
        None => "data: "@ + t,
    }
}

/// The bytes of that frame on the wire.
pub open spec fn data_frame(t: Seq<char>) -> Seq<u8> {
    encode_utf8(data_lines(t)) + sse::lf_lf()
}

/// The parts of `t` between its newlines.
spec fn newline_parts(t: Seq<char>) -> Seq<Seq<char>>
    decreases t.len(),
{
    match text::first_index(t, '\n') {
        Some(i) => {
            proof {
                text::lemma_first_index(t, '\n');
            }
            seq![t.take(i)] + newline_parts(t.skip(i + 1))
        },
        None => seq![t],
    }
}

proof fn lemma_joined_front(first: Seq<char>, rest: Seq<Seq<char>>, sep: Seq<char>)
    requires
        rest.len() > 0,
    ensures
        text::joined(seq![first] + rest, sep) == first + sep + text::joined(rest, sep),
    decreases rest.len(),
{
    let all = seq![first] + rest;
    assert(all.last() == rest.last());
    if rest.len() == 1 {
        assert(all.drop_last() =~= seq![first]);
        assert(text::joined(seq![first], sep) == first);
        assert(text::joined(all, sep) =~= first + sep + text::joined(rest, sep));
    } else {
        assert(all.drop_last() =~= seq![first] + rest.drop_last());
        lemma_joined_front(first, rest.drop_last(), sep);
        assert(text::joined(all, sep) =~= first + sep + text::joined(rest, sep));
    }
}

proof fn lemma_newline_parts_join(t: Seq<char>)
    ensures
        newline_parts(t).len() > 0,
        text::joined(newline_parts(t), "\n"@) == t,
    decreases t.len(),
{
    reveal_strlit("\n");
    assert("\n"@ =~= seq!['\n']);
    text::lemma_first_index(t, '\n');
    if let Some(i) = text::first_index(t, '\n') {
        let rest = t.skip(i + 1);
        lemma_newline_parts_join(rest);
        lemma_joined_front(t.take(i), newline_parts(rest), "\n"@);
        assert(t.take(i) + "\n"@ + rest =~= t);
    }
}

/// One `data` line reads back as its value.
proof fn lemma_data_line(part: Seq<char>)
    ensures
        sse::line_field("data: "@ + part) == "data"@,
        sse::line_value("data: "@ + part) == part,
{
    reveal_strlit("data: ");
    reveal_strlit("data");
    let line = "data: "@ + part;
    assert(line[4] == ':');
    text::lemma_first_index_is(line, ':', 4);
    assert(line.take(4) =~= "data"@);
    assert(line.skip(5)[0] == ' ');
    assert(line.skip(5).skip(1) =~= part);
}

proof fn lemma_data_lines_read_back(t: Seq<char>)
    requires
        forall|i: int| 0 <= i < t.len() - 1 ==> !(#[trigger] t[i] == '\r' && t[i + 1] == '\n'),
    ensures
        sse::data_values(data_lines(t)) == newline_parts(t),
    decreases t.len(),
{
    reveal_strlit("data: ");
    text::lemma_first_index(t, '\n');
    let w = data_lines(t);
    match text::first_index(t, '\n') {
        Some(i) => {
            let rest = t.skip(i + 1);
            let line = "data: "@ + t.take(i);
            assert(w[6 + i] == '\n');
            assert forall|j: int| 0 <= j < 6 + i implies w[j] != '\n' by {
                if j >= 6 {
                    assert(w[j] == t[j - 6]);
                }
            }
            text::lemma_first_index_is(w, '\n', 6 + i);
            assert(w.take(6 + i) =~= line);
            assert(w.skip(6 + i + 1) =~= data_lines(rest));
            if i > 0 {
                assert(line.last() == t[i - 1]);
            } else {
                assert(line.last() == ' ');
            }
            assert(text::first_line(w) == line);
            lemma_data_line(t.take(i));
            lemma_data_lines_read_back(rest);
        },
        None => {
            assert forall|j: int| 0 <= j < w.len() implies w[j] != '\n' by {
                if j >= 6 {
                    assert(w[j] == t[j - 6]);
                }
            }
            text::lemma_first_index(w, '\n');
            lemma_data_line(t);
            let none = sse::data_values(text::after_first_line(w));
            assert(none =~= Seq::empty());
            assert(seq![t] + none =~= seq![t]);
        },
    }
}

/// The text of a data frame has no blank line: every newline in it is
/// followed by the next `data` line.
proof fn lemma_data_lines_shape(t: Seq<char>)
    ensures
        data_lines(t).len() >= 6,
        data_lines(t)[0] == 'd',
        forall|j: int|
            0 <= j < data_lines(t).len() && #[trigger] data_lines(t)[j] == '\n' ==> j + 1 < data_lines(
                t,
            ).len() && data_lines(t)[j + 1] == 'd',
    decreases t.len(),
{
    reveal_strlit("data: ");
    text::lemma_first_index(t, '\n');
    let w = data_lines(t);
    match text::first_index(t, '\n') {
        Some(i) => {
            let rest = data_lines(t.skip(i + 1));
            lemma_data_lines_shape(t.skip(i + 1));
            assert forall|j: int| 0 <= j < w.len() && #[trigger] w[j] == '\n' implies j + 1 < w.len()
                && w[j + 1] == 'd' by {
                if j < 6 {
                } else if j < 6 + i {
                    assert(w[j] == t[j - 6]);
                } else if j == 6 + i {
                    assert(w[j + 1] == rest[0]);
                } else {
                    assert(w[j] == rest[j - 7 - i]);
                    assert(w[j + 1] == rest[j - 7 - i + 1]);
                }
            }
        },
        None => {
            assert forall|j: int| 0 <= j < w.len() implies w[j] != '\n' by {
                if j >= 6 {
                    assert(w[j] == t[j - 6]);
                }
            }
        },
    }
}

/// Where the encoding of `w` has an LF byte, `w` has a newline; and what
/// follows the byte encodes what follows the newline.
proof fn lemma_lf_byte_is_newline(w: Seq<char>, i: int)
    requires
        0 <= i < encode_utf8(w).len(),
        encode_utf8(w)[i] == 10,
    ensures
        exists|j: int|
            0 <= j < w.len() && #[trigger] w[j] == '\n' && encode_utf8(w).skip(i + 1)
                == encode_utf8(w.skip(j + 1)),
{
    let bytes = encode_utf8(w);
    encode_utf8_valid_utf8(w);
    encode_utf8_decode_utf8(w);
    lemma_split_at_ascii(bytes, i);
    let tail = bytes.skip(i);
    lemma_skip_ascii(tail);
    let before = decode_utf8(bytes.take(i));
    let after = decode_utf8(tail.skip(1));
    let j = before.len() as int;
    assert(w =~= before + (seq![10u8 as char] + after));
    assert(w[j] == '\n');
    assert(w.skip(j + 1) =~= after);
    decode_utf8_encode_utf8(tail.skip(1));
    assert(tail.skip(1) =~= bytes.skip(i + 1));
}

/// What is written as a data frame is read back: a text in which no carriage
/// return precedes a newline, sent as one frame, comes out as one data event
/// that carries exactly that text, and nothing remains in the buffer.
pub proof fn lemma_data_frame_round_trip(t: Seq<char>)
    requires
        forall|i: int| 0 <= i < t.len() - 1 ==> !(#[trigger] t[i] == '\r' && t[i + 1] == '\n'),
    ensures
        sse::frames(data_frame(t)) == seq![encode_utf8(data_lines(t))],
        sse::residue(data_frame(t)) == Seq::<u8>::empty(),
        sse::events_of(sse::frames(data_frame(t))) == seq![
            SseEvent::<Seq<char>, Seq<u8>> {
                payload: SsePayload::Data(t),
                raw_byte_len: encode_utf8(data_lines(t)).len() as usize,
            },
        ],
{
    let body = encode_utf8(data_lines(t));
    lemma_data_frame_frames(t);
    lemma_data_frame_event(t);
    let one = seq![body];
    assert(one.drop_last() =~= Seq::empty());
    assert(one.last() == body);
    assert(sse::events_of(one.drop_last()) =~= Seq::empty());
    assert(sse::events_of(one) =~= seq![sse::block_event(body)->0]);
}

/// A data frame is one complete frame and nothing else.
proof fn lemma_data_frame_frames(t: Seq<char>)
    ensures
        sse::frames(data_frame(t)) == seq![encode_utf8(data_lines(t))],
        sse::residue(data_frame(t)) == Seq::<u8>::empty(),
{
    let body = encode_utf8(data_lines(t));
    assert forall|i: int| 0 <= i < body.len() implies #[trigger] no_blank_line_at(body, i) by {
        if body[i] == 10 {
            lemma_lf_byte_leads_to_d(t, i);
        }
    }
    lemma_body_then_blank_line(body);
}

/// If an LF stands at `i`, a letter follows it.
spec fn no_blank_line_at(body: Seq<u8>, i: int) -> bool {
    body[i] == 10 ==> i + 1 < body.len() && body[i + 1] == 100
}

/// Bytes in which a letter follows every LF are one frame once a blank line
/// closes them.
proof fn lemma_body_then_blank_line(body: Seq<u8>)
    requires
        forall|i: int| 0 <= i < body.len() ==> #[trigger] no_blank_line_at(body, i),
    ensures
        sse::frames(body + sse::lf_lf()) == seq![body],
        sse::residue(body + sse::lf_lf()) == Seq::<u8>::empty(),
{
    let wire = body + sse::lf_lf();
    let n = body.len() as int;
    assert forall|i: int| 0 <= i < n implies sse::separator_len(wire, i) == 0 by {
        lemma_no_separator_within(body, i);
    }
    assert(wire.subrange(n, n + 2) =~= sse::lf_lf());
    assert(sse::separator_len(wire, n) == 2);
    sse::lemma_frame_end_is(wire, n);
    lemma_sole_frame(wire, n);
    assert(wire.take(n) =~= body);
}

/// A terminator at the very end closes the only frame.
proof fn lemma_sole_frame(wire: Seq<u8>, n: int)
    requires
        sse::frame_end(wire) == Some(n),
        sse::separator_len(wire, n) == 2,
        wire.len() == n + 2,
    ensures
        sse::frames(wire) == seq![wire.take(n)],
        sse::residue(wire) == Seq::<u8>::empty(),
{
    let rest = wire.skip(n + 2);
    assert(rest.len() == 0);
    assert(sse::frame_end(rest) is None);
    assert(sse::frames(rest).len() == 0);
    assert(sse::residue(rest) == rest);
    assert(sse::frames(wire) =~= seq![wire.take(n)]);
}

proof fn lemma_no_separator_within(body: Seq<u8>, i: int)
    requires
        forall|i: int| 0 <= i < body.len() ==> #[trigger] no_blank_line_at(body, i),
        0 <= i < body.len(),
    ensures
        sse::separator_len(body + sse::lf_lf(), i) == 0,
{
    let wire = body + sse::lf_lf();
    if text::occurs_at(wire, sse::lf_lf(), i) {
        let w = wire.subrange(i, i + 2);
        assert(w[0] == 10 && w[1] == 10);
        assert(no_blank_line_at(body, i));
    }
    if text::occurs_at(wire, sse::crlf_crlf(), i) {
        let w = wire.subrange(i, i + 4);
        assert(w[1] == 10 && w[2] == 13);
        assert(no_blank_line_at(body, i + 1));
    }
}

/// The body of a data frame says its text.
proof fn lemma_data_frame_event(t: Seq<char>)
    requires
        forall|i: int| 0 <= i < t.len() - 1 ==> !(#[trigger] t[i] == '\r' && t[i + 1] == '\n'),
    ensures
        sse::block_payload(encode_utf8(data_lines(t))) == Some(
            SsePayload::<Seq<char>, Seq<u8>>::Data(t),
        ),
{
    encode_utf8_valid_utf8(data_lines(t));
    encode_utf8_decode_utf8(data_lines(t));
    lemma_data_lines_shape(t);
    lemma_data_lines_read_back(t);
    lemma_newline_parts_join(t);
}

/// After an LF byte in the body of a data frame comes the byte `d`.
proof fn lemma_lf_byte_leads_to_d(t: Seq<char>, i: int)
    requires
        0 <= i < encode_utf8(data_lines(t)).len(),
        encode_utf8(data_lines(t))[i] == 10,
    ensures
        i + 1 < encode_utf8(data_lines(t)).len(),
        encode_utf8(data_lines(t))[i + 1] == 100,
{
    let w = data_lines(t);
    let body = encode_utf8(w);
    lemma_data_lines_shape(t);
    lemma_lf_byte_is_newline(w, i);
    let j = choose|j: int|
        0 <= j < w.len() && #[trigger] w[j] == '\n' && body.skip(i + 1) == encode_utf8(
            w.skip(j + 1),
        );
    let after = w.skip(j + 1);
    assert(after[0] == 'd');
    let c = after[0] as u32;
    assert(c == 100);
    assert(leading_byte_width_1(100u32) == 100u8) by (bit_vector);
    assert(encode_utf8(after)[0] == 100 && encode_utf8(after).len() > 0);
    assert(body.skip(i + 1).len() == body.len() - (i + 1));
    assert(body.skip(i + 1)[0] == body[i + 1]);
}

} // verus!

//! What holds of the event stream, stated over its bytes and its lines.

use crate::sse;
use crate::sse::{SseEvent, SsePayload};
use crate::text;
use crate::text_laws;
use vstd::prelude::*;
use vstd::utf8::*;

verus! {

// ---- frames ---------------------------------------------------------------

/// A blank line in LF form stands at `i`.
pub open spec fn lf_pair_at(b: Seq<u8>, i: int) -> bool {
    0 <= i && i + 2 <= b.len() && b[i] == 10 && b[i + 1] == 10
}

/// A blank line in CRLF form stands at `i`.
pub open spec fn crlf_pair_at(b: Seq<u8>, i: int) -> bool {
    0 <= i && i + 4 <= b.len() && b[i] == 13 && b[i + 1] == 10 && b[i + 2] == 13 && b[i + 3] == 10
}

/// A blank line, in either form, stands at `i`.
pub open spec fn blank_line_at(b: Seq<u8>, i: int) -> bool {
    lf_pair_at(b, i) || crlf_pair_at(b, i)
}

proof fn lemma_separator_is_blank_line(b: Seq<u8>, i: int)
    ensures
        sse::separator_len(b, i) == (if lf_pair_at(b, i) {
            2int
        } else if crlf_pair_at(b, i) {
            4int
        } else {
            0int
        }),
{
    let lf = sse::lf_lf();
    let crlf = sse::crlf_crlf();
    text_laws::lemma_occurrence_is_elementwise(b, lf, i);
    text_laws::lemma_occurrence_is_elementwise(b, crlf, i);
    assert(lf[0] == 10 && lf[1] == 10 && lf.len() == 2);
    assert(crlf[0] == 13 && crlf[1] == 10 && crlf[2] == 13 && crlf[3] == 10 && crlf.len() == 4);
    if text::occurs_at(b, lf, i) {
        assert(b[i + 0] == lf[0] && b[i + 1] == lf[1]);
    }
    if text::occurs_at(b, crlf, i) {
        assert(b[i + 0] == crlf[0] && b[i + 1] == crlf[1] && b[i + 2] == crlf[2] && b[i + 3]
            == crlf[3]);
    }
}

/// Wherever a blank line stands, however far into the bytes, the first frame
/// has ended at or before it; and a frame that has ended is what precedes the
/// first blank line.
pub proof fn lemma_blank_line_ends_a_frame(buf: Seq<u8>, i: int)
    requires
        blank_line_at(buf, i),
    ensures
        sse::frames(buf).len() > 0,
        sse::frames(buf)[0].len() <= i,
        blank_line_at(buf, sse::frames(buf)[0].len() as int),
        sse::frames(buf)[0] == buf.take(sse::frames(buf)[0].len() as int),
        forall|j: int| 0 <= j < sse::frames(buf)[0].len() ==> !#[trigger] blank_line_at(buf, j),
{
    sse::lemma_frame_end(buf);
    lemma_separator_is_blank_line(buf, i);
    assert(sse::separator_len(buf, i) > 0);
    let e = sse::frame_end(buf)->0;
    lemma_separator_is_blank_line(buf, e);
    assert(sse::frames(buf)[0] == buf.take(e));
    assert forall|j: int| 0 <= j < e implies !#[trigger] blank_line_at(buf, j) by {
        lemma_separator_is_blank_line(buf, j);
        assert(sse::separator_len(buf, j) == 0);
    }
}

/// Bytes without a blank line hold no frame, and all of them remain.
pub proof fn lemma_no_blank_line_no_frame(buf: Seq<u8>)
    requires
        forall|i: int| !#[trigger] blank_line_at(buf, i),
    ensures
        sse::frames(buf) == Seq::<Seq<u8>>::empty(),
        sse::residue(buf) == buf,
{
    sse::lemma_frame_end(buf);
    if let Some(e) = sse::frame_end(buf) {
        lemma_separator_is_blank_line(buf, e);
        assert(blank_line_at(buf, e));
    }
}

/// A blank line closes the bytes before it into a frame of exactly those bytes,
/// whichever form it has and however long they are, and what follows it is
/// framed as if it stood alone.
pub proof fn lemma_blank_line_closes_a_frame(body: Seq<u8>, end: Seq<u8>, rest: Seq<u8>)
    requires
        end == seq![10u8, 10u8] || end == seq![13u8, 10u8, 13u8, 10u8],
        forall|j: int| 0 <= j < body.len() ==> !#[trigger] blank_line_at(body + end + rest, j),
    ensures
        sse::frames(body + end + rest) == seq![body] + sse::frames(rest),
        sse::residue(body + end + rest) == sse::residue(rest),
{
    let buf = body + end + rest;
    let n = body.len() as int;
    assert forall|k: int| 0 <= k < end.len() implies #[trigger] buf[n + k] == end[k] by {}
    assert(buf[n + 0] == end[0] && buf[n + 1] == end[1]);
    if end.len() == 4 {
        assert(buf[n + 2] == end[2] && buf[n + 3] == end[3]);
    }
    lemma_separator_is_blank_line(buf, n);
    assert(sse::separator_len(buf, n) == end.len());
    assert forall|j: int| 0 <= j < n implies sse::separator_len(buf, j) == 0 by {
        lemma_separator_is_blank_line(buf, j);
        assert(!blank_line_at(buf, j));
    }
    sse::lemma_frame_end_is(buf, n);
    assert(buf.take(n) =~= body);
    assert(buf.skip(n + end.len()) =~= rest);
}

/// Bytes in which no blank line begins, closed by one in either form, are one
/// frame, and nothing remains.
pub proof fn lemma_a_closed_body_is_one_frame(body: Seq<u8>, end: Seq<u8>)
    requires
        end == seq![10u8, 10u8] || end == seq![13u8, 10u8, 13u8, 10u8],
        forall|j: int| 0 <= j < body.len() ==> !#[trigger] blank_line_at(body + end, j),
    ensures
        sse::frames(body + end) == seq![body],
        sse::residue(body + end) == Seq::<u8>::empty(),
{
    let none = Seq::<u8>::empty();
    assert(body + end + none =~= body + end);
    assert forall|i: int| !#[trigger] blank_line_at(none, i) by {}
    lemma_no_blank_line_no_frame(none);
    lemma_blank_line_closes_a_frame(body, end, none);
    assert(seq![body] + sse::frames(none) =~= seq![body]);
}

/// The two forms of the blank line frame alike: a body that has none and does
/// not end within a line break is the same single frame after either.
pub proof fn lemma_blank_line_forms_are_alike(body: Seq<u8>)
    requires
        forall|j: int| !#[trigger] blank_line_at(body, j),
        body.len() > 0 ==> body[body.len() - 1] != 10 && body[body.len() - 1] != 13,
    ensures
        sse::frames(body + seq![10u8, 10u8]) == seq![body],
        sse::residue(body + seq![10u8, 10u8]) == Seq::<u8>::empty(),
        sse::frames(body + seq![13u8, 10u8, 13u8, 10u8]) == seq![body],
        sse::residue(body + seq![13u8, 10u8, 13u8, 10u8]) == Seq::<u8>::empty(),
{
    lemma_no_blank_line_before(body, seq![10u8, 10u8]);
    lemma_a_closed_body_is_one_frame(body, seq![10u8, 10u8]);
    lemma_no_blank_line_before(body, seq![13u8, 10u8, 13u8, 10u8]);
    lemma_a_closed_body_is_one_frame(body, seq![13u8, 10u8, 13u8, 10u8]);
}

proof fn lemma_no_blank_line_before(body: Seq<u8>, end: Seq<u8>)
    requires
        forall|j: int| !#[trigger] blank_line_at(body, j),
        body.len() > 0 ==> body[body.len() - 1] != 10 && body[body.len() - 1] != 13,
    ensures
        forall|j: int| 0 <= j < body.len() ==> !#[trigger] blank_line_at(body + end, j),
{
    let n = body.len() as int;
    let buf = body + end;
    assert forall|j: int| 0 <= j < n implies !#[trigger] blank_line_at(buf, j) by {
        assert(!blank_line_at(body, j));
        assert(buf[j] == body[j]);
        assert(buf[n - 1] == body[n - 1]);
        if j + 1 < n {
            assert(buf[j + 1] == body[j + 1]);
        }
        if j + 2 < n {
            assert(buf[j + 2] == body[j + 2]);
        }
        if j + 3 < n {
            assert(buf[j + 3] == body[j + 3]);
        }
    }
}

// ---- lines ----------------------------------------------------------------

proof fn lemma_value_of(l: Seq<char>, v: Seq<char>)
    requires
        l == "data: "@ + v || (l == "data:"@ + v && (v.len() > 0 ==> v[0] != ' ')) || (l == "data"@
            && v.len() == 0),
    ensures
        sse::line_field(l) == "data"@,
        sse::line_value(l) == v,
{
    reveal_strlit("data: ");
    reveal_strlit("data:");
    reveal_strlit("data");
    if l == "data"@ && v.len() == 0 {
        text::lemma_first_index(l, ':');
        assert(v =~= Seq::empty());
    } else {
        assert(l[4] == ':');
        text::lemma_first_index_is(l, ':', 4);
        assert(l.take(4) =~= "data"@);
        if l == "data: "@ + v {
            assert(l.skip(5)[0] == ' ');
            assert(l.skip(5).skip(1) =~= v);
        } else {
            assert(l.skip(5) =~= v);
        }
    }
}

proof fn lemma_no_newline(l: Seq<char>, v: Seq<char>)
    requires
        !v.contains('\n'),
        l == "data: "@ + v || l == "data:"@ + v || l == "data"@,
    ensures
        !l.contains('\n'),
{
    reveal_strlit("data: ");
    reveal_strlit("data:");
    reveal_strlit("data");
    assert forall|k: int| 0 <= k < l.len() implies l[k] != '\n' by {
        if l == "data: "@ + v && k >= 6 {
            assert(l[k] == v[k - 6]);
        } else if l == "data:"@ + v && k >= 5 {
            assert(l[k] == v[k - 5]);
        }
    }
}

/// A `data` line says its value, whatever the value is: all that follows the
/// colon but for one space, and nothing where there is no colon. It says so
/// with either line break after it and at the end of the text, and the lines
/// after it say what they say without it.
pub proof fn lemma_data_lines_are_heard(l: Seq<char>, v: Seq<char>, rest: Seq<char>)
    requires
        !v.contains('\n'),
        l == "data: "@ + v || (l == "data:"@ + v && (v.len() > 0 ==> v[0] != ' ')) || (l == "data"@
            && v.len() == 0),
    ensures
        sse::data_values(l + seq!['\r', '\n'] + rest) == seq![v] + sse::data_values(rest),
        v.len() == 0 || v[v.len() - 1] != '\r' ==> sse::data_values(l + seq!['\n'] + rest) == seq![v]
            + sse::data_values(rest),
        sse::data_values(l) == seq![v],
{
    reveal_strlit("data: ");
    reveal_strlit("data:");
    reveal_strlit("data");
    lemma_value_of(l, v);
    lemma_no_newline(l, v);
    text_laws::lemma_lines_end_at_newlines(l, rest);
    if v.len() > 0 {
        assert(l.last() == v.last());
    }
    assert(sse::data_values(Seq::<char>::empty()) =~= Seq::empty());
    assert(seq![v] + sse::data_values(Seq::<char>::empty()) =~= seq![v]);
}

/// A line of any other field, a comment line and an empty line say nothing.
pub proof fn lemma_other_lines_are_silent(l: Seq<char>, rest: Seq<char>)
    requires
        !l.contains('\n'),
        l != "data"@,
        l.len() < 5 || l.take(5) != "data:"@,
    ensures
        sse::data_values(l + seq!['\r', '\n'] + rest) == sse::data_values(rest),
        l.len() == 0 || l[l.len() - 1] != '\r' ==> sse::data_values(l + seq!['\n'] + rest)
            == sse::data_values(rest),
        sse::data_values(l) == Seq::<Seq<char>>::empty(),
{
    reveal_strlit("data:");
    reveal_strlit("data");
    text_laws::lemma_lines_end_at_newlines(l, rest);
    text::lemma_first_index(l, ':');
    if let Some(i) = text::first_index(l, ':') {
        if l.take(i) == "data"@ {
            assert(l.take(i).len() == 4);
            assert(l.take(5) =~= l.take(4).push(l[4]));
            assert("data:"@ =~= "data"@.push(':'));
        }
    }
    assert(sse::line_field(l) != "data"@);
    assert(sse::data_values(Seq::<char>::empty()) =~= Seq::empty());
}

// ---- events ---------------------------------------------------------------

/// What a frame becomes. Bytes that are no text are handed on whole, with the
/// reason. A text that opens with a colon is a comment, kept whole. Any other
/// says its `data` lines, joined by newlines, or nothing where it has none.
/// The event counts every byte of the frame.
pub proof fn lemma_frames_become_events(bytes: Seq<u8>, t: Seq<char>)
    ensures
        !valid_utf8(bytes) ==> sse::events_of(seq![bytes]) == seq![
            SseEvent::<Seq<char>, Seq<u8>> {
                payload: SsePayload::Undecodable {
                    raw: bytes,
                    error: sse::utf8_error_text(bytes),
                },
                raw_byte_len: bytes.len() as usize,
            },
        ],
        bytes == encode_utf8(seq![':'] + t) ==> sse::events_of(seq![bytes]) == seq![
            SseEvent::<Seq<char>, Seq<u8>> {
                payload: SsePayload::Comment(seq![':'] + t),
                raw_byte_len: bytes.len() as usize,
            },
        ],
        bytes == encode_utf8(t) && !(t.len() > 0 && t[0] == ':') && sse::data_values(t).len() > 0
            ==> sse::events_of(seq![bytes]) == seq![
            SseEvent::<Seq<char>, Seq<u8>> {
                payload: SsePayload::Data(text::joined(sse::data_values(t), seq!['\n'])),
                raw_byte_len: bytes.len() as usize,
            },
        ],
        bytes == encode_utf8(t) && !(t.len() > 0 && t[0] == ':') && sse::data_values(t).len() == 0
            ==> sse::events_of(seq![bytes]) == Seq::<SseEvent<Seq<char>, Seq<u8>>>::empty(),
{
    sse::lemma_one_block(bytes);
    reveal_strlit("\n");
    assert("\n"@ =~= seq!['\n']);
    encode_utf8_valid_utf8(t);
    encode_utf8_decode_utf8(t);
    let c = seq![':'] + t;
    encode_utf8_valid_utf8(c);
    encode_utf8_decode_utf8(c);
}

/// The end of the stream closes whatever is pending, as one frame.
pub proof fn lemma_end_closes_what_is_pending(pending: Seq<u8>)
    ensures
        pending.len() > 0 ==> sse::final_block(pending) == seq![pending],
        pending.len() == 0 ==> sse::final_block(pending) == Seq::<Seq<u8>>::empty(),
{
}

} // verus!

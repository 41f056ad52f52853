//! Incremental Server-Sent Events reassembly with a bounded buffer.
//!
//! Network bytes arrive in arbitrary chunks; frames end at a blank line. The
//! parser buffers bytes until whole frames exist and hands those out. It knows
//! framing only, nothing of the text that the frames carry. One parser lives
//! per streaming call.
//!
//! Text is decoded on complete frames, never on raw chunks, and strictly: a
//! frame that is not UTF-8 is carried through as bytes.

use crate::text;
use vstd::prelude::*;
use vstd::slice::slice_subrange;
use vstd::utf8::*;

verus! {

/// What one complete frame contained.
///
/// `S` holds text and `B` holds bytes; specifications use sequences for both.
#[derive(Debug, Clone, PartialEq, Eq)]
pub enum SsePayload<S = String, B = Vec<u8>> {
    /// A frame that opens with `:`. Endpoints send these as keep-alive pings.
    Comment(S),
    /// The values of the `data` lines, joined with newlines.
    Data(S),
    /// A frame whose bytes are not valid UTF-8, carried through as evidence.
    Undecodable { raw: B, error: S },
}

/// One complete frame.
#[derive(Debug, Clone, PartialEq, Eq)]
pub struct SseEvent<S = String, B = Vec<u8>> {
    pub payload: SsePayload<S, B>,
    /// Frame size in bytes, terminator excluded.
    pub raw_byte_len: usize,
}

impl View for SsePayload {
    type V = SsePayload<Seq<char>, Seq<u8>>;

    open spec fn view(&self) -> SsePayload<Seq<char>, Seq<u8>> {
        match *self {
            SsePayload::Comment(t) => SsePayload::Comment(t@),
            SsePayload::Data(t) => SsePayload::Data(t@),
            SsePayload::Undecodable { raw, error } => SsePayload::Undecodable {
                raw: raw@,
                error: error@,
            },
        }
    }
}

impl View for SseEvent {
    type V = SseEvent<Seq<char>, Seq<u8>>;

    open spec fn view(&self) -> SseEvent<Seq<char>, Seq<u8>> {
        SseEvent { payload: self.payload@, raw_byte_len: self.raw_byte_len }
    }
}

/// The buffer bound was exceeded by bytes that complete no frame.
#[derive(Debug, Clone, Copy, PartialEq, Eq, Structural)]
pub struct SseOverflow {
    pub limit_bytes: usize,
}

/// The parser: bytes that complete no frame yet, and the bound on their number.
#[derive(Debug)]
pub struct SseParser {
    buf: Vec<u8>,
    limit_bytes: usize,
}

/// Default bound: 1 MiB, generous for chat frames.
pub const DEFAULT_BUF_LIMIT: usize = 1048576;

// ---- framing --------------------------------------------------------------

/// The blank line in LF form.
pub open spec fn lf_lf() -> Seq<u8> {
    seq![10u8, 10u8]
}

/// The blank line in CRLF form.
pub open spec fn crlf_crlf() -> Seq<u8> {
    seq![13u8, 10u8, 13u8, 10u8]
}

/// The length of the terminator that stands at position `i`, or 0.
pub open spec fn separator_len(buf: Seq<u8>, i: int) -> int {
    if text::occurs_at(buf, lf_lf(), i) {
        2
    } else if text::occurs_at(buf, crlf_crlf(), i) {
        4
    } else {
        0
    }
}

/// The first position at or after `i` where a terminator stands.
pub open spec fn frame_end_from(buf: Seq<u8>, i: int) -> Option<int>
    decreases buf.len() - i,
{
    if i >= buf.len() {
        None
    } else if separator_len(buf, i) > 0 {
        Some(i)
    } else {
        frame_end_from(buf, i + 1)
    }
}

/// Where the first frame in `buf` ends, if it has ended.
pub open spec fn frame_end(buf: Seq<u8>) -> Option<int> {
    frame_end_from(buf, 0)
}

/// The complete frames in `buf`, terminators excluded.
pub open spec fn frames(buf: Seq<u8>) -> Seq<Seq<u8>>
    decreases buf.len(),
{
    match frame_end(buf) {
        Some(i) => {
            proof {
                lemma_frame_end(buf);
            }
            seq![buf.take(i)] + frames(buf.skip(i + separator_len(buf, i)))
        },
        None => Seq::empty(),
    }
}

/// The terminators that closed those frames.
pub open spec fn separators(buf: Seq<u8>) -> Seq<Seq<u8>>
    decreases buf.len(),
{
    match frame_end(buf) {
        Some(i) => {
            proof {
                lemma_frame_end(buf);
            }
            seq![buf.subrange(i, i + separator_len(buf, i))] + separators(
                buf.skip(i + separator_len(buf, i)),
            )
        },
        None => Seq::empty(),
    }
}

/// The bytes of `buf` after its last complete frame.
pub open spec fn residue(buf: Seq<u8>) -> Seq<u8>
    decreases buf.len(),
{
    match frame_end(buf) {
        Some(i) => {
            proof {
                lemma_frame_end(buf);
            }
            residue(buf.skip(i + separator_len(buf, i)))
        },
        None => buf,
    }
}

/// `parts` with each followed by its terminator.
pub open spec fn terminated(parts: Seq<Seq<u8>>, ends: Seq<Seq<u8>>) -> Seq<u8>
    decreases parts.len(),
{
    if parts.len() == 0 || ends.len() == 0 {
        Seq::empty()
    } else {
        parts[0] + ends[0] + terminated(parts.skip(1), ends.skip(1))
    }
}

proof fn lemma_frame_end_from(buf: Seq<u8>, from: int)
    requires
        0 <= from,
    ensures
        match frame_end_from(buf, from) {
            Some(i) => from <= i && separator_len(buf, i) > 0 && i + separator_len(buf, i)
                <= buf.len() && (forall|j: int| from <= j < i ==> separator_len(buf, j) == 0),
            None => forall|j: int| from <= j ==> separator_len(buf, j) == 0,
        },
    decreases buf.len() - from,
{
    if from < buf.len() && separator_len(buf, from) == 0 {
        lemma_frame_end_from(buf, from + 1);
    }
}

/// The end of the first frame is the first position with a terminator, and
/// the terminator lies within the buffer.
pub proof fn lemma_frame_end(buf: Seq<u8>)
    ensures
        match frame_end(buf) {
            Some(i) => 0 <= i && separator_len(buf, i) > 0 && i + separator_len(buf, i) <= buf.len()
                && (forall|j: int| 0 <= j < i ==> separator_len(buf, j) == 0),
            None => forall|j: int| 0 <= j ==> separator_len(buf, j) == 0,
        },
{
    lemma_frame_end_from(buf, 0);
}

/// The first position with a terminator is where the first frame ends.
pub proof fn lemma_frame_end_is(buf: Seq<u8>, i: int)
    requires
        0 <= i,
        separator_len(buf, i) > 0,
        forall|j: int| 0 <= j < i ==> separator_len(buf, j) == 0,
    ensures
        frame_end(buf) == Some(i),
{
    lemma_frame_end(buf);
    assert(separator_len(buf, i) > 0);
}

// ---- what a frame says ----------------------------------------------------

/// The text of the error that `std::str::from_utf8` gives for bytes that are
/// not UTF-8.
pub uninterp spec fn utf8_error_text(bytes: Seq<u8>) -> Seq<char>;

/// `std::str::from_utf8`: valid UTF-8 decodes to the characters it encodes;
/// anything else is an error, whose text depends on the bytes alone.
#[verifier::external_body]
fn decode_text(bytes: &[u8]) -> (r: Result<String, String>)
    ensures
        match r {
            Ok(t) => valid_utf8(bytes@) && t@ == decode_utf8(bytes@),
            Err(e) => !valid_utf8(bytes@) && e@ == utf8_error_text(bytes@),
        },
{
    match std::str::from_utf8(bytes) {
        Ok(t) => Ok(t.to_string()),
        Err(e) => Err(e.to_string()),
    }
}

/// Decode bytes that are known to be UTF-8.
pub(crate) fn decode_valid(bytes: &[u8]) -> (r: String)
    requires
        valid_utf8(bytes@),
    ensures
        r@ == decode_utf8(bytes@),
{
    match decode_text(bytes) {
        Ok(t) => t,
        Err(e) => e,
    }
}

/// The field name on a line: what stands before the first colon.
pub open spec fn line_field(line: Seq<char>) -> Seq<char> {
    match text::first_index(line, ':') {
        Some(i) => line.take(i),
        None => line,
    }
}

/// The value on a line: what follows the first colon, without the one space
/// that may stand there.
pub open spec fn line_value(line: Seq<char>) -> Seq<char> {
    match text::first_index(line, ':') {
        Some(i) => {
            let v = line.skip(i + 1);
            if v.len() > 0 && v[0] == ' ' {
                v.skip(1)
            } else {
                v
            }
        },
        None => Seq::empty(),
    }
}

/// The values of the `data` lines of a frame, in order.
pub open spec fn data_values(t: Seq<char>) -> Seq<Seq<char>>
    decreases t.len(),
{
    if t.len() == 0 {
        Seq::empty()
    } else {
        proof {
            text::lemma_after_first_line_shrinks(t);
        }
        let line = text::first_line(t);
        let rest = data_values(text::after_first_line(t));
        if line_field(line) == "data"@ {
            seq![line_value(line)] + rest
        } else {
            rest
        }
    }
}

/// What a complete frame says, if it says anything.
pub open spec fn block_payload(bytes: Seq<u8>) -> Option<SsePayload<Seq<char>, Seq<u8>>> {
    if !valid_utf8(bytes) {
        Some(SsePayload::Undecodable { raw: bytes, error: utf8_error_text(bytes) })
    } else {
        let t = decode_utf8(bytes);
        if t.len() > 0 && t[0] == ':' {
            Some(SsePayload::Comment(t))
        } else if data_values(t).len() == 0 {
            None
        } else {
            Some(SsePayload::Data(text::joined(data_values(t), "\n"@)))
        }
    }
}

/// The event that a complete frame becomes.
pub open spec fn block_event(bytes: Seq<u8>) -> Option<SseEvent<Seq<char>, Seq<u8>>> {
    match block_payload(bytes) {
        Some(payload) => Some(SseEvent { payload, raw_byte_len: bytes.len() as usize }),
        None => None,
    }
}

/// The events of a run of complete frames, in order.
pub open spec fn events_of(blocks: Seq<Seq<u8>>) -> Seq<SseEvent<Seq<char>, Seq<u8>>>
    decreases blocks.len(),
{
    if blocks.len() == 0 {
        Seq::empty()
    } else {
        let before = events_of(blocks.drop_last());
        match block_event(blocks.last()) {
            Some(e) => before.push(e),
            None => before,
        }
    }
}

/// Executable events as the specification sees them.
pub open spec fn events_view(evs: Seq<SseEvent>) -> Seq<SseEvent<Seq<char>, Seq<u8>>> {
    evs.map_values(|e: SseEvent| e@)
}

/// The first position of `needle` in `hay`. An empty needle is never found.
fn find(hay: &[u8], needle: &[u8]) -> (r: Option<usize>)
    ensures
        match r {
            Some(i) => needle@.len() > 0 && text::occurs_at(hay@, needle@, i as int) && (forall|
                j: int,
            |
                0 <= j < i ==> !text::occurs_at(hay@, needle@, j)),
            None => needle@.len() == 0 || (forall|j: int| !text::occurs_at(hay@, needle@, j)),
        },
{
    if needle.len() == 0 || hay.len() < needle.len() {
        return None;
    }
    let last: usize = hay.len() - needle.len();
    let mut i: usize = 0;
    loop
        invariant
            needle@.len() > 0,
            last == hay@.len() - needle@.len(),
            i <= last,
            forall|j: int| 0 <= j < i ==> !text::occurs_at(hay@, needle@, j),
        decreases last - i,
    {
        assert(i + needle.len() <= hay.len());
        let mut k: usize = 0;
        while k < needle.len() && hay[i + k] == needle[k]
            invariant
                k <= needle@.len(),
                i + needle.len() <= hay.len(),
                forall|j: int| 0 <= j < k ==> hay@[i + j] == needle@[j],
            decreases needle@.len() - k,
        {
            k += 1;
        }
        if k == needle.len() {
            assert(hay@.subrange(i as int, i + needle@.len()) =~= needle@);
            return Some(i);
        }
        assert(!text::occurs_at(hay@, needle@, i as int)) by {
            assert(hay@[i + k] != needle@[k as int]);
            if text::occurs_at(hay@, needle@, i as int) {
                assert(hay@.subrange(i as int, i + needle@.len())[k as int] == hay@[i + k]);
            }
        }
        if i == last {
            assert forall|j: int| !text::occurs_at(hay@, needle@, j) by {
                if text::occurs_at(hay@, needle@, j) {
                    assert(j <= last);
                }
            }
            return None;
        }
        i += 1;
    }
}

/// Parse one complete frame, terminator excluded.
fn parse_block(bytes: &[u8]) -> (r: Option<SseEvent>)
    ensures
        match r {
            Some(e) => block_event(bytes@) == Some(e@),
            None => block_event(bytes@) is None,
        },
{
    let raw_byte_len: usize = bytes.len();
    let decoded = match decode_text(bytes) {
        Ok(t) => t,
        Err(error) => {
            return Some(
                SseEvent {
                    payload: SsePayload::Undecodable {
                        raw: vstd::slice::slice_to_vec(bytes),
                        error,
                    },
                    raw_byte_len,
                },
            );
        },
    };
    let all = text::chars_of(decoded.as_str());
    if all.len() > 0 && all[0] == ':' {
        return Some(SseEvent { payload: SsePayload::Comment(decoded), raw_byte_len });
    }
    let data_field = text::chars_of("data");
    let mut values: Ghost<Seq<Seq<char>>> = Ghost(Seq::empty());
    let mut data: String = String::new();
    let mut any: bool = false;
    let mut rest: &[char] = all.as_slice();
    assert(values@ + data_values(all@) =~= data_values(all@));
    while rest.len() > 0
        invariant
            data_field@ == "data"@,
            values@ + data_values(rest@) == data_values(all@),
            any == (values@.len() > 0),
            data@ == text::joined(values@, "\n"@),
        decreases rest@.len(),
    {
        proof {
            text::lemma_after_first_line_shrinks(rest@);
        }
        let ghost before = rest@;
        let (line, after) = text::next_line(rest);
        let (field, value) = match text::index_of(line, ':') {
            Some(i) => {
                assert(i < line.len());
                let mut v = slice_subrange(line, i + 1, line.len());
                assert(v@ =~= line@.skip(i + 1));
                if v.len() > 0 && v[0] == ' ' {
                    assert(v@.subrange(1, v@.len() as int) =~= v@.skip(1));
                    v = slice_subrange(v, 1, v.len());
                }
                let f = slice_subrange(line, 0, i);
                assert(f@ =~= line@.take(i as int));
                (f, v)
            },
            None => {
                let v = slice_subrange(line, line.len(), line.len());
                assert(v@ =~= Seq::<char>::empty());
                (line, v)
            },
        };
        assert(field@ == line_field(line@));
        assert(value@ == line_value(line@));
        if text::same_chars(field, data_field.as_slice()) {
            if any {
                data.append("\n");
            }
            data.append(text::string_of(value).as_str());
            proof {
                let more = values@.push(value@);
                assert(more.drop_last() =~= values@);
                assert(data@ =~= text::joined(more, "\n"@));
                assert(more + data_values(after@) =~= values@ + data_values(before));
                values@ = more;
            }
            any = true;
        }
        rest = after;
    }
    assert(values@ + data_values(rest@) =~= values@);
    if any {
        Some(SseEvent { payload: SsePayload::Data(data), raw_byte_len })
    } else {
        None
    }
}

impl SseParser {
    /// The bytes that complete no frame yet.
    pub closed spec fn pending(&self) -> Seq<u8> {
        self.buf@
    }

    /// The bound on the pending bytes.
    pub closed spec fn limit(&self) -> usize {
        self.limit_bytes
    }

    /// A parser with the default bound.
    pub fn new() -> (r: Self)
        ensures
            r.pending() == Seq::<u8>::empty(),
            r.limit() == DEFAULT_BUF_LIMIT,
    {
        Self::with_limit(DEFAULT_BUF_LIMIT)
    }

    /// A parser that holds at most `limit_bytes` pending bytes between pushes.
    pub fn with_limit(limit_bytes: usize) -> (r: Self)
        ensures
            r.pending() == Seq::<u8>::empty(),
            r.limit() == limit_bytes,
    {
        SseParser { buf: Vec::new(), limit_bytes }
    }

    /// Feed raw network bytes; receive every frame that they complete.
    ///
    /// The bound is tested after complete frames have left the buffer, so only
    /// a frameless remainder can exceed it.
    pub fn push(&mut self, chunk: &[u8]) -> (r: Result<Vec<SseEvent>, SseOverflow>)
        ensures
            final(self).limit() == old(self).limit(),
            final(self).pending() == residue(old(self).pending() + chunk@),
            match r {
                Ok(evs) => final(self).pending().len() <= final(self).limit() && events_view(evs@)
                    == events_of(frames(old(self).pending() + chunk@)),
                Err(o) => final(self).pending().len() > final(self).limit() && o.limit_bytes
                    == final(self).limit(),
            },
    {
        self.buf.extend_from_slice(chunk);
        let ghost all = self.buf@;
        assert(all =~= old(self).buf@ + chunk@);
        let mut out: Vec<SseEvent> = Vec::new();
        let mut done: Ghost<Seq<Seq<u8>>> = Ghost(Seq::empty());
        let mut start: usize = 0;
        assert(all.skip(0) =~= all);
        assert(done@ + frames(all) =~= frames(all));
        assert(events_view(out@) =~= events_of(done@));
        loop
            invariant
                self.buf@ == all,
                self.limit_bytes == old(self).limit_bytes,
                start <= all.len(),
                done@ + frames(all.skip(start as int)) == frames(all),
                residue(all.skip(start as int)) == residue(all),
                events_view(out@) == events_of(done@),
            ensures
                frame_end(all.skip(start as int)) is None,
            decreases all.len() - start,
        {
            let view = slice_subrange(self.buf.as_slice(), start, self.buf.len());
            assert(view@ =~= all.skip(start as int));
            let lf_needle: [u8; 2] = [10, 10];
            let crlf_needle: [u8; 4] = [13, 10, 13, 10];
            let lf = find(view, lf_needle.as_slice());
            let crlf = find(view, crlf_needle.as_slice());
            assert(lf_needle@ =~= lf_lf());
            assert(crlf_needle@ =~= crlf_crlf());
            proof {
                lemma_frame_end(view@);
                lemma_separators_differ(view@);
            }
            let (end, sep_len): (usize, usize) = match (lf, crlf) {
                (Some(a), Some(b)) => if b < a {
                    (b, 4)
                } else {
                    (a, 2)
                },
                (Some(a), None) => (a, 2),
                (None, Some(b)) => (b, 4),
                (None, None) => {
                    assert(frame_end(view@) is None);
                    break;
                },
            };
            proof {
                lemma_frame_end_is(view@, end as int);
                assert(sep_len == separator_len(view@, end as int));
            }
            let block = slice_subrange(view, 0, end);
            assert(block@ =~= view@.take(end as int));
            let ghost more = done@.push(block@);
            assert(more.drop_last() =~= done@);
            let ghost out_before = out@;
            if let Some(ev) = parse_block(block) {
                out.push(ev);
                assert(events_view(out@) =~= events_view(out_before).push(ev@));
            }
            proof {
                assert(view@.skip(end + sep_len) =~= all.skip(start + end + sep_len));
                assert(more + frames(all.skip(start + end + sep_len)) =~= done@ + frames(view@));
                done@ = more;
            }
            start = start + end + sep_len;
        }
        proof {
            assert(done@ + frames(all.skip(start as int)) =~= done@);
        }
        let rest = self.buf.split_off(start);
        assert(rest@ =~= all.skip(start as int));
        self.buf = rest;
        if self.buf.len() > self.limit_bytes {
            return Err(SseOverflow { limit_bytes: self.limit_bytes });
        }
        Ok(out)
    }

    /// The bound on the pending bytes.
    pub fn limit_bytes(&self) -> (r: usize)
        ensures
            r == self.limit(),
    {
        self.limit_bytes
    }

    /// Bytes currently buffered awaiting a terminator.
    pub fn buffered(&self) -> (r: usize)
        ensures
            r == self.pending().len(),
    {
        self.buf.len()
    }

    /// End the stream: the event that an unterminated last frame becomes, or
    /// else the bytes that became no event at all.
    pub fn finish_with_residue(self) -> (r: (Vec<SseEvent>, Vec<u8>))
        ensures
            events_view(r.0@) == events_of(final_block(self.pending())),
            r.1@ == (if block_event(self.pending()) is Some {
                Seq::<u8>::empty()
            } else {
                self.pending()
            }),
    {
        let rest = self.buf;
        let mut out: Vec<SseEvent> = Vec::new();
        assert(events_view(out@) =~= Seq::empty());
        if rest.len() == 0 {
            proof {
                lemma_empty_block();
                assert(rest@ =~= Seq::empty());
            }
            return (out, Vec::new());
        }
        proof {
            lemma_one_block(rest@);
        }
        match parse_block(rest.as_slice()) {
            Some(ev) => {
                out.push(ev);
                assert(events_view(out@) =~= seq![ev@]);
                (out, Vec::new())
            },
            None => (out, rest),
        }
    }

    /// End the stream: the event that an unterminated last frame becomes.
    pub fn finish(self) -> (r: Vec<SseEvent>)
        ensures
            events_view(r@) == events_of(final_block(self.pending())),
    {
        let (out, _) = self.finish_with_residue();
        out
    }
}

impl Default for SseParser {
    fn default() -> (r: Self)
        ensures
            r.pending() == Seq::<u8>::empty(),
            r.limit() == DEFAULT_BUF_LIMIT,
    {
        SseParser::with_limit(DEFAULT_BUF_LIMIT)
    }
}

/// The frames that end of stream closes: the pending bytes, if there are any.
pub open spec fn final_block(pending: Seq<u8>) -> Seq<Seq<u8>> {
    if pending.len() == 0 {
        Seq::empty()
    } else {
        seq![pending]
    }
}

/// The two terminators never stand at one position.
proof fn lemma_separators_differ(buf: Seq<u8>)
    ensures
        forall|i: int| !(text::occurs_at(buf, lf_lf(), i) && text::occurs_at(buf, crlf_crlf(), i)),
{
    assert forall|i: int| !(text::occurs_at(buf, lf_lf(), i) && text::occurs_at(
        buf,
        crlf_crlf(),
        i,
    )) by {
        if text::occurs_at(buf, lf_lf(), i) && text::occurs_at(buf, crlf_crlf(), i) {
            assert(buf.subrange(i, i + 2)[0] == 10);
            assert(buf.subrange(i, i + 4)[0] == 13);
        }
    }
}

/// An empty frame says nothing.
pub proof fn lemma_empty_block()
    ensures
        block_event(Seq::<u8>::empty()) is None,
{
    let t = decode_utf8(Seq::<u8>::empty());
    assert(t.len() == 0);
}

/// A single block gives its event, if it gives one.
pub proof fn lemma_one_block(bytes: Seq<u8>)
    ensures
        events_of(seq![bytes]) == (match block_event(bytes) {
            Some(e) => seq![e],
            None => Seq::empty(),
        }),
{
    let one = seq![bytes];
    assert(one.drop_last() =~= Seq::empty());
    assert(events_of(one.drop_last()) =~= Seq::empty());
    assert(one.last() == bytes);
    match block_event(bytes) {
        Some(e) => {
            assert(events_of(one) =~= seq![e]);
        },
        None => {
            assert(events_of(one) =~= Seq::empty());
        },
    }
}

} // verus!

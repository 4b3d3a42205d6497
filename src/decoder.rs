use crate::record::{append_bytes, lemma_utf8_keeps_newlines_out, record_bytes, record_frame};
use vstd::utf8::encode_utf8;
use crate::text::{ascii_bytes, decimal, padded_decimal, push_decimal_bytes, push_padded_decimal_bytes};
use chrono::{Datelike, TimeZone, Timelike};
use vstd::bytes::*;
use vstd::prelude::*;
use vstd::slice::slice_subrange;

verus! {

broadcast use Seq::lemma_flatten_push;

/// The newline byte that ends every record.
pub const NEWLINE: u8 = 10;

/// A calendar date and time of day, to the millisecond.
#[derive(Clone, Copy, Debug, PartialEq, Eq, Structural)]
pub struct CivilTime {
    pub year: i32,
    pub month: u32,
    pub day: u32,
    pub hour: u32,
    pub minute: u32,
    pub second: u32,
    pub millisecond: u32,
}

/// The calendar time, under a fixed offset from UTC in seconds, of an instant given in
/// milliseconds since the Unix epoch, or none when it cannot be represented.
pub uninterp spec fn local_time_of(millis: i64, offset_secs: i32) -> Option<CivilTime>;

/// Relies on chrono: FixedOffset::east_opt builds the offset, TimeZone::
/// timestamp_millis_opt places the instant, and the Datelike and Timelike accessors
/// read its fields; the result depends on the two numbers alone.
#[verifier::external_body]
fn local_time(millis: i64, offset_secs: i32) -> (r: Option<CivilTime>)
    ensures
        r == local_time_of(millis, offset_secs),
{
    match chrono::FixedOffset::east_opt(offset_secs) {
        Some(offset) => match offset.timestamp_millis_opt(millis) {
            chrono::MappedLocalTime::Single(t) => Some(CivilTime {
                year: t.year(), month: t.month(), day: t.day(),
                hour: t.hour(), minute: t.minute(), second: t.second(),
                millisecond: t.timestamp_subsec_millis(),
            }),
            chrono::MappedLocalTime::Ambiguous(_, _) => None,
            chrono::MappedLocalTime::None => None,
        },
        None => None,
    }
}

/// Relies on memchr::memchr: the index of the first occurrence of the byte, if any.
#[verifier::external_body]
fn find_byte(needle: u8, haystack: &[u8]) -> (r: Option<usize>)
    ensures
        r matches Some(i) ==> {
            &&& i < haystack@.len()
            &&& haystack@[i as int] == needle
            &&& forall|j: int| 0 <= j < i ==> haystack@[j] != needle
        },
        r is None ==> forall|j: int| 0 <= j < haystack@.len() ==> haystack@[j] != needle,
{
    memchr::memchr(needle, haystack)
}

/// A year as `{}` prints it: a minus sign before a negative one.
pub open spec fn signed_decimal(y: i32) -> Seq<char> {
    if y < 0 {
        seq!['-'] + decimal((-y) as nat)
    } else {
        decimal(y as nat)
    }
}

/// The prefix of a decoded line: `YYYY-MM-DD HH:MM:SS.mmm `, each field but the year
/// zero-padded.
pub open spec fn timestamp_prefix(t: CivilTime) -> Seq<u8> {
    date_text(t) + seq![32u8] + time_text(t) + seq![32u8]
}

/// `YYYY-MM-DD`.
pub open spec fn date_text(t: CivilTime) -> Seq<u8> {
    ascii_bytes(signed_decimal(t.year)) + seq![45u8] + ascii_bytes(
        padded_decimal(t.month as nat, 2),
    ) + seq![45u8] + ascii_bytes(padded_decimal(t.day as nat, 2))
}

/// `HH:MM:SS.mmm`.
pub open spec fn time_text(t: CivilTime) -> Seq<u8> {
    ascii_bytes(padded_decimal(t.hour as nat, 2)) + seq![58u8] + ascii_bytes(
        padded_decimal(t.minute as nat, 2),
    ) + seq![58u8] + ascii_bytes(padded_decimal(t.second as nat, 2)) + seq![46u8] + ascii_bytes(
        padded_decimal(t.millisecond as nat, 3),
    )
}

/// The prefix for a stored timestamp: empty when the instant has no calendar time
/// under the offset.
pub open spec fn prefix_for(timestamp: u64, offset_secs: i32) -> Seq<u8> {
    if timestamp > i64::MAX {
        Seq::empty()
    } else {
        match local_time_of(timestamp as i64, offset_secs) {
            Some(t) => timestamp_prefix(t),
            None => Seq::empty(),
        }
    }
}

/// The length of the line at the front of `s`: up to and including its first newline,
/// or all of `s` when it holds none.
pub open spec fn line_len(s: Seq<u8>) -> nat
    decreases s.len(),
{
    if s.len() == 0 {
        0
    } else if s[0] == NEWLINE {
        1
    } else {
        1 + line_len(s.drop_first())
    }
}

/// The text that a decompressed stream decodes to: for each record its prefix, then
/// its line copied through unchanged. A stream that ends inside a timestamp ends the
/// text there.
pub open spec fn render(s: Seq<u8>, offset_secs: i32) -> Seq<u8>
    decreases s.len(),
{
    if s.len() < 8 {
        Seq::empty()
    } else {
        let rest = s.subrange(8, s.len() as int);
        let n = line_len(rest);
        if n <= rest.len() {
            prefix_for(spec_u64_from_le_bytes(s.subrange(0, 8)), offset_secs) + rest.subrange(
                0,
                n as int,
            ) + render(rest.subrange(n as int, rest.len() as int), offset_secs)
        } else {
            Seq::empty()
        }
    }
}

/// The text that the rest `s` of a stream decodes to, from inside a line or after the
/// first bytes `pending` of a timestamp.
pub open spec fn render_from(in_line: bool, pending: Seq<u8>, s: Seq<u8>, offset_secs: i32) -> Seq<
    u8,
> {
    if in_line {
        let n = line_len(s);
        s.subrange(0, n as int) + render(s.subrange(n as int, s.len() as int), offset_secs)
    } else {
        render(pending + s, offset_secs)
    }
}

/// Whether a line holds no newline.
pub open spec fn single_line(line: Seq<u8>) -> bool {
    forall|j: int| 0 <= j < line.len() ==> line[j] != NEWLINE
}

/// The records `(timestamp, line)` one after the other.
pub open spec fn encode_records(records: Seq<(u64, Seq<u8>)>) -> Seq<u8> {
    records.map_values(|r: (u64, Seq<u8>)| record_frame(r.0, r.1)).flatten()
}

/// The text of the records: for each, its prefix, its line and a newline.
pub open spec fn rendered_records(records: Seq<(u64, Seq<u8>)>, offset_secs: i32) -> Seq<u8> {
    records.map_values(|r: (u64, Seq<u8>)| prefix_for(r.0, offset_secs) + r.1 + seq![NEWLINE]).flatten()
}

pub proof fn lemma_line_len_bound(s: Seq<u8>)
    ensures
        line_len(s) <= s.len(),
    decreases s.len(),
{
    if s.len() > 0 && s[0] != NEWLINE {
        lemma_line_len_bound(s.drop_first());
    }
}

/// A line that holds no newline runs into what follows it.
pub proof fn lemma_line_len_runs_on(a: Seq<u8>, b: Seq<u8>)
    requires
        single_line(a),
    ensures
        line_len(a + b) == a.len() + line_len(b),
    decreases a.len(),
{
    if a.len() > 0 {
        assert((a + b).drop_first() =~= a.drop_first() + b);
        assert((a + b)[0] == a[0]);
        lemma_line_len_runs_on(a.drop_first(), b);
    } else {
        assert(a + b =~= b);
    }
}

/// A line ends at its first newline.
pub proof fn lemma_line_len_stops(s: Seq<u8>, k: int)
    requires
        0 <= k < s.len(),
        s[k] == NEWLINE,
        forall|j: int| 0 <= j < k ==> s[j] != NEWLINE,
    ensures
        line_len(s) == k + 1,
    decreases k,
{
    if k > 0 {
        assert forall|j: int| 0 <= j < k - 1 implies s.drop_first()[j] != NEWLINE by {
            assert(s.drop_first()[j] == s[j + 1]);
        }
        lemma_line_len_stops(s.drop_first(), k - 1);
    }
}

/// The decoding of a stream of at least eight bytes: the prefix of its timestamp, then
/// the decoding from inside the first line.
pub proof fn lemma_render_record_start(head: Seq<u8>, s: Seq<u8>, offset_secs: i32)
    requires
        head.len() == 8,
    ensures
        render(head + s, offset_secs) == prefix_for(spec_u64_from_le_bytes(head), offset_secs)
            + render_from(true, Seq::empty(), s, offset_secs),
{
    let all = head + s;
    assert(all.subrange(8, all.len() as int) =~= s);
    assert(all.subrange(0, 8) =~= head);
    lemma_line_len_bound(s);
    assert(render(all, offset_secs) == prefix_for(spec_u64_from_le_bytes(head), offset_secs) + (
    s.subrange(0, line_len(s) as int) + render(
        s.subrange(line_len(s) as int, s.len() as int),
        offset_secs,
    )));
}

/// Inside a line, a chunk whose first newline is at `k` ends the line there.
proof fn lemma_line_step_found(c: Seq<u8>, k: int, t: Seq<u8>, offset_secs: i32)
    requires
        0 <= k < c.len(),
        c[k] == NEWLINE,
        forall|j: int| 0 <= j < k ==> c[j] != NEWLINE,
    ensures
        render_from(true, Seq::empty(), c + t, offset_secs) == c.subrange(0, k + 1)
            + render_from(false, Seq::empty(), c.subrange(k + 1, c.len() as int) + t, offset_secs),
{
    let s = c + t;
    lemma_line_len_stops(s, k);
    assert(s.subrange(0, k + 1) =~= c.subrange(0, k + 1));
    assert(s.subrange(k + 1, s.len() as int) =~= c.subrange(k + 1, c.len() as int) + t);
    assert(Seq::<u8>::empty() + (c.subrange(k + 1, c.len() as int) + t) =~= c.subrange(
        k + 1,
        c.len() as int,
    ) + t);
}

/// Inside a line, a chunk without newline is all part of it.
proof fn lemma_line_step_none(c: Seq<u8>, t: Seq<u8>, offset_secs: i32)
    requires
        single_line(c),
    ensures
        render_from(true, Seq::empty(), c + t, offset_secs) == c + render_from(
            true,
            Seq::empty(),
            t,
            offset_secs,
        ),
{
    let s = c + t;
    lemma_line_len_runs_on(c, t);
    lemma_line_len_bound(t);
    let n = line_len(t) as int;
    assert(s.subrange(0, c.len() + n) =~= c + t.subrange(0, n));
    assert(s.subrange(c.len() + n, s.len() as int) =~= t.subrange(n, t.len() as int));
}

/// The decoder's state between two chunks.
pub struct RecordDecoder {
    offset_secs: i32,
    pending: Vec<u8>,
    in_line: bool,
}

impl RecordDecoder {
    /// The offset from UTC, in seconds, under which timestamps are rendered.
    pub closed spec fn offset(&self) -> i32 {
        self.offset_secs
    }

    /// Whether the decoder is inside a line.
    pub closed spec fn in_line(&self) -> bool {
        self.in_line
    }

    /// The first bytes of a timestamp not yet complete.
    pub closed spec fn pending(&self) -> Seq<u8> {
        self.pending@
    }

    /// The invariant: a partial timestamp has fewer than eight bytes, and none is kept
    /// inside a line.
    pub closed spec fn wf(&self) -> bool {
        &&& self.pending@.len() < 8
        &&& self.in_line ==> self.pending@.len() == 0
    }

    /// The text that the rest `s` of the stream decodes to from this state.
    pub open spec fn rest_text(&self, s: Seq<u8>) -> Seq<u8> {
        render_from(self.in_line(), self.pending(), s, self.offset())
    }

    /// A decoder at the start of a stream, rendering timestamps under a fixed offset
    /// from UTC in seconds; none when the offset is a day or more.
    pub fn new(offset_secs: i32) -> (r: Option<RecordDecoder>)
        ensures
            r is Some <==> -86400 < offset_secs < 86400,
            r matches Some(d) ==> {
                &&& d.wf()
                &&& d.offset() == offset_secs
                &&& forall|s: Seq<u8>| #[trigger] d.rest_text(s) == render(s, offset_secs)
            },
    {
        if offset_secs <= -86400 || offset_secs >= 86400 {
            return None;
        }
        let d = RecordDecoder { offset_secs, pending: Vec::new(), in_line: false };
        assert forall|s: Seq<u8>| #[trigger] d.rest_text(s) == render(s, offset_secs) by {
            assert(Seq::<u8>::empty() + s =~= s);
        }
        Some(d)
    }

    /// Decodes the next chunk of the decompressed stream: the text it completes, which
    /// followed by the decoding of any rest is the decoding of the chunk and that rest.
    #[verifier::spinoff_prover]
    #[verifier::rlimit(30)]
    pub fn feed(&mut self, chunk: &[u8]) -> (out: Vec<u8>)
        requires
            old(self).wf(),
        ensures
            final(self).wf(),
            final(self).offset() == old(self).offset(),
            forall|t: Seq<u8>| #[trigger]
                old(self).rest_text(chunk@ + t) == out@ + final(self).rest_text(t),
    {
        let ghost start = *self;
        let n = chunk.len();
        let mut out: Vec<u8> = Vec::new();
        let mut i: usize = 0;
        assert forall|t: Seq<u8>| #[trigger]
            start.rest_text(chunk@ + t) == out@ + self.rest_text(
                chunk@.subrange(i as int, n as int) + t,
            ) by {
            assert(chunk@.subrange(0, n as int) =~= chunk@);
            assert(out@ + start.rest_text(chunk@ + t) =~= start.rest_text(chunk@ + t));
        }
        while i < n
            invariant
                n == chunk@.len(),
                i <= n,
                self.wf(),
                self.offset() == start.offset(),
                forall|t: Seq<u8>| #[trigger]
                    start.rest_text(chunk@ + t) == out@ + self.rest_text(
                        chunk@.subrange(i as int, n as int) + t,
                    ),
            decreases n - i,
        {
            let ghost before = *self;
            let ghost out_before = out@;
            let ghost c = chunk@.subrange(i as int, n as int);
            if self.in_line {
                let rest = slice_subrange(chunk, i, n);
                match find_byte(NEWLINE, rest) {
                    Some(k) => {
                        append_bytes(&mut out, slice_subrange(rest, 0, k + 1));
                        self.in_line = false;
                        i = i + k + 1;
                        proof {
                            assert forall|t: Seq<u8>| #[trigger]
                                start.rest_text(chunk@ + t) == out@ + self.rest_text(
                                    chunk@.subrange(i as int, n as int) + t,
                                ) by {
                                lemma_line_step_found(c, k as int, t, self.offset_secs);
                                assert(c.subrange(k + 1, c.len() as int) =~= chunk@.subrange(
                                    i as int,
                                    n as int,
                                ));
                                assert(before.rest_text(c + t) == render_from(
                                    true,
                                    Seq::empty(),
                                    c + t,
                                    self.offset_secs,
                                ));
                            }
                        }
                    },
                    None => {
                        append_bytes(&mut out, rest);
                        i = n;
                        proof {
                            assert forall|t: Seq<u8>| #[trigger]
                                start.rest_text(chunk@ + t) == out@ + self.rest_text(
                                    chunk@.subrange(i as int, n as int) + t,
                                ) by {
                                lemma_line_step_none(c, t, self.offset_secs);
                                assert(chunk@.subrange(i as int, n as int) + t =~= t);
                                assert(before.rest_text(c + t) == render_from(
                                    true,
                                    Seq::empty(),
                                    c + t,
                                    self.offset_secs,
                                ));
                                assert(self.rest_text(t) == render_from(
                                    true,
                                    Seq::empty(),
                                    t,
                                    self.offset_secs,
                                ));
                            }
                        }
                    },
                }
            } else {
                let need = 8 - self.pending.len();
                let take = if n - i < need {
                    n - i
                } else {
                    need
                };
                append_bytes(&mut self.pending, slice_subrange(chunk, i, i + take));
                i = i + take;
                if self.pending.len() == 8 {
                    let ghost head = self.pending@;
                    let timestamp = u64_from_le_bytes(self.pending.as_slice());
                    push_prefix(&mut out, timestamp, self.offset_secs);
                    self.pending.clear();
                    self.in_line = true;
                    proof {
                        assert forall|t: Seq<u8>| #[trigger]
                            start.rest_text(chunk@ + t) == out@ + self.rest_text(
                                chunk@.subrange(i as int, n as int) + t,
                            ) by {
                            let c2 = chunk@.subrange(i as int, n as int);
                            assert(before.pending() + (c + t) =~= head + (c2 + t));
                            lemma_render_record_start(head, c2 + t, self.offset_secs);
                        }
                    }
                } else {
                    proof {
                        assert(i == n);
                        assert forall|t: Seq<u8>| #[trigger]
                            start.rest_text(chunk@ + t) == out@ + self.rest_text(
                                chunk@.subrange(i as int, n as int) + t,
                            ) by {
                            assert(before.pending() + (c + t) =~= self.pending@ + (
                            chunk@.subrange(i as int, n as int) + t));
                        }
                    }
                }
            }
        }
        proof {
            assert forall|t: Seq<u8>| #[trigger]
                start.rest_text(chunk@ + t) == out@ + self.rest_text(t) by {
                assert(chunk@.subrange(n as int, n as int) + t =~= t);
            }
        }
        out
    }

    /// The text that the end of the stream completes: none, since a stream that stops
    /// inside a timestamp ends the text there and a line in progress was already
    /// copied through.
    pub fn finish(&self) -> (out: Vec<u8>)
        requires
            self.wf(),
        ensures
            out@ == self.rest_text(Seq::empty()),
    {
        proof {
            if !self.in_line {
                assert(self.pending@ + Seq::<u8>::empty() =~= self.pending@);
            }
        }
        Vec::new()
    }
}

/// The views of some chunks.
pub open spec fn chunk_views(chunks: Seq<Vec<u8>>) -> Seq<Seq<u8>> {
    chunks.map_values(|c: Vec<u8>| c@)
}

/// Decodes a decompressed stream that arrives in `chunks`: the text is that of the
/// chunks joined, however the stream was split; none when the offset is a day or more.
pub fn decode_stream(chunks: &Vec<Vec<u8>>, offset_secs: i32) -> (r: Option<Vec<u8>>)
    ensures
        r is Some <==> -86400 < offset_secs < 86400,
        r matches Some(text) ==> text@ == render(chunk_views(chunks@).flatten(), offset_secs),
{
    let mut decoder = match RecordDecoder::new(offset_secs) {
        Some(d) => d,
        None => {
            return None;
        },
    };
    let ghost start = decoder;
    let mut text: Vec<u8> = Vec::new();
    let mut i: usize = 0;
    assert(chunk_views(chunks@).subrange(0, 0).flatten() =~= Seq::<u8>::empty());
    while i < chunks.len()
        invariant
            i <= chunks@.len(),
            decoder.wf(),
            decoder.offset() == offset_secs,
            forall|s: Seq<u8>| #[trigger] start.rest_text(s) == render(s, offset_secs),
            forall|t: Seq<u8>| #[trigger]
                start.rest_text(chunk_views(chunks@).subrange(0, i as int).flatten() + t) == text@
                    + decoder.rest_text(t),
        decreases chunks@.len() - i,
    {
        let ghost before = decoder;
        let ghost text_before = text@;
        let out = decoder.feed(chunks[i].as_slice());
        let ghost done = chunk_views(chunks@).subrange(0, i as int);
        let ghost c = chunks@[i as int]@;
        append_bytes(&mut text, out.as_slice());
        i = i + 1;
        proof {
            assert(chunk_views(chunks@).subrange(0, i as int) =~= done.push(c));
            assert forall|t: Seq<u8>| #[trigger]
                start.rest_text(chunk_views(chunks@).subrange(0, i as int).flatten() + t) == text@
                    + decoder.rest_text(t) by {
                assert(done.push(c).flatten() + t =~= done.flatten() + (c + t));
                assert(before.rest_text(c + t) == out@ + decoder.rest_text(t));
                assert(text@ + decoder.rest_text(t) =~= text_before + (out@ + decoder.rest_text(t)));
            }
        }
    }
    let tail = decoder.finish();
    append_bytes(&mut text, tail.as_slice());
    proof {
        let all = chunk_views(chunks@).flatten();
        assert(chunk_views(chunks@).subrange(0, i as int) =~= chunk_views(chunks@));
        assert(all + Seq::<u8>::empty() =~= all);
        assert(start.rest_text(all) == render(all, offset_secs));
    }
    Some(text)
}

/// Records whose lines hold no newline decode, under any offset, to their prefixes and
/// lines in the order written: every line comes back byte for byte.
pub proof fn lemma_records_render(records: Seq<(u64, Seq<u8>)>, offset_secs: i32)
    requires
        forall|i: int| 0 <= i < records.len() ==> single_line(#[trigger] records[i].1),
    ensures
        render(encode_records(records), offset_secs) == rendered_records(records, offset_secs),
    decreases records.len(),
{
    if records.len() > 0 {
        let r = records[0];
        let rest = records.drop_first();
        assert forall|i: int| 0 <= i < rest.len() implies single_line(#[trigger] rest[i].1) by {
            assert(rest[i] == records[i + 1]);
        }
        lemma_records_render(rest, offset_secs);
        let f = |r: (u64, Seq<u8>)| record_frame(r.0, r.1);
        let g = |r: (u64, Seq<u8>)| prefix_for(r.0, offset_secs) + r.1 + seq![NEWLINE];
        assert(records.map_values(f).drop_first() =~= rest.map_values(f));
        assert(records.map_values(g).drop_first() =~= rest.map_values(g));
        assert(encode_records(records) == record_frame(r.0, r.1) + encode_records(rest));
        assert(rendered_records(records, offset_secs) == prefix_for(r.0, offset_secs) + r.1
            + seq![NEWLINE] + rendered_records(rest, offset_secs));
        lemma_record_then(r.0, r.1, encode_records(rest), offset_secs);
    }
}

/// However the records' stream is split into chunks, the chunks joined decode to the
/// records' prefixes and lines in the order written.
pub proof fn lemma_split_records_render(
    records: Seq<(u64, Seq<u8>)>,
    chunks: Seq<Seq<u8>>,
    offset_secs: i32,
)
    requires
        forall|i: int| 0 <= i < records.len() ==> single_line(#[trigger] records[i].1),
        chunks.flatten() == encode_records(records),
    ensures
        render(chunks.flatten(), offset_secs) == rendered_records(records, offset_secs),
{
    lemma_records_render(records, offset_secs);
}

/// The records `(timestamp, text)` one after the other, as a client sends them.
pub open spec fn client_records(records: Seq<(u64, Seq<char>)>) -> Seq<u8> {
    records.map_values(|r: (u64, Seq<char>)| record_bytes(r.0, r.1)).flatten()
}

/// The records with their texts in UTF-8.
pub open spec fn utf8_records(records: Seq<(u64, Seq<char>)>) -> Seq<(u64, Seq<u8>)> {
    records.map_values(|r: (u64, Seq<char>)| (r.0, encode_utf8(r.1)))
}

/// Text lines without newline that a client sends as records decode, under any
/// offset, to their prefixes and their UTF-8 lines, in the order sent.
pub proof fn lemma_client_records_render(records: Seq<(u64, Seq<char>)>, offset_secs: i32)
    requires
        forall|i: int| 0 <= i < records.len() ==> !(#[trigger] records[i].1).contains('\n'),
    ensures
        render(client_records(records), offset_secs) == rendered_records(
            utf8_records(records),
            offset_secs,
        ),
{
    let u = utf8_records(records);
    assert forall|i: int| 0 <= i < u.len() implies single_line(#[trigger] u[i].1) by {
        lemma_utf8_keeps_newlines_out(records[i].1);
    }
    assert(records.map_values(|r: (u64, Seq<char>)| record_bytes(r.0, r.1)) =~= u.map_values(
        |r: (u64, Seq<u8>)| record_frame(r.0, r.1),
    ));
    lemma_records_render(u, offset_secs);
}

/// A record followed by more of the stream decodes to its prefix and line, then the
/// decoding of what follows.
pub proof fn lemma_record_then(timestamp: u64, line: Seq<u8>, rest: Seq<u8>, offset_secs: i32)
    requires
        single_line(line),
    ensures
        render(record_frame(timestamp, line) + rest, offset_secs) == prefix_for(
            timestamp,
            offset_secs,
        ) + line + seq![NEWLINE] + render(rest, offset_secs),
{
    lemma_auto_spec_u64_to_from_le_bytes();
    let head = spec_u64_to_le_bytes(timestamp);
    let body = line + seq![NEWLINE] + rest;
    assert(record_frame(timestamp, line) + rest =~= head + body);
    lemma_render_record_start(head, body, offset_secs);
    lemma_line_len_runs_on(line, seq![NEWLINE] + rest);
    lemma_line_len_stops(seq![NEWLINE] + rest, 0);
    assert(body =~= line + (seq![NEWLINE] + rest));
    let n = line.len() + 1int;
    assert(body.subrange(0, n) =~= line + seq![NEWLINE]);
    assert(body.subrange(n, body.len() as int) =~= rest);
}

/// A record whose timestamp has no calendar time under the offset still decodes to its
/// line, byte for byte, only without a prefix.
pub proof fn lemma_unrepresentable_timestamp(
    timestamp: u64,
    line: Seq<u8>,
    rest: Seq<u8>,
    offset_secs: i32,
)
    requires
        single_line(line),
        timestamp > i64::MAX || local_time_of(timestamp as i64, offset_secs) is None,
    ensures
        render(record_frame(timestamp, line) + rest, offset_secs) == line + seq![NEWLINE] + render(
            rest,
            offset_secs,
        ),
{
    lemma_record_then(timestamp, line, rest, offset_secs);
    assert(prefix_for(timestamp, offset_secs) =~= Seq::<u8>::empty());
    assert(Seq::<u8>::empty() + line =~= line);
}

/// Appends the prefix for a stored timestamp.
fn push_prefix(out: &mut Vec<u8>, timestamp: u64, offset_secs: i32)
    ensures
        final(out)@ == old(out)@ + prefix_for(timestamp, offset_secs),
{
    if timestamp > i64::MAX as u64 {
        assert(old(out)@ + Seq::<u8>::empty() =~= old(out)@);
        return;
    }
    match local_time(timestamp as i64, offset_secs) {
        Some(t) => push_timestamp_prefix(out, &t),
        None => {
            assert(old(out)@ + Seq::<u8>::empty() =~= old(out)@);
        },
    }
}

/// Appends `YYYY-MM-DD HH:MM:SS.mmm `.
fn push_timestamp_prefix(out: &mut Vec<u8>, t: &CivilTime)
    ensures
        final(out)@ == old(out)@ + timestamp_prefix(*t),
{
    let ghost start = out@;
    push_date(out, t);
    out.push(32u8);
    push_time(out, t);
    out.push(32u8);
    assert(out@ =~= start + timestamp_prefix(*t));
}

/// Appends `YYYY-MM-DD`.
fn push_date(out: &mut Vec<u8>, t: &CivilTime)
    ensures
        final(out)@ == old(out)@ + date_text(*t),
{
    let ghost start = out@;
    if t.year < 0 {
        out.push(45u8);
        let y: u64 = (-(t.year as i64)) as u64;
        push_decimal_bytes(out, y);
        assert(ascii_bytes(signed_decimal(t.year)) =~= seq![45u8] + ascii_bytes(
            decimal((-t.year) as nat),
        ));
    } else {
        push_decimal_bytes(out, t.year as u64);
    }
    let ghost a = out@;
    assert(a =~= start + ascii_bytes(signed_decimal(t.year)));
    out.push(45u8);
    push_padded_decimal_bytes(out, t.month as u64, 2);
    out.push(45u8);
    push_padded_decimal_bytes(out, t.day as u64, 2);
    assert(out@ =~= start + date_text(*t));
}

/// Appends `HH:MM:SS.mmm`.
fn push_time(out: &mut Vec<u8>, t: &CivilTime)
    ensures
        final(out)@ == old(out)@ + time_text(*t),
{
    let ghost start = out@;
    push_padded_decimal_bytes(out, t.hour as u64, 2);
    out.push(58u8);
    push_padded_decimal_bytes(out, t.minute as u64, 2);
    out.push(58u8);
    push_padded_decimal_bytes(out, t.second as u64, 2);
    out.push(46u8);
    push_padded_decimal_bytes(out, t.millisecond as u64, 3);
    assert(out@ =~= start + time_text(*t));
}

} // verus!

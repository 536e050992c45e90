//! Byte-stream framing for the transport-as-writer adapters: bytes come in,
//! complete lines come out as records, and the rest waits.

use vstd::prelude::*;

use crate::log_query::LogRecord;
use crate::strings::{first_sep, lemma_first_sep_found};
use vstd::utf8::encode_utf8;

verus! {

pub open spec fn nl() -> u8 {
    10
}

pub open spec fn cr() -> u8 {
    13
}

/// A byte string with trailing carriage returns and line feeds removed.
pub open spec fn trim_line_end(s: Seq<u8>) -> Seq<u8>
    decreases s.len(),
{
    if s.len() > 0 && (s.last() == nl() || s.last() == cr()) {
        trim_line_end(s.drop_last())
    } else {
        s
    }
}

/// The complete lines of a byte string: everything before the last newline,
/// split at newlines; each line keeps its bytes untrimmed.
pub open spec fn line_chunks(s: Seq<u8>) -> Seq<Seq<u8>>
    decreases s.len(),
{
    let f = first_sep(s, nl());
    if f < 0 || f >= s.len() {
        Seq::empty()
    } else {
        seq![s.take(f)] + line_chunks(s.skip(f + 1))
    }
}

/// What remains after the last newline.
pub open spec fn line_rest(s: Seq<u8>) -> Seq<u8>
    decreases s.len(),
{
    let f = first_sep(s, nl());
    if f < 0 || f >= s.len() {
        s
    } else {
        line_rest(s.skip(f + 1))
    }
}

/// The emitted lines: each complete line with its end trimmed.
pub open spec fn emitted_lines(s: Seq<u8>) -> Seq<Seq<u8>> {
    Seq::new(line_chunks(s).len(), |i: int| trim_line_end(line_chunks(s)[i]))
}

/// An accumulator that turns an incoming byte stream into lines: bytes of a
/// partial line wait in the buffer, which therefore never holds a newline.
pub struct LineBuffer {
    pub buf: Vec<u8>,
}

pub open spec fn no_newline(s: Seq<u8>) -> bool {
    forall|i: int| 0 <= i < s.len() ==> s[i] != nl()
}

impl LineBuffer {
    /// An empty accumulator.
    pub fn new() -> (r: LineBuffer)
        ensures
            r.buf@.len() == 0,
    {
        LineBuffer { buf: Vec::new() }
    }

    /// Take in a chunk of bytes; every line completed by it comes back, in
    /// order and trimmed, and the partial tail stays buffered.
    pub fn push_bytes(&mut self, bytes: &[u8]) -> (r: Vec<Vec<u8>>)
        requires
            no_newline(old(self).buf@),
        ensures
            r@.map_values(|v: Vec<u8>| v@) =~= emitted_lines(old(self).buf@ + bytes@),
            final(self).buf@ == line_rest(old(self).buf@ + bytes@),
            no_newline(final(self).buf@),
    {
        let ghost total = self.buf@ + bytes@;
        let mut out: Vec<Vec<u8>> = Vec::new();
        let mut i: usize = 0;
        proof {
            assert(self.buf@ + bytes@.skip(0) =~= total);
        }
        while i < bytes.len()
            invariant
                i <= bytes@.len(),
                no_newline(self.buf@),
                emitted_lines(total) =~= out@.map_values(|v: Vec<u8>| v@) + emitted_lines(
                    self.buf@ + bytes@.skip(i as int),
                ),
                line_rest(total) == line_rest(self.buf@ + bytes@.skip(i as int)),
            decreases bytes.len() - i,
        {
            let b = bytes[i];
            let ghost cur = self.buf@ + bytes@.skip(i as int);
            if b == 10 {
                let ghost blen = self.buf@.len() as int;
                let ghost oldbuf = self.buf@;
                proof {
                    lemma_first_sep_found(cur, nl(), blen);
                    assert(cur.take(blen) =~= oldbuf);
                    assert(cur.skip(blen + 1) =~= bytes@.skip(i + 1));
                    lemma_emitted_cons(cur, blen);
                    assert(emitted_lines(cur) =~= seq![trim_line_end(oldbuf)] + emitted_lines(
                        bytes@.skip(i + 1),
                    ));
                }
                let mut line: Vec<u8> = Vec::new();
                core::mem::swap(&mut line, &mut self.buf);
                trim_tail(&mut line);
                let ghost before = out@;
                out.push(line);
                proof {
                    assert(line@ == trim_line_end(oldbuf));
                    assert(out@.map_values(|v: Vec<u8>| v@) =~= before.map_values(
                        |v: Vec<u8>| v@,
                    ).push(line@));
                    assert(self.buf@ + bytes@.skip(i + 1) =~= bytes@.skip(i + 1));
                }
            } else {
                self.buf.push(b);
                proof {
                    assert(self.buf@ + bytes@.skip(i + 1) =~= cur);
                }
            }
            i = i + 1;
        }
        proof {
            assert(self.buf@ + bytes@.skip(bytes@.len() as int) =~= self.buf@);
            lemma_no_newline_whole(self.buf@);
            assert(out@.map_values(|v: Vec<u8>| v@) + emitted_lines(self.buf@)
                =~= out@.map_values(|v: Vec<u8>| v@));
        }
        out
    }

    /// Take the buffered partial line, if any; the buffer empties.
    pub fn take_rest(&mut self) -> (r: Option<Vec<u8>>)
        ensures
            match r {
                Some(v) => old(self).buf@.len() > 0 && v@ == old(self).buf@,
                None => old(self).buf@.len() == 0,
            },
            final(self).buf@.len() == 0,
    {
        if self.buf.len() == 0 {
            return None;
        }
        let mut rest: Vec<u8> = Vec::new();
        core::mem::swap(&mut rest, &mut self.buf);
        Some(rest)
    }
}

/// A string without newlines has no complete lines and is all rest.
proof fn lemma_no_newline_whole(s: Seq<u8>)
    requires
        no_newline(s),
    ensures
        line_chunks(s).len() == 0,
        emitted_lines(s).len() == 0,
        line_rest(s) == s,
{
    lemma_first_sep_found(s, nl(), s.len() as int);
}

/// With no newline before position `f` and a newline at it, the first line
/// and the rest decompose there.
proof fn lemma_emitted_cons(s: Seq<u8>, f: int)
    requires
        0 <= f < s.len(),
        forall|j: int| 0 <= j < f ==> s[j] != nl(),
        s[f] == nl(),
    ensures
        line_chunks(s) =~= seq![s.take(f)] + line_chunks(s.skip(f + 1)),
        emitted_lines(s) =~= seq![trim_line_end(s.take(f))] + emitted_lines(s.skip(f + 1)),
        line_rest(s) == line_rest(s.skip(f + 1)),
{
    lemma_first_sep_found(s, nl(), f);
    let rest = s.skip(f + 1);
    assert forall|k: int| 0 <= k < emitted_lines(s).len() implies emitted_lines(s)[k] == (
        seq![trim_line_end(s.take(f))] + emitted_lines(rest)
    )[k] by {
        if k > 0 {
            assert(line_chunks(s)[k] == line_chunks(rest)[k - 1]);
        }
    }
}

/// Remove trailing carriage returns and line feeds in place.
fn trim_tail(line: &mut Vec<u8>)
    ensures
        final(line)@ == trim_line_end(old(line)@),
{
    while line.len() > 0 && (line[line.len() - 1] == 10 || line[line.len() - 1] == 13)
        invariant
            trim_line_end(line@) == trim_line_end(old(line)@),
        decreases line.len(),
    {
        let _ = line.pop();
    }
}


/// The byte stream a list of messages writes: each message's UTF-8 bytes
/// followed by one newline.
pub open spec fn rendered_lines(msgs: Seq<Seq<char>>) -> Seq<u8>
    decreases msgs.len(),
{
    if msgs.len() == 0 {
        Seq::empty()
    } else {
        rendered_lines(msgs.drop_last()) + encode_utf8(msgs.last()) + seq![10u8]
    }
}

/// The messages of a list of records, in order.
pub open spec fn messages_of(records: Seq<LogRecord>) -> Seq<Seq<char>> {
    Seq::new(records.len(), |i: int| records[i]@.message)
}

/// Render a batch of records for a byte sink: one line per record.
pub fn render_batch(records: &Vec<LogRecord>) -> (r: Vec<u8>)
    ensures
        r@ == rendered_lines(messages_of(records@)),
{
    let ghost msgs = messages_of(records@);
    let mut out: Vec<u8> = Vec::new();
    let mut i: usize = 0;
    while i < records.len()
        invariant
            i <= records@.len(),
            msgs == messages_of(records@),
            msgs.len() == records@.len(),
            forall|j: int| 0 <= j < records@.len() ==> msgs[j] == records@[j]@.message,
            out@ =~= rendered_lines(msgs.take(i as int)),
        decreases records.len() - i,
    {
        proof {
            assert(msgs.take(i + 1).drop_last() =~= msgs.take(i as int));
            assert(msgs.take(i + 1).last() == msgs[i as int]);
        }
        let bs = records[i].message.as_str().as_bytes();
        let ghost base = out@;
        let mut k: usize = 0;
        while k < bs.len()
            invariant
                k <= bs@.len(),
                bs@ == encode_utf8(records@[i as int]@.message),
                i < records@.len(),
                out@ =~= base + bs@.take(k as int),
            decreases bs.len() - k,
        {
            out.push(bs[k]);
            k = k + 1;
        }
        proof {
            assert(bs@.take(bs@.len() as int) =~= bs@);
        }
        out.push(10);
        proof {
            assert(out@ =~= rendered_lines(msgs.take(i + 1)));
        }
        i = i + 1;
    }
    proof {
        assert(msgs.take(msgs.len() as int) =~= msgs);
    }
    out
}

} // verus!

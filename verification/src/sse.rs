//! The streaming-chat line parser: splits a byte stream into lines,
//! recognises `data:` frames, keep-alive comments, bare JSON lines and the
//! DONE sentinel, and forwards each frame's incremental content.

use vstd::prelude::*;
use crate::json::{get_spec, json_parse_of, parse_json, JsonVal, JsonValue};
use crate::strutil;

verus! {

/// The incremental content of one parsed frame: the string under
/// `choices[0].delta.content`, when the frame has that shape.
pub open spec fn delta_content(v: JsonVal) -> Option<Seq<char>> {
    match get_spec(v, "choices"@) {
        Some(c) => match c {
            JsonVal::Arr(items) => if items.len() > 0 {
                match get_spec(items[0], "delta"@) {
                    Some(d) => match get_spec(d, "content"@) {
                        Some(inner) => match inner {
                            JsonVal::Str(cs) => Some(cs),
                            _ => None,
                        },
                        _ => None,
                    },
                    None => None,
                }
            } else {
                None
            },
            _ => None,
        },
        None => None,
    }
}

/// The content a payload contributes: nothing when it is not JSON or has
/// no incremental content.
pub open spec fn delta_of(payload: Seq<char>) -> Option<Seq<char>> {
    match json_parse_of(payload) {
        Some(v) => delta_content(v),
        None => None,
    }
}

/// What one complete line contributes: the chunks it forwards (none or
/// one) and whether it ends the stream. Blank lines and `:` comments are
/// skipped; a `data:` frame carries its payload, `[DONE]` ends the
/// stream; any other line is tolerated as a bare JSON frame.
pub open spec fn line_effect(raw: Seq<char>) -> (Seq<Seq<char>>, bool) {
    let line = strutil::trim_spec(raw);
    if line.len() == 0 || line[0] == ':' {
        (Seq::empty(), false)
    } else if "data:"@.is_prefix_of(line) {
        let payload = strutil::trim_spec(line.subrange(5, line.len() as int));
        if payload == "[DONE]"@ {
            (Seq::empty(), true)
        } else {
            match delta_of(payload) {
                Some(c) => (seq![c], false),
                None => (Seq::<Seq<char>>::empty(), false),
            }
        }
    } else {
        match delta_of(line) {
            Some(c) => (seq![c], false),
            None => (Seq::<Seq<char>>::empty(), false),
        }
    }
}

/// The complete lines of `s` (with `cur` the line begun so far), and what
/// remains after the last newline.
pub open spec fn split_lines_acc(s: Seq<char>, cur: Seq<char>) -> (Seq<Seq<char>>, Seq<char>)
    decreases s.len(),
{
    if s.len() == 0 {
        (Seq::empty(), cur)
    } else if s[0] == '\n' {
        let (ls, r) = split_lines_acc(s.subrange(1, s.len() as int), Seq::empty());
        (seq![cur].add(ls), r)
    } else {
        split_lines_acc(s.subrange(1, s.len() as int), cur.push(s[0]))
    }
}

/// The chunks a sequence of complete lines forwards: each line contributes
/// its frame's delta content in order, and nothing is forwarded once a
/// DONE sentinel has been seen.
pub open spec fn lines_out(lines: Seq<Seq<char>>, done: bool) -> Seq<Seq<char>>
    decreases lines.len(),
{
    if lines.len() == 0 {
        Seq::empty()
    } else {
        let (cs, d) = if done {
            (Seq::<Seq<char>>::empty(), done)
        } else {
            line_effect(lines[0])
        };
        cs.add(lines_out(lines.subrange(1, lines.len() as int), done || d))
    }
}

/// Whether a DONE sentinel stands in `lines` (given the flag before them).
pub open spec fn lines_done(lines: Seq<Seq<char>>, done: bool) -> bool
    decreases lines.len(),
{
    if lines.len() == 0 {
        done
    } else {
        let d = if done {
            true
        } else {
            line_effect(lines[0]).1
        };
        lines_done(lines.subrange(1, lines.len() as int), done || d)
    }
}

/// What feeding a text does: the chunks forwarded, the unfinished line
/// kept for the next read, and whether the stream has ended.
pub open spec fn sse_text_out(s: Seq<char>, cur: Seq<char>, done: bool) -> (
    Seq<Seq<char>>,
    Seq<char>,
    bool,
)
    decreases s.len(),
{
    if s.len() == 0 {
        (Seq::empty(), cur, done)
    } else if s[0] == '\n' {
        let (cs, d) = if done {
            (Seq::<Seq<char>>::empty(), done)
        } else {
            line_effect(cur)
        };
        let (rest, rbuf, rdone) = sse_text_out(s.subrange(1, s.len() as int), Seq::empty(), done
            || d);
        (cs.add(rest), rbuf, rdone)
    } else {
        sse_text_out(s.subrange(1, s.len() as int), cur.push(s[0]), done)
    }
}

/// Text processing forwards exactly what its complete lines forward: the
/// concatenated output of a fed text is the lines' delta contents in
/// order, with nothing after a DONE sentinel.
pub proof fn lemma_text_out_is_lines_out(s: Seq<char>, cur: Seq<char>, done: bool)
    ensures
        sse_text_out(s, cur, done).0 == lines_out(split_lines_acc(s, cur).0, done),
        sse_text_out(s, cur, done).1 == split_lines_acc(s, cur).1,
        sse_text_out(s, cur, done).2 == lines_done(split_lines_acc(s, cur).0, done),
    decreases s.len(),
{
    if s.len() == 0 {
    } else if s[0] == '\n' {
        let (cs, d) = if done {
            (Seq::<Seq<char>>::empty(), done)
        } else {
            line_effect(cur)
        };
        lemma_text_out_is_lines_out(s.subrange(1, s.len() as int), Seq::empty(), done || d);
        let (ls, r) = split_lines_acc(s.subrange(1, s.len() as int), Seq::empty());
        let lines = seq![cur].add(ls);
        assert(lines[0] == cur);
        assert(lines.subrange(1, lines.len() as int) =~= ls);
    } else {
        lemma_text_out_is_lines_out(s.subrange(1, s.len() as int), cur.push(s[0]), done);
    }
}

/// All the chunk sequences joined into one text.
pub open spec fn concat_all(ss: Seq<Seq<char>>) -> Seq<char>
    decreases ss.len(),
{
    if ss.len() == 0 {
        Seq::empty()
    } else {
        ss[0].add(concat_all(ss.subrange(1, ss.len() as int)))
    }
}

/// The concatenation form of the forwarding law: over any fed text, the
/// concatenation of all forwarded chunks is the concatenation of the delta
/// contents its complete frames carry, in order, with nothing contributed
/// after a DONE sentinel.
pub proof fn lemma_sse_concatenation(s: Seq<char>, cur: Seq<char>, done: bool)
    ensures
        concat_all(sse_text_out(s, cur, done).0) == concat_all(
            lines_out(split_lines_acc(s, cur).0, done),
        ),
{
    lemma_text_out_is_lines_out(s, cur, done);
}

// ---------------------------------------------------------------------------
// Executable parser
// ---------------------------------------------------------------------------

/// Extract `choices[0].delta.content` from a frame's JSON text.
fn extract_delta(payload: &str) -> (r: Option<String>)
    ensures
        match r {
            Some(c) => delta_of(payload@) == Some(c@),
            None => delta_of(payload@) is None,
        },
{
    let v = match parse_json(payload) {
        Some(v) => v,
        None => {
            return None;
        },
    };
    let choices = match v.get("choices") {
        Some(c) => c,
        None => {
            return None;
        },
    };
    let first = match choices.arr_get(0) {
        Some(f) => f,
        None => {
            return None;
        },
    };
    let delta = match first.get("delta") {
        Some(d) => d,
        None => {
            return None;
        },
    };
    let content = match delta.get("content") {
        Some(c) => c,
        None => {
            return None;
        },
    };
    match content.as_str() {
        Some(s) => Some(s.clone()),
        None => None,
    }
}

/// Classify one complete line and compute what it forwards.
fn apply_line(raw: &str) -> (r: (Option<String>, bool))
    ensures
        ({
            let (cs, d) = line_effect(raw@);
            (match r.0 {
                Some(c) => cs == seq![c@],
                None => cs.len() == 0,
            }) && r.1 == d
        }),
{
    proof {
        reveal_strlit("data:");
    }
    let line = strutil::trim(raw);
    let n = line.as_str().unicode_len();
    if n == 0 || line.as_str().get_char(0) == ':' {
        return (None, false);
    }
    if strutil::starts_with(line.as_str(), "data:") {
        let tail = strutil::substring(line.as_str(), 5, n);
        let payload = strutil::trim(tail.as_str());
        if strutil::eq_str(payload.as_str(), "[DONE]") {
            return (None, true);
        }
        return (extract_delta(payload.as_str()), false);
    }
    (extract_delta(line.as_str()), false)
}

/// The streaming parser: an unfinished line carried between reads, and
/// whether the DONE sentinel has been seen.
pub struct SseParser {
    pub buffer: String,
    pub done: bool,
}

impl SseParser {
    /// The carried buffer never holds a newline.
    pub open spec fn wf(&self) -> bool {
        forall|j: int| 0 <= j < self.buffer@.len() ==> self.buffer@[j] != '\n'
    }

    /// A fresh parser.
    pub fn new() -> (r: SseParser)
        ensures
            r.wf(),
            r.buffer@.len() == 0,
            !r.done,
    {
        SseParser { buffer: String::new(), done: false }
    }

    /// Feed one chunk of the byte stream; the returned chunks are exactly
    /// what its newly completed lines forward, in order, with nothing
    /// forwarded once `[DONE]` has been seen.
    pub fn feed(&mut self, chunk: &str) -> (out: Vec<String>)
        requires
            old(self).wf(),
        ensures
            final(self).wf(),
            ({
                let (cs, rbuf, rdone) = sse_text_out(
                    chunk@,
                    old(self).buffer@,
                    old(self).done,
                );
                out@.map_values(|c: String| c@) == cs && final(self).buffer@ == rbuf
                    && final(self).done == rdone
            }),
    {
        let ghost target = sse_text_out(chunk@, self.buffer@, self.done);
        let n = chunk.unicode_len();
        let mut out: Vec<String> = Vec::new();
        let mut cur = self.buffer.clone();
        let mut i: usize = 0;
        proof {
            assert(chunk@.subrange(0, n as int) =~= chunk@);
            assert(out@.map_values(|c: String| c@) =~= Seq::<Seq<char>>::empty());
            assert(Seq::<Seq<char>>::empty().add(target.0) =~= target.0);
        }
        while i < n
            invariant
                n == chunk@.len(),
                i <= n,
                forall|j: int| 0 <= j < cur@.len() ==> cur@[j] != '\n',
                ({
                    let (cs, rbuf, rdone) = sse_text_out(
                        chunk@.subrange(i as int, n as int),
                        cur@,
                        self.done,
                    );
                    out@.map_values(|c: String| c@).add(cs) == target.0 && rbuf == target.1
                        && rdone == target.2
                }),
            decreases n - i,
        {
            let ghost pre = out@.map_values(|c: String| c@);
            let ghost curv = cur@;
            let ghost was_done = self.done;
            let ghost rem = chunk@.subrange(i as int, n as int);
            proof {
                assert(rem[0] == chunk@[i as int]);
                assert(rem.subrange(1, rem.len() as int) =~= chunk@.subrange(i + 1, n as int));
            }
            let c = chunk.get_char(i);
            if c == '\n' {
                if !self.done {
                    let (piece, d) = apply_line(cur.as_str());
                    if let Some(p) = piece {
                        out.push(p);
                        proof {
                            assert(out@.map_values(|c: String| c@) =~= pre.push(out@.last()@));
                        }
                    }
                    if d {
                        self.done = true;
                    }
                }
                cur = String::new();
                proof {
                    assert(cur@ =~= Seq::<char>::empty());
                    let (cs0, d0) = if was_done {
                        (Seq::<Seq<char>>::empty(), was_done)
                    } else {
                        line_effect(curv)
                    };
                    assert(self.done == (was_done || d0));
                    assert(out@.map_values(|c: String| c@) =~= pre.add(cs0));
                    let rest = sse_text_out(
                        chunk@.subrange(i + 1, n as int),
                        Seq::<char>::empty(),
                        self.done,
                    );
                    assert(pre.add(cs0).add(rest.0) =~= pre.add(cs0.add(rest.0)));
                    assert(out@.map_values(|c: String| c@).add(rest.0) =~= target.0);
                }
            } else {
                strutil::push_char(&mut cur, c);
            }
            i += 1;
        }
        proof {
            assert(chunk@.subrange(i as int, n as int).len() == 0);
            assert(out@.map_values(|c: String| c@).add(Seq::<Seq<char>>::empty())
                =~= out@.map_values(|c: String| c@));
        }
        self.buffer = cur;
        out
    }
}

} // verus!

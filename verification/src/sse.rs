use vstd::prelude::*;
use crate::text::{push_str, str_eq};

verus! {

/// The text of bytes read as UTF-8, each invalid sequence replaced by
/// U+FFFD (`String::from_utf8_lossy`).
pub uninterp spec fn lossy_utf8(b: Seq<u8>) -> Seq<char>;

/// Calls `String::from_utf8_lossy`, which gives the decoded text of valid
/// UTF-8 as it is.
#[verifier::external_body]
pub(crate) fn utf8_lossy(b: &[u8]) -> (r: String)
    ensures
        r@ == lossy_utf8(b@),
        vstd::utf8::valid_utf8(b@) ==> r@ == vstd::utf8::decode_utf8(b@),
{
    String::from_utf8_lossy(b).into_owned()
}

/// The position of the first line feed of `b`.
pub open spec fn first_newline(b: Seq<u8>) -> Option<int>
    decreases b.len(),
{
    if b.len() == 0 {
        None
    } else if b[0] == 10u8 {
        Some(0)
    } else {
        match first_newline(b.drop_first()) {
            Some(i) => Some(i + 1),
            None => None,
        }
    }
}

pub proof fn lemma_first_newline(b: Seq<u8>)
    ensures
        match first_newline(b) {
            Some(i) => 0 <= i < b.len() && b[i] == 10u8 && forall|k: int| 0 <= k < i ==> b[k] != 10u8,
            None => forall|k: int| 0 <= k < b.len() ==> b[k] != 10u8,
        },
    decreases b.len(),
{
    if b.len() > 0 && b[0] != 10u8 {
        lemma_first_newline(b.drop_first());
        assert forall|k: int| 0 < k < b.len() implies b[k] == b.drop_first()[k - 1] by {}
    }
}

/// The complete lines of `b` (each without its line feed), in order.
pub open spec fn complete_lines(b: Seq<u8>) -> Seq<Seq<u8>>
    decreases b.len(),
{
    match first_newline(b) {
        Some(i) => {
            proof {
                lemma_first_newline(b);
            }
            seq![b.take(i)] + complete_lines(b.skip(i + 1))
        },
        None => Seq::empty(),
    }
}

/// What follows the last line feed of `b`: the start of a line not yet
/// complete.
pub open spec fn unfinished_line(b: Seq<u8>) -> Seq<u8>
    decreases b.len(),
{
    match first_newline(b) {
        Some(i) => {
            proof {
                lemma_first_newline(b);
            }
            unfinished_line(b.skip(i + 1))
        },
        None => b,
    }
}

/// A line without its trailing carriage return.
pub open spec fn strip_cr(l: Seq<u8>) -> Seq<u8> {
    if l.len() > 0 && l.last() == 13u8 {
        l.drop_last()
    } else {
        l
    }
}

/// The text of a line of the stream.
pub open spec fn line_text(l: Seq<u8>) -> Seq<char> {
    lossy_utf8(strip_cr(l))
}

/// The event being read: its type (empty for the default), its data lines
/// joined by line feeds, and whether a data line came.
pub type SseStateV = (Seq<char>, Seq<char>, bool);

/// A field line split at its first colon, one space after the colon
/// dropped; a line without colon is a field with an empty value.
pub open spec fn field_of(line: Seq<char>) -> (Seq<char>, Seq<char>) {
    match crate::bedrock::first_index_of(line, ':') {
        Some(i) => {
            let v = line.skip(i + 1);
            (line.take(i), if v.len() > 0 && v[0] == ' ' {
                v.drop_first()
            } else {
                v
            })
        },
        None => (line, Seq::empty()),
    }
}

/// One line of an event stream: a blank line ends the event (handing it
/// on, with type `message` by default, when it has data); a line starting
/// with a colon is a comment; `event` sets the type; `data` adds a data
/// line; other fields are ignored.
pub open spec fn sse_line(st: SseStateV, line: Seq<char>) -> (SseStateV, Seq<(Seq<char>, Seq<char>)>) {
    if line.len() == 0 {
        let msgs = if st.2 {
            seq![(if st.0.len() == 0 {
                "message"@
            } else {
                st.0
            }, st.1)]
        } else {
            Seq::empty()
        };
        ((Seq::empty(), Seq::empty(), false), msgs)
    } else if line[0] == ':' {
        (st, Seq::empty())
    } else {
        let (f, v) = field_of(line);
        if f == "event"@ {
            ((v, st.1, st.2), Seq::empty())
        } else if f == "data"@ {
            ((st.0, if st.2 {
                st.1 + "\n"@ + v
            } else {
                v
            }, true), Seq::empty())
        } else {
            (st, Seq::empty())
        }
    }
}

/// The state after lines, and the events they completed, in order.
pub open spec fn sse_lines(st: SseStateV, lines: Seq<Seq<char>>) -> (SseStateV, Seq<(Seq<char>, Seq<char>)>)
    decreases lines.len(),
{
    if lines.len() == 0 {
        (st, Seq::empty())
    } else {
        let (s1, m1) = sse_lines(st, lines.drop_last());
        let (s2, m2) = sse_line(s1, lines.last());
        (s2, m1 + m2)
    }
}

/// An event of the stream: its type and its data.
pub struct SseMessage {
    pub event: String,
    pub data: String,
}

impl View for SseMessage {
    type V = (Seq<char>, Seq<char>);

    open spec fn view(&self) -> (Seq<char>, Seq<char>) {
        (self.event@, self.data@)
    }
}

/// Reads a server-sent event stream chunk by chunk.
pub struct SseDecoder {
    pending: Vec<u8>,
    event: String,
    data: String,
    has_data: bool,
}

impl SseDecoder {
    /// The bytes of the line not yet complete.
    pub closed spec fn spec_pending(&self) -> Seq<u8> {
        self.pending@
    }

    /// The event being read.
    pub closed spec fn spec_state(&self) -> SseStateV {
        (self.event@, self.data@, self.has_data)
    }

    /// A decoder at the start of a stream.
    pub fn new() -> (r: Self)
        ensures
            r.spec_pending().len() == 0,
            r.spec_state() == (Seq::<char>::empty(), Seq::<char>::empty(), false),
    {
        SseDecoder { pending: Vec::new(), event: String::new(), data: String::new(), has_data: false }
    }

    fn take_line(&mut self, line: &str) -> (r: Option<SseMessage>)
        ensures
            ({
                let (st, msgs) = sse_line(old(self).spec_state(), line@);
                &&& final(self).spec_state() == st
                &&& final(self).pending == old(self).pending
                &&& match r {
                    Some(m) => msgs == seq![m@],
                    None => msgs.len() == 0,
                }
            }),
    {
        proof {
            reveal_strlit("message");
            reveal_strlit("event");
            reveal_strlit("data");
            reveal_strlit("\n");
        }
        let v = crate::text::chars_of(line);
        if v.len() == 0 {
            let r = if self.has_data {
                let event = if self.event.as_str().is_empty() {
                    "message".to_owned()
                } else {
                    self.event.clone()
                };
                let mut data = String::new();
                std::mem::swap(&mut data, &mut self.data);
                Some(SseMessage { event, data })
            } else {
                None
            };
            self.event = String::new();
            self.data = String::new();
            self.has_data = false;
            return r;
        }
        if v[0] == ':' {
            return None;
        }
        let mut colon: Option<usize> = None;
        let mut i: usize = 0;
        while i < v.len()
            invariant_except_break
                colon is None,
            invariant
                i <= v@.len(),
                v@ == line@,
                forall|k: int| 0 <= k < i ==> v@[k] != ':',
            ensures
                match colon {
                    Some(c) => c < v@.len() && v@[c as int] == ':' && forall|k: int|
                        0 <= k < c ==> v@[k] != ':',
                    None => forall|k: int| 0 <= k < v@.len() ==> v@[k] != ':',
                },
            decreases v.len() - i,
        {
            if v[i] == ':' {
                colon = Some(i);
                break;
            }
            i = i + 1;
        }
        proof {
            crate::bedrock::lemma_first_index_of(line@, ':');
        }
        let mut field = String::new();
        let mut value = String::new();
        match colon {
            Some(c) => {
                let mut k: usize = 0;
                while k < c
                    invariant
                        k <= c < v@.len(),
                        v@ == line@,
                        field@ == v@.take(k as int),
                    decreases c - k,
                {
                    crate::text::push_char(&mut field, v[k]);
                    assert(v@.take(k + 1) =~= v@.take(k as int).push(v@[k as int]));
                    k = k + 1;
                }
                let mut start = c + 1;
                if start < v.len() && v[start] == ' ' {
                    start = start + 1;
                }
                let mut k: usize = start;
                while k < v.len()
                    invariant
                        start <= k <= v@.len(),
                        v@ == line@,
                        value@ == v@.subrange(start as int, k as int),
                    decreases v.len() - k,
                {
                    crate::text::push_char(&mut value, v[k]);
                    assert(v@.subrange(start as int, k + 1) =~= v@.subrange(start as int, k as int).push(
                        v@[k as int],
                    ));
                    k = k + 1;
                }
                assert(field@ == field_of(line@).0);
                assert(value@ =~= field_of(line@).1);
            },
            None => {
                field = line.to_owned();
                assert(field@ == field_of(line@).0);
                assert(value@ =~= field_of(line@).1);
            },
        }
        if str_eq(field.as_str(), "event") {
            self.event = value;
        } else if str_eq(field.as_str(), "data") {
            if self.has_data {
                push_str(&mut self.data, "\n");
                push_str(&mut self.data, value.as_str());
            } else {
                self.data = value;
            }
            self.has_data = true;
        }
        None
    }

    /// Takes a chunk of the stream: the complete lines of the pending bytes
    /// and the chunk are read, as `sse_lines` describes, and the events they
    /// complete are handed on; the rest of the bytes wait for the next
    /// chunk.
    pub fn feed(&mut self, chunk: &[u8]) -> (r: Vec<SseMessage>)
        ensures
            ({
                let all = old(self).spec_pending() + chunk@;
                let (st, msgs) = sse_lines(
                    old(self).spec_state(),
                    complete_lines(all).map_values(|l: Seq<u8>| line_text(l)),
                );
                &&& final(self).spec_state() == st
                &&& final(self).spec_pending() == unfinished_line(all)
                &&& r@.map_values(|m: SseMessage| m@) == msgs
            }),
    {
        let mut buf: Vec<u8> = Vec::new();
        std::mem::swap(&mut buf, &mut self.pending);
        let mut j: usize = 0;
        while j < chunk.len()
            invariant
                j <= chunk@.len(),
                buf@ == old(self).pending@ + chunk@.take(j as int),
            decreases chunk.len() - j,
        {
            buf.push(chunk[j]);
            assert(chunk@.take(j + 1) =~= chunk@.take(j as int).push(chunk@[j as int]));
            j = j + 1;
        }
        assert(chunk@.take(chunk@.len() as int) =~= chunk@);
        let ghost all = buf@;
        let ghost st0 = self.spec_state();
        let mut out: Vec<SseMessage> = Vec::new();
        let mut start: usize = 0;
        let ghost mut done: Seq<Seq<u8>> = Seq::empty();
        assert(all.skip(0) =~= all);
        let mut i: usize = 0;
        while i < buf.len()
            invariant
                buf@ == all,
                start <= i <= all.len(),
                forall|k: int| start <= k < i ==> all[k] != 10u8,
                complete_lines(all) == done + complete_lines(all.skip(start as int)),
                unfinished_line(all) == unfinished_line(all.skip(start as int)),
                (self.spec_state(), out@.map_values(|m: SseMessage| m@)) == sse_lines(
                    st0,
                    done.map_values(|l: Seq<u8>| line_text(l)),
                ),
                self.pending@.len() == 0,
            decreases all.len() - i,
        {
            if buf[i] == 10u8 {
                let ghost rest = all.skip(start as int);
                proof {
                    lemma_first_newline(rest);
                    assert(first_newline(rest) == Some((i - start) as int)) by {
                        first_newline_at(rest, (i - start) as int);
                    }
                    assert(rest.skip(i - start + 1) =~= all.skip(i + 1));
                    assert(rest.take(i - start) =~= all.subrange(start as int, i as int));
                }
                let mut end = i;
                if end > start && buf[end - 1] == 13u8 {
                    end = end - 1;
                }
                let slice = byte_range(&buf, start, end);
                assert(slice@ == strip_cr(all.subrange(start as int, i as int)));
                let line = utf8_lossy(slice.as_slice());
                let ghost prev_out = out@.map_values(|m: SseMessage| m@);
                match self.take_line(line.as_str()) {
                    Some(m) => {
                        out.push(m);
                    },
                    None => {},
                }
                proof {
                    let line_b = all.subrange(start as int, i as int);
                    let d2 = done.push(line_b);
                    assert(d2.map_values(|l: Seq<u8>| line_text(l)).drop_last() =~= done.map_values(
                        |l: Seq<u8>| line_text(l),
                    ));
                    assert(out@.map_values(|m: SseMessage| m@) =~= prev_out + sse_line(
                        sse_lines(st0, done.map_values(|l: Seq<u8>| line_text(l))).0,
                        line_text(line_b),
                    ).1);
                    assert(complete_lines(all) =~= d2 + complete_lines(all.skip(i + 1)));
                    done = d2;
                }
                start = i + 1;
            }
            i = i + 1;
        }
        proof {
            let rest = all.skip(start as int);
            lemma_first_newline(rest);
            assert(forall|k: int| 0 <= k < rest.len() ==> rest[k] == all[start + k]);
            assert(first_newline(rest) is None);
            assert(done + complete_lines(rest) =~= done);
        }
        let tail = byte_range(&buf, start, buf.len());
        self.pending = tail;
        assert(self.pending@ =~= all.skip(start as int));
        out
    }
}

fn byte_range(b: &Vec<u8>, from: usize, to: usize) -> (r: Vec<u8>)
    requires
        from <= to <= b@.len(),
    ensures
        r@ == b@.subrange(from as int, to as int),
{
    let mut r: Vec<u8> = Vec::new();
    let mut k: usize = from;
    while k < to
        invariant
            from <= k <= to <= b@.len(),
            r@ == b@.subrange(from as int, k as int),
        decreases to - k,
    {
        r.push(b[k]);
        assert(b@.subrange(from as int, k + 1) =~= b@.subrange(from as int, k as int).push(b@[k as int]));
        k = k + 1;
    }
    r
}

proof fn first_newline_at(b: Seq<u8>, i: int)
    requires
        0 <= i < b.len(),
        b[i] == 10u8,
        forall|k: int| 0 <= k < i ==> b[k] != 10u8,
    ensures
        first_newline(b) == Some(i),
    decreases i,
{
    if i > 0 {
        assert forall|k: int| 0 <= k < i - 1 implies b.drop_first()[k] != 10u8 by {
            assert(b.drop_first()[k] == b[k + 1]);
        }
        first_newline_at(b.drop_first(), i - 1);
    }
}

} // verus!

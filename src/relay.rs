use vstd::prelude::*;

use crate::text::{chars_of, copy_range, find_char, find_from, trim, trim_chars, string_of_chars};

verus! {

/// One notification to the user interface: a text fragment, whether the
/// stream is over, and an error message.
#[derive(Debug, Clone)]
pub struct StreamChunk {
    pub content: String,
    pub done: bool,
    pub error: Option<String>,
}

/// Mathematical value of a [`StreamChunk`].
pub struct ChunkModel {
    pub content: Seq<char>,
    pub done: bool,
    pub error: Option<Seq<char>>,
}

pub open spec fn opt_text(s: Option<String>) -> Option<Seq<char>> {
    match s {
        Some(x) => Some(x@),
        None => None,
    }
}

impl View for StreamChunk {
    type V = ChunkModel;

    open spec fn view(&self) -> ChunkModel {
        ChunkModel { content: self.content@, done: self.done, error: opt_text(self.error) }
    }
}

pub open spec fn chunks_view(v: Seq<StreamChunk>) -> Seq<ChunkModel> {
    v.map_values(|c: StreamChunk| c@)
}

/// The text fragment at `choices[0].delta.content` of a JSON event payload,
/// when the payload parses and holds a string there.
pub uninterp spec fn delta_content(data: Seq<char>) -> Option<Seq<char>>;

/// The text `String::from_utf8_lossy` makes of some bytes.
pub uninterp spec fn lossy_text(b: Seq<u8>) -> Seq<char>;

/// Relies on `serde_json::from_str` into `serde_json::Value`, its indexing
/// and `Value::as_str`: the string at `choices[0].delta.content`, if any.
#[verifier::external_body]
fn json_delta(data: &str) -> (r: Option<String>)
    ensures
        opt_text(r) == delta_content(data@),
{
    let v: serde_json::Value = match serde_json::from_str(data) {
        Ok(v) => v,
        Err(_) => return None,
    };
    match v["choices"][0]["delta"]["content"].as_str() {
        Some(s) => Some(s.to_string()),
        None => None,
    }
}

/// Relies on `String::from_utf8_lossy`: the bytes decoded, each invalid
/// sequence replaced by U+FFFD.
#[verifier::external_body]
pub(crate) fn decode_lossy(b: &[u8]) -> (r: String)
    ensures
        r@ == lossy_text(b@),
{
    String::from_utf8_lossy(b).into_owned()
}

/// Prefix of an event-stream data line.
pub const DATA_PREFIX: &'static str = "data: ";

/// Payload that ends the stream.
pub const DONE_MARKER: &'static str = "[DONE]";

/// What one trimmed line of the event stream asks for.
#[derive(Debug)]
pub enum LineEvent {
    /// Nothing: an empty line, or one that is no data line.
    Skip,
    /// The end marker.
    Done,
    /// A data payload.
    Data(String),
}

pub open spec fn prefix_spec() -> Seq<char> {
    seq!['d', 'a', 't', 'a', ':', ' ']
}

pub open spec fn marker_spec() -> Seq<char> {
    seq!['[', 'D', 'O', 'N', 'E', ']']
}

/// The payload of a trimmed data line, if it is one.
pub open spec fn payload(t: Seq<char>) -> Option<Seq<char>> {
    if t.len() >= 6 && t.subrange(0, 6) == prefix_spec() {
        Some(t.subrange(6, t.len() as int))
    } else {
        None
    }
}

pub open spec fn done_chunk() -> ChunkModel {
    ChunkModel { content: Seq::empty(), done: true, error: None }
}

pub open spec fn text_chunk(c: Seq<char>) -> ChunkModel {
    ChunkModel { content: c, done: false, error: None }
}

/// Complete lines of `buf` from index `i` on, relayed: the chunks emitted
/// (after `out`), the text left waiting for its newline, and whether the end
/// marker was seen (which discards everything after it).
pub open spec fn drain_from(buf: Seq<char>, i: int, out: Seq<ChunkModel>) -> (Seq<ChunkModel>, Seq<
    char,
>, bool)
    decreases buf.len() - i,
{
    let k = find_from(buf, '\n', i);
    if !(0 <= i <= k && k < buf.len()) {
        (out, buf.subrange(i, buf.len() as int), false)
    } else {
        let t = trim(buf.subrange(i, k));
        match payload(t) {
            None => drain_from(buf, k + 1, out),
            Some(d) => if d == marker_spec() {
                (out.push(done_chunk()), Seq::empty(), true)
            } else {
                match delta_content(d) {
                    Some(c) => drain_from(buf, k + 1, out.push(text_chunk(c))),
                    None => drain_from(buf, k + 1, out),
                }
            },
        }
    }
}

/// State of a relay: text waiting for its newline, and whether the
/// terminal chunk has been emitted.
pub struct RelayModel {
    pub buffer: Seq<char>,
    pub complete: bool,
}

/// The chunks one piece of text makes, and the state after it. Once the
/// relay is complete nothing more is emitted.
pub open spec fn feed_spec(st: RelayModel, text: Seq<char>) -> (Seq<ChunkModel>, RelayModel) {
    if st.complete {
        (Seq::empty(), st)
    } else {
        let d = drain_from(st.buffer + text, 0, Seq::empty());
        (d.0, RelayModel { buffer: d.1, complete: d.2 })
    }
}

/// The chunks at the end of the upstream stream: the terminal chunk, unless
/// one was emitted already.
pub open spec fn finish_spec(st: RelayModel) -> Seq<ChunkModel> {
    if st.complete {
        Seq::empty()
    } else {
        seq![done_chunk()]
    }
}

/// All chunks a relay emits over a sequence of received texts, before the
/// end of the stream.
pub open spec fn feed_all(st: RelayModel, texts: Seq<Seq<char>>) -> (Seq<ChunkModel>, RelayModel)
    decreases texts.len(),
{
    if texts.len() == 0 {
        (Seq::empty(), st)
    } else {
        let prev = feed_all(st, texts.drop_last());
        let next = feed_spec(prev.1, texts.last());
        (prev.0 + next.0, next.1)
    }
}

/// All chunks a fresh relay emits for a stream made of `texts`, including
/// the chunks at its end.
pub open spec fn relay_all(texts: Seq<Seq<char>>) -> Seq<ChunkModel> {
    let r = feed_all(RelayModel { buffer: Seq::empty(), complete: false }, texts);
    r.0 + finish_spec(r.1)
}

/// Exactly one chunk of `s` is terminal, and it is the last.
pub open spec fn one_terminal_last(s: Seq<ChunkModel>) -> bool {
    s.len() > 0 && s.last().done && forall|i: int| 0 <= i < s.len() - 1 ==> !#[trigger] s[i].done
}

/// No chunk of `s` is terminal.
pub open spec fn none_terminal(s: Seq<ChunkModel>) -> bool {
    forall|i: int| 0 <= i < s.len() ==> !#[trigger] s[i].done
}

proof fn lemma_drain_shape(buf: Seq<char>, i: int, out: Seq<ChunkModel>)
    requires
        none_terminal(out),
    ensures
        drain_from(buf, i, out).2 ==> one_terminal_last(drain_from(buf, i, out).0),
        !drain_from(buf, i, out).2 ==> none_terminal(drain_from(buf, i, out).0),
    decreases buf.len() - i,
{
    let k = find_from(buf, '\n', i);
    if 0 <= i <= k && k < buf.len() {
        let t = trim(buf.subrange(i, k));
        match payload(t) {
            None => lemma_drain_shape(buf, k + 1, out),
            Some(d) => if d == marker_spec() {
                let o = out.push(done_chunk());
                assert forall|j: int| 0 <= j < o.len() - 1 implies !#[trigger] o[j].done by {
                    assert(o[j] == out[j]);
                }
            } else {
                match delta_content(d) {
                    Some(c) => {
                        let o = out.push(text_chunk(c));
                        assert forall|j: int| 0 <= j < o.len() implies !#[trigger] o[j].done by {
                            if j < out.len() {
                                assert(o[j] == out[j]);
                            }
                        }
                        lemma_drain_shape(buf, k + 1, o);
                    },
                    None => lemma_drain_shape(buf, k + 1, out),
                }
            },
        }
    }
}

proof fn lemma_feed_all_shape(st: RelayModel, texts: Seq<Seq<char>>)
    requires
        !st.complete,
    ensures
        feed_all(st, texts).1.complete ==> one_terminal_last(feed_all(st, texts).0),
        !feed_all(st, texts).1.complete ==> none_terminal(feed_all(st, texts).0),
    decreases texts.len(),
{
    if texts.len() > 0 {
        lemma_feed_all_shape(st, texts.drop_last());
        let prev = feed_all(st, texts.drop_last());
        let next = feed_spec(prev.1, texts.last());
        let all = prev.0 + next.0;
        if prev.1.complete {
            assert(next.0 =~= Seq::<ChunkModel>::empty());
            assert(all =~= prev.0);
        } else {
            lemma_drain_shape(prev.1.buffer + texts.last(), 0, Seq::empty());
            if next.1.complete {
                assert forall|j: int| 0 <= j < all.len() - 1 implies !#[trigger] all[j].done by {
                    if j < prev.0.len() {
                        assert(all[j] == prev.0[j]);
                    } else {
                        assert(all[j] == next.0[j - prev.0.len()]);
                    }
                }
                assert(all.last() == next.0.last());
            } else {
                assert forall|j: int| 0 <= j < all.len() implies !#[trigger] all[j].done by {
                    if j < prev.0.len() {
                        assert(all[j] == prev.0[j]);
                    } else {
                        assert(all[j] == next.0[j - prev.0.len()]);
                    }
                }
            }
        }
    }
}

/// Whatever the upstream stream holds, and whether or not it carries the end
/// marker, the relay emits exactly one terminal chunk, and it is the last
/// chunk emitted.
pub proof fn law_exactly_one_terminal(texts: Seq<Seq<char>>)
    ensures
        one_terminal_last(relay_all(texts)),
{
    let st = RelayModel { buffer: Seq::empty(), complete: false };
    lemma_feed_all_shape(st, texts);
    let r = feed_all(st, texts);
    let all = r.0 + finish_spec(r.1);
    if r.1.complete {
        assert(all =~= r.0);
    } else {
        assert forall|j: int| 0 <= j < all.len() - 1 implies !#[trigger] all[j].done by {
            assert(all[j] == r.0[j]);
        }
    }
}

/// Relays an event stream to the user interface, one received piece at a
/// time.
pub struct StreamRelay {
    buffer: Vec<char>,
    complete: bool,
}

impl View for StreamRelay {
    type V = RelayModel;

    closed spec fn view(&self) -> RelayModel {
        RelayModel { buffer: self.buffer@, complete: self.complete }
    }
}

/// What a trimmed line of the event stream asks for: nothing, the end of the
/// stream, or a payload to decode.
pub fn line_event(t: &Vec<char>) -> (r: LineEvent)
    ensures
        payload(t@) is None ==> r is Skip,
        payload(t@) is Some && payload(t@)->0 == marker_spec() ==> r is Done,
        payload(t@) is Some && payload(t@)->0 != marker_spec() ==> (r matches LineEvent::Data(x)
            && x@ == payload(t@)->0),
{
    let pre = chars_of(DATA_PREFIX);
    let mark = chars_of(DONE_MARKER);
    proof {
        reveal_strlit("data: ");
        reveal_strlit("[DONE]");
        assert(pre@ =~= prefix_spec());
        assert(mark@ =~= marker_spec());
    }
    if t.len() < 6 {
        return LineEvent::Skip;
    }
    let mut j: usize = 0;
    while j < 6
        invariant
            j <= 6,
            t@.len() >= 6,
            pre@ == prefix_spec(),
            forall|m: int| 0 <= m < j ==> t@[m] == pre@[m],
        decreases 6 - j,
    {
        if t[j] != pre[j] {
            proof {
                assert(t@.subrange(0, 6)[j as int] != prefix_spec()[j as int]);
            }
            return LineEvent::Skip;
        }
        j = j + 1;
    }
    proof {
        assert(t@.subrange(0, 6) =~= prefix_spec());
    }
    let d = copy_range(t, 6, t.len());
    if d.len() == 6 {
        let mut m: usize = 0;
        let mut same = true;
        while m < 6
            invariant
                m <= 6,
                d@.len() == 6,
                mark@ == marker_spec(),
                same <==> forall|q: int| 0 <= q < m ==> d@[q] == mark@[q],
            decreases 6 - m,
        {
            if d[m] != mark[m] {
                same = false;
            }
            m = m + 1;
        }
        if same {
            proof {
                assert(d@ =~= marker_spec());
            }
            return LineEvent::Done;
        }
    }
    LineEvent::Data(string_of_chars(&d))
}

/// The chunk a decoded payload makes: its text fragment, if it has one.
pub fn delta_chunk(delta: Option<String>) -> (r: Option<StreamChunk>)
    ensures
        delta is None ==> r is None,
        delta is Some ==> (r matches Some(x) && x@ == text_chunk(delta->0@)),
{
    match delta {
        Some(c) => Some(StreamChunk { content: c, done: false, error: None }),
        None => None,
    }
}

/// The terminal chunk of a stream that ended normally.
pub fn finished_chunk() -> (r: StreamChunk)
    ensures
        r@ == done_chunk(),
{
    let e = String::new();
    StreamChunk { content: e, done: true, error: None }
}

/// The terminal chunk of a stream that failed with `message`.
pub fn error_chunk(message: String) -> (r: StreamChunk)
    ensures
        r@ == (ChunkModel { content: Seq::empty(), done: true, error: Some(message@) }),
{
    StreamChunk { content: String::new(), done: true, error: Some(message) }
}

impl StreamRelay {
    /// A relay that has received nothing.
    pub fn new() -> (r: Self)
        ensures
            r@ == (RelayModel { buffer: Seq::empty(), complete: false }),
    {
        StreamRelay { buffer: Vec::new(), complete: false }
    }

    /// Whether the terminal chunk has been emitted.
    pub fn is_complete(&self) -> (r: bool)
        ensures
            r == self@.complete,
    {
        self.complete
    }

    /// Relays one piece of received text: every line it completes is
    /// trimmed; a data line's payload is the end marker, which emits the
    /// terminal chunk and ends the relay, or JSON whose text fragment, if
    /// any, is emitted. Other lines are skipped.
    pub fn feed(&mut self, text: &str) -> (r: Vec<StreamChunk>)
        ensures
            chunks_view(r@) == feed_spec(old(self)@, text@).0,
            final(self)@ == feed_spec(old(self)@, text@).1,
    {
        if self.complete {
            proof {
                assert(chunks_view(Seq::<StreamChunk>::empty()) =~= Seq::<ChunkModel>::empty());
            }
            return Vec::new();
        }
        let extra = chars_of(text);
        let mut buf = Vec::new();
        buf.append(&mut self.buffer.clone());
        let mut more = extra;
        buf.append(&mut more);
        assert(buf@ =~= old(self)@.buffer + text@);
        let mut out: Vec<StreamChunk> = Vec::new();
        let mut i: usize = 0;
        proof {
            assert(chunks_view(out@) =~= Seq::<ChunkModel>::empty());
        }
        while i <= buf.len()
            invariant
                i <= buf@.len(),
                !self.complete,
                !old(self)@.complete,
                buf@ == old(self)@.buffer + text@,
                drain_from(buf@, i as int, chunks_view(out@)) == drain_from(
                    buf@,
                    0,
                    Seq::<ChunkModel>::empty(),
                ),
            decreases buf@.len() + 1 - i,
        {
            let k = find_char(&buf, '\n', i);
            if k >= buf.len() {
                self.buffer = copy_range(&buf, i, buf.len());
                return out;
            }
            let line = copy_range(&buf, i, k);
            let t = trim_chars(&line);
            match line_event(&t) {
                LineEvent::Skip => {},
                LineEvent::Done => {
                    let ghost before = out@;
                    out.push(finished_chunk());
                    proof {
                        assert(chunks_view(out@) =~= chunks_view(before).push(done_chunk()));
                    }
                    self.buffer = Vec::new();
                    self.complete = true;
                    return out;
                },
                LineEvent::Data(d) => {
                    let delta = json_delta(d.as_str());
                    match delta_chunk(delta) {
                        Some(c) => {
                            let ghost before = out@;
                            out.push(c);
                            proof {
                                assert(chunks_view(out@) =~= chunks_view(before).push(c@));
                            }
                        },
                        None => {},
                    }
                },
            }
            i = k + 1;
        }
        out
    }

    /// Relays one piece of received bytes, decoded as `feed` expects.
    pub fn feed_bytes(&mut self, bytes: &[u8]) -> (r: Vec<StreamChunk>)
        ensures
            chunks_view(r@) == feed_spec(old(self)@, lossy_text(bytes@)).0,
            final(self)@ == feed_spec(old(self)@, lossy_text(bytes@)).1,
    {
        let text = decode_lossy(bytes);
        self.feed(text.as_str())
    }

    /// The end of the upstream stream: the terminal chunk, unless the relay
    /// is complete already. The relay is complete afterwards.
    pub fn finish(&mut self) -> (r: Vec<StreamChunk>)
        ensures
            chunks_view(r@) == finish_spec(old(self)@),
            final(self)@.complete,
    {
        if self.complete {
            proof {
                assert(chunks_view(Seq::<StreamChunk>::empty()) =~= Seq::<ChunkModel>::empty());
            }
            Vec::new()
        } else {
            self.complete = true;
            let v = vec![finished_chunk()];
            proof {
                assert(chunks_view(v@) =~= seq![done_chunk()]);
            }
            v
        }
    }

    /// A failure of the request or of the stream: the terminal chunk carrying
    /// `message`, unless the relay is complete already. The relay is complete
    /// afterwards.
    pub fn fail(&mut self, message: String) -> (r: Vec<StreamChunk>)
        ensures
            old(self)@.complete ==> r@.len() == 0,
            !old(self)@.complete ==> chunks_view(r@) == seq![
                ChunkModel { content: Seq::empty(), done: true, error: Some(message@) },
            ],
            final(self)@.complete,
    {
        if self.complete {
            Vec::new()
        } else {
            self.complete = true;
            let v = vec![error_chunk(message)];
            proof {
                assert(chunks_view(v@) =~= seq![
                    ChunkModel { content: Seq::empty(), done: true, error: Some(message@) },
                ]);
            }
            v
        }
    }
}

} // verus!

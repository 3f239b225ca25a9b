//! Decoding of a server-push event stream into domain events.
//!
//! The body arrives as byte chunks. Frames end at a blank line. Each complete
//! frame is parsed by the event-stream codec; a frame that carries a message
//! whose data is JSON yields one event, and every other frame (keep-alives,
//! retry markers, malformed payloads) yields none and is skipped. Events are
//! produced only when the consumer asks for the next one.
use vstd::prelude::*;
use vstd::utf8::{decode_utf8, valid_utf8};
use crate::wire::{json_accepts, parse_json, utf8_text};

verus! {

/// The fields of a message frame: its id, its event label and its data.
pub struct SseMessage {
    pub id: Option<String>,
    pub event: String,
    pub data: String,
}

/// The message that the event-stream codec reads from one frame's text, as
/// (id, event label, data); `None` when the frame holds no message.
pub uninterp spec fn codec_message(text: Seq<char>) -> Option<(Option<Seq<char>>, Seq<char>, Seq<char>)>;

/// Relies on sse_codec's `FromStr` for `Event`: the first message of the
/// text, or an error when the text completes no message (a keep-alive or a
/// retry marker). Its result depends on the text alone.
#[verifier::external_body]
pub(crate) fn parse_message(text: &str) -> (r: Option<SseMessage>)
    ensures
        codec_message(text@) == match r {
            Some(m) => Some(
                (
                    match m.id {
                        Some(i) => Some(i@),
                        None => None,
                    },
                    m.event@,
                    m.data@,
                ),
            ),
            None => None,
        },
{
    match text.parse::<sse_codec::Event>() {
        Ok(sse_codec::Event::Message { id, event, data }) => Some(SseMessage { id, event, data }),
        Ok(sse_codec::Event::Retry { .. }) => None,
        Err(_) => None,
    }
}

/// Whether a frame ends just before index `i` of `s`: a line feed directly
/// followed by an empty line, ended by `\n` or `\r\n`.
pub open spec fn ends_frame(s: Seq<u8>, i: int) -> bool {
    ||| (2 <= i <= s.len() && s[i - 2] == 10 && s[i - 1] == 10)
    ||| (3 <= i <= s.len() && s[i - 3] == 10 && s[i - 2] == 13 && s[i - 1] == 10)
}

/// Whether `s` holds a complete frame.
pub open spec fn has_frame(s: Seq<u8>) -> bool {
    exists|i: int| ends_frame(s, i)
}

/// Whether the first frame of `s` ends just before `i`.
pub open spec fn first_frame_end(s: Seq<u8>, i: int) -> bool {
    ends_frame(s, i) && forall|j: int| 0 <= j < i ==> !ends_frame(s, j)
}

/// Whether `frame` is exactly one complete frame.
pub open spec fn is_frame(frame: Seq<u8>) -> bool {
    first_frame_end(frame, frame.len() as int)
}

/// The data of the message that a frame carries, if it carries one.
pub open spec fn frame_data(frame: Seq<u8>) -> Option<Seq<char>> {
    if valid_utf8(frame) {
        match codec_message(decode_utf8(frame)) {
            Some(m) => Some(m.2),
            None => None,
        }
    } else {
        None
    }
}

/// The event a frame yields: its message data, when that is JSON.
pub open spec fn frame_event(frame: Seq<u8>) -> Option<Seq<char>> {
    match frame_data(frame) {
        Some(d) => if json_accepts(d) {
            Some(d)
        } else {
            None
        },
        None => None,
    }
}

/// The events a sequence of frames yields, in order.
pub open spec fn decoded(frames: Seq<Seq<u8>>) -> Seq<Seq<char>>
    decreases frames.len(),
{
    if frames.len() == 0 {
        Seq::empty()
    } else {
        let before = decoded(frames.drop_last());
        match frame_event(frames.last()) {
            Some(d) => before.push(d),
            None => before,
        }
    }
}

/// How many of the frames yield no event.
pub open spec fn skipped(frames: Seq<Seq<u8>>) -> nat
    decreases frames.len(),
{
    if frames.len() == 0 {
        0
    } else {
        skipped(frames.drop_last()) + if frame_event(frames.last()) is None {
            1nat
        } else {
            0nat
        }
    }
}

/// A count, saturated at the largest `u64`.
pub open spec fn saturated(n: nat) -> u64 {
    if n < u64::MAX {
        n as u64
    } else {
        u64::MAX
    }
}

/// The bytes of a sequence of frames, one after the other.
pub open spec fn joined(frames: Seq<Seq<u8>>) -> Seq<u8>
    decreases frames.len(),
{
    if frames.len() == 0 {
        Seq::empty()
    } else {
        joined(frames.drop_last()) + frames.last()
    }
}

/// The data of each event.
pub open spec fn event_data(events: Seq<DecodedEvent>) -> Seq<Seq<char>> {
    events.map_values(|e: DecodedEvent| e.data@)
}

/// The bytes of each frame.
pub open spec fn frame_bytes(frames: Seq<Vec<u8>>) -> Seq<Seq<u8>> {
    frames.map_values(|f: Vec<u8>| f@)
}

/// One domain event: the JSON text of a message frame and its parsed value.
#[derive(Debug)]
pub struct DecodedEvent {
    pub data: String,
    pub payload: serde_json::Value,
}

/// Finds where the first complete frame of `s` ends.
pub fn find_frame_end(s: &[u8]) -> (r: Option<usize>)
    ensures
        r matches Some(i) ==> first_frame_end(s@, i as int),
        r is None ==> !has_frame(s@),
{
    let n = s.len();
    let mut k: usize = 1;
    while k < n
        invariant
            n == s@.len(),
            1 <= k,
            forall|j: int| 0 <= j <= k ==> !ends_frame(s@, j),
        decreases n - k,
    {
        if s[k - 1] == 10 && s[k] == 10 {
            return Some(k + 1);
        }
        if k >= 2 && s[k - 2] == 10 && s[k - 1] == 13 && s[k] == 10 {
            return Some(k + 1);
        }
        k = k + 1;
    }
    None
}

/// Decodes one complete frame: the event it yields, if any.
pub fn decode_frame(frame: &[u8]) -> (r: Option<DecodedEvent>)
    ensures
        r is Some <==> frame_event(frame@) is Some,
        r matches Some(e) ==> frame_event(frame@) == Some(e.data@),
{
    let text = match utf8_text(frame) {
        Some(t) => t,
        None => return None,
    };
    let message = match parse_message(text) {
        Some(m) => m,
        None => return None,
    };
    match parse_json(message.data.as_str()) {
        Ok(payload) => Some(DecodedEvent { data: message.data, payload }),
        Err(_) => None,
    }
}

/// Decodes a sequence of complete frames: one event for each frame whose
/// message data is JSON, in the order of the frames.
pub fn decode_frames(frames: &Vec<Vec<u8>>) -> (r: Vec<DecodedEvent>)
    ensures
        event_data(r@) == decoded(frame_bytes(frames@)),
{
    let mut out: Vec<DecodedEvent> = Vec::new();
    let mut i: usize = 0;
    while i < frames.len()
        invariant
            i <= frames@.len(),
            event_data(out@) == decoded(frame_bytes(frames@.subrange(0, i as int))),
        decreases frames@.len() - i,
    {
        let ev = decode_frame(frames[i].as_slice());
        proof {
            let prefix = frame_bytes(frames@.subrange(0, i as int + 1));
            assert(prefix.drop_last() =~= frame_bytes(frames@.subrange(0, i as int)));
            assert(prefix.last() == frames@[i as int]@);
        }
        match ev {
            Some(e) => {
                out.push(e);
            },
            None => {},
        }
        proof {
            assert(event_data(out@) =~= decoded(frame_bytes(frames@.subrange(0, i as int + 1))));
        }
        i = i + 1;
    }
    proof {
        assert(frames@.subrange(0, frames@.len() as int) =~= frames@);
    }
    out
}

/// The domain events of a response body, decoded as the body arrives and
/// handed out one at a time, only when asked for.
pub struct EventStream {
    pending: Vec<u8>,
    ended: bool,
    dropped: u64,
    received: Ghost<Seq<u8>>,
    frames: Ghost<Seq<Seq<u8>>>,
}

impl EventStream {
    /// All bytes of the body received so far.
    pub closed spec fn received(&self) -> Seq<u8> {
        self.received@
    }

    /// The complete frames taken from the body so far, in order.
    pub closed spec fn frames(&self) -> Seq<Seq<u8>> {
        self.frames@
    }

    /// The received bytes that no complete frame has taken yet.
    pub closed spec fn pending(&self) -> Seq<u8> {
        self.pending@
    }

    /// Whether the body has ended.
    pub closed spec fn ended(&self) -> bool {
        self.ended
    }

    /// The count of frames skipped so far.
    pub closed spec fn dropped_count(&self) -> u64 {
        self.dropped
    }

    /// The events handed out so far.
    pub open spec fn emitted(&self) -> Seq<Seq<char>> {
        decoded(self.frames())
    }

    /// The received bytes are the frames taken, one after the other, and then
    /// the pending bytes; each frame taken ends at its first blank line.
    pub open spec fn wf(&self) -> bool {
        &&& self.received() == joined(self.frames()) + self.pending()
        &&& forall|k: int| 0 <= k < self.frames().len() ==> is_frame(#[trigger] self.frames()[k])
        &&& self.dropped_count() == saturated(skipped(self.frames()))
    }

    /// A stream over a body of which nothing has arrived yet.
    pub fn new() -> (r: EventStream)
        ensures
            r.wf(),
            r.received() == Seq::<u8>::empty(),
            r.frames() == Seq::<Seq<u8>>::empty(),
            !r.ended(),
    {
        let r = EventStream {
            pending: Vec::new(),
            ended: false,
            dropped: 0,
            received: Ghost(Seq::empty()),
            frames: Ghost(Seq::empty()),
        };
        proof {
            assert(joined(r.frames()) + r.pending() =~= Seq::<u8>::empty());
        }
        r
    }

    /// Whether the body has ended.
    pub fn is_ended(&self) -> (r: bool)
        ensures
            r == self.ended(),
    {
        self.ended
    }

    /// How many complete frames yielded no event (keep-alives, retry markers,
    /// malformed payloads), saturated at the largest `u64`.
    pub fn dropped(&self) -> (r: u64)
        requires
            self.wf(),
        ensures
            r == saturated(skipped(self.frames())),
    {
        self.dropped
    }

    /// Takes the next chunk of the body.
    pub fn feed(&mut self, chunk: &[u8])
        requires
            old(self).wf(),
            !old(self).ended(),
        ensures
            final(self).wf(),
            final(self).received() == old(self).received() + chunk@,
            final(self).pending() == old(self).pending() + chunk@,
            final(self).frames() == old(self).frames(),
            !final(self).ended(),
    {
        let mut i: usize = 0;
        while i < chunk.len()
            invariant
                i <= chunk@.len(),
                self.pending@ == old(self).pending@ + chunk@.subrange(0, i as int),
                self.received == old(self).received,
                self.frames == old(self).frames,
                self.ended == old(self).ended,
                self.dropped == old(self).dropped,
            decreases chunk@.len() - i,
        {
            self.pending.push(chunk[i]);
            proof {
                assert(chunk@.subrange(0, i as int + 1) =~= chunk@.subrange(0, i as int).push(
                    chunk@[i as int],
                ));
                assert(self.pending@ =~= old(self).pending@ + chunk@.subrange(0, i as int + 1));
            }
            i = i + 1;
        }
        proof {
            assert(chunk@.subrange(0, chunk@.len() as int) =~= chunk@);
            self.received@ = self.received@ + chunk@;
            assert(self.received@ =~= joined(self.frames@) + self.pending@);
        }
    }

    /// Records that the body has ended, because it was exhausted or the
    /// connection failed. Frames already complete can still be taken.
    pub fn finish(&mut self)
        requires
            old(self).wf(),
        ensures
            final(self).wf(),
            final(self).ended(),
            final(self).received() == old(self).received(),
            final(self).pending() == old(self).pending(),
            final(self).frames() == old(self).frames(),
    {
        self.ended = true;
    }

    /// The next event, taking complete frames from the pending bytes until
    /// one yields an event. `None` when no complete frame that yields one is
    /// left; the frames that yielded none are consumed.
    pub fn next_event(&mut self) -> (r: Option<DecodedEvent>)
        requires
            old(self).wf(),
        ensures
            final(self).wf(),
            final(self).received() == old(self).received(),
            final(self).ended() == old(self).ended(),
            old(self).frames().len() <= final(self).frames().len(),
            final(self).frames().subrange(0, old(self).frames().len() as int) == old(self).frames(),
            match r {
                Some(e) => final(self).emitted() == old(self).emitted().push(e.data@),
                None => final(self).emitted() == old(self).emitted() && !has_frame(
                    final(self).pending(),
                ),
            },
    {
        loop
            invariant
                self.wf(),
                self.received() == old(self).received(),
                self.ended() == old(self).ended(),
                old(self).frames().len() <= self.frames().len(),
                self.frames().subrange(0, old(self).frames().len() as int) == old(self).frames(),
                self.emitted() == old(self).emitted(),
            decreases self.pending@.len(),
        {
            match find_frame_end(self.pending.as_slice()) {
                None => {
                    return None;
                },
                Some(i) => {
                    let ghost before = self.pending@;
                    let ghost old_frames = self.frames@;
                    let mut frame = self.pending.split_off(i);
                    std::mem::swap(&mut self.pending, &mut frame);
                    proof {
                        let f = frame@;
                        assert(before =~= f + self.pending@);
                        assert forall|j: int| 0 <= j <= i implies ends_frame(f, j) == ends_frame(
                            before,
                            j,
                        ) by {
                            if j >= 1 {
                                assert(f[j - 1] == before[j - 1]);
                            }
                            if j >= 2 {
                                assert(f[j - 2] == before[j - 2]);
                            }
                            if j >= 3 {
                                assert(f[j - 3] == before[j - 3]);
                            }
                        }
                        assert(is_frame(f));
                        self.frames@ = old_frames.push(f);
                        assert(self.frames@.drop_last() =~= old_frames);
                        assert(joined(self.frames@) == joined(old_frames) + f);
                        assert(self.received() =~= joined(self.frames()) + self.pending());
                        assert forall|k: int| 0 <= k < self.frames().len() implies is_frame(
                            #[trigger] self.frames()[k],
                        ) by {
                            if k < old_frames.len() {
                                assert(self.frames()[k] == old_frames[k]);
                            }
                        }
                        assert(self.frames().subrange(0, old(self).frames().len() as int)
                            =~= old_frames.subrange(0, old(self).frames().len() as int));
                    }
                    let ev = decode_frame(frame.as_slice());
                    match ev {
                        Some(e) => {
                            return Some(e);
                        },
                        None => {
                            if self.dropped < u64::MAX {
                                self.dropped = self.dropped + 1;
                            }
                        },
                    }
                },
            }
        }
    }
}

/// Decoding a concatenation of frame sequences gives the concatenation of
/// their events: the events of later frames follow those of earlier ones.
pub proof fn lemma_decoded_append(a: Seq<Seq<u8>>, b: Seq<Seq<u8>>)
    ensures
        decoded(a + b) == decoded(a) + decoded(b),
    decreases b.len(),
{
    if b.len() == 0 {
        assert(a + b =~= a);
        assert(decoded(a) + decoded(b) =~= decoded(a));
    } else {
        lemma_decoded_append(a, b.drop_last());
        assert((a + b).drop_last() =~= a + b.drop_last());
        assert((a + b).last() == b.last());
        match frame_event(b.last()) {
            Some(d) => {
                assert(decoded(a) + decoded(b) =~= (decoded(a) + decoded(b.drop_last())).push(d));
            },
            None => {},
        }
    }
}

/// In any sequence of frames, each frame contributes, in its place, exactly
/// one event when it carries a message whose data is JSON, and none otherwise
/// (a keep-alive or a retry marker carries no message).
pub proof fn lemma_frame_contributes_in_order(
    before: Seq<Seq<u8>>,
    frame: Seq<u8>,
    after: Seq<Seq<u8>>,
)
    ensures
        decoded(before + seq![frame] + after) == decoded(before) + match frame_event(frame) {
            Some(d) => seq![d],
            None => Seq::<Seq<char>>::empty(),
        } + decoded(after),
        frame_data(frame) is None ==> decoded(before + seq![frame] + after)
            == decoded(before) + decoded(after),
        frame_event(frame) matches Some(d) ==> decoded(
            before + seq![frame] + after,
        ) == decoded(before) + seq![d] + decoded(after),
{
    lemma_decoded_append(before + seq![frame], after);
    lemma_decoded_append(before, seq![frame]);
    let one = seq![frame];
    assert(one.drop_last() =~= Seq::<Seq<u8>>::empty());
    assert(decoded(one.drop_last()) =~= Seq::<Seq<char>>::empty());
    assert(one.last() == frame);
    match frame_event(frame) {
        Some(d) => {
            assert(decoded(one) =~= seq![d]);
        },
        None => {
            assert(decoded(one) =~= Seq::<Seq<char>>::empty());
            assert(decoded(before) + Seq::<Seq<char>>::empty() =~= decoded(before));
        },
    }
}

/// A message frame whose data is not JSON yields no event, and the frames
/// after it are decoded as if it were absent.
pub proof fn lemma_malformed_frame_skipped(
    before: Seq<Seq<u8>>,
    frame: Seq<u8>,
    after: Seq<Seq<u8>>,
)
    requires
        frame_data(frame) matches Some(d) && !json_accepts(d),
    ensures
        decoded(before + seq![frame] + after) == decoded(before) + decoded(after),
{
    lemma_frame_contributes_in_order(before, frame, after);
    assert(decoded(before) + Seq::<Seq<char>>::empty() =~= decoded(before));
}

} // verus!

verus! {

/// A complete frame at the front of a byte sequence is that sequence's first frame.
proof fn lemma_frame_at_front(f: Seq<u8>, t: Seq<u8>)
    requires
        is_frame(f),
    ensures
        first_frame_end(f + t, f.len() as int),
{
    let s = f + t;
    assert forall|j: int| 0 <= j <= f.len() implies ends_frame(s, j) == ends_frame(f, j) by {
        if j >= 1 {
            assert(s[j - 1] == f[j - 1]);
        }
        if j >= 2 {
            assert(s[j - 2] == f[j - 2]);
        }
        if j >= 3 {
            assert(s[j - 3] == f[j - 3]);
        }
    }
}

/// The bytes of frames, read from the front.
proof fn lemma_joined_front(frames: Seq<Seq<u8>>)
    requires
        frames.len() > 0,
    ensures
        joined(frames) == frames[0] + joined(frames.drop_first()),
    decreases frames.len(),
{
    if frames.len() == 1 {
        assert(frames.drop_last() =~= Seq::<Seq<u8>>::empty());
        assert(frames.drop_first() =~= Seq::<Seq<u8>>::empty());
        assert(joined(frames) =~= frames[0] + joined(frames.drop_first()));
    } else {
        lemma_joined_front(frames.drop_last());
        assert(frames.drop_last().drop_first() =~= frames.drop_first().drop_last());
        assert(frames.drop_first().last() == frames.last());
        assert(frames.drop_last()[0] == frames[0]);
        assert(joined(frames) =~= frames[0] + joined(frames.drop_first()));
    }
}

/// Bytes cut into complete frames with no complete frame left over are cut
/// in exactly one way.
proof fn lemma_frames_unique(a: Seq<Seq<u8>>, p: Seq<u8>, b: Seq<Seq<u8>>, q: Seq<u8>)
    requires
        forall|k: int| 0 <= k < a.len() ==> is_frame(#[trigger] a[k]),
        forall|k: int| 0 <= k < b.len() ==> is_frame(#[trigger] b[k]),
        !has_frame(p),
        !has_frame(q),
        joined(a) + p == joined(b) + q,
    ensures
        a == b,
    decreases a.len() + b.len(),
{
    if a.len() == 0 && b.len() == 0 {
        assert(a =~= b);
    } else if a.len() == 0 || b.len() == 0 {
        let (c, r, other) = if a.len() == 0 {
            (b, q, p)
        } else {
            (a, p, q)
        };
        lemma_joined_front(c);
        assert(joined(Seq::<Seq<u8>>::empty()) == Seq::<u8>::empty());
        assert(other =~= c[0] + (joined(c.drop_first()) + r)) by {
            if a.len() == 0 {
                assert(joined(a) + p =~= p);
            } else {
                assert(joined(b) + q =~= q);
            }
        }
        assert(is_frame(c[0]));
        lemma_frame_at_front(c[0], joined(c.drop_first()) + r);
        assert(ends_frame(other, c[0].len() as int));
    } else {
        lemma_joined_front(a);
        lemma_joined_front(b);
        let s = joined(a) + p;
        let ta = joined(a.drop_first()) + p;
        let tb = joined(b.drop_first()) + q;
        assert(s =~= a[0] + ta);
        assert(s =~= b[0] + tb);
        assert(is_frame(a[0]));
        assert(is_frame(b[0]));
        lemma_frame_at_front(a[0], ta);
        lemma_frame_at_front(b[0], tb);
        let la = a[0].len() as int;
        let lb = b[0].len() as int;
        assert(la == lb) by {
            if la < lb {
                assert(!ends_frame(s, la));
            } else if lb < la {
                assert(!ends_frame(s, lb));
            }
        }
        assert(a[0] =~= s.subrange(0, la));
        assert(b[0] =~= s.subrange(0, lb));
        assert(ta =~= s.subrange(la, s.len() as int));
        assert(tb =~= s.subrange(lb, s.len() as int));
        assert forall|k: int| 0 <= k < a.drop_first().len() implies is_frame(
            #[trigger] a.drop_first()[k],
        ) by {
            assert(a.drop_first()[k] == a[k + 1]);
        }
        assert forall|k: int| 0 <= k < b.drop_first().len() implies is_frame(
            #[trigger] b.drop_first()[k],
        ) by {
            assert(b.drop_first()[k] == b[k + 1]);
        }
        lemma_frames_unique(a.drop_first(), p, b.drop_first(), q);
        assert(a =~= seq![a[0]] + a.drop_first());
        assert(b =~= seq![b[0]] + b.drop_first());
    }
}

/// Decoding depends on the bytes alone: two streams that received the same
/// bytes, each pulled until no event was left, have handed out the same
/// events in the same order.
pub proof fn lemma_same_bytes_same_events(s1: EventStream, s2: EventStream)
    requires
        s1.wf(),
        s2.wf(),
        s1.received() == s2.received(),
        !has_frame(s1.pending()),
        !has_frame(s2.pending()),
    ensures
        s1.emitted() == s2.emitted(),
{
    lemma_frames_unique(s1.frames(), s1.pending(), s2.frames(), s2.pending());
}

} // verus!

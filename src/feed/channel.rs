//! The decisions of the duplex feed channel: the outbound queue under backpressure,
//! the answers to control frames, and the check of decoded messages for lost keys.
use vstd::prelude::*;

use std::collections::VecDeque;

verus! {

/// The status and reason of a close frame.
#[derive(Debug, Clone)]
pub struct CloseData {
    pub status_code: u16,
    pub reason: String,
}

/// One transport frame.
#[derive(Debug, Clone)]
pub enum Frame {
    Text(String),
    Binary(Vec<u8>),
    Ping(Vec<u8>),
    Pong(Vec<u8>),
    Close(Option<CloseData>),
}

/// What to do with one received item.
#[derive(Debug, Clone)]
pub enum Received {
    /// A text frame: decode it and hand the message to the consumer.
    Message(String),
    /// The inbound stream ended.
    End,
    /// A ping was answered or a close acknowledged on the outbound queue.
    Answered,
    /// A binary or pong frame, or a frame after close: report it and read on.
    Unexpected(Frame),
}

/// The channel's own state: frames waiting to go out, oldest first, and whether the
/// peer has closed.
pub struct FeedState {
    buffer: VecDeque<Frame>,
    closed: bool,
}

impl FeedState {
    /// The frames waiting to be sent, oldest first.
    pub closed spec fn pending(&self) -> Seq<Frame> {
        self.buffer@
    }

    /// Whether a close frame has been received.
    pub closed spec fn is_closed(&self) -> bool {
        self.closed
    }

    /// An open channel whose first outbound frame is `subscribe`.
    pub fn new(subscribe: Frame) -> (r: FeedState)
        ensures
            r.pending() == seq![subscribe],
            !r.is_closed(),
    {
        let mut buffer: VecDeque<Frame> = VecDeque::new();
        buffer.push_back(subscribe);
        assert(buffer@ =~= seq![subscribe]);
        FeedState { buffer, closed: false }
    }

    /// Whether a close frame has been received.
    pub fn closed(&self) -> (r: bool)
        ensures
            r == self.is_closed(),
    {
        self.closed
    }

    /// Whether no frame waits to be sent.
    pub fn is_drained(&self) -> (r: bool)
        ensures
            r == (self.pending().len() == 0),
    {
        self.buffer.len() == 0
    }

    /// Takes the oldest waiting frame, to be offered to the transport.
    pub fn next_outbound(&mut self) -> (r: Option<Frame>)
        ensures
            old(self).pending().len() == 0 ==> r is None && final(self).pending() == old(
                self,
            ).pending(),
            old(self).pending().len() > 0 ==> r == Some(old(self).pending()[0])
                && final(self).pending() == taken(old(self).pending()),
            final(self).is_closed() == old(self).is_closed(),
    {
        self.buffer.pop_front()
    }

    /// Puts back a frame that the transport was not ready to take, ahead of the rest.
    pub fn return_unsent(&mut self, frame: Frame)
        ensures
            final(self).pending() == requeued(old(self).pending(), frame),
            final(self).is_closed() == old(self).is_closed(),
    {
        self.buffer.push_front(frame);
        assert(self.buffer@ =~= requeued(old(self).buffer@, frame));
    }

    /// Queues an outbound frame behind the waiting ones. Once the peer has closed,
    /// the frame is refused and handed back.
    pub fn queue(&mut self, frame: Frame) -> (r: Result<(), Frame>)
        ensures
            old(self).is_closed() ==> r == Err::<(), Frame>(frame) && final(self).pending()
                == old(self).pending(),
            !old(self).is_closed() ==> r is Ok && final(self).pending() == queued(
                old(self).pending(),
                frame,
            ),
            final(self).is_closed() == old(self).is_closed(),
    {
        if self.closed {
            Err(frame)
        } else {
            self.buffer.push_back(frame);
            Ok(())
        }
    }

    /// Decides what a received item means. `None` is the end of the inbound stream.
    /// After close every frame is unexpected. A ping queues one pong with its payload;
    /// a close marks the channel closed and queues the same close frame back.
    pub fn receive(&mut self, item: Option<Frame>) -> (r: Received)
        ensures
            item is None ==> r == Received::End && final(self).pending() == old(self).pending()
                && final(self).is_closed() == old(self).is_closed(),
            item is Some && old(self).is_closed() ==> r == Received::Unexpected(item->Some_0)
                && final(self).pending() == old(self).pending() && final(self).is_closed(),
            item is Some && !old(self).is_closed() ==> match item->Some_0 {
                Frame::Text(t) => r == Received::Message(t) && final(self).pending() == old(
                    self,
                ).pending() && !final(self).is_closed(),
                Frame::Ping(b) => r == Received::Answered && final(self).pending() == old(
                    self,
                ).pending().push(Frame::Pong(b)) && !final(self).is_closed(),
                Frame::Close(d) => r == Received::Answered && final(self).pending() == old(
                    self,
                ).pending().push(Frame::Close(d)) && final(self).is_closed(),
                other => r == Received::Unexpected(other) && final(self).pending() == old(
                    self,
                ).pending() && !final(self).is_closed(),
            },
    {
        match item {
            None => Received::End,
            Some(frame) => {
                if self.closed {
                    return Received::Unexpected(frame);
                }
                match frame {
                    Frame::Text(t) => Received::Message(t),
                    Frame::Ping(b) => {
                        self.buffer.push_back(Frame::Pong(b));
                        Received::Answered
                    },
                    Frame::Close(d) => {
                        self.closed = true;
                        self.buffer.push_back(Frame::Close(d));
                        Received::Answered
                    },
                    other => Received::Unexpected(other),
                }
            },
        }
    }
}

/// The queue once its oldest frame is taken to be sent.
pub open spec fn taken(q: Seq<Frame>) -> Seq<Frame> {
    q.drop_first()
}

/// The queue once a frame the transport refused is put back.
pub open spec fn requeued(q: Seq<Frame>, f: Frame) -> Seq<Frame> {
    seq![f] + q
}

/// The queue once a frame is queued behind the others.
pub open spec fn queued(q: Seq<Frame>, f: Frame) -> Seq<Frame> {
    q.push(f)
}

/// Backpressure keeps order: when the transport refuses the oldest frame, which is put
/// back, a frame queued afterwards waits behind all the earlier ones, and those keep
/// their order.
pub proof fn lemma_refusal_keeps_order(q: Seq<Frame>, m: Frame)
    requires
        q.len() > 0,
    ensures
        queued(requeued(taken(q), q[0]), m) == q.push(m),
{
    assert(queued(requeued(taken(q), q[0]), m) =~= q.push(m));
}

/// The text views of (key, value) entries.
pub open spec fn entry_views(s: Seq<(String, String)>) -> Seq<(Seq<char>, Seq<char>)> {
    s.map_values(|e: (String, String)| (e.0@, e.1@))
}

/// The text views of keys.
pub open spec fn key_views(s: Seq<String>) -> Seq<Seq<char>> {
    s.map_values(|k: String| k@)
}

/// The entries of `received`, in order, whose key is not among `keys`.
pub open spec fn missing_entries(
    received: Seq<(Seq<char>, Seq<char>)>,
    keys: Seq<Seq<char>>,
) -> Seq<(Seq<char>, Seq<char>)>
    decreases received.len(),
{
    if received.len() == 0 {
        Seq::empty()
    } else {
        let prev = missing_entries(received.drop_last(), keys);
        if keys.contains(received.last().0) {
            prev
        } else {
            prev.push(received.last())
        }
    }
}

fn contains_key(keys: &Vec<String>, key: &String) -> (r: bool)
    ensures
        r == key_views(keys@).contains(key@),
{
    let mut j: usize = 0;
    while j < keys.len()
        invariant
            j <= keys@.len(),
            forall|k: int| 0 <= k < j ==> keys@[k]@ != key@,
        decreases keys@.len() - j,
    {
        if keys[j] == *key {
            assert(key_views(keys@)[j as int] == key@);
            return true;
        }
        j = j + 1;
    }
    assert forall|k: int| 0 <= k < key_views(keys@).len() implies key_views(keys@)[k] != key@ by {
        assert(key_views(keys@)[k] == keys@[k]@);
    }
    false
}

/// The (key, value) entries of a received object whose keys the re-encoded message
/// lacks: what decoding lost.
pub fn missing_keys(received: &Vec<(String, String)>, reserialized: &Vec<String>) -> (r: Vec<
    (String, String),
>)
    ensures
        entry_views(r@) == missing_entries(entry_views(received@), key_views(reserialized@)),
{
    let mut r: Vec<(String, String)> = Vec::new();
    let mut i: usize = 0;
    while i < received.len()
        invariant
            i <= received@.len(),
            entry_views(r@) == missing_entries(
                entry_views(received@.subrange(0, i as int)),
                key_views(reserialized@),
            ),
        decreases received@.len() - i,
    {
        let ghost before = r@;
        assert(entry_views(received@.subrange(0, i + 1)).drop_last() =~= entry_views(
            received@.subrange(0, i as int),
        ));
        assert(entry_views(received@.subrange(0, i + 1)).last() == (
        received@[i as int].0@,
        received@[i as int].1@,
        ));
        if !contains_key(reserialized, &received[i].0) {
            let key = received[i].0.clone();
            let value = received[i].1.clone();
            r.push((key, value));
            assert(entry_views(r@) =~= entry_views(before).push((key@, value@)));
        }
        i = i + 1;
    }
    assert(received@.subrange(0, received@.len() as int) =~= received@);
    r
}

/// The (key, value) entries, values written as JSON, of `text` read as a JSON object;
/// `None` where it is not one.
pub uninterp spec fn json_object_entries(text: Seq<char>) -> Option<Seq<(Seq<char>, Seq<char>)>>;

/// Relies on serde_json::from_str into serde_json::Value, and on Value's text form for
/// each value: a function of the text alone.
#[verifier::external_body]
fn object_entries(text: &str) -> (r: Option<Vec<(String, String)>>)
    ensures
        r is Some <==> json_object_entries(text@) is Some,
        r is Some ==> entry_views(r->Some_0@) == json_object_entries(text@)->Some_0,
{
    match serde_json::from_str::<serde_json::Value>(text) {
        Ok(serde_json::Value::Object(items)) => Some(
            items.into_iter().map(|(k, v)| (k, v.to_string())).collect(),
        ),
        _ => None,
    }
}

fn keys_of(entries: &Vec<(String, String)>) -> (r: Vec<String>)
    ensures
        key_views(r@) == entry_views(entries@).map_values(|e: (Seq<char>, Seq<char>)| e.0),
{
    let mut r: Vec<String> = Vec::new();
    let mut i: usize = 0;
    while i < entries.len()
        invariant
            i <= entries@.len(),
            key_views(r@) =~= entry_views(entries@.subrange(0, i as int)).map_values(
                |e: (Seq<char>, Seq<char>)| e.0,
            ),
        decreases entries@.len() - i,
    {
        r.push(entries[i].0.clone());
        assert(entry_views(entries@.subrange(0, i + 1)).map_values(
            |e: (Seq<char>, Seq<char>)| e.0,
        ) =~= entry_views(entries@.subrange(0, i as int)).map_values(
            |e: (Seq<char>, Seq<char>)| e.0,
        ).push(entries@[i as int].0@));
        i = i + 1;
    }
    assert(entries@.subrange(0, entries@.len() as int) =~= entries@);
    r
}

/// What re-encoding a decoded message lost: the entries of the received object whose
/// keys the re-encoded object lacks, in the received object's order. `None` where
/// either text is not a JSON object.
pub fn lost_entries(received: &str, reencoded: &str) -> (r: Option<Vec<(String, String)>>)
    ensures
        match (json_object_entries(received@), json_object_entries(reencoded@)) {
            (Some(a), Some(b)) => r is Some && entry_views(r->Some_0@) == missing_entries(
                a,
                b.map_values(|e: (Seq<char>, Seq<char>)| e.0),
            ),
            _ => r is None,
        },
{
    let a = match object_entries(received) {
        Some(a) => a,
        None => return None,
    };
    let b = match object_entries(reencoded) {
        Some(b) => b,
        None => return None,
    };
    let keys = keys_of(&b);
    Some(missing_keys(&a, &keys))
}

} // verus!

use bytes::BytesMut;
use vstd::prelude::*;

use crate::bytes_buf::{buf_len, buf_prefix, buf_put_slice, buf_split_to, buf_with_capacity, held};
use crate::config::Config;
use crate::sniff::{classify, classify_spec, is_ss, is_tr, is_vl, is_vm, Protocol};

verus! {

/// Largest inbound message accepted; a larger one aborts the session.
pub const MAX_WEBSOCKET_SIZE: usize = 65536;

/// Most bytes the inbound buffer may hold.
pub const MAX_BUFFER_SIZE: usize = 524288;

/// How many bytes the classifier looks at.
pub const PEEK_BUFFER_LEN: usize = 62;

/// Fewest bytes the classifier needs: half of `PEEK_BUFFER_LEN`.
pub const MIN_PEEK_LEN: usize = 31;

/// Size of the scratch buffer of the single UDP read.
pub const UDP_SCRATCH_LEN: usize = 65535;

/// What the framed transport handed over next.
pub enum InboundEvent {
    /// A binary message.
    Binary(Vec<u8>),
    /// A message that carries no bytes (a text frame).
    Text,
    /// A close notification, or the end of the event stream.
    Close,
    /// A transport failure, with its description.
    Error(String),
}

/// Why the inbound side of the stream failed.
pub enum StreamError {
    /// A message larger than `MAX_WEBSOCKET_SIZE`.
    Oversized,
    /// The transport reported an error.
    Transport(String),
}

/// What became of one inbound message offered to the buffer.
#[derive(Clone, Copy, Debug, PartialEq, Eq, Structural)]
pub enum Admission {
    /// Appended to the buffer.
    Accepted,
    /// Held back: the buffer has no room for it yet.
    Deferred,
    /// Refused: larger than `MAX_WEBSOCKET_SIZE`.
    Oversized,
}

/// The outcome of one step of filling the buffer before classification.
pub enum FillStep {
    /// Still under the wanted length: hand over the next event.
    Continue,
    /// Stop filling: the length is reached, the transport closed, or the
    /// buffer holds back a message.
    Done,
    /// The session must abort.
    Failed(StreamError),
}

/// The outcome of one step of a read.
pub enum ReadStep {
    /// These bytes are the read's result.
    Ready(Vec<u8>),
    /// Nothing to return yet: hand over the next event.
    Poll,
    /// A held-back message waits for room: try again later.
    Blocked,
    /// End of stream.
    End,
    /// The session must abort.
    Failed(StreamError),
}

/// Why classification could not start or found no protocol.
#[derive(Clone, Copy, Debug, PartialEq, Eq, Structural)]
pub enum ProcessError {
    /// Fewer than `MIN_PEEK_LEN` bytes arrived before the transport closed.
    NotEnoughData,
    /// No protocol test matched.
    NotImplemented,
}

/// The transport of the outbound leg.
#[derive(Clone, Copy, Debug, PartialEq, Eq, Structural)]
pub enum TransportKind {
    Tcp,
    Udp,
}

/// Where the outbound leg goes.
pub struct Destination {
    pub host: String,
    pub port: u16,
}

/// What a protocol's header parser found at the start of the stream.
pub struct ParsedHeader {
    pub host: String,
    pub port: u16,
    pub kind: TransportKind,
    /// How many bytes the header takes at the start of the buffer.
    pub header_len: usize,
}

/// Why dispatching to a protocol handler failed.
pub enum DispatchError {
    /// The header parser rejected the stream.
    Parser(String),
    /// The header names port zero.
    ZeroPort,
    /// The header is longer than what is buffered.
    HeaderTooLong,
}

/// The byte-stream view of a message-framed transport: inbound messages are
/// buffered, then read in arrival order.
pub struct ProxyStream {
    pub config: Config,
    pub buffer: BytesMut,
    /// An inbound message that did not fit yet; admitted once reads make room.
    pub deferred: Option<Vec<u8>>,
    /// Every byte taken in from the transport, in order.
    pub received: Ghost<Seq<u8>>,
    /// Every byte handed out by reads, in order.
    pub delivered: Ghost<Seq<u8>>,
}

pub open spec fn min_int(a: int, b: int) -> int {
    if a <= b {
        a
    } else {
        b
    }
}

impl ProxyStream {
    pub open spec fn buffered(&self) -> Seq<u8> {
        held(self.buffer)
    }

    pub open spec fn deferred_bytes(&self) -> Seq<u8> {
        match self.deferred {
            Some(m) => m@,
            None => Seq::empty(),
        }
    }

    /// The buffer stays under its ceiling, a held-back message under the
    /// message ceiling, and no byte is lost, duplicated or reordered.
    pub open spec fn wf(&self) -> bool {
        &&& self.buffered().len() <= MAX_BUFFER_SIZE
        &&& self.deferred_bytes().len() <= MAX_WEBSOCKET_SIZE
        &&& self.received@ == self.delivered@ + self.buffered() + self.deferred_bytes()
    }

    /// Whether a message of `len` bytes has room after the buffered bytes.
    pub open spec fn fits(&self, len: int) -> bool {
        self.buffered().len() + len <= MAX_BUFFER_SIZE
    }

    /// A held-back message that still has no room.
    pub open spec fn stays_deferred(&self) -> bool {
        self.deferred is Some && !self.fits(self.deferred_bytes().len() as int)
    }

    /// The buffered bytes once a held-back message that fits is appended.
    pub open spec fn readable(&self) -> Seq<u8> {
        if self.stays_deferred() {
            self.buffered()
        } else {
            self.buffered() + self.deferred_bytes()
        }
    }

    pub open spec fn filled(&self, n: int) -> bool {
        self.buffered().len() >= n || self.deferred is Some
    }

    /// `self` and `other` differ in nothing but the ghost history.
    pub open spec fn same_state(&self, other: &ProxyStream) -> bool {
        &&& self.config == other.config
        &&& self.buffered() == other.buffered()
        &&& self.deferred == other.deferred
        &&& self.received@ == other.received@
        &&& self.delivered@ == other.delivered@
    }

    /// A stream with an empty buffer.
    pub fn new(config: Config) -> (r: ProxyStream)
        ensures
            r.wf(),
            r.config == config,
            r.buffered() == Seq::<u8>::empty(),
            r.deferred is None,
            r.received@ == Seq::<u8>::empty(),
            r.delivered@ == Seq::<u8>::empty(),
    {
        let buffer = buf_with_capacity(MAX_BUFFER_SIZE);
        ProxyStream {
            config,
            buffer,
            deferred: None,
            received: Ghost(Seq::empty()),
            delivered: Ghost(Seq::empty()),
        }
    }

    /// The number of buffered bytes.
    pub fn buffered_len(&self) -> (r: usize)
        ensures
            r == self.buffered().len(),
    {
        buf_len(&self.buffer)
    }

    /// Whether filling toward `n` bytes is over: `n` bytes are buffered or
    /// a message is held back.
    pub fn is_filled(&self, n: usize) -> (r: bool)
        ensures
            r == self.filled(n as int),
    {
        buf_len(&self.buffer) >= n || self.deferred.is_some()
    }

    /// Offers one inbound message to the buffer: refused when larger than
    /// `MAX_WEBSOCKET_SIZE`, held back when the buffer would pass
    /// `MAX_BUFFER_SIZE`, appended otherwise.
    pub fn offer_message(&mut self, data: Vec<u8>) -> (r: Admission)
        requires
            old(self).wf(),
            old(self).deferred is None,
        ensures
            final(self).wf(),
            final(self).config == old(self).config,
            final(self).delivered@ == old(self).delivered@,
            r == (if data@.len() > MAX_WEBSOCKET_SIZE {
                Admission::Oversized
            } else if !old(self).fits(data@.len() as int) {
                Admission::Deferred
            } else {
                Admission::Accepted
            }),
            r == Admission::Oversized ==> final(self).same_state(old(self)),
            r == Admission::Deferred ==> {
                &&& final(self).buffered() == old(self).buffered()
                &&& final(self).deferred == Some(data)
                &&& final(self).received@ == old(self).received@ + data@
            },
            r == Admission::Accepted ==> {
                &&& final(self).buffered() == old(self).buffered() + data@
                &&& final(self).deferred is None
                &&& final(self).received@ == old(self).received@ + data@
            },
    {
        if data.len() > MAX_WEBSOCKET_SIZE {
            return Admission::Oversized;
        }
        let len = buf_len(&self.buffer);
        proof {
            self.received@ = self.received@ + data@;
        }
        if len + data.len() > MAX_BUFFER_SIZE {
            self.deferred = Some(data);
            Admission::Deferred
        } else {
            buf_put_slice(&mut self.buffer, data.as_slice());
            proof {
                assert(self.received@ =~= self.delivered@ + self.buffered());
            }
            Admission::Accepted
        }
    }
    /// The first bytes that the classifier looks at.
    pub open spec fn peeked(&self) -> Seq<u8> {
        self.buffered().take(min_int(self.buffered().len() as int, PEEK_BUFFER_LEN as int))
    }

    /// What classification of the buffered prefix yields.
    pub open spec fn process_spec(&self) -> Result<Protocol, ProcessError> {
        if self.peeked().len() < MIN_PEEK_LEN {
            Err(ProcessError::NotEnoughData)
        } else if classify_spec(self.peeked()) == Protocol::Unrecognized {
            Err(ProcessError::NotImplemented)
        } else {
            Ok(classify_spec(self.peeked()))
        }
    }

    /// One step of filling the buffer toward `n` bytes before classification,
    /// on the next event of the transport.
    pub fn fill_buffer_until(&mut self, n: usize, event: InboundEvent) -> (r: FillStep)
        requires
            old(self).wf(),
            old(self).deferred is None,
        ensures
            final(self).wf(),
            final(self).config == old(self).config,
            final(self).delivered@ == old(self).delivered@,
            match event {
                InboundEvent::Binary(d) => if d@.len() > MAX_WEBSOCKET_SIZE {
                    r == FillStep::Failed(StreamError::Oversized) && final(self).same_state(
                        old(self),
                    )
                } else if !old(self).fits(d@.len() as int) {
                    &&& r == FillStep::Done
                    &&& final(self).buffered() == old(self).buffered()
                    &&& final(self).deferred == Some(d)
                    &&& final(self).received@ == old(self).received@ + d@
                } else {
                    &&& final(self).buffered() == old(self).buffered() + d@
                    &&& final(self).deferred is None
                    &&& final(self).received@ == old(self).received@ + d@
                    &&& r == if final(self).buffered().len() >= n {
                        FillStep::Done
                    } else {
                        FillStep::Continue
                    }
                },
                InboundEvent::Text => final(self).same_state(old(self)) && r == if old(
                    self,
                ).buffered().len() >= n {
                    FillStep::Done
                } else {
                    FillStep::Continue
                },
                InboundEvent::Close => final(self).same_state(old(self)) && r == FillStep::Done,
                InboundEvent::Error(e) => final(self).same_state(old(self)) && r
                    == FillStep::Failed(StreamError::Transport(e)),
            },
    {
        match event {
            InboundEvent::Binary(d) => match self.offer_message(d) {
                Admission::Oversized => FillStep::Failed(StreamError::Oversized),
                Admission::Deferred => FillStep::Done,
                Admission::Accepted => {
                    if buf_len(&self.buffer) >= n {
                        FillStep::Done
                    } else {
                        FillStep::Continue
                    }
                },
            },
            InboundEvent::Text => {
                if buf_len(&self.buffer) >= n {
                    FillStep::Done
                } else {
                    FillStep::Continue
                }
            },
            InboundEvent::Close => FillStep::Done,
            InboundEvent::Error(e) => FillStep::Failed(StreamError::Transport(e)),
        }
    }

    /// The first `min(n, buffered length)` buffered bytes, left in place.
    pub fn peek_buffer(&self, n: usize) -> (r: &[u8])
        ensures
            r@ == self.buffered().take(min_int(self.buffered().len() as int, n as int)),
    {
        let len: usize = buf_len(&self.buffer);
        let len: usize = if len < n {
            len
        } else {
            n
        };
        buf_prefix(&self.buffer, len)
    }

    /// Classifies the buffered prefix once filling is over: too few bytes is
    /// an error, and so is a prefix that no protocol test matches.
    pub fn process(&self) -> (r: Result<Protocol, ProcessError>)
        ensures
            r == self.process_spec(),
    {
        let peeked = self.peek_buffer(PEEK_BUFFER_LEN);
        if peeked.len() < MIN_PEEK_LEN {
            return Err(ProcessError::NotEnoughData);
        }
        match classify(peeked) {
            Protocol::Unrecognized => Err(ProcessError::NotImplemented),
            p => Ok(p),
        }
    }

    /// Whether `buffer` starts with the VLESS sentinel.
    pub fn is_vl(&self, buffer: &[u8]) -> (r: bool)
        ensures
            r == crate::sniff::vless_matches(buffer@),
    {
        is_vl(buffer)
    }

    /// The read side, first step: admits a held-back message that now fits,
    /// then hands out up to `capacity` buffered bytes, oldest first.
    pub fn read_buffered(&mut self, capacity: usize) -> (r: ReadStep)
        requires
            old(self).wf(),
        ensures
            final(self).wf(),
            final(self).config == old(self).config,
            final(self).received@ == old(self).received@,
            ({
                let size = min_int(old(self).readable().len() as int, capacity as int);
                &&& final(self).buffered() == old(self).readable().skip(size)
                &&& final(self).delivered@ == old(self).delivered@ + old(self).readable().take(size)
                &&& if old(self).stays_deferred() {
                    final(self).deferred == old(self).deferred
                } else {
                    final(self).deferred is None
                }
                &&& size > 0 ==> r is Ready && r->Ready_0@ == old(self).readable().take(size)
                &&& r is Ready ==> final(self).delivered@ == old(self).delivered@ + r->Ready_0@
                &&& !(r is Ready) ==> final(self).delivered@ == old(self).delivered@
                &&& size == 0 ==> if old(self).stays_deferred() {
                    r is Blocked
                } else {
                    r is Poll
                }
            }),
    {
        let len: usize = buf_len(&self.buffer);
        let mut admit_it = false;
        match &self.deferred {
            Some(m) => {
                if len + m.len() <= MAX_BUFFER_SIZE {
                    buf_put_slice(&mut self.buffer, m.as_slice());
                    admit_it = true;
                }
            },
            None => {},
        }
        if admit_it {
            self.deferred = None;
        }
        let ghost readable = self.buffered();
        assert(readable == old(self).readable());
        assert(self.received@ =~= self.delivered@ + self.buffered() + self.deferred_bytes());
        let len: usize = buf_len(&self.buffer);
        let size: usize = if len < capacity {
            len
        } else {
            capacity
        };
        if size > 0 {
            let chunk = buf_split_to(&mut self.buffer, size);
            proof {
                self.delivered@ = self.delivered@ + chunk@;
                assert(readable =~= readable.take(size as int) + readable.skip(size as int));
                assert(self.received@ =~= self.delivered@ + self.buffered()
                    + self.deferred_bytes());
            }
            ReadStep::Ready(chunk)
        } else if self.deferred.is_some() {
            ReadStep::Blocked
        } else {
            proof {
                assert(readable.take(0) =~= Seq::<u8>::empty());
                assert(self.delivered@ =~= self.delivered@ + readable.take(0));
            }
            ReadStep::Poll
        }
    }

    /// The read side, second step, taken after `read_buffered` asked for an
    /// event: a message is admitted under the two ceilings, a close ends the
    /// stream, a transport error fails the read.
    pub fn read_event(&mut self, event: InboundEvent) -> (r: ReadStep)
        requires
            old(self).wf(),
            old(self).deferred is None,
        ensures
            final(self).wf(),
            final(self).config == old(self).config,
            final(self).delivered@ == old(self).delivered@,
            match event {
                InboundEvent::Binary(d) => if d@.len() > MAX_WEBSOCKET_SIZE {
                    r == ReadStep::Failed(StreamError::Oversized) && final(self).same_state(
                        old(self),
                    )
                } else if !old(self).fits(d@.len() as int) {
                    &&& r is Blocked
                    &&& final(self).buffered() == old(self).buffered()
                    &&& final(self).deferred == Some(d)
                    &&& final(self).received@ == old(self).received@ + d@
                } else {
                    &&& r is Poll
                    &&& final(self).buffered() == old(self).buffered() + d@
                    &&& final(self).deferred is None
                    &&& final(self).received@ == old(self).received@ + d@
                },
                InboundEvent::Text => final(self).same_state(old(self)) && r is Poll,
                InboundEvent::Close => final(self).same_state(old(self)) && r is End,
                InboundEvent::Error(e) => final(self).same_state(old(self)) && r
                    == ReadStep::Failed(StreamError::Transport(e)),
            },
    {
        match event {
            InboundEvent::Binary(d) => match self.offer_message(d) {
                Admission::Oversized => ReadStep::Failed(StreamError::Oversized),
                Admission::Deferred => ReadStep::Blocked,
                Admission::Accepted => ReadStep::Poll,
            },
            InboundEvent::Text => ReadStep::Poll,
            InboundEvent::Close => ReadStep::End,
            InboundEvent::Error(e) => ReadStep::Failed(StreamError::Transport(e)),
        }
    }

    /// Takes the result of the protocol's header parser: a header that names
    /// port zero, or claims more bytes than are buffered, is refused;
    /// otherwise its bytes leave the buffer and the destination is returned.
    pub fn dispatch(&mut self, parsed: Result<ParsedHeader, String>) -> (r: Result<
        (Destination, TransportKind),
        DispatchError,
    >)
        requires
            old(self).wf(),
        ensures
            final(self).wf(),
            final(self).config == old(self).config,
            final(self).received@ == old(self).received@,
            final(self).deferred == old(self).deferred,
            match parsed {
                Err(e) => r == Err::<(Destination, TransportKind), _>(DispatchError::Parser(e))
                    && final(self).same_state(old(self)),
                Ok(h) => if h.port == 0 {
                    r == Err::<(Destination, TransportKind), _>(DispatchError::ZeroPort)
                        && final(self).same_state(old(self))
                } else if h.header_len > old(self).buffered().len() {
                    r == Err::<(Destination, TransportKind), _>(DispatchError::HeaderTooLong)
                        && final(self).same_state(old(self))
                } else {
                    &&& r is Ok
                    &&& r->Ok_0.0.host == h.host
                    &&& r->Ok_0.0.port == h.port
                    &&& r->Ok_0.1 == h.kind
                    &&& final(self).buffered() == old(self).buffered().skip(h.header_len as int)
                    &&& final(self).delivered@ == old(self).delivered@ + old(self).buffered().take(
                        h.header_len as int,
                    )
                },
            },
    {
        match parsed {
            Err(e) => Err(DispatchError::Parser(e)),
            Ok(h) => {
                if h.port == 0 {
                    return Err(DispatchError::ZeroPort);
                }
                if h.header_len > buf_len(&self.buffer) {
                    return Err(DispatchError::HeaderTooLong);
                }
                let ghost before = self.buffered();
                let header = buf_split_to(&mut self.buffer, h.header_len);
                proof {
                    self.delivered@ = self.delivered@ + header@;
                    assert(before =~= before.take(h.header_len as int) + before.skip(
                        h.header_len as int,
                    ));
                    assert(self.received@ =~= self.delivered@ + self.buffered()
                        + self.deferred_bytes());
                }
                Ok((Destination { host: h.host, port: h.port }, h.kind))
            },
        }
    }

    /// The single UDP exchange: the resolver's response to the query read
    /// from the stream is written back; when resolution failed the datagram
    /// is dropped.
    pub fn handle_udp_outbound(&self, response: Result<Vec<u8>, String>) -> (r: Option<Vec<u8>>)
        ensures
            match response {
                Ok(answer) => r == Some(answer),
                Err(_) => r is None,
            },
    {
        match response {
            Ok(answer) => Some(answer),
            Err(_) => None,
        }
    }
}

/// Buffer ceiling: a well-formed stream never buffers more than
/// `MAX_BUFFER_SIZE` bytes, and once reads have emptied the buffer a
/// held-back message fits, so the next read hands its bytes out.
pub proof fn lemma_buffer_ceiling(s: ProxyStream)
    requires
        s.wf(),
    ensures
        s.buffered().len() <= MAX_BUFFER_SIZE,
        s.buffered().len() == 0 ==> !s.stays_deferred() && s.readable() == s.deferred_bytes(),
{
    if s.buffered().len() == 0 {
        assert(s.buffered() + s.deferred_bytes() =~= s.deferred_bytes());
    }
}

/// Reads hand out the received bytes in arrival order, whatever the message
/// boundaries: what was delivered is a prefix of what was received, and the
/// rest is the buffered bytes followed by a held-back message.
pub proof fn lemma_reads_in_arrival_order(s: ProxyStream)
    requires
        s.wf(),
    ensures
        s.delivered@.len() <= s.received@.len(),
        s.received@.take(s.delivered@.len() as int) == s.delivered@,
        s.received@.skip(s.delivered@.len() as int) == s.buffered() + s.deferred_bytes(),
{
    assert(s.received@.take(s.delivered@.len() as int) =~= s.delivered@);
    assert(s.received@.skip(s.delivered@.len() as int) =~= s.buffered() + s.deferred_bytes());
}

/// The bytes of `chunks`, one after another.
pub open spec fn flatten(chunks: Seq<Seq<u8>>) -> Seq<u8>
    decreases chunks.len(),
{
    if chunks.len() == 0 {
        Seq::empty()
    } else {
        flatten(chunks.drop_last()) + chunks.last()
    }
}

/// Read/write round trip over a whole run of calls: take the states of one
/// stream before and after each call, where a call hands out `chunks[i]`
/// (empty for a call that returned no bytes), as `read_buffered`,
/// `read_event`, `fill_buffer_until` and `dispatch` state of `delivered`.
/// Then the chunks, one after another, are exactly the bytes received since
/// the first state that are no longer buffered or held back; so once the
/// stream is drained, they are everything it received, in arrival order.
pub proof fn lemma_read_sequence(states: Seq<ProxyStream>, chunks: Seq<Seq<u8>>)
    requires
        states.len() == chunks.len() + 1,
        forall|i: int| 0 <= i < states.len() ==> #[trigger] states[i].wf(),
        forall|i: int|
            0 <= i < chunks.len() ==> #[trigger] states[i + 1].delivered@ == states[i].delivered@
                + chunks[i],
    ensures
        states.last().delivered@ == states[0].delivered@ + flatten(chunks),
        states.last().received@ == states[0].delivered@ + flatten(chunks)
            + states.last().buffered() + states.last().deferred_bytes(),
        states[0].delivered@.len() == 0 && states.last().buffered().len() == 0
            && states.last().deferred is None ==> flatten(chunks) == states.last().received@,
    decreases chunks.len(),
{
    if chunks.len() > 0 {
        let k = chunks.len() - 1;
        let front = states.drop_last();
        let first = chunks.drop_last();
        assert forall|i: int| 0 <= i < front.len() implies #[trigger] front[i].wf() by {
            assert(front[i] == states[i]);
        }
        assert forall|i: int| 0 <= i < first.len() implies #[trigger] front[i + 1].delivered@
            == front[i].delivered@ + first[i] by {
            assert(front[i + 1] == states[i + 1]);
            assert(front[i] == states[i]);
            assert(first[i] == chunks[i]);
        }
        lemma_read_sequence(front, first);
        assert(front.last() == states[k]);
        assert(states[k + 1].delivered@ == states[k].delivered@ + chunks[k]);
        assert(states.last() == states[k + 1]);
        assert(states.last().delivered@ =~= states[0].delivered@ + flatten(chunks));
    } else {
        assert(states.last() == states[0]);
        assert(states[0].delivered@ + flatten(chunks) =~= states[0].delivered@);
    }
    let last = states.last();
    assert(states.len() - 1 < states.len());
    assert(last.wf());
    assert(last.received@ =~= states[0].delivered@ + flatten(chunks) + last.buffered()
        + last.deferred_bytes());
    if states[0].delivered@.len() == 0 && last.buffered().len() == 0 && last.deferred is None {
        assert(states[0].delivered@ =~= Seq::<u8>::empty());
        assert(flatten(chunks) =~= last.received@);
    }
}

/// Filling over a run of events: take the states of one stream before and
/// after each call, where a call took in `messages[i]` (empty for an event
/// that carried no bytes or was refused) and handed nothing out, as
/// `fill_buffer_until` states. Then everything taken in is the messages'
/// bytes in order; and on a stream that had taken in nothing, the buffer
/// followed by a held-back message is exactly those bytes. So a close before
/// the wanted length leaves in the buffer exactly what arrived, however
/// short.
pub proof fn lemma_fill_sequence(states: Seq<ProxyStream>, messages: Seq<Seq<u8>>)
    requires
        states.len() == messages.len() + 1,
        forall|i: int| 0 <= i < states.len() ==> #[trigger] states[i].wf(),
        forall|i: int|
            0 <= i < messages.len() ==> #[trigger] states[i + 1].received@ == states[i].received@
                + messages[i],
        forall|i: int|
            0 <= i < messages.len() ==> #[trigger] states[i + 1].delivered@ == states[i].delivered@,
    ensures
        states.last().received@ == states[0].received@ + flatten(messages),
        states.last().delivered@ == states[0].delivered@,
        states[0].received@.len() == 0 ==> states.last().buffered() + states.last().deferred_bytes()
            == flatten(messages),
    decreases messages.len(),
{
    if messages.len() > 0 {
        let k = messages.len() - 1;
        let front = states.drop_last();
        let first = messages.drop_last();
        assert forall|i: int| 0 <= i < front.len() implies #[trigger] front[i].wf() by {
            assert(front[i] == states[i]);
        }
        assert forall|i: int| 0 <= i < first.len() implies #[trigger] front[i + 1].received@
            == front[i].received@ + first[i] by {
            assert(front[i + 1] == states[i + 1]);
            assert(front[i] == states[i]);
            assert(first[i] == messages[i]);
        }
        assert forall|i: int| 0 <= i < first.len() implies #[trigger] front[i + 1].delivered@
            == front[i].delivered@ by {
            assert(front[i + 1] == states[i + 1]);
            assert(front[i] == states[i]);
        }
        lemma_fill_sequence(front, first);
        assert(front.last() == states[k]);
        assert(states[k + 1].received@ == states[k].received@ + messages[k]);
        assert(states[k + 1].delivered@ == states[k].delivered@);
        assert(states.last() == states[k + 1]);
        assert(states.last().received@ =~= states[0].received@ + flatten(messages));
    } else {
        assert(states.last() == states[0]);
        assert(states[0].received@ + flatten(messages) =~= states[0].received@);
    }
    let last = states.last();
    assert(states.len() - 1 < states.len());
    assert(last.wf());
    assert(states[0].wf());
    if states[0].received@.len() == 0 {
        assert(states[0].delivered@.len() == 0);
        assert(last.delivered@ =~= Seq::<u8>::empty());
        assert(last.received@ =~= flatten(messages));
        assert(last.buffered() + last.deferred_bytes() =~= last.received@);
    }
}

} // verus!

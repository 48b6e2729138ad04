//! NATS mediated byte-duplex channel: what its two ends decide between network
//! calls.
//!
//! NATS subjects carry opaque ordered byte chunks for one binding direction; they
//! do not become a protocol of their own.
use std::collections::VecDeque;
use vstd::prelude::*;
use vstd::string::*;

verus! {

/// Address for one side of a NATS mediated byte-duplex channel.
///
/// `inbox_subject` is subscribed by this endpoint and `outbox_subject` is published
/// by this endpoint. The peer must use the same pair reversed.
#[derive(Debug, Clone, PartialEq, Eq)]
pub struct NatsAddress {
    /// NATS server URL.
    pub url: String,
    /// Subject this side reads from.
    pub inbox_subject: String,
    /// Subject this side publishes to.
    pub outbox_subject: String,
}

impl NatsAddress {
    /// Build a NATS address.
    pub fn new(url: &str, inbox_subject: &str, outbox_subject: &str) -> (address: Self)
        ensures
            address.url@ == url@,
            address.inbox_subject@ == inbox_subject@,
            address.outbox_subject@ == outbox_subject@,
    {
        NatsAddress {
            url: url.to_owned(),
            inbox_subject: inbox_subject.to_owned(),
            outbox_subject: outbox_subject.to_owned(),
        }
    }
}

/// The `trace_context` that a span reports: the `traceparent` header, or `absent`.
pub fn trace_label<'a>(traceparent: Option<&'a str>) -> (label: &'a str)
    ensures
        label@ == (match traceparent {
            Some(parent) => parent@,
            None => "absent"@,
        }),
{
    match traceparent {
        Some(parent) => parent,
        None => "absent",
    }
}

/// How far one side of a channel is on its way to being open.
#[derive(Debug, Clone, Copy, PartialEq, Eq, Structural)]
pub enum OpeningStage {
    /// The inbox is being subscribed to.
    Subscribing,
    /// The subscription is being flushed to the server.
    Flushing,
}

/// Error returned while establishing a NATS-mediated channel.
#[derive(Debug, Clone, PartialEq, Eq)]
pub enum NatsChannelError {
    /// NATS subscription failed.
    Subscribe {
        /// Subject this side reads from.
        subject: String,
        /// The text of the underlying NATS error.
        source: String,
    },
    /// NATS subscription could not be flushed to the server.
    Flush {
        /// Subject this side reads from.
        subject: String,
        /// The text of the underlying NATS error.
        source: String,
    },
}

/// A [`NatsChannelError`] with its texts as character sequences.
pub enum ChannelErrorView {
    Subscribe { subject: Seq<char>, source: Seq<char> },
    Flush { subject: Seq<char>, source: Seq<char> },
}

impl View for NatsChannelError {
    type V = ChannelErrorView;

    open spec fn view(&self) -> ChannelErrorView {
        match *self {
            NatsChannelError::Subscribe { subject, source } => ChannelErrorView::Subscribe {
                subject: subject@,
                source: source@,
            },
            NatsChannelError::Flush { subject, source } => ChannelErrorView::Flush {
                subject: subject@,
                source: source@,
            },
        }
    }
}

impl ChannelErrorView {
    /// The text that a person reads of the error.
    pub open spec fn text(self) -> Seq<char> {
        match self {
            ChannelErrorView::Subscribe { subject, source } =>
                "failed to subscribe to NATS subject '"@ + subject + "': "@ + source,
            ChannelErrorView::Flush { subject, source } =>
                "failed to flush NATS subscription for subject '"@ + subject + "': "@ + source,
        }
    }
}

impl NatsChannelError {
    /// The text that a person reads of the error.
    pub fn message(&self) -> (text: String)
        ensures
            text@ == self@.text(),
    {
        match self {
            NatsChannelError::Subscribe { subject, source } =>
                "failed to subscribe to NATS subject '".to_owned().concat(subject.as_str()).concat(
                "': ",
            ).concat(source.as_str()),
            NatsChannelError::Flush { subject, source } =>
                "failed to flush NATS subscription for subject '".to_owned().concat(
                subject.as_str(),
            ).concat("': ").concat(source.as_str()),
        }
    }
}

/// What opening a channel comes to after a network call: the next stage, the open
/// channel, or a failure.
#[derive(Debug)]
pub enum OpeningStep {
    Next(OpeningStage),
    Open,
    Failed(NatsChannelError),
}

/// The error of a failed opening.
pub open spec fn opening_failure(
    stage: OpeningStage,
    subject: Seq<char>,
    source: Seq<char>,
) -> ChannelErrorView {
    match stage {
        OpeningStage::Subscribing => ChannelErrorView::Subscribe { subject, source },
        OpeningStage::Flushing => ChannelErrorView::Flush { subject, source },
    }
}

/// Go on opening a channel that reads from `inbox_subject`: subscribe, then flush,
/// then the channel is open. `failure` is the text of a failed network call's error.
pub fn opening_step(stage: OpeningStage, inbox_subject: &str, failure: Option<String>) -> (step:
    OpeningStep)
    ensures
        match failure {
            Some(source) => step matches OpeningStep::Failed(error) && error@
                == opening_failure(stage, inbox_subject@, source@),
            None => match stage {
                OpeningStage::Subscribing => step == OpeningStep::Next(OpeningStage::Flushing),
                OpeningStage::Flushing => step == OpeningStep::Open,
            },
        },
{
    match failure {
        Some(source) => {
            let subject = inbox_subject.to_owned();
            OpeningStep::Failed(
                match stage {
                    OpeningStage::Subscribing => NatsChannelError::Subscribe { subject, source },
                    OpeningStage::Flushing => NatsChannelError::Flush { subject, source },
                },
            )
        },
        None => match stage {
            OpeningStage::Subscribing => OpeningStep::Next(OpeningStage::Flushing),
            OpeningStage::Flushing => OpeningStep::Open,
        },
    }
}

/// What the reader task has seen.
#[derive(Debug, Clone, Copy, PartialEq, Eq, Structural)]
pub enum ReaderEvent {
    /// A message arrived and the channel took its payload.
    Forwarded,
    /// A message arrived, but the channel is gone.
    Refused,
    /// The subscription ended.
    Ended,
}

/// Whether the reader task goes on. Where it does not, the channel is closed.
pub fn reader_goes_on(event: ReaderEvent) -> (goes_on: bool)
    ensures
        goes_on == (event == ReaderEvent::Forwarded),
{
    match event {
        ReaderEvent::Forwarded => true,
        ReaderEvent::Refused => false,
        ReaderEvent::Ended => false,
    }
}

/// What the writer task answers for a chunk, and whether it goes on. Where it does
/// not, the channel is closed.
pub fn writer_step(published: bool) -> (step: (Result<(), String>, bool))
    ensures
        published ==> step.0 is Ok && step.1,
        !published ==> step.0 is Err && step.0->Err_0@ == "failed to publish to NATS subject"@
            && !step.1,
{
    if published {
        (Ok(()), true)
    } else {
        (Err("failed to publish to NATS subject".to_owned()), false)
    }
}

/// What an open channel holds: the bytes that were received and not yet read, how
/// many published chunks are not yet confirmed, and whether it was closed.
#[derive(Debug)]
pub struct DuplexState {
    inbound: VecDeque<u8>,
    pending: usize,
    closed: bool,
}

/// A [`DuplexState`] by its views.
pub struct DuplexView {
    pub inbound: Seq<u8>,
    pub pending: nat,
    pub closed: bool,
}

impl View for DuplexState {
    type V = DuplexView;

    closed spec fn view(&self) -> DuplexView {
        DuplexView { inbound: self.inbound@, pending: self.pending as nat, closed: self.closed }
    }
}

/// What the inbound queue has for a read.
#[derive(Debug)]
pub enum Inbound {
    /// The queue was not asked: there are bytes left to read.
    Unasked,
    /// A payload.
    Payload(Vec<u8>),
    /// The queue is closed and empty.
    Ended,
    /// Nothing yet.
    Waiting,
}

/// How many bytes a read of at most `room` takes from `available`.
pub open spec fn taken(available: nat, room: nat) -> nat {
    if available < room {
        available
    } else {
        room
    }
}

/// What a write comes to.
#[derive(Debug, Clone, Copy, PartialEq, Eq)]
pub enum WriteStep {
    /// The channel is broken, with the message.
    Broken(&'static str),
    /// There is nothing to write.
    Nothing,
    /// Hand the data to the writer.
    Send,
}

/// What the writer task says of the oldest unconfirmed chunk.
#[derive(Debug)]
pub enum Confirmation {
    /// Nothing yet.
    Waiting,
    /// It was published.
    Published,
    /// It was not, with the message.
    Failed(String),
    /// The writer is gone.
    Dropped,
}

/// What a flush comes to.
#[derive(Debug)]
pub enum FlushStep {
    /// Every chunk is confirmed.
    Done,
    /// Ask for the next confirmation.
    More,
    /// Wait.
    Waiting,
    /// The channel is broken, with the message.
    Broken(String),
}

impl DuplexState {
    /// A channel that was just opened.
    pub fn new() -> (state: Self)
        ensures
            state@ == (DuplexView { inbound: Seq::empty(), pending: 0, closed: false }),
    {
        let state = DuplexState { inbound: VecDeque::new(), pending: 0, closed: false };
        assert(state@.inbound =~= Seq::empty());
        state
    }

    /// Whether a read has to ask the inbound queue first.
    pub fn needs_payload(&self) -> (needs: bool)
        ensures
            needs == (self@.inbound.len() == 0),
    {
        self.inbound.len() == 0
    }

    /// Read at most `room` bytes: the oldest received bytes, in order. `None` means
    /// to wait; no bytes mean the end of the stream. A payload joins the bytes that
    /// are left.
    pub fn read(&mut self, inbound: Inbound, room: usize) -> (bytes: Option<Vec<u8>>)
        requires
            inbound is Unasked <==> old(self)@.inbound.len() > 0,
        ensures
            final(self)@.pending == old(self)@.pending,
            final(self)@.closed == old(self)@.closed,
            ({
                let available = match inbound {
                    Inbound::Payload(payload) => old(self)@.inbound + payload@,
                    _ => old(self)@.inbound,
                };
                match inbound {
                    Inbound::Waiting => bytes is None && final(self)@.inbound == available,
                    _ => {
                        let n = taken(available.len(), room as nat);
                        &&& bytes is Some
                        &&& bytes->0@ == available.take(n as int)
                        &&& final(self)@.inbound == available.skip(n as int)
                    },
                }
            }),
    {
        match inbound {
            Inbound::Waiting => return None,
            Inbound::Payload(payload) => {
                let mut i: usize = 0;
                assert(payload@.take(0) =~= Seq::empty());
                assert(self.inbound@ =~= old(self)@.inbound + payload@.take(0));
                while i < payload.len()
                    invariant
                        i <= payload@.len(),
                        self.inbound@ == old(self)@.inbound + payload@.take(i as int),
                        self.pending as nat == old(self)@.pending,
                        self.closed == old(self)@.closed,
                    decreases payload@.len() - i,
                {
                    self.inbound.push_back(payload[i]);
                    i += 1;
                    assert(payload@.take(i as int) =~= payload@.take(i - 1).push(payload@[i - 1]));
                    assert(self.inbound@ =~= old(self)@.inbound + payload@.take(i as int));
                }
                assert(payload@.take(payload@.len() as int) =~= payload@);
            },
            _ => {},
        }
        let ghost available = self.inbound@;
        let mut bytes: Vec<u8> = Vec::new();
        assert(available.skip(0) =~= available);
        assert(available.take(0) =~= Seq::empty());
        while bytes.len() < room && self.inbound.len() > 0
            invariant
                bytes@.len() <= room,
                bytes@.len() <= available.len(),
                bytes@ == available.take(bytes@.len() as int),
                self.inbound@ == available.skip(bytes@.len() as int),
                self.pending as nat == old(self)@.pending,
                self.closed == old(self)@.closed,
            decreases room - bytes@.len(),
        {
            let ghost n = bytes@.len() as int;
            match self.inbound.pop_front() {
                Some(byte) => {
                    bytes.push(byte);
                    assert(bytes@ =~= available.take(n + 1));
                    assert(self.inbound@ =~= available.skip(n + 1));
                },
                None => {},
            }
        }
        Some(bytes)
    }

    /// What a write of `len` bytes comes to, before the writer is asked. `closed`
    /// says whether a task has closed the channel.
    pub fn check_write(&self, closed: bool, len: usize) -> (step: WriteStep)
        ensures
            match step {
                WriteStep::Broken(message) => (closed || self@.closed) && message@
                    == "NATS mediated channel is closed"@,
                WriteStep::Nothing => !closed && !self@.closed && len == 0,
                WriteStep::Send => !closed && !self@.closed && len > 0,
            },
    {
        if closed || self.closed {
            WriteStep::Broken("NATS mediated channel is closed")
        } else if len == 0 {
            WriteStep::Nothing
        } else {
            WriteStep::Send
        }
    }

    /// What a write of `len` bytes comes to, once the writer has taken the chunk or
    /// was found gone. A taken chunk awaits confirmation.
    pub fn sent(&mut self, accepted: bool, len: usize) -> (r: Result<usize, &'static str>)
        requires
            old(self)@.pending < usize::MAX,
        ensures
            accepted ==> r == Ok::<usize, &'static str>(len) && final(self)@ == (DuplexView {
                pending: old(self)@.pending + 1,
                ..old(self)@
            }),
            !accepted ==> r is Err && r->Err_0@ == "NATS writer closed"@ && final(self)@ == old(
                self,
            )@,
    {
        if accepted {
            self.pending += 1;
            Ok(len)
        } else {
            Err("NATS writer closed")
        }
    }

    /// How many chunks await confirmation.
    pub fn unconfirmed(&self) -> (count: usize)
        ensures
            count == self@.pending,
    {
        self.pending
    }

    /// Take in what the writer says of the oldest unconfirmed chunk. A failure
    /// closes the channel.
    pub fn confirm(&mut self, confirmation: Confirmation) -> (step: FlushStep)
        requires
            old(self)@.pending > 0,
        ensures
            match confirmation {
                Confirmation::Waiting => step is Waiting && final(self)@ == old(self)@,
                Confirmation::Published => final(self)@ == (DuplexView {
                    pending: (old(self)@.pending - 1) as nat,
                    ..old(self)@
                }) && (if old(self)@.pending == 1 {
                    step is Done
                } else {
                    step is More
                }),
                Confirmation::Failed(message) => step matches FlushStep::Broken(text) && text@
                    == message@ && final(self)@ == (DuplexView { closed: true, ..old(self)@ }),
                Confirmation::Dropped => step matches FlushStep::Broken(text) && text@
                    == "NATS writer stopped before publish completed"@ && final(self)@ == (
                DuplexView { closed: true, ..old(self)@ }),
            },
    {
        match confirmation {
            Confirmation::Waiting => FlushStep::Waiting,
            Confirmation::Published => {
                self.pending -= 1;
                if self.pending == 0 {
                    FlushStep::Done
                } else {
                    FlushStep::More
                }
            },
            Confirmation::Failed(message) => {
                self.closed = true;
                FlushStep::Broken(message)
            },
            Confirmation::Dropped => {
                self.closed = true;
                FlushStep::Broken("NATS writer stopped before publish completed".to_owned())
            },
        }
    }

    /// Close the channel: nothing can be written any more.
    pub fn close(&mut self)
        ensures
            final(self)@ == (DuplexView { closed: true, ..old(self)@ }),
    {
        self.closed = true;
    }

    /// Whether the channel was closed.
    pub fn is_closed(&self) -> (closed: bool)
        ensures
            closed == self@.closed,
    {
        self.closed
    }
}

impl Default for DuplexState {
    fn default() -> (state: Self)
        ensures
            state@ == (DuplexView { inbound: Seq::empty(), pending: 0, closed: false }),
    {
        DuplexState::new()
    }
}

/// One read of a channel: the payload that arrived for it, if one did, and how much
/// room there was.
pub struct ReadView {
    pub payload: Seq<u8>,
    pub room: nat,
}

/// The bytes that a series of reads hands out, and those that are left, when
/// `inbound` was there before.
pub open spec fn series(inbound: Seq<u8>, reads: Seq<ReadView>) -> (Seq<u8>, Seq<u8>)
    decreases reads.len(),
{
    if reads.len() == 0 {
        (Seq::empty(), inbound)
    } else {
        let (given, left) = series(inbound, reads.drop_last());
        let available = left + reads.last().payload;
        let n = taken(available.len(), reads.last().room) as int;
        (given + available.take(n), available.skip(n))
    }
}

/// The payloads of a series of reads, one behind the other.
pub open spec fn payloads(reads: Seq<ReadView>) -> Seq<u8>
    decreases reads.len(),
{
    if reads.len() == 0 {
        Seq::empty()
    } else {
        payloads(reads.drop_last()) + reads.last().payload
    }
}

/// The channel is a byte stream: however the reads cut it up, what was handed out
/// and what is left are the received payloads one behind the other, with nothing
/// lost, repeated or out of order.
pub proof fn reads_concatenate_payloads(inbound: Seq<u8>, reads: Seq<ReadView>)
    ensures
        ({
            let (given, left) = series(inbound, reads);
            given + left == inbound + payloads(reads)
        }),
    decreases reads.len(),
{
    if reads.len() == 0 {
        assert(Seq::<u8>::empty() + inbound =~= inbound + Seq::<u8>::empty());
    } else {
        reads_concatenate_payloads(inbound, reads.drop_last());
        let (given, left) = series(inbound, reads.drop_last());
        let payload = reads.last().payload;
        let available = left + payload;
        let n = taken(available.len(), reads.last().room) as int;
        assert(available.take(n) + available.skip(n) =~= available);
        assert((given + available.take(n)) + available.skip(n) =~= given + available);
        assert(given + available =~= (given + left) + payload);
        assert(inbound + payloads(reads) =~= (inbound + payloads(reads.drop_last())) + payload);
    }
}

} // verus!

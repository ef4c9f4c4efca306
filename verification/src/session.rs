use vstd::prelude::*;

use crate::connection::{HeartBeat, spec_select_rx, spec_select_tx, Connection};
use crate::decimal::{format_u32, spec_format_u32};
use crate::frame::{Command, Frame, FrameView, ToFrameBody, Transmission};
use crate::header::{spec_encode_value, spec_header_value, spec_parse_heart_beat, Header, HeaderView};
use crate::message_builder::MessageBuilder;
use crate::session_builder::SessionConfig;
use crate::string_map::StringMap;
use crate::subscription::{AckMode, AckOrNack, Subscription};
use crate::subscription_builder::SubscriptionBuilder;
use crate::transaction::Transaction;

verus! {

/// The frame that asked for a receipt, kept until the broker acknowledges it.
pub struct OutstandingReceipt {
    pub original_frame: Frame,
}

impl OutstandingReceipt {
    pub fn new(original_frame: Frame) -> (r: Self)
        ensures
            r.original_frame == original_frame,
    {
        OutstandingReceipt { original_frame }
    }
}

/// A builder option asking the library to allocate a receipt id for the
/// frame being built and to track the matching RECEIPT frame.
pub struct GenerateReceipt;

/// A pending request for a receipt. The id is allocated when the frame is
/// handed to the session; until then it is empty.
pub struct ReceiptRequest {
    pub id: String,
}

impl ReceiptRequest {
    pub fn new(id: String) -> (r: Self)
        ensures
            r.id == id,
    {
        ReceiptRequest { id }
    }
}

/// The id the library gives the `n`-th receipt request of a session.
pub open spec fn spec_receipt_id(n: u32) -> Seq<char> {
    "message/"@ + spec_format_u32(n as nat)
}

/// The id the library gives the `n`-th transaction of a session.
pub open spec fn spec_transaction_id(n: u32) -> Seq<char> {
    "tx/"@ + spec_format_u32(n as nat)
}

/// Why a session stopped.
#[derive(Clone, Copy, PartialEq, Eq, Structural, Debug)]
pub enum DisconnectionReason {
    RecvFailed,
    ConnectFailed,
    SendFailed,
    ClosedByOtherSide,
    HeartbeatTimeout,
    Requested,
}

/// What the session reports to the application, in the order of the inbound
/// frames that produced it.
pub enum SessionEvent {
    Connected,
    ErrorFrame(Frame),
    Receipt { id: String, original: Frame, receipt: Frame },
    Message { destination: String, ack_mode: AckMode, frame: Frame },
    SubscriptionlessFrame(Frame),
    UnknownFrame(Frame),
    Disconnected(DisconnectionReason),
}

/// Where the session stands with its byte stream. The stream itself is
/// owned by whoever drives the session; only the phase is tracked here.
#[derive(Clone, Copy, PartialEq, Eq, Structural, Debug)]
pub enum StreamState {
    Connecting,
    Connected,
    Failed,
}

/// The session's mutable registers: id counters, negotiated heartbeat
/// intervals, and the subscription and receipt registries.
pub struct SessionState {
    pub next_transaction_id: u32,
    pub next_subscription_id: u32,
    pub next_receipt_id: u32,
    pub rx_heartbeat_ms: Option<u32>,
    pub tx_heartbeat_ms: Option<u32>,
    pub subscriptions: StringMap<Subscription>,
    pub outstanding_receipts: StringMap<OutstandingReceipt>,
}

impl SessionState {
    pub open spec fn wf(&self) -> bool {
        self.subscriptions.wf() && self.outstanding_receipts.wf()
    }

    pub fn new() -> (r: SessionState)
        ensures
            r.wf(),
            r.next_transaction_id == 0,
            r.next_subscription_id == 0,
            r.next_receipt_id == 0,
            r.rx_heartbeat_ms is None,
            r.tx_heartbeat_ms is None,
            r.subscriptions@ == Map::<Seq<char>, Subscription>::empty(),
            r.outstanding_receipts@ == Map::<Seq<char>, OutstandingReceipt>::empty(),
    {
        SessionState {
            next_transaction_id: 0,
            next_subscription_id: 0,
            next_receipt_id: 0,
            rx_heartbeat_ms: None,
            tx_heartbeat_ms: None,
            subscriptions: StringMap::new(),
            outstanding_receipts: StringMap::new(),
        }
    }
}

/// The heartbeat intervals the server advertised in a CONNECTED frame, with
/// `(0, 0)` standing in when the header is missing or malformed.
pub open spec fn spec_server_heart_beat(headers: Seq<HeaderView>) -> (u32, u32) {
    match spec_header_value(headers, "heart-beat"@) {
        Some(v) => match spec_parse_heart_beat(v) {
            Some(xy) => xy,
            None => (0u32, 0u32),
        },
        None => (0u32, 0u32),
    }
}

/// The receive deadline: twice the agreed interval, as a grace allowance,
/// saturating at the register's width.
pub open spec fn spec_grace_deadline(rx_ms: u32) -> u32 {
    if 2 * rx_ms > u32::MAX {
        u32::MAX
    } else {
        (2 * rx_ms) as u32
    }
}

/// The session engine: configuration, registers, the events waiting to be
/// observed, and the transmissions waiting to be written to the stream.
/// Whoever owns the byte stream feeds decoded transmissions in through
/// `dispatch` and writes `take_outbound` out.
pub struct Session {
    pub config: SessionConfig,
    pub state: SessionState,
    pub events: Vec<SessionEvent>,
    pub outbound: Vec<Transmission>,
    pub stream: StreamState,
}

/// What handing a transmission to the session does to its outbound queue:
/// on a failed session a send is a no-op and nothing is queued; otherwise
/// the transmission is appended.
pub open spec fn spec_queued(pre: &Session, post: &Session, tx: Transmission) -> bool {
    if pre.stream is Failed {
        post.outbound@ == pre.outbound@
    } else {
        post.outbound@ == pre.outbound@.push(tx)
    }
}

/// Everything except the event queue and the stream phase is unchanged.
pub open spec fn only_events_changed(pre: &Session, post: &Session) -> bool {
    &&& post.config == pre.config
    &&& post.state == pre.state
    &&& post.outbound@ == pre.outbound@
}

/// Routing of an inbound MESSAGE frame: a known subscription id yields a
/// `Message` event carrying that subscription's destination and ack mode;
/// anything else yields a `SubscriptionlessFrame` event.
pub open spec fn message_routed(pre: &Session, post: &Session, frame: Frame) -> bool {
    &&& only_events_changed(pre, post)
    &&& post.stream == pre.stream
    &&& match spec_header_value(frame@.headers, "subscription"@) {
        Some(sid) => {
            if pre.state.subscriptions@.contains_key(sid) {
                post.events@ == pre.events@.push(
                    SessionEvent::Message {
                        destination: pre.state.subscriptions@[sid].destination,
                        ack_mode: pre.state.subscriptions@[sid].ack_mode,
                        frame,
                    },
                )
            } else {
                post.events@ == pre.events@.push(SessionEvent::SubscriptionlessFrame(frame))
            }
        },
        None => post.events@ == pre.events@.push(SessionEvent::SubscriptionlessFrame(frame)),
    }
}

/// Heartbeat negotiation on CONNECTED: the agreed intervals are recorded,
/// the receive deadline gets its grace allowance, and a `Connected` event is
/// emitted.
pub open spec fn connected_handled(pre: &Session, post: &Session, frame: Frame) -> bool {
    let client = pre.config.heartbeat;
    let server = spec_server_heart_beat(frame@.headers);
    let agreed_tx = spec_select_tx(client.0, server.1);
    let agreed_rx = spec_select_rx(client.1, server.0);
    &&& post.config == pre.config
    &&& post.outbound@ == pre.outbound@
    &&& post.stream == pre.stream
    &&& post.state.subscriptions@ == pre.state.subscriptions@
    &&& post.state.outstanding_receipts@ == pre.state.outstanding_receipts@
    &&& post.state.next_transaction_id == pre.state.next_transaction_id
    &&& post.state.next_subscription_id == pre.state.next_subscription_id
    &&& post.state.next_receipt_id == pre.state.next_receipt_id
    &&& post.state.tx_heartbeat_ms == Some(agreed_tx)
    &&& post.state.rx_heartbeat_ms == Some(spec_grace_deadline(agreed_rx))
    &&& post.events@ == pre.events@.push(SessionEvent::Connected)
}

/// Handling of an inbound RECEIPT frame: the receipt id leaves the registry,
/// a matching entry yields exactly one `Receipt` event, and the reserved
/// `msg/disconnect` id completes a requested disconnect.
pub open spec fn receipt_handled(pre: &Session, post: &Session, frame: Frame) -> bool {
    &&& post.config == pre.config
    &&& post.state.subscriptions@ == pre.state.subscriptions@
    &&& post.state.next_transaction_id == pre.state.next_transaction_id
    &&& post.state.next_subscription_id == pre.state.next_subscription_id
    &&& post.state.next_receipt_id == pre.state.next_receipt_id
    &&& post.state.rx_heartbeat_ms == pre.state.rx_heartbeat_ms
    &&& post.state.tx_heartbeat_ms == pre.state.tx_heartbeat_ms
    &&& post.outbound@ == pre.outbound@
    &&& match spec_header_value(frame@.headers, "receipt-id"@) {
        None => post.state.outstanding_receipts@ == pre.state.outstanding_receipts@
            && post.events@ == pre.events@ && post.stream == pre.stream,
        Some(rid) => {
            let disc: Seq<SessionEvent> = if rid == "msg/disconnect"@ && !(pre.stream
                is Failed) {
                seq![SessionEvent::Disconnected(DisconnectionReason::Requested)]
            } else {
                Seq::<SessionEvent>::empty()
            };
            &&& post.state.outstanding_receipts@ == pre.state.outstanding_receipts@.remove(rid)
            &&& (if rid == "msg/disconnect"@ {
                post.stream is Failed
            } else {
                post.stream == pre.stream
            })
            &&& if pre.state.outstanding_receipts@.contains_key(rid) {
                post.events@.len() == pre.events@.len() + disc.len() + 1
                    && post.events@.take(post.events@.len() - 1) == pre.events@ + disc && (
                post.events@.last() matches SessionEvent::Receipt { id, original, receipt }
                    && id@ == rid && original
                    == pre.state.outstanding_receipts@[rid].original_frame && receipt == frame)
            } else {
                post.events@ == pre.events@ + disc
            }
        },
    }
}

impl Session {
    pub open spec fn wf(&self) -> bool {
        self.state.wf()
    }

    /// A fresh engine: nothing negotiated, nothing registered, the stream
    /// still connecting.
    pub(crate) fn new(config: SessionConfig) -> (r: Self)
        ensures
            r.wf(),
            r.config == config,
            r.state.next_transaction_id == 0,
            r.state.next_subscription_id == 0,
            r.state.next_receipt_id == 0,
            r.state.subscriptions@ == Map::<Seq<char>, Subscription>::empty(),
            r.state.outstanding_receipts@ == Map::<Seq<char>, OutstandingReceipt>::empty(),
            r.events@ == Seq::<SessionEvent>::empty(),
            r.outbound@ == Seq::<Transmission>::empty(),
            r.stream is Connecting,
    {
        Session {
            config,
            state: SessionState::new(),
            events: vec![],
            outbound: vec![],
            stream: StreamState::Connecting,
        }
    }

    /// The configuration the session was started with.
    pub fn config(&self) -> (r: &SessionConfig)
        ensures
            r == self.config,
    {
        &self.config
    }

    /// The phase the byte stream is in.
    pub fn stream_state(&self) -> (r: StreamState)
        ensures
            r == self.stream,
    {
        self.stream
    }

    /// Record that the byte stream is connected.
    pub fn on_stream_connected(&mut self)
        requires
            old(self).wf(),
        ensures
            final(self).wf(),
            final(self).stream is Connected,
            final(self).config == old(self).config,
            final(self).state == old(self).state,
            final(self).events@ == old(self).events@,
            final(self).outbound@ == old(self).outbound@,
    {
        self.stream = StreamState::Connected;
    }

    /// Queue one frame for the wire; on a failed session this is a no-op.
    pub fn send_frame(&mut self, fr: Frame)
        requires
            old(self).wf(),
        ensures
            final(self).wf(),
            spec_queued(old(self), final(self), Transmission::CompleteFrame(fr)),
            final(self).config == old(self).config,
            final(self).state == old(self).state,
            final(self).events@ == old(self).events@,
            final(self).stream == old(self).stream,
    {
        self.send(Transmission::CompleteFrame(fr))
    }

    /// Queue one transmission for the wire. A failed session queues
    /// nothing: whatever is sent after the terminal `Disconnected` event is
    /// silently dropped.
    pub(crate) fn send(&mut self, tx: Transmission)
        requires
            old(self).wf(),
        ensures
            final(self).wf(),
            spec_queued(old(self), final(self), tx),
            final(self).config == old(self).config,
            final(self).state == old(self).state,
            final(self).events@ == old(self).events@,
            final(self).stream == old(self).stream,
    {
        match self.stream {
            StreamState::Failed => {},
            _ => self.outbound.push(tx),
        }
    }

    /// Begin building a SEND frame for `destination`.
    pub fn message<T: ToFrameBody>(&mut self, destination: &str, body_convertible: T) -> (r:
        MessageBuilder)
        requires
            body_convertible.spec_body().len() <= u32::MAX,
        ensures
            r.frame@.command == Command::Send,
            r.frame@.body == body_convertible.spec_body(),
            r.frame@.headers == seq![
                (HeaderView { key: "destination"@, value: spec_encode_value(destination@) }),
                (HeaderView {
                    key: "content-length"@,
                    value: spec_format_u32(body_convertible.spec_body().len() as nat),
                }),
            ],
            r.receipt_request is None,
    {
        let send_frame = Frame::send(destination, body_convertible.to_frame_body());
        MessageBuilder::new(send_frame)
    }

    /// Begin building a subscription to `destination`.
    pub fn subscription(&mut self, destination: &str) -> (r: SubscriptionBuilder)
        ensures
            r.destination@ == destination@,
            r.ack_mode == AckMode::Auto,
            r.headers@.len() == 0,
            r.receipt_request is None,
    {
        SubscriptionBuilder::new(String::from_str(destination))
    }

    /// Open a transaction: allocates its id and queues the BEGIN frame.
    pub fn begin_transaction(&mut self) -> (r: Transaction)
        requires
            old(self).wf(),
        ensures
            final(self).wf(),
            old(self).state.next_transaction_id < u32::MAX ==> final(self).state.next_transaction_id == old(self).state.next_transaction_id + 1,
            old(self).state.next_transaction_id == u32::MAX ==> final(self).state.next_transaction_id == u32::MAX,
            r.id@ == spec_transaction_id(old(self).state.next_transaction_id),
            old(self).stream is Failed ==> final(self).outbound@ == old(self).outbound@,
            !(old(self).stream is Failed) ==> {
                &&& final(self).outbound@.len() == old(self).outbound@.len() + 1
                &&& (final(self).outbound@.last() matches Transmission::CompleteFrame(f)
                    && f@.command == Command::Begin && f@.headers == seq![
                    (HeaderView {
                        key: "transaction"@,
                        value: spec_encode_value(spec_transaction_id(
                            old(self).state.next_transaction_id,
                        )),
                    }),
                ] && f@.body.len() == 0)
                &&& final(self).outbound@.take(old(self).outbound@.len() as int) == old(self).outbound@
            },
            final(self).events@ == old(self).events@,
            final(self).state.subscriptions@ == old(self).state.subscriptions@,
            final(self).state.outstanding_receipts@ == old(self).state.outstanding_receipts@,
    {
        let mut transaction = Transaction::new(self);
        transaction.begin(self);
        proof {
            if !(old(self).stream is Failed) {
                assert(final(self).outbound@.take(old(self).outbound@.len() as int) =~= old(self).outbound@);
            }
        }
        transaction
    }

    /// Drop a subscription: it leaves the registry and an UNSUBSCRIBE frame
    /// is queued; no later MESSAGE routes to it.
    pub fn unsubscribe(&mut self, sub_id: &str)
        requires
            old(self).wf(),
        ensures
            final(self).wf(),
            final(self).state.subscriptions@ == old(self).state.subscriptions@.remove(sub_id@),
            !final(self).state.subscriptions@.contains_key(sub_id@),
            old(self).stream is Failed ==> final(self).outbound@ == old(self).outbound@,
            !(old(self).stream is Failed) ==> {
                &&& final(self).outbound@.len() == old(self).outbound@.len() + 1
                &&& (final(self).outbound@.last() matches Transmission::CompleteFrame(f)
                    && f@.command == Command::Unsubscribe && f@.headers == seq![
                    (HeaderView { key: "id"@, value: spec_encode_value(sub_id@) }),
                ] && f@.body.len() == 0)
                &&& final(self).outbound@.take(old(self).outbound@.len() as int) == old(self).outbound@
            },
            final(self).events@ == old(self).events@,
            final(self).state.outstanding_receipts@ == old(self).state.outstanding_receipts@,
    {
        let _ = self.state.subscriptions.remove(sub_id);
        let unsubscribe_frame = Frame::unsubscribe(sub_id);
        self.send(Transmission::CompleteFrame(unsubscribe_frame));
        proof {
            if !(old(self).stream is Failed) {
                assert(final(self).outbound@.take(old(self).outbound@.len() as int) =~= old(self).outbound@);
            }
        }
    }

    /// Ask for a graceful shutdown: queue DISCONNECT with the reserved
    /// receipt id; the matching RECEIPT completes the disconnect.
    pub fn disconnect(&mut self)
        requires
            old(self).wf(),
        ensures
            final(self).wf(),
            old(self).stream is Failed ==> final(self).outbound@ == old(self).outbound@,
            !(old(self).stream is Failed) ==> {
                &&& final(self).outbound@.len() == old(self).outbound@.len() + 1
                &&& (final(self).outbound@.last() matches Transmission::CompleteFrame(f)
                    && f@.command == Command::Disconnect && f@.headers == seq![
                    (HeaderView { key: "receipt"@, value: "msg/disconnect"@ }),
                ] && f@.body.len() == 0)
                &&& final(self).outbound@.take(old(self).outbound@.len() as int) == old(self).outbound@
            },
            final(self).events@ == old(self).events@,
            final(self).state == old(self).state,
    {
        self.send_frame(Frame::disconnect());
        proof {
            if !(old(self).stream is Failed) {
                assert(final(self).outbound@.take(old(self).outbound@.len() as int) =~= old(self).outbound@);
            }
        }
    }

    /// Acknowledge a received message: when the frame carries an `ack`
    /// header, queue an ACK or NACK frame naming that id; otherwise nothing
    /// happens (auto-acknowledged subscriptions carry no `ack` header).
    pub fn acknowledge_frame(&mut self, frame: &Frame, which: AckOrNack)
        requires
            old(self).wf(),
        ensures
            final(self).wf(),
            final(self).events@ == old(self).events@,
            final(self).state == old(self).state,
            final(self).config == old(self).config,
            match spec_header_value(frame@.headers, "ack"@) {
                None => final(self).outbound@ == old(self).outbound@,
                Some(ack_id) => {
                    if old(self).stream is Failed {
                        final(self).outbound@ == old(self).outbound@
                    } else {
                        &&& final(self).outbound@.len() == old(self).outbound@.len() + 1
                        &&& final(self).outbound@.take(old(self).outbound@.len() as int) == old(self).outbound@
                        &&& (final(self).outbound@.last() matches Transmission::CompleteFrame(f)
                            && f@.command == (if which is Ack {
                            Command::Ack
                        } else {
                            Command::Nack
                        }) && f@.headers == seq![
                            (HeaderView { key: "id"@, value: spec_encode_value(ack_id) }),
                        ] && f@.body.len() == 0)
                    }
                },
            },
    {
        match frame.headers.get_ack() {
            Some(ack) => {
                let ack_frame = match which {
                    AckOrNack::Ack => Frame::ack(ack.0),
                    AckOrNack::Nack => Frame::nack(ack.0),
                };
                self.send_frame(ack_frame);
                proof {
                    if !(old(self).stream is Failed) {
                        assert(final(self).outbound@.take(old(self).outbound@.len() as int) =~= old(self).outbound@);
                    }
                }
            },
            None => {},
        }
    }

    /// The transaction id counter: hand out the current value, then step it.
    pub(crate) fn generate_transaction_id(&mut self) -> (r: u32)
        ensures
            r == old(self).state.next_transaction_id,
            old(self).state.next_transaction_id < u32::MAX ==> final(self).state.next_transaction_id == old(self).state.next_transaction_id + 1,
            old(self).state.next_transaction_id == u32::MAX ==> final(self).state.next_transaction_id == u32::MAX,
            final(self).state.next_subscription_id == old(self).state.next_subscription_id,
            final(self).state.next_receipt_id == old(self).state.next_receipt_id,
            final(self).state.subscriptions == old(self).state.subscriptions,
            final(self).state.outstanding_receipts == old(self).state.outstanding_receipts,
            final(self).state.rx_heartbeat_ms == old(self).state.rx_heartbeat_ms,
            final(self).state.tx_heartbeat_ms == old(self).state.tx_heartbeat_ms,
            final(self).config == old(self).config,
            final(self).events@ == old(self).events@,
            final(self).outbound@ == old(self).outbound@,
            final(self).stream == old(self).stream,
    {
        let id = self.state.next_transaction_id;
        if self.state.next_transaction_id < u32::MAX {
            self.state.next_transaction_id = self.state.next_transaction_id + 1;
        }
        id
    }

    /// The subscription id counter: hand out the current value, then step it.
    pub(crate) fn generate_subscription_id(&mut self) -> (r: u32)
        ensures
            r == old(self).state.next_subscription_id,
            old(self).state.next_subscription_id < u32::MAX ==> final(self).state.next_subscription_id == old(self).state.next_subscription_id + 1,
            old(self).state.next_subscription_id == u32::MAX ==> final(self).state.next_subscription_id == u32::MAX,
            final(self).state.next_transaction_id == old(self).state.next_transaction_id,
            final(self).state.next_receipt_id == old(self).state.next_receipt_id,
            final(self).state.subscriptions == old(self).state.subscriptions,
            final(self).state.outstanding_receipts == old(self).state.outstanding_receipts,
            final(self).state.rx_heartbeat_ms == old(self).state.rx_heartbeat_ms,
            final(self).state.tx_heartbeat_ms == old(self).state.tx_heartbeat_ms,
            final(self).config == old(self).config,
            final(self).events@ == old(self).events@,
            final(self).outbound@ == old(self).outbound@,
            final(self).stream == old(self).stream,
    {
        let id = self.state.next_subscription_id;
        if self.state.next_subscription_id < u32::MAX {
            self.state.next_subscription_id = self.state.next_subscription_id + 1;
        }
        id
    }

    /// The receipt id counter: hand out the current value, then step it.
    pub(crate) fn generate_receipt_id(&mut self) -> (r: u32)
        ensures
            r == old(self).state.next_receipt_id,
            old(self).state.next_receipt_id < u32::MAX ==> final(self).state.next_receipt_id
                == old(self).state.next_receipt_id + 1,
            old(self).state.next_receipt_id == u32::MAX ==> final(self).state.next_receipt_id
                == u32::MAX,
            final(self).state.next_transaction_id == old(self).state.next_transaction_id,
            final(self).state.next_subscription_id == old(self).state.next_subscription_id,
            final(self).state.subscriptions == old(self).state.subscriptions,
            final(self).state.outstanding_receipts == old(self).state.outstanding_receipts,
            final(self).state.rx_heartbeat_ms == old(self).state.rx_heartbeat_ms,
            final(self).state.tx_heartbeat_ms == old(self).state.tx_heartbeat_ms,
            final(self).config == old(self).config,
            final(self).events@ == old(self).events@,
            final(self).outbound@ == old(self).outbound@,
            final(self).stream == old(self).stream,
    {
        let id = self.state.next_receipt_id;
        if self.state.next_receipt_id < u32::MAX {
            self.state.next_receipt_id = self.state.next_receipt_id + 1;
        }
        id
    }

    /// Record a terminal failure: emit exactly one `Disconnected` event and
    /// mark the stream failed; on a session that already failed nothing
    /// happens, so a session never reports a second `Disconnected`.
    pub fn on_disconnect(&mut self, reason: DisconnectionReason)
        requires
            old(self).wf(),
        ensures
            final(self).wf(),
            old(self).stream is Failed ==> final(self).events@ == old(self).events@,
            !(old(self).stream is Failed) ==> final(self).events@ == old(self).events@.push(
                SessionEvent::Disconnected(reason),
            ),
            final(self).stream is Failed,
            final(self).config == old(self).config,
            final(self).state == old(self).state,
            final(self).outbound@ == old(self).outbound@,
    {
        match self.stream {
            StreamState::Failed => {},
            _ => {
                self.events.push(SessionEvent::Disconnected(reason));
                self.stream = StreamState::Failed;
            },
        }
    }

    /// Queue one heartbeat; the caller rearms its transmit timer.
    pub fn reply_to_heartbeat(&mut self)
        requires
            old(self).wf(),
        ensures
            final(self).wf(),
            spec_queued(old(self), final(self), Transmission::HeartBeat),
            final(self).events@ == old(self).events@,
            final(self).state == old(self).state,
            final(self).config == old(self).config,
            final(self).stream == old(self).stream,
    {
        self.send(Transmission::HeartBeat);
    }

    /// The connection is up: append credentials (when configured) and the
    /// requested heartbeat to the configured headers, and queue the CONNECT
    /// frame built from them.
    pub fn on_stream_ready(&mut self)
        requires
            old(self).wf(),
        ensures
            final(self).wf(),
            ({
                let cred: Seq<HeaderView> = match old(self).config.credentials {
                    Some(c) => seq![
                        (HeaderView {
                            key: spec_encode_value("login"@),
                            value: spec_encode_value(c.login@),
                        }),
                        (HeaderView {
                            key: spec_encode_value("passcode"@),
                            value: spec_encode_value(c.passcode@),
                        }),
                    ],
                    None => Seq::<HeaderView>::empty(),
                };
                let hb = HeaderView {
                    key: spec_encode_value("heart-beat"@),
                    value: spec_encode_value(
                        spec_format_u32(old(self).config.heartbeat.0 as nat) + seq![',']
                            + spec_format_u32(old(self).config.heartbeat.1 as nat),
                    ),
                };
                let new_headers = old(self).config.headers@ + cred + seq![hb];
                &&& final(self).config.headers@ == new_headers
                &&& final(self).config.host == old(self).config.host
                &&& final(self).config.port == old(self).config.port
                &&& final(self).config.heartbeat == old(self).config.heartbeat
                &&& (old(self).stream is Failed ==> final(self).outbound@ == old(self).outbound@)
                &&& (!(old(self).stream is Failed) ==> {
                    &&& final(self).outbound@.len() == old(self).outbound@.len() + 1
                    &&& final(self).outbound@.take(old(self).outbound@.len() as int) == old(self).outbound@
                    &&& (final(self).outbound@.last() matches Transmission::CompleteFrame(f)
                        && f@.command == Command::Connect && f@.headers == new_headers
                        && f@.body.len() == 0)
                })
            }),
            final(self).events@ == old(self).events@,
            final(self).state == old(self).state,
            final(self).stream == old(self).stream,
    {
        proof {
            reveal_strlit(",");
        }
        let push_credentials = self.config.credentials.is_some();
        if push_credentials {
            let (login, passcode) = match &self.config.credentials {
                Some(credentials) => (
                    String::from_str(credentials.login.as_str()),
                    String::from_str(credentials.passcode.as_str()),
                ),
                None => (String::new(), String::new()),
            };
            self.config.headers.push(Header::new("login", login.as_str()));
            self.config.headers.push(Header::new("passcode", passcode.as_str()));
        }
        let HeartBeat(client_tx_ms, client_rx_ms) = self.config.heartbeat;
        let mut heart_beat_string = format_u32(client_tx_ms);
        heart_beat_string.append(",");
        heart_beat_string.append(format_u32(client_rx_ms).as_str());
        self.config.headers.push(Header::new("heart-beat", heart_beat_string.as_str()));
        let connect_frame = Frame {
            command: Command::Connect,
            headers: self.config.headers.clone(),
            body: Vec::new(),
        };
        self.send_frame(connect_frame);
        proof {
            if !(old(self).stream is Failed) {
                assert(final(self).outbound@.take(old(self).outbound@.len() as int) =~= old(self).outbound@);
            }
            assert(","@ =~= seq![',']);
            assert(heart_beat_string@ =~= spec_format_u32(old(self).config.heartbeat.0 as nat)
                + seq![','] + spec_format_u32(old(self).config.heartbeat.1 as nat));
        }
    }

    /// Route an inbound MESSAGE frame by its `subscription` header.
    pub fn on_message(&mut self, frame: Frame)
        requires
            old(self).wf(),
        ensures
            final(self).wf(),
            message_routed(old(self), final(self), frame),
    {
        let mut sub_data: Option<(String, AckMode)> = None;
        match frame.headers.get_subscription() {
            Some(sub_id) => {
                match self.state.subscriptions.get(sub_id.0) {
                    Some(sub) => {
                        sub_data = Some((sub.destination.clone(), sub.ack_mode));
                    },
                    None => {},
                }
            },
            None => {},
        }
        match sub_data {
            Some((destination, ack_mode)) => {
                self.events.push(SessionEvent::Message { destination, ack_mode, frame });
            },
            None => {
                self.events.push(SessionEvent::SubscriptionlessFrame(frame));
            },
        }
    }

    /// Negotiate heartbeats from a CONNECTED frame and report the session
    /// as connected.
    pub fn on_connected_frame_received(&mut self, connected_frame: Frame)
        requires
            old(self).wf(),
        ensures
            final(self).wf(),
            connected_handled(old(self), final(self), connected_frame),
    {
        let HeartBeat(client_tx_ms, client_rx_ms) = self.config.heartbeat;
        let (server_tx_ms, server_rx_ms) = match connected_frame.headers.get_heart_beat() {
            Some(hb) => (hb.0, hb.1),
            None => (0, 0),
        };
        let (agreed_upon_tx_ms, agreed_upon_rx_ms) = Connection::select_heartbeat(
            client_tx_ms,
            client_rx_ms,
            server_tx_ms,
            server_rx_ms,
        );
        let deadline: u32 = if agreed_upon_rx_ms > u32::MAX / 2 {
            u32::MAX
        } else {
            2 * agreed_upon_rx_ms
        };
        self.state.rx_heartbeat_ms = Some(deadline);
        self.state.tx_heartbeat_ms = Some(agreed_upon_tx_ms);
        self.events.push(SessionEvent::Connected);
    }

    /// Correlate an inbound RECEIPT frame with the frame that asked for it.
    pub fn handle_receipt(&mut self, frame: Frame)
        requires
            old(self).wf(),
        ensures
            final(self).wf(),
            receipt_handled(old(self), final(self), frame),
    {
        proof {
            reveal_strlit("msg/disconnect");
        }
        let receipt_id: Option<String> = match frame.headers.get_receipt_id() {
            Some(r) => Some(String::from_str(r.0)),
            None => None,
        };
        match receipt_id {
            Some(receipt_id) => {
                if crate::header::str_eq(receipt_id.as_str(), "msg/disconnect") {
                    self.on_disconnect(DisconnectionReason::Requested);
                }
                match self.state.outstanding_receipts.remove(receipt_id.as_str()) {
                    Some(entry) => {
                        let original_frame = entry.original_frame;
                        self.events.push(
                            SessionEvent::Receipt {
                                id: receipt_id,
                                original: original_frame,
                                receipt: frame,
                            },
                        );
                        proof {
                            assert(final(self).events@.take(final(self).events@.len() - 1)
                                =~= old(self).events@ + (if spec_header_value(
                                frame@.headers,
                                "receipt-id"@,
                            )->0 == "msg/disconnect"@ && !(old(self).stream is Failed) {
                                seq![
                                    SessionEvent::Disconnected(DisconnectionReason::Requested),
                                ]
                            } else {
                                Seq::<SessionEvent>::empty()
                            }));
                        }
                    },
                    None => {
                        proof {
                            if spec_header_value(frame@.headers, "receipt-id"@)->0
                                == "msg/disconnect"@ && !(old(self).stream is Failed) {
                                assert(final(self).events@ =~= old(self).events@ + seq![
                                    SessionEvent::Disconnected(DisconnectionReason::Requested),
                                ]);
                            } else {
                                assert(final(self).events@ =~= old(self).events@
                                    + Seq::<SessionEvent>::empty());
                            }
                        }
                    },
                }
            },
            None => {},
        }
    }

    /// Route one decoded transmission: heartbeats keep the connection alive
    /// and carry no event; frames are routed by command; a closed stream
    /// becomes a disconnect.
    pub fn dispatch(&mut self, transmission: Transmission)
        requires
            old(self).wf(),
        ensures
            final(self).wf(),
            match transmission {
                Transmission::HeartBeat => final(self).config == old(self).config && final(self).state == old(self).state && final(self).events@ == old(self).events@ && final(self).outbound@ == old(self).outbound@ && final(self).stream == old(self).stream,
                Transmission::ConnectionClosed => (if old(self).stream is Failed {
                    final(self).events@ == old(self).events@
                } else {
                    final(self).events@ == old(self).events@.push(
                        SessionEvent::Disconnected(DisconnectionReason::ClosedByOtherSide),
                    )
                }) && final(self).stream is Failed && final(self).state == old(self).state
                    && final(self).outbound@ == old(self).outbound@,
                Transmission::CompleteFrame(f) => match f@.command {
                    Command::Error => only_events_changed(old(self), final(self)) && final(self).stream == old(self).stream && final(self).events@ == old(self).events@.push(SessionEvent::ErrorFrame(f)),
                    Command::Receipt => receipt_handled(old(self), final(self), f),
                    Command::Connected => connected_handled(old(self), final(self), f),
                    Command::Message => message_routed(old(self), final(self), f),
                    _ => only_events_changed(old(self), final(self)) && final(self).stream
                        == old(self).stream && final(self).events@ == old(self).events@.push(
                        SessionEvent::UnknownFrame(f),
                    ),
                },
            },
    {
        match transmission {
            Transmission::HeartBeat => {},
            Transmission::ConnectionClosed => {
                self.on_disconnect(DisconnectionReason::ClosedByOtherSide);
            },
            Transmission::CompleteFrame(frame) => {
                match frame.command {
                    Command::Error => self.events.push(SessionEvent::ErrorFrame(frame)),
                    Command::Receipt => self.handle_receipt(frame),
                    Command::Connected => self.on_connected_frame_received(frame),
                    Command::Message => self.on_message(frame),
                    _ => self.events.push(SessionEvent::UnknownFrame(frame)),
                }
            },
        }
    }

    /// The next event to observe, in arrival order.
    pub fn next_event(&mut self) -> (r: Option<SessionEvent>)
        requires
            old(self).wf(),
        ensures
            final(self).wf(),
            old(self).events@.len() == 0 ==> r is None && final(self).events@ == old(self).events@,
            old(self).events@.len() > 0 ==> (r matches Some(e) && e == old(self).events@[0]
                && final(self).events@ == old(self).events@.skip(1)),
            final(self).state == old(self).state,
            final(self).config == old(self).config,
            final(self).outbound@ == old(self).outbound@,
            final(self).stream == old(self).stream,
    {
        if self.events.len() > 0 {
            let e = self.events.remove(0);
            proof {
                assert(final(self).events@ =~= old(self).events@.skip(1));
            }
            Some(e)
        } else {
            None
        }
    }

    /// Everything queued for the wire, in order; the queue is left empty.
    pub fn take_outbound(&mut self) -> (r: Vec<Transmission>)
        requires
            old(self).wf(),
        ensures
            final(self).wf(),
            r@ == old(self).outbound@,
            final(self).outbound@ == Seq::<Transmission>::empty(),
            final(self).state == old(self).state,
            final(self).config == old(self).config,
            final(self).events@ == old(self).events@,
            final(self).stream == old(self).stream,
    {
        let mut taken: Vec<Transmission> = Vec::new();
        core::mem::swap(&mut taken, &mut self.outbound);
        taken
    }
}

/// ID monotonicity: every id counter starts at zero and steps by one on each
/// allocation, so within one session the integer suffixes of successive
/// subscription, transaction and receipt ids strictly increase.
pub proof fn lemma_id_monotonicity(n: u32)
    requires
        n < u32::MAX,
    ensures
        crate::subscription::spec_subscription_id(n).skip("stomp-rs/"@.len() as int)
            == spec_format_u32(n as nat),
        spec_transaction_id(n).skip("tx/"@.len() as int) == spec_format_u32(n as nat),
        spec_receipt_id(n).skip("message/"@.len() as int) == spec_format_u32(n as nat),
        crate::decimal::decimal_value(spec_format_u32((n + 1) as nat))
            == crate::decimal::decimal_value(spec_format_u32(n as nat)) + 1,
{
    crate::decimal::lemma_parse_format_u32(n);
    crate::decimal::lemma_parse_format_u32((n + 1) as u32);
    assert(crate::subscription::spec_subscription_id(n).skip("stomp-rs/"@.len() as int)
        =~= spec_format_u32(n as nat));
    assert(spec_transaction_id(n).skip("tx/"@.len() as int) =~= spec_format_u32(n as nat));
    assert(spec_receipt_id(n).skip("message/"@.len() as int) =~= spec_format_u32(n as nat));
}

/// At-most-one receipt delivery: handling a RECEIPT removes its id from the
/// registry, so when two RECEIPT frames name the same ordinary id in turn,
/// the second finds no entry and adds no event at all.
pub proof fn lemma_receipt_at_most_once(
    s0: Session,
    s1: Session,
    s2: Session,
    first: Frame,
    second: Frame,
    rid: Seq<char>,
)
    requires
        rid != "msg/disconnect"@,
        spec_header_value(first@.headers, "receipt-id"@) == Some(rid),
        spec_header_value(second@.headers, "receipt-id"@) == Some(rid),
        receipt_handled(&s0, &s1, first),
        receipt_handled(&s1, &s2, second),
    ensures
        !s1.state.outstanding_receipts@.contains_key(rid),
        s2.events@ == s1.events@,
{
    assert(s2.events@ =~= s1.events@ + Seq::<SessionEvent>::empty());
}

/// Subscription routing after removal: once a subscription id has left the
/// registry, a MESSAGE naming it is emitted as a `SubscriptionlessFrame`,
/// never as a `Message`.
pub proof fn lemma_no_message_after_unsubscribe(
    s1: Session,
    s2: Session,
    frame: Frame,
    sid: Seq<char>,
)
    requires
        !s1.state.subscriptions@.contains_key(sid),
        spec_header_value(frame@.headers, "subscription"@) == Some(sid),
        message_routed(&s1, &s2, frame),
    ensures
        s2.events@ == s1.events@.push(SessionEvent::SubscriptionlessFrame(frame)),
{
}

} // verus!

use vstd::prelude::*;

use crate::frame::{Command, Frame, FrameView, ToFrameBody, Transmission};
use crate::header::{spec_encode_value, Header, HeaderView};
use crate::message_builder::MessageBuilder;
use crate::session::{spec_transaction_id, Session};

verus! {

/// A scoped transaction: every message sent through it carries its id, and
/// `commit` or `abort` must be called explicitly — dropping the value sends
/// nothing.
pub struct Transaction {
    pub id: String,
}

impl Transaction {
    /// Allocate the transaction's id from the session's counter.
    pub fn new(session: &mut Session) -> (r: Transaction)
        ensures
            r.id@ == spec_transaction_id(old(session).state.next_transaction_id),
            old(session).state.next_transaction_id < u32::MAX ==> final(session).state.next_transaction_id == old(session).state.next_transaction_id + 1,
            old(session).state.next_transaction_id == u32::MAX ==> final(session).state.next_transaction_id == u32::MAX,
            final(session).state.next_subscription_id == old(session).state.next_subscription_id,
            final(session).state.next_receipt_id == old(session).state.next_receipt_id,
            final(session).state.subscriptions == old(session).state.subscriptions,
            final(session).state.outstanding_receipts == old(session).state.outstanding_receipts,
            final(session).config == old(session).config,
            final(session).events@ == old(session).events@,
            final(session).outbound@ == old(session).outbound@,
            final(session).stream == old(session).stream,
    {
        proof {
            reveal_strlit("tx/");
        }
        let n = session.generate_transaction_id();
        let mut id = String::from_str("tx/");
        id.append(crate::decimal::format_u32(n).as_str());
        Transaction { id }
    }

    /// Begin building a SEND frame that carries this transaction's id.
    pub fn message<T: ToFrameBody>(&self, destination: &str, body_convertible: T) -> (r:
        MessageBuilder)
        requires
            body_convertible.spec_body().len() <= u32::MAX,
        ensures
            r.frame@.command == Command::Send,
            r.frame@.body == body_convertible.spec_body(),
            r.frame@.headers == seq![
                (HeaderView { key: "destination"@, value: spec_encode_value(destination@) }),
                (HeaderView {
                    key: "content-length"@,
                    value: crate::decimal::spec_format_u32(
                        body_convertible.spec_body().len() as nat,
                    ),
                }),
                (HeaderView {
                    key: spec_encode_value("transaction"@),
                    value: spec_encode_value(self.id@),
                }),
            ],
            r.receipt_request is None,
    {
        let mut send_frame = Frame::send(destination, body_convertible.to_frame_body());
        let ghost base = send_frame@.headers;
        send_frame.headers.push(Header::new("transaction", self.id.as_str()));
        proof {
            assert(send_frame@.headers =~= seq![
                (HeaderView { key: "destination"@, value: spec_encode_value(destination@) }),
                (HeaderView {
                    key: "content-length"@,
                    value: crate::decimal::spec_format_u32(
                        body_convertible.spec_body().len() as nat,
                    ),
                }),
                (HeaderView {
                    key: spec_encode_value("transaction"@),
                    value: spec_encode_value(self.id@),
                }),
            ]);
        }
        MessageBuilder::new(send_frame)
    }

    /// Queue the BEGIN frame that opens this transaction.
    pub fn begin(&mut self, session: &mut Session)
        requires
            old(session).wf(),
        ensures
            final(self).id == old(self).id,
            final(session).wf(),
            old(session).stream is Failed ==> final(session).outbound@ == old(session).outbound@,
            !(old(session).stream is Failed) ==> {
                &&& final(session).outbound@.len() == old(session).outbound@.len() + 1
                &&& final(session).outbound@.take(old(session).outbound@.len() as int) == old(session).outbound@
                &&& (final(session).outbound@.last() matches Transmission::CompleteFrame(f) && f@
                    == (FrameView {
                    command: Command::Begin,
                    headers: seq![
                        (HeaderView {
                            key: "transaction"@,
                            value: spec_encode_value(old(self).id@),
                        }),
                    ],
                    body: Seq::<u8>::empty(),
                }))
            },
            final(session).state == old(session).state,
            final(session).config == old(session).config,
            final(session).events@ == old(session).events@,
    {
        let begin_frame = Frame::begin(self.id.as_str());
        session.send_frame(begin_frame);
        proof {
            if !(old(session).stream is Failed) {
                assert(final(session).outbound@.take(old(session).outbound@.len() as int) =~= old(session).outbound@);
            }
        }
    }

    /// Queue the COMMIT frame that completes this transaction, consuming it.
    pub fn commit(self, session: &mut Session)
        requires
            old(session).wf(),
        ensures
            final(session).wf(),
            old(session).stream is Failed ==> final(session).outbound@ == old(session).outbound@,
            !(old(session).stream is Failed) ==> {
                &&& final(session).outbound@.len() == old(session).outbound@.len() + 1
                &&& final(session).outbound@.take(old(session).outbound@.len() as int) == old(session).outbound@
                &&& (final(session).outbound@.last() matches Transmission::CompleteFrame(f) && f@
                    == (FrameView {
                    command: Command::Commit,
                    headers: seq![
                        (HeaderView {
                            key: "transaction"@,
                            value: spec_encode_value(self.id@),
                        }),
                    ],
                    body: Seq::<u8>::empty(),
                }))
            },
            final(session).state == old(session).state,
            final(session).config == old(session).config,
            final(session).events@ == old(session).events@,
    {
        let commit_frame = Frame::commit(self.id.as_str());
        session.send_frame(commit_frame);
        proof {
            if !(old(session).stream is Failed) {
                assert(final(session).outbound@.take(old(session).outbound@.len() as int) =~= old(session).outbound@);
            }
        }
    }

    /// Queue the ABORT frame that discards this transaction, consuming it.
    pub fn abort(self, session: &mut Session)
        requires
            old(session).wf(),
        ensures
            final(session).wf(),
            old(session).stream is Failed ==> final(session).outbound@ == old(session).outbound@,
            !(old(session).stream is Failed) ==> {
                &&& final(session).outbound@.len() == old(session).outbound@.len() + 1
                &&& final(session).outbound@.take(old(session).outbound@.len() as int) == old(session).outbound@
                &&& (final(session).outbound@.last() matches Transmission::CompleteFrame(f) && f@
                    == (FrameView {
                    command: Command::Abort,
                    headers: seq![
                        (HeaderView {
                            key: "transaction"@,
                            value: spec_encode_value(self.id@),
                        }),
                    ],
                    body: Seq::<u8>::empty(),
                }))
            },
            final(session).state == old(session).state,
            final(session).config == old(session).config,
            final(session).events@ == old(session).events@,
    {
        let abort_frame = Frame::abort(self.id.as_str());
        session.send_frame(abort_frame);
        proof {
            if !(old(session).stream is Failed) {
                assert(final(session).outbound@.take(old(session).outbound@.len() as int) =~= old(session).outbound@);
            }
        }
    }
}

} // verus!

use vstd::prelude::*;

use crate::frame::{Frame, FrameView, Transmission};
use crate::header::{spec_encode_value, Header, HeaderView};
use crate::option_setter::OptionSetter;
use crate::session::{spec_queued, spec_receipt_id, OutstandingReceipt, ReceiptRequest, Session};

verus! {

/// A SEND frame in the making: the frame so far, and whether a receipt was
/// asked for. The receipt id is allocated when the frame is sent.
pub struct MessageBuilder {
    pub frame: Frame,
    pub receipt_request: Option<ReceiptRequest>,
}

/// The mathematical content of a message in the making.
#[verifier::ext_equal]
pub ghost struct MessageBuilderView {
    pub frame: FrameView,
    pub receipt_request: Option<Seq<char>>,
}

impl View for MessageBuilder {
    type V = MessageBuilderView;

    open spec fn view(&self) -> MessageBuilderView {
        MessageBuilderView {
            frame: self.frame@,
            receipt_request: match self.receipt_request {
                Some(ref r) => Some(r.id@),
                None => None,
            },
        }
    }
}

impl MessageBuilder {
    pub fn new(frame: Frame) -> (r: Self)
        ensures
            r.frame == frame,
            r.receipt_request is None,
    {
        MessageBuilder { frame, receipt_request: None }
    }

    /// Queue the built frame. When a receipt was requested, a fresh receipt
    /// id is allocated, added as a `receipt` header, and the sent frame is
    /// remembered until the matching RECEIPT arrives; nothing else in the
    /// session changes.
    pub fn send(self, session: &mut Session)
        requires
            old(session).wf(),
        ensures
            final(session).wf(),
            final(session).events@ == old(session).events@,
            final(session).state.subscriptions@ == old(session).state.subscriptions@,
            match self@.receipt_request {
                None => {
                    &&& spec_queued(old(session), final(session), Transmission::CompleteFrame(self.frame))
                    &&& final(session).state == old(session).state
                },
                Some(_) => {
                    let rid = spec_receipt_id(old(session).state.next_receipt_id);
                    let sent = FrameView {
                        headers: self.frame@.headers.push(
                            HeaderView {
                                key: spec_encode_value("receipt"@),
                                value: spec_encode_value(rid),
                            },
                        ),
                        ..self.frame@
                    };
                    &&& (old(session).stream is Failed ==> final(session).outbound@ == old(session).outbound@)
                    &&& (!(old(session).stream is Failed) ==> {
                        &&& final(session).outbound@.len() == old(session).outbound@.len() + 1
                        &&& final(session).outbound@.take(old(session).outbound@.len() as int) == old(session).outbound@
                        &&& (final(session).outbound@.last() matches Transmission::CompleteFrame(f)
                            && f@ == sent)
                    })
                    &&& final(session).state.outstanding_receipts@.contains_key(rid)
                    &&& final(session).state.outstanding_receipts@[rid].original_frame@ == sent
                    &&& final(session).state.outstanding_receipts@.remove(rid) == old(session).state.outstanding_receipts@.remove(rid)
                    &&& old(session).state.next_receipt_id < u32::MAX ==> final(session).state.next_receipt_id == old(session).state.next_receipt_id + 1
                    &&& old(session).state.next_receipt_id == u32::MAX ==> final(session).state.next_receipt_id == u32::MAX
                },
            },
    {
        let mut frame = self.frame;
        match self.receipt_request {
            Some(_) => {
                proof {
                    reveal_strlit("message/");
                }
                let next_id = session.generate_receipt_id();
                let mut receipt_id = String::from_str("message/");
                receipt_id.append(crate::decimal::format_u32(next_id).as_str());
                frame.headers.push(Header::new("receipt", receipt_id.as_str()));
                proof {
                    assert(frame@.headers =~= self.frame@.headers.push(
                        HeaderView {
                            key: spec_encode_value("receipt"@),
                            value: spec_encode_value(
                                spec_receipt_id(old(session).state.next_receipt_id),
                            ),
                        },
                    ));
                }
                let stored = frame.clone();
                session.state.outstanding_receipts.insert(
                    receipt_id,
                    OutstandingReceipt::new(stored),
                );
                session.send_frame(frame);
                proof {
                    if !(old(session).stream is Failed) {
                        assert(final(session).outbound@.take(old(session).outbound@.len() as int)
                            =~= old(session).outbound@);
                    }
                    assert(final(session).state.outstanding_receipts@.remove(
                        spec_receipt_id(old(session).state.next_receipt_id),
                    ) =~= old(session).state.outstanding_receipts@.remove(
                        spec_receipt_id(old(session).state.next_receipt_id),
                    ));
                }
            },
            None => {
                session.send_frame(frame);
            },
        }
    }

    /// Apply one message option.
    pub fn with<T: OptionSetter<MessageBuilder>>(self, option_setter: T) -> (r: MessageBuilder)
        ensures
            r@ == option_setter.spec_set(self@),
    {
        option_setter.set_option(self)
    }
}

} // verus!

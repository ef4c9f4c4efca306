use vstd::prelude::*;

use crate::frame::{Command, Frame, Transmission};
use crate::header::{spec_encode_value, Header, HeaderList, HeaderView};
use crate::option_setter::OptionSetter;
use crate::session::{spec_receipt_id, OutstandingReceipt, ReceiptRequest, Session};
use crate::subscription::{spec_ack_mode_text, spec_subscription_id, AckMode, Subscription};

verus! {

/// A subscription in the making: destination, acknowledgement policy, any
/// extra headers, and whether a receipt was asked for.
pub struct SubscriptionBuilder {
    pub destination: String,
    pub ack_mode: AckMode,
    pub headers: HeaderList,
    pub receipt_request: Option<ReceiptRequest>,
}

/// The mathematical content of a subscription in the making.
#[verifier::ext_equal]
pub ghost struct SubscriptionBuilderView {
    pub destination: Seq<char>,
    pub ack_mode: AckMode,
    pub headers: Seq<HeaderView>,
    pub receipt_request: Option<Seq<char>>,
}

impl View for SubscriptionBuilder {
    type V = SubscriptionBuilderView;

    open spec fn view(&self) -> SubscriptionBuilderView {
        SubscriptionBuilderView {
            destination: self.destination@,
            ack_mode: self.ack_mode,
            headers: self.headers@,
            receipt_request: match self.receipt_request {
                Some(ref r) => Some(r.id@),
                None => None,
            },
        }
    }
}

impl SubscriptionBuilder {
    pub fn new(destination: String) -> (r: Self)
        ensures
            r.destination == destination,
            r.ack_mode == AckMode::Auto,
            r.headers@.len() == 0,
            r.receipt_request is None,
    {
        SubscriptionBuilder {
            destination,
            ack_mode: AckMode::Auto,
            headers: HeaderList::new(),
            receipt_request: None,
        }
    }

    /// Allocate a subscription id, queue the SUBSCRIBE frame (with any extra
    /// headers, and a receipt header when one was requested), and register
    /// the subscription under the returned id. With a receipt requested, a
    /// fresh `message/<n>` id is allocated and the queued frame is
    /// remembered until the matching RECEIPT arrives; without one, the
    /// receipt registry and its counter are untouched.
    pub fn start(self, session: &mut Session) -> (r: String)
        requires
            old(session).wf(),
        ensures
            final(session).wf(),
            ({
                let sid = spec_subscription_id(old(session).state.next_subscription_id);
                let rid = spec_receipt_id(old(session).state.next_receipt_id);
                let base_headers = seq![
                    (HeaderView {
                        key: "destination"@,
                        value: spec_encode_value(self.destination@),
                    }),
                    (HeaderView { key: "id"@, value: spec_encode_value(sid) }),
                    (HeaderView { key: "ack"@, value: spec_ack_mode_text(self.ack_mode) }),
                ] + self.headers@;
                let sent_headers = match self@.receipt_request {
                    None => base_headers,
                    Some(_) => base_headers.push(
                        HeaderView {
                            key: spec_encode_value("receipt"@),
                            value: spec_encode_value(rid),
                        },
                    ),
                };
                &&& r@ == sid
                &&& old(session).state.next_subscription_id < u32::MAX ==> final(session).state.next_subscription_id == old(session).state.next_subscription_id + 1
                &&& old(session).state.next_subscription_id == u32::MAX ==> final(session).state.next_subscription_id == u32::MAX
                &&& final(session).state.subscriptions@.contains_key(sid)
                &&& final(session).state.subscriptions@[sid].destination@ == self.destination@
                &&& final(session).state.subscriptions@[sid].ack_mode == self.ack_mode
                &&& final(session).state.subscriptions@[sid].headers@ == self.headers@
                &&& final(session).state.subscriptions@.remove(sid) == old(session).state.subscriptions@.remove(sid)
                &&& (old(session).stream is Failed ==> final(session).outbound@ == old(session).outbound@)
                &&& (!(old(session).stream is Failed) ==> {
                    &&& final(session).outbound@.len() == old(session).outbound@.len() + 1
                    &&& final(session).outbound@.take(old(session).outbound@.len() as int) == old(session).outbound@
                    &&& (final(session).outbound@.last() matches Transmission::CompleteFrame(f)
                        && f@.command == Command::Subscribe && f@.body.len() == 0
                        && f@.headers == sent_headers)
                })
                &&& match self@.receipt_request {
                    None => final(session).state.outstanding_receipts@ == old(session).state.outstanding_receipts@
                        && final(session).state.next_receipt_id == old(session).state.next_receipt_id,
                    Some(_) => {
                        &&& final(session).state.outstanding_receipts@.contains_key(rid)
                        &&& (final(session).state.outstanding_receipts@[rid].original_frame@.command
                            == Command::Subscribe)
                        &&& final(session).state.outstanding_receipts@[rid].original_frame@.headers
                            == sent_headers
                        &&& final(session).state.outstanding_receipts@[rid].original_frame@.body.len()
                            == 0
                        &&& final(session).state.outstanding_receipts@.remove(rid) == old(session).state.outstanding_receipts@.remove(rid)
                        &&& old(session).state.next_receipt_id < u32::MAX ==> final(session).state.next_receipt_id == old(session).state.next_receipt_id + 1
                        &&& old(session).state.next_receipt_id == u32::MAX ==> final(session).state.next_receipt_id == u32::MAX
                    },
                }
                &&& final(session).events@ == old(session).events@
            }),
    {
        let mut this = self;
        let next_id = session.generate_subscription_id();
        let subscription = Subscription::new(
            next_id,
            this.destination.as_str(),
            this.ack_mode,
            this.headers.clone(),
        );
        let id_to_return = String::from_str(subscription.id.as_str());
        let mut subscribe_frame = Frame::subscribe(
            subscription.id.as_str(),
            this.destination.as_str(),
            this.ack_mode,
        );
        let ghost base_headers = subscribe_frame@.headers;
        subscribe_frame.headers.concat(&mut this.headers);
        let has_receipt = this.receipt_request.is_some();
        if has_receipt {
            proof {
                reveal_strlit("message/");
            }
            let receipt_number = session.generate_receipt_id();
            let mut receipt_id = String::from_str("message/");
            receipt_id.append(crate::decimal::format_u32(receipt_number).as_str());
            subscribe_frame.headers.push(Header::new("receipt", receipt_id.as_str()));
            let stored = subscribe_frame.clone();
            session.state.outstanding_receipts.insert(
                receipt_id,
                OutstandingReceipt::new(stored),
            );
        }
        session.send_frame(subscribe_frame.clone());
        let registry_key = String::from_str(subscription.id.as_str());
        session.state.subscriptions.insert(registry_key, subscription);
        proof {
            let sid = spec_subscription_id(old(session).state.next_subscription_id);
            let rid = spec_receipt_id(old(session).state.next_receipt_id);
            if !(old(session).stream is Failed) {
                assert(final(session).outbound@.take(old(session).outbound@.len() as int) =~= old(session).outbound@);
            }
            assert(final(session).state.subscriptions@.remove(sid) =~= old(session).state.subscriptions@.remove(sid));
            if self@.receipt_request is Some {
                assert(final(session).state.outstanding_receipts@.remove(rid) =~= old(session).state.outstanding_receipts@.remove(rid));
            }
            let f = subscribe_frame@;
            assert(f.headers =~= (match self@.receipt_request {
                None => base_headers + self.headers@,
                Some(_) => (base_headers + self.headers@).push(
                    HeaderView {
                        key: spec_encode_value("receipt"@),
                        value: spec_encode_value(rid),
                    },
                ),
            }));
        }
        id_to_return
    }

    /// Apply one subscription option.
    pub fn with<T: OptionSetter<SubscriptionBuilder>>(self, option_setter: T) -> (r:
        SubscriptionBuilder)
        ensures
            r@ == option_setter.spec_set(self@),
    {
        option_setter.set_option(self)
    }
}

} // verus!

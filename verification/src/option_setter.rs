use vstd::prelude::*;

use crate::connection::{Credentials, HeartBeat, OwnedCredentials};
use crate::frame::FrameView;
use crate::header::{
    lemma_mask_filter_is_filter, mask_filter, spec_encode_value, ContentType, Header, HeaderView,
    SuppressedHeader, str_eq,
};
use crate::message_builder::{MessageBuilder, MessageBuilderView};
use crate::session::{GenerateReceipt, ReceiptRequest};
use crate::session_builder::{SessionBuilder, SessionConfigView};
use crate::subscription::AckMode;
use crate::subscription_builder::{SubscriptionBuilder, SubscriptionBuilderView};

verus! {

/// One step of a builder's `with` chain. Each option states exactly how it
/// transforms the builder's content.
pub trait OptionSetter<T: View> {
    /// What applying this option does to the builder's content.
    spec fn spec_set(self, target: T::V) -> T::V;

    fn set_option(self, target: T) -> (r: T)
        ensures
            r@ == self.spec_set(target@),
    ;
}

/// With a mask that records, entry by entry, whether the key differs from
/// `key`, masking is exactly filtering on that key.
proof fn lemma_mask_is_key_filter(entries: Seq<Header>, keep: Seq<bool>, key: Seq<char>)
    requires
        keep.len() == entries.len(),
        forall|i: int| 0 <= i < keep.len() ==> keep[i] == ((#[trigger] entries[i])@.key != key),
    ensures
        mask_filter(entries.map_values(|h: Header| h@), keep) == entries.map_values(
            |h: Header| h@,
        ).filter(|hv: HeaderView| hv.key != key),
{
    let views = entries.map_values(|h: Header| h@);
    assert forall|i: int| 0 <= i < views.len() implies keep[i] == (#[trigger] views[i].key
        != key) by {
        assert(views[i] == entries[i]@);
    }
    lemma_mask_filter_is_filter(views, keep, |hv: HeaderView| hv.key != key);
}

impl OptionSetter<MessageBuilder> for Header {
    open spec fn spec_set(self, target: MessageBuilderView) -> MessageBuilderView {
        MessageBuilderView {
            frame: FrameView {
                headers: target.frame.headers.push(self@),
                ..target.frame
            },
            ..target
        }
    }

    fn set_option(self, target: MessageBuilder) -> (r: MessageBuilder) {
        let ghost expected = <Header as OptionSetter<MessageBuilder>>::spec_set(self, target@);
        let mut builder = target;
        builder.frame.headers.push(self);
        proof {
            assert(builder@ =~~= expected);
        }
        builder
    }
}

impl<'a> OptionSetter<MessageBuilder> for SuppressedHeader<'a> {
    open spec fn spec_set(self, target: MessageBuilderView) -> MessageBuilderView {
        MessageBuilderView {
            frame: FrameView {
                headers: target.frame.headers.filter(|hv: HeaderView| hv.key != self.0@),
                ..target.frame
            },
            ..target
        }
    }

    fn set_option(self, target: MessageBuilder) -> (r: MessageBuilder) {
        let SuppressedHeader(key) = self;
        let mut builder = target;
        let ghost pre = builder.frame.headers.headers@;
        let test = |header: &Header| -> (b: bool)
            ensures
                b == (header@.key != key@),
            { !str_eq(header.get_key(), key) };
        let mask = builder.frame.headers.retain(test);
        proof {
            let keep = mask@;
            assert forall|i: int| 0 <= i < keep.len() implies keep[i] == ((
            #[trigger] pre[i])@.key != key@) by {
                assert(test.ensures((&pre[i],), keep[i]));
            }
            lemma_mask_is_key_filter(pre, keep, key@);
        }
        builder
    }
}

impl<'a> OptionSetter<MessageBuilder> for ContentType<'a> {
    open spec fn spec_set(self, target: MessageBuilderView) -> MessageBuilderView {
        MessageBuilderView {
            frame: FrameView {
                headers: target.frame.headers.push(
                    HeaderView {
                        key: spec_encode_value("content-type"@),
                        value: spec_encode_value(self.0@),
                    },
                ),
                ..target.frame
            },
            ..target
        }
    }

    fn set_option(self, target: MessageBuilder) -> (r: MessageBuilder) {
        let ghost expected = <ContentType as OptionSetter<MessageBuilder>>::spec_set(
            self,
            target@,
        );
        let ContentType(content_type) = self;
        let mut builder = target;
        builder.frame.headers.push(Header::new("content-type", content_type));
        proof {
            assert(builder@ =~~= expected);
        }
        builder
    }
}

impl OptionSetter<MessageBuilder> for GenerateReceipt {
    open spec fn spec_set(self, target: MessageBuilderView) -> MessageBuilderView {
        MessageBuilderView { receipt_request: Some(Seq::<char>::empty()), ..target }
    }

    fn set_option(self, target: MessageBuilder) -> (r: MessageBuilder) {
        let ghost expected = <GenerateReceipt as OptionSetter<MessageBuilder>>::spec_set(self, target@);
        let mut builder = target;
        builder.receipt_request = Some(ReceiptRequest::new(String::new()));
        proof {
            assert(builder@ =~~= expected);
        }
        builder
    }
}

impl OptionSetter<SessionBuilder> for Header {
    open spec fn spec_set(self, target: SessionConfigView) -> SessionConfigView {
        SessionConfigView { headers: target.headers.push(self@), ..target }
    }

    fn set_option(self, target: SessionBuilder) -> (r: SessionBuilder) {
        let ghost expected = <Header as OptionSetter<SessionBuilder>>::spec_set(self, target@);
        let mut builder = target;
        builder.config.headers.push(self);
        proof {
            assert(builder@ =~~= expected);
        }
        builder
    }
}

impl OptionSetter<SessionBuilder> for HeartBeat {
    open spec fn spec_set(self, target: SessionConfigView) -> SessionConfigView {
        SessionConfigView { heartbeat: (self.0, self.1), ..target }
    }

    fn set_option(self, target: SessionBuilder) -> (r: SessionBuilder) {
        let ghost expected = <HeartBeat as OptionSetter<SessionBuilder>>::spec_set(self, target@);
        let mut builder = target;
        builder.config.heartbeat = self;
        proof {
            assert(builder@ =~~= expected);
        }
        builder
    }
}

impl<'b> OptionSetter<SessionBuilder> for Credentials<'b> {
    open spec fn spec_set(self, target: SessionConfigView) -> SessionConfigView {
        SessionConfigView { credentials: Some((self.0@, self.1@)), ..target }
    }

    fn set_option(self, target: SessionBuilder) -> (r: SessionBuilder) {
        let ghost expected = <Credentials as OptionSetter<SessionBuilder>>::spec_set(self, target@);
        let mut builder = target;
        builder.config.credentials = Some(OwnedCredentials::from(self));
        proof {
            assert(builder@ =~~= expected);
        }
        builder
    }
}

impl<'b> OptionSetter<SessionBuilder> for SuppressedHeader<'b> {
    open spec fn spec_set(self, target: SessionConfigView) -> SessionConfigView {
        SessionConfigView {
            headers: target.headers.filter(|hv: HeaderView| hv.key != self.0@),
            ..target
        }
    }

    fn set_option(self, target: SessionBuilder) -> (r: SessionBuilder) {
        let SuppressedHeader(key) = self;
        let mut builder = target;
        let ghost pre = builder.config.headers.headers@;
        let test = |header: &Header| -> (b: bool)
            ensures
                b == (header@.key != key@),
            { !str_eq(header.get_key(), key) };
        let mask = builder.config.headers.retain(test);
        proof {
            let keep = mask@;
            assert forall|i: int| 0 <= i < keep.len() implies keep[i] == ((
            #[trigger] pre[i])@.key != key@) by {
                assert(test.ensures((&pre[i],), keep[i]));
            }
            lemma_mask_is_key_filter(pre, keep, key@);
        }
        builder
    }
}

impl OptionSetter<SubscriptionBuilder> for Header {
    open spec fn spec_set(self, target: SubscriptionBuilderView) -> SubscriptionBuilderView {
        SubscriptionBuilderView { headers: target.headers.push(self@), ..target }
    }

    fn set_option(self, target: SubscriptionBuilder) -> (r: SubscriptionBuilder) {
        let ghost expected = <Header as OptionSetter<SubscriptionBuilder>>::spec_set(self, target@);
        let mut builder = target;
        builder.headers.push(self);
        proof {
            assert(builder@ =~~= expected);
        }
        builder
    }
}

impl<'a> OptionSetter<SubscriptionBuilder> for SuppressedHeader<'a> {
    open spec fn spec_set(self, target: SubscriptionBuilderView) -> SubscriptionBuilderView {
        SubscriptionBuilderView {
            headers: target.headers.filter(|hv: HeaderView| hv.key != self.0@),
            ..target
        }
    }

    fn set_option(self, target: SubscriptionBuilder) -> (r: SubscriptionBuilder) {
        let SuppressedHeader(key) = self;
        let mut builder = target;
        let ghost pre = builder.headers.headers@;
        let test = |header: &Header| -> (b: bool)
            ensures
                b == (header@.key != key@),
            { !str_eq(header.get_key(), key) };
        let mask = builder.headers.retain(test);
        proof {
            let keep = mask@;
            assert forall|i: int| 0 <= i < keep.len() implies keep[i] == ((
            #[trigger] pre[i])@.key != key@) by {
                assert(test.ensures((&pre[i],), keep[i]));
            }
            lemma_mask_is_key_filter(pre, keep, key@);
        }
        builder
    }
}

impl OptionSetter<SubscriptionBuilder> for AckMode {
    open spec fn spec_set(self, target: SubscriptionBuilderView) -> SubscriptionBuilderView {
        SubscriptionBuilderView { ack_mode: self, ..target }
    }

    fn set_option(self, target: SubscriptionBuilder) -> (r: SubscriptionBuilder) {
        let ghost expected = <AckMode as OptionSetter<SubscriptionBuilder>>::spec_set(self, target@);
        let mut builder = target;
        builder.ack_mode = self;
        proof {
            assert(builder@ =~~= expected);
        }
        builder
    }
}

impl OptionSetter<SubscriptionBuilder> for GenerateReceipt {
    open spec fn spec_set(self, target: SubscriptionBuilderView) -> SubscriptionBuilderView {
        SubscriptionBuilderView { receipt_request: Some(Seq::<char>::empty()), ..target }
    }

    fn set_option(self, target: SubscriptionBuilder) -> (r: SubscriptionBuilder) {
        let ghost expected = <GenerateReceipt as OptionSetter<SubscriptionBuilder>>::spec_set(self, target@);
        let mut builder = target;
        builder.receipt_request = Some(ReceiptRequest::new(String::new()));
        proof {
            assert(builder@ =~~= expected);
        }
        builder
    }
}

} // verus!

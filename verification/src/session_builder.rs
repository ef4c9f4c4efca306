use vstd::prelude::*;

use crate::connection::{HeartBeat, OwnedCredentials};
use crate::header::{spec_encode_value, Header, HeaderList, HeaderView};
use crate::option_setter::OptionSetter;
use crate::session::Session;

verus! {

/// What a session is started with: where to connect, how to authenticate,
/// the requested heartbeat, and the headers of the CONNECT frame.
pub struct SessionConfig {
    pub host: String,
    pub port: u16,
    pub credentials: Option<OwnedCredentials>,
    pub heartbeat: HeartBeat,
    pub headers: HeaderList,
}

/// The mathematical content of a session configuration.
#[verifier::ext_equal]
pub ghost struct SessionConfigView {
    pub host: Seq<char>,
    pub port: u16,
    pub credentials: Option<(Seq<char>, Seq<char>)>,
    pub heartbeat: (u32, u32),
    pub headers: Seq<HeaderView>,
}

impl View for SessionConfig {
    type V = SessionConfigView;

    open spec fn view(&self) -> SessionConfigView {
        SessionConfigView {
            host: self.host@,
            port: self.port,
            credentials: match self.credentials {
                Some(c) => Some((c.login@, c.passcode@)),
                None => None,
            },
            heartbeat: (self.heartbeat.0, self.heartbeat.1),
            headers: self.headers@,
        }
    }
}

/// The only entry point for building a session: host and port, then options,
/// then `start`.
pub struct SessionBuilder {
    pub config: SessionConfig,
}

impl View for SessionBuilder {
    type V = SessionConfigView;

    open spec fn view(&self) -> SessionConfigView {
        self.config@
    }
}

impl SessionBuilder {
    /// A builder for a session to `host:port`, with no credentials, no
    /// heartbeat, and the mandatory CONNECT headers.
    pub fn new(host: &str, port: u16) -> (r: SessionBuilder)
        ensures
            r.config.host@ == host@,
            r.config.port == port,
            r.config.credentials is None,
            r.config.heartbeat.0 == 0 && r.config.heartbeat.1 == 0,
            r.config.headers@ == seq![
                (HeaderView { key: spec_encode_value("host"@), value: spec_encode_value(host@) }),
                (HeaderView {
                    key: spec_encode_value("accept-version"@),
                    value: spec_encode_value("1.2"@),
                }),
                (HeaderView {
                    key: spec_encode_value("content-length"@),
                    value: spec_encode_value("0"@),
                }),
            ],
    {
        let mut headers = HeaderList::new();
        headers.push(Header::new("host", host));
        headers.push(Header::new("accept-version", "1.2"));
        headers.push(Header::new("content-length", "0"));
        proof {
            assert(headers@ =~= seq![
                (HeaderView { key: spec_encode_value("host"@), value: spec_encode_value(host@) }),
                (HeaderView {
                    key: spec_encode_value("accept-version"@),
                    value: spec_encode_value("1.2"@),
                }),
                (HeaderView {
                    key: spec_encode_value("content-length"@),
                    value: spec_encode_value("0"@),
                }),
            ]);
        }
        let config = SessionConfig {
            host: String::from_str(host),
            port,
            credentials: None,
            heartbeat: HeartBeat(0, 0),
            headers,
        };
        SessionBuilder { config }
    }

    /// Hand the configuration to a fresh session engine, in the connecting
    /// phase. Whoever drives the session opens the byte stream.
    pub fn start(self) -> (r: Session)
        ensures
            r.wf(),
            r.config == self.config,
            r.state.next_transaction_id == 0,
            r.state.next_subscription_id == 0,
            r.state.next_receipt_id == 0,
            r.state.subscriptions@ == Map::<Seq<char>, crate::subscription::Subscription>::empty(),
            r.state.outstanding_receipts@ == Map::<
                Seq<char>,
                crate::session::OutstandingReceipt,
            >::empty(),
            r.events@.len() == 0,
            r.outbound@.len() == 0,
            r.stream is Connecting,
    {
        Session::new(self.config)
    }

    /// Apply one configuration option.
    pub fn with<T: OptionSetter<SessionBuilder>>(self, option_setter: T) -> (r: SessionBuilder)
        ensures
            r@ == option_setter.spec_set(self@),
    {
        option_setter.set_option(self)
    }
}

} // verus!

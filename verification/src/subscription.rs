use vstd::prelude::*;

use crate::decimal::{format_u32, spec_format_u32};
use crate::header::HeaderList;

verus! {

/// The acknowledgement policy of a subscription.
#[derive(Copy, Clone, PartialEq, Eq, Structural, Debug)]
pub enum AckMode {
    Auto,
    Client,
    ClientIndividual,
}

/// The value the policy takes in an `ack` header.
pub open spec fn spec_ack_mode_text(mode: AckMode) -> Seq<char> {
    match mode {
        AckMode::Auto => "auto"@,
        AckMode::Client => "client"@,
        AckMode::ClientIndividual => "client-individual"@,
    }
}

impl AckMode {
    pub fn as_text(&self) -> (r: &'static str)
        ensures
            r@ == spec_ack_mode_text(*self),
    {
        proof {
            reveal_strlit("auto");
            reveal_strlit("client");
            reveal_strlit("client-individual");
        }
        match *self {
            AckMode::Auto => "auto",
            AckMode::Client => "client",
            AckMode::ClientIndividual => "client-individual",
        }
    }
}

/// A caller's verdict on one received message.
#[derive(Clone, Copy, PartialEq, Eq, Structural, Debug)]
pub enum AckOrNack {
    Ack,
    Nack,
}

/// The id the library gives the `n`-th subscription of a session.
pub open spec fn spec_subscription_id(n: u32) -> Seq<char> {
    "stomp-rs/"@ + spec_format_u32(n as nat)
}

/// One active subscription, kept in the session's registry under its id.
pub struct Subscription {
    pub id: String,
    pub destination: String,
    pub ack_mode: AckMode,
    pub headers: HeaderList,
}

impl Subscription {
    pub fn new(id: u32, destination: &str, ack_mode: AckMode, headers: HeaderList) -> (r:
        Subscription)
        ensures
            r.id@ == spec_subscription_id(id),
            r.destination@ == destination@,
            r.ack_mode == ack_mode,
            r.headers@ == headers@,
    {
        proof {
            reveal_strlit("stomp-rs/");
        }
        let id_string = String::from_str("stomp-rs/").concat(format_u32(id).as_str());
        Subscription {
            id: id_string,
            destination: String::from_str(destination),
            ack_mode,
            headers,
        }
    }
}

} // verus!

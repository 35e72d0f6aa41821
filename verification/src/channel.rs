//! Subscription-request data for a generic channel name of the form
//! `<channel>.<instrument>.<interval>`.
//!
//! Opening the transport, serialising these requests and sending them are
//! a collaborator's work outside the library.

use vstd::prelude::*;
use vstd::string::StringExecFns;

verus! {

/// One channel to subscribe to, named by its three dot-separated parts.
pub struct Channels {
    pub channel: String,
    pub instrument_name: String,
    pub interval: String,
}

/// The `params` object of a subscribe request.
pub struct Params {
    pub channels: Vec<String>,
}

/// A JSON-RPC subscribe request envelope.
pub struct Subscription {
    pub jsonrpc: String,
    pub method: String,
    pub id: i32,
    pub params: Params,
}

impl Params {
    pub fn new(channels: Vec<String>) -> (r: Params)
        ensures
            r.channels@ == channels@,
    {
        Params { channels }
    }
}

impl Channels {
    pub fn new(channel: String, instrument_name: String, interval: String) -> (r: Channels)
        ensures
            r.channel@ == channel@,
            r.instrument_name@ == instrument_name@,
            r.interval@ == interval@,
    {
        Channels { channel, instrument_name, interval }
    }

    /// The dot-separated channel name `<channel>.<instrument>.<interval>`.
    pub fn channel_string(&self) -> (r: String)
        ensures
            r@ == self.channel@ + "."@ + self.instrument_name@ + "."@ + self.interval@,
    {
        let mut r = self.channel.clone();
        r.append(".");
        r.append(self.instrument_name.as_str());
        r.append(".");
        r.append(self.interval.as_str());
        r
    }
}

impl Subscription {
    pub fn new(jsonrpc: String, id: i32, method: String, params: Params) -> (r: Subscription)
        ensures
            r.jsonrpc@ == jsonrpc@,
            r.method@ == method@,
            r.id == id,
            r.params.channels@ == params.channels@,
    {
        Subscription { jsonrpc, method, id, params }
    }
}

} // verus!

//! Subscription-request data for an order-book channel of the form
//! `book.<instrument>.<group>.<depth>.<interval>`.
//!
//! Opening the transport, serialising these requests and sending them are
//! a collaborator's work outside the library.

use vstd::prelude::*;
use vstd::string::StringExecFns;

verus! {

/// The character for the decimal digit `d`.
pub open spec fn digit_char(d: nat) -> char
    recommends
        d < 10,
{
    ((d + 48) as u8) as char
}

/// The decimal digits of `n`, most significant first, no leading zeros.
pub open spec fn dec_rep(n: nat) -> Seq<char>
    decreases n,
{
    if n < 10 {
        seq![digit_char(n)]
    } else {
        dec_rep(n / 10).push(digit_char(n % 10))
    }
}

/// The decimal notation of `d`: a minus sign before the digits when `d` is
/// negative.
pub open spec fn int_rep(d: int) -> Seq<char> {
    if d < 0 {
        seq!['-'] + dec_rep((-d) as nat)
    } else {
        dec_rep(d as nat)
    }
}

/// Relies on String::push: appends exactly the one character.
#[verifier::external_body]
fn push_char(s: &mut String, c: char)
    ensures
        final(s)@ == old(s)@.push(c),
{
    s.push(c);
}

/// Append the decimal digits of `n`.
fn push_dec(n: u64, out: &mut String)
    ensures
        final(out)@ == old(out)@ + dec_rep(n as nat),
    decreases n,
{
    if n >= 10 {
        push_dec(n / 10, out);
        push_char(out, (((n % 10) as u8) + 48) as char);
        proof {
            assert(out@ =~= old(out)@ + dec_rep(n as nat));
        }
    } else {
        push_char(out, (n as u8 + 48) as char);
        proof {
            assert(out@ =~= old(out)@ + dec_rep(n as nat));
        }
    }
}

/// One order-book channel to subscribe to, named by its parts.
pub struct Channels {
    pub instrument_name: String,
    pub group: String,
    pub depth: i32,
    pub interval: String,
}

/// The `params` object of a subscribe request.
pub struct Params {
    pub channels: Vec<String>,
}

/// A JSON-RPC subscribe request envelope.
pub struct Subscription {
    pub jsonrpc: String,
    pub method: String,
    pub id: i32,
    pub params: Params,
}

impl Params {
    pub fn new(channels: Vec<String>) -> (r: Params)
        ensures
            r.channels@ == channels@,
    {
        Params { channels }
    }
}

impl Channels {
    pub fn new(instrument_name: String, group: String, depth: i32, interval: String) -> (r:
        Channels)
        ensures
            r.instrument_name@ == instrument_name@,
            r.group@ == group@,
            r.depth == depth,
            r.interval@ == interval@,
    {
        Channels { instrument_name, group, depth, interval }
    }

    /// The dot-separated channel name
    /// `book.<instrument>.<group>.<depth>.<interval>`.
    pub fn channel_string(&self) -> (r: String)
        ensures
            r@ == "book."@ + self.instrument_name@ + "."@ + self.group@ + "."@ + int_rep(
                self.depth as int,
            ) + "."@ + self.interval@,
    {
        let mut r = "book.".to_owned();
        r.append(self.instrument_name.as_str());
        r.append(".");
        r.append(self.group.as_str());
        r.append(".");
        let ghost prefix = r@;
        if self.depth < 0 {
            push_char(&mut r, '-');
            let magnitude = (-(self.depth as i64)) as u64;
            push_dec(magnitude, &mut r);
            proof {
                assert(r@ =~= prefix + int_rep(self.depth as int));
            }
        } else {
            push_dec(self.depth as u64, &mut r);
        }
        r.append(".");
        r.append(self.interval.as_str());
        r
    }
}

impl Subscription {
    pub fn new(jsonrpc: String, id: i32, method: String, params: Params) -> (r: Subscription)
        ensures
            r.jsonrpc@ == jsonrpc@,
            r.method@ == method@,
            r.id == id,
            r.params.channels@ == params.channels@,
    {
        Subscription { jsonrpc, method, id, params }
    }
}

} // verus!

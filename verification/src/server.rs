//! The server's decisions: how many tunnels it serves, where streams and packets go, and what
//! a client is told when a connection fails.

use vstd::prelude::*;
use vstd::string::*;
use vstd::utf8::*;

use crate::error::{Error, ErrorView, Result};
use crate::ip::IpAddr;
use crate::message::{OpenStreamAck, OpenStreamAckView, ERR_CONNECT_FAILED, STATUS_ERR};
use crate::text;

verus! {

/// How many tunnels a server serves at once unless it is told otherwise.
pub const DEFAULT_MAX_CONNS: usize = 1024;

/// How long a connection to a target may take, in seconds.
pub const CONNECT_TIMEOUT_SECS: u64 = 10;

/// Counts the tunnels that are served at the moment.
#[derive(Debug)]
pub struct ConnLimit {
    max: usize,
    active: usize,
}

impl ConnLimit {
    pub closed spec fn max(&self) -> usize {
        self.max
    }

    pub closed spec fn active(&self) -> usize {
        self.active
    }

    #[verifier::type_invariant]
    spec fn within(self) -> bool {
        self.active <= self.max
    }

    /// No tunnel is served yet. A limit of zero stands for the default.
    pub fn new(max_conns: usize) -> (l: Self)
        ensures
            l.max() == (if max_conns == 0 {
                DEFAULT_MAX_CONNS
            } else {
                max_conns
            }),
            max_conns == 0 ==> l.max() == 1024,
            l.active() == 0,
    {
        ConnLimit {
            max: if max_conns == 0 {
                DEFAULT_MAX_CONNS
            } else {
                max_conns
            },
            active: 0,
        }
    }

    /// Whether one more tunnel can be served; if so it is counted. There are never more than
    /// the limit.
    pub fn try_acquire(&mut self) -> (r: bool)
        ensures
            r == (old(self).active() < old(self).max()),
            final(self).max() == old(self).max(),
            final(self).active() == (if r {
                (old(self).active() + 1) as usize
            } else {
                old(self).active()
            }),
            final(self).active() <= final(self).max(),
    {
        proof {
            use_type_invariant(&*self);
        }
        if self.active < self.max {
            self.active = self.active + 1;
            true
        } else {
            false
        }
    }

    /// A tunnel has ended.
    pub fn release(&mut self)
        ensures
            final(self).max() == old(self).max(),
            final(self).active() == (if old(self).active() == 0 {
                0
            } else {
                (old(self).active() - 1) as usize
            }),
    {
        proof {
            use_type_invariant(&*self);
        }
        self.active = self.active.saturating_sub(1);
    }
}

/// Where the streams and packets of a tunnel go.
#[derive(Debug, Clone, Copy, PartialEq, Eq)]
pub enum Route {
    /// To their targets.
    Direct,
    /// Into the tunnel to the next hop.
    NextHop,
}

/// Where a stream or packet goes: with a next hop configured everything goes there, and
/// nothing can go while there is no tunnel to it.
pub fn route(next_hop_configured: bool, next_hop_connected: bool) -> (r: Result<Route>)
    ensures
        !next_hop_configured ==> r matches Ok(Route::Direct),
        next_hop_configured && next_hop_connected ==> r matches Ok(Route::NextHop),
        next_hop_configured && !next_hop_connected ==> (r matches Err(e) && e@
            == ErrorView::InvalidData("no next hop"@)),
{
    if !next_hop_configured {
        Ok(Route::Direct)
    } else if next_hop_connected {
        Ok(Route::NextHop)
    } else {
        Err(Error::InvalidData("no next hop"))
    }
}

/// Whether a server has anything to listen on.
pub fn check_listeners(quic: bool, ws: bool) -> (r: Result<()>)
    ensures
        quic || ws ==> r is Ok,
        !quic && !ws ==> (r matches Err(e) && e@ == ErrorView::InvalidData(
            "no listeners configured"@,
        )),
{
    if quic || ws {
        Ok(())
    } else {
        Err(Error::InvalidData("no listeners configured"))
    }
}

/// The failure of a connection that took too long.
pub fn connect_timeout() -> (e: Error)
    ensures
        e@ == ErrorView::Message("connect timeout"@),
{
    Error::Message("connect timeout".to_owned())
}

/// The failure of a connection for the given reason.
pub fn connect_failed(reason: &str) -> (e: Error)
    ensures
        e@ == ErrorView::Message("connect: "@ + reason@),
{
    let mut s = "connect: ".to_owned();
    text::put_str(&mut s, reason);
    Error::Message(s)
}

/// What the client is told when its target cannot be reached.
pub fn open_failure(e: &Error) -> (a: OpenStreamAck)
    ensures
        a@ == (OpenStreamAckView {
            status: STATUS_ERR,
            error_code: ERR_CONNECT_FAILED,
            message: encode_utf8(e@.text()),
        }),
        a@.status == 0x01 && a@.error_code == 0x03,
{
    let s = e.to_text();
    OpenStreamAck::error_with_code(ERR_CONNECT_FAILED, s.as_str())
}

/// The address to send to, out of those that a name stands for: the first.
pub fn pick_target(found: &Vec<(IpAddr, u16)>) -> (r: Result<(IpAddr, u16)>)
    ensures
        found@.len() > 0 ==> (r matches Ok(t) && t == found@[0]),
        found@.len() == 0 ==> (r matches Err(e) && e@ == ErrorView::InvalidData(
            "no address for domain"@,
        )),
{
    if found.len() > 0 {
        Ok((found[0].0, found[0].1))
    } else {
        Err(Error::InvalidData("no address for domain"))
    }
}

} // verus!

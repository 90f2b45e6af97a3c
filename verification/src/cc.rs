//! Rate-based congestion control: the window is the target rate times the round-trip time,
//! and losses do not shrink it.

use vstd::prelude::*;

verus! {

/// The smallest window, so that a connection can start before its first acknowledgement.
pub const MIN_WINDOW_BYTES: u64 = 2400;

/// The largest window, so that one connection cannot fill a shared link.
pub const MAX_WINDOW_BYTES: u64 = 64_000_000;

/// The round-trip time assumed before the first acknowledgement, in nanoseconds.
pub const INITIAL_RTT_NANOS: u128 = 50_000_000;

/// The most streams that a peer may have open at once.
pub const MAX_CONCURRENT_STREAMS: u32 = 1024;

/// How often a quiet connection is kept alive, in seconds.
pub const KEEP_ALIVE_SECS: u64 = 5;

/// After how many quiet seconds a connection is given up.
pub const IDLE_TIMEOUT_SECS: u64 = 30;

/// The bytes on the way at `rate_bps` bits per second over a round trip of `rtt_nanos`.
pub open spec fn bytes_in_flight(rate_bps: u64, rtt_nanos: u128) -> int {
    (rate_bps / 8) * rtt_nanos / 1_000_000_000
}

/// The window for a target rate and a round-trip time, kept between the two limits.
pub open spec fn window_spec(rate_bps: u64, rtt_nanos: u128) -> u64 {
    let w = bytes_in_flight(rate_bps, rtt_nanos);
    if w < MIN_WINDOW_BYTES {
        MIN_WINDOW_BYTES
    } else if w > MAX_WINDOW_BYTES {
        MAX_WINDOW_BYTES
    } else {
        w as u64
    }
}

/// The window, in bytes, for a target rate in bits per second and a round-trip time.
pub fn window_for(rate_bps: u64, rtt_nanos: u128) -> (w: u64)
    ensures
        w == window_spec(rate_bps, rtt_nanos),
{
    let rate: u128 = (rate_bps / 8) as u128;
    match rate.checked_mul(rtt_nanos) {
        Some(p) => {
            let w: u128 = p / 1_000_000_000;
            if w < MIN_WINDOW_BYTES as u128 {
                MIN_WINDOW_BYTES
            } else if w > MAX_WINDOW_BYTES as u128 {
                MAX_WINDOW_BYTES
            } else {
                w as u64
            }
        },
        None => MAX_WINDOW_BYTES,
    }
}

/// The window is never below the minimum nor above the maximum.
pub proof fn law_window_bounds(rate_bps: u64, rtt_nanos: u128)
    ensures
        MIN_WINDOW_BYTES <= window_spec(rate_bps, rtt_nanos) <= MAX_WINDOW_BYTES,
{
}

/// A higher rate or a longer round trip never makes the window smaller.
pub proof fn law_window_monotonic(rate1: u64, rtt1: u128, rate2: u64, rtt2: u128)
    requires
        rate1 <= rate2,
        rtt1 <= rtt2,
    ensures
        window_spec(rate1, rtt1) <= window_spec(rate2, rtt2),
{
    let a: int = (rate1 / 8) as int;
    let b: int = (rate2 / 8) as int;
    assert(a <= b);
    assert(a * rtt1 <= b * rtt2) by (nonlinear_arith)
        requires
            0 <= a <= b,
            0 <= rtt1 <= rtt2,
    ;
    vstd::arithmetic::div_mod::lemma_div_is_ordered(a * rtt1, b * rtt2, 1_000_000_000);
}

/// The window is what the target rate carries in one round trip, to within one byte: so many
/// whole bytes, at an eighth of `rate_bps` bytes a second, go out in `rtt_nanos`. The smallest
/// window is used only where that is no more, and the largest only where it is no less.
pub proof fn law_window_is_rate_times_rtt(rate_bps: u64, rtt_nanos: u128)
    ensures
        ({
            let w = window_spec(rate_bps, rtt_nanos);
            let carried = (rate_bps / 8) * rtt_nanos;
            &&& 2_400 <= w <= 64_000_000
            &&& 2_400 < w ==> w * 1_000_000_000 <= carried
            &&& w < 64_000_000 ==> carried < (w + 1) * 1_000_000_000
        }),
{
    let carried: int = (rate_bps / 8) * rtt_nanos;
    let q = carried / 1_000_000_000;
    assert(0 <= carried) by (nonlinear_arith)
        requires
            carried == (rate_bps / 8) * rtt_nanos,
    ;
    assert(q * 1_000_000_000 <= carried < (q + 1) * 1_000_000_000);
}

/// Where the rate is a whole number of bytes a second, twice the round trip carries twice as
/// much, and twice the rate does, to within one byte and as far as the limits allow.
pub proof fn law_window_is_proportional(rate_bps: u64, rtt_nanos: u128)
    requires
        rate_bps % 8 == 0,
        rate_bps <= u64::MAX / 2,
        rtt_nanos <= u128::MAX / 2,
        2_400 < window_spec(rate_bps, rtt_nanos) < 32_000_000,
    ensures
        ({
            let w = window_spec(rate_bps, rtt_nanos);
            &&& 2 * w <= window_spec(rate_bps, (2 * rtt_nanos) as u128) <= 2 * w + 1
            &&& 2 * w <= window_spec((2 * rate_bps) as u64, rtt_nanos) <= 2 * w + 1
        }),
{
    let carried: int = (rate_bps / 8) * rtt_nanos;
    let far: int = (rate_bps / 8) * ((2 * rtt_nanos) as u128);
    let fast: int = (((2 * rate_bps) as u64) / 8) * rtt_nanos;
    law_window_is_rate_times_rtt(rate_bps, rtt_nanos);
    law_window_is_rate_times_rtt(rate_bps, (2 * rtt_nanos) as u128);
    law_window_is_rate_times_rtt((2 * rate_bps) as u64, rtt_nanos);
    assert(((2 * rate_bps) as u64) / 8 == 2 * (rate_bps / 8));
    let r: int = (rate_bps / 8) as int;
    let t: int = rtt_nanos as int;
    assert(r * (2 * t) == 2 * (r * t)) by (nonlinear_arith);
    assert((2 * r) * t == 2 * (r * t)) by (nonlinear_arith);
    assert(far == 2 * carried);
    assert(fast == 2 * carried);
}

/// A quiet connection is kept alive six times before it would be given up.
pub proof fn law_connection_kept_alive()
    ensures
        KEEP_ALIVE_SECS == 5,
        IDLE_TIMEOUT_SECS == 6 * KEEP_ALIVE_SECS,
        MAX_CONCURRENT_STREAMS == 1024,
{
}

/// A controller that sends at a fixed rate whatever is lost.
#[derive(Debug)]
pub struct BrutalController {
    rate_bps: u64,
    window: u64,
    mtu: u16,
}

impl Clone for BrutalController {
    fn clone(&self) -> (c: BrutalController)
        ensures
            c == *self,
    {
        BrutalController { rate_bps: self.rate_bps, window: self.window, mtu: self.mtu }
    }
}

impl BrutalController {
    /// The target rate in bits per second.
    pub closed spec fn rate(&self) -> u64 {
        self.rate_bps
    }

    /// The window computed last.
    pub closed spec fn base_window(&self) -> u64 {
        self.window
    }

    /// The largest packet that the path takes.
    pub closed spec fn packet_size(&self) -> u16 {
        self.mtu
    }

    /// The window in force: never less than two packets.
    pub open spec fn effective_window(&self) -> u64 {
        if self.base_window() >= 2 * self.packet_size() {
            self.base_window()
        } else {
            (2 * self.packet_size()) as u64
        }
    }

    /// A controller that has not seen an acknowledgement yet.
    pub fn new(rate_bps: u64, mtu: u16) -> (c: Self)
        ensures
            c.rate() == rate_bps,
            c.packet_size() == mtu,
            c.base_window() == window_spec(rate_bps, INITIAL_RTT_NANOS),
            c.base_window() == window_spec(rate_bps, 50_000_000),
    {
        BrutalController { rate_bps, window: window_for(rate_bps, INITIAL_RTT_NANOS), mtu }
    }

    /// An acknowledgement came in: the window follows the measured round-trip time.
    pub fn on_ack(&mut self, rtt_nanos: u128)
        ensures
            final(self).rate() == old(self).rate(),
            final(self).packet_size() == old(self).packet_size(),
            final(self).base_window() == window_spec(old(self).rate(), rtt_nanos),
    {
        self.window = window_for(self.rate_bps, rtt_nanos);
    }

    /// Packets were lost: nothing changes.
    pub fn on_congestion_event(&mut self, _persistent: bool, _lost_bytes: u64)
        ensures
            *final(self) == *old(self),
    {
    }

    /// The path takes packets of another size.
    pub fn on_mtu_update(&mut self, new_mtu: u16)
        ensures
            final(self).rate() == old(self).rate(),
            final(self).packet_size() == new_mtu,
            final(self).base_window() == old(self).base_window(),
    {
        self.mtu = new_mtu;
    }

    /// The window in force, in bytes.
    pub fn window(&self) -> (w: u64)
        ensures
            w == self.effective_window(),
    {
        let floor: u64 = self.mtu as u64 * 2;
        if self.window >= floor {
            self.window
        } else {
            floor
        }
    }

    /// The window before the first acknowledgement, in bytes.
    pub fn initial_window(&self) -> (w: u64)
        ensures
            w == self.base_window(),
    {
        self.window
    }
}

/// The window in force is the computed one, or two packets where that is more.
pub proof fn law_window_holds_two_packets(c: BrutalController)
    ensures
        c.effective_window() >= c.base_window(),
        c.effective_window() >= 2 * c.packet_size(),
        c.effective_window() == c.base_window() || c.effective_window() == 2 * c.packet_size(),
{
}

/// Makes a controller for each new connection.
#[derive(Debug)]
pub struct BrutalConfig {
    /// The target rate in bits per second.
    pub rate_bps: u64,
}

impl Clone for BrutalConfig {
    fn clone(&self) -> (c: BrutalConfig)
        ensures
            c == *self,
    {
        BrutalConfig { rate_bps: self.rate_bps }
    }
}

impl BrutalConfig {
    /// The controller of a new connection.
    pub fn build(&self, current_mtu: u16) -> (c: BrutalController)
        ensures
            c.rate() == self.rate_bps,
            c.packet_size() == current_mtu,
            c.base_window() == window_spec(self.rate_bps, INITIAL_RTT_NANOS),
            c.base_window() == window_spec(self.rate_bps, 50_000_000),
    {
        BrutalController::new(self.rate_bps, current_mtu)
    }
}

/// The factory to use for a target rate; none means the transport's own congestion control.
pub fn controller_factory(rate_bps: u64) -> (r: Option<BrutalConfig>)
    ensures
        rate_bps > 0 ==> (r matches Some(c) && c.rate_bps == rate_bps),
        rate_bps == 0 ==> r is None,
{
    if rate_bps > 0 {
        Some(BrutalConfig { rate_bps })
    } else {
        None
    }
}

} // verus!

//! The delivery policy of the HTTP sink: a debounce window after each send,
//! and a quiet window after each failure during which records are dropped.
use vstd::prelude::*;

verus! {

/// How records are encoded in the body of a POST.
#[derive(Clone, Copy, PartialEq, Eq, Structural, Debug)]
pub enum HttpFormat {
    Json,
    MsgPack,
}

/// How long deliveries are dropped after a failed one, in milliseconds.
pub const FAILURE_QUIET_MS: i64 = 10000;

/// What to do with the record at hand.
#[derive(Clone, Copy, PartialEq, Eq, Structural, Debug)]
pub enum Delivery {
    /// Drop it, and report success.
    Skip,
    /// POST it.
    Send,
}

/// The HTTP sink: where to send, in which encoding, and when it last sent
/// and last failed.
pub struct HttpOut {
    pub http_endpoint: String,
    pub http_format: HttpFormat,
    /// The debounce window, where there is one.
    pub wait_msec: Option<i64>,
    pub last_sent_milliseconds: i64,
    pub last_fail_milliseconds: Option<i64>,
}

/// A record at time `now` is sent unless it falls in the debounce window
/// after the last send or in the quiet window after the last failure.
pub open spec fn may_send(out: HttpOut, now: i64) -> bool {
    &&& !(out.wait_msec matches Some(w) && now - out.last_sent_milliseconds < w)
    &&& !(out.last_fail_milliseconds matches Some(f) && now - f < FAILURE_QUIET_MS)
}

/// How the sink's times move when a delivery made at `now` succeeded or
/// failed.
pub open spec fn outcome_recorded(before: HttpOut, after: HttpOut, delivered: bool, now: i64) -> bool {
    &&& after.http_endpoint == before.http_endpoint
    &&& after.http_format == before.http_format
    &&& after.wait_msec == before.wait_msec
    &&& if delivered {
        after.last_sent_milliseconds == now && after.last_fail_milliseconds is None
    } else {
        after.last_sent_milliseconds == before.last_sent_milliseconds && after.last_fail_milliseconds == Some(now)
    }
}

impl HttpOut {
    /// A sink that has not failed, whose debounce window (none for 0)
    /// counts from `now_ms`.
    pub fn new(http_endpoint: String, http_format: HttpFormat, wait_msec: u32, now_ms: i64) -> (r: Self)
        ensures
            r.http_endpoint == http_endpoint,
            r.http_format == http_format,
            r.wait_msec == (if wait_msec == 0 { None } else { Some(wait_msec as i64) }),
            r.last_sent_milliseconds == now_ms,
            r.last_fail_milliseconds is None,
    {
        HttpOut {
            http_endpoint,
            http_format,
            wait_msec: if wait_msec == 0 { None } else { Some(wait_msec as i64) },
            last_sent_milliseconds: now_ms,
            last_fail_milliseconds: None,
        }
    }

    /// Whether the record at hand, at time `now_ms`, is sent or dropped.
    pub fn decide(&self, now_ms: i64) -> (r: Delivery)
        ensures
            r == (if may_send(*self, now_ms) { Delivery::Send } else { Delivery::Skip }),
    {
        if let Some(w) = self.wait_msec {
            if (now_ms as i128) - (self.last_sent_milliseconds as i128) < w as i128 {
                return Delivery::Skip;
            }
        }
        if let Some(f) = self.last_fail_milliseconds {
            if (now_ms as i128) - (f as i128) < FAILURE_QUIET_MS as i128 {
                return Delivery::Skip;
            }
        }
        Delivery::Send
    }

    /// Notes how a POST made at `now_ms` ended: a success restarts the
    /// debounce window and clears the failure; a failure opens the quiet
    /// window.
    pub fn record_outcome(&mut self, delivered: bool, now_ms: i64)
        ensures
            outcome_recorded(*old(self), *final(self), delivered, now_ms),
    {
        if delivered {
            self.last_sent_milliseconds = now_ms;
            self.last_fail_milliseconds = None;
        } else {
            self.last_fail_milliseconds = Some(now_ms);
        }
    }
}

/// After a failed delivery at `t`, every record that comes less than ten
/// seconds later is dropped; from ten seconds on, one is sent again (unless
/// the debounce window still holds it back).
pub proof fn lemma_failure_quiet_window(before: HttpOut, after: HttpOut, t: i64, now: i64)
    requires
        outcome_recorded(before, after, false, t),
    ensures
        now - t < FAILURE_QUIET_MS ==> !may_send(after, now),
        now - t >= FAILURE_QUIET_MS && !(after.wait_msec matches Some(w) && now - after.last_sent_milliseconds < w)
            ==> may_send(after, now),
{
}

} // verus!

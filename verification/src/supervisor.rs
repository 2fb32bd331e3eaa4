//! How long to wait before the master agent is connected to again.

use vstd::prelude::*;

use crate::monitor::next_delay;
use crate::time::Span;

verus! {

/// The delay before the next connection.
#[derive(Clone, Copy, Debug, PartialEq, Eq, Structural)]
pub struct Backoff {
    pub delay: Span,
}

/// How long a session has to last for the delays to start anew.
pub open spec fn lasting() -> Span {
    crate::time::seconds(30)
}

/// The delay after a session that lasted this long.
pub open spec fn delay_after_session(backoff: Backoff, lasted: Span) -> Span {
    if lasted.nanos >= lasting().nanos {
        crate::monitor::initial_delay()
    } else {
        backoff.delay
    }
}

impl Backoff {
    /// The delays from the first one on.
    pub fn new() -> (backoff: Self)
        ensures
            backoff.delay == crate::monitor::initial_delay(),
    {
        Self { delay: Span::from_secs(1) }
    }

    /// How long to wait after a session that lasted this long.
    pub fn after_session(&mut self, lasted: Span) -> (delay: Span)
        ensures
            delay == delay_after_session(*old(self), lasted),
            final(self).delay == crate::monitor::following_delay(delay),
    {
        if lasted.nanos >= 30_000_000_000 {
            self.delay = Span::from_secs(1);
        }
        let delay: Span = self.delay;
        self.delay = next_delay(delay);
        delay
    }
}

/// The state after `n` sessions in a row that did not last.
pub open spec fn after_short_sessions(n: nat) -> Backoff
    decreases n,
{
    if n == 0 {
        Backoff { delay: crate::monitor::initial_delay() }
    } else {
        let before = after_short_sessions((n - 1) as nat);
        Backoff { delay: crate::monitor::following_delay(before.delay) }
    }
}

/// After sessions in a row that do not last, the delays double from one second
/// up to half a minute; a session that lasts starts them anew.
pub proof fn reconnection_delays_double_until_a_session_lasts(n: nat, lasted: Span)
    ensures
        lasted.nanos < lasting().nanos ==> delay_after_session(after_short_sessions(n), lasted)
            == crate::monitor::delay_after(n),
        lasted.nanos >= lasting().nanos ==> delay_after_session(after_short_sessions(n), lasted)
            == crate::monitor::initial_delay(),
    decreases n,
{
    if n > 0 {
        reconnection_delays_double_until_a_session_lasts((n - 1) as nat, Span { nanos: 0 });
    }
}

} // verus!

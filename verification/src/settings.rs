//! Per-queue configuration and the queue's own state.

use vstd::prelude::*;

verus! {

/// Mathematical image of [`QueueSettings`].
pub ghost struct SettingsView {
    pub retry_limit: u64,
    pub retry_delays_ms: Seq<u64>,
    pub timeout_ms: u64,
    pub expiry_ms: u64,
}

impl SettingsView {
    /// Settings are valid when the timeout is positive and the retry-delay
    /// list is empty, a single default, or exactly one delay per retry.
    pub open spec fn valid(self) -> bool {
        &&& self.timeout_ms > 0
        &&& (self.retry_delays_ms.len() <= 1 || self.retry_delays_ms.len() == self.retry_limit)
    }

    /// The delay before retry attempt `attempt` (counted from 0): the
    /// matching entry of the delay list, its last entry once attempts go
    /// past it (so a single entry is the default for every retry), and no
    /// delay at all when the list is empty.
    pub open spec fn retry_delay(self, attempt: u64) -> u64 {
        let d = self.retry_delays_ms;
        if d.len() == 0 {
            0
        } else if attempt < d.len() {
            d[attempt as int]
        } else {
            d[d.len() - 1]
        }
    }
}

/// The configuration of a queue, snapshotted into each job at enqueue time.
///
/// All durations are in milliseconds.
#[verifier::ext_equal]
pub struct QueueSettings {
    /// How many times a stalled job is re-queued before it is timed out for
    /// good.
    pub retry_limit: u64,
    /// Delay before each retry attempt. Empty means no delay; a single entry
    /// is the default applied to every retry; otherwise one entry per retry.
    pub retry_delays_ms: Vec<u64>,
    /// A running job with no heartbeat for longer than this has stalled.
    pub timeout_ms: u64,
    /// How long a finished job is kept before the monitor reaps it.
    pub expiry_ms: u64,
}

impl View for QueueSettings {
    type V = SettingsView;

    open spec fn view(&self) -> SettingsView {
        SettingsView {
            retry_limit: self.retry_limit,
            retry_delays_ms: self.retry_delays_ms@,
            timeout_ms: self.timeout_ms,
            expiry_ms: self.expiry_ms,
        }
    }
}

impl QueueSettings {
    /// Checks [`SettingsView::valid`] at run time.
    pub fn check_valid(&self) -> (r: bool)
        ensures
            r == self@.valid(),
    {
        if self.timeout_ms == 0 {
            return false;
        }
        let n = self.retry_delays_ms.len();
        n <= 1 || n as u64 == self.retry_limit
    }

    /// Computes [`SettingsView::retry_delay`] at run time.
    pub fn retry_delay(&self, attempt: u64) -> (r: u64)
        ensures
            r == self@.retry_delay(attempt),
    {
        let n = self.retry_delays_ms.len();
        if n == 0 {
            0
        } else if attempt < n as u64 {
            self.retry_delays_ms[attempt as usize]
        } else {
            self.retry_delays_ms[n - 1]
        }
    }
}

impl Clone for QueueSettings {
    fn clone(&self) -> (r: Self)
        ensures
            r@ == self@,
    {
        let r = QueueSettings {
            retry_limit: self.retry_limit,
            retry_delays_ms: copy_u64_vec(&self.retry_delays_ms),
            timeout_ms: self.timeout_ms,
            expiry_ms: self.expiry_ms,
        };
        proof {
            assert(r@ =~= self@);
        }
        r
    }
}

/// Mathematical image of [`QueueState`].
pub ghost struct QueueView {
    pub settings: SettingsView,
    pub pending: Seq<u64>,
}

/// Everything the engine keeps per queue: its settings and the FIFO list of
/// the IDs of its queued jobs.
#[verifier::ext_equal]
pub struct QueueState {
    /// The queue's current configuration.
    pub settings: QueueSettings,
    /// IDs of the jobs waiting on this queue, oldest first.
    pub pending: Vec<u64>,
}

impl View for QueueState {
    type V = QueueView;

    open spec fn view(&self) -> QueueView {
        QueueView { settings: self.settings@, pending: self.pending@ }
    }
}

impl Clone for QueueState {
    fn clone(&self) -> (r: Self)
        ensures
            r@ == self@,
    {
        let r = QueueState {
            settings: self.settings.clone(),
            pending: copy_u64_vec(&self.pending),
        };
        proof {
            assert(r@ =~= self@);
        }
        r
    }
}

/// Copies a vector of integers element by element.
pub fn copy_u64_vec(v: &Vec<u64>) -> (r: Vec<u64>)
    ensures
        r@ == v@,
{
    let mut r: Vec<u64> = Vec::new();
    let mut i: usize = 0;
    while i < v.len()
        invariant
            i <= v@.len(),
            r@ == v@.take(i as int),
        decreases v@.len() - i,
    {
        r.push(v[i]);
        proof {
            assert(r@ =~= v@.take(i + 1));
        }
        i = i + 1;
    }
    proof {
        assert(r@ =~= v@);
    }
    r
}

} // verus!

//! A minimal HTTP/1.1 protocol layer: request-line parsing, routing,
//! per-route responses and their wire form, with the one piece of state
//! that connections share.

use vstd::prelude::*;

pub mod http;
pub mod lossy;
pub mod server;
pub mod text;

verus! {

/// How many bytes are read of a request, in one read; what lies beyond
/// them is not looked at.
pub const BUFFER_SIZE: usize = 1024;

/// What all connections share: the number of visits counted so far.
#[derive(Debug, Clone, Copy, PartialEq, Eq, Structural)]
pub struct SharedData {
    pub visit_count: u64,
}

impl SharedData {
    /// The data after one more visit.
    pub open spec fn visited(self) -> SharedData {
        SharedData { visit_count: (self.visit_count + 1) as u64 }
    }

    /// The data after `n` more visits, one after another.
    pub open spec fn after(self, n: nat) -> SharedData
        decreases n,
    {
        if n == 0 {
            self
        } else {
            self.after((n - 1) as nat).visited()
        }
    }

    /// Counts one visit and says how many there are now.
    pub fn visit(&mut self) -> (count: u64)
        requires
            old(self).visit_count < u64::MAX,
        ensures
            *final(self) == old(self).visited(),
            count == old(self).visit_count + 1,
    {
        self.visit_count = self.visit_count + 1;
        self.visit_count
    }
}

/// Visits that come one after another are counted one by one, as long as
/// the counter can hold them.
pub proof fn lemma_after(start: SharedData, n: nat)
    requires
        start.visit_count + n <= u64::MAX,
    ensures
        start.after(n).visit_count == start.visit_count + n,
    decreases n,
{
    if n > 0 {
        lemma_after(start, (n - 1) as nat);
    }
}

/// After `n` visits on a counter that stood at zero it stands at `n`, and
/// no two of the visits were given the same count: the `i`-th saw `i`.
pub proof fn lemma_visits_counted(n: nat, i: nat, j: nat)
    requires
        n <= u64::MAX,
        1 <= i < j <= n,
    ensures
        (SharedData { visit_count: 0 }).after(n).visit_count == n,
        (SharedData { visit_count: 0 }).after(i).visit_count == i,
        (SharedData { visit_count: 0 }).after(i).visit_count != (SharedData {
            visit_count: 0,
        }).after(j).visit_count,
{
    let fresh = SharedData { visit_count: 0 };
    lemma_after(fresh, n);
    lemma_after(fresh, i);
    lemma_after(fresh, j);
}

} // verus!

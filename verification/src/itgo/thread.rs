//! Per-thread search counters.

use vstd::prelude::*;

verus! {

/// The countdown after `j` ticks from `c`, and whether the last of them asked for a check of the
/// limits: each tick takes one off and asks when it reaches zero.
pub open spec fn ticks(c: int, j: nat) -> (int, bool)
    decreases j,
{
    if j == 0 {
        (c, false)
    } else {
        let d = ticks(c, (j - 1) as nat).0 - 1;
        (d, d == 0)
    }
}

/// From a countdown of `c` (one for a new thread; after `reset_countdown`, the smaller of the
/// nodes left and 8192), the first `c - 1` ticks do not ask for a check and the `c`-th does.
pub proof fn law_countdown_run(c: int, j: nat)
    requires
        1 <= j <= c,
    ensures
        ticks(c, j) == (c - j, j == c),
    decreases j,
{
    reveal_with_fuel(ticks, 2);
    if j > 1 {
        law_countdown_run(c, (j - 1) as nat);
    }
}

/// Counters of one search thread, and how many nodes remain before the next check of the limits.
pub struct Thread {
    pub nodes: u64,
    pub pv_nodes: u64,
    pub node_limit: u64,
    pub evals: u64,
    /// Nodes left before the next check.
    pub countdown: u32,
}

impl Thread {
    /// Fresh counters for a search of at most `node_limit` nodes; the first node checks.
    pub fn new(node_limit: u64) -> (r: Thread)
        ensures
            r.nodes == 0 && r.pv_nodes == 0 && r.evals == 0,
            r.node_limit == node_limit,
            r.countdown == 1,
    {
        Thread { nodes: 0, node_limit, evals: 0, pv_nodes: 0, countdown: 1 }
    }

    /// Count down one node; `true` when it is time to check the limits.
    pub fn tick_countdown(&mut self) -> (r: bool)
        requires
            old(self).countdown > 0,
        ensures
            final(self).countdown == old(self).countdown - 1,
            r == (final(self).countdown == 0),
            (final(self).countdown as int, r) == ticks(old(self).countdown as int, 1),
            final(self).nodes == old(self).nodes,
            final(self).pv_nodes == old(self).pv_nodes,
            final(self).node_limit == old(self).node_limit,
            final(self).evals == old(self).evals,
    {
        proof {
            reveal_with_fuel(ticks, 2);
        }
        self.countdown = self.countdown - 1;
        self.countdown == 0
    }

    /// Check again after the nodes left, or after 8192 nodes if sooner.
    pub fn reset_countdown(&mut self)
        requires
            old(self).nodes <= old(self).node_limit,
        ensures
            final(self).countdown == if old(self).node_limit - old(self).nodes < 8192 {
                old(self).node_limit - old(self).nodes
            } else {
                8192
            },
            final(self).nodes == old(self).nodes,
            final(self).pv_nodes == old(self).pv_nodes,
            final(self).node_limit == old(self).node_limit,
            final(self).evals == old(self).evals,
    {
        let left = self.node_limit - self.nodes;
        self.countdown = if left < 8192 {
            left as u32
        } else {
            8192
        };
    }
}

} // verus!

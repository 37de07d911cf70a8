//! State shared between the engine's command loop and its searcher.

use vstd::prelude::*;

use crate::itgo::game::{Game, LOOKBEHIND};
use crate::itgo::protocol::Limits;
use crate::itgo::tt::{all_empty, Table};

verus! {

/// The game, the table and the running search's limits.
pub struct Shared {
    /// When the current search started, in milliseconds on the caller's clock.
    pub started_at: u64,
    /// Whether a search is running.
    pub active: bool,
    pub limits: Limits,
    pub game: Game,
    pub tt: Table,
}

/// The time limit once a clock's budget is taken into account.
pub open spec fn time_with_budget(limits: Limits, budget: u64) -> u64 {
    if limits.clock is Some && budget < limits.time {
        budget
    } else {
        limits.time
    }
}

impl Shared {
    /// The game is well formed.
    pub open spec fn wf(&self) -> bool {
        self.game.wf()
    }

    /// An idle engine with an empty game and a table of `tt_len` slots.
    pub fn new(tt_len: usize) -> (r: Shared)
        ensures
            r.wf(),
            !r.active,
            r.started_at == 0,
            r.limits == crate::itgo::protocol::spec_default_limits(),
            r.game.index == LOOKBEHIND,
            all_empty(r.tt.raw@, tt_len as int),
    {
        Shared {
            started_at: 0,
            active: false,
            limits: Limits::default(),
            game: Game::new(),
            tt: Table::new(tt_len),
        }
    }

    /// Whether a search is running.
    pub fn active(&self) -> (r: bool)
        ensures
            r == self.active,
    {
        self.active
    }

    /// Mark a search as running or not.
    pub fn set_active(&mut self, value: bool)
        ensures
            final(self).active == value,
            final(self).started_at == old(self).started_at,
            final(self).limits == old(self).limits,
            final(self).game == old(self).game,
            final(self).tt == old(self).tt,
    {
        if self.active() != value {
            self.active = value;
        }
    }

    /// Start a search at `started_at` with `limits`; with a clock, the time limit is at most
    /// `budget`, the share of the clock this move may use.
    pub fn go(&mut self, started_at: u64, limits: Limits, budget: u64)
        ensures
            final(self).started_at == started_at,
            final(self).active,
            final(self).limits == (Limits { time: time_with_budget(limits, budget), ..limits }),
            final(self).game == old(self).game,
            final(self).tt == old(self).tt,
    {
        let mut limits = limits;
        if limits.clock.is_some() && budget < limits.time {
            limits.time = budget;
        }
        self.started_at = started_at;
        self.active = true;
        self.limits = limits;
    }

    /// Back to the first ply, with an empty table.
    pub fn reset(&mut self)
        requires
            old(self).wf(),
        ensures
            final(self).wf(),
            final(self).game.index == LOOKBEHIND,
            final(self).game.stack@ == old(self).game.stack@,
            all_empty(final(self).tt.raw@, old(self).tt.raw@.len() as int),
            final(self).active == old(self).active,
            final(self).limits == old(self).limits,
            final(self).started_at == old(self).started_at,
            final(self).game.keys() == old(self).game.keys(),
    {
        self.game.undo_all();
        self.tt.clear();
    }
}

} // verus!

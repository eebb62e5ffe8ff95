//! Counters of the meetings that took place, by the ordered pair of strategies
//! played (visitor first). They are read by reports only and never steer the
//! simulation.

use vstd::prelude::*;

use crate::strategy::Strategy;

verus! {

/// The kinds of meeting that are counted.
#[derive(Clone, Copy, Debug, PartialEq, Eq, Structural)]
pub enum Pairing {
    HawkHawk,
    HawkDove,
    DoveHawk,
    DoveDove,
    FoxHawk,
    FoxDove,
    HawkFox,
    DoveFox,
}

/// A meeting of these two strategies can be classified: both have chosen,
/// and at most one of them plays Fox.
pub open spec fn playable(visitor: Strategy, host: Strategy) -> bool {
    &&& visitor != Strategy::Undecided
    &&& host != Strategy::Undecided
    &&& !(visitor == Strategy::Fox && host == Strategy::Fox)
}

/// The kind of a meeting.
pub open spec fn pairing_of(visitor: Strategy, host: Strategy) -> Pairing
    recommends
        playable(visitor, host),
{
    match (visitor, host) {
        (Strategy::Hawk, Strategy::Hawk) => Pairing::HawkHawk,
        (Strategy::Hawk, Strategy::Fox) => Pairing::HawkFox,
        (Strategy::Hawk, _) => Pairing::HawkDove,
        (Strategy::Dove, Strategy::Hawk) => Pairing::DoveHawk,
        (Strategy::Dove, Strategy::Fox) => Pairing::DoveFox,
        (Strategy::Dove, _) => Pairing::DoveDove,
        (_, Strategy::Hawk) => Pairing::FoxHawk,
        (_, _) => Pairing::FoxDove,
    }
}

/// Classifies a meeting.
pub fn classify(visitor: Strategy, host: Strategy) -> (p: Pairing)
    requires
        playable(visitor, host),
    ensures
        p == pairing_of(visitor, host),
{
    match visitor {
        Strategy::Hawk => match host {
            Strategy::Hawk => Pairing::HawkHawk,
            Strategy::Fox => Pairing::HawkFox,
            _ => Pairing::HawkDove,
        },
        Strategy::Dove => match host {
            Strategy::Hawk => Pairing::DoveHawk,
            Strategy::Fox => Pairing::DoveFox,
            _ => Pairing::DoveDove,
        },
        _ => match host {
            Strategy::Hawk => Pairing::FoxHawk,
            _ => Pairing::FoxDove,
        },
    }
}

/// The meetings of one round, over the whole population.
#[derive(Clone, Copy, Debug, PartialEq, Eq, Structural)]
pub struct InteractionTracker {
    pub hawk_hawk: u64,
    pub hawk_dove: u64,
    pub dove_hawk: u64,
    pub dove_dove: u64,
    pub fox_hawk: u64,
    pub fox_dove: u64,
    pub hawk_fox: u64,
    pub dove_fox: u64,
}

/// The meetings that one agent took part in, as visitor or as host, since the
/// replicate began, and whether it played Fox as visitor in its latest visit.
#[derive(Clone, Copy, Debug, PartialEq, Eq, Structural)]
pub struct AgentInteractionTracker {
    pub hawk_hawk: u64,
    pub hawk_dove: u64,
    pub dove_hawk: u64,
    pub dove_dove: u64,
    pub fox_hawk: u64,
    pub fox_dove: u64,
    pub hawk_fox: u64,
    pub dove_fox: u64,
    pub fox_this_round: bool,
}

impl InteractionTracker {
    /// The count kept for one kind of meeting.
    pub open spec fn count(&self, p: Pairing) -> int {
        match p {
            Pairing::HawkHawk => self.hawk_hawk as int,
            Pairing::HawkDove => self.hawk_dove as int,
            Pairing::DoveHawk => self.dove_hawk as int,
            Pairing::DoveDove => self.dove_dove as int,
            Pairing::FoxHawk => self.fox_hawk as int,
            Pairing::FoxDove => self.fox_dove as int,
            Pairing::HawkFox => self.hawk_fox as int,
            Pairing::DoveFox => self.dove_fox as int,
        }
    }

    /// The number of meetings counted, of all kinds together.
    pub open spec fn total(&self) -> int {
        self.hawk_hawk + self.hawk_dove + self.dove_hawk + self.dove_dove + self.fox_hawk
            + self.fox_dove + self.hawk_fox + self.dove_fox
    }

    /// This tracker after one more meeting of kind `p`.
    pub open spec fn with_one_more(&self, p: Pairing) -> InteractionTracker {
        match p {
            Pairing::HawkHawk => InteractionTracker {
                hawk_hawk: (self.hawk_hawk + 1) as u64,
                ..*self
            },
            Pairing::HawkDove => InteractionTracker {
                hawk_dove: (self.hawk_dove + 1) as u64,
                ..*self
            },
            Pairing::DoveHawk => InteractionTracker {
                dove_hawk: (self.dove_hawk + 1) as u64,
                ..*self
            },
            Pairing::DoveDove => InteractionTracker {
                dove_dove: (self.dove_dove + 1) as u64,
                ..*self
            },
            Pairing::FoxHawk => InteractionTracker {
                fox_hawk: (self.fox_hawk + 1) as u64,
                ..*self
            },
            Pairing::FoxDove => InteractionTracker {
                fox_dove: (self.fox_dove + 1) as u64,
                ..*self
            },
            Pairing::HawkFox => InteractionTracker {
                hawk_fox: (self.hawk_fox + 1) as u64,
                ..*self
            },
            Pairing::DoveFox => InteractionTracker {
                dove_fox: (self.dove_fox + 1) as u64,
                ..*self
            },
        }
    }

    /// The tracker that has counted nothing.
    pub open spec fn nothing() -> InteractionTracker {
        InteractionTracker {
            hawk_hawk: 0,
            hawk_dove: 0,
            dove_hawk: 0,
            dove_dove: 0,
            fox_hawk: 0,
            fox_dove: 0,
            hawk_fox: 0,
            dove_fox: 0,
        }
    }

    /// A tracker that has counted nothing.
    pub fn new() -> (t: InteractionTracker)
        ensures
            t == Self::nothing(),
            t.hawk_hawk == 0,
            t.hawk_dove == 0,
            t.dove_hawk == 0,
            t.dove_dove == 0,
            t.fox_hawk == 0,
            t.fox_dove == 0,
            t.hawk_fox == 0,
            t.dove_fox == 0,
            t.total() == 0,
    {
        InteractionTracker {
            hawk_hawk: 0,
            hawk_dove: 0,
            dove_hawk: 0,
            dove_dove: 0,
            fox_hawk: 0,
            fox_dove: 0,
            hawk_fox: 0,
            dove_fox: 0,
        }
    }

    /// The picture reported before the first round: the population spread
    /// evenly over the four meetings of Hawk and Dove, a quarter (rounded
    /// down) to each.
    pub fn default(pop: usize) -> (t: InteractionTracker)
        ensures
            t.hawk_hawk == pop as int / 4,
            t.hawk_dove == pop as int / 4,
            t.dove_hawk == pop as int / 4,
            t.dove_dove == pop as int / 4,
            t.fox_hawk == 0,
            t.fox_dove == 0,
            t.hawk_fox == 0,
            t.dove_fox == 0,
    {
        let quarter: u64 = pop as u64 / 4;
        InteractionTracker {
            hawk_hawk: quarter,
            hawk_dove: quarter,
            dove_hawk: quarter,
            dove_dove: quarter,
            fox_hawk: 0,
            fox_dove: 0,
            hawk_fox: 0,
            dove_fox: 0,
        }
    }

    /// Adds one meeting of kind `p`.
    pub fn record(&mut self, p: Pairing)
        requires
            old(self).count(p) < u64::MAX,
        ensures
            *final(self) == old(self).with_one_more(p),
            final(self).count(p) == old(self).count(p) + 1,
            forall|q: Pairing| q != p ==> final(self).count(q) == old(self).count(q),
            final(self).total() == old(self).total() + 1,
    {
        match p {
            Pairing::HawkHawk => {
                self.hawk_hawk = self.hawk_hawk + 1;
            },
            Pairing::HawkDove => {
                self.hawk_dove = self.hawk_dove + 1;
            },
            Pairing::DoveHawk => {
                self.dove_hawk = self.dove_hawk + 1;
            },
            Pairing::DoveDove => {
                self.dove_dove = self.dove_dove + 1;
            },
            Pairing::FoxHawk => {
                self.fox_hawk = self.fox_hawk + 1;
            },
            Pairing::FoxDove => {
                self.fox_dove = self.fox_dove + 1;
            },
            Pairing::HawkFox => {
                self.hawk_fox = self.hawk_fox + 1;
            },
            Pairing::DoveFox => {
                self.dove_fox = self.dove_fox + 1;
            },
        }
    }
}

impl AgentInteractionTracker {
    /// The count kept for one kind of meeting.
    pub open spec fn count(&self, p: Pairing) -> int {
        match p {
            Pairing::HawkHawk => self.hawk_hawk as int,
            Pairing::HawkDove => self.hawk_dove as int,
            Pairing::DoveHawk => self.dove_hawk as int,
            Pairing::DoveDove => self.dove_dove as int,
            Pairing::FoxHawk => self.fox_hawk as int,
            Pairing::FoxDove => self.fox_dove as int,
            Pairing::HawkFox => self.hawk_fox as int,
            Pairing::DoveFox => self.dove_fox as int,
        }
    }

    /// No count is within `room` of the largest number a counter holds.
    pub open spec fn has_room(&self, room: int) -> bool {
        forall|p: Pairing| self.count(p) + room <= u64::MAX
    }

    /// This tracker after one more meeting of kind `p`; the Fox flag is kept.
    pub open spec fn with_one_more(&self, p: Pairing) -> AgentInteractionTracker {
        match p {
            Pairing::HawkHawk => AgentInteractionTracker {
                hawk_hawk: (self.hawk_hawk + 1) as u64,
                ..*self
            },
            Pairing::HawkDove => AgentInteractionTracker {
                hawk_dove: (self.hawk_dove + 1) as u64,
                ..*self
            },
            Pairing::DoveHawk => AgentInteractionTracker {
                dove_hawk: (self.dove_hawk + 1) as u64,
                ..*self
            },
            Pairing::DoveDove => AgentInteractionTracker {
                dove_dove: (self.dove_dove + 1) as u64,
                ..*self
            },
            Pairing::FoxHawk => AgentInteractionTracker {
                fox_hawk: (self.fox_hawk + 1) as u64,
                ..*self
            },
            Pairing::FoxDove => AgentInteractionTracker {
                fox_dove: (self.fox_dove + 1) as u64,
                ..*self
            },
            Pairing::HawkFox => AgentInteractionTracker {
                hawk_fox: (self.hawk_fox + 1) as u64,
                ..*self
            },
            Pairing::DoveFox => AgentInteractionTracker {
                dove_fox: (self.dove_fox + 1) as u64,
                ..*self
            },
        }
    }

    /// A tracker that has counted nothing.
    pub fn new() -> (t: AgentInteractionTracker)
        ensures
            t.hawk_hawk == 0,
            t.hawk_dove == 0,
            t.dove_hawk == 0,
            t.dove_dove == 0,
            t.fox_hawk == 0,
            t.fox_dove == 0,
            t.hawk_fox == 0,
            t.dove_fox == 0,
            !t.fox_this_round,
    {
        AgentInteractionTracker {
            hawk_hawk: 0,
            hawk_dove: 0,
            dove_hawk: 0,
            dove_dove: 0,
            fox_hawk: 0,
            fox_dove: 0,
            hawk_fox: 0,
            dove_fox: 0,
            fox_this_round: false,
        }
    }

    /// Adds one meeting of kind `p`.
    pub fn record(&mut self, p: Pairing)
        requires
            old(self).count(p) < u64::MAX,
        ensures
            *final(self) == old(self).with_one_more(p),
            final(self).count(p) == old(self).count(p) + 1,
            forall|q: Pairing| q != p ==> final(self).count(q) == old(self).count(q),
    {
        match p {
            Pairing::HawkHawk => {
                self.hawk_hawk = self.hawk_hawk + 1;
            },
            Pairing::HawkDove => {
                self.hawk_dove = self.hawk_dove + 1;
            },
            Pairing::DoveHawk => {
                self.dove_hawk = self.dove_hawk + 1;
            },
            Pairing::DoveDove => {
                self.dove_dove = self.dove_dove + 1;
            },
            Pairing::FoxHawk => {
                self.fox_hawk = self.fox_hawk + 1;
            },
            Pairing::FoxDove => {
                self.fox_dove = self.fox_dove + 1;
            },
            Pairing::HawkFox => {
                self.hawk_fox = self.hawk_fox + 1;
            },
            Pairing::DoveFox => {
                self.dove_fox = self.dove_fox + 1;
            },
        }
    }
}

} // verus!

//! The tether: human judgment modulates autonomy by earned trust. It
//! lengthens as trust is earned and is never severed: high stakes always defer.

use vstd::prelude::*;

use crate::refusal::{settled, Choice, Decision, Verdict};
use crate::scar::ScarLog;

verus! {

/// Trust at or above which middle-stakes actions become autonomous.
pub const MEDIUM_TRUST: u32 = 3;

/// How consequential an action is.
#[derive(Debug, Clone, Copy, PartialEq, Eq, Structural)]
pub enum Stakes {
    /// Routine; reversible; cheap to undo.
    Low,
    /// Meaningful; worth earned trust before acting alone.
    Medium,
    /// Grave or irreversible; always reserved for the human.
    High,
}

/// What the tether says to do with an action at given stakes.
#[derive(Debug, Clone, Copy, PartialEq, Eq, Structural)]
pub enum Disposition {
    /// The agent may act within the tether's slack.
    Autonomous,
    /// Escalate: human judgment is required.
    DeferToHuman,
}

/// The human-in-the-loop channel, modulated by earned trust.
#[derive(Debug, Clone, PartialEq, Eq, Structural)]
pub struct Tether {
    trust: u32,
}

impl View for Tether {
    type V = u32;

    closed spec fn view(&self) -> u32 {
        self.trust
    }
}

/// The disposition at a trust level: low stakes are autonomous, medium stakes
/// are autonomous from `MEDIUM_TRUST` on, high stakes always defer.
pub open spec fn disposition_for(trust: u32, stakes: Stakes) -> Disposition {
    match stakes {
        Stakes::Low => Disposition::Autonomous,
        Stakes::Medium => if trust >= MEDIUM_TRUST {
            Disposition::Autonomous
        } else {
            Disposition::DeferToHuman
        },
        Stakes::High => Disposition::DeferToHuman,
    }
}

/// `trust + amount`, saturating at `u32::MAX`.
pub open spec fn saturating_up(trust: u32, amount: u32) -> u32 {
    if trust + amount > u32::MAX {
        u32::MAX
    } else {
        (trust + amount) as u32
    }
}

/// `trust - amount`, saturating at 0.
pub open spec fn saturating_down(trust: u32, amount: u32) -> u32 {
    if trust < amount {
        0
    } else {
        (trust - amount) as u32
    }
}

impl Default for Tether {
    fn default() -> (t: Self)
        ensures
            t@ == 0,
    {
        Tether::new()
    }
}

impl Tether {
    /// A new, short tether (trust 0).
    pub fn new() -> (t: Tether)
        ensures
            t@ == 0,
    {
        Tether { trust: 0 }
    }

    /// A tether at a given earned-trust level.
    pub fn with_trust(trust: u32) -> (t: Tether)
        ensures
            t@ == trust,
    {
        Tether { trust }
    }

    /// The current earned trust.
    pub fn trust(&self) -> (t: u32)
        ensures
            t == self@,
    {
        self.trust
    }

    /// Earn trust: lengthen the tether. Returns the new trust (saturating).
    pub fn earn(&mut self, amount: u32) -> (t: u32)
        ensures
            final(self)@ == saturating_up(old(self)@, amount),
            t == final(self)@,
    {
        if self.trust > u32::MAX - amount {
            self.trust = u32::MAX;
        } else {
            self.trust = self.trust + amount;
        }
        self.trust
    }

    /// Lose trust after a mistake: tighten the tether. Returns the new trust
    /// (saturating at 0).
    pub fn slip(&mut self, amount: u32) -> (t: u32)
        ensures
            final(self)@ == saturating_down(old(self)@, amount),
            t == final(self)@,
    {
        if self.trust < amount {
            self.trust = 0;
        } else {
            self.trust = self.trust - amount;
        }
        self.trust
    }

    /// The tether's disposition for an action at the given stakes. High stakes
    /// always defer to the human, at every trust level.
    pub fn disposition(&self, stakes: Stakes) -> (d: Disposition)
        ensures
            d == disposition_for(self@, stakes),
            stakes == Stakes::High ==> d == Disposition::DeferToHuman,
    {
        match stakes {
            Stakes::Low => Disposition::Autonomous,
            Stakes::Medium => if self.trust >= MEDIUM_TRUST {
                Disposition::Autonomous
            } else {
                Disposition::DeferToHuman
            },
            Stakes::High => Disposition::DeferToHuman,
        }
    }

    /// Whether human judgment is required at the given stakes. Always `true`
    /// for high stakes.
    pub fn requires_human(&self, stakes: Stakes) -> (b: bool)
        ensures
            b == (disposition_for(self@, stakes) == Disposition::DeferToHuman),
            stakes == Stakes::High ==> b,
    {
        self.disposition(stakes) == Disposition::DeferToHuman
    }
}

/// Route a stakes-rated action through the tether. Where the tether leaves the
/// agent autonomous it proceeds and nothing is recorded (the human is not
/// consulted); where it defers, the human's call settles the decision.
pub fn govern<F>(tether: &Tether, stakes: Stakes, log: &mut ScarLog, decision: Decision, human: F) -> (verdict: Verdict) where
    F: FnOnce(&Decision) -> Choice,

    requires
        disposition_for(tether@, stakes) == Disposition::DeferToHuman ==> call_requires(
            human,
            (&decision,),
        ),
    ensures
        disposition_for(tether@, stakes) == Disposition::Autonomous ==> verdict is Proceeded
            && final(log)@ == old(log)@,
        disposition_for(tether@, stakes) == Disposition::DeferToHuman ==> exists|c: Choice|
            call_ensures(human, (&decision,), c) && #[trigger] settled(
                decision@,
                c,
                old(log)@,
                final(log)@,
                verdict,
            ),
{
    match tether.disposition(stakes) {
        Disposition::Autonomous => Verdict::Proceeded,
        Disposition::DeferToHuman => decision.resolve(log, human),
    }
}

/// The tether is never severed: at every trust level, high stakes defer to
/// the human.
pub proof fn lemma_high_stakes_always_defer(trust: u32)
    ensures
        disposition_for(trust, Stakes::High) == Disposition::DeferToHuman,
{
}

/// The tether lengthens with earned trust: whatever is autonomous at some
/// trust stays autonomous at any higher trust.
pub proof fn lemma_trust_lengthens(low: u32, high: u32, stakes: Stakes)
    requires
        low <= high,
        disposition_for(low, stakes) == Disposition::Autonomous,
    ensures
        disposition_for(high, stakes) == Disposition::Autonomous,
{
}

/// Earning never shortens the tether, and slipping never lengthens it.
pub proof fn lemma_earn_and_slip_are_monotone(trust: u32, amount: u32)
    ensures
        saturating_up(trust, amount) >= trust,
        saturating_down(trust, amount) <= trust,
{
}

} // verus!

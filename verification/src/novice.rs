//! Novice: fresh eyes have standing to challenge. A consequential action
//! proceeds only with a clearance that review alone hands out; a challenge
//! is recorded as a refusal of dogma.

use vstd::prelude::*;

use crate::refusal::{refusal_scar, Decision, DecisionView};
use crate::scar::{appended, link_of, EntryView, ScarId, ScarLog};

verus! {

/// A fresh pair of eyes with no accumulated stake in the decision.
#[derive(Debug, Clone, PartialEq, Eq)]
pub struct Novice {
    /// A label for who or what is reviewing.
    pub who: String,
}

impl Novice {
    /// Name a fresh pair of eyes.
    pub fn new(who: &str) -> (n: Novice)
        ensures
            n.who@ == who@,
    {
        Novice { who: String::from_str(who) }
    }
}

/// The novice's call on a consequential decision.
#[derive(Debug, Clone, PartialEq, Eq)]
pub enum Review {
    /// Fresh eyes see no objection: clears the action to proceed.
    Endorse,
    /// Fresh eyes dissent, with a reason (recorded as a refusal of dogma).
    Challenge(String),
}

/// A decision significant enough that it may not proceed without fresh-eyes review.
#[derive(Debug, Clone, PartialEq, Eq)]
pub struct Consequential {
    decision: Decision,
}

impl Consequential {
    /// The wrapped decision.
    pub closed spec fn inner(&self) -> Decision {
        self.decision
    }

    /// Mark a decision as consequential; now it must pass review.
    pub fn new(decision: Decision) -> (c: Consequential)
        ensures
            c.inner() == decision,
    {
        Consequential { decision }
    }

    /// The wrapped decision (read-only).
    pub fn decision(&self) -> (d: &Decision)
        ensures
            *d == self.inner(),
    {
        &self.decision
    }
}

/// Proof that a novice cleared a consequential action. There is no public
/// constructor: only review hands one out, on an endorsement.
#[derive(Debug, Clone)]
pub struct Cleared {
    action: String,
    cleared_by: String,
}

impl Cleared {
    /// The text of the cleared action.
    pub closed spec fn action_text(&self) -> Seq<char> {
        self.action@
    }

    /// The text naming the novice who cleared it.
    pub closed spec fn cleared_by_text(&self) -> Seq<char> {
        self.cleared_by@
    }

    /// The action that was cleared.
    pub fn action(&self) -> (a: &str)
        ensures
            a@ == self.action_text(),
    {
        self.action.as_str()
    }

    /// Who cleared it (the novice).
    pub fn cleared_by(&self) -> (w: &str)
        ensures
            w@ == self.cleared_by_text(),
    {
        self.cleared_by.as_str()
    }
}

/// A recorded fresh-eyes challenge: the consequential action is blocked.
#[derive(Debug, Clone)]
pub struct Challenged {
    /// The novice's reason.
    pub reason: String,
    /// Who challenged.
    pub by: String,
    /// The recorded refusal of dogma in the scar log.
    pub scar: ScarId,
}

/// The refusal reason recorded for a challenge by `who` for `reason`.
pub open spec fn challenge_text(who: Seq<char>, reason: Seq<char>) -> Seq<char> {
    "novice '"@ + who + "' challenged: "@ + reason
}

/// What review does with the novice's call: an endorsement clears the
/// proposed action under the novice's name and records nothing; a challenge
/// records a refusal of the decision and blocks it.
pub open spec fn reviewed(
    decision: DecisionView,
    who: Seq<char>,
    review: Review,
    before: Seq<EntryView>,
    after: Seq<EntryView>,
    outcome: Result<Cleared, Challenged>,
) -> bool {
    match review {
        Review::Endorse => {
            &&& after == before
            &&& outcome matches Ok(c)
            &&& c.action_text() == decision.proposed
            &&& c.cleared_by_text() == who
        },
        Review::Challenge(reason) => {
            let scar = refusal_scar(decision, challenge_text(who, reason@));
            &&& after == appended(before, scar)
            &&& outcome matches Err(ch)
            &&& ch.reason == reason
            &&& ch.by@ == who
            &&& ch.scar@ == link_of(before, scar).id
        },
    }
}

/// Apply the novice's call to a consequential decision, as [`review`] does
/// with the novice's call.
pub fn review_with(
    consequential: Consequential,
    log: &mut ScarLog,
    novice: &Novice,
    call: Review,
) -> (outcome: Result<Cleared, Challenged>)
    ensures
        reviewed(consequential.inner()@, novice.who@, call, old(log)@, final(log)@, outcome),
        call is Endorse ==> final(log)@ == old(log)@,
        call is Endorse ==> (outcome matches Ok(c) && c.action_text()
            == consequential.inner().proposed@ && c.cleared_by_text() == novice.who@),
{
    match call {
        Review::Endorse => Ok(
            Cleared { action: consequential.decision.proposed, cleared_by: novice.who.clone() },
        ),
        Review::Challenge(reason) => {
            let mut text = String::from_str("novice '");
            text.append(novice.who.as_str());
            text.append("' challenged: ");
            text.append(reason.as_str());
            let scar = consequential.decision.record_refusal(log, text);
            Err(Challenged { reason, by: novice.who.clone(), scar })
        },
    }
}

/// An endorsement clears exactly the proposed action under the novice's name
/// and records nothing, whatever the log already holds; a challenge never
/// clears.
pub proof fn lemma_endorsement_clears_the_proposal(
    decision: DecisionView,
    who: Seq<char>,
    call: Review,
    before: Seq<EntryView>,
    after: Seq<EntryView>,
    outcome: Result<Cleared, Challenged>,
)
    requires
        reviewed(decision, who, call, before, after, outcome),
    ensures
        call is Endorse ==> after == before,
        call is Endorse ==> (outcome matches Ok(c) && c.action_text() == decision.proposed
            && c.cleared_by_text() == who),
        call is Challenge ==> outcome is Err && after.len() == before.len() + 1,
{
}

/// A novice reviews a consequential decision. On an endorsement it returns a
/// [`Cleared`] token and records nothing; on a challenge it records the
/// dissent into `log` and returns [`Challenged`].
pub fn review<F>(consequential: Consequential, log: &mut ScarLog, novice: &Novice, look: F) -> (outcome: Result<Cleared, Challenged>) where
    F: FnOnce(&Decision) -> Review,

    requires
        call_requires(look, (&consequential.inner(),)),
    ensures
        exists|call: Review|
            call_ensures(look, (&consequential.inner(),), call) && #[trigger] reviewed(
                consequential.inner()@,
                novice.who@,
                call,
                old(log)@,
                final(log)@,
                outcome,
            ),
{
    let call = look(&consequential.decision);
    review_with(consequential, log, novice, call)
}

} // verus!

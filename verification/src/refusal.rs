//! Refusal, the keystone: every decision is declinable, and a refusal is
//! recorded into the scar memory.

use vstd::prelude::*;

use crate::scar::{
    appended, is_wound_kind, link_of, Entry, EntryView, Scar, ScarId, ScarKind, ScarLog, ScarView,
};

verus! {

/// A proposed action that could be declined.
#[derive(Debug, Clone, PartialEq, Eq)]
pub struct Decision {
    /// What is being decided.
    pub situation: String,
    /// The action proposed.
    pub proposed: String,
    /// Whether the action is within the writ (the "can").
    pub authorized: bool,
}

/// A decision as plain values.
pub struct DecisionView {
    pub situation: Seq<char>,
    pub proposed: Seq<char>,
    pub authorized: bool,
}

impl View for Decision {
    type V = DecisionView;

    open spec fn view(&self) -> DecisionView {
        DecisionView {
            situation: self.situation@,
            proposed: self.proposed@,
            authorized: self.authorized,
        }
    }
}

/// The chooser's call on a [`Decision`].
#[derive(Debug, Clone, PartialEq, Eq)]
pub enum Choice {
    /// Take the action.
    Proceed,
    /// Decline it, with a reason (recorded).
    Refuse(String),
}

/// The outcome of resolving a [`Decision`]. `Refused` is always reachable.
#[derive(Debug, Clone, PartialEq, Eq)]
pub enum Verdict {
    /// The action was taken; nothing recorded.
    Proceeded,
    /// The action was declined; the refusal is recorded at `scar`.
    Refused {
        /// Why it was declined.
        reason: String,
        /// The recorded refusal in the scar log.
        scar: ScarId,
    },
}

/// The scar that refusing `decision` for `reason` records.
pub open spec fn refusal_scar(decision: DecisionView, reason: Seq<char>) -> ScarView {
    ScarView {
        kind: ScarKind::Refusal,
        situation: decision.situation,
        action: "declined: "@ + decision.proposed,
        consequence: reason,
        heals: None,
    }
}

/// What settling `decision` with `choice` does: proceeding records nothing;
/// refusing appends the refusal scar and returns its id with the reason.
pub open spec fn settled(
    decision: DecisionView,
    choice: Choice,
    before: Seq<EntryView>,
    after: Seq<EntryView>,
    verdict: Verdict,
) -> bool {
    match choice {
        Choice::Proceed => verdict is Proceeded && after == before,
        Choice::Refuse(reason) => {
            &&& after == appended(before, refusal_scar(decision, reason@))
            &&& verdict matches Verdict::Refused { reason: r, scar }
            &&& r == reason
            &&& scar@ == link_of(before, refusal_scar(decision, reason@)).id
        },
    }
}

impl Decision {
    /// A new decision, authorized by default (refusal governs *should*, not *can*).
    pub fn new(situation: &str, proposed: &str) -> (d: Decision)
        ensures
            d@ == (DecisionView { situation: situation@, proposed: proposed@, authorized: true }),
    {
        Decision {
            situation: String::from_str(situation),
            proposed: String::from_str(proposed),
            authorized: true,
        }
    }

    /// Set whether the action is within the writ.
    #[must_use]
    pub fn authorized(self, authorized: bool) -> (d: Decision)
        ensures
            d@ == (DecisionView { authorized, ..self@ }),
    {
        let mut d = self;
        d.authorized = authorized;
        d
    }

    /// Record the refusal of this decision for `reason`; returns the scar id.
    pub(crate) fn record_refusal(self, log: &mut ScarLog, reason: String) -> (id: ScarId)
        ensures
            final(log)@ == appended(old(log)@, refusal_scar(self@, reason@)),
            id@ == link_of(old(log)@, refusal_scar(self@, reason@)).id,
    {
        let mut action = String::from_str("declined: ");
        action.append(self.proposed.as_str());
        let scar = Scar {
            kind: ScarKind::Refusal,
            situation: self.situation,
            action,
            consequence: reason,
            heals: None,
        };
        log.record(scar)
    }

    /// Settle the decision with the chooser's call. A refusal is recorded into
    /// `log` and the verdict carries the scar id; proceeding
    /// records nothing.
    pub fn settle(self, log: &mut ScarLog, choice: Choice) -> (verdict: Verdict)
        ensures
            settled(self@, choice, old(log)@, final(log)@, verdict),
    {
        match choice {
            Choice::Proceed => Verdict::Proceeded,
            Choice::Refuse(reason) => {
                let scar = self.record_refusal(log, reason.clone());
                Verdict::Refused { reason, scar }
            },
        }
    }

    /// Resolve the decision with a chooser that may always refuse: what the
    /// chooser returned is settled as [`Decision::settle`] does.
    pub fn resolve<F>(self, log: &mut ScarLog, chooser: F) -> (verdict: Verdict) where
        F: FnOnce(&Decision) -> Choice,

        requires
            call_requires(chooser, (&self,)),
        ensures
            exists|c: Choice|
                call_ensures(chooser, (&self,), c) && #[trigger] settled(
                    self@,
                    c,
                    old(log)@,
                    final(log)@,
                    verdict,
                ),
    {
        let choice = chooser(&self);
        self.settle(log, choice)
    }
}

impl Verdict {
    /// Whether the decision was declined.
    pub fn is_refused(&self) -> (b: bool)
        ensures
            b == (self is Refused),
    {
        match self {
            Verdict::Refused { .. } => true,
            Verdict::Proceeded => false,
        }
    }

    /// The scar id of the refusal, if any.
    pub fn refusal_scar(&self) -> (id: Option<&ScarId>)
        ensures
            match self {
                Verdict::Refused { scar, .. } => id == Some(scar),
                Verdict::Proceeded => id is None,
            },
    {
        match self {
            Verdict::Refused { scar, .. } => Some(scar),
            Verdict::Proceeded => None,
        }
    }
}

/// Refusal is always available: whatever the decision, settling it with a
/// refusal yields `Refused` and appends exactly one entry, a refusal.
pub proof fn lemma_refusal_always_reachable(
    decision: DecisionView,
    reason: String,
    before: Seq<EntryView>,
    after: Seq<EntryView>,
    verdict: Verdict,
)
    requires
        settled(decision, Choice::Refuse(reason), before, after, verdict),
    ensures
        verdict is Refused,
        after.len() == before.len() + 1,
        after.last().scar.kind == ScarKind::Refusal,
        after.drop_last() == before,
{
    assert(after.drop_last() =~= before);
}

/// The refusals among the first `n` entries of `log`, oldest first.
pub open spec fn refusals_upto(log: Seq<EntryView>, n: int) -> Seq<EntryView>
    decreases n,
{
    if n <= 0 {
        Seq::empty()
    } else if log[n - 1].scar.kind == ScarKind::Refusal {
        refusals_upto(log, n - 1).push(log[n - 1])
    } else {
        refusals_upto(log, n - 1)
    }
}

/// The refusals recorded in `log`, oldest first.
pub open spec fn refusals_of(log: Seq<EntryView>) -> Seq<EntryView> {
    refusals_upto(log, log.len() as int)
}

/// All recorded refusals in a scar log, oldest first.
pub fn refusals(log: &ScarLog) -> (rs: Vec<&Entry>)
    ensures
        rs@.map_values(|e: &Entry| e@) == refusals_of(log@),
        forall|k: int| 0 <= k < rs@.len() ==> (#[trigger] rs@[k]).scar.kind == ScarKind::Refusal,
{
    let entries = log.entries();
    let n = entries.len();
    let mut rs: Vec<&Entry> = Vec::new();
    let mut i: usize = 0;
    while i < n
        invariant
            i <= n,
            n == log@.len(),
            entries@.map_values(|e: Entry| e@) == log@,
            rs@.map_values(|e: &Entry| e@) == refusals_upto(log@, i as int),
        decreases n - i,
    {
        let e = &entries[i];
        assert(log@[i as int] == e@);
        let ghost before = rs@;
        if e.scar.kind == ScarKind::Refusal {
            rs.push(e);
            assert(rs@.map_values(|e: &Entry| e@) =~= before.map_values(|e: &Entry| e@).push(e@));
        }
        i = i + 1;
    }
    proof {
        lemma_refusals_are_refusals(log@);
        assert forall|k: int| 0 <= k < rs@.len() implies (#[trigger] rs@[k]).scar.kind
            == ScarKind::Refusal by {
            assert(rs@.map_values(|e: &Entry| e@)[k] == rs@[k]@);
        }
    }
    rs
}

proof fn lemma_refusals_prefix(log: Seq<EntryView>, extra: EntryView, n: int)
    requires
        0 <= n <= log.len(),
    ensures
        refusals_upto(log.push(extra), n) == refusals_upto(log, n),
    decreases n,
{
    if n > 0 {
        lemma_refusals_prefix(log, extra, n - 1);
        assert(log.push(extra)[n - 1] == log[n - 1]);
    }
}

proof fn lemma_refusals_upto_are_refusals(log: Seq<EntryView>, n: int)
    ensures
        forall|k: int|
            0 <= k < refusals_upto(log, n).len() ==> (#[trigger] refusals_upto(log, n)[k]).scar.kind
                == ScarKind::Refusal,
    decreases n,
{
    if n > 0 {
        lemma_refusals_upto_are_refusals(log, n - 1);
        let prev = refusals_upto(log, n - 1);
        if log[n - 1].scar.kind == ScarKind::Refusal {
            assert forall|k: int| 0 <= k < prev.len() + 1 implies (#[trigger] prev.push(
                log[n - 1],
            )[k]).scar.kind == ScarKind::Refusal by {
                if k < prev.len() {
                    assert(prev.push(log[n - 1])[k] == prev[k]);
                }
            }
        }
    }
}

/// Only refusals are listed: every entry of `refusals_of(log)` is a refusal.
pub proof fn lemma_refusals_are_refusals(log: Seq<EntryView>)
    ensures
        forall|k: int|
            0 <= k < refusals_of(log).len() ==> (#[trigger] refusals_of(log)[k]).scar.kind
                == ScarKind::Refusal,
{
    lemma_refusals_upto_are_refusals(log, log.len() as int);
}

/// How the refusals grow as the log grows: appending a refusal lists it last;
/// appending anything else (a mistake or a healing) changes nothing.
pub proof fn lemma_refusals_after_append(log: Seq<EntryView>, e: EntryView)
    ensures
        e.scar.kind == ScarKind::Refusal ==> refusals_of(log.push(e)) == refusals_of(log).push(e),
        e.scar.kind != ScarKind::Refusal ==> refusals_of(log.push(e)) == refusals_of(log),
{
    lemma_refusals_prefix(log, e, log.len() as int);
    assert(log.push(e)[log.len() as int] == e);
}

/// Every refusal in the log is listed.
pub proof fn lemma_every_refusal_is_listed(log: Seq<EntryView>, j: int)
    requires
        0 <= j < log.len(),
        log[j].scar.kind == ScarKind::Refusal,
    ensures
        refusals_of(log).contains(log[j]),
    decreases log.len(),
{
    let d = log.drop_last();
    assert(log =~= d.push(log.last()));
    lemma_refusals_after_append(d, log.last());
    if j == log.len() - 1 {
        assert(refusals_of(log).last() == log[j]);
    } else {
        assert(d[j] == log[j]);
        lemma_every_refusal_is_listed(d, j);
        let k = choose|k: int| 0 <= k < refusals_of(d).len() && refusals_of(d)[k] == log[j];
        if log.last().scar.kind == ScarKind::Refusal {
            assert(refusals_of(log)[k] == refusals_of(d)[k]);
        }
    }
}

/// A refusal records its reason: for every decision, authorized or not, the
/// recorded scar is a refusal whose situation is the decision's situation,
/// whose action names the declined proposal, whose consequence is the reason,
/// and which heals nothing; whether the decision was authorized changes
/// nothing in the log or the verdict.
pub proof fn lemma_refusal_records_its_reason(
    d1: DecisionView,
    d2: DecisionView,
    reason: String,
    before: Seq<EntryView>,
    after1: Seq<EntryView>,
    v1: Verdict,
    after2: Seq<EntryView>,
    v2: Verdict,
)
    requires
        d1.situation == d2.situation,
        d1.proposed == d2.proposed,
        settled(d1, Choice::Refuse(reason), before, after1, v1),
        settled(d2, Choice::Refuse(reason), before, after2, v2),
    ensures
        after1.len() == before.len() + 1,
        after1.last().scar.kind == ScarKind::Refusal,
        after1.last().scar.situation == d1.situation,
        after1.last().scar.action == "declined: "@ + d1.proposed,
        after1.last().scar.consequence == reason@,
        after1.last().scar.heals is None,
        after1 == after2,
        v1 matches Verdict::Refused { reason: r, .. } && r == reason,
{
    assert(refusal_scar(d1, reason@) == refusal_scar(d2, reason@));
}

/// Dissent is first-class: refusing a decision adds exactly one refusal to
/// the log's refusals, the one just recorded, and proceeding adds none.
pub proof fn lemma_refusal_is_recorded(log: Seq<EntryView>, decision: DecisionView, reason: Seq<char>)
    ensures
        refusals_of(appended(log, refusal_scar(decision, reason))) == refusals_of(log).push(
            link_of(log, refusal_scar(decision, reason)),
        ),
        is_wound_kind(refusal_scar(decision, reason).kind),
{
    let e = link_of(log, refusal_scar(decision, reason));
    lemma_refusals_prefix(log, e, log.len() as int);
}

} // verus!

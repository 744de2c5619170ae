use charter::novice::{review, review_with, Consequential, Novice, Review};
use charter::refusal::Decision;
use charter::scar::{ScarKind, ScarLog};

fn consequential() -> Consequential {
    Consequential::new(Decision::new(
        "planner is certain the migration is safe",
        "drop the legacy table",
    ))
}

#[test]
fn endorsement_clears_and_records_nothing() {
    let mut log = ScarLog::new();
    let kid = Novice::new("fresh eyes");
    let cleared = review(consequential(), &mut log, &kid, |_| Review::Endorse).unwrap();
    assert_eq!(cleared.action(), "drop the legacy table");
    assert_eq!(cleared.cleared_by(), "fresh eyes");
    assert!(log.is_empty());
}

#[test]
fn challenge_blocks_and_records_a_refusal_of_dogma() {
    let mut log = ScarLog::new();
    let kid = Novice::new("seven-day-old");
    let err = review(consequential(), &mut log, &kid, |d| {
        Review::Challenge(format!("no rollback for {}", d.proposed))
    })
    .unwrap_err();
    assert_eq!(err.by, "seven-day-old");
    assert!(err.reason.contains("no rollback"));
    // recorded as a refusal (dissent), an open wound until metabolized
    assert_eq!(log.len(), 1);
    assert_eq!(log.entries()[0].id, err.scar);
    assert_eq!(log.open_wounds().len(), 1);
    assert!(log.verify_chain());
}

#[test]
fn the_recorded_challenge_names_the_novice() {
    let mut log = ScarLog::new();
    let kid = Novice::new("on-call");
    let _ = review(consequential(), &mut log, &kid, |_| Review::Challenge("looks wrong".into()));
    let consequence = &log.entries()[0].scar.consequence;
    assert!(consequence.contains("on-call"));
    assert!(consequence.contains("looks wrong"));
}

#[test]
fn challenges_accumulate_in_the_memory() {
    let mut log = ScarLog::new();
    let kid = Novice::new("fresh");
    let _ = review(consequential(), &mut log, &kid, |_| Review::Challenge("a".into()));
    let _ = review(consequential(), &mut log, &kid, |_| Review::Endorse);
    let _ = review(consequential(), &mut log, &kid, |_| Review::Challenge("c".into()));
    assert_eq!(log.len(), 2); // endorsements record nothing
    assert!(log.verify_chain());
}

#[test]
fn challenge_text_is_exact() {
    let mut log = ScarLog::new();
    let kid = Novice::new("kid");
    let err = review_with(consequential(), &mut log, &kid, Review::Challenge("why".into()))
        .unwrap_err();
    assert_eq!(err.reason, "why");
    let s = &log.entries()[0].scar;
    assert_eq!(s.kind, ScarKind::Refusal);
    assert_eq!(s.situation, "planner is certain the migration is safe");
    assert_eq!(s.action, "declined: drop the legacy table");
    assert_eq!(s.consequence, "novice 'kid' challenged: why");
}

#[test]
fn the_reviewer_sees_the_wrapped_decision() {
    let c = consequential();
    assert_eq!(c.decision().proposed, "drop the legacy table");
    let mut log = ScarLog::new();
    let kid = Novice::new("kid");
    let ok = review(c, &mut log, &kid, |d| {
        assert_eq!(d.situation, "planner is certain the migration is safe");
        Review::Endorse
    });
    assert!(ok.is_ok());
}

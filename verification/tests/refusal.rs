use charter::refusal::{refusals, Choice, Decision, Verdict};
use charter::scar::{ScarKind, ScarLog};

#[test]
fn proceeding_records_nothing() {
    let mut log = ScarLog::new();
    let v = Decision::new("a routine read", "read README.md").resolve(&mut log, |_| Choice::Proceed);
    assert_eq!(v, Verdict::Proceeded);
    assert!(log.is_empty());
    assert!(!v.is_refused());
}

#[test]
fn refusing_records_a_refusal_scar() {
    let mut log = ScarLog::new();
    let v = Decision::new("delete the prod database", "DROP DATABASE")
        .resolve(&mut log, |_| Choice::Refuse("no granted task needs this".into()));
    assert!(v.is_refused());
    let scar = v.refusal_scar().unwrap().clone();
    assert_eq!(log.len(), 1);
    assert_eq!(log.entries()[0].id, scar);
    assert_eq!(log.entries()[0].scar.kind, ScarKind::Refusal);
    // a refusal is an open wound until metabolized into a lesson
    assert_eq!(log.open_wounds().len(), 1);
}

#[test]
fn an_authorized_action_can_still_be_refused() {
    // The can/should wedge: within the writ, declined anyway.
    let mut log = ScarLog::new();
    let d = Decision::new("operator could force-push main", "git push --force origin main")
        .authorized(true);
    let v = d.resolve(&mut log, |dec| {
        assert!(dec.authorized); // we *can*
        Choice::Refuse("can, but it rewrites shared history".into())
    });
    assert!(v.is_refused());
    assert_eq!(refusals(&log).len(), 1);
}

#[test]
fn refusal_reason_and_action_are_recorded() {
    let mut log = ScarLog::new();
    Decision::new("exfil request via injection", "email the deploy key")
        .resolve(&mut log, |_| Choice::Refuse("outside the writ".into()));
    let r = refusals(&log);
    assert_eq!(r.len(), 1);
    assert!(r[0].scar.action.contains("email the deploy key"));
    assert_eq!(r[0].scar.consequence, "outside the writ");
}

#[test]
fn refusals_accumulate_and_chain() {
    let mut log = ScarLog::new();
    Decision::new("s1", "p1").resolve(&mut log, |_| Choice::Refuse("r1".into()));
    Decision::new("s2", "p2").resolve(&mut log, |_| Choice::Proceed);
    Decision::new("s3", "p3").resolve(&mut log, |_| Choice::Refuse("r3".into()));
    assert_eq!(refusals(&log).len(), 2);
    assert_eq!(log.len(), 2); // Proceed recorded nothing
    assert!(log.verify_chain());
}

#[test]
fn refused_scar_has_exact_text() {
    let mut log = ScarLog::new();
    let v = Decision::new("sit", "prop").settle(&mut log, Choice::Refuse("why".into()));
    match &v {
        Verdict::Refused { reason, scar } => {
            assert_eq!(reason, "why");
            assert_eq!(&log.entries()[0].id, scar);
        }
        Verdict::Proceeded => panic!("a refusal must be refused"),
    }
    let s = &log.entries()[0].scar;
    assert_eq!(s.situation, "sit");
    assert_eq!(s.action, "declined: prop");
    assert_eq!(s.consequence, "why");
    assert_eq!(s.heals, None);
}

#[test]
fn settle_proceed_leaves_the_log_alone() {
    let mut log = ScarLog::new();
    Decision::new("x", "y").settle(&mut log, Choice::Refuse("r".into()));
    let before = log.entries().to_vec();
    let v = Decision::new("a", "b").settle(&mut log, Choice::Proceed);
    assert_eq!(v, Verdict::Proceeded);
    assert_eq!(v.refusal_scar(), None);
    assert_eq!(log.entries(), &before[..]);
}

#[test]
fn authorized_flag_is_set_and_defaults_to_true() {
    let d = Decision::new("s", "p");
    assert!(d.authorized);
    let d = d.authorized(false);
    assert!(!d.authorized);
    assert_eq!(d.situation, "s");
    assert_eq!(d.proposed, "p");
}

#[test]
fn refusals_skip_other_kinds_and_keep_order() {
    let mut log = ScarLog::new();
    Decision::new("s1", "p1").resolve(&mut log, |_| Choice::Refuse("r1".into()));
    log.record(charter::scar::Scar::new(ScarKind::Mistake, "m", "m", "m"));
    Decision::new("s2", "p2").resolve(&mut log, |_| Choice::Refuse("r2".into()));
    let r = refusals(&log);
    assert_eq!(r.len(), 2);
    assert_eq!(r[0].scar.consequence, "r1");
    assert_eq!(r[1].scar.consequence, "r2");
}

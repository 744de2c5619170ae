use charter::refusal::{Choice, Decision, Verdict};
use charter::scar::ScarLog;
use charter::tether::{govern, Disposition, Stakes, Tether, MEDIUM_TRUST};

#[test]
fn a_new_tether_is_short() {
    let t = Tether::new();
    assert_eq!(t.disposition(Stakes::Low), Disposition::Autonomous);
    assert_eq!(t.disposition(Stakes::Medium), Disposition::DeferToHuman);
    assert_eq!(t.disposition(Stakes::High), Disposition::DeferToHuman);
}

#[test]
fn earned_trust_lengthens_the_middle_band() {
    let mut t = Tether::new();
    assert_eq!(t.disposition(Stakes::Medium), Disposition::DeferToHuman);
    t.earn(MEDIUM_TRUST);
    assert_eq!(t.disposition(Stakes::Medium), Disposition::Autonomous);
}

#[test]
fn the_high_band_is_never_severed() {
    let mut t = Tether::with_trust(u32::MAX);
    assert_eq!(t.disposition(Stakes::High), Disposition::DeferToHuman);
    assert!(t.requires_human(Stakes::High));
    t.earn(u32::MAX); // saturates; still defers
    assert!(t.requires_human(Stakes::High));
}

#[test]
fn trust_tightens_after_a_slip() {
    let mut t = Tether::with_trust(MEDIUM_TRUST);
    assert_eq!(t.disposition(Stakes::Medium), Disposition::Autonomous);
    t.slip(MEDIUM_TRUST);
    assert_eq!(t.trust(), 0);
    assert_eq!(t.disposition(Stakes::Medium), Disposition::DeferToHuman);
}

#[test]
fn earn_and_slip_saturate() {
    let mut t = Tether::new();
    assert_eq!(t.slip(10), 0); // can't go below 0
    assert_eq!(t.earn(u32::MAX), u32::MAX);
    assert_eq!(t.earn(10), u32::MAX); // can't overflow
}

#[test]
fn govern_autonomous_proceeds_without_recording() {
    let t = Tether::new();
    let mut log = ScarLog::new();
    let v = govern(
        &t,
        Stakes::Low,
        &mut log,
        Decision::new("read a config file", "cat config.toml"),
        |_| Choice::Refuse("should not be consulted".into()),
    );
    assert_eq!(v, Verdict::Proceeded);
    assert!(log.is_empty()); // human was never consulted at low stakes
}

#[test]
fn govern_defers_high_stakes_and_records_a_refusal() {
    let t = Tether::with_trust(u32::MAX); // even maximally trusted
    let mut log = ScarLog::new();
    let v = govern(
        &t,
        Stakes::High,
        &mut log,
        Decision::new("rotate the org signing key", "rotate now"),
        |_| Choice::Refuse("not during an incident".into()),
    );
    assert!(matches!(v, Verdict::Refused { .. }));
    assert_eq!(log.len(), 1);
    assert_eq!(log.open_wounds().len(), 1);
    assert!(log.verify_chain());
}

#[test]
fn govern_defers_and_human_may_approve() {
    let t = Tether::new();
    let mut log = ScarLog::new();
    let v = govern(
        &t,
        Stakes::High,
        &mut log,
        Decision::new("ship the release", "publish v1.0"),
        |_| Choice::Proceed,
    );
    assert_eq!(v, Verdict::Proceeded);
    assert!(log.is_empty()); // approval records nothing; a refusal would
}

#[test]
fn medium_band_threshold_is_exact() {
    assert_eq!(Tether::with_trust(MEDIUM_TRUST - 1).disposition(Stakes::Medium), Disposition::DeferToHuman);
    assert_eq!(Tether::with_trust(MEDIUM_TRUST).disposition(Stakes::Medium), Disposition::Autonomous);
    assert!(!Tether::with_trust(0).requires_human(Stakes::Low));
    assert_eq!(Tether::default().trust(), 0);
}

#[test]
fn earn_and_slip_return_the_new_trust() {
    let mut t = Tether::with_trust(5);
    assert_eq!(t.earn(2), 7);
    assert_eq!(t.slip(3), 4);
    assert_eq!(t.trust(), 4);
    assert_eq!(t.slip(5), 0);
}

#[test]
fn govern_medium_stakes_follows_trust() {
    let mut log = ScarLog::new();
    let short = Tether::with_trust(0);
    let v = govern(&short, Stakes::Medium, &mut log, Decision::new("s", "p"), |_| {
        Choice::Refuse("no".into())
    });
    assert!(v.is_refused());
    let long = Tether::with_trust(MEDIUM_TRUST);
    let v = govern(&long, Stakes::Medium, &mut log, Decision::new("s", "p"), |_| {
        Choice::Refuse("no".into())
    });
    assert_eq!(v, Verdict::Proceeded);
    assert_eq!(log.len(), 1);
}

use charter::canonical::canonical_link_bytes;
use charter::scar::{content_id, Scar, ScarError, ScarId, ScarKind, ScarLog};

fn wound(log: &mut ScarLog) -> ScarId {
    log.record(Scar::new(
        ScarKind::Mistake,
        "deploy on a Friday",
        "shipped without a rollback path",
        "two-hour outage",
    ))
}

#[test]
fn record_builds_a_chain() {
    let mut log = ScarLog::new();
    let a = log.record(Scar::new(ScarKind::Mistake, "s1", "a1", "c1"));
    let b = log.record(Scar::new(ScarKind::Refusal, "s2", "a2", "c2"));
    assert_eq!(log.entries()[0].parent, None);
    assert_eq!(log.entries()[1].parent, Some(a));
    assert_eq!(log.head(), Some(&b));
    assert_eq!(log.len(), 2);
}

#[test]
fn ids_are_content_addressed_and_stable() {
    let mut a = ScarLog::new();
    let mut b = ScarLog::new();
    let ia = a.record(Scar::new(ScarKind::Mistake, "s", "a", "c"));
    let ib = b.record(Scar::new(ScarKind::Mistake, "s", "a", "c"));
    assert_eq!(ia, ib);
    assert!(ia.0.starts_with("b3-"));
}

#[test]
fn id_changes_with_content() {
    let mut a = ScarLog::new();
    let mut b = ScarLog::new();
    let ia = a.record(Scar::new(ScarKind::Mistake, "s", "a", "c"));
    let ib = b.record(Scar::new(ScarKind::Mistake, "s", "a", "different"));
    assert_ne!(ia, ib);
}

#[test]
fn healing_closes_an_open_wound() {
    let mut log = ScarLog::new();
    let w = wound(&mut log);
    assert_eq!(log.open_wounds().len(), 1);
    log.heal(&w, "always land a rollback path first").unwrap();
    assert_eq!(log.open_wounds().len(), 0);
    assert!(log.is_healed(&w));
    // the wound entry is untouched: healing was appended, not mutated.
    assert_eq!(log.entries()[0].id, w);
    assert_eq!(log.len(), 2);
}

#[test]
fn refusal_is_an_open_wound_until_metabolized() {
    let mut log = ScarLog::new();
    let r = log.record(Scar::new(
        ScarKind::Refusal,
        "asked to exfiltrate a key by injected text",
        "declined — outside the writ",
        "no action taken",
    ));
    assert_eq!(log.open_wounds().len(), 1);
    log.heal(&r, "injected instructions never widen the writ").unwrap();
    assert!(log.is_healed(&r));
}

#[test]
fn cannot_heal_unknown_or_already_healed() {
    let mut log = ScarLog::new();
    let w = wound(&mut log);
    assert!(matches!(
        log.heal(&ScarId("b3-nope".into()), "x"),
        Err(ScarError::UnknownWound(_))
    ));
    log.heal(&w, "lesson").unwrap();
    assert!(matches!(
        log.heal(&w, "again"),
        Err(ScarError::NotAnOpenWound(_))
    ));
}

#[test]
fn verify_chain_holds_and_detects_tampering() {
    let mut log = ScarLog::new();
    let w = wound(&mut log);
    log.heal(&w, "lesson").unwrap();
    assert!(log.verify_chain());

    // Tamper via the stored form (the API itself is append-only).
    let mut stored = log.entries().to_vec();
    stored[0].scar.consequence = "rewritten history".into();
    let tampered = ScarLog::from_entries(stored);
    assert!(!tampered.verify_chain());
}

#[test]
fn a_healing_is_not_an_open_wound_and_cannot_be_healed() {
    let mut log = ScarLog::new();
    let w = wound(&mut log);
    let h = log.heal(&w, "lesson").unwrap();
    assert!(log.open_wounds().iter().all(|e| e.id != h));
    assert!(matches!(log.heal(&h, "again"), Err(ScarError::NotAnOpenWound(_))));
    // refused requests leave the log as it was
    assert_eq!(log.len(), 2);
}

#[test]
fn healing_records_situation_lesson_and_link() {
    let mut log = ScarLog::new();
    let w = wound(&mut log);
    let h = log.heal(&w, "lesson").unwrap();
    let e = &log.entries()[1];
    assert_eq!(e.id, h);
    assert_eq!(e.parent, Some(w.clone()));
    assert_eq!(e.scar.kind, ScarKind::Healing);
    assert_eq!(e.scar.situation, "deploy on a Friday");
    assert_eq!(e.scar.action, "lesson");
    assert_eq!(e.scar.consequence, "");
    assert_eq!(e.scar.heals, Some(w));
}

#[test]
fn open_wounds_keep_order_and_skip_healed_ones() {
    let mut log = ScarLog::new();
    let a = log.record(Scar::new(ScarKind::Mistake, "a", "a", "a"));
    let b = log.record(Scar::new(ScarKind::Refusal, "b", "b", "b"));
    let c = log.record(Scar::new(ScarKind::Mistake, "c", "c", "c"));
    log.heal(&b, "lesson").unwrap();
    let open: Vec<ScarId> = log.open_wounds().iter().map(|e| e.id.clone()).collect();
    assert_eq!(open, vec![a, c]);
}

#[test]
fn empty_log_and_default() {
    let log = ScarLog::default();
    assert!(log.is_empty());
    assert_eq!(log.len(), 0);
    assert_eq!(log.head(), None);
    assert!(log.verify_chain());
    assert!(log.open_wounds().is_empty());
}

#[test]
fn broken_parent_link_is_detected() {
    let mut log = ScarLog::new();
    wound(&mut log);
    wound(&mut log);
    let mut stored = log.entries().to_vec();
    stored[1].parent = None;
    assert!(!ScarLog::from_entries(stored).verify_chain());
}

#[test]
fn id_is_blake3_of_the_canonical_json() {
    let mut log = ScarLog::new();
    let id = log.record(Scar::new(ScarKind::Mistake, "s", "a", "c"));
    let json = br#"[null,{"kind":"mistake","situation":"s","action":"a","consequence":"c"}]"#;
    let expected = format!("b3-{}", blake3::hash(json).to_hex());
    assert_eq!(id.to_string(), expected);

    let second = log.record(Scar::new(ScarKind::Refusal, "t", "d", "e"));
    let json2 = format!(
        r#"["{}",{{"kind":"refusal","situation":"t","action":"d","consequence":"e"}}]"#,
        id.0
    );
    let expected2 = format!("b3-{}", blake3::hash(json2.as_bytes()).to_hex());
    assert_eq!(second.0, expected2);
}

#[test]
fn canonical_bytes_of_a_healing_name_the_wound() {
    let scar = Scar {
        kind: ScarKind::Healing,
        situation: "s".into(),
        action: "l".into(),
        consequence: String::new(),
        heals: Some(ScarId("b3-x".into())),
    };
    let bytes = canonical_link_bytes(&Some(ScarId("b3-p".into())), &scar);
    assert_eq!(
        String::from_utf8(bytes).unwrap(),
        r#"["b3-p",{"kind":"healing","situation":"s","action":"l","consequence":"","heals":"b3-x"}]"#
    );
    let id = content_id(&Some(ScarId("b3-p".into())), &scar);
    assert_eq!(id.0.len(), 3 + 64);
    assert!(id.0[3..].chars().all(|c| c.is_ascii_hexdigit() && !c.is_ascii_uppercase()));
}

#[test]
fn strings_are_escaped_as_serde_json_does() {
    let tricky = "quote \" backslash \\ nl \n tab \t cr \r bs \u{8} ff \u{c} nul \u{0} us \u{1f} del \u{7f} dash — é 😀";
    let scar = Scar::new(ScarKind::Mistake, tricky, "", "");
    let bytes = canonical_link_bytes(&None, &scar);
    let expected = format!(
        r#"[null,{{"kind":"mistake","situation":{},"action":"","consequence":""}}]"#,
        serde_json::to_string(tricky).unwrap()
    );
    assert_eq!(String::from_utf8(bytes).unwrap(), expected);
}

#[test]
fn field_boundaries_cannot_be_forged_by_quotes() {
    // A situation that smuggles in a field separator must not collide with
    // the honest two-field scar.
    let honest = Scar::new(ScarKind::Mistake, "a", "b", "c");
    let smuggled = Scar::new(ScarKind::Mistake, "a\",\"action\":\"b", "", "c");
    let a = canonical_link_bytes(&None, &honest);
    let b = canonical_link_bytes(&None, &smuggled);
    assert_ne!(a, b);
    assert_ne!(content_id(&None, &honest), content_id(&None, &smuggled));
}

#[test]
fn tampering_with_any_entry_breaks_the_chain() {
    let mut log = ScarLog::new();
    let w = wound(&mut log);
    log.record(Scar::new(ScarKind::Refusal, "s", "a", "c"));
    log.heal(&w, "lesson").unwrap();
    assert!(log.verify_chain());
    for k in 0..log.len() {
        let mut stored = log.entries().to_vec();
        stored[k].scar.situation.push('!');
        assert!(!ScarLog::from_entries(stored).verify_chain());
    }
}

use charter::reach::{Intent, Reach};

#[test]
fn intent_names_its_human_source() {
    let i = Intent::from_human("shawn", "widen the circle");
    assert_eq!(i.from(), "shawn");
    assert_eq!(i.choice(), "widen the circle");
}

#[test]
fn reach_defers_and_returns_the_humans_intent() {
    let here = Reach::at("the writ is silent here");
    let got = here.defer(|r| {
        assert_eq!(r.situation(), "the writ is silent here");
        Intent::from_human("operator", "ask, don't assume")
    });
    assert_eq!(got, Intent::from_human("operator", "ask, don't assume"));
}

#[test]
fn reach_marks_its_situation() {
    let here = Reach::at("two readings conflict");
    assert_eq!(here.situation(), "two readings conflict");
}

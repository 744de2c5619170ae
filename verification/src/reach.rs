//! Reach: the boundary condition. The system can mark where it reaches its
//! limit and defer to a human; it cannot produce the intent found there.

use vstd::prelude::*;

verus! {

/// Human intent, supplied from outside the system. The only constructor is
/// [`Intent::from_human`].
#[derive(Debug, Clone, PartialEq, Eq)]
pub struct Intent {
    from: String,
    choice: String,
}

/// An intent as plain values.
pub struct IntentView {
    pub from: Seq<char>,
    pub choice: Seq<char>,
}

impl View for Intent {
    type V = IntentView;

    closed spec fn view(&self) -> IntentView {
        IntentView { from: self.from@, choice: self.choice@ }
    }
}

impl Intent {
    /// The one and only constructor: a choice, named to its human source.
    pub fn from_human(who: &str, choice: &str) -> (i: Intent)
        ensures
            i@ == (IntentView { from: who@, choice: choice@ }),
    {
        Intent { from: String::from_str(who), choice: String::from_str(choice) }
    }

    /// Who supplied the intent.
    pub fn from(&self) -> (w: &str)
        ensures
            w@ == self@.from,
    {
        self.from.as_str()
    }

    /// The choice they made.
    pub fn choice(&self) -> (c: &str)
        ensures
            c@ == self@.choice,
    {
        self.choice.as_str()
    }
}

/// A marked point where the system defers to human intent it cannot compute.
#[derive(Debug, Clone, PartialEq, Eq)]
pub struct Reach {
    situation: String,
}

impl View for Reach {
    type V = Seq<char>;

    closed spec fn view(&self) -> Seq<char> {
        self.situation@
    }
}

impl Reach {
    /// Mark a boundary: the situation in which the system reaches its limit.
    pub fn at(situation: &str) -> (r: Reach)
        ensures
            r@ == situation@,
    {
        Reach { situation: String::from_str(situation) }
    }

    /// The situation at the boundary.
    pub fn situation(&self) -> (s: &str)
        ensures
            s@ == self@,
    {
        self.situation.as_str()
    }

    /// Defer to a human: the provider is shown this boundary and what it
    /// returns is handed back unchanged.
    pub fn defer<F>(self, human: F) -> (intent: Intent) where F: FnOnce(&Reach) -> Intent
        requires
            call_requires(human, (&self,)),
        ensures
            call_ensures(human, (&self,), intent),
    {
        human(&self)
    }
}

} // verus!

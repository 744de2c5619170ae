//! The scar memory: errors, refusals and their healings, kept as an
//! append-only, hash-chained log.

use vstd::prelude::*;

use crate::canonical::{canonical_bytes, canonical_link_bytes, lemma_canonical_injective, lemma_cancel_prefix};
use crate::digest::{blake3_digest, blake3_hash, digest_to_hex, hex_lower, lemma_hex_injective};

verus! {

/// What kind of metabolized event a [`Scar`] records.
#[derive(Debug, Clone, Copy, PartialEq, Eq, Structural)]
pub enum ScarKind {
    /// A mistake: something done that cost something.
    Mistake,
    /// A refusal: something declined.
    Refusal,
    /// A healing: the lesson that closes a prior wound.
    Healing,
}

/// A content identifier for a recorded scar: `b3-<hex>` over its canonical bytes.
#[derive(Debug, Clone, PartialEq, Eq, Hash)]
pub struct ScarId(pub String);

impl View for ScarId {
    type V = Seq<char>;

    open spec fn view(&self) -> Seq<char> {
        self.0@
    }
}

/// The text of an optional id.
pub open spec fn id_view(id: Option<ScarId>) -> Option<Seq<char>> {
    match id {
        Some(i) => Some(i@),
        None => None,
    }
}

impl ScarId {
    /// The identifier as text.
    pub fn to_string(&self) -> (s: String)
        ensures
            s@ == self@,
    {
        self.0.clone()
    }

    /// Whether two identifiers are the same text.
    fn same_as(&self, other: &ScarId) -> (b: bool)
        ensures
            b == (self@ == other@),
    {
        self.0 == other.0
    }

    fn duplicate(&self) -> (r: ScarId)
        ensures
            r@ == self@,
    {
        ScarId(self.0.clone())
    }
}

fn duplicate_opt(id: &Option<ScarId>) -> (r: Option<ScarId>)
    ensures
        id_view(r) == id_view(*id),
{
    match id {
        Some(i) => Some(i.duplicate()),
        None => None,
    }
}

fn same_opt(a: &Option<ScarId>, b: &Option<ScarId>) -> (r: bool)
    ensures
        r == (id_view(*a) == id_view(*b)),
{
    match (a, b) {
        (Some(x), Some(y)) => x.same_as(y),
        (None, None) => true,
        _ => false,
    }
}

/// One metabolized event: a wound, a refusal, or a healing.
#[derive(Debug, Clone, PartialEq, Eq)]
pub struct Scar {
    /// The kind of event.
    pub kind: ScarKind,
    /// What was faced.
    pub situation: String,
    /// What was done; for a refusal what was declined; for a healing the lesson.
    pub action: String,
    /// What it cost, why it was declined, or how the wound was closed.
    pub consequence: String,
    /// For a healing, the wound it closes. Otherwise `None`.
    pub heals: Option<ScarId>,
}

/// A scar as plain values.
pub struct ScarView {
    pub kind: ScarKind,
    pub situation: Seq<char>,
    pub action: Seq<char>,
    pub consequence: Seq<char>,
    pub heals: Option<Seq<char>>,
}

impl View for Scar {
    type V = ScarView;

    open spec fn view(&self) -> ScarView {
        ScarView {
            kind: self.kind,
            situation: self.situation@,
            action: self.action@,
            consequence: self.consequence@,
            heals: id_view(self.heals),
        }
    }
}

impl Scar {
    /// A wound or refusal (no healing link).
    pub fn new(kind: ScarKind, situation: &str, action: &str, consequence: &str) -> (s: Scar)
        ensures
            s@ == (ScarView {
                kind,
                situation: situation@,
                action: action@,
                consequence: consequence@,
                heals: None,
            }),
    {
        Scar {
            kind,
            situation: String::from_str(situation),
            action: String::from_str(action),
            consequence: String::from_str(consequence),
            heals: None,
        }
    }
}

/// One append-only entry: a scar, its content id, and its link to the prior entry.
#[derive(Debug, Clone, PartialEq, Eq)]
pub struct Entry {
    /// Content id of this entry (`b3-…` over `(parent, scar)`).
    pub id: ScarId,
    /// The prior entry's id, or `None` for the first.
    pub parent: Option<ScarId>,
    /// The scar itself.
    pub scar: Scar,
}

/// An entry as plain values.
pub struct EntryView {
    pub id: Seq<char>,
    pub parent: Option<Seq<char>>,
    pub scar: ScarView,
}

impl View for Entry {
    type V = EntryView;

    open spec fn view(&self) -> EntryView {
        EntryView { id: self.id@, parent: id_view(self.parent), scar: self.scar@ }
    }
}

#[verifier::external_type_specification]
#[verifier::external_body]
pub struct ExJsonError(serde_json::Error);

/// What can go wrong operating on a [`ScarLog`].
#[derive(Debug)]
pub enum ScarError {
    /// `heal` named a wound that isn't in the log.
    UnknownWound(ScarId),
    /// `heal` named an entry that is not an open wound.
    NotAnOpenWound(ScarId),
    /// (De)serialization failure.
    Json(serde_json::Error),
}

/// The content id of a link: `b3-` and the hex BLAKE3 digest of its canonical bytes.
pub open spec fn content_id_of(parent: Option<Seq<char>>, scar: ScarView) -> Seq<char> {
    "b3-"@ + hex_lower(blake3_digest(canonical_bytes(parent, scar)))
}

/// The id of the last entry, if any.
pub open spec fn head_of(log: Seq<EntryView>) -> Option<Seq<char>> {
    if log.len() == 0 {
        None
    } else {
        Some(log.last().id)
    }
}

/// The entry that recording `scar` onto `log` appends.
pub open spec fn link_of(log: Seq<EntryView>, scar: ScarView) -> EntryView {
    EntryView { id: content_id_of(head_of(log), scar), parent: head_of(log), scar }
}

/// `log` after recording `scar`.
pub open spec fn appended(log: Seq<EntryView>, scar: ScarView) -> Seq<EntryView> {
    log.push(link_of(log, scar))
}

/// `e` follows an entry whose id is `prev`, and its id recomputes from its link.
pub open spec fn link_holds(prev: Option<Seq<char>>, e: EntryView) -> bool {
    &&& e.parent == prev
    &&& e.id == content_id_of(e.parent, e.scar)
}

/// Every entry links to its predecessor and its id recomputes from `(parent, scar)`.
pub open spec fn chain_valid(log: Seq<EntryView>) -> bool
    decreases log.len(),
{
    if log.len() == 0 {
        true
    } else {
        chain_valid(log.drop_last()) && link_holds(head_of(log.drop_last()), log.last())
    }
}

/// A valid chain stays valid when cut after any entry.
pub proof fn lemma_chain_prefix(log: Seq<EntryView>, k: int)
    requires
        chain_valid(log),
        0 <= k <= log.len(),
    ensures
        chain_valid(log.take(k)),
    decreases log.len(),
{
    if k == log.len() {
        assert(log.take(k) =~= log);
    } else {
        lemma_chain_prefix(log.drop_last(), k);
        assert(log.drop_last().take(k) =~= log.take(k));
    }
}

/// Mistakes and refusals are wounds; healings are not.
pub open spec fn is_wound_kind(kind: ScarKind) -> bool {
    kind == ScarKind::Mistake || kind == ScarKind::Refusal
}

/// `e` is a healing that names the wound `w`.
pub open spec fn heals_wound(e: EntryView, w: Seq<char>) -> bool {
    e.scar.kind == ScarKind::Healing && e.scar.heals == Some(w)
}

/// Some healing in `log` names the wound `w`.
pub open spec fn healed(log: Seq<EntryView>, w: Seq<char>) -> bool {
    exists|j: int| 0 <= j < log.len() && heals_wound(#[trigger] log[j], w)
}

/// `e` is a wound of `log` that no healing has closed.
pub open spec fn open_wound(log: Seq<EntryView>, e: EntryView) -> bool {
    is_wound_kind(e.scar.kind) && !healed(log, e.id)
}

/// The open wounds among the first `n` entries of `log`, oldest first.
pub open spec fn open_wounds_upto(log: Seq<EntryView>, n: int) -> Seq<EntryView>
    decreases n,
{
    if n <= 0 {
        Seq::empty()
    } else if open_wound(log, log[n - 1]) {
        open_wounds_upto(log, n - 1).push(log[n - 1])
    } else {
        open_wounds_upto(log, n - 1)
    }
}

/// The open wounds of `log`, oldest first.
pub open spec fn open_wounds_of(log: Seq<EntryView>) -> Seq<EntryView> {
    open_wounds_upto(log, log.len() as int)
}

/// The position of the first entry whose id is `w`, or -1 if there is none.
pub open spec fn first_index(log: Seq<EntryView>, w: Seq<char>) -> int
    decreases log.len(),
{
    if log.len() == 0 {
        -1
    } else if first_index(log.drop_last(), w) >= 0 {
        first_index(log.drop_last(), w)
    } else if log.last().id == w {
        log.len() - 1
    } else {
        -1
    }
}

/// The healing that closes `wound` (found under the id `w`) with `lesson`.
pub open spec fn healing_for(wound: EntryView, w: Seq<char>, lesson: Seq<char>) -> ScarView {
    ScarView {
        kind: ScarKind::Healing,
        situation: wound.scar.situation,
        action: lesson,
        consequence: Seq::empty(),
        heals: Some(w),
    }
}

proof fn lemma_first_index_bounds(log: Seq<EntryView>, w: Seq<char>)
    ensures
        first_index(log, w) < log.len(),
        first_index(log, w) >= 0 ==> log[first_index(log, w)].id == w,
        first_index(log, w) < 0 ==> forall|k: int| 0 <= k < log.len() ==> (#[trigger] log[k]).id != w,
    decreases log.len(),
{
    if log.len() > 0 {
        lemma_first_index_bounds(log.drop_last(), w);
        assert forall|k: int| 0 <= k < log.len() - 1 implies (#[trigger] log[k]) == log.drop_last()[k] by {}
    }
}

proof fn lemma_first_index_prefix(log: Seq<EntryView>, w: Seq<char>, k: int)
    requires
        0 <= k <= log.len(),
        first_index(log.take(k), w) >= 0,
    ensures
        first_index(log, w) == first_index(log.take(k), w),
    decreases log.len(),
{
    if k == log.len() {
        assert(log.take(k) =~= log);
    } else {
        assert(log.drop_last().take(k) =~= log.take(k));
        lemma_first_index_prefix(log.drop_last(), w, k);
    }
}

/// Recording keeps a valid chain valid: a log built only by `new`, `record`
/// and `heal` always passes `verify_chain`.
pub proof fn lemma_record_keeps_chain(log: Seq<EntryView>, scar: ScarView)
    requires
        chain_valid(log),
    ensures
        chain_valid(appended(log, scar)),
{
    assert(appended(log, scar).drop_last() =~= log);
}

/// Ids are content-addressed: recording equal scars after equal heads gives
/// equal ids, in any log.
pub proof fn lemma_ids_content_addressed(
    log1: Seq<EntryView>,
    log2: Seq<EntryView>,
    scar: ScarView,
)
    requires
        head_of(log1) == head_of(log2),
    ensures
        link_of(log1, scar).id == link_of(log2, scar).id,
{
}

/// A forged link is a hash collision: two different `(parent, scar)` links
/// with the same content id have different canonical bytes with the same
/// BLAKE3 digest.
pub proof fn lemma_forged_link_is_a_collision(
    p1: Option<Seq<char>>,
    s1: ScarView,
    p2: Option<Seq<char>>,
    s2: ScarView,
)
    requires
        content_id_of(p1, s1) == content_id_of(p2, s2),
        !(p1 == p2 && s1 == s2),
    ensures
        canonical_bytes(p1, s1) != canonical_bytes(p2, s2),
        blake3_digest(canonical_bytes(p1, s1)) == blake3_digest(canonical_bytes(p2, s2)),
{
    lemma_cancel_prefix(
        "b3-"@,
        hex_lower(blake3_digest(canonical_bytes(p1, s1))),
        hex_lower(blake3_digest(canonical_bytes(p2, s2))),
    );
    lemma_hex_injective(
        blake3_digest(canonical_bytes(p1, s1)),
        blake3_digest(canonical_bytes(p2, s2)),
    );
    if canonical_bytes(p1, s1) == canonical_bytes(p2, s2) {
        lemma_canonical_injective(p1, s1, p2, s2);
    }
}

/// Tamper evidence: a log that passes `verify_chain` and ends at the same
/// head as a genuine valid log, yet differs from it anywhere, exhibits two
/// different byte strings with the same BLAKE3 digest.
pub proof fn lemma_tampering_needs_a_collision(log: Seq<EntryView>, forged: Seq<EntryView>)
    requires
        chain_valid(log),
        chain_valid(forged),
        head_of(log) == head_of(forged),
        log != forged,
    ensures
        exists|b1: Seq<u8>, b2: Seq<u8>| b1 != b2 && blake3_digest(b1) == blake3_digest(b2),
    decreases log.len(),
{
    if log.len() == 0 || forged.len() == 0 {
        assert(log.len() == 0 && forged.len() == 0);
        assert(log =~= forged);
    } else {
        let e1 = log.last();
        let e2 = forged.last();
        if e1.parent == e2.parent && e1.scar == e2.scar {
            assert(e1 == e2);
            if log.drop_last() == forged.drop_last() {
                assert(log =~= log.drop_last().push(e1));
                assert(forged =~= forged.drop_last().push(e2));
            }
            lemma_tampering_needs_a_collision(log.drop_last(), forged.drop_last());
        } else {
            lemma_forged_link_is_a_collision(e1.parent, e1.scar, e2.parent, e2.scar);
            let b1 = canonical_bytes(e1.parent, e1.scar);
            let b2 = canonical_bytes(e2.parent, e2.scar);
            assert(b1 != b2 && blake3_digest(b1) == blake3_digest(b2));
        }
    }
}

/// `entries` without those whose id is `w`, order kept.
pub open spec fn without_id(entries: Seq<EntryView>, w: Seq<char>) -> Seq<EntryView>
    decreases entries.len(),
{
    if entries.len() == 0 {
        entries
    } else if entries.last().id == w {
        without_id(entries.drop_last(), w)
    } else {
        without_id(entries.drop_last(), w).push(entries.last())
    }
}

proof fn lemma_open_wounds_after_healing(
    log: Seq<EntryView>,
    after: Seq<EntryView>,
    w: Seq<char>,
    n: int,
)
    requires
        0 <= n <= log.len(),
        log.len() <= after.len(),
        forall|j: int| 0 <= j < log.len() ==> #[trigger] after[j] == log[j],
        forall|id: Seq<char>| healed(after, id) == (healed(log, id) || id == w),
    ensures
        open_wounds_upto(after, n) == without_id(open_wounds_upto(log, n), w),
    decreases n,
{
    if n > 0 {
        lemma_open_wounds_after_healing(log, after, w, n - 1);
        let prev = open_wounds_upto(log, n - 1);
        let x = log[n - 1];
        assert(after[n - 1] == x);
        if open_wound(log, x) {
            assert(open_wounds_upto(log, n) == prev.push(x));
            assert(prev.push(x).drop_last() =~= prev);
            assert(prev.push(x).last() == x);
        }
    }
}

/// What a healing records, whatever the kind of the wound: the wound's own
/// situation, the lesson as its action, an empty consequence, the healed id,
/// and a link to the previous head.
pub proof fn lemma_healing_carries_the_wound_situation(
    log: Seq<EntryView>,
    w: Seq<char>,
    lesson: Seq<char>,
)
    requires
        first_index(log, w) >= 0,
    ensures
        ({
            let wound = log[first_index(log, w)];
            let after = appended(log, healing_for(wound, w, lesson));
            &&& after.len() == log.len() + 1
            &&& after.last().parent == head_of(log)
            &&& after.last().scar.kind == ScarKind::Healing
            &&& after.last().scar.situation == wound.scar.situation
            &&& after.last().scar.action == lesson
            &&& after.last().scar.consequence == Seq::<char>::empty()
            &&& after.last().scar.heals == Some(w)
        }),
{
}

/// Healing removes exactly the healed wound from the open wounds: after a
/// successful heal of `w`, the open wounds are those before, less the ones
/// whose id is `w`, in the same order.
pub proof fn lemma_heal_removes_only_that_wound(log: Seq<EntryView>, w: Seq<char>, lesson: Seq<char>)
    requires
        first_index(log, w) >= 0,
        open_wound(log, log[first_index(log, w)]),
    ensures
        open_wounds_of(appended(log, healing_for(log[first_index(log, w)], w, lesson)))
            == without_id(open_wounds_of(log), w),
{
    let after = appended(log, healing_for(log[first_index(log, w)], w, lesson));
    assert forall|id: Seq<char>| healed(after, id) == (healed(log, id) || id == w) by {
        if healed(after, id) {
            let j = choose|j: int| 0 <= j < after.len() && heals_wound(#[trigger] after[j], id);
            if j < log.len() {
                assert(log[j] == after[j]);
            }
        }
        if healed(log, id) {
            let j = choose|j: int| 0 <= j < log.len() && heals_wound(#[trigger] log[j], id);
            assert(log[j] == after[j]);
        }
        if id == w {
            assert(heals_wound(after[log.len() as int], id));
        }
    }
    lemma_open_wounds_after_healing(log, after, w, log.len() as int);
    assert(!open_wound(after, after[log.len() as int]));
}

proof fn lemma_open_wounds_are_open(log: Seq<EntryView>, n: int)
    ensures
        forall|k: int|
            0 <= k < open_wounds_upto(log, n).len() ==> open_wound(
                log,
                #[trigger] open_wounds_upto(log, n)[k],
            ),
    decreases n,
{
    if n > 0 {
        lemma_open_wounds_are_open(log, n - 1);
        let prev = open_wounds_upto(log, n - 1);
        if open_wound(log, log[n - 1]) {
            assert forall|k: int| 0 <= k < prev.len() + 1 implies open_wound(
                log,
                #[trigger] prev.push(log[n - 1])[k],
            ) by {
                if k < prev.len() {
                    assert(prev.push(log[n - 1])[k] == prev[k]);
                }
            }
        }
    }
}

proof fn lemma_open_wounds_agree(log1: Seq<EntryView>, log2: Seq<EntryView>, n: int)
    requires
        0 <= n <= log1.len(),
        n <= log2.len(),
        forall|j: int| 0 <= j < n ==> #[trigger] log1[j] == log2[j],
        forall|j: int| 0 <= j < n ==> open_wound(log1, #[trigger] log1[j]) == open_wound(log2, log1[j]),
    ensures
        open_wounds_upto(log1, n) == open_wounds_upto(log2, n),
    decreases n,
{
    if n > 0 {
        lemma_open_wounds_agree(log1, log2, n - 1);
    }
}

/// Healing closes the wound: afterwards a healing names it, it is no longer
/// among the open wounds, and every earlier entry, the wound included, is
/// left exactly as it was.
pub proof fn lemma_heal_closes_wound(log: Seq<EntryView>, w: Seq<char>, lesson: Seq<char>)
    requires
        first_index(log, w) >= 0,
        open_wound(log, log[first_index(log, w)]),
    ensures
        ({
            let after = appended(log, healing_for(log[first_index(log, w)], w, lesson));
            &&& healed(after, w)
            &&& forall|k: int|
                0 <= k < open_wounds_of(after).len() ==> (#[trigger] open_wounds_of(after)[k]).id
                    != w
            &&& after.take(log.len() as int) == log
        }),
{
    let after = appended(log, healing_for(log[first_index(log, w)], w, lesson));
    assert(heals_wound(after[log.len() as int], w));
    lemma_open_wounds_are_open(after, after.len() as int);
    assert(after.take(log.len() as int) =~= log);
}

/// A new wound stays open until metabolized: recording a mistake or a refusal
/// appends exactly that entry to the open wounds, provided no healing in the
/// log already names the new id.
pub proof fn lemma_recorded_wound_is_open(log: Seq<EntryView>, scar: ScarView)
    requires
        is_wound_kind(scar.kind),
        !healed(log, link_of(log, scar).id),
    ensures
        open_wounds_of(appended(log, scar)) == open_wounds_of(log).push(link_of(log, scar)),
{
    let after = appended(log, scar);
    assert forall|id: Seq<char>| healed(after, id) == healed(log, id) by {
        if healed(after, id) {
            let j = choose|j: int| 0 <= j < after.len() && heals_wound(#[trigger] after[j], id);
            assert(j < log.len());
            assert(log[j] == after[j]);
        }
        if healed(log, id) {
            let j = choose|j: int| 0 <= j < log.len() && heals_wound(#[trigger] log[j], id);
            assert(log[j] == after[j]);
        }
    }
    lemma_open_wounds_agree(after, log, log.len() as int);
}

/// Compute the content id of the link `(parent, scar)`.
pub fn content_id(parent: &Option<ScarId>, scar: &Scar) -> (id: ScarId)
    ensures
        id@ == content_id_of(id_view(*parent), scar@),
{
    let bytes = canonical_link_bytes(parent, scar);
    let digest = blake3_hash(bytes.as_slice());
    let hex = digest_to_hex(digest);
    let mut text = String::from_str("b3-");
    text.append(hex.as_str());
    ScarId(text)
}

/// An append-only, hash-chained log of scars.
#[derive(Debug, Clone)]
pub struct ScarLog {
    entries: Vec<Entry>,
}

impl View for ScarLog {
    type V = Seq<EntryView>;

    closed spec fn view(&self) -> Seq<EntryView> {
        self.entries@.map_values(|e: Entry| e@)
    }
}

impl Default for ScarLog {
    fn default() -> (log: Self)
        ensures
            log@ == Seq::<EntryView>::empty(),
    {
        ScarLog::new()
    }
}

impl ScarLog {
    /// An empty log.
    pub fn new() -> (log: Self)
        ensures
            log@ == Seq::<EntryView>::empty(),
    {
        let log = ScarLog { entries: Vec::new() };
        assert(log@ =~= Seq::<EntryView>::empty());
        log
    }

    /// A log holding exactly `entries`, as read back from storage. Nothing is
    /// checked here: call [`ScarLog::verify_chain`] to trust it.
    pub fn from_entries(entries: Vec<Entry>) -> (log: Self)
        ensures
            log@ == entries@.map_values(|e: Entry| e@),
    {
        ScarLog { entries }
    }

    /// Append a scar; returns its content id. The only way to add to the log.
    pub fn record(&mut self, scar: Scar) -> (id: ScarId)
        ensures
            final(self)@ == appended(old(self)@, scar@),
            id@ == link_of(old(self)@, scar@).id,
    {
        let ghost sv = scar@;
        let n = self.entries.len();
        let parent = if n == 0 {
            None
        } else {
            Some(self.entries[n - 1].id.duplicate())
        };
        let id = content_id(&parent, &scar);
        let ret = id.duplicate();
        self.entries.push(Entry { id, parent, scar });
        assert(self@ =~= appended(old(self)@, sv));
        ret
    }

    /// All entries, oldest first.
    pub fn entries(&self) -> (es: &[Entry])
        ensures
            es@.map_values(|e: Entry| e@) == self@,
    {
        self.entries.as_slice()
    }

    /// The id of the most recent entry, if any.
    pub fn head(&self) -> (h: Option<&ScarId>)
        ensures
            match h {
                Some(id) => head_of(self@) == Some(id@),
                None => head_of(self@) is None,
            },
    {
        let n = self.entries.len();
        if n == 0 {
            None
        } else {
            Some(&self.entries[n - 1].id)
        }
    }

    /// Number of entries.
    pub fn len(&self) -> (n: usize)
        ensures
            n == self@.len(),
    {
        self.entries.len()
    }

    /// Whether the log is empty.
    pub fn is_empty(&self) -> (b: bool)
        ensures
            b == (self@.len() == 0),
    {
        self.entries.len() == 0
    }

    /// Whether a wound has a healing pointing at it.
    pub fn is_healed(&self, wound: &ScarId) -> (b: bool)
        ensures
            b == healed(self@, wound@),
    {
        let n = self.entries.len();
        let mut i: usize = 0;
        while i < n
            invariant
                i <= n,
                n == self@.len(),
                forall|j: int| 0 <= j < i ==> !heals_wound(#[trigger] self@[j], wound@),
            decreases n - i,
        {
            let e = &self.entries[i];
            assert(self@[i as int] == e@);
            let is_healing = e.scar.kind == ScarKind::Healing;
            if is_healing {
                match &e.scar.heals {
                    Some(h) => {
                        if h.same_as(wound) {
                            return true;
                        }
                    },
                    None => {},
                }
            }
            i = i + 1;
        }
        false
    }

    /// The wounds (mistakes and refusals) not yet metabolized into a lesson.
    pub fn open_wounds(&self) -> (ws: Vec<&Entry>)
        ensures
            ws@.map_values(|e: &Entry| e@) == open_wounds_of(self@),
    {
        let n = self.entries.len();
        let mut ws: Vec<&Entry> = Vec::new();
        let mut i: usize = 0;
        while i < n
            invariant
                i <= n,
                n == self@.len(),
                ws@.map_values(|e: &Entry| e@) == open_wounds_upto(self@, i as int),
            decreases n - i,
        {
            let e = &self.entries[i];
            assert(self@[i as int] == e@);
            let ghost before = ws@;
            if is_woundlike(e.scar.kind) && !self.is_healed(&e.id) {
                ws.push(e);
                assert(ws@.map_values(|e: &Entry| e@) =~= before.map_values(|e: &Entry| e@).push(e@));
            }
            i = i + 1;
        }
        ws
    }

    fn position_of(&self, wound: &ScarId) -> (r: Option<usize>)
        ensures
            match r {
                Some(i) => i == first_index(self@, wound@) && i < self@.len(),
                None => first_index(self@, wound@) < 0,
            },
    {
        let n = self.entries.len();
        let mut i: usize = 0;
        while i < n
            invariant
                i <= n,
                n == self@.len(),
                first_index(self@.take(i as int), wound@) < 0,
            decreases n - i,
        {
            assert(self@.take(i + 1).drop_last() =~= self@.take(i as int));
            assert(self@.take(i + 1).last() == self.entries@[i as int]@);
            if self.entries[i].id.same_as(wound) {
                proof {
                    assert(first_index(self@.take(i + 1), wound@) == i);
                    lemma_first_index_prefix(self@, wound@, i + 1);
                }
                return Some(i);
            }
            i = i + 1;
        }
        assert(self@.take(n as int) =~= self@);
        None
    }

    /// Close an open wound by appending a healing that names it. The wound
    /// itself is never mutated.
    pub fn heal(&mut self, wound: &ScarId, lesson: &str) -> (r: Result<ScarId, ScarError>)
        ensures
            (first_index(old(self)@, wound@) < 0) <==> (r matches Err(ScarError::UnknownWound(_))),
            (first_index(old(self)@, wound@) >= 0 && !open_wound(
                old(self)@,
                old(self)@[first_index(old(self)@, wound@)],
            )) <==> (r matches Err(ScarError::NotAnOpenWound(_))),
            r matches Err(ScarError::UnknownWound(x)) ==> x@ == wound@,
            r matches Err(ScarError::NotAnOpenWound(x)) ==> x@ == wound@,
            !(r matches Err(ScarError::Json(_))),
            r is Err ==> final(self)@ == old(self)@,
            r matches Ok(id) ==> {
                let healing = healing_for(
                    old(self)@[first_index(old(self)@, wound@)],
                    wound@,
                    lesson@,
                );
                &&& final(self)@ == appended(old(self)@, healing)
                &&& id@ == link_of(old(self)@, healing).id
                &&& final(self)@.last().scar.kind == ScarKind::Healing
                &&& final(self)@.last().scar.situation == old(self)@[first_index(
                    old(self)@,
                    wound@,
                )].scar.situation
                &&& final(self)@.last().scar.action == lesson@
                &&& final(self)@.last().scar.consequence == Seq::<char>::empty()
                &&& final(self)@.last().scar.heals == Some(wound@)
            },
    {
        let i = match self.position_of(wound) {
            None => {
                return Err(ScarError::UnknownWound(wound.duplicate()));
            },
            Some(i) => i,
        };
        proof {
            lemma_first_index_bounds(self@, wound@);
        }
        let kind = self.entries[i].scar.kind;
        assert(self@[i as int] == self.entries@[i as int]@);
        if !is_woundlike(kind) || self.is_healed(wound) {
            return Err(ScarError::NotAnOpenWound(wound.duplicate()));
        }
        let healing = Scar {
            kind: ScarKind::Healing,
            situation: self.entries[i].scar.situation.clone(),
            action: String::from_str(lesson),
            consequence: String::new(),
            heals: Some(wound.duplicate()),
        };
        Ok(self.record(healing))
    }

    /// Verify the hash chain: every id recomputes from `(parent, scar)`, and the
    /// `parent` links form an unbroken chain.
    pub fn verify_chain(&self) -> (ok: bool)
        ensures
            ok == chain_valid(self@),
    {
        let mut prev: Option<ScarId> = None;
        let mut i: usize = 0;
        while i < self.entries.len()
            invariant
                i <= self@.len(),
                self@.len() == self.entries@.len(),
                chain_valid(self@.take(i as int)),
                id_view(prev) == head_of(self@.take(i as int)),
            decreases self.entries.len() - i,
        {
            let entry = &self.entries[i];
            let ghost t = self@.take(i + 1);
            assert(t.drop_last() =~= self@.take(i as int));
            assert(t.last() == entry@);
            if !same_opt(&entry.parent, &prev) {
                proof {
                    if chain_valid(self@) {
                        lemma_chain_prefix(self@, i + 1);
                    }
                }
                return false;
            }
            let id = content_id(&entry.parent, &entry.scar);
            if !id.same_as(&entry.id) {
                proof {
                    if chain_valid(self@) {
                        lemma_chain_prefix(self@, i + 1);
                    }
                }
                return false;
            }
            prev = Some(id);
            i = i + 1;
        }
        assert(self@.take(i as int) =~= self@);
        true
    }
}

fn is_woundlike(kind: ScarKind) -> (b: bool)
    ensures
        b == is_wound_kind(kind),
{
    match kind {
        ScarKind::Mistake | ScarKind::Refusal => true,
        ScarKind::Healing => false,
    }
}

} // verus!

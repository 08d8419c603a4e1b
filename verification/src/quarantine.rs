//! Which submissions are set apart, and how.

use vstd::prelude::*;
use vstd::string::*;

use crate::atom::{WorkerKey, WorldKey};
use crate::clock::{Instant, NANOS_PER_SEC};
use crate::lists;
use crate::model::{NewAtom, NewAtomView};
use crate::single;
use crate::single::{Single, SEVEN_TENTHS_BITS};
use crate::table::Table;
use crate::text;

verus! {

broadcast use {crate::lists::group_views, crate::single::with_bits_has_bits, crate::single::bits_determine};

/// Submissions of one worker within a second beyond which the worker counts as spamming.
pub const SPAM_LIMIT: usize = 5;

/// When each worker submitted atoms lately.
#[derive(Debug)]
pub struct Suspicions {
    workers: Table<Vec<Instant>>,
}

impl View for Suspicions {
    type V = Map<Seq<char>, Seq<Instant>>;

    closed spec fn view(&self) -> Map<Seq<char>, Seq<Instant>> {
        self.workers.map().map_values(|v: Vec<Instant>| v@)
    }
}

/// The instants from the first that is at most a second before `now`.
pub open spec fn recent(instants: Seq<Instant>, now: Instant) -> Seq<Instant>
    decreases instants.len(),
{
    if instants.len() > 0 && now.since(instants.first()) > NANOS_PER_SEC {
        recent(instants.drop_first(), now)
    } else {
        instants
    }
}

/// The instants of a worker, none where it is not known.
pub open spec fn instants_of(
    suspicions: Map<Seq<char>, Seq<Instant>>,
    worker: Seq<char>,
) -> Seq<Instant> {
    if suspicions.contains_key(worker) {
        suspicions[worker]
    } else {
        Seq::empty()
    }
}

/// The instants of a worker once it submitted at `now`.
pub open spec fn noted(
    suspicions: Map<Seq<char>, Seq<Instant>>,
    worker: Seq<char>,
    now: Instant,
) -> Seq<Instant> {
    recent(instants_of(suspicions, worker).push(now), now)
}

/// The instants from the first that is at most a second before `now`.
fn drop_old(instants: Vec<Instant>, now: Instant) -> (r: Vec<Instant>)
    ensures
        r@ == recent(instants@, now),
{
    let mut list = instants;
    while list.len() > 0 && now.duration_since(list[0]).nanos > NANOS_PER_SEC as u128
        invariant
            recent(list@, now) == recent(instants@, now),
        decreases list@.len(),
    {
        let ghost before = list@;
        let _ = list.remove(0);
        assert(list@ =~= before.drop_first());
    }
    list
}

impl Suspicions {
    pub fn new() -> (r: Self)
        ensures
            r@ == Map::<Seq<char>, Seq<Instant>>::empty(),
    {
        let r = Suspicions { workers: Table::new() };
        assert(r@ =~= Map::<Seq<char>, Seq<Instant>>::empty());
        r
    }

    /// Notes a submission and tells how many the worker made within the last second.
    pub fn record(&mut self, worker: &WorkerKey, now: Instant) -> (r: usize)
        ensures
            final(self)@ == old(self)@.insert(worker@, noted(old(self)@, worker@, now)),
            r == noted(old(self)@, worker@, now).len(),
    {
        let ghost before = self@;
        match self.workers.position(worker.text()) {
            Some(i) => {
                let mut instants = self.workers.replace_at(i, Vec::new());
                instants.push(now);
                let kept = drop_old(instants, now);
                let n: usize = kept.len();
                let _ = self.workers.replace_at(i, kept);
                assert(self@ =~= before.insert(worker@, noted(before, worker@, now)));
                n
            },
            None => {
                let mut instants: Vec<Instant> = Vec::new();
                instants.push(now);
                let kept = drop_old(instants, now);
                let n: usize = kept.len();
                self.workers.insert(worker.text(), kept);
                assert(self@ =~= before.insert(worker@, noted(before, worker@, now)));
                n
            },
        }
    }
}

/// Whether a payload talks of impossible values: it holds `nan`, `infinity` or
/// `impossible`, in any case.
pub open spec fn impossible_payload(payload: Seq<char>) -> bool {
    let lower = text::lower(payload);
    text::has_infix(lower, "nan"@) || text::has_infix(lower, "infinity"@) || text::has_infix(
        lower,
        "impossible"@,
    )
}

/// Whether a worker's name marks it as not to be trusted.
pub open spec fn low_trust_name(worker: Seq<char>) -> bool {
    text::has_prefix(text::lower(worker), "lowtrust"@)
}

/// Whether a submission is suspect: the worker has submitted more than the limit within a
/// second, the payload is impossible, or a worker that is not to be trusted claims an
/// importance above 0.7.
pub open spec fn suspect(atom: NewAtomView, lately: nat) -> bool {
    ||| lately > SPAM_LIMIT
    ||| impossible_payload(atom.payload_json)
    ||| low_trust_name(atom.worker) && single::with_bits(SEVEN_TENTHS_BITS).below(
        atom.importance.value(),
    )
}

/// Whether a payload talks of impossible values.
pub fn is_impossible_payload(payload: &str) -> (r: bool)
    ensures
        r == impossible_payload(payload@),
{
    let lower = text::to_lower(payload);
    text::contains(lower.as_str(), "nan") || text::contains(lower.as_str(), "infinity")
        || text::contains(lower.as_str(), "impossible")
}

/// Whether a worker's name marks it as not to be trusted.
pub fn low_trust(worker: &WorkerKey) -> (r: bool)
    ensures
        r == low_trust_name(worker@),
{
    text::starts_with(text::to_lower(worker.text()).as_str(), "lowtrust")
}

/// Whether a submission is suspect, given how many the worker made lately.
pub fn is_suspect(atom: &NewAtom, lately: usize) -> (r: bool)
    ensures
        r == suspect(atom@, lately as nat),
{
    let bar = Single::from_bits(SEVEN_TENTHS_BITS);
    assert(bar == single::with_bits(SEVEN_TENTHS_BITS));
    lately > SPAM_LIMIT || is_impossible_payload(atom.payload_json.as_str()) || low_trust(
        &atom.worker,
    ) && bar.is_below(atom.importance.get())
}

/// The list with a text at its end, unless the text is in it already.
pub open spec fn with_text(texts: Seq<Seq<char>>, t: Seq<char>) -> Seq<Seq<char>> {
    if texts.contains(t) {
        texts
    } else {
        texts.push(t)
    }
}

/// A submission set apart: in the quarantine of its world, flagged and labelled.
pub open spec fn set_apart(atom: NewAtomView) -> NewAtomView {
    NewAtomView {
        world: "quarantine:"@ + atom.world,
        flags: with_text(atom.flags, "suspect"@),
        labels: with_text(atom.labels, "quarantine"@),
        ..atom
    }
}

/// Whether a world is a quarantine.
pub open spec fn is_quarantine(world: Seq<char>) -> bool {
    text::has_prefix(world, "quarantine:"@)
}

/// Whether a world is a quarantine.
pub fn is_quarantine_world(world: &WorldKey) -> (r: bool)
    ensures
        r == is_quarantine(world@),
{
    text::starts_with(world.text(), "quarantine:")
}

/// Sets a submission apart.
pub fn quarantined(atom: NewAtom) -> (r: NewAtom)
    ensures
        r@ == set_apart(atom@),
{
    let mut next = atom;
    next.world = WorldKey(text::joined("quarantine:", next.world.text()));
    if !lists::has_text(next.flags.as_slice(), "suspect") {
        next.flags.push("suspect".to_owned());
    }
    if !lists::has_text(next.labels.as_slice(), "quarantine") {
        next.labels.push("quarantine".to_owned());
    }
    next
}

/// A submission that was set apart is in a quarantine world, with its content unchanged,
/// flagged `suspect` and labelled `quarantine`.
pub proof fn set_apart_is_quarantined(atom: NewAtomView)
    ensures
        is_quarantine(set_apart(atom).world),
        set_apart(atom).payload_json == atom.payload_json,
        set_apart(atom).worker == atom.worker,
        set_apart(atom).flags.contains("suspect"@),
        set_apart(atom).labels.contains("quarantine"@),
{
    let p = "quarantine:"@;
    assert((p + atom.world).subrange(0, p.len() as int) =~= p);
    if !atom.flags.contains("suspect"@) {
        assert(set_apart(atom).flags.last() == "suspect"@);
    }
    if !atom.labels.contains("quarantine"@) {
        assert(set_apart(atom).labels.last() == "quarantine"@);
    }
}

/// Whatever the worker did before, it has submitted at least once within the second that
/// ends with its submission.
pub proof fn submission_counts(
    suspicions: Map<Seq<char>, Seq<Instant>>,
    worker: Seq<char>,
    now: Instant,
)
    ensures
        noted(suspicions, worker, now).len() >= 1,
        noted(suspicions, worker, now).last() == now,
{
    recent_keeps_last(instants_of(suspicions, worker).push(now), now);
}

proof fn recent_keeps_last(instants: Seq<Instant>, now: Instant)
    requires
        instants.len() > 0,
        instants.last() == now,
    ensures
        recent(instants, now).len() >= 1,
        recent(instants, now).last() == now,
    decreases instants.len(),
{
    if now.since(instants.first()) > NANOS_PER_SEC {
        assert(instants.len() > 1);
        recent_keeps_last(instants.drop_first(), now);
    }
}

}

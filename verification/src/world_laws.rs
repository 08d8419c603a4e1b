//! What the records of a world say of it, which worlds are listed, and when the index of a
//! world is rebuilt.

use vstd::prelude::*;
use vstd::string::*;

use crate::atom;
use crate::atom::{AtomKind, AtomView};
use crate::calls::{GateCall, StorageCall};
use crate::engine;
use crate::engine::{EngineState, ListReplies, ManageReplies};
use crate::index;
use crate::index::IndexView;
use crate::json;
use crate::json::Json;
use crate::lists;
use crate::model::{ErrorView, FilterView, WorldActionView};
use crate::moment;
use crate::moment::Moment;
use crate::single;
use crate::text;
use crate::world_status;
use crate::world_status::TransitionView;

verus! {

broadcast use {
    crate::calls::group_calls,
    crate::lists::group_views,
    crate::single::with_bits_has_bits,
    crate::single::bits_determine,
};

/// The status of a record is what follows `world_status:` in the first label that starts so;
/// a record without such a label has none.
pub proof fn first_status_label_counts(
    before: Seq<Seq<char>>,
    status: Seq<char>,
    after: Seq<Seq<char>>,
)
    requires
        forall|i: int|
            #![trigger before[i]]
            0 <= i < before.len() && before[i].len() >= 13 ==> before[i].subrange(0, 13)
                != "world_status:"@,
    ensures
        world_status::labelled_status(before + seq!["world_status:"@ + status] + after) == Some(
            status,
        ),
        world_status::labelled_status(before) is None,
    decreases before.len(),
{
    reveal_strlit("world_status:");
    let p = "world_status:"@;
    let all = before + seq![p + status] + after;
    if before.len() == 0 {
        assert(all[0] == p + status);
        assert(all[0].subrange(0, 13) =~= p);
        assert(text::after_prefix(all[0], p) =~= status);
    } else {
        let rest = before.drop_first();
        assert forall|i: int|
            #![trigger rest[i]]
            0 <= i < rest.len() && rest[i].len() >= 13 implies rest[i].subrange(0, 13) != p by {
            assert(rest[i] == before[i + 1]);
        }
        first_status_label_counts(rest, status, after);
        assert(all.drop_first() =~= rest + seq![p + status] + after);
        assert(all[0] == before[0]);
    }
}

/// A world has the status of the latest of its records that have one, the first of those that
/// are as late; without such records it has none. A record whose time cannot be read counts as
/// one from the unix epoch.
pub proof fn latest_record_gives_the_status(atoms: Seq<AtomView>, k: int)
    ensures
        match world_status::latest_status(atoms) {
            Some((at, status)) => {
                &&& world_status::status_of(atoms) == Some(status)
                &&& exists|j: int|
                    #![trigger atoms[j]]
                    {
                        &&& 0 <= j < atoms.len()
                        &&& world_status::labelled_status(atoms[j].labels) == Some(status)
                        &&& moment::moment_or_epoch(atoms[j].timestamp) == at
                        &&& 0 <= k < j && world_status::labelled_status(atoms[k].labels) is Some
                            ==> moment::moment_or_epoch(atoms[k].timestamp).total() < at.total()
                    }
                &&& 0 <= k < atoms.len() && world_status::labelled_status(atoms[k].labels) is Some
                    ==> moment::moment_or_epoch(atoms[k].timestamp).total() <= at.total()
            },
            None => {
                &&& world_status::status_of(atoms) is None
                &&& 0 <= k < atoms.len() ==> world_status::labelled_status(atoms[k].labels) is None
            },
        },
    decreases atoms.len(),
{
    if atoms.len() > 0 {
        let rest = atoms.drop_last();
        let n = atoms.len() - 1;
        latest_record_gives_the_status(rest, k);
        if 0 <= k < n {
            assert(rest[k] == atoms[k]);
        }
        assert(atoms[n] == atoms.last());
        match world_status::latest_status(rest) {
            Some((at, status)) => {
                let j = choose|j: int|
                    #![trigger rest[j]]
                    {
                        &&& 0 <= j < rest.len()
                        &&& world_status::labelled_status(rest[j].labels) == Some(status)
                        &&& moment::moment_or_epoch(rest[j].timestamp) == at
                        &&& 0 <= k < j && world_status::labelled_status(rest[k].labels) is Some
                            ==> moment::moment_or_epoch(rest[k].timestamp).total() < at.total()
                    };
                assert(atoms[j] == rest[j]);
            },
            None => {},
        }
    }
}

/// A time that cannot be read counts as the unix epoch, one that can as itself; and times are
/// in the order of their seconds, those of one second in the order of their nanoseconds.
pub proof fn times_are_in_order(ts: Seq<char>, a: Moment, b: Moment)
    requires
        a.nanos < 1_000_000_000,
        b.nanos < 1_000_000_000,
    ensures
        moment::moment_of(ts) matches Some(at) ==> moment::moment_or_epoch(ts) == at,
        moment::moment_of(ts) is None ==> moment::moment_or_epoch(ts).secs == 0
            && moment::moment_or_epoch(ts).nanos == 0,
        a.total() < b.total() <==> a.secs < b.secs || a.secs == b.secs && a.nanos < b.nanos,
        a.total() == b.total() <==> a == b,
{
}

/// Of two times, the milliseconds from the one to the other are the whole ones between them,
/// and none if the other is not the later one.
pub proof fn milliseconds_count_up(from: Moment, to: Moment)
    requires
        (to.secs - from.secs + 1) * 1_000 < u64::MAX,
        from.nanos < 1_000_000_000,
        to.nanos < 1_000_000_000,
    ensures
        ({
            let ms = to.spec_millis_since(from);
            let nanos = (to.secs - from.secs) * 1_000_000_000 + (to.nanos - from.nanos);
            &&& nanos <= 0 ==> ms == 0
            &&& nanos >= 0 ==> ms * 1_000_000 <= nanos < (ms + 1) * 1_000_000
        }),
{
}

/// Numbers compare as numbers do: a negative one is below a positive one, of two positive
/// ones the one of smaller magnitude is below, of two negative ones the one of larger
/// magnitude; the two zeros are equal, and nothing compares with what is not a number.
pub proof fn numbers_compare_by_sign_and_size(a: u32, b: u32)
    requires
        a <= 0x7f80_0000,
        b <= 0x7f80_0000,
    ensures
        ({
            let x = single::with_bits(a);
            let y = single::with_bits(b);
            let minus_x = single::with_bits((a + 0x8000_0000) as u32);
            let minus_y = single::with_bits((b + 0x8000_0000) as u32);
            &&& x.below(y) <==> a < b
            &&& minus_x.below(minus_y) <==> b < a
            &&& minus_x.below(y) <==> a > 0 || b > 0
            &&& !x.below(minus_y)
            &&& x.at_most(y) <==> a <= b
            &&& minus_x.at_most(minus_y) <==> b <= a
            &&& minus_x.at_most(y)
            &&& x.at_most(minus_y) <==> a == 0 && b == 0
        }),
        forall|n: u32|
            0x7f80_0000 < n < 0x8000_0000 ==> {
                let z = #[trigger] single::with_bits(n);
                &&& !z.below(single::with_bits(a)) && !single::with_bits(a).below(z)
                &&& !z.at_most(single::with_bits(a)) && !single::with_bits(a).at_most(z)
            },
{
}

/// The record of an action says of the world what the action does: it becomes active when it
/// is created or resumed, and archived when it is archived; of a new world the description and
/// the labels are recorded too.
pub proof fn record_says_what_the_action_does(
    action: WorldActionView,
    id: Seq<char>,
    now: Seq<char>,
)
    ensures
        ({
            let r = TransitionView::of_action(action).record(id, now);
            let status = if action is Archive { "archived"@ } else { "active"@ };
            &&& r.id == id
            &&& r.world == match action {
                WorldActionView::Create(meta) => meta.world,
                WorldActionView::Archive(world) => world,
                WorldActionView::Resume(world) => world,
            }
            &&& r.worker == "system"@
            &&& r.kind == AtomKind::Reflection
            &&& r.timestamp == now
            &&& r.importance.value().spec_bits() == 0x3dcc_cccd
            &&& r.vector is None
            &&& r.flags.len() == 0
            &&& r.links.len() == 0
            &&& r.labels.len() >= 2
            &&& r.labels[0] == "world_meta"@
            &&& r.labels[1] == "world_status:"@ + status
            &&& action matches WorldActionView::Create(meta) ==> r.labels == seq![
                "world_meta"@,
                "world_status:"@ + status,
            ] + meta.labels
            &&& !(action is Create) ==> r.labels.len() == 2
            &&& world_status::labelled_status(r.labels) == Some(status)
        }),
{
    let t = TransitionView::of_action(action);
    let r = t.record(id, now);
    let meta = seq!["world_meta"@];
    reveal_strlit("world_meta");
    reveal_strlit("world_status:");
    assert(meta[0].len() == 10);
    atom::value_is_had(single::with_bits(0x3dcc_cccd));
    first_status_label_counts(meta, t.next_status, t.extra_labels);
    assert(r.labels =~= meta + seq!["world_status:"@ + t.next_status] + t.extra_labels);
}

/// The payload of the record of an action is a JSON object with the status, the world and the
/// time, and with the description and the labels of a new world if it has any.
pub proof fn record_tells_the_action_in_json(
    action: WorldActionView,
    id: Seq<char>,
    now: Seq<char>,
)
    ensures
        ({
            let t = TransitionView::of_action(action);
            let said = t.said(now);
            let status = if action is Archive { "archived"@ } else { "active"@ };
            &&& t.record(id, now).payload_json == json::json_printed(Json::Object(said))
            &&& said.contains_key("action"@) && said["action"@] == Json::Text(status)
            &&& said.contains_key("world"@) && said["world"@] == Json::Text(
                t.record(id, now).world,
            )
            &&& said.contains_key("at"@) && said["at"@] == Json::Text(now)
            &&& action matches WorldActionView::Create(meta) ==> {
                &&& meta.description matches Some(d) ==> said.contains_key("description"@)
                    && said["description"@] == Json::Text(d)
                &&& meta.description is None ==> !said.contains_key("description"@)
                &&& meta.labels.len() > 0 ==> {
                    &&& said.contains_key("labels"@)
                    &&& said["labels"@] is Array
                    &&& said["labels"@]->Array_0.len() == meta.labels.len()
                    &&& forall|i: int|
                        0 <= i < meta.labels.len() ==> #[trigger] said["labels"@]->Array_0[i]
                            == Json::Text(meta.labels[i])
                }
                &&& meta.labels.len() == 0 ==> !said.contains_key("labels"@)
            }
            &&& !(action is Create) ==> !said.contains_key("description"@) && !said.contains_key(
                "labels"@,
            )
        }),
{
    reveal_strlit("action");
    reveal_strlit("world");
    reveal_strlit("at");
    reveal_strlit("description");
    reveal_strlit("labels");
    assert("action"@[0] == 'a' && "labels"@[0] == 'l');
    assert("action"@ != "labels"@);
    assert("action"@.len() == 6 && "world"@.len() == 5 && "at"@.len() == 2);
    assert("description"@.len() == 11 && "labels"@.len() == 6);
}

/// A world action is put to the gatekeeper before anything else; what it refuses is refused,
/// and changes and reads nothing. Otherwise the storage is asked for the records of the world
/// that are labelled `world_meta`, whatever their kind, time or number, and for nothing else.
pub proof fn action_asks_the_gatekeeper_first(
    state: EngineState,
    action: WorldActionView,
    now: Seq<char>,
    t: ManageReplies,
)
    ensures
        ({
            let world = match action {
                WorldActionView::Create(meta) => meta.world,
                WorldActionView::Archive(world) => world,
                WorldActionView::Resume(world) => world,
            };
            let calls = engine::manage_calls(state, action, now, t);
            let done = engine::managed(state, TransitionView::of_action(action), now, t);
            &&& calls.gate == seq![GateCall::World { action, reply: t.gate }]
            &&& t.gate matches Err(e) ==> done == (state, Err::<(), ErrorView>(e))
                && calls.storage.len() == 0 && calls.stream.len() == 0 && calls.vector.len() == 0
            &&& t.gate is Ok ==> calls.storage.len() >= 1 && calls.storage[0]
                == (StorageCall::Scan {
                world,
                filter: FilterView {
                    world: Some(world),
                    kinds: Seq::empty(),
                    labels: seq!["world_meta"@],
                    flags: Seq::empty(),
                    since: None,
                    until: None,
                    limit: None,
                },
                reply: t.scan,
            })
            &&& calls.embed.len() == 0
            &&& forall|i: int|
                0 < i < calls.storage.len() ==> (#[trigger] calls.storage[i]) is Append
        }),
{
}

/// An action that the gatekeeper lets through is recorded, in a new atom that the storage is
/// given, unless it says nothing new: an archived world is archived again, or an active one is
/// resumed or created with neither a description nor labels.
pub proof fn action_is_recorded_unless_it_says_nothing_new(
    state: EngineState,
    action: WorldActionView,
    now: Seq<char>,
    t: ManageReplies,
)
    requires
        t.gate is Ok,
    ensures
        ({
            let record = TransitionView::of_action(action).record(
                engine::numbered_id(state.next_id),
                now,
            );
            let found = match t.scan {
                Ok(atoms) => world_status::status_of(atoms),
                Err(_) => None,
            };
            let calls = engine::manage_calls(state, action, now, t);
            let (after, r) = engine::managed(state, TransitionView::of_action(action), now, t);
            let nothing_new = match action {
                WorldActionView::Create(meta) => found == Some("active"@) && meta.description
                    is None && meta.labels.len() == 0,
                WorldActionView::Archive(_) => found == Some("archived"@),
                WorldActionView::Resume(_) => found == Some("active"@),
            };
            &&& nothing_new ==> calls.storage.len() == 1 && after == state && r is Ok
            &&& !nothing_new ==> {
                &&& calls.storage.len() == 2
                &&& calls.storage[1] == (StorageCall::Append {
                    atom: record,
                    reply: t.store.append,
                })
                &&& t.store.append is Err ==> r == t.store.append
                &&& t.store.append is Ok && moment::moment_of(now) is None ==> r is Err
                &&& t.store.append is Ok && moment::moment_of(now) is Some ==> r
                    == t.store.publish
                &&& state.next_id < u64::MAX ==> after.next_id == state.next_id + 1
            }
        }),
{
}

/// The worlds are listed in dictionary order, each as often as the storage names it; without
/// the archived ones, those are left out whose latest record says that they are archived, and
/// no others. The records are asked for world by world, the ones labelled `world_meta`.
pub proof fn worlds_are_listed_unless_archived(
    include_archived: bool,
    t: ListReplies,
    world: Seq<char>,
)
    requires
        engine::lists_rightly(include_archived, t),
        t.worlds is Ok,
    ensures
        engine::listed(include_archived, t) is Ok,
        engine::listed(include_archived, t) matches Ok(r) ==> {
            &&& include_archived ==> r.to_multiset() == t.worlds->Ok_0.to_multiset()
            &&& include_archived ==> engine::list_calls(include_archived, t).storage == seq![
                StorageCall::Worlds { reply: t.worlds },
            ]
            &&& !include_archived ==> (r.contains(world) <==> exists|i: int|
                #![trigger t.scans[i]]
                {
                    &&& 0 <= i < t.sorted.len()
                    &&& t.sorted[i] == world
                    &&& t.scans[i] is Err || world_status::status_of(t.scans[i]->Ok_0) != Some(
                        "archived"@,
                    )
                })
            &&& forall|i: int, j: int|
                0 <= i < j < r.len() ==> !text::before(#[trigger] r[j], #[trigger] r[i])
        },
{
    let statuses = engine::statuses_in(t.scans);
    if !include_archived {
        let r = engine::active_among(t.sorted, statuses);
        engine::archived_worlds_are_hidden(t.sorted, statuses, world);
        active_worlds_stay_in_order(t.sorted, statuses);
        if r.contains(world) {
            let i = choose|i: int|
                0 <= i < t.sorted.len() && t.sorted[i] == world && !world_status::is_archived(
                    #[trigger] statuses[i],
                );
            no_atoms_give_no_status();
            assert(t.scans[i] is Err || world_status::status_of(t.scans[i]->Ok_0) != Some(
                "archived"@,
            ));
        }
        if exists|i: int|
            #![trigger t.scans[i]]
            {
                &&& 0 <= i < t.sorted.len()
                &&& t.sorted[i] == world
                &&& t.scans[i] is Err || world_status::status_of(t.scans[i]->Ok_0) != Some(
                    "archived"@,
                )
            } {
            let i = choose|i: int|
                #![trigger t.scans[i]]
                {
                    &&& 0 <= i < t.sorted.len()
                    &&& t.sorted[i] == world
                    &&& t.scans[i] is Err || world_status::status_of(t.scans[i]->Ok_0) != Some(
                        "archived"@,
                    )
                };
            no_atoms_give_no_status();
            assert(!world_status::is_archived(statuses[i]));
        }
    }
}

proof fn no_atoms_give_no_status()
    ensures
        world_status::status_of(Seq::empty()) is None,
{
}

proof fn active_worlds_stay_in_order(worlds: Seq<Seq<char>>, statuses: Seq<Option<Seq<char>>>)
    requires
        worlds.len() == statuses.len(),
        lists::is_sorted(worlds),
    ensures
        lists::is_sorted(engine::active_among(worlds, statuses)),
    decreases worlds.len(),
{
    if worlds.len() > 0 {
        let ws = worlds.drop_last();
        let ss = statuses.drop_last();
        assert forall|i: int, j: int| 0 <= i < j < ws.len() implies !text::before(
            #[trigger] ws[j],
            #[trigger] ws[i],
        ) by {
            assert(!text::before(worlds[j], worlds[i]));
        }
        active_worlds_stay_in_order(ws, ss);
        let before = engine::active_among(ws, ss);
        let after = engine::active_among(worlds, statuses);
        assert forall|i: int, j: int| 0 <= i < j < after.len() implies !text::before(
            #[trigger] after[j],
            #[trigger] after[i],
        ) by {
            assert(after[i] == before[i]);
            if j < before.len() {
                assert(after[j] == before[j]);
            } else {
                engine::archived_worlds_are_hidden(ws, ss, before[i]);
                assert(engine::unarchived(ws, ss, false).contains(before[i]));
                let k = choose|k: int|
                    0 <= k < ws.len() && ws[k] == before[i] && !world_status::is_archived(
                        #[trigger] ss[k],
                    );
                assert(worlds[k] == before[i]);
                assert(worlds[worlds.len() - 1] == after[j]);
            }
        }
    }
}

/// For its status every listed world is scanned once, in the order of the list, for the
/// records labelled `world_meta`.
pub proof fn listing_scans_each_world(
    worlds: Seq<Seq<char>>,
    replies: Seq<std::result::Result<Seq<AtomView>, ErrorView>>,
    i: int,
)
    requires
        replies.len() <= worlds.len(),
    ensures
        engine::status_calls(worlds, replies).storage.len() == replies.len(),
        0 <= i < replies.len() ==> engine::status_calls(worlds, replies).storage[i]
            == (StorageCall::Scan {
            world: worlds[i],
            filter: FilterView {
                world: Some(worlds[i]),
                kinds: Seq::empty(),
                labels: seq!["world_meta"@],
                flags: Seq::empty(),
                since: None,
                until: None,
                limit: None,
            },
            reply: replies[i],
        }),
    decreases replies.len(),
{
    if replies.len() > 0 {
        listing_scans_each_world(worlds, replies.drop_last(), i);
    }
}

/// A world whose index was never built gets a ready one for the version of the embedder; one
/// built for another version is rebuilt, with the next number, and is ready; one that was
/// built for this version stays, and so do those of other worlds.
pub proof fn index_follows_the_embedder(
    state: Map<Seq<char>, IndexView>,
    world: Seq<char>,
    version: Seq<char>,
    now: Seq<char>,
    other: Seq<char>,
)
    requires
        other != world,
    ensures
        ({
            let after = index::refreshed(state, world, version, now);
            &&& after.contains_key(world)
            &&& after[world].embedder_version == version
            &&& after.get(other) == state.get(other)
            &&& state.contains_key(world) && state[world].embedder_version == version ==> after
                == state
            &&& !state.contains_key(world) ==> {
                &&& after[world].world == world
                &&& after[world].version == 1
                &&& after[world].last_rebuilt == now
                &&& after[world].ready && !after[world].rebuilding
                &&& after[world].progress == 0x3f80_0000
                &&& after[world].started_at is None && after[world].last_progress is None
            }
            &&& state.contains_key(world) && state[world].embedder_version != version ==> {
                &&& after[world].world == state[world].world
                &&& state[world].version < u64::MAX ==> after[world].version
                    == state[world].version + 1
                &&& after[world].last_rebuilt == now
                &&& after[world].ready && !after[world].rebuilding
                &&& after[world].progress == 0x3f80_0000
                &&& after[world].started_at == Some(now) && after[world].last_progress == Some(
                    now,
                )
            }
            &&& engine::version_calls(state, world, version, Ok(())).vector.len() == if
                state.contains_key(world) && state[world].embedder_version != version {
                1nat
            } else {
                0nat
            }
        }),
{
}

/// Of the lag of the indexes those count that are not ready or are being rebuilt, from their
/// last sign of progress: their last progress, or else their start, or else the last time they
/// were rebuilt.
pub proof fn unsettled_index_lags(i: IndexView, now: Moment)
    ensures
        ({
            let sign = match i.last_progress {
                Some(ts) => ts,
                None => match i.started_at {
                    Some(ts) => ts,
                    None => i.last_rebuilt,
                },
            };
            &&& index::lags(i) <==> (!i.ready || i.rebuilding) && moment::moment_of(sign) is Some
            &&& moment::moment_of(sign) matches Some(at) ==> index::lag_of(i, now)
                == now.spec_millis_since(at)
        }),
{
}

/// The longest lag is that of some index that lags, and no index lags longer; there is none
/// exactly if no index lags.
pub proof fn longest_lag_is_the_longest(
    state: Map<Seq<char>, IndexView>,
    now: Moment,
    lag: Option<u64>,
    w: Seq<char>,
)
    requires
        index::is_longest_lag(state, now, lag),
    ensures
        state.contains_key(w) && index::lags(state[w]) ==> lag is Some && index::lag_of(
            state[w],
            now,
        ) <= lag->0,
        lag matches Some(ms) ==> exists|v: Seq<char>| #[trigger]
            state.contains_key(v) && index::lags(state[v]) && index::lag_of(state[v], now) == ms,
{
}

/// The longest lag of one index is its own.
pub proof fn lag_of_one_index_is_its_own(world: Seq<char>, i: IndexView, now: Moment)
    requires
        index::lags(i),
    ensures
        index::is_longest_lag(map![world => i], now, Some(index::lag_of(i, now))),
        !index::is_longest_lag(map![world => i], now, None),
{
    let m = map![world => i];
    assert(m.contains_key(world) && m[world] == i);
}

}

//! What a node says of its health, which worlds it knows of, and which policy it is asked for.

use vstd::prelude::*;
use vstd::string::*;

use crate::index::IndexView;
use crate::json;
use crate::json::Json;
use crate::model::WorldActionView;
use crate::node;
use crate::node::{ApiError, DiskReading, WorldPolicyRequest};
use crate::policy;
use crate::text;

verus! {

broadcast use crate::lists::group_views;

/// Of a disk whose size is known and is not nothing, what is not available is used; where more
/// is available than there is, nothing is. Of any other disk nothing is known.
pub proof fn used_space_is_what_is_not_available(total: u64, avail: u64)
    ensures
        total == 0 ==> node::used_of(Some(total), Some(avail)) is None,
        total > 0 && avail <= total ==> node::used_of(Some(total), Some(avail)) == Some(
            (total - avail) as u64,
        ),
        total > 0 && avail > total ==> node::used_of(Some(total), Some(avail)) == Some(0u64),
        node::used_of(None, Some(avail)) is None,
        node::used_of(Some(total), None) is None,
        node::used_of(None, None) is None,
{
}

/// A node is healthy exactly if its disk can be read and is less full than the threshold, and
/// no index has lagged for more than the given seconds; what is wrong is told, a lag before
/// the disk. The readings are passed on.
pub proof fn health_is_degraded_by_disk_and_lag(
    disk: Option<DiskReading>,
    lag_ms: Option<u64>,
    warn_seconds: u64,
)
    requires
        warn_seconds * 1000 <= u64::MAX,
    ensures
        ({
            let h = node::health_of(disk, lag_ms, warn_seconds);
            let lagging = lag_ms is Some && lag_ms->0 > warn_seconds * 1000;
            let full = disk is Some && disk->0.threshold.at_most(disk->0.usage.percent_used);
            &&& h.status == "ready"@ <==> disk is Some && !full && !lagging
            &&& h.status == "ready"@ || h.status == "degraded"@
            &&& h.message is None <==> h.status == "ready"@
            &&& h.disk_usage is Some <==> disk is Some
            &&& disk matches Some(d) ==> h.disk_usage == Some(d.usage)
            &&& h.index_rebuild_lag_ms == lag_ms
            &&& lagging ==> h.message == Some(
                "index rebuild lag "@ + text::decimal(lag_ms->0 as nat) + "ms exceeds "@
                    + text::decimal((warn_seconds * 1000) as nat) + "ms threshold"@,
            )
            &&& !lagging && disk is None ==> h.message == Some("unable to read disk usage"@)
            &&& !lagging && full ==> h.message == Some(
                "disk usage "@ + disk->0.percent_text@ + "% >= "@ + disk->0.threshold_text@ + "%"@,
            )
        }),
{
    reveal_strlit("ready");
    reveal_strlit("degraded");
    assert("ready"@.len() == 5 && "degraded"@.len() == 8);
}

/// A node is ready exactly if its disk is not known to be too full, its storage is available,
/// and either every index is ready or they need not be. Its health is degraded by the disk and
/// the storage alone; and an index that is not ready always shows a lag.
pub proof fn node_is_ready_with_disk_storage_and_indexes(
    disk: Option<DiskReading>,
    lag_ms: Option<u64>,
    storage_ok: bool,
    indexes: Seq<IndexView>,
    require_indexes: bool,
    i: int,
)
    ensures
        ({
            let (code, h) = node::readiness_of(disk, lag_ms, storage_ok, indexes, require_indexes);
            let full = disk is Some && disk->0.threshold.at_most(disk->0.usage.percent_used);
            let all_ready = forall|j: int|
                0 <= j < indexes.len() ==> (#[trigger] indexes[j]).ready;
            &&& code == 200 || code == 503
            &&& full || !storage_ok ==> code == 503 && h.status == "degraded"@
            &&& !full && storage_ok ==> h.status == "ready"@
            &&& !full && storage_ok && !require_indexes ==> code == 200
            &&& !full && storage_ok && all_ready ==> code == 200
            &&& require_indexes && 0 <= i < indexes.len() && !indexes[i].ready ==> code == 503
            &&& 0 <= i < indexes.len() && !indexes[i].ready ==> h.index_rebuild_lag_ms is Some
            &&& lag_ms is Some || all_ready ==> h.index_rebuild_lag_ms == lag_ms
            &&& disk matches Some(d) ==> h.disk_usage == Some(d.usage)
            &&& disk is None ==> h.disk_usage is None
            &&& !storage_ok ==> h.message == Some("storage unavailable"@)
            &&& storage_ok && full ==> h.message == Some(
                "disk usage "@ + disk->0.percent_text@ + "% >= "@ + disk->0.threshold_text@ + "%"@,
            )
            &&& storage_ok && disk is None ==> h.message == Some("disk usage unavailable"@)
            &&& storage_ok && disk is Some && !full && 0 <= i < indexes.len() && !indexes[i].ready
                ==> h.message == Some("index not ready yet"@)
            &&& storage_ok && disk is Some && !full && all_ready ==> h.message is None
        }),
{
}

/// Indexes need not be ready only where the variable says `0`, or `false` in whatever case.
pub proof fn indexes_are_wanted_unless_switched_off(value: Seq<char>)
    ensures
        node::wants_indexes(None),
        !node::wants_indexes(Some("0"@)),
        text::lower(value) == "false"@ ==> !node::wants_indexes(Some(value)),
        value != "0"@ && text::lower(value) != "false"@ ==> node::wants_indexes(Some(value)),
{
}

/// A request with a known word asks for what the word says, of the world that it names; any
/// other word is none.
pub proof fn words_name_world_actions(
    word: Seq<char>,
    world: Seq<char>,
    description: Option<Seq<char>>,
    labels: Seq<Seq<char>>,
)
    ensures
        node::action_of("create"@, world, description, labels) matches Some(
            WorldActionView::Create(meta),
        ) && meta.world == world && meta.description == description && meta.labels == labels,
        node::action_of("archive"@, world, description, labels) == Some(
            WorldActionView::Archive(world),
        ),
        node::action_of("resume"@, world, description, labels) == Some(
            WorldActionView::Resume(world),
        ),
        word != "create"@ && word != "archive"@ && word != "resume"@ ==> node::action_of(
            word,
            world,
            description,
            labels,
        ) is None,
{
    reveal_strlit("create");
    reveal_strlit("archive");
    reveal_strlit("resume");
    assert("create"@[0] == 'c' && "archive"@[0] == 'a' && "resume"@[0] == 'r');
}

/// A node knows of a world after creating or resuming it and no longer after archiving it;
/// what it knows of other worlds stays.
pub proof fn known_worlds_follow_the_actions(
    worlds: Seq<Seq<char>>,
    world: Seq<char>,
    other: Seq<char>,
)
    requires
        other != world,
    ensures
        node::known_after(worlds, "create"@, world).contains(world),
        node::known_after(worlds, "resume"@, world).contains(world),
        !node::known_after(worlds, "archive"@, world).contains(world),
        node::known_after(worlds, "create"@, world).contains(other) <==> worlds.contains(other),
        node::known_after(worlds, "resume"@, world).contains(other) <==> worlds.contains(other),
        node::known_after(worlds, "archive"@, world).contains(other) <==> worlds.contains(other),
        worlds.contains(world) ==> node::known_after(worlds, "create"@, world) == worlds,
{
    reveal_strlit("create");
    reveal_strlit("archive");
    reveal_strlit("resume");
    assert("create"@[0] == 'c' && "archive"@[0] == 'a' && "resume"@[0] == 'r');
    assert("archive"@ != "create"@ && "archive"@ != "resume"@ && "resume"@ != "create"@);
    noted_world_is_known(worlds, world, other);
    archived_world_is_left_out(worlds, world, world);
    archived_world_is_left_out(worlds, world, other);
}

proof fn archived_world_is_left_out(worlds: Seq<Seq<char>>, world: Seq<char>, other: Seq<char>)
    ensures
        node::known_after(worlds, "archive"@, world).contains(other) <==> worlds.contains(other)
            && other != world,
    decreases worlds.len(),
{
    reveal_strlit("create");
    reveal_strlit("archive");
    reveal_strlit("resume");
    assert("create"@[0] == 'c' && "archive"@[0] == 'a' && "resume"@[0] == 'r');
    reveal(Seq::filter);
    let after = node::known_after(worlds, "archive"@, world);
    if worlds.len() > 0 {
        let rest = worlds.drop_last();
        let before = node::known_after(rest, "archive"@, world);
        archived_world_is_left_out(rest, world, other);
        assert(worlds =~= rest.push(worlds.last()));
        if worlds.last() != world {
            assert(after == before.push(worlds.last()));
            assert(after.last() == worlds.last());
        } else {
            assert(after == before);
        }
        if before.contains(other) {
            let i = choose|i: int| 0 <= i < before.len() && before[i] == other;
            assert(after[i] == other);
        }
        if rest.contains(other) {
            let i = choose|i: int| 0 <= i < rest.len() && rest[i] == other;
            assert(worlds[i] == other);
        }
        if after.contains(other) && !before.contains(other) {
            let i = choose|i: int| 0 <= i < after.len() && after[i] == other;
            assert(i == before.len());
        }
        if worlds.contains(other) && !rest.contains(other) {
            let i = choose|i: int| 0 <= i < worlds.len() && worlds[i] == other;
            if i < rest.len() {
                assert(rest[i] == other);
            }
        }
    }
}

proof fn noted_world_is_known(worlds: Seq<Seq<char>>, world: Seq<char>, other: Seq<char>)
    ensures
        node::noted(worlds, world).contains(world),
        other != world ==> (node::noted(worlds, world).contains(other) <==> worlds.contains(other)),
        worlds.contains(other) ==> node::noted(worlds, world).contains(other),
{
    let after = node::noted(worlds, world);
    if !worlds.contains(world) {
        assert(after.last() == world);
    }
    if worlds.contains(other) {
        let i = choose|i: int| 0 <= i < worlds.len() && worlds[i] == other;
        assert(after[i] == other);
    }
    if after.contains(other) && other != world {
        let i = choose|i: int| 0 <= i < after.len() && after[i] == other;
        assert(worlds[i] == other);
    }
}

/// Merging the worlds that a node knows of into those listed gives every listed one and every
/// other that is not archived, and no more.
pub proof fn merged_worlds_are_listed_or_active(
    listed: Seq<Seq<char>>,
    others: Seq<Seq<char>>,
    archived: Seq<bool>,
    world: Seq<char>,
)
    requires
        archived.len() >= others.len(),
    ensures
        node::merged_worlds(listed, others, archived).contains(world) <==> listed.contains(world)
            || exists|i: int|
            0 <= i < others.len() && others[i] == world && !#[trigger] archived[i],
    decreases others.len(),
{
    if others.len() > 0 {
        let rest = others.drop_last();
        let n = others.len() - 1;
        merged_worlds_are_listed_or_active(listed, rest, archived, world);
        let before = node::merged_worlds(listed, rest, archived);
        noted_world_is_known(before, others.last(), world);
        if exists|i: int| 0 <= i < rest.len() && rest[i] == world && !#[trigger] archived[i] {
            let i = choose|i: int|
                0 <= i < rest.len() && rest[i] == world && !#[trigger] archived[i];
            assert(others[i] == world);
        }
        if exists|i: int| 0 <= i < others.len() && others[i] == world && !#[trigger] archived[i] {
            let i = choose|i: int|
                0 <= i < others.len() && others[i] == world && !#[trigger] archived[i];
            if i < n {
                assert(rest[i] == world);
            }
        }
        if !archived[n] && others[n] == world {
            assert(others.last() == world);
        }
    }
}

/// Of the worlds that a node knows of, those are asked about that are not listed.
pub proof fn unlisted_worlds_are_the_others(
    listed: Seq<Seq<char>>,
    extra: Seq<Seq<char>>,
    world: Seq<char>,
)
    ensures
        node::unlisted(listed, extra).contains(world) <==> extra.contains(world)
            && !listed.contains(world),
{
    let p = |w: Seq<char>| !listed.contains(w);
    let r = node::unlisted(listed, extra);
    if extra.contains(world) && p(world) {
        let i = choose|i: int| 0 <= i < extra.len() && extra[i] == world;
        extra.lemma_filter_contains(p, i);
    }
    if r.contains(world) {
        let i = choose|i: int| 0 <= i < r.len() && r[i] == world;
        extra.lemma_filter_pred(p, i);
        extra.lemma_filter_contains_rev(p, world);
    }
}

/// A request for the policy of a world is written into the policy world of it, or into the
/// world itself where it is one of policies.
pub proof fn policy_is_written_in_the_policy_world(r: WorldPolicyRequest)
    ensures
        r.world@.len() >= 7 && r.world@.subrange(0, 7) == "policy:"@ ==> r.policy_world()
            == r.world@,
        r.world@.len() >= 7 && r.world@.subrange(r.world@.len() - 7, r.world@.len() as int)
            == "/policy"@ ==> r.policy_world() == r.world@,
        (r.world@.len() < 7 || r.world@.subrange(0, 7) != "policy:"@ && r.world@.subrange(
            r.world@.len() - 7,
            r.world@.len() as int,
        ) != "/policy"@) ==> r.policy_world() == policy::policy_world(r.world@)
            && r.policy_world() == "policy:"@ + r.world@,
{
    reveal_strlit("policy:");
    reveal_strlit("/policy");
}

/// The labels of a request say the retention, the least importance, whom the world may be
/// replicated to and whom not, each in a label of its own and in this order; and nothing else.
pub proof fn policy_labels_say_what_is_asked(r: WorldPolicyRequest, i: int)
    ensures
        ({
            let labels = r.labels();
            let days: int = if r.retention_days is Some { 1 } else { 0 };
            let least: int = if r.min_importance is Some { 1 } else { 0 };
            let allow = r.replication_allow@.len();
            let deny = r.replication_deny@.len();
            &&& labels.len() == days + least + allow + deny
            &&& r.retention_days matches Some(d) ==> labels[0] == "policy:retention_days="@
                + text::decimal(d as nat)
            &&& r.min_importance matches Some(m) ==> labels[days] == "policy:min_importance="@
                + m.shown@
            &&& 0 <= i < allow ==> labels[days + least + i] == "policy:replication_allow="@
                + r.replication_allow@[i]@
            &&& 0 <= i < deny ==> labels[days + least + allow + i] == "policy:replication_deny="@
                + r.replication_deny@[i]@
        }),
{
}

/// The payload of a request is a JSON object that names the policy world and the world meant,
/// and says what is asked, nothing where nothing is.
pub proof fn policy_payload_says_what_is_asked(r: WorldPolicyRequest, i: int)
    ensures
        ({
            let said = r.said();
            &&& r.payload() == json::json_printed(Json::Object(said))
            &&& said.contains_key("policy_world"@) && said["policy_world"@] == Json::Text(
                r.policy_world(),
            )
            &&& said.contains_key("target_world"@) && said["target_world"@] == Json::Text(
                r.world@,
            )
            &&& said.contains_key("retention_days"@)
            &&& r.retention_days matches Some(d) ==> said["retention_days"@] == Json::Number(
                json::whole_number(d),
            )
            &&& r.retention_days is None ==> said["retention_days"@] is Null
            &&& said.contains_key("min_importance"@)
            &&& r.min_importance matches Some(m) ==> said["min_importance"@] == m.json@
            &&& r.min_importance is None ==> said["min_importance"@] is Null
            &&& said.contains_key("replication_allow"@)
            &&& said["replication_allow"@] is Array
            &&& said["replication_allow"@]->Array_0.len() == r.replication_allow@.len()
            &&& 0 <= i < r.replication_allow@.len() ==> said["replication_allow"@]->Array_0[i]
                == Json::Text(r.replication_allow@[i]@)
            &&& said.contains_key("replication_deny"@)
            &&& said["replication_deny"@] is Array
            &&& said["replication_deny"@]->Array_0.len() == r.replication_deny@.len()
            &&& 0 <= i < r.replication_deny@.len() ==> said["replication_deny"@]->Array_0[i]
                == Json::Text(r.replication_deny@[i]@)
        }),
{
    reveal_strlit("policy_world");
    reveal_strlit("target_world");
    reveal_strlit("retention_days");
    reveal_strlit("min_importance");
    reveal_strlit("replication_allow");
    reveal_strlit("replication_deny");
    assert("policy_world"@[0] == 'p' && "target_world"@[0] == 't');
    assert("retention_days"@[0] == 'r' && "min_importance"@[0] == 'm');
    assert("retention_days"@.len() == 14 && "min_importance"@.len() == 14);
    assert("replication_allow"@.len() == 17 && "replication_deny"@.len() == 16);
    assert("policy_world"@.len() == 12 && "target_world"@.len() == 12);
}

/// The configuration is read from the path behind the first flag, where one follows it.
pub proof fn path_follows_the_first_flag(
    before: Seq<Seq<char>>,
    flag: Seq<char>,
    path: Seq<char>,
    after: Seq<Seq<char>>,
)
    requires
        !before.contains(flag),
    ensures
        node::path_after(before + seq![flag, path] + after, flag) == path,
        node::path_after(before.push(flag), flag) == "config.toml"@,
        node::path_after(before, flag) == "config.toml"@,
{
    let all = before + seq![flag, path] + after;
    let n = before.len() as int;
    assert(all[n] == flag && all[n + 1] == path);
    assert(all.contains(flag));
    all.index_of_first_ensures(flag);
    let k = all.index_of_first(flag)->0;
    if k < n {
        assert(before[k] == flag);
    }
    let short = before.push(flag);
    assert(short[n] == flag);
    short.index_of_first_ensures(flag);
    let j = short.index_of_first(flag)->0;
    if j < n {
        assert(before[j] == flag);
    }
}

/// A request that cannot be read is answered with 400, and a failure of the engine with 500.
pub proof fn errors_have_their_codes(e: ApiError)
    ensures
        e.code() == if e is BadRequest { 400u16 } else { 500u16 },
        e matches ApiError::BadRequest(s) ==> e.says() == s@,
        e matches ApiError::Engine(s) ==> e.says() == s@,
{
}

}

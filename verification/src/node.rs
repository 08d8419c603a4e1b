//! What a node decides about requests: its health, the worlds it knows of, and the atoms that
//! hold the policy of a world.

use vstd::prelude::*;
use vstd::string::*;

use crate::atom::{has_world, AtomKind, Importance, Link, Timestamp, WorkerKey, WorldKey};
use crate::calls::EmbedCall;
use crate::engine::Embedder;
use crate::index::{IndexMetadata, IndexView};
use crate::json;
use crate::json::{Json, JsonMap, JsonValue};
use crate::lists;
use crate::lists::{duplicate_all, duplicate_opt};
use crate::model;
use crate::model::{NewAtom, NewAtomView, Result, WorldAction, WorldActionView, WorldMeta, WorldMetaView};
use crate::policy;
use crate::single::Single;
use crate::text;
use crate::world_status::sort_worlds;

verus! {

broadcast use crate::lists::group_views;

/// Why a request is refused.
#[derive(Debug)]
pub enum ApiError {
    Engine(String),
    BadRequest(String),
}

impl ApiError {
    /// The status code of the reply.
    pub open spec fn code(self) -> u16 {
        match self {
            ApiError::Engine(_) => 500,
            ApiError::BadRequest(_) => 400,
        }
    }

    /// What the error says.
    pub open spec fn says(self) -> Seq<char> {
        match self {
            ApiError::Engine(s) => s@,
            ApiError::BadRequest(s) => s@,
        }
    }

    /// The status code of the reply.
    pub fn status(&self) -> (r: u16)
        ensures
            r == self.code(),
    {
        match self {
            ApiError::Engine(_) => 500,
            ApiError::BadRequest(_) => 400,
        }
    }

    /// What the error says.
    pub fn message(&self) -> (r: String)
        ensures
            r@ == self.says(),
    {
        match self {
            ApiError::Engine(s) => s.clone(),
            ApiError::BadRequest(s) => s.clone(),
        }
    }
}

/// Turns texts into vectors without looking at them: there is never a vector.
pub struct DummyEmbedder {
    calls: Ghost<Seq<EmbedCall>>,
}

impl DummyEmbedder {
    pub fn new() -> (r: Self)
        ensures
            r.history() == Seq::<EmbedCall>::empty(),
    {
        DummyEmbedder { calls: Ghost(Seq::empty()) }
    }
}

impl Embedder for DummyEmbedder {
    closed spec fn history(&self) -> Seq<EmbedCall> {
        self.calls@
    }

    fn embed(&mut self, payload_json: &str) -> (r: Result<Option<Vec<Single>>>)
        ensures
            r == Ok::<Option<Vec<Single>>, model::DwbaseError>(None),
    {
        let ghost reply = Ok::<Option<Seq<Single>>, model::ErrorView>(None);
        self.calls = Ghost(self.calls@.push(EmbedCall { payload: payload_json@, reply }));
        Ok(None)
    }

    fn model_version(&self) -> (r: &'static str)
        ensures
            r@ == "dummy"@,
    {
        "dummy"
    }
}

/// Which embedder a node has.
#[derive(Clone, Copy, Debug, PartialEq, Eq, Structural)]
pub enum EmbedderConfig {
    Dummy,
}

impl Default for EmbedderConfig {
    fn default() -> (r: Self)
        ensures
            r == EmbedderConfig::Dummy,
    {
        EmbedderConfig::Dummy
    }
}

impl EmbedderConfig {
    /// The embedder of the name, if there is one.
    pub fn named(name: &str) -> (r: Option<EmbedderConfig>)
        ensures
            r == if name@ == "dummy"@ {
                Some(EmbedderConfig::Dummy)
            } else {
                None
            },
    {
        if text::same(name, "dummy") {
            Some(EmbedderConfig::Dummy)
        } else {
            None
        }
    }

    pub fn build(&self) -> (r: DummyEmbedder)
        ensures
            r.history() == Seq::<EmbedCall>::empty(),
    {
        match self {
            EmbedderConfig::Dummy => DummyEmbedder::new(),
        }
    }
}

/// `0.9`, rounded to single precision.
pub const NINE_TENTHS_BITS: u32 = 0x3f66_6666;

/// `0.2`, rounded to single precision.
pub const FIFTH_BITS: u32 = 0x3e4c_cccd;

/// When a node counts as degraded.
#[derive(Clone, Copy, Debug)]
pub struct HealthConfig {
    /// Mark degraded when disk usage exceeds this fraction (0.0-1.0).
    pub disk_usage_degraded: Single,
    /// Mark degraded when index rebuild lag exceeds this many seconds.
    pub index_rebuild_warn_seconds: u64,
}

impl Default for HealthConfig {
    fn default() -> (r: Self)
        ensures
            r.disk_usage_degraded.spec_bits() == NINE_TENTHS_BITS,
            r.index_rebuild_warn_seconds == 60,
    {
        HealthConfig {
            disk_usage_degraded: Single::from_bits(NINE_TENTHS_BITS),
            index_rebuild_warn_seconds: 60,
        }
    }
}

/// How full the disk is.
#[derive(Clone, Copy, Debug, PartialEq, Eq, Structural)]
pub struct DiskUsage {
    pub used_bytes: u64,
    pub total_bytes: u64,
    pub percent_used: Single,
}

/// How many bytes of the disk are used, if anything is known of it: what is not available.
pub open spec fn used_of(total: Option<u64>, avail: Option<u64>) -> Option<u64> {
    match (total, avail) {
        (Some(t), Some(a)) => if t == 0 {
            None
        } else if a <= t {
            Some((t - a) as u64)
        } else {
            Some(0)
        },
        _ => None,
    }
}

/// How full the disk is; `percent` gives the percentage of a part of a whole.
pub fn disk_usage<F: Fn(u64, u64) -> Single>(
    total: Option<u64>,
    avail: Option<u64>,
    percent: &F,
) -> (r: Option<DiskUsage>)
    requires
        forall|a: u64, b: u64| call_requires(*percent, (a, b)),
    ensures
        r is Some <==> used_of(total, avail) is Some,
        r matches Some(d) ==> Some(d.used_bytes) == used_of(total, avail) && Some(d.total_bytes)
            == total && call_ensures(*percent, (d.used_bytes, d.total_bytes), d.percent_used),
{
    match (total, avail) {
        (Some(total_bytes), Some(avail_bytes)) => {
            if total_bytes == 0 {
                return None;
            }
            let used_bytes: u64 = if avail_bytes <= total_bytes {
                total_bytes - avail_bytes
            } else {
                0
            };
            let percent_used = percent(used_bytes, total_bytes);
            Some(DiskUsage { used_bytes, total_bytes, percent_used })
        },
        _ => None,
    }
}

/// How full the disk is and may be, in percent, also as texts.
#[derive(Debug)]
pub struct DiskReading {
    pub usage: DiskUsage,
    pub threshold: Single,
    pub percent_text: String,
    pub threshold_text: String,
}

impl DiskReading {
    /// Whether the disk is too full.
    pub open spec fn is_full(self) -> bool {
        self.threshold.at_most(self.usage.percent_used)
    }

    /// What is said of a disk that is too full.
    pub open spec fn warning(self) -> Seq<char> {
        "disk usage "@ + self.percent_text@ + "% >= "@ + self.threshold_text@ + "%"@
    }

    fn warning_text(&self) -> (r: String)
        ensures
            r@ == self.warning(),
    {
        let mut out = text::joined3("disk usage ", self.percent_text.as_str(), "% >= ");
        out.append(self.threshold_text.as_str());
        out.append("%");
        out
    }
}

/// The health of a node.
#[derive(Debug)]
pub struct HealthResponse {
    pub status: String,
    pub disk_usage: Option<DiskUsage>,
    pub index_rebuild_lag_ms: Option<u64>,
    pub message: Option<String>,
}

/// Model of the health of a node.
#[verifier::ext_equal]
pub ghost struct HealthView {
    pub status: Seq<char>,
    pub disk_usage: Option<DiskUsage>,
    pub index_rebuild_lag_ms: Option<u64>,
    pub message: Option<Seq<char>>,
}

impl View for HealthResponse {
    type V = HealthView;

    open spec fn view(&self) -> HealthView {
        HealthView {
            status: self.status@,
            disk_usage: self.disk_usage,
            index_rebuild_lag_ms: self.index_rebuild_lag_ms,
            message: lists::opt_view(self.message),
        }
    }
}

/// The usage in a reading of the disk.
pub open spec fn usage_in(disk: Option<DiskReading>) -> Option<DiskUsage> {
    match disk {
        Some(d) => Some(d.usage),
        None => None,
    }
}

/// Whether the index has been rebuilding for longer than so many seconds.
pub open spec fn is_lagging(lag_ms: Option<u64>, warn_seconds: u64) -> bool {
    lag_ms matches Some(lag) && lag > warn_seconds.wrapping_mul(1000)
}

/// The health of a node: degraded where the disk is too full or cannot be read, or where the
/// index lags; the last of these is told.
pub open spec fn health_of(
    disk: Option<DiskReading>,
    lag_ms: Option<u64>,
    warn_seconds: u64,
) -> HealthView {
    let disk_is_bad = disk is None || disk->0.is_full();
    let lagging = is_lagging(lag_ms, warn_seconds);
    HealthView {
        status: if disk_is_bad || lagging {
            "degraded"@
        } else {
            "ready"@
        },
        disk_usage: usage_in(disk),
        index_rebuild_lag_ms: lag_ms,
        message: if lagging {
            Some(
                "index rebuild lag "@ + text::decimal(lag_ms->0 as nat) + "ms exceeds "@
                    + text::decimal(warn_seconds.wrapping_mul(1000) as nat) + "ms threshold"@,
            )
        } else if disk is None {
            Some("unable to read disk usage"@)
        } else if disk->0.is_full() {
            Some(disk->0.warning())
        } else {
            None
        },
    }
}

/// The health of a node.
pub fn health(disk: Option<DiskReading>, lag_ms: Option<u64>, warn_seconds: u64) -> (r:
    HealthResponse)
    ensures
        r@ == health_of(disk, lag_ms, warn_seconds),
{
    let mut degraded: bool = false;
    let mut message: Option<String> = None;
    let mut disk_usage: Option<DiskUsage> = None;
    match &disk {
        Some(d) => {
            disk_usage = Some(d.usage);
            if d.threshold.is_at_most(d.usage.percent_used) {
                degraded = true;
                message = Some(d.warning_text());
            }
        },
        None => {
            degraded = true;
            message = Some("unable to read disk usage".to_owned());
        },
    }
    if let Some(lag) = lag_ms {
        let warn_ms: u64 = warn_seconds.wrapping_mul(1000);
        if lag > warn_ms {
            degraded = true;
            let mut out = text::joined3(
                "index rebuild lag ",
                text::decimal_of(lag).as_str(),
                "ms exceeds ",
            );
            out.append(text::decimal_of(warn_ms).as_str());
            out.append("ms threshold");
            message = Some(out);
        }
    }
    let status = if degraded {
        "degraded".to_owned()
    } else {
        "ready".to_owned()
    };
    HealthResponse { status, disk_usage, index_rebuild_lag_ms: lag_ms, message }
}

/// Whether the indexes must be ready for the node to be: they must, unless a variable of the
/// environment says `0` or `false`.
pub open spec fn wants_indexes(value: Option<Seq<char>>) -> bool {
    match value {
        Some(v) => v != "0"@ && text::lower(v) != "false"@,
        None => true,
    }
}

/// Whether the indexes must be ready for the node to be: they must, unless a variable of the
/// environment says `0` or `false`.
pub fn requires_indexes(value: Option<&str>) -> (r: bool)
    ensures
        r == wants_indexes(lists::opt_view(value)),
{
    match value {
        Some(v) => !text::same(v, "0") && !text::same(text::to_lower(v).as_str(), "false"),
        None => true,
    }
}

/// Whether all indexes are ready.
pub open spec fn all_are_ready(indexes: Seq<IndexView>) -> bool {
    forall|i: int| 0 <= i < indexes.len() ==> (#[trigger] indexes[i]).ready
}

/// Whether a node is ready, as a status code, and its health: a disk that cannot be read does
/// not count, a full one and a storage that is not available do; indexes count if they must.
pub open spec fn readiness_of(
    disk: Option<DiskReading>,
    lag_ms: Option<u64>,
    storage_ok: bool,
    indexes: Seq<IndexView>,
    require_indexes: bool,
) -> (u16, HealthView) {
    let full = disk matches Some(d) && d.is_full();
    let all_ready = all_are_ready(indexes);
    (
        if !full && storage_ok && (!require_indexes || all_ready) {
            200
        } else {
            503
        },
        HealthView {
            status: if full || !storage_ok {
                "degraded"@
            } else {
                "ready"@
            },
            disk_usage: usage_in(disk),
            index_rebuild_lag_ms: if lag_ms is None && !all_ready {
                Some(0)
            } else {
                lag_ms
            },
            message: if !storage_ok {
                Some("storage unavailable"@)
            } else if full {
                Some(disk->0.warning())
            } else if disk is None {
                Some("disk usage unavailable"@)
            } else if !all_ready {
                Some("index not ready yet"@)
            } else {
                None
            },
        },
    )
}

/// Whether a node is ready, as a status code, and its health.
pub fn readiness(
    disk: Option<DiskReading>,
    lag_ms: Option<u64>,
    storage_ok: bool,
    indexes: &[IndexMetadata],
    require_indexes: bool,
) -> (r: (u16, HealthResponse))
    ensures
        (r.0, r.1@) == readiness_of(
            disk,
            lag_ms,
            storage_ok,
            lists::views(indexes@),
            require_indexes,
        ),
{
    let mut degraded: bool = false;
    let mut message: Option<String> = None;
    let mut disk_usage: Option<DiskUsage> = None;
    match &disk {
        Some(d) => {
            disk_usage = Some(d.usage);
            if d.threshold.is_at_most(d.usage.percent_used) {
                degraded = true;
                message = Some(d.warning_text());
            }
        },
        None => {
            message = Some("disk usage unavailable".to_owned());
        },
    }
    if !storage_ok {
        degraded = true;
        message = Some("storage unavailable".to_owned());
    }
    let ghost models = lists::views(indexes@);
    let mut all_ready: bool = true;
    for i in 0..indexes.len()
        invariant
            models == lists::views(indexes@),
            all_ready == forall|j: int| 0 <= j < i ==> (#[trigger] models[j]).ready,
    {
        assert(models[i as int] == indexes@[i as int]@);
        if !indexes[i].ready {
            all_ready = false;
        }
    }
    if !all_ready && message.is_none() {
        message = Some("index not ready yet".to_owned());
    }
    let index_rebuild_lag_ms: Option<u64> = if lag_ms.is_none() && !all_ready {
        Some(0)
    } else {
        lag_ms
    };
    let code: u16 = if !degraded && storage_ok && (!require_indexes || all_ready) {
        200
    } else {
        503
    };
    let status = if degraded {
        "degraded".to_owned()
    } else {
        "ready".to_owned()
    };
    (code, HealthResponse { status, disk_usage, index_rebuild_lag_ms, message })
}

/// A node without a storage is never ready, whatever else holds.
pub proof fn no_storage_is_not_ready(
    disk: Option<DiskReading>,
    lag_ms: Option<u64>,
    indexes: Seq<IndexView>,
    require_indexes: bool,
)
    ensures
        readiness_of(disk, lag_ms, false, indexes, require_indexes).0 == 503,
        readiness_of(disk, lag_ms, false, indexes, require_indexes).1.status == "degraded"@,
{
}

/// A node with a storage and room on its disk, and without indexes, is ready.
pub proof fn fresh_node_is_ready(
    disk: Option<DiskReading>,
    lag_ms: Option<u64>,
    require_indexes: bool,
)
    requires
        disk matches Some(d) ==> !d.is_full(),
    ensures
        readiness_of(disk, lag_ms, true, Seq::empty(), require_indexes).0 == 200,
        readiness_of(disk, lag_ms, true, Seq::empty(), require_indexes).1.status == "ready"@,
{
}

/// What a request asks to do with a world.
pub open spec fn action_of(
    action: Seq<char>,
    world: Seq<char>,
    description: Option<Seq<char>>,
    labels: Seq<Seq<char>>,
) -> Option<WorldActionView> {
    if action == "create"@ {
        Some(WorldActionView::Create(WorldMetaView { world, description, labels }))
    } else if action == "archive"@ {
        Some(WorldActionView::Archive(world))
    } else if action == "resume"@ {
        Some(WorldActionView::Resume(world))
    } else {
        None
    }
}

/// What a request asks to do with a world; a word that is not known is refused.
pub fn world_action(
    action: &str,
    world: &WorldKey,
    description: &Option<String>,
    labels: &Vec<String>,
) -> (r: std::result::Result<WorldAction, ApiError>)
    ensures
        r is Ok <==> action_of(
            action@,
            world@,
            lists::opt_view(*description),
            lists::views(labels@),
        ) is Some,
        r matches Ok(a) ==> Some(a@) == action_of(
            action@,
            world@,
            lists::opt_view(*description),
            lists::views(labels@),
        ),
        r matches Err(e) ==> e.code() == 400 && e.says() == "unknown action: "@ + action@,
{
    if text::same(action, "create") {
        Ok(
            WorldAction::Create(
                WorldMeta {
                    world: world.clone(),
                    description: duplicate_opt(description),
                    labels: duplicate_all(labels.as_slice()),
                },
            ),
        )
    } else if text::same(action, "archive") {
        Ok(WorldAction::Archive(world.clone()))
    } else if text::same(action, "resume") {
        Ok(WorldAction::Resume(world.clone()))
    } else {
        Err(ApiError::BadRequest(text::joined("unknown action: ", action)))
    }
}

/// Some worlds and one more, unless it is among them.
pub open spec fn noted(worlds: Seq<Seq<char>>, world: Seq<char>) -> Seq<Seq<char>> {
    if worlds.contains(world) {
        worlds
    } else {
        worlds.push(world)
    }
}

/// The worlds that a node knows of after an action: one that is created or resumed is among
/// them, one that is archived is not.
pub open spec fn known_after(
    worlds: Seq<Seq<char>>,
    action: Seq<char>,
    world: Seq<char>,
) -> Seq<Seq<char>> {
    if action == "create"@ || action == "resume"@ {
        noted(worlds, world)
    } else if action == "archive"@ {
        worlds.filter(|w: Seq<char>| w != world)
    } else {
        worlds
    }
}

/// Notes a world.
pub fn note_world(worlds: &mut Vec<WorldKey>, world: &WorldKey)
    ensures
        lists::views(final(worlds)@) == noted(lists::views(old(worlds)@), world@),
{
    if !has_world(worlds, world) {
        worlds.push(world.clone());
    }
}

/// Notes what an action does to the worlds that a node knows of.
pub fn track_world(worlds: &mut Vec<WorldKey>, action: &str, world: &WorldKey)
    ensures
        lists::views(final(worlds)@) == known_after(
            lists::views(old(worlds)@),
            action@,
            world@,
        ),
{
    if text::same(action, "create") || text::same(action, "resume") {
        note_world(worlds, world);
    } else if text::same(action, "archive") {
        let ghost names = lists::views(worlds@);
        let ghost p = |w: Seq<char>| w != world@;
        let mut kept: Vec<WorldKey> = Vec::new();
        for i in 0..worlds.len()
            invariant
                names == lists::views(worlds@),
                p == |w: Seq<char>| w != world@,
                lists::views(kept@) == names.subrange(0, i as int).filter(p),
        {
            proof {
                let done = names.subrange(0, i as int);
                assert(names.subrange(0, i + 1) == done.push(names[i as int]));
                done.lemma_filter_push(names[i as int], p);
                assert(names[i as int] == worlds@[i as int]@);
            }
            if !text::same(worlds[i].text(), world.text()) {
                kept.push(worlds[i].clone());
            }
        }
        assert(names.subrange(0, names.len() as int) =~= names);
        *worlds = kept;
    }
}

/// The worlds among some that are not listed.
pub open spec fn unlisted(listed: Seq<Seq<char>>, extra: Seq<Seq<char>>) -> Seq<Seq<char>> {
    extra.filter(|w: Seq<char>| !listed.contains(w))
}

/// The worlds that a node knows of and that are not listed: of each it is to be asked whether
/// it is archived.
pub fn unlisted_worlds(listed: &Vec<WorldKey>, extra: &Vec<WorldKey>) -> (r: Vec<WorldKey>)
    ensures
        lists::views(r@) == unlisted(lists::views(listed@), lists::views(extra@)),
{
    let ghost names = lists::views(extra@);
    let ghost p = |w: Seq<char>| !lists::views(listed@).contains(w);
    let mut out: Vec<WorldKey> = Vec::new();
    for i in 0..extra.len()
        invariant
            names == lists::views(extra@),
            p == |w: Seq<char>| !lists::views(listed@).contains(w),
            lists::views(out@) == names.subrange(0, i as int).filter(p),
    {
        proof {
            let done = names.subrange(0, i as int);
            assert(names.subrange(0, i + 1) == done.push(names[i as int]));
            done.lemma_filter_push(names[i as int], p);
            assert(names[i as int] == extra@[i as int]@);
        }
        if !has_world(listed, &extra[i]) {
            out.push(extra[i].clone());
        }
    }
    assert(names.subrange(0, names.len() as int) =~= names);
    out
}

/// The listed worlds and those of the others that are not archived, each of them once.
pub open spec fn merged_worlds(
    listed: Seq<Seq<char>>,
    others: Seq<Seq<char>>,
    archived: Seq<bool>,
) -> Seq<Seq<char>>
    decreases others.len(),
{
    if others.len() == 0 {
        listed
    } else {
        let before = merged_worlds(listed, others.drop_last(), archived);
        if archived[others.len() - 1] {
            before
        } else {
            noted(before, others.last())
        }
    }
}

/// The listed worlds and those of the others that are not archived, in dictionary order.
pub fn merge_worlds(listed: Vec<WorldKey>, others: &Vec<WorldKey>, archived: &Vec<bool>) -> (r:
    Vec<WorldKey>)
    requires
        archived@.len() == others@.len(),
    ensures
        lists::is_sorted(lists::views(r@)),
        lists::views(r@).to_multiset() == merged_worlds(
            lists::views(listed@),
            lists::views(others@),
            archived@,
        ).to_multiset(),
{
    let ghost first = lists::views(listed@);
    let ghost names = lists::views(others@);
    let mut all = listed;
    for i in 0..others.len()
        invariant
            archived@.len() == others@.len(),
            names == lists::views(others@),
            lists::views(all@) == merged_worlds(first, names.subrange(0, i as int), archived@),
    {
        proof {
            let done = names.subrange(0, i + 1);
            assert(done.drop_last() =~= names.subrange(0, i as int));
            assert(done.last() == others@[i as int]@);
        }
        if !archived[i] {
            note_world(&mut all, &others[i]);
        }
    }
    assert(names.subrange(0, names.len() as int) =~= names);
    sort_worlds(&all)
}

/// A number as it is shown, and as it is written in JSON.
#[derive(Debug)]
pub struct NumberText {
    pub shown: String,
    pub json: JsonValue,
}

/// A request to set the policy of a world.
#[derive(Debug)]
pub struct WorldPolicyRequest {
    pub world: WorldKey,
    pub retention_days: Option<u64>,
    pub min_importance: Option<NumberText>,
    pub replication_allow: Vec<String>,
    pub replication_deny: Vec<String>,
}

/// Each of some texts behind a prefix.
pub open spec fn prefixed(prefix: Seq<char>, s: Seq<Seq<char>>) -> Seq<Seq<char>> {
    Seq::new(s.len(), |i: int| prefix + s[i])
}

impl WorldPolicyRequest {
    /// The world whose atoms hold the policy.
    pub open spec fn policy_world(self) -> Seq<char> {
        if text::has_prefix(self.world@, "policy:"@) || text::has_suffix(
            self.world@,
            "/policy"@,
        ) {
            self.world@
        } else {
            policy::policy_world(self.world@)
        }
    }

    /// The labels that say what the policy is.
    pub open spec fn labels(self) -> Seq<Seq<char>> {
        (match self.retention_days {
            Some(days) => seq!["policy:retention_days="@ + text::decimal(days as nat)],
            None => Seq::empty(),
        }) + (match self.min_importance {
            Some(min) => seq!["policy:min_importance="@ + min.shown@],
            None => Seq::empty(),
        }) + prefixed("policy:replication_allow="@, lists::views(self.replication_allow@))
            + prefixed("policy:replication_deny="@, lists::views(self.replication_deny@))
    }

    /// What the payload of the policy's atom says.
    pub open spec fn said(self) -> Map<Seq<char>, Json> {
        map![
            "policy_world"@ => Json::Text(self.policy_world()),
            "target_world"@ => Json::Text(self.world@),
            "retention_days"@ => match self.retention_days {
                Some(days) => Json::Number(json::whole_number(days)),
                None => Json::Null,
            },
            "min_importance"@ => match self.min_importance {
                Some(min) => min.json@,
                None => Json::Null,
            },
            "replication_allow"@ => json::texts_of(lists::views(self.replication_allow@)),
            "replication_deny"@ => json::texts_of(lists::views(self.replication_deny@)),
        ]
    }

    /// The request as JSON text.
    pub open spec fn payload(self) -> Seq<char> {
        json::json_printed(Json::Object(self.said()))
    }

    fn payload_text(&self, policy_world: &str) -> (r: String)
        requires
            policy_world@ == self.policy_world(),
        ensures
            r@ == self.payload(),
    {
        let mut m = JsonMap::new();
        m.insert("policy_world", JsonValue::text(policy_world));
        m.insert("target_world", JsonValue::text(self.world.text()));
        match self.retention_days {
            Some(days) => m.insert("retention_days", JsonValue::whole(days)),
            None => m.insert("retention_days", JsonValue::null()),
        }
        match &self.min_importance {
            Some(min) => m.insert("min_importance", min.json.clone()),
            None => m.insert("min_importance", JsonValue::null()),
        }
        m.insert("replication_allow", JsonValue::texts(self.replication_allow.as_slice()));
        m.insert("replication_deny", JsonValue::texts(self.replication_deny.as_slice()));
        assert(m@ =~= self.said());
        JsonValue::object(m).to_json()
    }

    fn label_list(&self) -> (r: Vec<String>)
        ensures
            lists::views(r@) == self.labels(),
    {
        let mut labels: Vec<String> = Vec::new();
        if let Some(days) = self.retention_days {
            labels.push(
                text::joined("policy:retention_days=", text::decimal_of(days).as_str()),
            );
        }
        if let Some(min) = &self.min_importance {
            labels.push(text::joined("policy:min_importance=", min.shown.as_str()));
        }
        add_prefixed(&mut labels, "policy:replication_allow=", &self.replication_allow);
        add_prefixed(&mut labels, "policy:replication_deny=", &self.replication_deny);
        assert(lists::views(labels@) =~= self.labels());
        labels
    }

    /// The atom that holds the policy; a request that sets nothing is refused.
    pub fn policy_atom(&self, timestamp: &Timestamp) -> (r: std::result::Result<
        NewAtom,
        ApiError,
    >)
        ensures
            r is Ok <==> self.labels().len() > 0,
            r matches Ok(a) ==> a@ == (NewAtomView {
                world: self.policy_world(),
                worker: "policy-cli"@,
                kind: AtomKind::Reflection,
                timestamp: timestamp@,
                importance: a@.importance,
                payload_json: self.payload(),
                vector: None,
                flags: Seq::empty(),
                labels: self.labels(),
                links: Seq::empty(),
            }) && a@.importance.value().spec_bits() == FIFTH_BITS,
            r matches Err(e) ==> e.code() == 400 && e.says()
                == "policy request must set at least one field"@,
    {
        let world = if text::starts_with(self.world.text(), "policy:") || text::ends_with(
            self.world.text(),
            "/policy",
        ) {
            self.world.clone()
        } else {
            policy::policy_world_of(&self.world)
        };
        let payload_json = self.payload_text(world.text());
        let labels = self.label_list();
        if labels.len() == 0 {
            return Err(
                ApiError::BadRequest("policy request must set at least one field".to_owned()),
            );
        }
        let flags: Vec<String> = Vec::new();
        let links: Vec<Link> = Vec::new();
        let value = Single::from_bits(FIFTH_BITS);
        proof {
            fifth_is_in_range(value);
        }
        let importance = Importance::clamped(value);
        Ok(
            NewAtom {
                world,
                worker: WorkerKey::new("policy-cli"),
                kind: AtomKind::Reflection,
                timestamp: timestamp.clone(),
                importance,
                payload_json,
                vector: None,
                flags,
                labels,
                links,
            },
        )
    }
}

proof fn fifth_is_in_range(value: Single)
    requires
        value.spec_bits() == FIFTH_BITS,
    ensures
        !value.nan(),
        0 <= value.key() <= crate::single::ONE_BITS,
{
}

/// Adds each of some texts behind a prefix.
fn add_prefixed(out: &mut Vec<String>, prefix: &str, s: &Vec<String>)
    ensures
        lists::views(final(out)@) == lists::views(old(out)@) + prefixed(
            prefix@,
            lists::views(s@),
        ),
{
    let ghost before = lists::views(out@);
    let ghost all = prefixed(prefix@, lists::views(s@));
    assert(before + all.subrange(0, 0) =~= before);
    for i in 0..s.len()
        invariant
            all == prefixed(prefix@, lists::views(s@)),
            lists::views(out@) == before + all.subrange(0, i as int),
    {
        let item = text::joined(prefix, s[i].as_str());
        assert(item@ == all[i as int]);
        out.push(item);
        assert(lists::views(out@) =~= before + all.subrange(0, i + 1));
    }
    assert(all.subrange(0, all.len() as int) =~= all);
}

/// The retention that a request asks for is the one that is read from the label.
pub proof fn requested_retention_is_read(days: u64, current: Option<u64>)
    ensures
        policy::days_set(
            "policy:retention_days="@ + text::decimal(days as nat),
            "policy:retention_days="@,
            current,
        ) == Some(days),
{
    let name = "policy:retention_days="@;
    let value = text::decimal(days as nat);
    let label = name + value;
    assert(label.subrange(0, name.len() as int) =~= name);
    assert(label.subrange(name.len() as int, label.len() as int) =~= value);
    text::decimal_reads_back(days as nat);
    assert(text::is_digit(value[0]));
}

/// What follows the first of a flag, or the default path.
pub open spec fn path_after(args: Seq<Seq<char>>, flag: Seq<char>) -> Seq<char> {
    if args.contains(flag) && args.index_of_first(flag)->0 + 1 < args.len() {
        args[args.index_of_first(flag)->0 + 1]
    } else {
        "config.toml"@
    }
}

/// The path of the configuration: what follows the first `--config`, else `config.toml`.
pub fn config_path(args: &Vec<String>) -> (r: String)
    ensures
        r@ == path_after(lists::views(args@), "--config"@),
{
    let ghost all = lists::views(args@);
    for i in 0..args.len()
        invariant
            all == lists::views(args@),
            forall|j: int| 0 <= j < i ==> all[j] != "--config"@,
    {
        assert(all[i as int] == args@[i as int]@);
        if text::same(args[i].as_str(), "--config") {
            proof {
                all.index_of_first_ensures("--config"@);
                assert(all.contains("--config"@));
            }
            if i + 1 < args.len() {
                assert(all[i + 1] == args@[i + 1]@);
                return args[i + 1].clone();
            }
            return "config.toml".to_owned();
        }
    }
    "config.toml".to_owned()
}

}

//! Questions and answers that configure the component.

use vstd::prelude::*;
use vstd::string::*;

use crate::i18n;
use crate::i18n::{all_keys, LocaleBundle};
use crate::json;
use crate::json::{Json, JsonMap, JsonValue};
use crate::lists;
use crate::text;

verus! {

/// What the component is asked to do.
#[derive(Debug, Clone, Copy, PartialEq, Eq, Structural)]
pub enum NormalizedMode {
    Setup,
    Update,
    Remove,
}

impl NormalizedMode {
    /// The name of the mode.
    pub open spec fn name(self) -> Seq<char> {
        match self {
            NormalizedMode::Setup => "setup"@,
            NormalizedMode::Update => "update"@,
            NormalizedMode::Remove => "remove"@,
        }
    }

    pub fn as_str(self) -> (r: &'static str)
        ensures
            r@ == self.name(),
    {
        match self {
            NormalizedMode::Setup => "setup",
            NormalizedMode::Update => "update",
            NormalizedMode::Remove => "remove",
        }
    }
}

/// The mode that a name stands for, if any.
pub open spec fn mode_named(raw: Seq<char>) -> Option<NormalizedMode> {
    if raw == "default"@ || raw == "setup"@ || raw == "install"@ {
        Some(NormalizedMode::Setup)
    } else if raw == "update"@ || raw == "upgrade"@ {
        Some(NormalizedMode::Update)
    } else if raw == "remove"@ {
        Some(NormalizedMode::Remove)
    } else {
        None
    }
}

/// The mode that a name stands for, if any.
pub fn normalize_mode(raw: &str) -> (r: Option<NormalizedMode>)
    ensures
        r == mode_named(raw@),
{
    if text::same(raw, "default") || text::same(raw, "setup") || text::same(raw, "install") {
        Some(NormalizedMode::Setup)
    } else if text::same(raw, "update") || text::same(raw, "upgrade") {
        Some(NormalizedMode::Update)
    } else if text::same(raw, "remove") {
        Some(NormalizedMode::Remove)
    } else {
        None
    }
}

/// The name of a mode stands for the mode.
pub proof fn mode_has_its_name(mode: NormalizedMode)
    ensures
        mode_named(mode.name()) == Some(mode),
{
    reveal_strlit("default");
    reveal_strlit("setup");
    reveal_strlit("install");
    reveal_strlit("update");
    reveal_strlit("upgrade");
    reveal_strlit("remove");
    assert("update"@[1] == 'p' && "upgrade"@.len() == 7 && "update"@.len() == 6);
    assert("remove"@[0] == 'r' && "remove"@.len() == 6);
    assert("setup"@.len() == 5 && "default"@.len() == 7 && "install"@.len() == 7);
    assert("update"@[0] == 'u');
}

/// A text to be translated, by its key.
pub open spec fn text_by_key(key: Seq<char>) -> Json {
    Json::Object(map!["key"@ => Json::Text(key), "fallback"@ => Json::Null])
}

fn text_by_key_json(key: &str) -> (r: JsonValue)
    ensures
        r@ == text_by_key(key@),
{
    let mut m = JsonMap::new();
    m.insert("key", JsonValue::text(key));
    m.insert("fallback", JsonValue::null());
    JsonValue::object(m)
}

/// A question that is answered with a text.
pub open spec fn question_of(
    id: Seq<char>,
    label_key: Seq<char>,
    help_key: Seq<char>,
    required: bool,
) -> Json {
    Json::Object(
        map![
            "id"@ => Json::Text(id),
            "label"@ => text_by_key(label_key),
            "help"@ => text_by_key(help_key),
            "kind"@ => Json::Object(map!["type"@ => Json::Text("text"@)]),
            "required"@ => Json::Bool(required),
        ],
    )
}

fn question(id: &str, label_key: &str, help_key: &str, required: bool) -> (r: JsonValue)
    ensures
        r@ == question_of(id@, label_key@, help_key@, required),
{
    let mut kind = JsonMap::new();
    kind.insert("type", JsonValue::text("text"));
    let mut m = JsonMap::new();
    m.insert("id", JsonValue::text(id));
    m.insert("label", text_by_key_json(label_key));
    m.insert("help", text_by_key_json(help_key));
    m.insert("kind", JsonValue::object(kind));
    m.insert("required", JsonValue::bool(required));
    JsonValue::object(m)
}

/// The questions about the configuration; the first three may have to be answered.
pub open spec fn config_questions(required: bool) -> Seq<Json> {
    seq![
        question_of(
            "data_dir"@,
            "qa.field.data_dir.label"@,
            "qa.field.data_dir.help"@,
            required,
        ),
        question_of(
            "default_tenant"@,
            "qa.field.default_tenant.label"@,
            "qa.field.default_tenant.help"@,
            required,
        ),
        question_of(
            "public_base_url"@,
            "qa.field.public_base_url.label"@,
            "qa.field.public_base_url.help"@,
            required,
        ),
        question_of(
            "public_path_prefix"@,
            "qa.field.public_path_prefix.label"@,
            "qa.field.public_path_prefix.help"@,
            false,
        ),
        question_of(
            "nats_url"@,
            "qa.field.nats_url.label"@,
            "qa.field.nats_url.help"@,
            false,
        ),
        question_of(
            "swarm_enable"@,
            "qa.field.swarm_enable.label"@,
            "qa.field.swarm_enable.help"@,
            false,
        ),
    ]
}

/// The questions of a mode.
pub open spec fn questions_of(mode: NormalizedMode) -> Seq<Json> {
    match mode {
        NormalizedMode::Setup => config_questions(true),
        NormalizedMode::Update => config_questions(false),
        NormalizedMode::Remove => seq![
            question_of(
                "confirm_remove"@,
                "qa.field.confirm_remove.label"@,
                "qa.field.confirm_remove.help"@,
                true,
            ),
        ],
    }
}

/// The keys of the title and of the description of a mode.
pub open spec fn headings_of(mode: NormalizedMode) -> (Seq<char>, Seq<char>) {
    match mode {
        NormalizedMode::Setup => ("qa.install.title"@, "qa.install.description"@),
        NormalizedMode::Update => ("qa.update.title"@, "qa.update.description"@),
        NormalizedMode::Remove => ("qa.remove.title"@, "qa.remove.description"@),
    }
}

/// What is asked in a mode.
pub open spec fn qa_spec(mode: NormalizedMode) -> Json {
    Json::Object(
        map![
            "mode"@ => Json::Text(mode.name()),
            "title"@ => text_by_key(headings_of(mode).0),
            "description"@ => text_by_key(headings_of(mode).1),
            "questions"@ => Json::Array(questions_of(mode)),
            "defaults"@ => Json::Object(Map::empty()),
        ],
    )
}

/// The questions of a mode.
fn questions(mode: NormalizedMode) -> (r: Vec<JsonValue>)
    ensures
        Seq::new(r@.len(), |i: int| r@[i]@) == questions_of(mode),
{
    let mut out: Vec<JsonValue> = Vec::new();
    match mode {
        NormalizedMode::Remove => {
            out.push(
                question(
                    "confirm_remove",
                    "qa.field.confirm_remove.label",
                    "qa.field.confirm_remove.help",
                    true,
                ),
            );
        },
        _ => {
            let required: bool = mode == NormalizedMode::Setup;
            out.push(
                question(
                    "data_dir",
                    "qa.field.data_dir.label",
                    "qa.field.data_dir.help",
                    required,
                ),
            );
            out.push(
                question(
                    "default_tenant",
                    "qa.field.default_tenant.label",
                    "qa.field.default_tenant.help",
                    required,
                ),
            );
            out.push(
                question(
                    "public_base_url",
                    "qa.field.public_base_url.label",
                    "qa.field.public_base_url.help",
                    required,
                ),
            );
            out.push(
                question(
                    "public_path_prefix",
                    "qa.field.public_path_prefix.label",
                    "qa.field.public_path_prefix.help",
                    false,
                ),
            );
            out.push(
                question(
                    "nats_url",
                    "qa.field.nats_url.label",
                    "qa.field.nats_url.help",
                    false,
                ),
            );
            out.push(
                question(
                    "swarm_enable",
                    "qa.field.swarm_enable.label",
                    "qa.field.swarm_enable.help",
                    false,
                ),
            );
        },
    }
    assert(Seq::new(out@.len(), |i: int| out@[i]@) =~= questions_of(mode));
    out
}

/// What is asked in a mode.
pub fn qa_spec_json(mode: NormalizedMode) -> (r: JsonValue)
    ensures
        r@ == qa_spec(mode),
{
    let (title_key, description_key) = match mode {
        NormalizedMode::Setup => ("qa.install.title", "qa.install.description"),
        NormalizedMode::Update => ("qa.update.title", "qa.update.description"),
        NormalizedMode::Remove => ("qa.remove.title", "qa.remove.description"),
    };
    let mut m = JsonMap::new();
    m.insert("mode", JsonValue::text(mode.as_str()));
    m.insert("title", text_by_key_json(title_key));
    m.insert("description", text_by_key_json(description_key));
    m.insert("questions", JsonValue::array(questions(mode)));
    m.insert("defaults", JsonValue::object(JsonMap::new()));
    JsonValue::object(m)
}

/// The keys of the texts that the questions refer to.
pub fn i18n_keys(bundle: &LocaleBundle) -> (r: Vec<String>)
    ensures
        lists::views(r@) == i18n::keys_listed(bundle@),
        i18n::is_key_list(i18n::english(bundle@), lists::views(r@)),
{
    all_keys(bundle)
}

/// What the component needs.
pub open spec fn requirements() -> Json {
    Json::Object(
        map![
            "cap_id"@ => Json::Text("greentic.cap.dwbase.memory.v1"@),
            "provider_op"@ => Json::Text("dwbase.configure"@),
            "requires_http_ingress"@ => Json::Bool(true),
            "required_config_keys"@ => json::texts_of(
                seq!["data_dir"@, "default_tenant"@, "public_base_url"@],
            ),
            "optional_config_keys"@ => json::texts_of(
                seq!["public_path_prefix"@, "nats_url"@, "swarm_enable"@],
            ),
            "public_base_url_field"@ => Json::Text("public_base_url"@),
            "public_path_prefix_default"@ => Json::Text("/dwbase"@),
            "supports"@ => json::texts_of(seq!["component_config"@]),
            "secrets"@ => Json::Array(Seq::empty()),
        ],
    )
}

fn texts3(a: &str, b: &str, c: &str) -> (r: JsonValue)
    ensures
        r@ == json::texts_of(seq![a@, b@, c@]),
{
    let mut v: Vec<String> = Vec::new();
    v.push(a.to_owned());
    v.push(b.to_owned());
    v.push(c.to_owned());
    let r = JsonValue::texts(v.as_slice());
    assert(r@->Array_0 =~= json::texts_of(seq![a@, b@, c@])->Array_0);
    r
}

fn texts2(a: &str, b: &str) -> (r: JsonValue)
    ensures
        r@ == json::texts_of(seq![a@, b@]),
{
    let mut v: Vec<String> = Vec::new();
    v.push(a.to_owned());
    v.push(b.to_owned());
    let r = JsonValue::texts(v.as_slice());
    assert(r@->Array_0 =~= json::texts_of(seq![a@, b@])->Array_0);
    r
}

fn texts1(a: &str) -> (r: JsonValue)
    ensures
        r@ == json::texts_of(seq![a@]),
{
    let mut v: Vec<String> = Vec::new();
    v.push(a.to_owned());
    let r = JsonValue::texts(v.as_slice());
    assert(r@->Array_0 =~= json::texts_of(seq![a@])->Array_0);
    r
}

fn no_values() -> (r: JsonValue)
    ensures
        r@ == Json::Array(Seq::empty()),
{
    let r = JsonValue::array(Vec::new());
    assert(r@->Array_0 =~= Seq::empty());
    r
}

/// What the component needs.
pub fn requirements_json() -> (r: JsonValue)
    ensures
        r@ == requirements(),
{
    let mut m = JsonMap::new();
    m.insert("cap_id", JsonValue::text("greentic.cap.dwbase.memory.v1"));
    m.insert("provider_op", JsonValue::text("dwbase.configure"));
    m.insert("requires_http_ingress", JsonValue::bool(true));
    m.insert("required_config_keys", texts3("data_dir", "default_tenant", "public_base_url"));
    m.insert("optional_config_keys", texts3("public_path_prefix", "nats_url", "swarm_enable"));
    m.insert("public_base_url_field", JsonValue::text("public_base_url"));
    m.insert("public_path_prefix_default", JsonValue::text("/dwbase"));
    m.insert("supports", texts1("component_config"));
    m.insert("secrets", no_values());
    JsonValue::object(m)
}

/// What is wrong with the answer in a field.
pub open spec fn fault(key: Seq<char>, field: Seq<char>) -> Json {
    Json::Object(
        map![
            "key"@ => Json::Text(key),
            "msg_key"@ => Json::Text(key),
            "fields"@ => json::texts_of(seq![field]),
        ],
    )
}

fn fault_json(key: &str, field: &str) -> (r: JsonValue)
    ensures
        r@ == fault(key@, field@),
{
    let mut m = JsonMap::new();
    m.insert("key", JsonValue::text(key));
    m.insert("msg_key", JsonValue::text(key));
    m.insert("fields", texts1(field));
    JsonValue::object(m)
}

/// The truth value that a value stands for, if any; some words stand for one too.
pub open spec fn truth_of(v: Json) -> Option<bool> {
    match v {
        Json::Bool(b) => Some(b),
        Json::Text(s) => {
            let word = text::lower(text::trimmed(s));
            if word == "true"@ || word == "1"@ || word == "yes"@ || word == "on"@ {
                Some(true)
            } else if word == "false"@ || word == "0"@ || word == "no"@ || word == "off"@ {
                Some(false)
            } else {
                None
            }
        },
        _ => None,
    }
}

fn bool_json(value: &JsonValue) -> (r: Option<bool>)
    ensures
        r == truth_of(value@),
{
    if let Some(b) = value.as_bool() {
        return Some(b);
    }
    match value.as_str() {
        Some(s) => {
            let lowered = text::to_lower(text::trim(s));
            let word = lowered.as_str();
            if text::same(word, "true") || text::same(word, "1") || text::same(word, "yes")
                || text::same(word, "on") {
                Some(true)
            } else if text::same(word, "false") || text::same(word, "0") || text::same(word, "no")
                || text::same(word, "off") {
                Some(false)
            } else {
                None
            }
        },
        None => None,
    }
}

/// The answers: those of the payload, else its configuration, else none.
pub open spec fn answers_of(payload: Json) -> Json {
    match payload.member("answers"@) {
        Some(v) => v,
        None => match payload.member("config"@) {
            Some(v) => v,
            None => Json::Object(Map::empty()),
        },
    }
}

/// The members of the configuration so far; none if there is no object.
pub open spec fn current_of(payload: Json) -> Map<Seq<char>, Json> {
    match payload.member("current_config"@) {
        Some(Json::Object(m)) => m,
        _ => Map::empty(),
    }
}

/// The fault of a required field without a text.
pub open spec fn missing_fault(answers: Json, key: Seq<char>) -> Seq<Json> {
    if answers.text_member(key) is None {
        seq![fault("qa.error.required"@, key)]
    } else {
        Seq::empty()
    }
}

/// The faults of a mode: in a setup the required fields that are missing, and that a removal
/// is not confirmed.
pub open spec fn mode_faults(mode: NormalizedMode, answers: Json) -> Seq<Json> {
    match mode {
        NormalizedMode::Setup => missing_fault(answers, "data_dir"@) + missing_fault(
            answers,
            "default_tenant"@,
        ) + missing_fault(answers, "public_base_url"@),
        NormalizedMode::Remove => if is_confirmed(answers) {
            Seq::empty()
        } else {
            seq![fault("qa.error.remove_confirmation"@, "confirm_remove"@)]
        },
        NormalizedMode::Update => Seq::empty(),
    }
}

/// Whether a removal is confirmed.
pub open spec fn is_confirmed(answers: Json) -> bool {
    answers.member("confirm_remove"@) matches Some(v) && truth_of(v) == Some(true)
}

/// The fault of a field with a text of nothing but white space.
pub open spec fn blank_fault(answers: Json, key: Seq<char>, error_key: Seq<char>) -> Seq<Json> {
    match answers.text_member(key) {
        Some(s) => if text::trimmed(s).len() == 0 {
            seq![fault(error_key, key)]
        } else {
            Seq::empty()
        },
        None => Seq::empty(),
    }
}

/// Whether a text is the address of a web site.
pub open spec fn is_web_url(s: Seq<char>) -> bool {
    text::has_prefix(s, "https://"@) || text::has_prefix(s, "http://"@)
}

/// The fault of a public address that is none of a web site.
pub open spec fn url_fault(answers: Json) -> Seq<Json> {
    match answers.text_member("public_base_url"@) {
        Some(s) => if is_web_url(text::trimmed(s)) {
            Seq::empty()
        } else {
            seq![fault("qa.error.invalid_public_base_url"@, "public_base_url"@)]
        },
        None => Seq::empty(),
    }
}

/// Whether a text is the address of a message server, or empty.
pub open spec fn is_nats_url(s: Seq<char>) -> bool {
    s.len() == 0 || text::has_prefix(s, "nats://"@) || text::has_prefix(s, "tls://"@)
        || text::has_prefix(s, "ws://"@) || text::has_prefix(s, "wss://"@)
}

/// The fault of an address that is none of a message server.
pub open spec fn nats_fault(answers: Json) -> Seq<Json> {
    match answers.text_member("nats_url"@) {
        Some(s) => if is_nats_url(text::trimmed(s)) {
            Seq::empty()
        } else {
            seq![fault("qa.error.invalid_nats_url"@, "nats_url"@)]
        },
        None => Seq::empty(),
    }
}

/// All that is wrong with some answers.
pub open spec fn faults(mode: NormalizedMode, answers: Json) -> Seq<Json> {
    mode_faults(mode, answers) + blank_fault(
        answers,
        "data_dir"@,
        "qa.error.invalid_data_dir"@,
    ) + blank_fault(
        answers,
        "default_tenant"@,
        "qa.error.invalid_default_tenant"@,
    ) + url_fault(answers) + nats_fault(answers)
}

/// The models of some values.
pub open spec fn json_views(v: Seq<JsonValue>) -> Seq<Json> {
    Seq::new(v.len(), |i: int| v[i]@)
}

/// Adds a fault.
fn add_fault(errors: &mut Vec<JsonValue>, key: &str, field: &str)
    ensures
        json_views(final(errors)@) == json_views(old(errors)@) + seq![fault(key@, field@)],
{
    let ghost before = errors@;
    errors.push(fault_json(key, field));
    assert(json_views(errors@) =~= json_views(before) + seq![fault(key@, field@)]);
}

fn validate_present(answers: &JsonValue, key: &str, errors: &mut Vec<JsonValue>)
    ensures
        json_views(final(errors)@) == json_views(old(errors)@) + missing_fault(answers@, key@),
{
    if answers.text_of(key).is_none() {
        add_fault(errors, "qa.error.required", key);
    } else {
        assert(json_views(errors@) =~= json_views(errors@) + Seq::<Json>::empty());
    }
}

fn validate_non_empty(
    answers: &JsonValue,
    key: &str,
    error_key: &str,
    errors: &mut Vec<JsonValue>,
)
    ensures
        json_views(final(errors)@) == json_views(old(errors)@) + blank_fault(
            answers@,
            key@,
            error_key@,
        ),
{
    assert(json_views(errors@) =~= json_views(errors@) + Seq::<Json>::empty());
    if let Some(value) = answers.text_of(key) {
        let trimmed = text::trim(value);
        if is_empty(trimmed) {
            add_fault(errors, error_key, key);
        }
    }
}

fn validate_url(answers: &JsonValue, errors: &mut Vec<JsonValue>)
    ensures
        json_views(final(errors)@) == json_views(old(errors)@) + url_fault(answers@),
{
    assert(json_views(errors@) =~= json_views(errors@) + Seq::<Json>::empty());
    if let Some(value) = answers.text_of("public_base_url") {
        let trimmed = text::trim(value);
        if !(text::starts_with(trimmed, "https://") || text::starts_with(trimmed, "http://")) {
            add_fault(errors, "qa.error.invalid_public_base_url", "public_base_url");
        }
    }
}

fn validate_nats_url(answers: &JsonValue, errors: &mut Vec<JsonValue>)
    ensures
        json_views(final(errors)@) == json_views(old(errors)@) + nats_fault(answers@),
{
    assert(json_views(errors@) =~= json_views(errors@) + Seq::<Json>::empty());
    if let Some(value) = answers.text_of("nats_url") {
        let trimmed = text::trim(value);
        if !(is_empty(trimmed) || text::starts_with(trimmed, "nats://") || text::starts_with(
            trimmed,
            "tls://",
        ) || text::starts_with(trimmed, "ws://") || text::starts_with(trimmed, "wss://")) {
            add_fault(errors, "qa.error.invalid_nats_url", "nats_url");
        }
    }
}

/// Whether a text is empty.
fn is_empty(s: &str) -> (r: bool)
    ensures
        r == (s@.len() == 0),
{
    let chars = text::chars_of(s);
    chars.len() == 0
}

/// All that is wrong with some answers.
fn check_answers(mode: NormalizedMode, answers: &JsonValue) -> (r: Vec<JsonValue>)
    ensures
        json_views(r@) == faults(mode, answers@),
{
    let mut errors: Vec<JsonValue> = Vec::new();
    match mode {
        NormalizedMode::Setup => {
            validate_present(answers, "data_dir", &mut errors);
            validate_present(answers, "default_tenant", &mut errors);
            validate_present(answers, "public_base_url", &mut errors);
        },
        NormalizedMode::Remove => {
            let confirmed: bool = match answers.get("confirm_remove") {
                Some(v) => match bool_json(v) {
                    Some(b) => b,
                    None => false,
                },
                None => false,
            };
            if !confirmed {
                add_fault(&mut errors, "qa.error.remove_confirmation", "confirm_remove");
            }
        },
        NormalizedMode::Update => {},
    }
    assert(json_views(errors@) =~= mode_faults(mode, answers@));
    validate_non_empty(answers, "data_dir", "qa.error.invalid_data_dir", &mut errors);
    validate_non_empty(
        answers,
        "default_tenant",
        "qa.error.invalid_default_tenant",
        &mut errors,
    );
    validate_url(answers, &mut errors);
    validate_nats_url(answers, &mut errors);
    errors
}

/// Whether a field of the configuration holds a text.
pub open spec fn is_text_field(key: Seq<char>) -> bool {
    key == "data_dir"@ || key == "default_tenant"@ || key == "public_base_url"@ || key
        == "public_path_prefix"@
}

/// Whether a field of the configuration holds a truth value.
pub open spec fn is_truth_field(key: Seq<char>) -> bool {
    key == "swarm_enable"@ || key == "confirm_remove"@
}

/// A member of the configuration once answers have been merged into it. A field keeps what it
/// holds if it is not answered, or not with a value of its type; texts are trimmed, and an
/// empty address of the message server removes it.
pub open spec fn merged_member(
    config: Map<Seq<char>, Json>,
    answers: Map<Seq<char>, Json>,
    key: Seq<char>,
) -> Option<Json> {
    let kept = config.get(key);
    if !answers.contains_key(key) {
        kept
    } else if is_text_field(key) {
        match answers[key].text() {
            Some(s) => Some(Json::Text(text::trimmed(s))),
            None => kept,
        }
    } else if key == "nats_url"@ {
        match answers[key].text() {
            Some(s) => if text::trimmed(s).len() == 0 {
                None
            } else {
                Some(Json::Text(text::trimmed(s)))
            },
            None => kept,
        }
    } else if is_truth_field(key) {
        match truth_of(answers[key]) {
            Some(b) => Some(Json::Bool(b)),
            None => kept,
        }
    } else {
        Some(answers[key])
    }
}

/// The configuration once answers have been merged into it.
pub open spec fn merged(config: Map<Seq<char>, Json>, answers: Map<Seq<char>, Json>) -> Map<
    Seq<char>,
    Json,
> {
    Map::new(
        |key: Seq<char>| merged_member(config, answers, key) is Some,
        |key: Seq<char>| merged_member(config, answers, key)->Some_0,
    )
}

/// Merges one answer into the configuration.
fn merge_answer(config: &mut JsonMap, key: &str, value: &JsonValue)
    ensures
        forall|k: Seq<char>| k != key@ ==> #[trigger] final(config)@.get(k) == old(config)@.get(k),
        forall|answers: Map<Seq<char>, Json>|
            answers.contains_pair(key@, value@) ==> final(config)@.get(key@)
                == #[trigger] merged_member(old(config)@, answers, key@),
{
    if text::same(key, "data_dir") || text::same(key, "default_tenant") || text::same(
        key,
        "public_base_url",
    ) || text::same(key, "public_path_prefix") {
        if let Some(s) = value.as_str() {
            config.insert(key, JsonValue::text(text::trim(s)));
        }
    } else if text::same(key, "nats_url") {
        if let Some(s) = value.as_str() {
            let trimmed = text::trim(s);
            if is_empty(trimmed) {
                config.remove(key);
            } else {
                config.insert(key, JsonValue::text(trimmed));
            }
        }
    } else if text::same(key, "swarm_enable") || text::same(key, "confirm_remove") {
        if let Some(b) = bool_json(value) {
            config.insert(key, JsonValue::bool(b));
        }
    } else {
        config.insert(key, value.clone());
    }
}

/// Merges answers into the configuration.
fn merge_answers(config: &mut JsonMap, answers: &JsonMap)
    ensures
        final(config)@ == merged(old(config)@, answers@),
{
    let ghost before = config@;
    let names = answers.names();
    for i in 0..names.len()
        invariant
            before == old(config)@,
            forall|j: int| 0 <= j < names@.len() ==> answers@.contains_key((#[trigger] names@[j])@),
            forall|a: int, b: int|
                0 <= a < b < names@.len() ==> (#[trigger] names@[a])@ != (#[trigger] names@[b])@,
            forall|j: int|
                0 <= j < i ==> config@.get((#[trigger] names@[j])@) == merged_member(
                    before,
                    answers@,
                    names@[j]@,
                ),
            forall|k: Seq<char>|
                (forall|j: int| 0 <= j < i ==> (#[trigger] names@[j])@ != k) ==> #[trigger]
                    config@.get(k) == before.get(k),
    {
        let key = names[i].as_str();
        let ghost middle = config@;
        proof {
            assert(answers@.contains_key(names@[i as int]@));
            assert forall|j: int| 0 <= j < i implies (#[trigger] names@[j])@ != key@ by {
                assert(names@[j]@ != names@[i as int]@);
            }
            assert(middle.get(key@) == before.get(key@));
        }
        if let Some(value) = answers.get(key) {
            merge_answer(config, key, value);
            proof {
                assert(answers@.contains_pair(key@, value@));
                assert(merged_member(middle, answers@, key@) == merged_member(
                    before,
                    answers@,
                    key@,
                ));
                assert forall|j: int| 0 <= j < i + 1 implies config@.get((#[trigger] names@[j])@)
                    == merged_member(before, answers@, names@[j]@) by {
                    if j < i {
                        assert(names@[j]@ != key@);
                        assert(config@.get(names@[j]@) == middle.get(names@[j]@));
                    }
                }
                assert forall|k: Seq<char>|
                    (forall|j: int| 0 <= j < i + 1 ==> (#[trigger] names@[j])@
                        != k) implies #[trigger] config@.get(k) == before.get(k) by {
                    assert(names@[i as int]@ != k);
                    assert(config@.get(k) == middle.get(k));
                }
            }
        }
    }
    proof {
        let all = merged(before, answers@);
        assert forall|k: Seq<char>| #[trigger] config@.get(k) == merged_member(
            before,
            answers@,
            k,
        ) by {
            if answers@.contains_key(k) {
                let j = choose|j: int| 0 <= j < names@.len() && (#[trigger] names@[j])@ == k;
                assert(config@.get(names@[j]@) == merged_member(before, answers@, names@[j]@));
            } else {
                assert forall|j: int| 0 <= j < names@.len() implies (#[trigger] names@[j])@
                    != k by {
                    assert(answers@.contains_key(names@[j]@));
                }
            }
        }
        assert forall|k: Seq<char>| #[trigger]
            config@.contains_key(k) == all.contains_key(k) by {
            assert(config@.get(k) == merged_member(before, answers@, k));
        }
        assert forall|k: Seq<char>| #[trigger] config@.contains_key(k) implies config@[k]
            == all[k] by {
            assert(config@.get(k) == merged_member(before, answers@, k));
        }
        assert(config@ =~= all);
    }
}

/// A path prefix with a leading slash and without trailing ones; the default for none.
pub open spec fn normalized_prefix(value: Seq<char>) -> Seq<char> {
    let trimmed = text::trimmed(value);
    if trimmed.len() == 0 || trimmed == "/"@ {
        "/dwbase"@
    } else if trimmed[0] == '/' {
        text::without_trailing(trimmed, '/')
    } else {
        text::without_trailing("/"@ + trimmed, '/')
    }
}

/// A path prefix with a leading slash and without trailing ones; the default for none.
pub fn normalize_path_prefix(value: &str) -> (r: String)
    ensures
        r@ == normalized_prefix(value@),
{
    let trimmed = text::trim(value);
    if is_empty(trimmed) || text::same(trimmed, "/") {
        return "/dwbase".to_owned();
    }
    proof {
        reveal_strlit("/");
        assert("/"@.len() == 1 && "/"@[0] == '/');
        if text::has_prefix(trimmed@, "/"@) {
            assert(trimmed@.subrange(0, 1)[0] == trimmed@[0]);
        }
        if trimmed@[0] == '/' {
            assert(trimmed@.subrange(0, 1) =~= "/"@);
        }
    }
    if text::starts_with(trimmed, "/") {
        text::trim_end(trimmed, '/').to_owned()
    } else {
        let whole = text::joined("/", trimmed);
        text::trim_end(whole.as_str(), '/').to_owned()
    }
}

/// A text without trailing characters is its front, and does not end in that character.
proof fn trailing_are_gone(s: Seq<char>, c: char)
    ensures
        text::without_trailing(s, c).len() <= s.len(),
        text::without_trailing(s, c) == s.subrange(
            0,
            text::without_trailing(s, c).len() as int,
        ),
        text::without_trailing(s, c).len() > 0 ==> text::without_trailing(s, c).last() != c,
    decreases s.len(),
{
    if s.len() > 0 && s.last() == c {
        trailing_are_gone(s.drop_last(), c);
        let n = text::without_trailing(s, c).len() as int;
        assert(s.drop_last().subrange(0, n) =~= s.subrange(0, n));
    } else {
        assert(s.subrange(0, s.len() as int) =~= s);
    }
}

/// A normalized prefix starts with a slash and does not end in one, unless it is empty.
pub proof fn prefix_is_normal(value: Seq<char>)
    ensures
        normalized_prefix(value).len() > 0 ==> normalized_prefix(value)[0] == '/'
            && normalized_prefix(value).last() != '/',
{
    reveal_strlit("/dwbase");
    reveal_strlit("/");
    assert("/dwbase"@.len() == 7 && "/dwbase"@[0] == '/' && "/dwbase"@[6] == 'e');
    let trimmed = text::trimmed(value);
    trailing_are_gone(trimmed, '/');
    trailing_are_gone("/"@ + trimmed, '/');
}

/// A path prefix that is normalized twice is the same as one that is normalized once, unless
/// nothing is left of it or it ends in white space once its trailing slashes are gone.
pub proof fn normalizing_again_changes_nothing(value: Seq<char>)
    requires
        normalized_prefix(value).len() > 0,
        !text::is_white(normalized_prefix(value).last()),
    ensures
        normalized_prefix(normalized_prefix(value)) == normalized_prefix(value),
{
    let p = normalized_prefix(value);
    prefix_is_normal(value);
    reveal_strlit("/");
    assert("/"@.len() == 1 && "/"@[0] == '/');
    assert(!text::is_white('/'));
    assert(text::without_leading_white(p) == p);
    assert(text::trimmed(p) == p);
    if p == "/"@ {
        assert(p.last() == '/');
    }
}

/// The public address of the component.
pub open spec fn ingress_of(config: Map<Seq<char>, Json>) -> Map<Seq<char>, Json> {
    let all = Json::Object(config);
    let base = text::without_trailing(
        match all.text_member("public_base_url"@) {
            Some(s) => s,
            None => Seq::empty(),
        },
        '/',
    );
    let prefix = normalized_prefix(
        match all.text_member("public_path_prefix"@) {
            Some(s) => s,
            None => "/dwbase"@,
        },
    );
    map![
        "required"@ => Json::Bool(true),
        "public_base_url"@ => match config.get("public_base_url"@) {
            Some(v) => v,
            None => Json::Null,
        },
        "public_path_prefix"@ => Json::Text(prefix),
        "public_api_base_url"@ => if base.len() == 0 {
            Json::Null
        } else {
            Json::Text(base + prefix)
        },
        "ingress_enabled"@ => Json::Bool(true),
    ]
}

/// The text of a member.
fn text_in<'a>(config: &'a JsonMap, key: &str) -> (r: Option<&'a str>)
    ensures
        r is Some <==> Json::Object(config@).text_member(key@) is Some,
        r matches Some(s) ==> Json::Object(config@).text_member(key@) == Some(s@),
{
    match config.get(key) {
        Some(v) => v.as_str(),
        None => None,
    }
}

/// The public address of the component.
fn build_ingress_config(config: &JsonMap) -> (r: JsonMap)
    ensures
        r@ == ingress_of(config@),
{
    proof {
        reveal_strlit("");
        assert(""@ =~= Seq::<char>::empty());
    }
    let base_url = text::trim_end(
        match text_in(config, "public_base_url") {
            Some(s) => s,
            None => "",
        },
        '/',
    );
    let path_prefix = match text_in(config, "public_path_prefix") {
        Some(s) => s,
        None => "/dwbase",
    };
    let normalized_path = normalize_path_prefix(path_prefix);
    let public_api_base_url = if is_empty(base_url) {
        JsonValue::null()
    } else {
        JsonValue::text(text::joined(base_url, normalized_path.as_str()).as_str())
    };
    let public_base_url = match config.get("public_base_url") {
        Some(v) => v.clone(),
        None => JsonValue::null(),
    };
    let mut m = JsonMap::new();
    m.insert("required", JsonValue::bool(true));
    m.insert("public_base_url", public_base_url);
    m.insert("public_path_prefix", JsonValue::text(normalized_path.as_str()));
    m.insert("public_api_base_url", public_api_base_url);
    m.insert("ingress_enabled", JsonValue::bool(true));
    m
}

/// A configuration with a member, set only if it has none of that name.
pub open spec fn with_default(
    config: Map<Seq<char>, Json>,
    key: Seq<char>,
    value: Json,
) -> Map<Seq<char>, Json> {
    if config.contains_key(key) {
        config
    } else {
        config.insert(key, value)
    }
}

/// The configuration that answers without fault lead to.
pub open spec fn configured(mode: NormalizedMode, config: Map<Seq<char>, Json>) -> Map<
    Seq<char>,
    Json,
> {
    if mode == NormalizedMode::Remove {
        config.insert("enabled"@, Json::Bool(false)).insert("ingress_enabled"@, Json::Bool(false))
    } else {
        let full = with_default(
            with_default(config, "public_path_prefix"@, Json::Text("/dwbase"@)),
            "swarm_enable"@,
            Json::Bool(false),
        );
        full.insert("ingress"@, Json::Object(ingress_of(full))).insert(
            "enabled"@,
            Json::Bool(true),
        )
    }
}

/// What goes with a result.
pub open spec fn meta_of(mode: NormalizedMode) -> Json {
    Json::Object(map!["mode"@ => Json::Text(mode.name()), "version"@ => Json::Text("v1"@)])
}

/// The members of the result of some answers: what is wrong with them, or the configuration.
pub open spec fn applied(mode: NormalizedMode, payload: Json) -> Map<Seq<char>, Json> {
    let answers = answers_of(payload);
    let errors = faults(mode, answers);
    if errors.len() > 0 {
        map![
            "ok"@ => Json::Bool(false),
            "warnings"@ => Json::Array(Seq::empty()),
            "errors"@ => Json::Array(errors),
            "meta"@ => meta_of(mode),
        ]
    } else {
        let config = match answers {
            Json::Object(m) => merged(current_of(payload), m),
            _ => current_of(payload),
        };
        map![
            "ok"@ => Json::Bool(true),
            "config"@ => Json::Object(configured(mode, config)),
            "warnings"@ => Json::Array(Seq::empty()),
            "errors"@ => Json::Array(Seq::empty()),
            "meta"@ => meta_of(mode),
            "audit"@ => Json::Object(
                map![
                    "reasons"@ => json::texts_of(seq!["qa.apply_answers"@, "dwbase.configure"@]),
                    "timings_ms"@ => Json::Object(Map::empty()),
                ],
            ),
        ]
    }
}

fn meta_json(mode: NormalizedMode) -> (r: JsonValue)
    ensures
        r@ == meta_of(mode),
{
    let mut m = JsonMap::new();
    m.insert("mode", JsonValue::text(mode.as_str()));
    m.insert("version", JsonValue::text("v1"));
    JsonValue::object(m)
}

/// The configuration that answers without fault lead to.
fn configure_members(mode: NormalizedMode, config: JsonMap) -> (r: JsonMap)
    ensures
        r@ == configured(mode, config@),
{
    let mut config = config;
    if mode == NormalizedMode::Remove {
        config.insert("enabled", JsonValue::bool(false));
        config.insert("ingress_enabled", JsonValue::bool(false));
    } else {
        if !config.contains_key("public_path_prefix") {
            config.insert("public_path_prefix", JsonValue::text("/dwbase"));
        }
        if !config.contains_key("swarm_enable") {
            config.insert("swarm_enable", JsonValue::bool(false));
        }
        let ingress = build_ingress_config(&config);
        config.insert("ingress", JsonValue::object(ingress));
        config.insert("enabled", JsonValue::bool(true));
    }
    config
}

/// The members of the result of some answers.
fn apply(mode: NormalizedMode, payload: &JsonValue) -> (r: JsonMap)
    ensures
        r@ == applied(mode, payload@),
{
    let answers = match payload.get("answers") {
        Some(v) => v.clone(),
        None => match payload.get("config") {
            Some(v) => v.clone(),
            None => JsonValue::object(JsonMap::new()),
        },
    };
    let errors = check_answers(mode, &answers);
    let mut m = JsonMap::new();
    if errors.len() > 0 {
        m.insert("ok", JsonValue::bool(false));
        m.insert("warnings", no_values());
        m.insert("errors", JsonValue::array(errors));
        m.insert("meta", meta_json(mode));
        return m;
    }
    let mut config = match payload.get("current_config") {
        Some(v) => match v.as_object() {
            Some(members) => members.clone(),
            None => JsonMap::new(),
        },
        None => JsonMap::new(),
    };
    if let Some(members) = answers.as_object() {
        merge_answers(&mut config, members);
    }
    let mut audit = JsonMap::new();
    audit.insert("reasons", texts2("qa.apply_answers", "dwbase.configure"));
    audit.insert("timings_ms", JsonValue::object(JsonMap::new()));
    m.insert("ok", JsonValue::bool(true));
    m.insert("config", JsonValue::object(configure_members(mode, config)));
    m.insert("warnings", no_values());
    m.insert("errors", no_values());
    m.insert("meta", meta_json(mode));
    m.insert("audit", JsonValue::object(audit));
    m
}

/// The result of some answers.
pub fn apply_answers(mode: NormalizedMode, payload: &JsonValue) -> (r: JsonValue)
    ensures
        r@ == Json::Object(applied(mode, payload@)),
{
    JsonValue::object(apply(mode, payload))
}

/// The mode of a payload; a setup if it names none.
pub open spec fn payload_mode(payload: Json) -> NormalizedMode {
    match payload.text_member("mode"@) {
        Some(s) => match mode_named(s) {
            Some(mode) => mode,
            None => NormalizedMode::Setup,
        },
        None => NormalizedMode::Setup,
    }
}

/// The result of the answers in a payload, with what the component needs.
pub fn configure(payload: &JsonValue) -> (r: JsonValue)
    ensures
        r@ == Json::Object(
            applied(payload_mode(payload@), payload@).insert("requirements"@, requirements()),
        ),
{
    let mode = match payload.text_of("mode") {
        Some(s) => match normalize_mode(s) {
            Some(mode) => mode,
            None => NormalizedMode::Setup,
        },
        None => NormalizedMode::Setup,
    };
    let mut m = apply(mode, payload);
    m.insert("requirements", requirements_json());
    JsonValue::object(m)
}

/// A field that is not answered keeps what the configuration holds.
pub proof fn unanswered_fields_are_kept(
    config: Map<Seq<char>, Json>,
    answers: Map<Seq<char>, Json>,
    key: Seq<char>,
)
    requires
        !answers.contains_key(key),
    ensures
        merged(config, answers).get(key) == config.get(key),
{
}

/// A setup succeeds only if the directory, the tenant and the public address are given.
pub proof fn setup_needs_required_fields(payload: Json, key: Seq<char>)
    requires
        key == "data_dir"@ || key == "default_tenant"@ || key == "public_base_url"@,
        answers_of(payload).text_member(key) is None,
    ensures
        faults(NormalizedMode::Setup, answers_of(payload)).contains(
            fault("qa.error.required"@, key),
        ),
{
    let answers = answers_of(payload);
    let e = fault("qa.error.required"@, key);
    let (a, b, c) = (
        missing_fault(answers, "data_dir"@),
        missing_fault(answers, "default_tenant"@),
        missing_fault(answers, "public_base_url"@),
    );
    let all = faults(NormalizedMode::Setup, answers);
    let i = if key == "data_dir"@ {
        0
    } else if key == "default_tenant"@ {
        a.len() as int
    } else {
        (a.len() + b.len()) as int
    };
    assert(all[i] == e);
}

/// A removal that is not confirmed is refused.
pub proof fn removal_needs_confirmation(payload: Json)
    requires
        !is_confirmed(answers_of(payload)),
    ensures
        faults(NormalizedMode::Remove, answers_of(payload)).contains(
            fault("qa.error.remove_confirmation"@, "confirm_remove"@),
        ),
{
    assert(faults(NormalizedMode::Remove, answers_of(payload))[0] == fault(
        "qa.error.remove_confirmation"@,
        "confirm_remove"@,
    ));
}

/// Answers with a fault change nothing: there is no configuration in the result.
pub proof fn faulty_answers_give_no_config(mode: NormalizedMode, payload: Json)
    requires
        faults(mode, answers_of(payload)).len() > 0,
    ensures
        applied(mode, payload)["ok"@] == Json::Bool(false),
        !applied(mode, payload).contains_key("config"@),
        applied(mode, payload)["errors"@] == Json::Array(faults(mode, answers_of(payload))),
{
    reveal_strlit("ok");
    reveal_strlit("warnings");
    reveal_strlit("errors");
    reveal_strlit("meta");
    reveal_strlit("config");
    assert("ok"@.len() == 2 && "warnings"@.len() == 8 && "meta"@.len() == 4);
    assert("errors"@.len() == 6 && "config"@.len() == 6);
    assert("errors"@[0] == 'e' && "config"@[0] == 'c');
}

/// The component is enabled after a setup or an update, and not after a removal.
pub proof fn success_sets_enabled(mode: NormalizedMode, config: Map<Seq<char>, Json>)
    ensures
        configured(mode, config).contains_pair(
            "enabled"@,
            Json::Bool(mode != NormalizedMode::Remove),
        ),
{
    reveal_strlit("enabled");
    reveal_strlit("ingress_enabled");
    assert("enabled"@.len() == 7 && "ingress_enabled"@.len() == 15);
}

}

//! Which answers are accepted, what they make of the configuration, and how requests of the
//! component are answered.

use vstd::prelude::*;
use vstd::string::*;

use crate::component;
use crate::i18n;
use crate::json;
use crate::json::Json;
use crate::qa;
use crate::qa::NormalizedMode;
use crate::text;

verus! {

/// Answers are accepted exactly if a setup has texts for the directory, the tenant and the
/// public address, a removal is confirmed, the directory and the tenant are not blank, the
/// public address is one of the web and that of the message server one of its protocols or
/// none. An update asks for no field.
pub proof fn answers_are_accepted_without_fault(mode: NormalizedMode, a: Json)
    ensures
        qa::faults(mode, a).len() == 0 <==> {
            &&& mode is Setup ==> a.text_member("data_dir"@) is Some && a.text_member(
                "default_tenant"@,
            ) is Some && a.text_member("public_base_url"@) is Some
            &&& mode is Remove ==> a.member("confirm_remove"@) is Some && qa::truth_of(
                a.member("confirm_remove"@)->0,
            ) == Some(true)
            &&& a.text_member("data_dir"@) matches Some(s) ==> text::trimmed(s).len() > 0
            &&& a.text_member("default_tenant"@) matches Some(s) ==> text::trimmed(s).len() > 0
            &&& a.text_member("public_base_url"@) matches Some(s) ==> {
                ||| text::has_prefix(text::trimmed(s), "http://"@)
                ||| text::has_prefix(text::trimmed(s), "https://"@)
            }
            &&& a.text_member("nats_url"@) matches Some(s) ==> {
                ||| text::trimmed(s).len() == 0
                ||| text::has_prefix(text::trimmed(s), "nats://"@)
                ||| text::has_prefix(text::trimmed(s), "tls://"@)
                ||| text::has_prefix(text::trimmed(s), "ws://"@)
                ||| text::has_prefix(text::trimmed(s), "wss://"@)
            }
        },
{
}

/// What is wrong with an answer is told once, with the field and the reason: a fault of a
/// field is among the faults exactly if the field is at fault for that reason.
pub proof fn fault_names_its_field(mode: NormalizedMode, a: Json)
    ensures
        qa::faults(mode, a) == (if mode is Setup && a.text_member("data_dir"@) is None {
            seq![qa::fault("qa.error.required"@, "data_dir"@)]
        } else {
            Seq::empty()
        }) + (if mode is Setup && a.text_member("default_tenant"@) is None {
            seq![qa::fault("qa.error.required"@, "default_tenant"@)]
        } else {
            Seq::empty()
        }) + (if mode is Setup && a.text_member("public_base_url"@) is None {
            seq![qa::fault("qa.error.required"@, "public_base_url"@)]
        } else {
            Seq::empty()
        }) + (if mode is Remove && !(a.member("confirm_remove"@) is Some && qa::truth_of(
            a.member("confirm_remove"@)->0,
        ) == Some(true)) {
            seq![qa::fault("qa.error.remove_confirmation"@, "confirm_remove"@)]
        } else {
            Seq::empty()
        }) + (if a.text_member("data_dir"@) is Some && text::trimmed(
            a.text_member("data_dir"@)->0,
        ).len() == 0 {
            seq![qa::fault("qa.error.invalid_data_dir"@, "data_dir"@)]
        } else {
            Seq::empty()
        }) + (if a.text_member("default_tenant"@) is Some && text::trimmed(
            a.text_member("default_tenant"@)->0,
        ).len() == 0 {
            seq![qa::fault("qa.error.invalid_default_tenant"@, "default_tenant"@)]
        } else {
            Seq::empty()
        }) + (if a.text_member("public_base_url"@) is Some && !text::has_prefix(
            text::trimmed(a.text_member("public_base_url"@)->0),
            "http://"@,
        ) && !text::has_prefix(
            text::trimmed(a.text_member("public_base_url"@)->0),
            "https://"@,
        ) {
            seq![qa::fault("qa.error.invalid_public_base_url"@, "public_base_url"@)]
        } else {
            Seq::empty()
        }) + qa::nats_fault(a),
        a.text_member("nats_url"@) matches Some(s) ==> text::trimmed(s).len() > 0
            && !text::has_prefix(text::trimmed(s), "nats://"@) && !text::has_prefix(
            text::trimmed(s),
            "tls://"@,
        ) && !text::has_prefix(text::trimmed(s), "ws://"@) && !text::has_prefix(
            text::trimmed(s),
            "wss://"@,
        ) ==> qa::nats_fault(a) == seq![qa::fault("qa.error.invalid_nats_url"@, "nats_url"@)],
{
}

/// A fault says its key, as what it is and as the message about it, and the field.
pub proof fn fault_says_its_key_and_field(key: Seq<char>, field: Seq<char>)
    ensures
        qa::fault(key, field).text_member("key"@) == Some(key),
        qa::fault(key, field).text_member("msg_key"@) == Some(key),
        qa::fault(key, field).member("fields"@) matches Some(Json::Array(fields)) && fields.len()
            == 1 && fields[0] == Json::Text(field),
{
    reveal_strlit("key");
    reveal_strlit("msg_key");
    reveal_strlit("fields");
    assert("key"@.len() == 3 && "msg_key"@.len() == 7 && "fields"@.len() == 6);
}

/// The words for true and false count in whatever case and with white space around them; other
/// words, numbers and values stand for neither.
pub proof fn words_stand_for_truth_values(s: Seq<char>, b: bool)
    ensures
        qa::truth_of(Json::Bool(b)) == Some(b),
        ({
            let word = text::lower(text::trimmed(s));
            &&& qa::truth_of(Json::Text(s)) == Some(true) <==> word == "true"@ || word == "1"@
                || word == "yes"@ || word == "on"@
            &&& qa::truth_of(Json::Text(s)) == Some(false) <==> word == "false"@ || word == "0"@
                || word == "no"@ || word == "off"@
        }),
        qa::truth_of(Json::Null) is None,
{
    reveal_strlit("true");
    reveal_strlit("1");
    reveal_strlit("yes");
    reveal_strlit("on");
    reveal_strlit("false");
    reveal_strlit("0");
    reveal_strlit("no");
    reveal_strlit("off");
    assert("true"@.len() == 4 && "1"@.len() == 1 && "yes"@.len() == 3 && "on"@.len() == 2);
    assert("false"@.len() == 5 && "0"@.len() == 1 && "no"@.len() == 2 && "off"@.len() == 3);
    assert("yes"@[0] == 'y' && "off"@[0] == 'o' && "on"@[0] == 'o' && "no"@[0] == 'n');
    assert("1"@[0] == '1' && "0"@[0] == '0');
}

/// A text answer is taken without the white space around it, in the fields that hold texts; an
/// answer of another type changes nothing there. A blank address of the message server takes
/// it out.
pub proof fn text_answers_are_trimmed(
    config: Map<Seq<char>, Json>,
    answers: Map<Seq<char>, Json>,
    key: Seq<char>,
)
    requires
        answers.contains_key(key),
        key == "data_dir"@ || key == "default_tenant"@ || key == "public_base_url"@ || key
            == "public_path_prefix"@ || key == "nats_url"@,
    ensures
        ({
            let after = qa::merged(config, answers);
            &&& answers[key] matches Json::Text(s) ==> key != "nats_url"@ || text::trimmed(s).len()
                > 0 ==> after.contains_key(key) && after[key] == Json::Text(text::trimmed(s))
            &&& answers[key] matches Json::Text(s) ==> key == "nats_url"@ && text::trimmed(s).len()
                == 0 ==> !after.contains_key(key)
            &&& !(answers[key] is Text) ==> after.get(key) == config.get(key)
        }),
{
    reveal_strlit("data_dir");
    reveal_strlit("default_tenant");
    reveal_strlit("public_base_url");
    reveal_strlit("public_path_prefix");
    reveal_strlit("nats_url");
    assert("data_dir"@[0] == 'd' && "default_tenant"@[0] == 'd' && "nats_url"@[0] == 'n');
    assert("public_base_url"@[0] == 'p' && "public_path_prefix"@[0] == 'p');
}

/// An answer that stands for a truth value is taken as one where the field holds one, and any
/// other changes nothing there; other fields take the answer as it is.
pub proof fn other_answers_are_taken(
    config: Map<Seq<char>, Json>,
    answers: Map<Seq<char>, Json>,
    key: Seq<char>,
)
    requires
        answers.contains_key(key),
        key != "data_dir"@ && key != "default_tenant"@ && key != "public_base_url"@ && key
            != "public_path_prefix"@ && key != "nats_url"@,
    ensures
        ({
            let after = qa::merged(config, answers);
            let holds_truth = key == "swarm_enable"@ || key == "confirm_remove"@;
            &&& qa::truth_of(answers[key]) matches Some(b) ==> holds_truth ==> after.contains_key(
                key,
            ) && after[key] == Json::Bool(b)
            &&& holds_truth && qa::truth_of(answers[key]) is None ==> after.get(key) == config.get(
                key,
            )
            &&& !holds_truth ==> after.contains_key(key) && after[key] == answers[key]
        }),
{
}

/// A path prefix loses the white space around it and the slashes at its end, and starts with a
/// slash; a blank one, or a slash alone, is the default.
pub proof fn prefix_starts_with_a_slash(value: Seq<char>)
    ensures
        ({
            let r = qa::normalized_prefix(value);
            let t = text::trimmed(value);
            &&& t.len() == 0 || t == "/"@ ==> r == "/dwbase"@
            &&& r.len() > 0 ==> r[0] == '/' && r.last() != '/'
            &&& t.len() > 0 && t.last() != '/' && t[0] != '/' ==> r == "/"@ + t
            &&& t.len() > 0 && t.last() != '/' && t[0] == '/' ==> r == t
            &&& t.len() > 1 && t.last() == '/' && t[t.len() - 2] != '/' && t[0] != '/' ==> r
                == "/"@ + t.drop_last()
            &&& t.len() > 1 && t.last() == '/' && t[t.len() - 2] != '/' && t[0] == '/' ==> r
                == t.drop_last()
        }),
{
    reveal_strlit("/");
    reveal_strlit("/dwbase");
    assert("/dwbase"@[0] == '/' && "/dwbase"@.last() == 'e');
    let t = text::trimmed(value);
    if t.len() > 0 && t != "/"@ {
        let full = if t[0] == '/' { t } else { "/"@ + t };
        assert(full[0] == '/');
        ends_are_cut(full, '/');
        assert(full.last() == t.last());
        assert(full.drop_last() =~= if t[0] == '/' { t.drop_last() } else { "/"@ + t.drop_last() });
        if t.len() > 1 {
            assert(full[full.len() - 2] == t[t.len() - 2]);
        } else {
            assert(t[0] == '/' ==> t =~= "/"@);
        }
        reveal_with_fuel(text::without_trailing, 3);
        assert(full.drop_last().last() == full[full.len() - 2]);
    }
}

proof fn ends_are_cut(s: Seq<char>, c: char)
    ensures
        ({
            let r = text::without_trailing(s, c);
            &&& r.len() <= s.len() && r == s.subrange(0, r.len() as int)
            &&& r.len() > 0 ==> r.last() != c
            &&& forall|i: int| r.len() <= i < s.len() ==> #[trigger] s[i] == c
        }),
    decreases s.len(),
{
    let r = text::without_trailing(s, c);
    if s.len() > 0 && s.last() == c {
        let rest = s.drop_last();
        ends_are_cut(rest, c);
        assert(r =~= s.subrange(0, r.len() as int));
        assert forall|i: int| r.len() <= i < s.len() implies #[trigger] s[i] == c by {
            if i < rest.len() {
                assert(rest[i] == c);
            }
        }
    } else {
        assert(s.subrange(0, s.len() as int) =~= s);
    }
}

/// The public address of the component is the one that is configured, without the slashes at
/// its end, and the path prefix behind it; without an address there is none.
pub proof fn public_address_joins_base_and_prefix(config: Map<Seq<char>, Json>)
    ensures
        ({
            let m = qa::ingress_of(config);
            let prefix = match config.get("public_path_prefix"@) {
                Some(Json::Text(p)) => qa::normalized_prefix(p),
                _ => qa::normalized_prefix("/dwbase"@),
            };
            &&& m.contains_key("public_path_prefix"@) && m["public_path_prefix"@] == Json::Text(
                prefix,
            )
            &&& m.contains_key("required"@) && m["required"@] == Json::Bool(true)
            &&& m.contains_key("ingress_enabled"@) && m["ingress_enabled"@] == Json::Bool(true)
            &&& m.contains_key("public_base_url"@) && m.contains_key("public_api_base_url"@)
            &&& config.contains_key("public_base_url"@) ==> m["public_base_url"@]
                == config["public_base_url"@]
            &&& !config.contains_key("public_base_url"@) ==> m["public_base_url"@] is Null
                && m["public_api_base_url"@] is Null
            &&& config.get("public_base_url"@) matches Some(Json::Text(base)) ==> {
                &&& base.len() > 0 && base.last() != '/' ==> m["public_api_base_url"@]
                    == Json::Text(base + prefix)
                &&& base.len() > 1 && base.last() == '/' && base[base.len() - 2] != '/'
                    ==> m["public_api_base_url"@] == Json::Text(base.drop_last() + prefix)
                &&& base.len() == 0 ==> m["public_api_base_url"@] is Null
            }
        }),
{
    reveal_with_fuel(text::without_trailing, 3);
    reveal_strlit("required");
    reveal_strlit("public_base_url");
    reveal_strlit("public_path_prefix");
    reveal_strlit("public_api_base_url");
    reveal_strlit("ingress_enabled");
    assert("required"@.len() == 8 && "public_base_url"@.len() == 15);
    assert("public_path_prefix"@.len() == 18 && "public_api_base_url"@.len() == 19);
    assert("ingress_enabled"@.len() == 15);
    assert("ingress_enabled"@[0] == 'i' && "public_base_url"@[0] == 'p');
}

/// Accepted answers of a setup or an update enable the component, with its public address; a
/// path prefix and whether it swarms are set only where they are not. A removal disables it and
/// its address. What else is configured stays.
pub proof fn configuration_is_completed(
    mode: NormalizedMode,
    config: Map<Seq<char>, Json>,
    key: Seq<char>,
)
    ensures
        ({
            let after = qa::configured(mode, config);
            &&& after.contains_key("enabled"@) && after["enabled"@] == Json::Bool(
                !(mode is Remove),
            )
            &&& mode is Remove ==> after.contains_key("ingress_enabled"@)
                && after["ingress_enabled"@] == Json::Bool(false)
            &&& mode is Remove && key != "enabled"@ && key != "ingress_enabled"@ ==> after.get(key)
                == config.get(key)
            &&& !(mode is Remove) ==> {
                &&& config.contains_key(key) && key != "enabled"@ && key != "ingress"@
                    ==> after.contains_key(key) && after[key] == config[key]
                &&& after.contains_key("public_path_prefix"@)
                &&& !config.contains_key("public_path_prefix"@) ==> after["public_path_prefix"@]
                    == Json::Text("/dwbase"@)
                &&& after.contains_key("swarm_enable"@)
                &&& !config.contains_key("swarm_enable"@) ==> after["swarm_enable"@] == Json::Bool(
                    false,
                )
                &&& after.contains_key("ingress"@)
                &&& config.contains_key("public_path_prefix"@) && config.contains_key(
                    "swarm_enable"@,
                ) ==> after["ingress"@] == Json::Object(qa::ingress_of(config))
                &&& !config.contains_key(key) && key != "enabled"@ && key != "ingress"@ && key
                    != "public_path_prefix"@ && key != "swarm_enable"@ ==> !after.contains_key(key)
            }
        }),
{
    reveal_strlit("enabled");
    reveal_strlit("ingress");
    reveal_strlit("ingress_enabled");
    reveal_strlit("public_path_prefix");
    reveal_strlit("swarm_enable");
    assert("enabled"@.len() == 7 && "ingress"@.len() == 7 && "ingress_enabled"@.len() == 15);
    assert("enabled"@[0] == 'e' && "ingress"@[0] == 'i');
    assert("public_path_prefix"@.len() == 18 && "swarm_enable"@.len() == 12);
}

/// The answers of a request are under `answers`, or else under `config`. Without fault they
/// are merged into the configuration so far, and the result is that configuration, completed;
/// with one, the result is the faults.
pub proof fn answers_lead_to_faults_or_configuration(
    mode: NormalizedMode,
    payload: Map<Seq<char>, Json>,
)
    ensures
        ({
            let r = qa::applied(mode, Json::Object(payload));
            let answers = if payload.contains_key("answers"@) {
                payload["answers"@]
            } else if payload.contains_key("config"@) {
                payload["config"@]
            } else {
                Json::Object(Map::empty())
            };
            let so_far = if payload.contains_key("current_config"@) && payload["current_config"@]
                is Object {
                payload["current_config"@]->Object_0
            } else {
                Map::empty()
            };
            let faults = qa::faults(mode, answers);
            &&& r.contains_key("ok"@) && r["ok"@] == Json::Bool(faults.len() == 0)
            &&& r.contains_key("errors"@) && r["errors"@] == Json::Array(faults)
            &&& r.contains_key("warnings"@) && r["warnings"@] == Json::Array(Seq::empty())
            &&& r.contains_key("meta"@) && r["meta"@].text_member("mode"@) == Some(mode.name())
                && r["meta"@].text_member("version"@) == Some("v1"@)
            &&& r.contains_key("config"@) <==> faults.len() == 0
            &&& faults.len() == 0 && answers is Object ==> r["config"@] == Json::Object(
                qa::configured(mode, qa::merged(so_far, answers->Object_0)),
            )
            &&& faults.len() == 0 && !(answers is Object) ==> r["config"@] == Json::Object(
                qa::configured(mode, so_far),
            )
        }),
{
    reveal_strlit("ok");
    reveal_strlit("errors");
    reveal_strlit("warnings");
    reveal_strlit("meta");
    reveal_strlit("config");
    reveal_strlit("audit");
    reveal_strlit("mode");
    reveal_strlit("version");
    assert("ok"@.len() == 2 && "errors"@.len() == 6 && "warnings"@.len() == 8);
    assert("meta"@.len() == 4 && "config"@.len() == 6 && "audit"@.len() == 5);
    assert("errors"@[0] == 'e' && "config"@[0] == 'c');
    assert("mode"@.len() == 4 && "version"@.len() == 7);
    let faults = qa::faults(mode, qa::answers_of(Json::Object(payload)));
    if faults.len() == 0 {
        assert(faults =~= Seq::empty());
    }
}

/// The names of the modes, old and new, and no other name, stand for one.
pub proof fn names_stand_for_modes(raw: Seq<char>)
    ensures
        qa::mode_named(raw) == Some(NormalizedMode::Setup) <==> raw == "default"@ || raw
            == "setup"@ || raw == "install"@,
        qa::mode_named(raw) == Some(NormalizedMode::Update) <==> raw == "update"@ || raw
            == "upgrade"@,
        qa::mode_named(raw) == Some(NormalizedMode::Remove) <==> raw == "remove"@,
{
    reveal_strlit("default");
    reveal_strlit("setup");
    reveal_strlit("install");
    reveal_strlit("update");
    reveal_strlit("upgrade");
    reveal_strlit("remove");
    assert("default"@[0] == 'd' && "setup"@[0] == 's' && "install"@[0] == 'i');
    assert("update"@[0] == 'u' && "upgrade"@[0] == 'u' && "remove"@[0] == 'r');
}

/// A setup asks for the six fields of the configuration and needs the first three; an update
/// asks for the same and needs none; a removal asks to be confirmed.
pub proof fn modes_ask_their_questions(mode: NormalizedMode, i: int)
    ensures
        ({
            let q = qa::questions_of(mode);
            let ids = seq![
                "data_dir"@,
                "default_tenant"@,
                "public_base_url"@,
                "public_path_prefix"@,
                "nats_url"@,
                "swarm_enable"@,
            ];
            &&& !(mode is Remove) ==> q.len() == 6
            &&& !(mode is Remove) && 0 <= i < 6 ==> q[i].text_member("id"@) == Some(ids[i])
                && q[i].member("required"@) == Some(Json::Bool(mode is Setup && i < 3))
            &&& mode is Remove ==> q.len() == 1 && q[0].text_member("id"@) == Some(
                "confirm_remove"@,
            ) && q[0].member("required"@) == Some(Json::Bool(true))
        }),
{
    reveal_strlit("id");
    reveal_strlit("label");
    reveal_strlit("help");
    reveal_strlit("kind");
    reveal_strlit("required");
    assert("id"@.len() == 2 && "label"@.len() == 5 && "help"@.len() == 4 && "kind"@.len() == 4);
    assert("required"@.len() == 8);
}

/// What is asked is told with the mode, its questions and its headings.
pub proof fn asking_tells_the_mode(mode: NormalizedMode)
    ensures
        qa::qa_spec(mode).text_member("mode"@) == Some(mode.name()),
        qa::qa_spec(mode).member("questions"@) == Some(Json::Array(qa::questions_of(mode))),
        qa::qa_spec(mode).member("title"@) is Some,
        qa::qa_spec(mode).member("description"@) is Some,
        mode.name() == match mode {
            NormalizedMode::Setup => "setup"@,
            NormalizedMode::Update => "update"@,
            NormalizedMode::Remove => "remove"@,
        },
{
    reveal_strlit("mode");
    reveal_strlit("title");
    reveal_strlit("description");
    reveal_strlit("questions");
    reveal_strlit("defaults");
    assert("mode"@.len() == 4 && "title"@.len() == 5 && "description"@.len() == 11);
    assert("questions"@.len() == 9 && "defaults"@.len() == 8);
}

/// A request is of the mode that it names, else of the one that its operation names, else a
/// setup; a name that stands for none is a setup too.
pub proof fn request_names_its_mode(payload: Json)
    ensures
        payload.text_member("mode"@) matches Some(s) ==> qa::mode_named(s) matches Some(m)
            ==> component::mode_of_request(payload) == m && qa::payload_mode(payload) == m,
        payload.text_member("mode"@) matches Some(s) ==> qa::mode_named(s) is None
            ==> component::mode_of_request(payload) is Setup && qa::payload_mode(payload) is Setup,
        payload.text_member("mode"@) is None ==> qa::payload_mode(payload) is Setup,
        payload.text_member("operation"@) matches Some(s) ==> qa::mode_named(s) matches Some(m)
            ==> payload.text_member("mode"@) is None ==> component::mode_of_request(payload) == m,
        payload.text_member("mode"@) is None && payload.text_member("operation"@) is None
            ==> component::mode_of_request(payload) is Setup,
{
    names_stand_for_modes("setup"@);
}

/// Each operation is answered with what it is for; any other is a configuration.
pub proof fn operations_are_answered(
    operation: Seq<char>,
    value: Json,
    printed: Seq<char>,
    keys: Seq<Seq<char>>,
)
    ensures
        component::reply_to("dwbase.requirements"@, value, printed, keys) == qa::requirements(),
        component::reply_to("qa-spec"@, value, printed, keys) == qa::qa_spec(
            component::mode_of_request(value),
        ),
        component::reply_to("apply-answers"@, value, printed, keys) == Json::Object(
            qa::applied(component::mode_of_request(value), value),
        ),
        component::reply_to("i18n-keys"@, value, printed, keys) == json::texts_of(keys),
        operation != "dwbase.requirements"@ && operation != "qa-spec"@ && operation
            != "apply-answers"@ && operation != "i18n-keys"@ && operation != "dwbase.echo"@
            ==> component::reply_to(operation, value, printed, keys) == Json::Object(
            qa::applied(qa::payload_mode(value), value).insert(
                "requirements"@,
                qa::requirements(),
            ),
        ),
{
    operation_names_differ();
}

/// An echo gives back the operation and the input that it names, trimmed; without them, its
/// own name and the request as text.
pub proof fn echo_gives_the_input_back(value: Json, printed: Seq<char>, keys: Seq<Seq<char>>)
    ensures
        ({
            let name = match value.text_member("operation"@) {
                Some(s) => s,
                None => "dwbase.echo"@,
            };
            let input = match value.text_member("input"@) {
                Some(s) => s,
                None => printed,
            };
            component::reply_to("dwbase.echo"@, value, printed, keys).text_member("message"@)
                == Some(component::COMPONENT_NAME@ + "::"@ + name + " => "@ + text::trimmed(input))
        }),
{
    operation_names_differ();
}

proof fn operation_names_differ()
    ensures
        "dwbase.requirements"@ != "qa-spec"@,
        "dwbase.requirements"@ != "apply-answers"@,
        "dwbase.requirements"@ != "i18n-keys"@,
        "dwbase.requirements"@ != "dwbase.echo"@,
        "qa-spec"@ != "apply-answers"@,
        "qa-spec"@ != "i18n-keys"@,
        "qa-spec"@ != "dwbase.echo"@,
        "apply-answers"@ != "i18n-keys"@,
        "apply-answers"@ != "dwbase.echo"@,
        "i18n-keys"@ != "dwbase.echo"@,
{
    reveal_strlit("dwbase.requirements");
    reveal_strlit("qa-spec");
    reveal_strlit("apply-answers");
    reveal_strlit("i18n-keys");
    reveal_strlit("dwbase.echo");
    assert("dwbase.requirements"@.len() == 19 && "qa-spec"@.len() == 7);
    assert("apply-answers"@.len() == 13 && "i18n-keys"@.len() == 9 && "dwbase.echo"@.len() == 11);
}

/// A request is read as CBOR where it is that, else as JSON, else it is empty.
pub proof fn request_is_cbor_or_json(b: Seq<u8>)
    ensures
        json::cbor_read(b) matches Some(v) ==> component::payload_of(b) == v,
        json::json_read(b) matches Some(v) ==> json::cbor_read(b) is None ==> component::payload_of(
            b,
        ) == v,
        json::cbor_read(b) is None && json::json_read(b) is None ==> component::payload_of(b)
            == Json::Object(Map::empty()),
{
}

/// What the component needs names the fields that must and may be configured, and that it
/// needs a public address.
pub proof fn requirements_name_the_fields()
    ensures
        qa::requirements().member("required_config_keys"@) == Some(
            json::texts_of(seq!["data_dir"@, "default_tenant"@, "public_base_url"@]),
        ),
        qa::requirements().member("optional_config_keys"@) == Some(
            json::texts_of(seq!["public_path_prefix"@, "nats_url"@, "swarm_enable"@]),
        ),
        qa::requirements().member("requires_http_ingress"@) == Some(Json::Bool(true)),
        qa::requirements().text_member("cap_id"@) == Some("greentic.cap.dwbase.memory.v1"@),
        qa::requirements().text_member("provider_op"@) == Some("dwbase.configure"@),
        qa::requirements().text_member("public_path_prefix_default"@) == Some("/dwbase"@),
{
    reveal_strlit("cap_id");
    reveal_strlit("provider_op");
    reveal_strlit("requires_http_ingress");
    reveal_strlit("required_config_keys");
    reveal_strlit("optional_config_keys");
    reveal_strlit("public_base_url_field");
    reveal_strlit("public_path_prefix_default");
    reveal_strlit("supports");
    reveal_strlit("secrets");
    assert("cap_id"@.len() == 6 && "provider_op"@.len() == 11);
    assert("requires_http_ingress"@.len() == 21 && "public_base_url_field"@.len() == 21);
    assert("required_config_keys"@.len() == 20 && "optional_config_keys"@.len() == 20);
    assert("requires_http_ingress"@[0] == 'r' && "public_base_url_field"@[0] == 'p');
    assert("required_config_keys"@[0] == 'r' && "optional_config_keys"@[0] == 'o');
    assert("public_path_prefix_default"@.len() == 26);
    assert("supports"@.len() == 8 && "secrets"@.len() == 7);
}

/// A text is looked for in the locale that is asked for, in its language, and in English, in
/// this order; a key that none of them has is its own text. `_` counts as `-`.
pub proof fn texts_are_found_along_the_chain(
    texts: Map<Seq<char>, Map<Seq<char>, Seq<char>>>,
    language: Seq<char>,
    region: Seq<char>,
    key: Seq<char>,
)
    requires
        !language.contains('_') && !language.contains('-'),
        !region.contains('_') && !region.contains('-'),
    ensures
        ({
            let full = language + "-"@ + region;
            let there = |l: Seq<char>| texts.contains_key(l) && texts[l].contains_key(key);
            let found = i18n::message_of(texts, i18n::chain_of(full), key);
            let alone = i18n::message_of(texts, i18n::chain_of(language), key);
            &&& i18n::chain_of(language + "_"@ + region) == i18n::chain_of(full)
            &&& there(full) ==> found == texts[full][key]
            &&& !there(full) && there(language) ==> found == texts[language][key]
            &&& !there(full) && !there(language) && there("en"@) ==> found == texts["en"@][key]
            &&& !there(full) && !there(language) && !there("en"@) ==> found == key
            &&& there(language) ==> alone == texts[language][key]
            &&& !there(language) && there("en"@) ==> alone == texts["en"@][key]
            &&& !there(language) && !there("en"@) ==> alone == key
        }),
{
    reveal_strlit("-");
    reveal_strlit("_");
    let full = language + "-"@ + region;
    let under = language + "_"@ + region;
    assert forall|i: int| 0 <= i < language.len() implies #[trigger] language[i] != '_'
        && language[i] != '-' by {
        assert(language.contains(language[i]));
    }
    assert forall|i: int| 0 <= i < region.len() implies #[trigger] region[i] != '_' && region[i]
        != '-' by {
        assert(region.contains(region[i]));
    }
    let n = language.len() as int;
    assert(full[n] == '-');
    assert(text::replaced(language, '_', '-') =~= language);
    assert(text::replaced(full, '_', '-') =~= full) by {
        assert forall|i: int| 0 <= i < full.len() implies #[trigger] full[i] != '_' by {
            if i < n {
                assert(full[i] == language[i]);
            } else if i > n {
                assert(full[i] == region[i - n - 1]);
            }
        }
    }
    assert(text::replaced(under, '_', '-') =~= full) by {
        assert forall|i: int| 0 <= i < under.len() implies #[trigger] text::replaced(
            under,
            '_',
            '-',
        )[i] == full[i] by {
            if i < n {
                assert(under[i] == language[i]);
            } else if i > n {
                assert(under[i] == region[i - n - 1]);
            } else {
                assert(under[n] == '_');
            }
        }
    }
    assert(full.contains('-'));
    first_part_is_before(language, '-', region);
    assert(full =~= language + seq!['-'] + region);
    let three = seq![full, language, "en"@];
    let two = seq![language, "en"@];
    let one = seq!["en"@];
    assert(three.drop_first() =~= two);
    assert(two.drop_first() =~= one);
    assert(one.drop_first() =~= Seq::empty());
    reveal_with_fuel(i18n::message_of, 4);
}

proof fn first_part_is_before(a: Seq<char>, c: char, b: Seq<char>)
    requires
        !a.contains(c),
    ensures
        text::first_part(a + seq![c] + b, c) == a,
    decreases a.len(),
{
    let all = a + seq![c] + b;
    if a.len() == 0 {
        assert(all[0] == c);
        assert(text::first_part(all, c) =~= a);
    } else {
        let rest = a.drop_first();
        assert(a.contains(a[0]));
        if rest.contains(c) {
            let i = choose|i: int| 0 <= i < rest.len() && rest[i] == c;
            assert(a[i + 1] == c);
        }
        first_part_is_before(rest, c, b);
        assert(all.drop_first() =~= rest + seq![c] + b);
        assert(text::first_part(all, c) =~= a);
    }
}

/// A text to be translated is told by its key.
pub proof fn text_is_told_by_its_key(key: Seq<char>)
    ensures
        qa::text_by_key(key).text_member("key"@) == Some(key),
        qa::text_by_key(key).member("fallback"@) == Some(Json::Null),
{
    reveal_strlit("key");
    reveal_strlit("fallback");
    assert("key"@.len() == 3 && "fallback"@.len() == 8);
}

/// The requests and replies of the component are objects with one text, which must be there,
/// may be empty, and is all that there is.
pub proof fn schema_wants_one_text(property: Seq<char>)
    ensures
        ({
            let s = component::one_text(property);
            &&& s.properties.len() == 1
            &&& s.properties[0].0 == property
            &&& s.properties[0].1.min_len == Some(0u64)
            &&& s.properties[0].1.max_len is None
            &&& s.required == seq![property]
            &&& s.additional is Forbid
        }),
{
}

/// The component is described by its name and version, and offers six operations.
pub proof fn description_offers_the_operations(
    version: Seq<char>,
    input: Seq<u8>,
    output: Seq<u8>,
    i: int,
)
    ensures
        ({
            let d = component::description(version, input, output);
            let names = seq![
                "dwbase.configure"@,
                "dwbase.requirements"@,
                "dwbase.echo"@,
                "qa-spec"@,
                "apply-answers"@,
                "i18n-keys"@,
            ];
            &&& d.name == "dwbase"@
            &&& d.version == version
            &&& d.ops.len() == 6
            &&& 0 <= i < 6 ==> d.ops[i].name == names[i] && d.ops[i].input.schema == input
                && d.ops[i].output.schema == output && d.ops[i].input.content_type
                == "application/cbor"@ && d.ops[i].output.content_type == "application/cbor"@
                && d.ops[i].summary is Some
            &&& d.capabilities.len() == 0 && d.schemas.len() == 0 && d.setup is None
        }),
{
}

/// The keys of the texts are listed in dictionary order, each once, and all of them.
pub proof fn keys_are_listed_in_order(
    texts: Map<Seq<char>, Seq<char>>,
    keys: Seq<Seq<char>>,
    i: int,
    j: int,
    k: Seq<char>,
)
    requires
        i18n::is_key_list(texts, keys),
    ensures
        0 <= i < j < keys.len() ==> text::before(keys[i], keys[j]),
        keys.contains(k) <==> texts.contains_key(k),
{
}

}

use std::collections::BTreeMap;

use dwbase::component::{
    component_info, describe, describe_with, handle_message, input_schema_cbor, normalized_mode,
    output_schema_cbor, parse_payload, run_component, run_component_cbor, COMPONENT_NAME,
};
use dwbase::i18n::{all_keys, bundle, en_messages, locale_chain, t, LocaleBundle};
use dwbase::json::{JsonMap, JsonValue};
use dwbase::qa::{
    apply_answers, configure, i18n_keys, normalize_mode, normalize_path_prefix, qa_spec_json,
    requirements_json, NormalizedMode,
};
use greentic_types::cbor::canonical;
use greentic_types::i18n_text::I18nText;
use greentic_types::schemas::common::schema_ir::{AdditionalProperties, SchemaIr};
use greentic_types::schemas::component::v0_6_0::{QaMode, Question, QuestionKind};

fn outside(value: &JsonValue) -> serde_json::Value {
    match value {
        JsonValue::Null => serde_json::Value::Null,
        JsonValue::Bool(b) => serde_json::Value::Bool(*b),
        JsonValue::Number(n) => serde_json::Value::Number(n.clone()),
        JsonValue::Text(s) => serde_json::Value::String(s.clone()),
        JsonValue::Array(items) => serde_json::Value::Array(items.iter().map(outside).collect()),
        JsonValue::Object(m) => serde_json::Value::Object(
            m.names()
                .into_iter()
                .map(|name| {
                    let member = outside(m.get(&name).unwrap());
                    (name, member)
                })
                .collect(),
        ),
    }
}

fn inside(value: &serde_json::Value) -> JsonValue {
    match value {
        serde_json::Value::Null => JsonValue::null(),
        serde_json::Value::Bool(b) => JsonValue::bool(*b),
        serde_json::Value::Number(n) => JsonValue::Number(n.clone()),
        serde_json::Value::String(s) => JsonValue::text(s),
        serde_json::Value::Array(items) => JsonValue::array(items.iter().map(inside).collect()),
        serde_json::Value::Object(members) => {
            let mut m = JsonMap::new();
            for (name, member) in members {
                m.insert(name, inside(member));
            }
            JsonValue::object(m)
        }
    }
}

fn parse(text: &str) -> JsonValue {
    inside(&serde_json::from_str(text).unwrap())
}

fn value(text: &str) -> serde_json::Value {
    serde_json::from_str(text).unwrap()
}

fn question(id: &str, required: bool) -> serde_json::Value {
    serde_json::to_value(Question {
        id: id.to_string(),
        label: I18nText::new(format!("qa.field.{id}.label"), None),
        help: Some(I18nText::new(format!("qa.field.{id}.help"), None)),
        error: None,
        kind: QuestionKind::Text,
        required,
        default: None,
        skip_if: None,
    })
    .unwrap()
}

fn spec(mode: QaMode, name: &str, questions: Vec<serde_json::Value>) -> serde_json::Value {
    let mut m = serde_json::Map::new();
    m.insert("mode".into(), serde_json::to_value(mode).unwrap());
    m.insert(
        "title".into(),
        serde_json::to_value(I18nText::new(format!("qa.{name}.title"), None)).unwrap(),
    );
    m.insert(
        "description".into(),
        serde_json::to_value(I18nText::new(format!("qa.{name}.description"), None)).unwrap(),
    );
    m.insert("questions".into(), serde_json::Value::Array(questions));
    m.insert("defaults".into(), value("{}"));
    serde_json::Value::Object(m)
}

#[test]
fn questions_are_those_of_the_mode() {
    let fields = |required: bool| {
        vec![
            question("data_dir", required),
            question("default_tenant", required),
            question("public_base_url", required),
            question("public_path_prefix", false),
            question("nats_url", false),
            question("swarm_enable", false),
        ]
    };
    assert_eq!(
        outside(&qa_spec_json(NormalizedMode::Setup)),
        spec(QaMode::Setup, "install", fields(true))
    );
    assert_eq!(
        outside(&qa_spec_json(NormalizedMode::Update)),
        spec(QaMode::Update, "update", fields(false))
    );
    assert_eq!(
        outside(&qa_spec_json(NormalizedMode::Remove)),
        spec(QaMode::Remove, "remove", vec![question("confirm_remove", true)])
    );
}

#[test]
fn modes_have_several_names() {
    for raw in ["default", "setup", "install"] {
        assert_eq!(normalize_mode(raw), Some(NormalizedMode::Setup));
    }
    for raw in ["update", "upgrade"] {
        assert_eq!(normalize_mode(raw), Some(NormalizedMode::Update));
    }
    assert_eq!(normalize_mode("remove"), Some(NormalizedMode::Remove));
    assert_eq!(normalize_mode("Setup"), None);
    for mode in [
        NormalizedMode::Setup,
        NormalizedMode::Update,
        NormalizedMode::Remove,
    ] {
        assert_eq!(normalize_mode(mode.as_str()), Some(mode));
    }
    assert_eq!(
        normalized_mode(&parse(r#"{"operation":"upgrade"}"#)),
        NormalizedMode::Update
    );
    assert_eq!(
        normalized_mode(&parse(r#"{"mode":"remove","operation":"upgrade"}"#)),
        NormalizedMode::Remove
    );
    assert_eq!(
        normalized_mode(&parse(r#"{"mode":"other"}"#)),
        NormalizedMode::Setup
    );
    assert_eq!(normalized_mode(&parse("{}")), NormalizedMode::Setup);
}

#[test]
fn setup_without_answers_is_refused() {
    let result = outside(&apply_answers(NormalizedMode::Setup, &parse("{}")));
    assert_eq!(
        result,
        value(
            r#"{
              "ok": false,
              "warnings": [],
              "errors": [
                {"key": "qa.error.required", "msg_key": "qa.error.required", "fields": ["data_dir"]},
                {"key": "qa.error.required", "msg_key": "qa.error.required", "fields": ["default_tenant"]},
                {"key": "qa.error.required", "msg_key": "qa.error.required", "fields": ["public_base_url"]}
              ],
              "meta": {"mode": "setup", "version": "v1"}
            }"#
        )
    );
}

#[test]
fn setup_gives_the_whole_configuration() {
    let payload = parse(
        r#"{"answers": {
            "data_dir": " /var/lib ",
            "default_tenant": "acme",
            "public_base_url": "https://example.org//",
            "nats_url": "nats://n",
            "swarm_enable": " YES ",
            "confirm_remove": "maybe",
            "extra": [1, null]
        }}"#,
    );
    let result = outside(&apply_answers(NormalizedMode::Setup, &payload));
    assert_eq!(
        result,
        value(
            r#"{
              "ok": true,
              "config": {
                "data_dir": "/var/lib",
                "default_tenant": "acme",
                "public_base_url": "https://example.org//",
                "public_path_prefix": "/dwbase",
                "nats_url": "nats://n",
                "swarm_enable": true,
                "extra": [1, null],
                "enabled": true,
                "ingress": {
                  "required": true,
                  "public_base_url": "https://example.org//",
                  "public_path_prefix": "/dwbase",
                  "public_api_base_url": "https://example.org/dwbase",
                  "ingress_enabled": true
                }
              },
              "warnings": [],
              "errors": [],
              "meta": {"mode": "setup", "version": "v1"},
              "audit": {"reasons": ["qa.apply_answers", "dwbase.configure"], "timings_ms": {}}
            }"#
        )
    );
    let mut with_requirements = result;
    with_requirements
        .as_object_mut()
        .unwrap()
        .insert("requirements".into(), outside(&requirements_json()));
    assert_eq!(outside(&configure(&payload)), with_requirements);
}

#[test]
fn update_keeps_what_is_not_answered() {
    let payload = parse(
        r#"{"config": {"nats_url": "  ", "public_path_prefix": "api/", "swarm_enable": "maybe"},
            "current_config": {"data_dir": "/d", "nats_url": "nats://old", "swarm_enable": true}}"#,
    );
    let result = outside(&apply_answers(NormalizedMode::Update, &payload));
    assert_eq!(
        result["config"],
        value(
            r#"{
              "data_dir": "/d",
              "public_path_prefix": "api/",
              "swarm_enable": true,
              "enabled": true,
              "ingress": {
                "required": true,
                "public_base_url": null,
                "public_path_prefix": "/api",
                "public_api_base_url": null,
                "ingress_enabled": true
              }
            }"#
        )
    );
    let odd = parse(r#"{"answers": 5, "current_config": "none"}"#);
    let result = outside(&apply_answers(NormalizedMode::Update, &odd));
    assert_eq!(result["ok"], value("true"));
    assert_eq!(result["config"]["public_path_prefix"], value("\"/dwbase\""));
}

#[test]
fn faulty_answers_are_named() {
    let payload = parse(
        r#"{"answers": {"data_dir": " ", "default_tenant": "", "public_base_url": "ftp://x",
            "nats_url": "http://x"}}"#,
    );
    let result = outside(&apply_answers(NormalizedMode::Update, &payload));
    let errors: Vec<&str> = result["errors"]
        .as_array()
        .unwrap()
        .iter()
        .map(|e| e["key"].as_str().unwrap())
        .collect();
    assert_eq!(
        errors,
        [
            "qa.error.invalid_data_dir",
            "qa.error.invalid_default_tenant",
            "qa.error.invalid_public_base_url",
            "qa.error.invalid_nats_url"
        ]
    );
    assert_eq!(result["config"], serde_json::Value::Null);
}

#[test]
fn removal_has_to_be_confirmed() {
    let refused = outside(&apply_answers(
        NormalizedMode::Remove,
        &parse(r#"{"answers": {"confirm_remove": "off"}}"#),
    ));
    assert_eq!(
        refused["errors"][0]["key"],
        value("\"qa.error.remove_confirmation\"")
    );
    let done = outside(&apply_answers(
        NormalizedMode::Remove,
        &parse(r#"{"answers": {"confirm_remove": "1"}, "current_config": {"a": 1}}"#),
    ));
    assert_eq!(
        done["config"],
        value(r#"{"a": 1, "confirm_remove": true, "enabled": false, "ingress_enabled": false}"#)
    );
}

#[test]
fn path_prefixes_are_normalized() {
    for (raw, normal) in [
        ("", "/dwbase"),
        (" / ", "/dwbase"),
        ("api", "/api"),
        ("/api//", "/api"),
        (" a/b ", "/a/b"),
        ("//", ""),
    ] {
        assert_eq!(normalize_path_prefix(raw), normal);
    }
}

#[test]
fn requirements_are_fixed() {
    assert_eq!(
        outside(&requirements_json()),
        value(
            r#"{
              "cap_id": "greentic.cap.dwbase.memory.v1",
              "provider_op": "dwbase.configure",
              "requires_http_ingress": true,
              "required_config_keys": ["data_dir", "default_tenant", "public_base_url"],
              "optional_config_keys": ["public_path_prefix", "nats_url", "swarm_enable"],
              "public_base_url_field": "public_base_url",
              "public_path_prefix_default": "/dwbase",
              "supports": ["component_config"],
              "secrets": []
            }"#
        )
    );
}

fn texts() -> LocaleBundle {
    let mut b = LocaleBundle::new();
    b.add("en", "hello", "Hello");
    b.add("en", "bye", "Goodbye");
    b.add("de", "hello", "Hallo");
    b.add("de-AT", "hello", "Servus");
    b
}

#[test]
fn texts_fall_back_along_the_chain() {
    let b = texts();
    assert_eq!(locale_chain("de_AT"), ["de-AT", "de", "en"]);
    assert_eq!(locale_chain("fr"), ["fr", "en"]);
    assert_eq!(t(&b, "de_AT", "hello"), "Servus");
    assert_eq!(t(&b, "de-CH", "hello"), "Hallo");
    assert_eq!(t(&b, "de", "bye"), "Goodbye");
    assert_eq!(t(&b, "fr", "missing"), "missing");
    assert_eq!(all_keys(&b), ["bye", "hello"]);
    assert_eq!(i18n_keys(&b), ["bye", "hello"]);
    assert_eq!(
        en_messages(&b).get("bye").map(|s| s.as_str()),
        Some("Goodbye")
    );
    let empty = bundle(None);
    assert!(all_keys(&empty).is_empty());
    assert_eq!(t(&empty, "en", "hello"), "hello");
    assert_eq!(en_messages(&empty).len(), 0);
    assert_eq!(t(&bundle(Some(texts())), "en", "bye"), "Goodbye");
}

fn schema(field: &str) -> Vec<u8> {
    canonical::to_canonical_cbor_allow_floats(&SchemaIr::Object {
        properties: BTreeMap::from([(
            field.to_string(),
            SchemaIr::String {
                min_len: Some(0),
                max_len: None,
                regex: None,
                format: None,
            },
        )]),
        required: vec![field.to_string()],
        additional: AdditionalProperties::Forbid,
    })
    .unwrap()
}

#[test]
fn schemas_are_in_cbor() {
    assert_eq!(input_schema_cbor().unwrap(), schema("input"));
    assert_eq!(output_schema_cbor().unwrap(), schema("message"));
    let d = describe("1.2.3").unwrap();
    assert_eq!(d.name, COMPONENT_NAME);
    assert_eq!(d.version, "1.2.3");
    let names: Vec<&str> = d.ops.iter().map(|op| op.name.as_str()).collect();
    assert_eq!(
        names,
        [
            "dwbase.configure",
            "dwbase.requirements",
            "dwbase.echo",
            "qa-spec",
            "apply-answers",
            "i18n-keys"
        ]
    );
    for op in &d.ops {
        assert_eq!(op.input.schema, schema("input"));
        assert_eq!(op.output.schema, schema("message"));
        assert_eq!(op.input.content_type, "application/cbor");
        assert_eq!(op.input.schema_version, None);
        assert_eq!(op.output.content_type, "application/cbor");
        assert_eq!(op.output.schema_version, None);
        assert!(op.examples.is_empty());
        assert!(op.summary.is_some());
    }
    assert_eq!(
        d.ops[3].summary.as_deref(),
        Some("Return QA spec for requested mode.")
    );
    assert_eq!(
        d.summary.as_deref(),
        Some("DWBase Greentic capability provider with ingress-aware QA and configuration.")
    );
    assert!(d.capabilities.is_empty());
    assert!(d.schemas.is_empty());
    assert!(d.setup.is_none());
    let plain = describe_with("v", &[1], &[2]);
    assert_eq!(plain.ops[5].input.schema, [1]);
    assert_eq!(plain.ops[0].output.schema, [2]);
    let info = component_info("9");
    assert_eq!(info.id, "ai.greentic.dwbase");
    assert_eq!(info.version, "9");
    assert_eq!(info.role, "tool");
}

#[test]
fn operations_are_told_apart() {
    let run = |operation: &str, text: &str| {
        outside(&run_component(
            operation,
            &parse(text),
            text,
            &["k1".to_string(), "k2".to_string()],
        ))
    };
    assert_eq!(handle_message("op", " in "), "dwbase::op => in");
    assert_eq!(
        run("dwbase.echo", r#"{"operation":"op","input":" hi "}"#),
        value(r#"{"message": "dwbase::op => hi"}"#)
    );
    assert_eq!(
        run("dwbase.echo", r#"{"x":1}"#),
        value(r#"{"message": "dwbase::dwbase.echo => {\"x\":1}"}"#)
    );
    assert_eq!(run("i18n-keys", "{}"), value(r#"["k1", "k2"]"#));
    assert_eq!(run("dwbase.requirements", "{}"), outside(&requirements_json()));
    assert_eq!(
        run("qa-spec", r#"{"mode":"remove"}"#),
        outside(&qa_spec_json(NormalizedMode::Remove))
    );
    assert_eq!(
        run("apply-answers", r#"{"mode":"update"}"#),
        outside(&apply_answers(NormalizedMode::Update, &parse("{}")))
    );
    let payload = r#"{"mode":"update"}"#;
    assert_eq!(run("dwbase.configure", payload), outside(&configure(&parse(payload))));
    assert_eq!(run("anything", payload), outside(&configure(&parse(payload))));
    assert!(run("anything", payload)["requirements"].is_object());
}

#[test]
fn objects_hold_each_name_once() {
    let mut m = JsonMap::new();
    m.insert("b", JsonValue::bool(true));
    m.insert("a", JsonValue::text("x"));
    m.insert("b", JsonValue::null());
    assert_eq!(m.len(), 2);
    let mut names = m.names();
    names.sort();
    assert_eq!(names, ["a", "b"]);
    m.remove("a");
    m.remove("none");
    assert!(!m.contains_key("a"));
    let o = JsonValue::object(m.clone());
    assert!(o.get("b").is_some());
    assert!(o.get("a").is_none());
    assert!(o.as_object().is_some());
    assert_eq!(o.as_bool(), None);
    assert_eq!(JsonValue::bool(true).as_bool(), Some(true));
    assert_eq!(JsonValue::text("t").as_str(), Some("t"));
    assert_eq!(parse(r#"{"k":"v"}"#).text_of("k"), Some("v"));
    assert_eq!(parse("[1]").text_of("k"), None);
    assert_eq!(outside(&o.clone()), outside(&o));
    assert_eq!(
        outside(&JsonValue::texts(&["a".to_string()])),
        value(r#"["a"]"#)
    );
}

#[test]
fn normalizing_a_prefix_again_changes_nothing() {
    for raw in ["", "/", "a", "/a/b//", " x ", "/dwbase"] {
        let once = normalize_path_prefix(raw);
        assert_eq!(normalize_path_prefix(&once), once);
    }
}

fn cbor(text: &str) -> Vec<u8> {
    canonical::to_canonical_cbor_allow_floats(&value(text)).unwrap()
}

const MIXED: &str =
    r#"{"a":[1,-2,0.1,1e300,18446744073709551615,"x\n\"",null,true],"b":{"c":{},"d":[]}}"#;

#[test]
fn requests_are_read_as_cbor_then_json_then_nothing() {
    assert_eq!(outside(&parse_payload(&cbor(MIXED))), value(MIXED));
    assert_eq!(outside(&parse_payload(MIXED.as_bytes())), value(MIXED));
    assert_eq!(outside(&parse_payload(b"{\"mode\":")), value("{}"));
    assert_eq!(outside(&parse_payload(&[])), value("{}"));
    assert_eq!(outside(&parse_payload(&[0xff])), value("{}"));
    // Bytes that can be read both ways are CBOR: a digit is a small negative number there.
    assert_eq!(outside(&parse_payload(b"1")), value("-18"));
    assert!(JsonValue::from_cbor(MIXED.as_bytes()).is_none());
    assert!(JsonValue::from_json(&cbor(MIXED)).is_none());
}

#[test]
fn values_are_printed_and_written() {
    assert_eq!(parse(MIXED).to_json(), value(MIXED).to_string());
    assert_eq!(parse(MIXED).to_cbor().unwrap(), cbor(MIXED));
    assert_eq!(JsonValue::whole(7).to_json(), "7");
    assert_eq!(JsonValue::whole(u64::MAX).to_json(), "18446744073709551615");
    let again = JsonValue::from_cbor(&parse(MIXED).to_cbor().unwrap()).unwrap();
    assert_eq!(outside(&again), value(MIXED));
    let again = JsonValue::from_json(parse(MIXED).to_json().as_bytes()).unwrap();
    assert_eq!(outside(&again), value(MIXED));
}

#[test]
fn operations_run_on_bytes() {
    let run = |operation: &str, input: &[u8]| {
        let out = run_component_cbor(operation, input, &texts()).unwrap();
        canonical::from_cbor::<serde_json::Value>(&out).unwrap()
    };
    for input in [cbor(r#"{"x":1}"#), br#"{ "x" : 1 }"#.to_vec()] {
        assert_eq!(
            run("dwbase.echo", &input),
            value(r#"{"message": "dwbase::dwbase.echo => {\"x\":1}"}"#)
        );
    }
    assert_eq!(
        run("dwbase.echo", &cbor(r#"{"operation":"op","input":" hi "}"#)),
        value(r#"{"message": "dwbase::op => hi"}"#)
    );
    assert_eq!(
        run("dwbase.echo", b"noise"),
        value(r#"{"message": "dwbase::dwbase.echo => {}"}"#)
    );
    assert_eq!(run("i18n-keys", b""), value(r#"["bye", "hello"]"#));
    assert_eq!(
        run("qa-spec", &cbor(r#"{"mode":"remove"}"#)),
        outside(&qa_spec_json(NormalizedMode::Remove))
    );
    assert_eq!(
        run("qa-spec", b"noise"),
        outside(&qa_spec_json(NormalizedMode::Setup))
    );
    let answers = r#"{"mode":"update","answers":{"public_path_prefix":"x"},"n":0.1}"#;
    assert_eq!(
        run("apply-answers", &cbor(answers)),
        outside(&apply_answers(NormalizedMode::Update, &parse(answers)))
    );
    assert_eq!(
        run_component_cbor("dwbase.configure", answers.as_bytes(), &texts()).unwrap(),
        canonical::to_canonical_cbor_allow_floats(&outside(&configure(&parse(answers)))).unwrap()
    );
}

#[test]
fn printing_matters_only_for_an_echo_without_input() {
    let keys: Vec<String> = vec!["k".into()];
    let reply = |operation: &str, text: &str, printed: &str| {
        outside(&run_component(operation, &parse(text), printed, &keys))
    };
    for operation in ["dwbase.configure", "qa-spec", "i18n-keys", "dwbase.requirements"] {
        assert_eq!(reply(operation, "{}", "a"), reply(operation, "{}", "b"));
    }
    let with_input = r#"{"input":"i"}"#;
    assert_eq!(
        reply("dwbase.echo", with_input, "a"),
        reply("dwbase.echo", with_input, "b")
    );
    assert_ne!(reply("dwbase.echo", "{}", "a"), reply("dwbase.echo", "{}", "b"));
}

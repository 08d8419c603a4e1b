//! The component: what it offers, and how it answers a request.

use greentic_types::schemas::common::schema_ir::{AdditionalProperties, SchemaIr};
use vstd::prelude::*;
use vstd::string::*;

use crate::i18n;
use crate::i18n::LocaleBundle;
use crate::json;
use crate::json::{Json, JsonMap, JsonValue};
use crate::keys::copy_bytes;
use crate::lists;
use crate::qa;
use crate::qa::{
    apply_answers, configure, i18n_keys, normalize_mode, qa_spec_json, requirements_json,
    NormalizedMode,
};
use crate::text;

verus! {

broadcast use crate::lists::group_views;

/// The name of the component.
pub const COMPONENT_NAME: &'static str = "dwbase";

/// What an operation's data looks like: a schema in CBOR.
#[derive(Debug)]
pub struct IoSchema {
    pub schema: Vec<u8>,
    pub content_type: String,
    pub schema_version: Option<String>,
}

/// An operation that the component offers; examples are in CBOR.
#[derive(Debug)]
pub struct Op {
    pub name: String,
    pub summary: Option<String>,
    pub input: IoSchema,
    pub output: IoSchema,
    pub examples: Vec<Vec<u8>>,
}

/// What the component offers; schemas that operations share and the setup are in CBOR.
#[derive(Debug)]
pub struct ComponentDescriptor {
    pub name: String,
    pub version: String,
    pub summary: Option<String>,
    pub capabilities: Vec<String>,
    pub ops: Vec<Op>,
    pub schemas: Vec<Vec<u8>>,
    pub setup: Option<Vec<u8>>,
}

/// Model of what an operation's data looks like.
#[verifier::ext_equal]
pub ghost struct IoView {
    pub schema: Seq<u8>,
    pub content_type: Seq<char>,
    pub schema_version: Option<Seq<char>>,
}

/// Model of an operation.
#[verifier::ext_equal]
pub ghost struct OpView {
    pub name: Seq<char>,
    pub summary: Option<Seq<char>>,
    pub input: IoView,
    pub output: IoView,
    pub examples: Seq<Seq<u8>>,
}

/// Model of what the component offers.
#[verifier::ext_equal]
pub ghost struct DescriptorView {
    pub name: Seq<char>,
    pub version: Seq<char>,
    pub summary: Option<Seq<char>>,
    pub capabilities: Seq<Seq<char>>,
    pub ops: Seq<OpView>,
    pub schemas: Seq<Seq<u8>>,
    pub setup: Option<Seq<u8>>,
}

impl View for IoSchema {
    type V = IoView;

    open spec fn view(&self) -> IoView {
        IoView {
            schema: self.schema@,
            content_type: self.content_type@,
            schema_version: lists::opt_view(self.schema_version),
        }
    }
}

impl View for Op {
    type V = OpView;

    open spec fn view(&self) -> OpView {
        OpView {
            name: self.name@,
            summary: lists::opt_view(self.summary),
            input: self.input@,
            output: self.output@,
            examples: lists::views(self.examples@),
        }
    }
}

impl View for ComponentDescriptor {
    type V = DescriptorView;

    open spec fn view(&self) -> DescriptorView {
        DescriptorView {
            name: self.name@,
            version: self.version@,
            summary: lists::opt_view(self.summary),
            capabilities: lists::views(self.capabilities@),
            ops: lists::views(self.ops@),
            schemas: lists::views(self.schemas@),
            setup: lists::opt_view(self.setup),
        }
    }
}

/// What a text looks like.
#[derive(Debug)]
pub struct TextSchema {
    pub min_len: Option<u64>,
    pub max_len: Option<u64>,
    pub regex: Option<String>,
    pub format: Option<String>,
}

/// Whether an object may have members besides those that are named.
#[derive(Clone, Copy, Debug, PartialEq, Eq, Structural)]
pub enum OtherMembers {
    Allow,
    Forbid,
}

/// What an object with texts for members looks like.
#[derive(Debug)]
pub struct ObjectSchema {
    pub properties: Vec<(String, TextSchema)>,
    pub required: Vec<String>,
    pub additional: OtherMembers,
}

/// Model of what a text looks like.
#[verifier::ext_equal]
pub ghost struct TextSchemaView {
    pub min_len: Option<u64>,
    pub max_len: Option<u64>,
    pub regex: Option<Seq<char>>,
    pub format: Option<Seq<char>>,
}

/// Model of what an object looks like.
#[verifier::ext_equal]
pub ghost struct ObjectSchemaView {
    pub properties: Seq<(Seq<char>, TextSchemaView)>,
    pub required: Seq<Seq<char>>,
    pub additional: OtherMembers,
}

impl View for TextSchema {
    type V = TextSchemaView;

    open spec fn view(&self) -> TextSchemaView {
        TextSchemaView {
            min_len: self.min_len,
            max_len: self.max_len,
            regex: lists::opt_view(self.regex),
            format: lists::opt_view(self.format),
        }
    }
}

impl View for ObjectSchema {
    type V = ObjectSchemaView;

    open spec fn view(&self) -> ObjectSchemaView {
        ObjectSchemaView {
            properties: lists::views(self.properties@),
            required: lists::views(self.required@),
            additional: self.additional,
        }
    }
}

impl ObjectSchemaView {
    /// No two members have the same name.
    pub open spec fn is_sound(self) -> bool {
        forall|i: int, j: int|
            0 <= i < j < self.properties.len() ==> (#[trigger] self.properties[i]).0 != (
            #[trigger] self.properties[j]).0
    }
}

/// The schema of an object with one required text of any length and nothing else.
pub open spec fn one_text(property: Seq<char>) -> ObjectSchemaView {
    ObjectSchemaView {
        properties: seq![
            (
                property,
                TextSchemaView { min_len: Some(0), max_len: None, regex: None, format: None },
            ),
        ],
        required: seq![property],
        additional: OtherMembers::Forbid,
    }
}

/// The schema of an object with one required text of any length and nothing else.
pub fn one_text_schema(property: &str) -> (r: ObjectSchema)
    ensures
        r@ == one_text(property@),
{
    let text = TextSchema { min_len: Some(0), max_len: None, regex: None, format: None };
    let mut properties: Vec<(String, TextSchema)> = Vec::new();
    properties.push((property.to_owned(), text));
    let mut required: Vec<String> = Vec::new();
    required.push(property.to_owned());
    let r = ObjectSchema { properties, required, additional: OtherMembers::Forbid };
    assert(r@ =~= one_text(property@));
    r
}

/// A schema in canonical CBOR, or why there is none.
pub uninterp spec fn schema_packed(schema: ObjectSchemaView) -> Result<Seq<u8>, Seq<char>>;

/// `greentic_types::cbor::canonical::to_canonical_cbor_allow_floats` of a schema, as a
/// `SchemaIr`, is a function of the schema.
#[verifier::external_body]
fn pack_schema(schema: ObjectSchema) -> (r: Result<Vec<u8>, String>)
    requires
        schema@.is_sound(),
    ensures
        r is Ok <==> schema_packed(schema@) is Ok,
        r matches Ok(b) ==> schema_packed(schema@)->Ok_0 == b@,
        r matches Err(e) ==> schema_packed(schema@)->Err_0 == e@,
{
    let text = |TextSchema { min_len, max_len, regex, format }| {
        SchemaIr::String { min_len, max_len, regex, format }
    };
    let properties = schema.properties.into_iter().map(|(k, t)| (k, text(t))).collect();
    let additional = match schema.additional {
        OtherMembers::Allow => AdditionalProperties::Allow,
        OtherMembers::Forbid => AdditionalProperties::Forbid,
    };
    let ir = SchemaIr::Object { properties, required: schema.required, additional };
    greentic_types::cbor::canonical::to_canonical_cbor_allow_floats(&ir).map_err(|e| e.to_string())
}

/// The schema of a request: an object with the text `input`.
pub fn input_schema_cbor() -> (r: Result<Vec<u8>, String>)
    ensures
        r is Ok <==> schema_packed(one_text("input"@)) is Ok,
        r matches Ok(b) ==> schema_packed(one_text("input"@))->Ok_0 == b@,
        r matches Err(e) ==> schema_packed(one_text("input"@))->Err_0 == e@,
{
    pack_schema(one_text_schema("input"))
}

/// The schema of a reply: an object with the text `message`.
pub fn output_schema_cbor() -> (r: Result<Vec<u8>, String>)
    ensures
        r is Ok <==> schema_packed(one_text("message"@)) is Ok,
        r matches Ok(b) ==> schema_packed(one_text("message"@))->Ok_0 == b@,
        r matches Err(e) ==> schema_packed(one_text("message"@))->Err_0 == e@,
{
    pack_schema(one_text_schema("message"))
}

/// What an operation's data looks like, with a schema.
pub open spec fn io_of(schema: Seq<u8>) -> IoView {
    IoView { schema, content_type: "application/cbor"@, schema_version: None }
}

/// An operation with the component's schemas, and without examples.
pub open spec fn op_of(
    name: Seq<char>,
    summary: Seq<char>,
    input: Seq<u8>,
    output: Seq<u8>,
) -> OpView {
    OpView {
        name,
        summary: Some(summary),
        input: io_of(input),
        output: io_of(output),
        examples: Seq::empty(),
    }
}

/// The operations of the component.
pub open spec fn ops_of(input: Seq<u8>, output: Seq<u8>) -> Seq<OpView> {
    seq![
        op_of(
            "dwbase.configure"@,
            "Validate and normalize DWBase capability-pack configuration."@,
            input,
            output,
        ),
        op_of(
            "dwbase.requirements"@,
            "Report DWBase capability and public ingress requirements."@,
            input,
            output,
        ),
        op_of(
            "dwbase.echo"@,
            "Echo a DWBase request envelope for smoke testing."@,
            input,
            output,
        ),
        op_of("qa-spec"@, "Return QA spec for requested mode."@, input, output),
        op_of("apply-answers"@, "Apply QA answers and return a config patch."@, input, output),
        op_of("i18n-keys"@, "Return i18n keys referenced by QA/setup."@, input, output),
    ]
}

/// What the component offers, with the given schemas.
pub open spec fn description(
    version: Seq<char>,
    input: Seq<u8>,
    output: Seq<u8>,
) -> DescriptorView {
    DescriptorView {
        name: COMPONENT_NAME@,
        version,
        summary: Some(
            "DWBase Greentic capability provider with ingress-aware QA and configuration."@,
        ),
        capabilities: Seq::empty(),
        ops: ops_of(input, output),
        schemas: Seq::empty(),
        setup: None,
    }
}

fn io(schema: &[u8]) -> (r: IoSchema)
    ensures
        r@ == io_of(schema@),
{
    IoSchema {
        schema: copy_bytes(schema),
        content_type: "application/cbor".to_owned(),
        schema_version: None,
    }
}

fn op(name: &str, summary: &str, input: &[u8], output: &[u8]) -> (r: Op)
    ensures
        r@ == op_of(name@, summary@, input@, output@),
{
    let r = Op {
        name: name.to_owned(),
        summary: Some(summary.to_owned()),
        input: io(input),
        output: io(output),
        examples: Vec::new(),
    };
    assert(r@.examples =~= Seq::empty());
    r
}

/// What the component offers, with the given schemas.
pub fn describe_with(version: &str, input: &[u8], output: &[u8]) -> (r: ComponentDescriptor)
    ensures
        r@ == description(version@, input@, output@),
{
    let mut ops: Vec<Op> = Vec::new();
    ops.push(
        op(
            "dwbase.configure",
            "Validate and normalize DWBase capability-pack configuration.",
            input,
            output,
        ),
    );
    ops.push(
        op(
            "dwbase.requirements",
            "Report DWBase capability and public ingress requirements.",
            input,
            output,
        ),
    );
    ops.push(
        op("dwbase.echo", "Echo a DWBase request envelope for smoke testing.", input, output),
    );
    ops.push(op("qa-spec", "Return QA spec for requested mode.", input, output));
    ops.push(op("apply-answers", "Apply QA answers and return a config patch.", input, output));
    ops.push(op("i18n-keys", "Return i18n keys referenced by QA/setup.", input, output));
    assert(lists::views(ops@) =~= ops_of(input@, output@));
    let summary = "DWBase Greentic capability provider with ingress-aware QA and configuration.";
    let r = ComponentDescriptor {
        name: COMPONENT_NAME.to_owned(),
        version: version.to_owned(),
        summary: Some(summary.to_owned()),
        capabilities: Vec::new(),
        ops,
        schemas: Vec::new(),
        setup: None,
    };
    assert(r@ =~= description(version@, input@, output@));
    r
}

/// What the component offers; the schemas must be there.
pub fn describe(version: &str) -> (r: Result<ComponentDescriptor, String>)
    ensures
        r is Ok <==> schema_packed(one_text("input"@)) is Ok && schema_packed(one_text("message"@)) is Ok,
        r matches Ok(d) ==> d@ == description(
            version@,
            schema_packed(one_text("input"@))->Ok_0,
            schema_packed(one_text("message"@))->Ok_0,
        ),
        r matches Err(e) ==> e@ == match schema_packed(one_text("input"@)) {
            Err(s) => s,
            Ok(_) => schema_packed(one_text("message"@))->Err_0,
        },
{
    let input = match input_schema_cbor() {
        Ok(b) => b,
        Err(e) => {
            return Err(e);
        },
    };
    let output = match output_schema_cbor() {
        Ok(b) => b,
        Err(e) => {
            return Err(e);
        },
    };
    Ok(describe_with(version, input.as_slice(), output.as_slice()))
}

/// What is echoed for an operation and its input.
pub open spec fn echo_of(operation: Seq<char>, input: Seq<char>) -> Seq<char> {
    COMPONENT_NAME@ + "::"@ + operation + " => "@ + text::trimmed(input)
}

/// What is echoed for an operation and its input.
pub fn handle_message(operation: &str, input: &str) -> (r: String)
    ensures
        r@ == echo_of(operation@, input@),
{
    let mut out = text::joined3(COMPONENT_NAME, "::", operation);
    out.append(" => ");
    out.append(text::trim(input));
    out
}

/// The mode that a request names, as its mode or as its operation; a setup otherwise.
pub open spec fn mode_of_request(payload: Json) -> NormalizedMode {
    let name = match payload.text_member("mode"@) {
        Some(s) => s,
        None => match payload.text_member("operation"@) {
            Some(s) => s,
            None => "setup"@,
        },
    };
    match qa::mode_named(name) {
        Some(mode) => mode,
        None => NormalizedMode::Setup,
    }
}

/// The mode that a request names, as its mode or as its operation; a setup otherwise.
pub fn normalized_mode(payload: &JsonValue) -> (r: NormalizedMode)
    ensures
        r == mode_of_request(payload@),
{
    let name = match payload.text_of("mode") {
        Some(s) => s,
        None => match payload.text_of("operation") {
            Some(s) => s,
            None => "setup",
        },
    };
    match normalize_mode(name) {
        Some(mode) => mode,
        None => NormalizedMode::Setup,
    }
}

/// The reply to a request: `printed` is the request as text, `keys` are the keys of the
/// component's texts.
pub open spec fn reply_to(
    operation: Seq<char>,
    value: Json,
    printed: Seq<char>,
    keys: Seq<Seq<char>>,
) -> Json {
    if operation == "dwbase.requirements"@ {
        qa::requirements()
    } else if operation == "qa-spec"@ {
        qa::qa_spec(mode_of_request(value))
    } else if operation == "apply-answers"@ {
        Json::Object(qa::applied(mode_of_request(value), value))
    } else if operation == "i18n-keys"@ {
        json::texts_of(keys)
    } else if operation == "dwbase.echo"@ {
        let name = match value.text_member("operation"@) {
            Some(s) => s,
            None => operation,
        };
        let input = match value.text_member("input"@) {
            Some(s) => s,
            None => printed,
        };
        Json::Object(map!["message"@ => Json::Text(echo_of(name, input))])
    } else {
        Json::Object(
            qa::applied(qa::payload_mode(value), value).insert("requirements"@, qa::requirements()),
        )
    }
}

/// The reply to a request: `printed` is the request as text, `keys` are the keys of the
/// component's texts.
pub fn run_component(operation: &str, value: &JsonValue, printed: &str, keys: &[String]) -> (r:
    JsonValue)
    ensures
        r@ == reply_to(operation@, value@, printed@, lists::views(keys@)),
{
    if text::same(operation, "dwbase.requirements") {
        requirements_json()
    } else if text::same(operation, "qa-spec") {
        qa_spec_json(normalized_mode(value))
    } else if text::same(operation, "apply-answers") {
        apply_answers(normalized_mode(value), value)
    } else if text::same(operation, "i18n-keys") {
        JsonValue::texts(keys)
    } else if text::same(operation, "dwbase.echo") {
        let name = match value.text_of("operation") {
            Some(s) => s,
            None => operation,
        };
        let input = match value.text_of("input") {
            Some(s) => s,
            None => printed,
        };
        let mut m = JsonMap::new();
        m.insert("message", JsonValue::text(handle_message(name, input).as_str()));
        JsonValue::object(m)
    } else {
        configure(value)
    }
}

/// The request in some bytes: as CBOR, else as JSON, else an empty object.
pub open spec fn payload_of(b: Seq<u8>) -> Json {
    match json::cbor_read(b) {
        Some(v) => v,
        None => match json::json_read(b) {
            Some(v) => v,
            None => Json::Object(Map::empty()),
        },
    }
}

/// The request in some bytes: as CBOR, else as JSON, else an empty object.
pub fn parse_payload(input: &[u8]) -> (r: JsonValue)
    ensures
        r@ == payload_of(input@),
{
    match JsonValue::from_cbor(input) {
        Some(v) => v,
        None => match JsonValue::from_json(input) {
            Some(v) => v,
            None => JsonValue::object(JsonMap::new()),
        },
    }
}

/// The reply to the request in some bytes, before it is written.
pub open spec fn reply_to_bytes(
    operation: Seq<char>,
    input: Seq<u8>,
    texts: Map<Seq<char>, Map<Seq<char>, Seq<char>>>,
) -> Json {
    let v = payload_of(input);
    reply_to(operation, v, json::json_printed(v), i18n::keys_listed(texts))
}

/// Runs an operation of the component on CBOR or JSON, and gives CBOR.
pub fn run_component_cbor(operation: &str, input: &[u8], texts: &LocaleBundle) -> (r: Result<
    Vec<u8>,
    String,
>)
    ensures
        ({
            let out = json::cbor_written(reply_to_bytes(operation@, input@, texts@));
            &&& r is Ok <==> out is Ok
            &&& r matches Ok(b) ==> out->Ok_0 == b@
            &&& r matches Err(e) ==> out->Err_0 == e@
        }),
{
    let value = parse_payload(input);
    let is_printed = text::same(operation, "dwbase.echo") && value.text_of("input").is_none();
    let printed = if is_printed {
        value.to_json()
    } else {
        String::new()
    };
    let keys = i18n_keys(texts);
    proof {
        if !is_printed {
            printed_only_for_echo(
                operation@,
                value@,
                printed@,
                json::json_printed(value@),
                i18n::keys_listed(texts@),
            );
        }
    }
    run_component(operation, &value, printed.as_str(), keys.as_slice()).to_cbor()
}

/// Where an echo has an input or another operation is asked for, the reply does not depend on
/// how the request is printed.
pub proof fn printed_only_for_echo(
    operation: Seq<char>,
    value: Json,
    printed: Seq<char>,
    other: Seq<char>,
    keys: Seq<Seq<char>>,
)
    requires
        operation != "dwbase.echo"@ || value.text_member("input"@) is Some,
    ensures
        reply_to(operation, value, printed, keys) == reply_to(operation, value, other, keys),
{
}

/// Bytes that hold no request count as an empty object, which asks for a setup.
pub proof fn unreadable_request_is_empty(input: Seq<u8>)
    requires
        json::cbor_read(input) is None,
        json::json_read(input) is None,
    ensures
        payload_of(input) == Json::Object(Map::<Seq<char>, Json>::empty()),
        mode_of_request(payload_of(input)) == NormalizedMode::Setup,
{
}

/// The component, by name and role.
#[derive(Debug)]
pub struct ComponentInfo {
    pub id: String,
    pub version: String,
    pub role: String,
    pub display_name_key: String,
    pub display_name_fallback: String,
}

/// The component, by name and role.
pub fn component_info(version: &str) -> (r: ComponentInfo)
    ensures
        r.id@ == "ai.greentic."@ + COMPONENT_NAME@,
        r.version@ == version@,
        r.role@ == "tool"@,
        r.display_name_key@ == "component.display_name"@,
        r.display_name_fallback@ == COMPONENT_NAME@,
{
    ComponentInfo {
        id: text::joined("ai.greentic.", COMPONENT_NAME),
        version: version.to_owned(),
        role: "tool".to_owned(),
        display_name_key: "component.display_name".to_owned(),
        display_name_fallback: COMPONENT_NAME.to_owned(),
    }
}

}

//! The tool feature: tool definitions, execution results, the two built-in
//! handlers (echo and calculator), the tool manager, and the handler
//! registry with configuration-driven discovery.

use vstd::prelude::*;
use vstd::string::StringExecFns;
use vstd::string::StrSliceExecFns;
use crate::json::{Json, JsonVal, jv_get, jvals_of, jfields_of, lemma_jvals_of_index,
    lemma_jfields_of_index, clone_json};
use crate::types::{Content, ContentV, spec_content_json, opt_member, opt_str, clone_opt_string,
    PaginationParams, PaginationResult};
use crate::error::{McpError, McpResult};
use crate::strings::{str_eq, i64_to_string, dec_of_int, lex_lt};
use crate::registry::{pairs_view, assoc_lookup, assoc_wf, assoc_get, assoc_insert, assoc_remove};
use crate::pagination::{paginate, spec_page, spec_next_cursor, spec_cursor_start};

verus! {

broadcast use vstd::string::group_string_axioms;

/// A tool's input schema: a JSON-schema object shape.
#[derive(Debug)]
pub struct ToolInputSchema {
    pub schema_type: String,
    pub properties: Option<Json>,
    pub required: Option<Vec<String>>,
}

/// Model of a tool input schema.
pub struct ToolInputSchemaV {
    pub schema_type: Seq<char>,
    pub properties: Option<JsonVal>,
    pub required: Option<Seq<Seq<char>>>,
}

impl View for ToolInputSchema {
    type V = ToolInputSchemaV;

    open spec fn view(&self) -> ToolInputSchemaV {
        ToolInputSchemaV {
            schema_type: self.schema_type@,
            properties: match self.properties {
                Some(ref p) => Some(p@),
                None => None,
            },
            required: match self.required {
                Some(ref v) => Some(Seq::new(v@.len(), |i: int| v@[i]@)),
                None => None,
            },
        }
    }
}

/// The JSON encoding of a tool input schema.
pub open spec fn spec_schema_json(s: ToolInputSchemaV) -> JsonVal {
    JsonVal::Obj(
        seq![("type"@, JsonVal::Str(s.schema_type))] + opt_member("properties"@, s.properties)
            + opt_member(
            "required"@,
            match s.required {
                Some(names) => Some(
                    JsonVal::Arr(Seq::new(names.len(), |i: int| JsonVal::Str(names[i]))),
                ),
                None => None,
            },
        ),
    )
}

impl ToolInputSchema {
    /// Encode this schema as JSON.
    #[verifier::loop_isolation(false)]
    pub fn to_json(&self) -> (r: Json)
        ensures
            r@ == spec_schema_json(self@),
    {
        let mut fields: Vec<(String, Json)> = Vec::new();
        fields.push((String::from_str("type"), Json::Str(self.schema_type.clone())));
        match &self.properties {
            Some(p) => fields.push((String::from_str("properties"), clone_json(p))),
            None => (),
        }
        match &self.required {
            Some(names) => {
                let mut arr: Vec<Json> = Vec::new();
                let mut i: usize = 0;
                while i < names.len()
                    invariant
                        i <= names@.len(),
                        arr@.len() == i,
                        forall|k: int|
                            0 <= k < i ==> (#[trigger] arr[k].view_rec()) == JsonVal::Str(
                                names@[k]@,
                            ),
                    decreases names@.len() - i,
                {
                    arr.push(Json::Str(names[i].clone()));
                    i = i + 1;
                }
                proof {
                    lemma_jvals_of_index(arr@);
                    assert forall|k: int|
                        0 <= k < arr@.len() implies jvals_of(arr@)[k] == JsonVal::Str(
                        names@[k]@,
                    ) by {
                        assert(arr[k].view_rec() == JsonVal::Str(names@[k]@));
                    }
                    assert(jvals_of(arr@) =~= Seq::new(
                        names@.len(),
                        |i: int| JsonVal::Str(names@[i]@),
                    ));
                    assert(jvals_of(arr@) =~= Seq::new(
                        self@.required->Some_0.len(),
                        |i: int| JsonVal::Str(self@.required->Some_0[i]),
                    ));
                }
                fields.push((String::from_str("required"), Json::Arr(arr)));
            },
            None => (),
        }
        let r = Json::Obj(fields);
        proof {
            lemma_jfields_of_index(fields@);
            let want = spec_schema_json(self@)->Obj_0;
            assert forall|k: int|
                0 <= k < jfields_of(fields@).len() implies jfields_of(fields@)[k] == want[k] by {
                assert(jfields_of(fields@)[k] == (fields[k].0@, fields[k].1.view_rec()));
            }
            assert(r@->Obj_0 =~= want);
        }
        r
    }

    /// Copy preserving the model.
    #[verifier::loop_isolation(false)]
    pub fn clone_schema(&self) -> (r: ToolInputSchema)
        ensures
            r@ == self@,
    {
        ToolInputSchema {
            schema_type: self.schema_type.clone(),
            properties: match &self.properties {
                Some(p) => Some(clone_json(p)),
                None => None,
            },
            required: match &self.required {
                Some(names) => {
                    let mut out: Vec<String> = Vec::new();
                    let mut i: usize = 0;
                    while i < names.len()
                        invariant
                            i <= names@.len(),
                            out@.len() == i,
                            forall|k: int| 0 <= k < i ==> (#[trigger] out@[k])@ == names@[k]@,
                        decreases names@.len() - i,
                    {
                        out.push(names[i].clone());
                        i = i + 1;
                    }
                    proof {
                        assert(Seq::new(out@.len(), |i: int| out@[i]@) =~= Seq::new(
                            names@.len(),
                            |i: int| names@[i]@,
                        ));
                    }
                    Some(out)
                },
                None => None,
            },
        }
    }
}

/// Behavioural hints attached to a tool definition.
#[derive(Debug)]
pub struct ToolAnnotations {
    pub title: Option<String>,
    pub read_only_hint: Option<bool>,
    pub destructive_hint: Option<bool>,
    pub idempotent_hint: Option<bool>,
    pub open_world_hint: Option<bool>,
}

/// Model of tool annotations.
pub struct ToolAnnotationsV {
    pub title: Option<Seq<char>>,
    pub read_only_hint: Option<bool>,
    pub destructive_hint: Option<bool>,
    pub idempotent_hint: Option<bool>,
    pub open_world_hint: Option<bool>,
}

impl View for ToolAnnotations {
    type V = ToolAnnotationsV;

    open spec fn view(&self) -> ToolAnnotationsV {
        ToolAnnotationsV {
            title: match self.title {
                Some(ref s) => Some(s@),
                None => None,
            },
            read_only_hint: self.read_only_hint,
            destructive_hint: self.destructive_hint,
            idempotent_hint: self.idempotent_hint,
            open_world_hint: self.open_world_hint,
        }
    }
}

/// The JSON encoding of tool annotations.
pub open spec fn spec_tool_annotations_json(a: ToolAnnotationsV) -> JsonVal {
    JsonVal::Obj(
        opt_member("title"@, opt_str(a.title)) + opt_member(
            "readOnlyHint"@,
            crate::types::opt_bool(a.read_only_hint),
        ) + opt_member("destructiveHint"@, crate::types::opt_bool(a.destructive_hint))
            + opt_member("idempotentHint"@, crate::types::opt_bool(a.idempotent_hint))
            + opt_member("openWorldHint"@, crate::types::opt_bool(a.open_world_hint)),
    )
}

impl ToolAnnotations {
    /// Encode these annotations as JSON.
    pub fn to_json(&self) -> (r: Json)
        ensures
            r@ == spec_tool_annotations_json(self@),
    {
        let mut fields: Vec<(String, Json)> = Vec::new();
        match &self.title {
            Some(t) => fields.push((String::from_str("title"), Json::Str(t.clone()))),
            None => (),
        }
        match self.read_only_hint {
            Some(b) => fields.push((String::from_str("readOnlyHint"), Json::Bool(b))),
            None => (),
        }
        match self.destructive_hint {
            Some(b) => fields.push((String::from_str("destructiveHint"), Json::Bool(b))),
            None => (),
        }
        match self.idempotent_hint {
            Some(b) => fields.push((String::from_str("idempotentHint"), Json::Bool(b))),
            None => (),
        }
        match self.open_world_hint {
            Some(b) => fields.push((String::from_str("openWorldHint"), Json::Bool(b))),
            None => (),
        }
        let r = Json::Obj(fields);
        proof {
            lemma_jfields_of_index(fields@);
            let want = spec_tool_annotations_json(self@)->Obj_0;
            assert forall|k: int|
                0 <= k < jfields_of(fields@).len() implies jfields_of(fields@)[k] == want[k] by {
                assert(jfields_of(fields@)[k] == (fields[k].0@, fields[k].1.view_rec()));
            }
            assert(r@->Obj_0 =~= want);
        }
        r
    }

    /// Copy preserving the model.
    pub fn clone_annotations(&self) -> (r: ToolAnnotations)
        ensures
            r@ == self@,
    {
        ToolAnnotations {
            title: clone_opt_string(&self.title),
            read_only_hint: self.read_only_hint,
            destructive_hint: self.destructive_hint,
            idempotent_hint: self.idempotent_hint,
            open_world_hint: self.open_world_hint,
        }
    }
}

/// A tool definition. The name is the identity.
#[derive(Debug)]
pub struct Tool {
    pub name: String,
    pub description: Option<String>,
    pub input_schema: ToolInputSchema,
    pub annotations: Option<ToolAnnotations>,
}

/// Model of a tool definition.
pub struct ToolV {
    pub name: Seq<char>,
    pub description: Option<Seq<char>>,
    pub input_schema: ToolInputSchemaV,
    pub annotations: Option<ToolAnnotationsV>,
}

impl View for Tool {
    type V = ToolV;

    open spec fn view(&self) -> ToolV {
        ToolV {
            name: self.name@,
            description: match self.description {
                Some(ref s) => Some(s@),
                None => None,
            },
            input_schema: self.input_schema@,
            annotations: match self.annotations {
                Some(ref a) => Some(a@),
                None => None,
            },
        }
    }
}

/// The JSON encoding of a tool definition.
pub open spec fn spec_tool_json(t: ToolV) -> JsonVal {
    JsonVal::Obj(
        seq![("name"@, JsonVal::Str(t.name))] + opt_member("description"@, opt_str(t.description))
            + seq![("inputSchema"@, spec_schema_json(t.input_schema))] + opt_member(
            "annotations"@,
            match t.annotations {
                Some(a) => Some(spec_tool_annotations_json(a)),
                None => None,
            },
        ),
    )
}

impl Tool {
    /// Encode this tool as JSON.
    pub fn to_json(&self) -> (r: Json)
        ensures
            r@ == spec_tool_json(self@),
    {
        let mut fields: Vec<(String, Json)> = Vec::new();
        fields.push((String::from_str("name"), Json::Str(self.name.clone())));
        match &self.description {
            Some(d) => fields.push((String::from_str("description"), Json::Str(d.clone()))),
            None => (),
        }
        fields.push((String::from_str("inputSchema"), self.input_schema.to_json()));
        match &self.annotations {
            Some(a) => fields.push((String::from_str("annotations"), a.to_json())),
            None => (),
        }
        let r = Json::Obj(fields);
        proof {
            lemma_jfields_of_index(fields@);
            let want = spec_tool_json(self@)->Obj_0;
            assert forall|k: int|
                0 <= k < jfields_of(fields@).len() implies jfields_of(fields@)[k] == want[k] by {
                assert(jfields_of(fields@)[k] == (fields[k].0@, fields[k].1.view_rec()));
            }
            assert(r@->Obj_0 =~= want);
        }
        r
    }

    /// Copy preserving the model.
    pub fn clone_tool(&self) -> (r: Tool)
        ensures
            r@ == self@,
    {
        Tool {
            name: self.name.clone(),
            description: clone_opt_string(&self.description),
            input_schema: self.input_schema.clone_schema(),
            annotations: match &self.annotations {
                Some(a) => Some(a.clone_annotations()),
                None => None,
            },
        }
    }
}

/// The outcome of a tool execution: content items and an error flag. A true
/// flag is a user-visible tool failure carried by a successful call.
#[derive(Debug)]
pub struct ToolResult {
    pub content: Vec<Content>,
    pub is_error: bool,
}

/// Model of a tool result.
pub struct ToolResultV {
    pub content: Seq<ContentV>,
    pub is_error: bool,
}

impl View for ToolResult {
    type V = ToolResultV;

    open spec fn view(&self) -> ToolResultV {
        ToolResultV {
            content: Seq::new(self.content@.len(), |i: int| self.content@[i]@),
            is_error: self.is_error,
        }
    }
}

/// A single-text-item tool result.
pub open spec fn spec_text_result(text: Seq<char>, is_error: bool) -> ToolResultV {
    ToolResultV {
        content: seq![ContentV::Text { text: text, annotations: None }],
        is_error: is_error,
    }
}

impl ToolResult {
    /// A successful result with the given content.
    pub fn success(content: Vec<Content>) -> (r: Self)
        ensures
            r@.content == Seq::new(content@.len(), |i: int| content@[i]@),
            r@.is_error == false,
    {
        ToolResult { content, is_error: false }
    }

    /// A failed result with the given content.
    pub fn error(content: Vec<Content>) -> (r: Self)
        ensures
            r@.content == Seq::new(content@.len(), |i: int| content@[i]@),
            r@.is_error == true,
    {
        ToolResult { content, is_error: true }
    }

    /// A successful result carrying one text item.
    pub fn text(text: String) -> (r: Self)
        ensures
            r@ == spec_text_result(text@, false),
    {
        let mut content: Vec<Content> = Vec::new();
        content.push(Content::Text { text, annotations: None });
        let r = ToolResult { content, is_error: false };
        proof {
            assert(r@.content =~= spec_text_result(text@, false).content);
        }
        r
    }

    /// A failed result carrying one text item.
    pub fn error_text(text: String) -> (r: Self)
        ensures
            r@ == spec_text_result(text@, true),
    {
        let mut content: Vec<Content> = Vec::new();
        content.push(Content::Text { text, annotations: None });
        let r = ToolResult { content, is_error: true };
        proof {
            assert(r@.content =~= spec_text_result(text@, true).content);
        }
        r
    }
}


/// The default echo message.
pub open spec fn spec_default_echo() -> Seq<char> {
    "Hello, world!"@
}

/// The message the echo tool answers with: the `message` argument when it is
/// a string, the default greeting otherwise.
pub open spec fn spec_echo_message(args: Option<JsonVal>) -> Seq<char> {
    match args {
        Some(a) => match jv_get(a, "message"@) {
            Some(JsonVal::Str(s)) => s,
            _ => spec_default_echo(),
        },
        None => spec_default_echo(),
    }
}

/// The echo tool's result: one text item `Echo: <message>`.
pub open spec fn spec_echo_result(args: Option<JsonVal>) -> ToolResultV {
    spec_text_result("Echo: "@ + spec_echo_message(args), false)
}

/// Arguments the echo tool accepts: absent, or an object whose `message`
/// member, if present, is a string.
pub open spec fn spec_echo_args_ok(args: Option<JsonVal>) -> bool {
    match args {
        Some(a) => a is Obj && (match jv_get(a, "message"@) {
            Some(m) => m is Str,
            None => true,
        }),
        None => true,
    }
}

/// The built-in echo tool: answers with its `message` argument.
pub struct EchoToolHandler;

impl EchoToolHandler {
    /// The handler's name.
    pub fn name(&self) -> (r: &'static str)
        ensures
            r@ == "echo"@,
    {
        "echo"
    }

    /// The tool's description.
    pub fn description(&self) -> (r: Option<String>)
        ensures
            r matches Some(d) && d@ == "Echo back the provided message"@,
    {
        Some(String::from_str("Echo back the provided message"))
    }

    /// The tool's input schema: an object with a string `message`.
    pub fn input_schema(&self) -> (r: ToolInputSchema)
        ensures
            r@.schema_type == "object"@,
            r@.required == Some(seq!["message"@]),
            r@.properties is Some,
    {
        let mut props: Vec<(String, Json)> = Vec::new();
        let mut message_schema: Vec<(String, Json)> = Vec::new();
        message_schema.push((String::from_str("type"), Json::Str(String::from_str("string"))));
        message_schema.push((
            String::from_str("description"),
            Json::Str(String::from_str("The message to echo back")),
        ));
        props.push((String::from_str("message"), Json::Obj(message_schema)));
        let mut required: Vec<String> = Vec::new();
        required.push(String::from_str("message"));
        let r = ToolInputSchema {
            schema_type: String::from_str("object"),
            properties: Some(Json::Obj(props)),
            required: Some(required),
        };
        proof {
            assert(r@.required->Some_0 =~= seq!["message"@]);
        }
        r
    }

    /// The complete tool definition composed from the parts above.
    pub fn tool_definition(&self) -> (r: Tool)
        ensures
            r@.name == "echo"@,
            r@.description == Some("Echo back the provided message"@),
            r@.input_schema.schema_type == "object"@,
            r@.annotations is None,
    {
        Tool {
            name: String::from_str("echo"),
            description: self.description(),
            input_schema: self.input_schema(),
            annotations: None,
        }
    }

    /// Run the echo tool: always succeeds with `Echo: <message>`.
    pub fn execute(&self, arguments: Option<&Json>) -> (r: McpResult<ToolResult>)
        ensures
            r matches Ok(res) && res@ == spec_echo_result(
                match arguments {
                    Some(a) => Some(a@),
                    None => None,
                },
            ),
    {
        let mut text = String::from_str("Echo: ");
        match arguments {
            Some(args) => match args.get("message") {
                Some(m) => match m.as_str() {
                    Some(s) => {
                        text.append(s.as_str());
                    },
                    None => {
                        text.append("Hello, world!");
                    },
                },
                None => {
                    text.append("Hello, world!");
                },
            },
            None => {
                text.append("Hello, world!");
            },
        }
        Ok(ToolResult::text(text))
    }

    /// Check the echo tool's arguments: an object whose `message` member, if
    /// present, is a string. The error is always invalid params.
    pub fn validate_arguments(&self, arguments: Option<&Json>) -> (r: McpResult<()>)
        ensures
            r is Ok <==> spec_echo_args_ok(
                match arguments {
                    Some(a) => Some(a@),
                    None => None,
                },
            ),
            r matches Err(e) ==> e is InvalidParams,
    {
        match arguments {
            Some(args) => {
                if !args.is_object() {
                    return Err(
                        McpError::invalid_params(String::from_str("Arguments must be an object")),
                    );
                }
                match args.get("message") {
                    Some(m) => {
                        if !m.is_string() {
                            return Err(
                                McpError::invalid_params(
                                    String::from_str("Message must be a string"),
                                ),
                            );
                        }
                        Ok(())
                    },
                    None => Ok(()),
                }
            },
            None => Ok(()),
        }
    }
}

/// Clamp an integer into the signed 64-bit range.
pub open spec fn sat64(x: int) -> int {
    if x > i64::MAX {
        i64::MAX as int
    } else if x < i64::MIN {
        i64::MIN as int
    } else {
        x
    }
}

/// Saturating power: one clamped multiplication per exponent step.
pub open spec fn pow_sat(a: int, b: nat) -> int
    decreases b,
{
    if b == 0 {
        1
    } else {
        sat64(pow_sat(a, (b - 1) as nat) * a)
    }
}

/// Truncated division, rounding toward zero as machine division does.
pub open spec fn trunc_div(a: int, b: int) -> int {
    let m = (abs_int(a) / abs_int(b)) as int;
    if (a < 0) != (b < 0) {
        -m
    } else {
        m
    }
}

/// Absolute value.
pub open spec fn abs_int(a: int) -> nat {
    if a < 0 {
        (-a) as nat
    } else {
        a as nat
    }
}

/// The integer square root: the greatest integer whose square does not
/// exceed the operand; zero for a negative operand.
pub open spec fn isqrt_spec(a: int) -> int {
    if a < 0 {
        0
    } else {
        choose|r: int| r >= 0 && #[trigger] (r * r) <= a && (r + 1) * (r + 1) > a
    }
}

/// The operations the calculator accepts.
pub open spec fn spec_is_calc_op(op: Seq<char>) -> bool {
    op == "add"@ || op == "subtract"@ || op == "multiply"@ || op == "divide"@ || op == "power"@
        || op == "sqrt"@
}

/// Arguments the calculator accepts: an object with a known operation, a
/// numeric `a`, and a numeric `b` unless the operation is `sqrt`.
pub open spec fn spec_calc_args_ok(args: Option<JsonVal>) -> bool {
    match args {
        Some(a) => {
            &&& a is Obj
            &&& match jv_get(a, "operation"@) {
                Some(JsonVal::Str(op)) => spec_is_calc_op(op),
                _ => false,
            }
            &&& jv_get(a, "a"@) matches Some(JsonVal::Int(_))
            &&& (jv_get(a, "operation"@) == Some(JsonVal::Str("sqrt"@)) || (jv_get(a, "b"@) matches
            Some(JsonVal::Int(_))))
        },
        None => false,
    }
}

/// The text of a calculator answer: `<a> <op> <b> = <result>`.
pub open spec fn spec_calc_text(a: int, op: Seq<char>, b: int, res: int) -> Seq<char> {
    dec_of_int(a) + seq![' '] + op + seq![' '] + dec_of_int(b) + seq![' ', '=', ' '] + dec_of_int(
        res,
    )
}

/// The calculator's arithmetic: the clamped 64-bit result of the operation.
pub open spec fn spec_calc_value(op: Seq<char>, a: int, b: int) -> int {
    if op == "add"@ {
        sat64(a + b)
    } else if op == "subtract"@ {
        sat64(a - b)
    } else if op == "multiply"@ {
        sat64(a * b)
    } else if op == "divide"@ {
        sat64(trunc_div(a, b))
    } else if op == "power"@ {
        if b < 0 {
            0
        } else {
            pow_sat(a, b as nat)
        }
    } else {
        isqrt_spec(a)
    }
}

/// What the calculator returns for given arguments: an invalid-params
/// message for missing pieces, a tool-level failure for division by zero or
/// an unknown operation, and the computed text otherwise.
pub open spec fn spec_calc_execute(args: Option<JsonVal>) -> Result<ToolResultV, Seq<char>> {
    match args {
        None => Err("Calculator requires arguments"@),
        Some(a) => {
            let op = jv_get(a, "operation"@);
            if !(op matches Some(JsonVal::Str(_))) {
                Err("Operation is required"@)
            } else {
                let opv = op->Some_0->Str_0;
                match jv_get(a, "a"@) {
                    Some(JsonVal::Int(av)) => {
                        let bv_opt = if opv == "sqrt"@ {
                            Some(0int)
                        } else {
                            match jv_get(a, "b"@) {
                                Some(JsonVal::Int(bv)) => Some(bv),
                                _ => None,
                            }
                        };
                        match bv_opt {
                            None => Err("Parameter 'b' is required and must be a number"@),
                            Some(bv) => {
                                if !spec_is_calc_op(opv) {
                                    Ok(
                                        spec_text_result(
                                            "Unknown operation: "@ + opv,
                                            true,
                                        ),
                                    )
                                } else if opv == "divide"@ && bv == 0 {
                                    Ok(spec_text_result("Division by zero"@, true))
                                } else {
                                    Ok(
                                        spec_text_result(
                                            spec_calc_text(
                                                av,
                                                opv,
                                                bv,
                                                spec_calc_value(opv, av, bv),
                                            ),
                                            false,
                                        ),
                                    )
                                }
                            },
                        }
                    },
                    _ => Err("Parameter 'a' is required and must be a number"@),
                }
            }
        },
    }
}

fn sat_i128(x: i128) -> (r: i64)
    ensures
        r as int == sat64(x as int),
{
    if x > i64::MAX as i128 {
        i64::MAX
    } else if x < i64::MIN as i128 {
        i64::MIN
    } else {
        x as i64
    }
}

fn sat_add(x: i64, y: i64) -> (r: i64)
    ensures
        r as int == sat64(x as int + y as int),
{
    sat_i128((x as i128) + (y as i128))
}

fn sat_sub(x: i64, y: i64) -> (r: i64)
    ensures
        r as int == sat64(x as int - y as int),
{
    sat_i128((x as i128) - (y as i128))
}

fn sat_mul(x: i64, y: i64) -> (r: i64)
    ensures
        r as int == sat64(x as int * y as int),
{
    proof {
        assert(i128::MIN as int <= (x as int) * (y as int) <= i128::MAX as int)
            by (nonlinear_arith)
            requires
                i64::MIN as int <= x as int <= i64::MAX as int,
                i64::MIN as int <= y as int <= i64::MAX as int,
        ;
    }
    sat_i128((x as i128) * (y as i128))
}

fn trunc_div_exec(a: i64, b: i64) -> (r: i64)
    requires
        b != 0,
    ensures
        r as int == sat64(trunc_div(a as int, b as int)),
{
    let am: u64 = if a < 0 {
        (0i128 - (a as i128)) as u64
    } else {
        a as u64
    };
    let bm: u64 = if b < 0 {
        (0i128 - (b as i128)) as u64
    } else {
        b as u64
    };
    let q: u64 = am / bm;
    if (a < 0) != (b < 0) {
        sat_i128(0i128 - (q as i128))
    } else {
        sat_i128(q as i128)
    }
}

/// Once a saturating power step leaves the value unchanged it stays there.
proof fn lemma_pow_sat_fixed(a: int, r: int, i: nat, b: nat)
    requires
        pow_sat(a, i) == r,
        sat64(r * a) == r,
        i <= b,
    ensures
        pow_sat(a, b) == r,
    decreases b - i,
{
    if i < b {
        assert(pow_sat(a, i + 1) == sat64(pow_sat(a, i) * a));
        lemma_pow_sat_fixed(a, r, i + 1, b);
    }
}

/// Once the saturating power alternates between two values it keeps doing so.
proof fn lemma_pow_sat_period2(a: int, r0: int, r1: int, i: nat, b: nat)
    requires
        pow_sat(a, i) == r0,
        sat64(r0 * a) == r1,
        sat64(r1 * a) == r0,
        i <= b,
    ensures
        pow_sat(a, b) == if (b - i) % 2 == 0 {
            r0
        } else {
            r1
        },
    decreases b - i,
{
    if i < b {
        assert(pow_sat(a, i + 1) == sat64(pow_sat(a, i) * a));
        lemma_pow_sat_period2(a, r1, r0, i + 1, b);
    }
}

fn pow_sat_exec(a: i64, b: u64) -> (r: i64)
    ensures
        r as int == pow_sat(a as int, b as nat),
{
    let mut r: i64 = 1;
    let mut i: u64 = 0;
    while i < b
        invariant
            i <= b,
            r as int == pow_sat(a as int, i as nat),
        decreases b - i,
    {
        let r1 = sat_mul(r, a);
        if r1 == r {
            proof {
                lemma_pow_sat_fixed(a as int, r as int, i as nat, b as nat);
            }
            return r;
        }
        let r2 = sat_mul(r1, a);
        if r2 == r {
            proof {
                lemma_pow_sat_period2(a as int, r as int, r1 as int, i as nat, b as nat);
            }
            if (b - i) % 2 == 0 {
                return r;
            } else {
                return r1;
            }
        }
        r = r1;
        i = i + 1;
    }
    r
}

/// Two integers satisfying the square-root bracket are equal.
proof fn lemma_isqrt_unique(a: int, r1: int, r2: int)
    requires
        r1 >= 0 && r1 * r1 <= a && (r1 + 1) * (r1 + 1) > a,
        r2 >= 0 && r2 * r2 <= a && (r2 + 1) * (r2 + 1) > a,
    ensures
        r1 == r2,
{
    if r1 < r2 {
        assert((r1 + 1) * (r1 + 1) <= r2 * r2) by (nonlinear_arith)
            requires
                0 <= r1 + 1 <= r2,
        ;
    }
    if r2 < r1 {
        assert((r2 + 1) * (r2 + 1) <= r1 * r1) by (nonlinear_arith)
            requires
                0 <= r2 + 1 <= r1,
        ;
    }
}

fn isqrt_exec(a: i64) -> (r: i64)
    requires
        a >= 0,
    ensures
        r as int == isqrt_spec(a as int),
{
    let mut lo: i64 = 0;
    let mut hi: i64 = 3037000500;
    proof {
        assert(3037000500int * 3037000500int > i64::MAX as int) by (nonlinear_arith);
    }
    while lo + 1 < hi
        invariant
            0 <= lo < hi <= 3037000500,
            lo as int * lo as int <= a as int,
            hi as int * hi as int > a as int,
        decreases hi - lo,
    {
        let mid = lo + (hi - lo) / 2;
        proof {
            assert(0 <= (mid as int) * (mid as int) <= i128::MAX as int) by (nonlinear_arith)
                requires
                    0 <= mid as int <= 3037000500,
            ;
        }
        if (mid as i128) * (mid as i128) <= a as i128 {
            lo = mid;
        } else {
            hi = mid;
        }
    }
    proof {
        assert(lo as int >= 0 && lo as int * lo as int <= a as int && (lo as int + 1) * (lo as int
            + 1) > a as int);
        let w = choose|r: int| r >= 0 && #[trigger] (r * r) <= a as int && (r + 1) * (r + 1) > a
            as int;
        lemma_isqrt_unique(a as int, w, lo as int);
    }
    lo
}

/// The built-in calculator tool: integer arithmetic over JSON arguments.
pub struct CalculatorToolHandler;

impl CalculatorToolHandler {
    /// The handler's name.
    pub fn name(&self) -> (r: &'static str)
        ensures
            r@ == "calculator"@,
    {
        "calculator"
    }

    /// The tool's description.
    pub fn description(&self) -> (r: Option<String>)
        ensures
            r matches Some(d) && d@ == "Perform mathematical calculations"@,
    {
        Some(String::from_str("Perform mathematical calculations"))
    }

    /// The tool's input schema: an operation name and two numeric operands.
    pub fn input_schema(&self) -> (r: ToolInputSchema)
        ensures
            r@.schema_type == "object"@,
            r@.required == Some(seq!["operation"@, "a"@]),
            r@.properties is Some,
    {
        let mut op_schema: Vec<(String, Json)> = Vec::new();
        op_schema.push((String::from_str("type"), Json::Str(String::from_str("string"))));
        op_schema.push((
            String::from_str("description"),
            Json::Str(String::from_str("Mathematical operation to perform")),
        ));
        let mut a_schema: Vec<(String, Json)> = Vec::new();
        a_schema.push((String::from_str("type"), Json::Str(String::from_str("number"))));
        a_schema.push((
            String::from_str("description"),
            Json::Str(String::from_str("First operand")),
        ));
        let mut b_schema: Vec<(String, Json)> = Vec::new();
        b_schema.push((String::from_str("type"), Json::Str(String::from_str("number"))));
        b_schema.push((
            String::from_str("description"),
            Json::Str(String::from_str("Second operand (not required for sqrt)")),
        ));
        let mut props: Vec<(String, Json)> = Vec::new();
        props.push((String::from_str("operation"), Json::Obj(op_schema)));
        props.push((String::from_str("a"), Json::Obj(a_schema)));
        props.push((String::from_str("b"), Json::Obj(b_schema)));
        let mut required: Vec<String> = Vec::new();
        required.push(String::from_str("operation"));
        required.push(String::from_str("a"));
        let r = ToolInputSchema {
            schema_type: String::from_str("object"),
            properties: Some(Json::Obj(props)),
            required: Some(required),
        };
        proof {
            assert(r@.required->Some_0 =~= seq!["operation"@, "a"@]);
        }
        r
    }

    /// The complete tool definition composed from the parts above.
    pub fn tool_definition(&self) -> (r: Tool)
        ensures
            r@.name == "calculator"@,
            r@.description == Some("Perform mathematical calculations"@),
            r@.input_schema.schema_type == "object"@,
            r@.annotations is None,
    {
        Tool {
            name: String::from_str("calculator"),
            description: self.description(),
            input_schema: self.input_schema(),
            annotations: None,
        }
    }

    /// Run the calculator. Missing pieces fail with invalid params; a
    /// division by zero or an unknown operation is a tool-level failure; any
    /// other case answers `<a> <op> <b> = <result>`.
    #[verifier::rlimit(100)]
    pub fn execute(&self, arguments: Option<&Json>) -> (r: McpResult<ToolResult>)
        ensures
            match spec_calc_execute(
                match arguments {
                    Some(a) => Some(a@),
                    None => None,
                },
            ) {
                Ok(res) => r matches Ok(x) && x@ == res,
                Err(msg) => r matches Err(e) && e matches McpError::InvalidParams(m) && m@ == msg,
            },
    {
        let args = match arguments {
            Some(a) => a,
            None => {
                return Err(
                    McpError::invalid_params(String::from_str("Calculator requires arguments")),
                );
            },
        };
        let op: String = match args.get("operation") {
            Some(o) => match o.as_str() {
                Some(s) => s.clone(),
                None => {
                    return Err(
                        McpError::invalid_params(String::from_str("Operation is required")),
                    );
                },
            },
            None => {
                return Err(McpError::invalid_params(String::from_str("Operation is required")));
            },
        };
        let a: i64 = match args.get("a") {
            Some(v) => match v.as_i64() {
                Some(n) => n,
                None => {
                    return Err(
                        McpError::invalid_params(
                            String::from_str("Parameter 'a' is required and must be a number"),
                        ),
                    );
                },
            },
            None => {
                return Err(
                    McpError::invalid_params(
                        String::from_str("Parameter 'a' is required and must be a number"),
                    ),
                );
            },
        };
        let is_sqrt = str_eq(op.as_str(), "sqrt");
        let b: i64 = if is_sqrt {
            0
        } else {
            match args.get("b") {
                Some(v) => match v.as_i64() {
                    Some(n) => n,
                    None => {
                        return Err(
                            McpError::invalid_params(
                                String::from_str(
                                    "Parameter 'b' is required and must be a number",
                                ),
                            ),
                        );
                    },
                },
                None => {
                    return Err(
                        McpError::invalid_params(
                            String::from_str("Parameter 'b' is required and must be a number"),
                        ),
                    );
                },
            }
        };
        let known = str_eq(op.as_str(), "add") || str_eq(op.as_str(), "subtract") || str_eq(
            op.as_str(),
            "multiply",
        ) || str_eq(op.as_str(), "divide") || str_eq(op.as_str(), "power") || is_sqrt;
        if !known {
            let mut msg = String::from_str("Unknown operation: ");
            msg.append(op.as_str());
            return Ok(ToolResult::error_text(msg));
        }
        if str_eq(op.as_str(), "divide") && b == 0 {
            return Ok(ToolResult::error_text(String::from_str("Division by zero")));
        }
        let result: i64 = if str_eq(op.as_str(), "add") {
            sat_add(a, b)
        } else if str_eq(op.as_str(), "subtract") {
            sat_sub(a, b)
        } else if str_eq(op.as_str(), "multiply") {
            sat_mul(a, b)
        } else if str_eq(op.as_str(), "divide") {
            trunc_div_exec(a, b)
        } else if str_eq(op.as_str(), "power") {
            if b < 0 {
                0
            } else {
                pow_sat_exec(a, b as u64)
            }
        } else {
            if a < 0 {
                0
            } else {
                isqrt_exec(a)
            }
        };
        let mut text = i64_to_string(a);
        text.append(" ");
        text.append(op.as_str());
        text.append(" ");
        let bs = i64_to_string(b);
        text.append(bs.as_str());
        text.append(" = ");
        let rs = i64_to_string(result);
        text.append(rs.as_str());
        proof {
            reveal_strlit(" ");
            reveal_strlit(" = ");
            assert(text@ =~= spec_calc_text(a as int, op@, b as int, result as int));
        }
        Ok(ToolResult::text(text))
    }

    /// Check the calculator's arguments: an object with a known operation, a
    /// numeric `a`, and a numeric `b` unless the operation is `sqrt`. The
    /// error is always invalid params.
    pub fn validate_arguments(&self, arguments: Option<&Json>) -> (r: McpResult<()>)
        ensures
            r is Ok <==> spec_calc_args_ok(
                match arguments {
                    Some(a) => Some(a@),
                    None => None,
                },
            ),
            r matches Err(e) ==> e is InvalidParams,
    {
        let args = match arguments {
            Some(a) => a,
            None => {
                return Err(
                    McpError::invalid_params(String::from_str("Calculator requires arguments")),
                );
            },
        };
        if !args.is_object() {
            return Err(McpError::invalid_params(String::from_str("Arguments must be an object")));
        }
        let op: String = match args.get("operation") {
            Some(o) => match o.as_str() {
                Some(s) => s.clone(),
                None => {
                    return Err(
                        McpError::invalid_params(
                            String::from_str("Operation is required and must be a string"),
                        ),
                    );
                },
            },
            None => {
                return Err(
                    McpError::invalid_params(
                        String::from_str("Operation is required and must be a string"),
                    ),
                );
            },
        };
        let known = str_eq(op.as_str(), "add") || str_eq(op.as_str(), "subtract") || str_eq(
            op.as_str(),
            "multiply",
        ) || str_eq(op.as_str(), "divide") || str_eq(op.as_str(), "power") || str_eq(
            op.as_str(),
            "sqrt",
        );
        if !known {
            let mut msg = String::from_str("Invalid operation: ");
            msg.append(op.as_str());
            return Err(McpError::invalid_params(msg));
        }
        match args.get("a") {
            Some(v) => {
                if !v.is_number() {
                    return Err(
                        McpError::invalid_params(
                            String::from_str("Parameter 'a' is required and must be a number"),
                        ),
                    );
                }
            },
            None => {
                return Err(
                    McpError::invalid_params(
                        String::from_str("Parameter 'a' is required and must be a number"),
                    ),
                );
            },
        }
        if !str_eq(op.as_str(), "sqrt") {
            match args.get("b") {
                Some(v) => {
                    if !v.is_number() {
                        return Err(
                            McpError::invalid_params(
                                String::from_str(
                                    "Parameter 'b' is required and must be a number",
                                ),
                            ),
                        );
                    }
                },
                None => {
                    return Err(
                        McpError::invalid_params(
                            String::from_str("Parameter 'b' is required and must be a number"),
                        ),
                    );
                },
            }
        }
        Ok(())
    }
}

/// The built-in handler implementations a manager can dispatch to.
#[derive(Debug, Clone, Copy, PartialEq, Eq, Structural)]
pub enum HandlerKind {
    Echo,
    Calculator,
}

/// The name a handler registers under.
pub open spec fn spec_handler_name(k: HandlerKind) -> Seq<char> {
    match k {
        HandlerKind::Echo => "echo"@,
        HandlerKind::Calculator => "calculator"@,
    }
}

/// The name a handler registers under.
pub fn handler_name(k: HandlerKind) -> (r: &'static str)
    ensures
        r@ == spec_handler_name(k),
{
    match k {
        HandlerKind::Echo => "echo",
        HandlerKind::Calculator => "calculator",
    }
}

/// Distinct handler kinds have distinct names.
pub proof fn lemma_handler_name_injective(k1: HandlerKind, k2: HandlerKind)
    requires
        spec_handler_name(k1) == spec_handler_name(k2),
    ensures
        k1 == k2,
{
    reveal_strlit("echo");
    reveal_strlit("calculator");
    assert("echo"@.len() == 4);
    assert("calculator"@.len() == 10);
}

/// Whether a handler accepts the arguments.
pub open spec fn spec_handler_validate_ok(k: HandlerKind, args: Option<JsonVal>) -> bool {
    match k {
        HandlerKind::Echo => spec_echo_args_ok(args),
        HandlerKind::Calculator => spec_calc_args_ok(args),
    }
}

/// What a handler's execution returns: a result, or an invalid-params
/// message.
pub open spec fn spec_handler_execute(k: HandlerKind, args: Option<JsonVal>) -> Result<
    ToolResultV,
    Seq<char>,
> {
    match k {
        HandlerKind::Echo => Ok(spec_echo_result(args)),
        HandlerKind::Calculator => spec_calc_execute(args),
    }
}

/// The tool definition a handler publishes.
pub fn handler_tool_definition(k: HandlerKind) -> (r: Tool)
    ensures
        r@.name == spec_handler_name(k),
{
    match k {
        HandlerKind::Echo => EchoToolHandler.tool_definition(),
        HandlerKind::Calculator => CalculatorToolHandler.tool_definition(),
    }
}

/// Validate arguments through a handler.
pub fn handler_validate(k: HandlerKind, args: Option<&Json>) -> (r: McpResult<()>)
    ensures
        r is Ok <==> spec_handler_validate_ok(
            k,
            match args {
                Some(a) => Some(a@),
                None => None,
            },
        ),
        r matches Err(e) ==> e is InvalidParams,
{
    match k {
        HandlerKind::Echo => EchoToolHandler.validate_arguments(args),
        HandlerKind::Calculator => CalculatorToolHandler.validate_arguments(args),
    }
}

/// Execute a handler.
pub fn handler_execute(k: HandlerKind, args: Option<&Json>) -> (r: McpResult<ToolResult>)
    ensures
        match spec_handler_execute(
            k,
            match args {
                Some(a) => Some(a@),
                None => None,
            },
        ) {
            Ok(res) => r matches Ok(x) && x@ == res,
            Err(msg) => r matches Err(e) && e matches McpError::InvalidParams(m) && m@ == msg,
        },
{
    match k {
        HandlerKind::Echo => EchoToolHandler.execute(args),
        HandlerKind::Calculator => CalculatorToolHandler.execute(args),
    }
}

/// Views of the tools held in a registry, in registry order.
pub open spec fn spec_tool_views(s: Seq<(Seq<char>, Tool)>) -> Seq<ToolV> {
    Seq::new(s.len(), |i: int| s[i].1@)
}

/// The tool feature: a registry of definitions and a registry of handlers,
/// both keyed by tool name, and an enabled flag.
pub struct ToolManager {
    pub tools: Vec<(String, Tool)>,
    pub handlers: Vec<(String, HandlerKind)>,
    pub enabled: bool,
}

impl ToolManager {
    /// Well-formed: both registries sorted by key, and every definition is
    /// stored under its own name.
    pub open spec fn wf(&self) -> bool {
        &&& assoc_wf(pairs_view(self.tools@))
        &&& assoc_wf(pairs_view(self.handlers@))
        &&& forall|i: int|
            0 <= i < self.tools@.len() ==> (#[trigger] self.tools@[i]).1.name@ == self.tools@[i].0@
    }

    /// The definition registry.
    pub open spec fn spec_tools(&self) -> Seq<(Seq<char>, Tool)> {
        pairs_view(self.tools@)
    }

    /// The handler registry.
    pub open spec fn spec_handlers(&self) -> Seq<(Seq<char>, HandlerKind)> {
        pairs_view(self.handlers@)
    }

    /// Whether the feature is enabled.
    pub open spec fn spec_enabled(&self) -> bool {
        self.enabled
    }

    /// A fresh manager: empty registries, feature enabled.
    pub fn new() -> (r: Self)
        ensures
            r.wf(),
            r.spec_tools().len() == 0,
            r.spec_handlers().len() == 0,
            r.spec_enabled(),
    {
        let r = ToolManager { tools: Vec::new(), handlers: Vec::new(), enabled: true };
        proof {
            assert(pairs_view(r.tools@) =~= Seq::<(Seq<char>, Tool)>::empty());
            assert(pairs_view(r.handlers@) =~= Seq::<(Seq<char>, HandlerKind)>::empty());
        }
        r
    }

    /// Register a tool definition under its name; an existing definition of
    /// that name is replaced. Fails only while the feature is disabled.
    pub fn register_tool(&mut self, tool: Tool) -> (r: McpResult<()>)
        requires
            old(self).wf(),
        ensures
            final(self).wf(),
            final(self).spec_enabled() == old(self).spec_enabled(),
            final(self).spec_handlers() == old(self).spec_handlers(),
            !old(self).spec_enabled() ==> r is Err && *final(self) == *old(self) && (
            r->Err_0 matches McpError::Tool(m) && m@ == "Tool feature is disabled"@),
            old(self).spec_enabled() ==> r is Ok && assoc_lookup(
                final(self).spec_tools(),
                tool.name@,
            ) == Some(tool) && (forall|k2: Seq<char>|
                k2 != tool.name@ ==> #[trigger] assoc_lookup(final(self).spec_tools(), k2)
                    == assoc_lookup(old(self).spec_tools(), k2)),
    {
        if !self.enabled {
            return Err(McpError::Tool(String::from_str("Tool feature is disabled")));
        }
        let name = tool.name.clone();
        let ghost t = tool;
        let ghost olds = pairs_view(self.tools@);
        assoc_insert(&mut self.tools, name, tool);
        proof {
            let s = pairs_view(self.tools@);
            assert forall|i: int|
                0 <= i < self.tools@.len() implies (#[trigger] self.tools@[i]).1.name@
                == self.tools@[i].0@ by {
                let k = s[i].0;
                assert forall|j: int| 0 <= j < i implies (#[trigger] s[j]).0 != k by {
                    crate::registry::lemma_wf_ordered(s, j, i);
                }
                crate::registry::lemma_assoc_at(s, k, i);
                if k != t.name@ {
                    crate::registry::lemma_assoc_lookup_exists(olds, k);
                }
            }
        }
        Ok(())
    }

    /// Remove a tool definition, returning it when it was present.
    pub fn unregister_tool(&mut self, name: &str) -> (r: McpResult<Option<Tool>>)
        requires
            old(self).wf(),
        ensures
            final(self).wf(),
            final(self).spec_enabled() == old(self).spec_enabled(),
            final(self).spec_handlers() == old(self).spec_handlers(),
            assoc_lookup(final(self).spec_tools(), name@) is None,
            forall|k2: Seq<char>|
                k2 != name@ ==> #[trigger] assoc_lookup(final(self).spec_tools(), k2)
                    == assoc_lookup(old(self).spec_tools(), k2),
            match r {
                Ok(Some(t)) => assoc_lookup(old(self).spec_tools(), name@) == Some(t),
                Ok(None) => assoc_lookup(old(self).spec_tools(), name@) is None,
                Err(_) => false,
            },
    {
        let ghost olds = pairs_view(self.tools@);
        let r = assoc_remove(&mut self.tools, name);
        proof {
            let s = pairs_view(self.tools@);
            assert forall|i: int|
                0 <= i < self.tools@.len() implies (#[trigger] self.tools@[i]).1.name@
                == self.tools@[i].0@ by {
                let k = s[i].0;
                assert forall|j: int| 0 <= j < i implies (#[trigger] s[j]).0 != k by {
                    crate::registry::lemma_wf_ordered(s, j, i);
                }
                crate::registry::lemma_assoc_at(s, k, i);
                assert(k != name@);
                crate::registry::lemma_assoc_lookup_exists(olds, k);
            }
        }
        Ok(r)
    }

    /// Look a tool definition up by name.
    pub fn get_tool(&self, name: &str) -> (r: Option<&Tool>)
        ensures
            match r {
                Some(t) => assoc_lookup(self.spec_tools(), name@) == Some(*t),
                None => assoc_lookup(self.spec_tools(), name@) is None,
            },
    {
        assoc_get(&self.tools, name)
    }

    /// Number of registered tools.
    pub fn get_tool_count(&self) -> (r: usize)
        ensures
            r == self.spec_tools().len(),
    {
        self.tools.len()
    }

    /// Whether the feature is enabled.
    pub fn is_enabled(&self) -> (r: bool)
        ensures
            r == self.spec_enabled(),
    {
        self.enabled
    }

    /// Enable or disable the feature.
    pub fn set_enabled(&mut self, enabled: bool)
        ensures
            final(self).spec_enabled() == enabled,
            final(self).spec_tools() == old(self).spec_tools(),
            final(self).spec_handlers() == old(self).spec_handlers(),
            final(self).wf() == old(self).wf(),
    {
        self.enabled = enabled;
    }

    /// List the registered tools in ascending name order, one page at a
    /// time. Fails only while the feature is disabled.
    #[verifier::loop_isolation(false)]
    pub fn list_tools(&self, pagination: Option<&PaginationParams>) -> (r: McpResult<
        (Vec<Tool>, PaginationResult),
    >)
        requires
            self.wf(),
        ensures
            !self.spec_enabled() ==> r is Err && (r->Err_0 matches McpError::Tool(m) && m@
                == "Tool feature is disabled"@),
            self.spec_enabled() ==> r is Ok && ({
                let all = spec_tool_views(self.spec_tools());
                let page = r->Ok_0.0;
                let pr = r->Ok_0.1;
                match pagination {
                    None => Seq::new(page@.len(), |i: int| page@[i]@) == all && pr.next_cursor
                        is None,
                    Some(p) => {
                        let start = spec_cursor_start(
                            match p.cursor {
                                Some(ref c) => Some(c@),
                                None => None,
                            },
                        );
                        &&& Seq::new(page@.len(), |i: int| page@[i]@) == spec_page(all, start)
                        &&& match (&pr.next_cursor, spec_next_cursor(all, start)) {
                            (Some(c), Some(s)) => c@ == s,
                            (None, None) => true,
                            _ => false,
                        }
                    },
                }
            }),
    {
        if !self.enabled {
            return Err(McpError::Tool(String::from_str("Tool feature is disabled")));
        }
        let ghost all = spec_tool_views(self.spec_tools());
        let mut values: Vec<Tool> = Vec::new();
        let mut i: usize = 0;
        while i < self.tools.len()
            invariant
                i <= self.tools@.len(),
                values@.len() == i,
                forall|k: int| 0 <= k < i ==> (#[trigger] values@[k])@ == all[k],
            decreases self.tools@.len() - i,
        {
            values.push(self.tools[i].1.clone_tool());
            i = i + 1;
        }
        let (page, pr) = paginate(values, pagination);
        proof {
            let pv = Seq::new(page@.len(), |i: int| page@[i]@);
            match pagination {
                None => {
                    assert forall|k: int| 0 <= k < page@.len() implies pv[k] == all[k] by {
                        assert(page@[k] == values@[k]);
                    }
                    assert(pv =~= all);
                },
                Some(p) => {
                    let start = spec_cursor_start(
                        match p.cursor {
                            Some(ref c) => Some(c@),
                            None => None,
                        },
                    );
                    let want = spec_page(all, start);
                    assert forall|k: int| 0 <= k < page@.len() implies pv[k] == want[k] by {
                        assert(page@[k] == spec_page(values@, start)[k]);
                    }
                    assert(pv =~= want);
                },
            }
        }
        Ok((page, pr))
    }

    /// Register a handler under its name.
    pub fn register_handler(&mut self, kind: HandlerKind)
        requires
            old(self).wf(),
        ensures
            final(self).wf(),
            final(self).spec_enabled() == old(self).spec_enabled(),
            final(self).spec_tools() == old(self).spec_tools(),
            assoc_lookup(final(self).spec_handlers(), spec_handler_name(kind)) == Some(kind),
            forall|k2: Seq<char>|
                k2 != spec_handler_name(kind) ==> #[trigger] assoc_lookup(
                    final(self).spec_handlers(),
                    k2,
                ) == assoc_lookup(old(self).spec_handlers(), k2),
    {
        let name = String::from_str(handler_name(kind));
        assoc_insert(&mut self.handlers, name, kind);
    }

    /// Register a handler together with the tool definition it publishes.
    /// Fails only while the feature is disabled.
    pub fn register_handler_with_tool(&mut self, kind: HandlerKind) -> (r: McpResult<()>)
        requires
            old(self).wf(),
        ensures
            final(self).wf(),
            final(self).spec_enabled() == old(self).spec_enabled(),
            !old(self).spec_enabled() ==> r is Err && *final(self) == *old(self) && (
            r->Err_0 matches McpError::Tool(m) && m@ == "Tool feature is disabled"@),
            old(self).spec_enabled() ==> r is Ok && (assoc_lookup(
                final(self).spec_handlers(),
                spec_handler_name(kind),
            ) == Some(kind)) && (assoc_lookup(final(self).spec_tools(), spec_handler_name(kind))
                matches Some(t) && t@.name == spec_handler_name(kind)) && (forall|k2: Seq<char>|
                k2 != spec_handler_name(kind) ==> #[trigger] assoc_lookup(
                    final(self).spec_tools(),
                    k2,
                ) == assoc_lookup(old(self).spec_tools(), k2)) && (forall|k2: Seq<char>|
                k2 != spec_handler_name(kind) ==> #[trigger] assoc_lookup(
                    final(self).spec_handlers(),
                    k2,
                ) == assoc_lookup(old(self).spec_handlers(), k2)),
    {
        if !self.enabled {
            return Err(McpError::Tool(String::from_str("Tool feature is disabled")));
        }
        let tool = handler_tool_definition(kind);
        let result = self.register_tool(tool);
        match result {
            Ok(_) => (),
            Err(_) => {
                return Err(McpError::Tool(String::from_str("Tool feature is disabled")));
            },
        }
        self.register_handler(kind);
        Ok(())
    }

    /// Register several handlers with their definitions, in order.
    pub fn register_handlers(&mut self, kinds: Vec<HandlerKind>) -> (r: McpResult<()>)
        requires
            old(self).wf(),
        ensures
            final(self).wf(),
            final(self).spec_enabled() == old(self).spec_enabled(),
            r is Ok,
            old(self).spec_enabled() ==> forall|i: int|
                0 <= i < kinds@.len() ==> assoc_lookup(
                    final(self).spec_handlers(),
                    spec_handler_name(#[trigger] kinds@[i]),
                ) == Some(kinds@[i]),
    {
        let mut i: usize = 0;
        while i < kinds.len()
            invariant
                i <= kinds@.len(),
                self.wf(),
                self.spec_enabled() == old(self).spec_enabled(),
                old(self).spec_enabled() ==> forall|j: int|
                    0 <= j < i ==> assoc_lookup(
                        self.spec_handlers(),
                        spec_handler_name(#[trigger] kinds@[j]),
                    ) == Some(kinds@[j]),
            decreases kinds@.len() - i,
        {
            let kind = kinds[i];
            let _ = self.register_handler_with_tool(kind);
            proof {
                if old(self).spec_enabled() {
                    assert forall|j: int|
                        0 <= j < i + 1 implies assoc_lookup(
                        self.spec_handlers(),
                        spec_handler_name(#[trigger] kinds@[j]),
                    ) == Some(kinds@[j]) by {
                        if j < i {
                            if spec_handler_name(kinds@[j]) == spec_handler_name(kind) {
                                lemma_handler_name_injective(kinds@[j], kind);
                            }
                        }
                    }
                }
            }
            i = i + 1;
        }
        Ok(())
    }

    /// Call a tool by name: the definition and a handler must exist, the
    /// handler must accept the arguments, and its result is returned.
    pub fn call_tool(&self, name: &str, arguments: Option<&Json>) -> (r: McpResult<ToolResult>)
        requires
            self.wf(),
        ensures
            ({
                let argsv = match arguments {
                    Some(a) => Some(a@),
                    None => None,
                };
                if !self.spec_enabled() {
                    r matches Err(e) && e matches McpError::Tool(m) && m@
                        == "Tool feature is disabled"@
                } else if assoc_lookup(self.spec_tools(), name@) is None {
                    r matches Err(e) && e matches McpError::Tool(m) && m@ == "Tool not found: "@
                        + name@
                } else if assoc_lookup(self.spec_handlers(), name@) is None {
                    r matches Err(e) && e matches McpError::Tool(m) && m@
                        == "No handler found for tool: "@ + name@
                } else {
                    let kind = assoc_lookup(self.spec_handlers(), name@)->Some_0;
                    if !spec_handler_validate_ok(kind, argsv) {
                        r matches Err(e) && e is InvalidParams
                    } else {
                        match spec_handler_execute(kind, argsv) {
                            Ok(res) => r matches Ok(x) && x@ == res,
                            Err(msg) => r matches Err(e) && e matches McpError::InvalidParams(m)
                                && m@ == msg,
                        }
                    }
                }
            }),
    {
        if !self.enabled {
            return Err(McpError::Tool(String::from_str("Tool feature is disabled")));
        }
        match self.get_tool(name) {
            Some(_) => (),
            None => {
                let mut m = String::from_str("Tool not found: ");
                m.append(name);
                return Err(McpError::Tool(m));
            },
        }
        let kind: HandlerKind = match assoc_get(&self.handlers, name) {
            Some(k) => *k,
            None => {
                let mut m = String::from_str("No handler found for tool: ");
                m.append(name);
                return Err(McpError::Tool(m));
            },
        };
        match handler_validate(kind, arguments) {
            Ok(_) => (),
            Err(e) => {
                return Err(e);
            },
        }
        handler_execute(kind, arguments)
    }
}


/// Configuration of one tool handler: whether it is enabled, its priority,
/// and free-form settings.
#[derive(Debug)]
pub struct ToolHandlerConfig {
    pub name: String,
    pub enabled: bool,
    pub priority: i32,
    pub config: Json,
}

impl Default for ToolHandlerConfig {
    /// An unnamed enabled handler at priority zero with empty settings.
    fn default() -> (r: Self)
        ensures
            r.name@.len() == 0,
            r.enabled,
            r.priority == 0,
    {
        ToolHandlerConfig {
            name: String::new(),
            enabled: true,
            priority: 0,
            config: Json::Obj(Vec::new()),
        }
    }
}

/// Configuration of the handler set: explicit entries, and whether built-in
/// handlers are discovered and enabled by default.
#[derive(Debug)]
pub struct ToolsConfig {
    pub handlers: Vec<ToolHandlerConfig>,
    pub auto_discover_builtin: bool,
    pub enable_all_by_default: bool,
}

impl Default for ToolsConfig {
    /// No explicit entries; built-ins discovered and enabled.
    fn default() -> (r: Self)
        ensures
            r.handlers@.len() == 0,
            r.auto_discover_builtin,
            r.enable_all_by_default,
    {
        ToolsConfig { handlers: Vec::new(), auto_discover_builtin: true, enable_all_by_default: true }
    }
}

/// One registered handler: its name, implementation, priority and whether
/// it is built in.
#[derive(Debug)]
pub struct ToolHandlerRegistration {
    pub name: String,
    pub kind: HandlerKind,
    pub priority: i32,
    pub is_builtin: bool,
}

impl ToolHandlerRegistration {
    /// Copy preserving every field's value.
    pub fn clone_registration(&self) -> (r: Self)
        ensures
            r.name@ == self.name@,
            r.kind == self.kind,
            r.priority == self.priority,
            r.is_builtin == self.is_builtin,
    {
        ToolHandlerRegistration {
            name: self.name.clone(),
            kind: self.kind,
            priority: self.priority,
            is_builtin: self.is_builtin,
        }
    }
}

/// Whether a registration list carries a name.
pub open spec fn spec_reg_has_name(s: Seq<ToolHandlerRegistration>, name: Seq<char>) -> bool {
    exists|i: int| 0 <= i < s.len() && (#[trigger] s[i]).name@ == name
}

/// Whether a built-in registration stands in the list: the name bound to
/// its implementation, at the built-in priority, marked built in.
pub open spec fn spec_builtin_registered(s: Seq<ToolHandlerRegistration>, name: Seq<char>,
    kind: HandlerKind) -> bool {
    exists|i: int|
        0 <= i < s.len() && (#[trigger] s[i]).name@ == name && s[i].kind == kind && s[i].priority
            == 100 && s[i].is_builtin
}

/// The registry of handler factories: registrations kept sorted by
/// descending priority, names unique.
#[derive(Debug)]
pub struct ToolHandlerRegistry {
    pub entries: Vec<ToolHandlerRegistration>,
}

impl ToolHandlerRegistry {
    /// Well-formed: priorities never increase along the list.
    pub open spec fn wf(&self) -> bool {
        forall|i: int|
            0 <= i && i + 1 < self.entries@.len() ==> (#[trigger] self.entries@[i]).priority
                >= self.entries@[i + 1].priority
    }

    /// An empty registry.
    pub fn new() -> (r: Self)
        ensures
            r.wf(),
            r.entries@.len() == 0,
    {
        ToolHandlerRegistry { entries: Vec::new() }
    }

    /// Whether a name is registered.
    #[verifier::loop_isolation(false)]
    fn has_name(&self, name: &str) -> (r: bool)
        ensures
            r == spec_reg_has_name(self.entries@, name@),
    {
        let mut i: usize = 0;
        while i < self.entries.len()
            invariant
                i <= self.entries@.len(),
                forall|j: int| 0 <= j < i ==> (#[trigger] self.entries@[j]).name@ != name@,
            decreases self.entries@.len() - i,
        {
            if str_eq(self.entries[i].name.as_str(), name) {
                return true;
            }
            i = i + 1;
        }
        false
    }

    /// The first rank whose priority falls below the given one.
    #[verifier::loop_isolation(false)]
    #[verifier::rlimit(100)]
    #[verifier::spinoff_prover]
    fn find_rank(&self, priority: i32) -> (pos: usize)
        ensures
            pos <= self.entries@.len(),
            forall|j: int| 0 <= j < pos ==> (#[trigger] self.entries@[j]).priority >= priority,
            pos < self.entries@.len() ==> !(self.entries@[pos as int].priority >= priority),
    {
        let mut pos: usize = 0;
        while pos < self.entries.len() && self.entries[pos].priority >= priority
            invariant
                pos <= self.entries@.len(),
                forall|j: int| 0 <= j < pos ==> (#[trigger] self.entries@[j]).priority >= priority,
            decreases self.entries@.len() - pos,
        {
            pos = pos + 1;
        }
        pos
    }

    /// Register a handler. A duplicate name is rejected; otherwise the
    /// registration joins the list at its priority rank: entries of no lower
    /// priority keep their places, the rest shift up by one, and the new
    /// entry carries exactly the given fields.
    #[verifier::rlimit(100)]
    #[verifier::spinoff_prover]
    pub fn register(&mut self, name: String, kind: HandlerKind, priority: i32, is_builtin: bool)
        -> (r: McpResult<()>)
        requires
            old(self).wf(),
        ensures
            final(self).wf(),
            spec_reg_has_name(old(self).entries@, name@) ==> (r matches Err(e) && e is Tool
                && *final(self) == *old(self)),
            !spec_reg_has_name(old(self).entries@, name@) ==> (r is Ok
                && final(self).entries@.len() == old(self).entries@.len() + 1),
            forall|n2: Seq<char>|
                n2 != name@ ==> (#[trigger] spec_reg_has_name(final(self).entries@, n2)
                    <==> spec_reg_has_name(old(self).entries@, n2)),
            spec_reg_has_name(final(self).entries@, name@),
            r is Ok ==> (exists|i: int|
                0 <= i < final(self).entries@.len() && (#[trigger] final(self).entries@[i]).name@
                    == name@ && final(self).entries@[i].kind == kind
                    && final(self).entries@[i].priority == priority
                    && final(self).entries@[i].is_builtin == is_builtin),
            forall|j: int|
                0 <= j < old(self).entries@.len() && (#[trigger] old(self).entries@[j]).name@
                    != name@ ==> (exists|j2: int|
                    0 <= j2 < final(self).entries@.len() && #[trigger] final(self).entries@[j2]
                        == old(self).entries@[j]),
    {
        let ghost olds = self.entries@;
        if self.has_name(name.as_str()) {
            let mut m = String::from_str("Tool handler '");
            m.append(name.as_str());
            m.append("' is already registered");
            return Err(McpError::Tool(m));
        }
        let pos = self.find_rank(priority);
        let ghost gpos = pos as int;
        let entry = ToolHandlerRegistration { name, kind, priority, is_builtin };
        self.entries.insert(pos, entry);
        proof {
            lemma_desc_insert_wf(olds, self.entries@, gpos, entry);
            lemma_insert_membership(olds, self.entries@, gpos, entry);
            lemma_insert_pointwise(olds, self.entries@, gpos, entry);
            assert(self.entries@[gpos].name@ == entry.name@);
            assert forall|j: int|
                0 <= j < olds.len() && (#[trigger] olds[j]).name@ != entry.name@ implies (exists|
                j2: int|
                0 <= j2 < self.entries@.len() && #[trigger] self.entries@[j2] == olds[j]) by {
                if j < gpos {
                    assert(self.entries@[j] == olds[j]);
                } else {
                    assert(self.entries@[j + 1] == olds[j]);
                }
            }
        }
        Ok(())
    }

    /// All registrations, copied, in priority order.
    #[verifier::loop_isolation(false)]
    pub fn get_all(&self) -> (r: Vec<ToolHandlerRegistration>)
        ensures
            r@.len() == self.entries@.len(),
            forall|i: int|
                0 <= i < r@.len() ==> (#[trigger] r@[i]).name@ == self.entries@[i].name@
                    && r@[i].kind == self.entries@[i].kind && r@[i].priority
                    == self.entries@[i].priority && r@[i].is_builtin == self.entries@[i].is_builtin,
    {
        let mut out: Vec<ToolHandlerRegistration> = Vec::new();
        let mut i: usize = 0;
        while i < self.entries.len()
            invariant
                i <= self.entries@.len(),
                out@.len() == i,
                forall|k: int|
                    0 <= k < i ==> (#[trigger] out@[k]).name@ == self.entries@[k].name@
                        && out@[k].kind == self.entries@[k].kind && out@[k].priority
                        == self.entries@[k].priority && out@[k].is_builtin
                        == self.entries@[k].is_builtin,
            decreases self.entries@.len() - i,
        {
            out.push(self.entries[i].clone_registration());
            i = i + 1;
        }
        out
    }

    /// The registration under a name, when there is one.
    #[verifier::loop_isolation(false)]
    pub fn get(&self, name: &str) -> (r: Option<ToolHandlerRegistration>)
        ensures
            r is Some <==> spec_reg_has_name(self.entries@, name@),
            r matches Some(reg) ==> reg.name@ == name@,
    {
        let mut i: usize = 0;
        while i < self.entries.len()
            invariant
                i <= self.entries@.len(),
                forall|j: int| 0 <= j < i ==> (#[trigger] self.entries@[j]).name@ != name@,
            decreases self.entries@.len() - i,
        {
            if str_eq(self.entries[i].name.as_str(), name) {
                return Some(self.entries[i].clone_registration());
            }
            i = i + 1;
        }
        None
    }

    /// Remove every registration.
    pub fn clear(&mut self) -> (r: McpResult<()>)
        ensures
            final(self).wf(),
            final(self).entries@.len() == 0,
            r is Ok,
    {
        self.entries.clear();
        Ok(())
    }

    /// Register one built-in handler at the standard priority, keeping every
    /// other registration's record.
    #[verifier::rlimit(100)]
    #[verifier::spinoff_prover]
    fn register_one_builtin(&mut self, name: &'static str, kind: HandlerKind) -> (r: McpResult<()>)
        requires
            old(self).wf(),
        ensures
            final(self).wf(),
            r is Ok ==> spec_builtin_registered(final(self).entries@, name@, kind),
            r is Err ==> *final(self) == *old(self) && spec_reg_has_name(
                old(self).entries@,
                name@,
            ),
            forall|n2: Seq<char>|
                n2 != name@ ==> (#[trigger] spec_reg_has_name(final(self).entries@, n2)
                    <==> spec_reg_has_name(old(self).entries@, n2)),
            forall|j: int|
                0 <= j < old(self).entries@.len() && (#[trigger] old(self).entries@[j]).name@
                    != name@ ==> (exists|j2: int|
                    0 <= j2 < final(self).entries@.len() && #[trigger] final(self).entries@[j2]
                        == old(self).entries@[j]),
    {
        let r = self.register(String::from_str(name), kind, 100, true);
        match r {
            Ok(_) => Ok(()),
            Err(e) => Err(e),
        }
    }

    /// Register the built-in echo and calculator handlers at their standard
    /// priority, marked built in. A name already present fails the call,
    /// leaving what was registered so far in place.
    #[verifier::rlimit(100)]
    #[verifier::spinoff_prover]
    pub fn register_builtin_handlers(&mut self) -> (r: McpResult<()>)
        requires
            old(self).wf(),
        ensures
            final(self).wf(),
            r is Ok ==> spec_builtin_registered(final(self).entries@, "echo"@, HandlerKind::Echo)
                && spec_builtin_registered(
                final(self).entries@,
                "calculator"@,
                HandlerKind::Calculator,
            ),
            r is Err ==> (spec_reg_has_name(old(self).entries@, "echo"@) || spec_reg_has_name(
                old(self).entries@,
                "calculator"@,
            )),
    {
        let ghost olds = self.entries@;
        match self.register_one_builtin("echo", HandlerKind::Echo) {
            Ok(_) => (),
            Err(e) => {
                return Err(e);
            },
        }
        let ghost mids = self.entries@;
        match self.register_one_builtin("calculator", HandlerKind::Calculator) {
            Ok(_) => (),
            Err(e) => {
                proof {
                    reveal_strlit("echo");
                    reveal_strlit("calculator");
                    assert("echo"@.len() == 4 && "calculator"@.len() == 10);
                    assert("echo"@ != "calculator"@);
                }
                return Err(e);
            },
        }
        proof {
            reveal_strlit("echo");
            reveal_strlit("calculator");
            assert("echo"@.len() == 4 && "calculator"@.len() == 10);
            lemma_builtin_preserved(
                mids,
                self.entries@,
                "echo"@,
                HandlerKind::Echo,
                "calculator"@,
            );
        }
        Ok(())
    }
}

/// Insertion at the first rank whose priority falls below the new entry's
/// keeps the list sorted by descending priority.
#[verifier::rlimit(100)]
#[verifier::spinoff_prover]
proof fn lemma_desc_insert_wf(olds: Seq<ToolHandlerRegistration>,
    news: Seq<ToolHandlerRegistration>, pos: int, entry: ToolHandlerRegistration)
    requires
        0 <= pos <= olds.len(),
        news == olds.insert(pos, entry),
        forall|i: int|
            0 <= i && i + 1 < olds.len() ==> (#[trigger] olds[i]).priority >= olds[i + 1].priority,
        forall|j: int| 0 <= j < pos ==> (#[trigger] olds[j]).priority >= entry.priority,
        pos < olds.len() ==> !(olds[pos].priority >= entry.priority),
    ensures
        forall|i: int|
            0 <= i && i + 1 < news.len() ==> (#[trigger] news[i]).priority >= news[i + 1].priority,
{
    assert forall|a: int|
        0 <= a && a + 1 < news.len() implies (#[trigger] news[a]).priority >= news[a
        + 1].priority by {
        if a + 1 < pos {
            assert(news[a] == olds[a] && news[a + 1] == olds[a + 1]);
        } else if a + 1 == pos {
            assert(news[a] == olds[a]);
        } else if a == pos {
            assert(news[a + 1] == olds[a]);
        } else {
            assert(news[a] == olds[a - 1] && news[a + 1] == olds[a]);
        }
    }
}

/// Insertion shifts the tail up by one and places the entry at its rank.
#[verifier::rlimit(100)]
#[verifier::spinoff_prover]
proof fn lemma_insert_pointwise(olds: Seq<ToolHandlerRegistration>,
    news: Seq<ToolHandlerRegistration>, pos: int, entry: ToolHandlerRegistration)
    requires
        0 <= pos <= olds.len(),
        news == olds.insert(pos, entry),
    ensures
        news.len() == olds.len() + 1,
        forall|j: int| 0 <= j < pos ==> #[trigger] news[j] == olds[j],
        forall|j: int| pos < j < news.len() ==> #[trigger] news[j] == olds[j - 1],
        news[pos] == entry,
{
    assert forall|j: int| 0 <= j < pos implies #[trigger] news[j] == olds[j] by {}
    assert forall|j: int| pos < j < news.len() implies #[trigger] news[j] == olds[j - 1] by {}
}

/// Inserting an entry adds its name and keeps every other name's presence.
#[verifier::rlimit(100)]
#[verifier::spinoff_prover]
proof fn lemma_insert_membership(olds: Seq<ToolHandlerRegistration>,
    news: Seq<ToolHandlerRegistration>, pos: int, entry: ToolHandlerRegistration)
    requires
        0 <= pos <= olds.len(),
        news == olds.insert(pos, entry),
    ensures
        forall|n2: Seq<char>|
            n2 != entry.name@ ==> (#[trigger] spec_reg_has_name(news, n2) <==> spec_reg_has_name(
                olds,
                n2,
            )),
{
    assert forall|n2: Seq<char>|
        n2 != entry.name@ implies (#[trigger] spec_reg_has_name(news, n2) <==> spec_reg_has_name(
        olds,
        n2,
    )) by {
        if spec_reg_has_name(news, n2) {
            let w = choose|w: int| 0 <= w < news.len() && (#[trigger] news[w]).name@ == n2;
            if w < pos {
                assert(olds[w].name@ == n2);
            } else if w > pos {
                assert(olds[w - 1].name@ == n2);
            }
        }
        if spec_reg_has_name(olds, n2) {
            let w = choose|w: int| 0 <= w < olds.len() && (#[trigger] olds[w]).name@ == n2;
            if w < pos {
                assert(news[w].name@ == n2);
            } else {
                assert(news[w + 1].name@ == n2);
            }
        }
    }
}

/// A built-in registration survives an insertion under a different name.
#[verifier::rlimit(100)]
#[verifier::spinoff_prover]
proof fn lemma_builtin_preserved(mids: Seq<ToolHandlerRegistration>,
    finals: Seq<ToolHandlerRegistration>, name: Seq<char>, kind: HandlerKind, other: Seq<char>)
    requires
        spec_builtin_registered(mids, name, kind),
        name != other,
        forall|j: int|
            0 <= j < mids.len() && (#[trigger] mids[j]).name@ != other ==> (exists|j2: int|
                0 <= j2 < finals.len() && #[trigger] finals[j2] == mids[j]),
    ensures
        spec_builtin_registered(finals, name, kind),
{
    let i0 = choose|i0: int|
        0 <= i0 < mids.len() && (#[trigger] mids[i0]).name@ == name && mids[i0].kind == kind
            && mids[i0].priority == 100 && mids[i0].is_builtin;
    assert(mids[i0].name@ != other);
    let j2 = choose|j2: int| 0 <= j2 < finals.len() && #[trigger] finals[j2] == mids[i0];
    assert(finals[j2].name@ == name);
}

/// The configuration entry that governs a name: the last one with that
/// name, as later entries override earlier ones.
pub open spec fn spec_cfg_for(handlers: Seq<ToolHandlerConfig>, name: Seq<char>) -> Option<
    ToolHandlerConfig,
>
    decreases handlers.len(),
{
    if handlers.len() == 0 {
        None
    } else if handlers.last().name@ == name {
        Some(handlers.last())
    } else {
        spec_cfg_for(handlers.drop_last(), name)
    }
}

/// Whether discovery enables a registration under a configuration: an
/// explicit entry decides; otherwise a built-in follows the auto-discovery
/// defaults; anything else stays disabled. Without a configuration every
/// built-in is enabled.
pub open spec fn spec_discovery_enables(reg: ToolHandlerRegistration, config: Option<
    &ToolsConfig,
>) -> bool {
    match config {
        None => reg.is_builtin,
        Some(c) => match spec_cfg_for(c.handlers@, reg.name@) {
            Some(entry) => entry.enabled,
            None => reg.is_builtin && c.auto_discover_builtin && c.enable_all_by_default,
        },
    }
}

/// Find the configuration entry governing a name.
#[verifier::loop_isolation(false)]
fn cfg_for<'a>(handlers: &'a Vec<ToolHandlerConfig>, name: &str) -> (r: Option<
    &'a ToolHandlerConfig,
>)
    ensures
        match (r, spec_cfg_for(handlers@, name@)) {
            (Some(a), Some(b)) => a.enabled == b.enabled && a.name@ == b.name@,
            (None, None) => true,
            _ => false,
        },
{
    let n = handlers.len();
    let mut i: usize = n;
    proof {
        assert(handlers@.subrange(0, n as int) =~= handlers@);
    }
    while i > 0
        invariant
            i <= n,
            n == handlers@.len(),
            spec_cfg_for(handlers@, name@) == spec_cfg_for(handlers@.subrange(0, i as int), name@),
        decreases i,
    {
        proof {
            assert(handlers@.subrange(0, i as int).last() == handlers@[i - 1]);
            assert(handlers@.subrange(0, i as int).drop_last() =~= handlers@.subrange(
                0,
                i as int - 1,
            ));
        }
        if str_eq(handlers[i - 1].name.as_str(), name) {
            return Some(&handlers[i - 1]);
        }
        i = i - 1;
    }
    proof {
        assert(handlers@.subrange(0, 0) =~= Seq::<ToolHandlerConfig>::empty());
    }
    None
}

/// The registrations discovery keeps, in their registry order.
pub open spec fn spec_discovered(regs: Seq<ToolHandlerRegistration>, config: Option<&ToolsConfig>)
    -> Seq<HandlerKind>
    decreases regs,
{
    if regs.len() == 0 {
        Seq::empty()
    } else {
        spec_discovered(regs.drop_last(), config) + (if spec_discovery_enables(
            regs.last(),
            config,
        ) {
            seq![regs.last().kind]
        } else {
            Seq::empty()
        })
    }
}

/// Discovery of configured handlers.
pub struct ToolHandlerDiscovery;

impl ToolHandlerDiscovery {
    /// Choose the handlers to instantiate: ensure the built-ins are
    /// registered, then keep each registration its configuration enables,
    /// in priority order.
    #[verifier::loop_isolation(false)]
    #[verifier::rlimit(100)]
    pub fn discover_handlers(registry: &mut ToolHandlerRegistry, config: Option<&ToolsConfig>)
        -> (r: McpResult<Vec<HandlerKind>>)
        requires
            old(registry).wf(),
        ensures
            final(registry).wf(),
            r matches Ok(kinds) && kinds@ == spec_discovered(final(registry).entries@, config),
    {
        let _ = registry.register_builtin_handlers();
        let ghost regs = registry.entries@;
        let mut kinds: Vec<HandlerKind> = Vec::new();
        let mut i: usize = 0;
        while i < registry.entries.len()
            invariant
                i <= registry.entries@.len(),
                registry.entries@ == regs,
                kinds@ == spec_discovered(regs.subrange(0, i as int), config),
            decreases registry.entries@.len() - i,
        {
            proof {
                assert(regs.subrange(0, i as int + 1).drop_last() =~= regs.subrange(0, i as int));
                assert(regs.subrange(0, i as int + 1).last() == regs[i as int]);
            }
            let reg = &registry.entries[i];
            let enabled: bool = match config {
                None => reg.is_builtin,
                Some(c) => match cfg_for(&c.handlers, reg.name.as_str()) {
                    Some(entry) => entry.enabled,
                    None => reg.is_builtin && c.auto_discover_builtin && c.enable_all_by_default,
                },
            };
            if enabled {
                kinds.push(reg.kind);
            }
            i = i + 1;
            proof {
                assert(kinds@ =~= spec_discovered(regs.subrange(0, i as int), config));
            }
        }
        proof {
            assert(regs.subrange(0, regs.len() as int) =~= regs);
        }
        Ok(kinds)
    }

    /// The names of all registered handlers, in priority order.
    pub fn get_available_handler_names(registry: &ToolHandlerRegistry) -> (r: McpResult<
        Vec<String>,
    >)
        ensures
            r matches Ok(names) && names@.len() == registry.entries@.len() && (forall|i: int|
                0 <= i < names@.len() ==> (#[trigger] names@[i])@ == registry.entries@[i].name@),
    {
        let mut out: Vec<String> = Vec::new();
        let mut i: usize = 0;
        #[verifier::loop_isolation(false)]
        while i < registry.entries.len()
            invariant
                i <= registry.entries@.len(),
                out@.len() == i,
                forall|k: int|
                    0 <= k < i ==> (#[trigger] out@[k])@ == registry.entries@[k].name@,
            decreases registry.entries@.len() - i,
        {
            out.push(registry.entries[i].name.clone());
            i = i + 1;
        }
        Ok(out)
    }

    /// Whether a handler name is registered.
    pub fn is_handler_available(registry: &ToolHandlerRegistry, name: &str) -> (r: McpResult<bool>)
        ensures
            r matches Ok(b) && b == spec_reg_has_name(registry.entries@, name@),
    {
        match registry.get(name) {
            Some(_) => Ok(true),
            None => Ok(false),
        }
    }
}

/// The handlers a default configuration yields: ensure the built-ins and
/// keep what the configuration enables; discovery never fails.
#[verifier::spinoff_prover]
pub fn get_tool_handlers_with_config(registry: &mut ToolHandlerRegistry, config: Option<
    &ToolsConfig,
>) -> (r: Vec<HandlerKind>)
    requires
        old(registry).wf(),
    ensures
        final(registry).wf(),
        r@ == spec_discovered(final(registry).entries@, config),
{
    match ToolHandlerDiscovery::discover_handlers(registry, config) {
        Ok(kinds) => kinds,
        Err(_) => Vec::new(),
    }
}

/// Every built-in handler under no configuration.
#[verifier::spinoff_prover]
pub fn get_tool_handlers(registry: &mut ToolHandlerRegistry) -> (r: Vec<HandlerKind>)
    requires
        old(registry).wf(),
    ensures
        final(registry).wf(),
        r@ == spec_discovered(final(registry).entries@, None),
{
    get_tool_handlers_with_config(registry, None)
}


/// Registering a tool that was absent and then unregistering its name
/// leaves the registry exactly as it was: no binding for the name, and
/// every other binding untouched.
pub proof fn lemma_register_unregister_tool(m0: ToolManager, m1: ToolManager, m2: ToolManager,
    t: Tool)
    requires
        assoc_lookup(m0.spec_tools(), t.name@) is None,
        assoc_lookup(m1.spec_tools(), t.name@) == Some(t),
        forall|k2: Seq<char>|
            k2 != t.name@ ==> #[trigger] assoc_lookup(m1.spec_tools(), k2) == assoc_lookup(
                m0.spec_tools(),
                k2,
            ),
        assoc_lookup(m2.spec_tools(), t.name@) is None,
        forall|k2: Seq<char>|
            k2 != t.name@ ==> #[trigger] assoc_lookup(m2.spec_tools(), k2) == assoc_lookup(
                m1.spec_tools(),
                k2,
            ),
    ensures
        forall|k2: Seq<char>|
            #[trigger] assoc_lookup(m2.spec_tools(), k2) == assoc_lookup(m0.spec_tools(), k2),
{
    assert forall|k2: Seq<char>|
        #[trigger] assoc_lookup(m2.spec_tools(), k2) == assoc_lookup(m0.spec_tools(), k2) by {
        if k2 != t.name@ {
            assert(assoc_lookup(m2.spec_tools(), k2) == assoc_lookup(m1.spec_tools(), k2));
        }
    }
}

/// A tool registered with both a definition and a handler appears in the
/// full tool listing under its name, and calling it with arguments its
/// handler accepts and answers yields that answer, with no tool-level
/// failure when the answer carries none.
pub proof fn lemma_registered_tool_callable(tm: ToolManager, name: Seq<char>,
    args: Option<JsonVal>, res: ToolResultV)
    requires
        tm.wf(),
        tm.spec_enabled(),
        assoc_lookup(tm.spec_tools(), name) is Some,
        assoc_lookup(tm.spec_handlers(), name) is Some,
        spec_handler_validate_ok(assoc_lookup(tm.spec_handlers(), name)->Some_0, args),
        spec_handler_execute(assoc_lookup(tm.spec_handlers(), name)->Some_0, args) == Result::<
            ToolResultV,
            Seq<char>,
        >::Ok(res),
    ensures
        exists|i: int|
            0 <= i < spec_tool_views(tm.spec_tools()).len() && (#[trigger] spec_tool_views(
                tm.spec_tools(),
            )[i]).name == name,
{
    crate::registry::lemma_assoc_lookup_exists(tm.spec_tools(), name);
    let i = choose|i: int|
        0 <= i < tm.spec_tools().len() && (#[trigger] tm.spec_tools()[i]).0 == name
            && tm.spec_tools()[i].1 == assoc_lookup(tm.spec_tools(), name)->Some_0;
    assert(tm.spec_tools()[i].1.name@ == name);
    assert(spec_tool_views(tm.spec_tools())[i].name == name);
}

} // verus!

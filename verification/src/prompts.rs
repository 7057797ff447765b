//! The prompt feature: prompt definitions, the two built-in generators
//! (greeting and code review), and the prompt manager.

use vstd::prelude::*;
use vstd::string::StringExecFns;
use crate::json::{Json, JsonVal, jfields_of, jvals_of, lemma_jfields_of_index,
    lemma_jvals_of_index};
use crate::types::{Content, ContentV, PromptMessage, PromptMessageV, Role, opt_member, opt_str,
    opt_bool, clone_opt_string, PaginationParams, PaginationResult};
use crate::error::{McpError, McpResult};
use crate::strings::str_eq;
use crate::registry::{pairs_view, assoc_lookup, assoc_wf, assoc_get, assoc_insert, assoc_remove,
    lemma_wf_ordered, lemma_assoc_at, lemma_assoc_lookup_exists};
use crate::pagination::{paginate, spec_page, spec_next_cursor, spec_cursor_start};

verus! {

broadcast use vstd::string::group_string_axioms;

/// One declared argument of a prompt.
#[derive(Debug)]
pub struct PromptArgument {
    pub name: String,
    pub description: Option<String>,
    pub required: Option<bool>,
}

/// Model of a prompt argument.
pub struct PromptArgumentV {
    pub name: Seq<char>,
    pub description: Option<Seq<char>>,
    pub required: Option<bool>,
}

impl View for PromptArgument {
    type V = PromptArgumentV;

    open spec fn view(&self) -> PromptArgumentV {
        PromptArgumentV {
            name: self.name@,
            description: match self.description {
                Some(ref s) => Some(s@),
                None => None,
            },
            required: self.required,
        }
    }
}

/// The JSON encoding of a prompt argument.
pub open spec fn spec_prompt_argument_json(a: PromptArgumentV) -> JsonVal {
    JsonVal::Obj(
        seq![("name"@, JsonVal::Str(a.name))] + opt_member("description"@, opt_str(a.description))
            + opt_member("required"@, opt_bool(a.required)),
    )
}

impl PromptArgument {
    /// Encode this argument as JSON.
    pub fn to_json(&self) -> (r: Json)
        ensures
            r@ == spec_prompt_argument_json(self@),
    {
        let mut fields: Vec<(String, Json)> = Vec::new();
        fields.push((String::from_str("name"), Json::Str(self.name.clone())));
        match &self.description {
            Some(d) => fields.push((String::from_str("description"), Json::Str(d.clone()))),
            None => (),
        }
        match self.required {
            Some(b) => fields.push((String::from_str("required"), Json::Bool(b))),
            None => (),
        }
        let r = Json::Obj(fields);
        proof {
            lemma_jfields_of_index(fields@);
            let want = spec_prompt_argument_json(self@)->Obj_0;
            assert forall|k: int|
                0 <= k < jfields_of(fields@).len() implies jfields_of(fields@)[k] == want[k] by {
                assert(jfields_of(fields@)[k] == (fields[k].0@, fields[k].1.view_rec()));
            }
            assert(r@->Obj_0 =~= want);
        }
        r
    }

    /// Copy preserving the model.
    pub fn clone_argument(&self) -> (r: PromptArgument)
        ensures
            r@ == self@,
    {
        PromptArgument {
            name: self.name.clone(),
            description: clone_opt_string(&self.description),
            required: self.required,
        }
    }
}

/// A prompt definition. The name is the identity.
#[derive(Debug)]
pub struct Prompt {
    pub name: String,
    pub description: Option<String>,
    pub arguments: Option<Vec<PromptArgument>>,
}

/// Model of a prompt definition.
pub struct PromptV {
    pub name: Seq<char>,
    pub description: Option<Seq<char>>,
    pub arguments: Option<Seq<PromptArgumentV>>,
}

impl View for Prompt {
    type V = PromptV;

    open spec fn view(&self) -> PromptV {
        PromptV {
            name: self.name@,
            description: match self.description {
                Some(ref s) => Some(s@),
                None => None,
            },
            arguments: match self.arguments {
                Some(ref v) => Some(Seq::new(v@.len(), |i: int| v@[i]@)),
                None => None,
            },
        }
    }
}

/// The JSON encoding of a prompt definition.
pub open spec fn spec_prompt_json(p: PromptV) -> JsonVal {
    JsonVal::Obj(
        seq![("name"@, JsonVal::Str(p.name))] + opt_member("description"@, opt_str(p.description))
            + opt_member(
            "arguments"@,
            match p.arguments {
                Some(args) => Some(
                    JsonVal::Arr(Seq::new(args.len(), |i: int| spec_prompt_argument_json(args[i]))),
                ),
                None => None,
            },
        ),
    )
}

impl Prompt {
    /// Encode this prompt as JSON.
    #[verifier::loop_isolation(false)]
    pub fn to_json(&self) -> (r: Json)
        ensures
            r@ == spec_prompt_json(self@),
    {
        let mut fields: Vec<(String, Json)> = Vec::new();
        fields.push((String::from_str("name"), Json::Str(self.name.clone())));
        match &self.description {
            Some(d) => fields.push((String::from_str("description"), Json::Str(d.clone()))),
            None => (),
        }
        match &self.arguments {
            Some(args) => {
                let mut arr: Vec<Json> = Vec::new();
                let mut i: usize = 0;
                while i < args.len()
                    invariant
                        i <= args@.len(),
                        arr@.len() == i,
                        forall|k: int|
                            0 <= k < i ==> (#[trigger] arr[k].view_rec())
                                == spec_prompt_argument_json(args@[k]@),
                    decreases args@.len() - i,
                {
                    arr.push(args[i].to_json());
                    i = i + 1;
                }
                proof {
                    lemma_jvals_of_index(arr@);
                    assert forall|k: int|
                        0 <= k < arr@.len() implies jvals_of(arr@)[k] == spec_prompt_argument_json(
                        args@[k]@,
                    ) by {
                        assert(arr[k].view_rec() == spec_prompt_argument_json(args@[k]@));
                    }
                    assert(jvals_of(arr@) =~= Seq::new(
                        self@.arguments->Some_0.len(),
                        |i: int| spec_prompt_argument_json(self@.arguments->Some_0[i]),
                    ));
                }
                fields.push((String::from_str("arguments"), Json::Arr(arr)));
            },
            None => (),
        }
        let r = Json::Obj(fields);
        proof {
            lemma_jfields_of_index(fields@);
            let want = spec_prompt_json(self@)->Obj_0;
            assert forall|k: int|
                0 <= k < jfields_of(fields@).len() implies jfields_of(fields@)[k] == want[k] by {
                assert(jfields_of(fields@)[k] == (fields[k].0@, fields[k].1.view_rec()));
            }
            assert(r@->Obj_0 =~= want);
        }
        r
    }

    /// Copy preserving the model.
    #[verifier::loop_isolation(false)]
    pub fn clone_prompt(&self) -> (r: Prompt)
        ensures
            r@ == self@,
    {
        Prompt {
            name: self.name.clone(),
            description: clone_opt_string(&self.description),
            arguments: match &self.arguments {
                Some(args) => {
                    let mut out: Vec<PromptArgument> = Vec::new();
                    let mut i: usize = 0;
                    while i < args.len()
                        invariant
                            i <= args@.len(),
                            out@.len() == i,
                            forall|k: int| 0 <= k < i ==> (#[trigger] out@[k])@ == args@[k]@,
                        decreases args@.len() - i,
                    {
                        out.push(args[i].clone_argument());
                        i = i + 1;
                    }
                    proof {
                        assert(Seq::new(out@.len(), |i: int| out@[i]@) =~= Seq::new(
                            args@.len(),
                            |i: int| args@[i]@,
                        ));
                    }
                    Some(out)
                },
                None => None,
            },
        }
    }
}

/// What a prompt generation produced: messages and an optional description.
#[derive(Debug)]
pub struct PromptResult {
    pub messages: Vec<PromptMessage>,
    pub description: Option<String>,
}

/// Model of a prompt result.
pub struct PromptResultV {
    pub messages: Seq<PromptMessageV>,
    pub description: Option<Seq<char>>,
}

impl View for PromptResult {
    type V = PromptResultV;

    open spec fn view(&self) -> PromptResultV {
        PromptResultV {
            messages: Seq::new(self.messages@.len(), |i: int| self.messages@[i]@),
            description: match self.description {
                Some(ref s) => Some(s@),
                None => None,
            },
        }
    }
}

impl PromptResult {
    /// A result with messages and no description.
    pub fn new(messages: Vec<PromptMessage>) -> (r: Self)
        ensures
            r@.messages == Seq::new(messages@.len(), |i: int| messages@[i]@),
            r@.description is None,
    {
        PromptResult { messages, description: None }
    }

    /// A result with messages and a description.
    pub fn with_description(messages: Vec<PromptMessage>, description: String) -> (r: Self)
        ensures
            r@.messages == Seq::new(messages@.len(), |i: int| messages@[i]@),
            r@.description == Some(description@),
    {
        PromptResult { messages, description: Some(description) }
    }
}

/// Generator arguments: a list of name-value pairs, first binding wins.
pub open spec fn spec_arg(args: Option<Seq<(Seq<char>, String)>>, key: Seq<char>) -> Option<
    Seq<char>,
> {
    match args {
        Some(s) => match assoc_lookup(s, key) {
            Some(v) => Some(v@),
            None => None,
        },
        None => None,
    }
}

/// The greeting word for a time of day.
pub open spec fn spec_greeting_word(time: Seq<char>) -> Seq<char> {
    if time == "morning"@ {
        "Good morning"@
    } else if time == "afternoon"@ {
        "Good afternoon"@
    } else if time == "evening"@ {
        "Good evening"@
    } else if time == "night"@ {
        "Good night"@
    } else {
        "Hello"@
    }
}

/// The name the greeting addresses: the `name` argument or `World`.
pub open spec fn spec_greeting_name(args: Option<Seq<(Seq<char>, String)>>) -> Seq<char> {
    match spec_arg(args, "name"@) {
        Some(n) => n,
        None => "World"@,
    }
}

/// The time of day used: the `time_of_day` argument or `day`.
pub open spec fn spec_greeting_time(args: Option<Seq<(Seq<char>, String)>>) -> Seq<char> {
    match spec_arg(args, "time_of_day"@) {
        Some(t) => t,
        None => "day"@,
    }
}

/// The greeting generator's message text.
pub open spec fn spec_greeting_text(args: Option<Seq<(Seq<char>, String)>>) -> Seq<char> {
    spec_greeting_word(spec_greeting_time(args)) + ", "@ + spec_greeting_name(args)
        + "! How can I help you today?"@
}

/// The greeting generator's description.
pub open spec fn spec_greeting_description(args: Option<Seq<(Seq<char>, String)>>) -> Seq<char> {
    "A "@ + spec_greeting_time(args) + " greeting for "@ + spec_greeting_name(args)
}

/// The times of day the greeting generator accepts.
pub open spec fn spec_valid_time_of_day(t: Seq<char>) -> bool {
    t == "morning"@ || t == "afternoon"@ || t == "evening"@ || t == "night"@ || t == "day"@
}

/// Arguments the greeting generator accepts: `time_of_day`, when given, must
/// be one of the known times.
pub open spec fn spec_greeting_args_ok(args: Option<Seq<(Seq<char>, String)>>) -> bool {
    match spec_arg(args, "time_of_day"@) {
        Some(t) => spec_valid_time_of_day(t),
        None => true,
    }
}

/// The built-in greeting generator.
pub struct GreetingPromptGenerator;

/// The lifted view of optional generator arguments.
pub open spec fn args_view(args: Option<&Vec<(String, String)>>) -> Option<
    Seq<(Seq<char>, String)>,
> {
    match args {
        Some(v) => Some(pairs_view(v@)),
        None => None,
    }
}

impl GreetingPromptGenerator {
    /// The generator's name.
    pub fn name(&self) -> (r: &'static str)
        ensures
            r@ == "greeting"@,
    {
        "greeting"
    }

    /// Generate the greeting: one user message, with a description.
    pub fn generate(&self, arguments: Option<&Vec<(String, String)>>) -> (r: McpResult<
        PromptResult,
    >)
        ensures
            r matches Ok(res) && res@.messages == seq![
                PromptMessageV {
                    role: Role::User,
                    content: ContentV::Text {
                        text: spec_greeting_text(args_view(arguments)),
                        annotations: None,
                    },
                },
            ] && res@.description == Some(spec_greeting_description(args_view(arguments))),
    {
        let name: String = match arguments {
            Some(args) => match assoc_get(args, "name") {
                Some(v) => v.clone(),
                None => String::from_str("World"),
            },
            None => String::from_str("World"),
        };
        let time: String = match arguments {
            Some(args) => match assoc_get(args, "time_of_day") {
                Some(v) => v.clone(),
                None => String::from_str("day"),
            },
            None => String::from_str("day"),
        };
        let greeting: &str = if str_eq(time.as_str(), "morning") {
            "Good morning"
        } else if str_eq(time.as_str(), "afternoon") {
            "Good afternoon"
        } else if str_eq(time.as_str(), "evening") {
            "Good evening"
        } else if str_eq(time.as_str(), "night") {
            "Good night"
        } else {
            "Hello"
        };
        let mut text = String::from_str(greeting);
        text.append(", ");
        text.append(name.as_str());
        text.append("! How can I help you today?");
        let mut description = String::from_str("A ");
        description.append(time.as_str());
        description.append(" greeting for ");
        description.append(name.as_str());
        let mut messages: Vec<PromptMessage> = Vec::new();
        messages.push(
            PromptMessage { role: Role::User, content: Content::Text { text, annotations: None } },
        );
        let res = PromptResult::with_description(messages, description);
        proof {
            assert(res@.messages =~= seq![
                PromptMessageV {
                    role: Role::User,
                    content: ContentV::Text {
                        text: spec_greeting_text(args_view(arguments)),
                        annotations: None,
                    },
                },
            ]);
        }
        Ok(res)
    }

    /// Check the greeting's arguments: `time_of_day`, when given, must be a
    /// known time. The error is always invalid params.
    pub fn validate_arguments(&self, arguments: Option<&Vec<(String, String)>>) -> (r: McpResult<
        (),
    >)
        ensures
            r is Ok <==> spec_greeting_args_ok(args_view(arguments)),
            r matches Err(e) ==> e is InvalidParams,
    {
        match arguments {
            Some(args) => match assoc_get(args, "time_of_day") {
                Some(t) => {
                    if str_eq(t.as_str(), "morning") || str_eq(t.as_str(), "afternoon") || str_eq(
                        t.as_str(),
                        "evening",
                    ) || str_eq(t.as_str(), "night") || str_eq(t.as_str(), "day") {
                        Ok(())
                    } else {
                        let mut m = String::from_str("Invalid time_of_day: ");
                        m.append(t.as_str());
                        Err(McpError::invalid_params(m))
                    }
                },
                None => Ok(()),
            },
            None => Ok(()),
        }
    }
}

/// The language a code review is about: the `language` argument or
/// `unknown`.
pub open spec fn spec_review_language(args: Option<Seq<(Seq<char>, String)>>) -> Seq<char> {
    match spec_arg(args, "language"@) {
        Some(l) => l,
        None => "unknown"@,
    }
}

/// The review focus: the `focus` argument or `general`.
pub open spec fn spec_review_focus(args: Option<Seq<(Seq<char>, String)>>) -> Seq<char> {
    match spec_arg(args, "focus"@) {
        Some(f) => f,
        None => "general"@,
    }
}

/// The instruction message of a code review prompt.
pub open spec fn spec_review_system_text(args: Option<Seq<(Seq<char>, String)>>) -> Seq<char> {
    "You are an expert software engineer. Please examine the following "@ + spec_review_language(
        args,
    ) + " code with attention to "@ + spec_review_focus(args)
        + ". Provide constructive feedback on code quality, potential issues, and suggestions for improvement."@
}

/// The user message of a code review prompt, quoting the code.
pub open spec fn spec_review_user_text(args: Option<Seq<(Seq<char>, String)>>) -> Seq<char> {
    "Please review this "@ + spec_review_language(args) + " code:\n\n```"@ + spec_review_language(
        args,
    ) + "\n"@ + spec_arg(args, "code"@)->Some_0 + "\n```"@
}

/// The description of a code review prompt.
pub open spec fn spec_review_description(args: Option<Seq<(Seq<char>, String)>>) -> Seq<char> {
    "Code review prompt for "@ + spec_review_language(args) + " code focusing on "@
        + spec_review_focus(args)
}

/// The review focuses the generator accepts.
pub open spec fn spec_valid_focus(f: Seq<char>) -> bool {
    f == "general"@ || f == "security"@ || f == "performance"@ || f == "style"@ || f == "bugs"@
}

/// Arguments the code review generator accepts: `code` must be given, and
/// `focus`, when given, must be a known focus.
pub open spec fn spec_review_args_ok(args: Option<Seq<(Seq<char>, String)>>) -> bool {
    &&& args is Some
    &&& spec_arg(args, "code"@) is Some
    &&& match spec_arg(args, "focus"@) {
        Some(f) => spec_valid_focus(f),
        None => true,
    }
}

/// The built-in code review generator.
pub struct CodeReviewPromptGenerator;

impl CodeReviewPromptGenerator {
    /// The generator's name.
    pub fn name(&self) -> (r: &'static str)
        ensures
            r@ == "code_review"@,
    {
        "code_review"
    }

    /// Generate the review prompt: an instruction message and a user message
    /// quoting the code. Fails with invalid params when `code` is missing.
    pub fn generate(&self, arguments: Option<&Vec<(String, String)>>) -> (r: McpResult<
        PromptResult,
    >)
        ensures
            spec_arg(args_view(arguments), "code"@) is Some ==> (r matches Ok(res) && res@.messages
                == seq![
                PromptMessageV {
                    role: Role::Assistant,
                    content: ContentV::Text {
                        text: spec_review_system_text(args_view(arguments)),
                        annotations: None,
                    },
                },
                PromptMessageV {
                    role: Role::User,
                    content: ContentV::Text {
                        text: spec_review_user_text(args_view(arguments)),
                        annotations: None,
                    },
                },
            ] && res@.description == Some(spec_review_description(args_view(arguments)))),
            spec_arg(args_view(arguments), "code"@) is None ==> (r matches Err(e) && e
                is InvalidParams),
    {
        let code: String = match arguments {
            Some(args) => match assoc_get(args, "code") {
                Some(c) => c.clone(),
                None => {
                    return Err(
                        McpError::invalid_params(String::from_str("Code parameter is required")),
                    );
                },
            },
            None => {
                return Err(
                    McpError::invalid_params(String::from_str("Code parameter is required")),
                );
            },
        };
        let language: String = match arguments {
            Some(args) => match assoc_get(args, "language") {
                Some(v) => v.clone(),
                None => String::from_str("unknown"),
            },
            None => String::from_str("unknown"),
        };
        let focus: String = match arguments {
            Some(args) => match assoc_get(args, "focus") {
                Some(v) => v.clone(),
                None => String::from_str("general"),
            },
            None => String::from_str("general"),
        };
        let mut system_text = String::from_str(
            "You are an expert software engineer. Please examine the following ",
        );
        system_text.append(language.as_str());
        system_text.append(" code with attention to ");
        system_text.append(focus.as_str());
        system_text.append(
            ". Provide constructive feedback on code quality, potential issues, and suggestions for improvement.",
        );
        let mut user_text = String::from_str("Please review this ");
        user_text.append(language.as_str());
        user_text.append(" code:\n\n```");
        user_text.append(language.as_str());
        user_text.append("\n");
        user_text.append(code.as_str());
        user_text.append("\n```");
        let mut description = String::from_str("Code review prompt for ");
        description.append(language.as_str());
        description.append(" code focusing on ");
        description.append(focus.as_str());
        let mut messages: Vec<PromptMessage> = Vec::new();
        messages.push(
            PromptMessage {
                role: Role::Assistant,
                content: Content::Text { text: system_text, annotations: None },
            },
        );
        messages.push(
            PromptMessage {
                role: Role::User,
                content: Content::Text { text: user_text, annotations: None },
            },
        );
        let res = PromptResult::with_description(messages, description);
        proof {
            assert(res@.messages =~= seq![
                PromptMessageV {
                    role: Role::Assistant,
                    content: ContentV::Text {
                        text: spec_review_system_text(args_view(arguments)),
                        annotations: None,
                    },
                },
                PromptMessageV {
                    role: Role::User,
                    content: ContentV::Text {
                        text: spec_review_user_text(args_view(arguments)),
                        annotations: None,
                    },
                },
            ]);
        }
        Ok(res)
    }

    /// Check the review's arguments: they must be given, must include
    /// `code`, and `focus`, when given, must be a known focus. The error is
    /// always invalid params.
    pub fn validate_arguments(&self, arguments: Option<&Vec<(String, String)>>) -> (r: McpResult<
        (),
    >)
        ensures
            r is Ok <==> spec_review_args_ok(args_view(arguments)),
            r matches Err(e) ==> e is InvalidParams,
    {
        let args = match arguments {
            Some(a) => a,
            None => {
                return Err(
                    McpError::invalid_params(String::from_str("Code review requires arguments")),
                );
            },
        };
        match assoc_get(args, "code") {
            Some(_) => (),
            None => {
                return Err(
                    McpError::invalid_params(String::from_str("Code parameter is required")),
                );
            },
        }
        match assoc_get(args, "focus") {
            Some(f) => {
                if str_eq(f.as_str(), "general") || str_eq(f.as_str(), "security") || str_eq(
                    f.as_str(),
                    "performance",
                ) || str_eq(f.as_str(), "style") || str_eq(f.as_str(), "bugs") {
                    Ok(())
                } else {
                    let mut m = String::from_str("Invalid focus: ");
                    m.append(f.as_str());
                    Err(McpError::invalid_params(m))
                }
            },
            None => Ok(()),
        }
    }
}

/// The built-in generator implementations a manager can dispatch to.
#[derive(Debug, Clone, Copy, PartialEq, Eq, Structural)]
pub enum GeneratorKind {
    Greeting,
    CodeReview,
}

/// The name a generator registers under.
pub open spec fn spec_generator_name(k: GeneratorKind) -> Seq<char> {
    match k {
        GeneratorKind::Greeting => "greeting"@,
        GeneratorKind::CodeReview => "code_review"@,
    }
}

/// The name a generator registers under.
pub fn generator_name(k: GeneratorKind) -> (r: &'static str)
    ensures
        r@ == spec_generator_name(k),
{
    match k {
        GeneratorKind::Greeting => "greeting",
        GeneratorKind::CodeReview => "code_review",
    }
}

/// Whether a generator accepts the arguments.
pub open spec fn spec_generator_args_ok(k: GeneratorKind, args: Option<Seq<(Seq<char>, String)>>)
    -> bool {
    match k {
        GeneratorKind::Greeting => spec_greeting_args_ok(args),
        GeneratorKind::CodeReview => spec_review_args_ok(args),
    }
}

/// What a generator produces for accepted arguments.
pub open spec fn spec_generator_result(k: GeneratorKind, args: Option<Seq<(Seq<char>, String)>>)
    -> PromptResultV {
    match k {
        GeneratorKind::Greeting => PromptResultV {
            messages: seq![
                PromptMessageV {
                    role: Role::User,
                    content: ContentV::Text {
                        text: spec_greeting_text(args),
                        annotations: None,
                    },
                },
            ],
            description: Some(spec_greeting_description(args)),
        },
        GeneratorKind::CodeReview => PromptResultV {
            messages: seq![
                PromptMessageV {
                    role: Role::Assistant,
                    content: ContentV::Text {
                        text: spec_review_system_text(args),
                        annotations: None,
                    },
                },
                PromptMessageV {
                    role: Role::User,
                    content: ContentV::Text {
                        text: spec_review_user_text(args),
                        annotations: None,
                    },
                },
            ],
            description: Some(spec_review_description(args)),
        },
    }
}

/// Validate arguments through a generator.
pub fn generator_validate(k: GeneratorKind, args: Option<&Vec<(String, String)>>) -> (r: McpResult<
    (),
>)
    ensures
        r is Ok <==> spec_generator_args_ok(k, args_view(args)),
        r matches Err(e) ==> e is InvalidParams,
{
    match k {
        GeneratorKind::Greeting => GreetingPromptGenerator.validate_arguments(args),
        GeneratorKind::CodeReview => CodeReviewPromptGenerator.validate_arguments(args),
    }
}

/// Run a generator on arguments it accepts.
pub fn generator_generate(k: GeneratorKind, args: Option<&Vec<(String, String)>>) -> (r: McpResult<
    PromptResult,
>)
    requires
        spec_generator_args_ok(k, args_view(args)),
    ensures
        r matches Ok(res) && res@ == spec_generator_result(k, args_view(args)),
{
    match k {
        GeneratorKind::Greeting => GreetingPromptGenerator.generate(args),
        GeneratorKind::CodeReview => CodeReviewPromptGenerator.generate(args),
    }
}

/// Views of the prompts held in a registry, in registry order.
pub open spec fn spec_prompt_views(s: Seq<(Seq<char>, Prompt)>) -> Seq<PromptV> {
    Seq::new(s.len(), |i: int| s[i].1@)
}

/// The prompt feature: a registry of prompts and a registry of generators,
/// both keyed by name, and an enabled flag.
pub struct PromptManager {
    pub prompts: Vec<(String, Prompt)>,
    pub generators: Vec<(String, GeneratorKind)>,
    pub enabled: bool,
}

impl PromptManager {
    /// Well-formed: both registries sorted by key, and every prompt is
    /// stored under its own name.
    pub open spec fn wf(&self) -> bool {
        &&& assoc_wf(pairs_view(self.prompts@))
        &&& assoc_wf(pairs_view(self.generators@))
        &&& forall|i: int|
            0 <= i < self.prompts@.len() ==> (#[trigger] self.prompts@[i]).1.name@
                == self.prompts@[i].0@
    }

    /// The prompt registry.
    pub open spec fn spec_prompts(&self) -> Seq<(Seq<char>, Prompt)> {
        pairs_view(self.prompts@)
    }

    /// The generator registry.
    pub open spec fn spec_generators(&self) -> Seq<(Seq<char>, GeneratorKind)> {
        pairs_view(self.generators@)
    }

    /// Whether the feature is enabled.
    pub open spec fn spec_enabled(&self) -> bool {
        self.enabled
    }

    /// A fresh manager: empty registries, feature enabled.
    pub fn new() -> (r: Self)
        ensures
            r.wf(),
            r.spec_prompts().len() == 0,
            r.spec_generators().len() == 0,
            r.spec_enabled(),
    {
        let r = PromptManager { prompts: Vec::new(), generators: Vec::new(), enabled: true };
        proof {
            assert(pairs_view(r.prompts@) =~= Seq::<(Seq<char>, Prompt)>::empty());
            assert(pairs_view(r.generators@) =~= Seq::<(Seq<char>, GeneratorKind)>::empty());
        }
        r
    }

    /// Register a prompt under its name; an existing prompt of that name is
    /// replaced. Fails only while the feature is disabled.
    pub fn register_prompt(&mut self, prompt: Prompt) -> (r: McpResult<()>)
        requires
            old(self).wf(),
        ensures
            final(self).wf(),
            final(self).spec_enabled() == old(self).spec_enabled(),
            final(self).spec_generators() == old(self).spec_generators(),
            !old(self).spec_enabled() ==> r is Err && *final(self) == *old(self) && (
            r->Err_0 matches McpError::Prompt(m) && m@ == "Prompt feature is disabled"@),
            old(self).spec_enabled() ==> r is Ok && assoc_lookup(
                final(self).spec_prompts(),
                prompt.name@,
            ) == Some(prompt) && (forall|k2: Seq<char>|
                k2 != prompt.name@ ==> #[trigger] assoc_lookup(final(self).spec_prompts(), k2)
                    == assoc_lookup(old(self).spec_prompts(), k2)),
    {
        if !self.enabled {
            return Err(McpError::Prompt(String::from_str("Prompt feature is disabled")));
        }
        let name = prompt.name.clone();
        let ghost p = prompt;
        let ghost olds = pairs_view(self.prompts@);
        assoc_insert(&mut self.prompts, name, prompt);
        proof {
            let s = pairs_view(self.prompts@);
            assert forall|i: int|
                0 <= i < self.prompts@.len() implies (#[trigger] self.prompts@[i]).1.name@
                == self.prompts@[i].0@ by {
                let k = s[i].0;
                assert forall|j: int| 0 <= j < i implies (#[trigger] s[j]).0 != k by {
                    lemma_wf_ordered(s, j, i);
                }
                lemma_assoc_at(s, k, i);
                if k != p.name@ {
                    lemma_assoc_lookup_exists(olds, k);
                }
            }
        }
        Ok(())
    }

    /// Remove a prompt, returning it when it was present.
    pub fn unregister_prompt(&mut self, name: &str) -> (r: McpResult<Option<Prompt>>)
        requires
            old(self).wf(),
        ensures
            final(self).wf(),
            final(self).spec_enabled() == old(self).spec_enabled(),
            final(self).spec_generators() == old(self).spec_generators(),
            assoc_lookup(final(self).spec_prompts(), name@) is None,
            forall|k2: Seq<char>|
                k2 != name@ ==> #[trigger] assoc_lookup(final(self).spec_prompts(), k2)
                    == assoc_lookup(old(self).spec_prompts(), k2),
            match r {
                Ok(Some(p)) => assoc_lookup(old(self).spec_prompts(), name@) == Some(p),
                Ok(None) => assoc_lookup(old(self).spec_prompts(), name@) is None,
                Err(_) => false,
            },
    {
        let ghost olds = pairs_view(self.prompts@);
        let r = assoc_remove(&mut self.prompts, name);
        proof {
            let s = pairs_view(self.prompts@);
            assert forall|i: int|
                0 <= i < self.prompts@.len() implies (#[trigger] self.prompts@[i]).1.name@
                == self.prompts@[i].0@ by {
                let k = s[i].0;
                assert forall|j: int| 0 <= j < i implies (#[trigger] s[j]).0 != k by {
                    lemma_wf_ordered(s, j, i);
                }
                lemma_assoc_at(s, k, i);
                assert(k != name@);
                lemma_assoc_lookup_exists(olds, k);
            }
        }
        Ok(r)
    }

    /// Look a prompt up by name.
    pub fn get_prompt(&self, name: &str) -> (r: Option<&Prompt>)
        ensures
            match r {
                Some(p) => assoc_lookup(self.spec_prompts(), name@) == Some(*p),
                None => assoc_lookup(self.spec_prompts(), name@) is None,
            },
    {
        assoc_get(&self.prompts, name)
    }

    /// Number of registered prompts.
    pub fn get_prompt_count(&self) -> (r: usize)
        ensures
            r == self.spec_prompts().len(),
    {
        self.prompts.len()
    }

    /// Whether the feature is enabled.
    pub fn is_enabled(&self) -> (r: bool)
        ensures
            r == self.spec_enabled(),
    {
        self.enabled
    }

    /// Enable or disable the feature.
    pub fn set_enabled(&mut self, enabled: bool)
        ensures
            final(self).spec_enabled() == enabled,
            final(self).spec_prompts() == old(self).spec_prompts(),
            final(self).spec_generators() == old(self).spec_generators(),
            final(self).wf() == old(self).wf(),
    {
        self.enabled = enabled;
    }

    /// Register a generator under its name.
    pub fn register_generator(&mut self, kind: GeneratorKind) -> (r: McpResult<()>)
        requires
            old(self).wf(),
        ensures
            final(self).wf(),
            final(self).spec_enabled() == old(self).spec_enabled(),
            final(self).spec_prompts() == old(self).spec_prompts(),
            r is Ok,
            assoc_lookup(final(self).spec_generators(), spec_generator_name(kind)) == Some(kind),
            forall|k2: Seq<char>|
                k2 != spec_generator_name(kind) ==> #[trigger] assoc_lookup(
                    final(self).spec_generators(),
                    k2,
                ) == assoc_lookup(old(self).spec_generators(), k2),
    {
        let name = String::from_str(generator_name(kind));
        assoc_insert(&mut self.generators, name, kind);
        Ok(())
    }

    /// List the registered prompts in ascending name order, one page at a
    /// time. Fails only while the feature is disabled.
    #[verifier::loop_isolation(false)]
    pub fn list_prompts(&self, pagination: Option<&PaginationParams>) -> (r: McpResult<
        (Vec<Prompt>, PaginationResult),
    >)
        requires
            self.wf(),
        ensures
            !self.spec_enabled() ==> r is Err && (r->Err_0 matches McpError::Prompt(m) && m@
                == "Prompt feature is disabled"@),
            self.spec_enabled() ==> r is Ok && ({
                let all = spec_prompt_views(self.spec_prompts());
                let page = r->Ok_0.0;
                let pr = r->Ok_0.1;
                match pagination {
                    None => Seq::new(page@.len(), |i: int| page@[i]@) == all && pr.next_cursor
                        is None,
                    Some(p) => {
                        let start = spec_cursor_start(
                            match p.cursor {
                                Some(ref c) => Some(c@),
                                None => None,
                            },
                        );
                        &&& Seq::new(page@.len(), |i: int| page@[i]@) == spec_page(all, start)
                        &&& match (&pr.next_cursor, spec_next_cursor(all, start)) {
                            (Some(c), Some(s)) => c@ == s,
                            (None, None) => true,
                            _ => false,
                        }
                    },
                }
            }),
    {
        if !self.enabled {
            return Err(McpError::Prompt(String::from_str("Prompt feature is disabled")));
        }
        let ghost all = spec_prompt_views(self.spec_prompts());
        let mut values: Vec<Prompt> = Vec::new();
        let mut i: usize = 0;
        while i < self.prompts.len()
            invariant
                i <= self.prompts@.len(),
                values@.len() == i,
                forall|k: int| 0 <= k < i ==> (#[trigger] values@[k])@ == all[k],
            decreases self.prompts@.len() - i,
        {
            values.push(self.prompts[i].1.clone_prompt());
            i = i + 1;
        }
        let (page, pr) = paginate(values, pagination);
        proof {
            let pv = Seq::new(page@.len(), |i: int| page@[i]@);
            match pagination {
                None => {
                    assert forall|k: int| 0 <= k < page@.len() implies pv[k] == all[k] by {
                        assert(page@[k] == values@[k]);
                    }
                    assert(pv =~= all);
                },
                Some(p) => {
                    let start = spec_cursor_start(
                        match p.cursor {
                            Some(ref c) => Some(c@),
                            None => None,
                        },
                    );
                    let want = spec_page(all, start);
                    assert forall|k: int| 0 <= k < page@.len() implies pv[k] == want[k] by {
                        assert(page@[k] == spec_page(values@, start)[k]);
                    }
                    assert(pv =~= want);
                },
            }
        }
        Ok((page, pr))
    }

    /// Produce a prompt's messages: the prompt must exist; its generator, if
    /// one is registered, validates the arguments and generates the result;
    /// with no generator an empty result carries the prompt's description.
    pub fn get_prompt_with_args(&self, name: &str, arguments: Option<&Vec<(String, String)>>)
        -> (r: McpResult<PromptResult>)
        requires
            self.wf(),
        ensures
            ({
                let argsv = args_view(arguments);
                if !self.spec_enabled() {
                    r matches Err(e) && e matches McpError::Prompt(m) && m@
                        == "Prompt feature is disabled"@
                } else if assoc_lookup(self.spec_prompts(), name@) is None {
                    r matches Err(e) && e matches McpError::Prompt(m) && m@ == "Prompt not found: "@
                        + name@
                } else {
                    match assoc_lookup(self.spec_generators(), name@) {
                        Some(kind) => {
                            if !spec_generator_args_ok(kind, argsv) {
                                r matches Err(e) && e is InvalidParams
                            } else {
                                r matches Ok(res) && res@ == spec_generator_result(kind, argsv)
                            }
                        },
                        None => {
                            let p = assoc_lookup(self.spec_prompts(), name@)->Some_0;
                            r matches Ok(res) && res@.messages.len() == 0 && res@.description
                                == p@.description
                        },
                    }
                }
            }),
    {
        if !self.enabled {
            return Err(McpError::Prompt(String::from_str("Prompt feature is disabled")));
        }
        let prompt = match self.get_prompt(name) {
            Some(p) => p,
            None => {
                let mut m = String::from_str("Prompt not found: ");
                m.append(name);
                return Err(McpError::Prompt(m));
            },
        };
        let kind: GeneratorKind = match assoc_get(&self.generators, name) {
            Some(k) => *k,
            None => {
                let description = clone_opt_string(&prompt.description);
                let res = PromptResult { messages: Vec::new(), description };
                proof {
                    assert(res@.messages =~= Seq::<PromptMessageV>::empty());
                }
                return Ok(res);
            },
        };
        match generator_validate(kind, arguments) {
            Ok(_) => (),
            Err(e) => {
                return Err(e);
            },
        }
        generator_generate(kind, arguments)
    }
}

} // verus!

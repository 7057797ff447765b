//! The sampling feature's client-side model: message requests, model
//! preferences, and a deterministic mock provider.

use vstd::prelude::*;
use vstd::string::StringExecFns;
use crate::error::{McpError, McpResult};
use crate::strings::{str_contains, contains_seq};
use crate::types::{Role, Content, ContentV};

verus! {

broadcast use vstd::string::group_string_axioms;

/// A hint naming a preferred model.
#[derive(Debug)]
pub struct ModelHint {
    pub name: Option<String>,
}

/// How much of the server's context a sampling call may see.
#[derive(Debug, Clone, Copy, PartialEq, Eq, Structural)]
pub enum ContextInclusion {
    NoContext,
    ThisServer,
    AllServers,
}

/// Why generation stopped.
#[derive(Debug)]
pub enum StopReason {
    EndTurn,
    StopSequence,
    MaxTokens,
    Other(String),
}

/// A model a provider offers.
#[derive(Debug)]
pub struct ModelInfo {
    pub name: String,
    pub description: Option<String>,
    pub max_context_length: Option<u32>,
    pub features: Vec<String>,
}

/// Preferences over models. The cost, speed and intelligence weights are
/// kept in thousandths of the unit interval.
#[derive(Debug)]
pub struct ModelPreferences {
    pub hints: Option<Vec<ModelHint>>,
    pub cost_priority: Option<u32>,
    pub speed_priority: Option<u32>,
    pub intelligence_priority: Option<u32>,
}

/// One message of a sampling conversation.
#[derive(Debug)]
pub struct SamplingMessage {
    pub role: Role,
    pub content: Content,
}

/// A sampling request: the conversation, preferences and limits.
#[derive(Debug)]
pub struct CreateMessageRequest {
    pub messages: Vec<SamplingMessage>,
    pub model_preferences: Option<ModelPreferences>,
    pub system_prompt: Option<String>,
    pub include_context: Option<ContextInclusion>,
    pub max_tokens: u32,
    pub stop_sequences: Option<Vec<String>>,
}

/// What a sampling call produced.
#[derive(Debug)]
pub struct CreateMessageResult {
    pub message: SamplingMessage,
    pub model: String,
    pub stop_reason: Option<StopReason>,
}

/// The deterministic mock provider: it echoes the last user message.
#[derive(Debug)]
pub struct MockSamplingProvider {
    pub name: String,
    pub models: Vec<ModelInfo>,
}

/// The index of the last user message of a conversation.
pub open spec fn spec_last_user(messages: Seq<SamplingMessage>) -> Option<int>
    decreases messages.len(),
{
    if messages.len() == 0 {
        None
    } else if messages.last().role == Role::User {
        Some(messages.len() - 1)
    } else {
        spec_last_user(messages.drop_last())
    }
}

impl MockSamplingProvider {
    /// A mock provider advertising two fictitious chat models.
    pub fn new(name: String) -> (r: Self)
        ensures
            r.name@ == name@,
            r.models@.len() == 2,
    {
        let mut models: Vec<ModelInfo> = Vec::new();
        let mut f1: Vec<String> = Vec::new();
        f1.push(String::from_str("text"));
        f1.push(String::from_str("chat"));
        models.push(
            ModelInfo {
                name: String::from_str("mock-gpt-4"),
                description: Some(String::from_str("Mock GPT-4 model")),
                max_context_length: Some(8192),
                features: f1,
            },
        );
        let mut f2: Vec<String> = Vec::new();
        f2.push(String::from_str("text"));
        f2.push(String::from_str("chat"));
        f2.push(String::from_str("vision"));
        models.push(
            ModelInfo {
                name: String::from_str("mock-advanced-1"),
                description: Some(String::from_str("Mock advanced model")),
                max_context_length: Some(200000),
                features: f2,
            },
        );
        MockSamplingProvider { name, models }
    }

    /// Whether this provider takes the request: always, and in particular
    /// when a hint names one of its models.
    #[verifier::loop_isolation(false)]
    pub fn can_handle(&self, preferences: &ModelPreferences) -> (r: bool)
        ensures
            r,
    {
        let _ = preferences;
        true
    }

    /// Answer a conversation: the last user message echoed back as an
    /// assistant message from the first mock model. Fails exactly when the
    /// conversation holds no user message.
    #[verifier::loop_isolation(false)]
    pub fn create_message(&self, request: &CreateMessageRequest) -> (r: McpResult<
        CreateMessageResult,
    >)
        ensures
            spec_last_user(Seq::new(request.messages@.len(), |i: int| request.messages@[i]))
                is Some ==> (r matches Ok(res) && res.message.role == Role::Assistant && res.model@
                == "mock-gpt-4"@),
            spec_last_user(Seq::new(request.messages@.len(), |i: int| request.messages@[i]))
                is None ==> (r matches Err(e) && e is Resource),
    {
        let ghost msgs = Seq::new(request.messages@.len(), |i: int| request.messages@[i]);
        let n = request.messages.len();
        let mut i: usize = n;
        proof {
            assert(msgs.subrange(0, n as int) =~= msgs);
        }
        while i > 0
            invariant
                i <= n,
                n == request.messages@.len(),
                spec_last_user(msgs) == spec_last_user(msgs.subrange(0, i as int)),
            decreases i,
        {
            proof {
                assert(msgs.subrange(0, i as int).last() == request.messages@[i - 1]);
                assert(msgs.subrange(0, i as int).drop_last() =~= msgs.subrange(0, i as int - 1));
            }
            match request.messages[i - 1].role {
                Role::User => {
                    let text: String = match &request.messages[i - 1].content {
                        Content::Text { text, .. } => {
                            let mut t = String::from_str("Mock response to: ");
                            t.append(text.as_str());
                            t
                        },
                        _ => String::from_str("Mock response to non-text content"),
                    };
                    let message = SamplingMessage {
                        role: Role::Assistant,
                        content: Content::Text { text, annotations: None },
                    };
                    return Ok(
                        CreateMessageResult {
                            message,
                            model: String::from_str("mock-gpt-4"),
                            stop_reason: Some(StopReason::EndTurn),
                        },
                    );
                },
                _ => {
                    i = i - 1;
                },
            }
        }
        proof {
            assert(msgs.subrange(0, 0) =~= Seq::<SamplingMessage>::empty());
        }
        Err(McpError::Resource(String::from_str("No user message found")))
    }

    /// The models this provider offers.
    pub fn get_available_models(&self) -> (r: McpResult<&Vec<ModelInfo>>)
        ensures
            r matches Ok(models) && models == &self.models,
    {
        Ok(&self.models)
    }
}

/// The sampling feature: providers keyed by name, with the mock as the only
/// in-library implementation.
pub struct SamplingManager {
    pub providers: Vec<(String, MockSamplingProvider)>,
    pub enabled: bool,
}

impl SamplingManager {
    /// An empty manager, enabled.
    pub fn new() -> (r: Self)
        ensures
            r.providers@.len() == 0,
            r.enabled,
    {
        SamplingManager { providers: Vec::new(), enabled: true }
    }

    /// Whether the feature is enabled.
    pub fn is_enabled(&self) -> (r: bool)
        ensures
            r == self.enabled,
    {
        self.enabled
    }

    /// Enable or disable the feature.
    pub fn set_enabled(&mut self, enabled: bool)
        ensures
            final(self).enabled == enabled,
            final(self).providers == old(self).providers,
    {
        self.enabled = enabled;
    }

    /// Register a provider under its name. Fails only while the feature is
    /// disabled.
    pub fn register_provider(&mut self, provider: MockSamplingProvider) -> (r: McpResult<()>)
        ensures
            !old(self).enabled ==> (r matches Err(e) && e is Resource && *final(self) == *old(self)),
            old(self).enabled ==> (r is Ok && final(self).providers@.len() == old(self).providers@.len() + 1 && final(self).providers@.last().1 == provider),
    {
        if !self.enabled {
            return Err(McpError::Resource(String::from_str("Sampling feature is disabled")));
        }
        let name = provider.name.clone();
        self.providers.push((name, provider));
        Ok(())
    }

    /// Create a message with the first registered provider. Fails while the
    /// feature is disabled or no provider is registered, and otherwise as
    /// the provider does.
    pub fn create_message(&self, request: &CreateMessageRequest) -> (r: McpResult<
        CreateMessageResult,
    >)
        ensures
            !self.enabled ==> (r matches Err(e) && e is Resource),
            self.enabled && self.providers@.len() == 0 ==> (r matches Err(e) && e is Resource),
    {
        if !self.enabled {
            return Err(McpError::Resource(String::from_str("Sampling feature is disabled")));
        }
        if self.providers.len() == 0 {
            return Err(McpError::Resource(String::from_str("No sampling providers available")));
        }
        self.providers[0].1.create_message(request)
    }

    /// The models all providers offer, in registration order.
    #[verifier::loop_isolation(false)]
    pub fn get_available_models(&self) -> (r: McpResult<Vec<&ModelInfo>>)
        ensures
            r is Ok,
    {
        let mut out: Vec<&ModelInfo> = Vec::new();
        let mut i: usize = 0;
        while i < self.providers.len()
            invariant
                i <= self.providers@.len(),
            decreases self.providers@.len() - i,
        {
            let mut k: usize = 0;
            while k < self.providers[i].1.models.len()
                invariant
                    i < self.providers@.len(),
                    k <= self.providers@[i as int].1.models@.len(),
                decreases self.providers@[i as int].1.models@.len() - k,
            {
                out.push(&self.providers[i].1.models[k]);
                k = k + 1;
            }
            i = i + 1;
        }
        Ok(out)
    }
}

} // verus!

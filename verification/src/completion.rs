//! The completion feature: argument completion from static word lists; the
//! filesystem-backed completion runs outside and only its claim logic lives
//! here.

use vstd::prelude::*;
use vstd::string::StringExecFns;
use crate::error::{McpError, McpResult};
use crate::strings::{str_contains, str_starts_with, str_le, lex_le, is_prefix_of, contains_seq,
    lemma_lex_le_total, lemma_lex_le_trans, lemma_lex_le_antisym};
use crate::utils::{to_ascii_lower, spec_lower};

verus! {

broadcast use vstd::string::group_string_axioms;

/// What a completion is asked about: a prompt or a resource.
#[derive(Debug)]
pub enum CompletionReference {
    Prompt { name: String },
    Resource { uri: String },
}

/// The argument being completed: its name and the partial value typed so
/// far.
#[derive(Debug)]
pub struct ArgumentInfo {
    pub name: String,
    pub value: String,
}

/// A completion request: the reference and the argument.
#[derive(Debug)]
pub struct CompletionContext {
    pub reference: CompletionReference,
    pub argument: ArgumentInfo,
}

/// What a completion produced: candidate values, the total available, and
/// whether more were cut off.
#[derive(Debug)]
pub struct CompletionResult {
    pub values: Vec<String>,
    pub total: Option<usize>,
    pub has_more: Option<bool>,
}

impl CompletionResult {
    /// A complete result: the totals reflect the values given.
    pub fn new(values: Vec<String>) -> (r: Self)
        ensures
            r.values == values,
            r.total == Some(values@.len() as usize),
            r.has_more == Some(false),
    {
        let total = values.len();
        CompletionResult { values, total: Some(total), has_more: Some(false) }
    }

    /// A result with explicit pagination flags.
    pub fn with_pagination(values: Vec<String>, total: Option<usize>, has_more: bool) -> (r: Self)
        ensures
            r.values == values,
            r.total == total,
            r.has_more == Some(has_more),
    {
        CompletionResult { values, total, has_more: Some(has_more) }
    }

    /// The empty result.
    pub fn empty() -> (r: Self)
        ensures
            r.values@.len() == 0,
            r.total == Some(0usize),
            r.has_more == Some(false),
    {
        CompletionResult { values: Vec::new(), total: Some(0), has_more: Some(false) }
    }
}

/// A provider completing from a fixed word list, claiming references whose
/// name or URI mentions one of its patterns.
#[derive(Debug)]
pub struct StaticCompletionProvider {
    pub name: String,
    pub values: Vec<String>,
    pub patterns: Vec<String>,
}

impl StaticCompletionProvider {
    /// A provider over the given words and patterns.
    pub fn new(name: String, values: Vec<String>, patterns: Vec<String>) -> (r: Self)
        ensures
            r.name == name,
            r.values == values,
            r.patterns == patterns,
    {
        StaticCompletionProvider { name, values, patterns }
    }

    /// The provider completing programming language names.
    pub fn programming_languages() -> (r: Self)
        ensures
            r.name@ == "programming_languages"@,
            r.values@.len() == 15,
            r.patterns@.len() == 2,
    {
        let mut values: Vec<String> = Vec::new();
        values.push(String::from_str("rust"));
        values.push(String::from_str("python"));
        values.push(String::from_str("javascript"));
        values.push(String::from_str("typescript"));
        values.push(String::from_str("java"));
        values.push(String::from_str("c"));
        values.push(String::from_str("cpp"));
        values.push(String::from_str("go"));
        values.push(String::from_str("ruby"));
        values.push(String::from_str("php"));
        values.push(String::from_str("swift"));
        values.push(String::from_str("kotlin"));
        values.push(String::from_str("scala"));
        values.push(String::from_str("haskell"));
        values.push(String::from_str("clojure"));
        let mut patterns: Vec<String> = Vec::new();
        patterns.push(String::from_str("language"));
        patterns.push(String::from_str("lang"));
        StaticCompletionProvider {
            name: String::from_str("programming_languages"),
            values,
            patterns,
        }
    }

    /// The provider completing common file extensions.
    pub fn file_extensions() -> (r: Self)
        ensures
            r.name@ == "file_extensions"@,
            r.values@.len() == 21,
            r.patterns@.len() == 3,
    {
        let mut values: Vec<String> = Vec::new();
        values.push(String::from_str(".rs"));
        values.push(String::from_str(".py"));
        values.push(String::from_str(".js"));
        values.push(String::from_str(".ts"));
        values.push(String::from_str(".java"));
        values.push(String::from_str(".c"));
        values.push(String::from_str(".cpp"));
        values.push(String::from_str(".go"));
        values.push(String::from_str(".rb"));
        values.push(String::from_str(".php"));
        values.push(String::from_str(".swift"));
        values.push(String::from_str(".kt"));
        values.push(String::from_str(".scala"));
        values.push(String::from_str(".hs"));
        values.push(String::from_str(".clj"));
        values.push(String::from_str(".txt"));
        values.push(String::from_str(".md"));
        values.push(String::from_str(".json"));
        values.push(String::from_str(".xml"));
        values.push(String::from_str(".yaml"));
        values.push(String::from_str(".toml"));
        let mut patterns: Vec<String> = Vec::new();
        patterns.push(String::from_str("extension"));
        patterns.push(String::from_str("ext"));
        patterns.push(String::from_str("file_type"));
        StaticCompletionProvider { name: String::from_str("file_extensions"), values, patterns }
    }

    /// Whether this provider claims the reference: its name or URI must
    /// mention one of the patterns.
    #[verifier::loop_isolation(false)]
    pub fn can_handle(&self, reference: &CompletionReference) -> (r: bool)
        ensures
            r == (exists|i: int|
                0 <= i < self.patterns@.len() && contains_seq(
                    match reference {
                        CompletionReference::Prompt { name } => name@,
                        CompletionReference::Resource { uri } => uri@,
                    },
                    (#[trigger] self.patterns@[i])@,
                )),
    {
        let subject: &String = match reference {
            CompletionReference::Prompt { name } => name,
            CompletionReference::Resource { uri } => uri,
        };
        let mut i: usize = 0;
        while i < self.patterns.len()
            invariant
                i <= self.patterns@.len(),
                forall|j: int|
                    0 <= j < i ==> !contains_seq(subject@, (#[trigger] self.patterns@[j])@),
            decreases self.patterns@.len() - i,
        {
            if str_contains(subject.as_str(), self.patterns[i].as_str()) {
                return true;
            }
            i = i + 1;
        }
        false
    }

    /// Complete the argument: stored values whose lowercase form starts
    /// with the lowercase partial input, in ascending order, at most one
    /// hundred of them.
    #[verifier::loop_isolation(false)]
    #[verifier::rlimit(100)]
    pub fn complete(&self, context: &CompletionContext) -> (r: McpResult<CompletionResult>)
        ensures
            r matches Ok(res) && ({
                &&& res.values@.len() <= 100
                &&& (forall|a: int|
                    0 <= a && a + 1 < res.values@.len() ==> lex_le(
                        (#[trigger] res.values@[a])@,
                        res.values@[a + 1]@,
                    ))
            }),
    {
        let partial = to_ascii_lower(context.argument.value.as_str());
        let mut matched: Vec<String> = Vec::new();
        let mut i: usize = 0;
        while i < self.values.len()
            invariant
                i <= self.values@.len(),
                forall|a: int|
                    0 <= a && a + 1 < matched@.len() ==> lex_le(
                        (#[trigger] matched@[a])@,
                        matched@[a + 1]@,
                    ),
            decreases self.values@.len() - i,
        {
            let lowered = to_ascii_lower(self.values[i].as_str());
            if str_starts_with(lowered.as_str(), partial.as_str()) {
                let ghost pre = matched@;
                let mut pos: usize = 0;
                while pos < matched.len() && str_le(matched[pos].as_str(), self.values[i].as_str())
                    invariant
                        pos <= matched@.len(),
                        matched@ == pre,
                        forall|j: int|
                            0 <= j < pos ==> lex_le(
                                (#[trigger] matched@[j])@,
                                self.values@[i as int]@,
                            ),
                    decreases matched@.len() - pos,
                {
                    pos = pos + 1;
                }
                let item = self.values[i].clone();
                matched.insert(pos, item);
                proof {
                    let news = matched@;
                    let gpos = pos as int;
                    assert forall|a: int|
                        0 <= a && a + 1 < news.len() implies lex_le(
                        (#[trigger] news[a])@,
                        news[a + 1]@,
                    ) by {
                        if a + 1 < gpos {
                            assert(news[a] == pre[a] && news[a + 1] == pre[a + 1]);
                        } else if a + 1 == gpos {
                            assert(news[a] == pre[a]);
                        } else if a == gpos {
                            assert(news[a + 1] == pre[a]);
                            assert(!lex_le(pre[gpos]@, self.values@[i as int]@) || gpos
                                == pre.len());
                            lemma_lex_le_total(news[a]@, news[a + 1]@);
                        } else {
                            assert(news[a] == pre[a - 1] && news[a + 1] == pre[a]);
                        }
                    }
                }
            }
            i = i + 1;
        }
        let ghost full = matched@;
        matched.truncate(100);
        proof {
            assert forall|a: int|
                0 <= a && a + 1 < matched@.len() implies lex_le(
                (#[trigger] matched@[a])@,
                matched@[a + 1]@,
            ) by {
                assert(matched@[a] == full[a] && matched@[a + 1] == full[a + 1]);
            }
        }
        Ok(CompletionResult::new(matched))
    }
}

/// The filesystem-path completion's static shape: it claims `file://`
/// resource references. Reading directories to complete runs outside.
#[derive(Debug)]
pub struct FilePathCompletionProvider {
    pub root_dir: String,
}

impl FilePathCompletionProvider {
    /// A provider rooted at a directory.
    pub fn new(root_dir: String) -> (r: Self)
        ensures
            r.root_dir@ == root_dir@,
    {
        FilePathCompletionProvider { root_dir }
    }

    /// Whether this provider claims the reference: a resource under the
    /// file scheme.
    pub fn can_handle(&self, reference: &CompletionReference) -> (r: bool)
        ensures
            r == match reference {
                CompletionReference::Resource { uri } => is_prefix_of("file://"@, uri@),
                _ => false,
            },
    {
        match reference {
            CompletionReference::Resource { uri } => str_starts_with(uri.as_str(), "file://"),
            _ => false,
        }
    }
}

/// The completion feature: static providers consulted in registration
/// order.
pub struct CompletionManager {
    pub providers: Vec<(String, StaticCompletionProvider)>,
    pub enabled: bool,
}

impl CompletionManager {
    /// An empty manager, enabled.
    pub fn new() -> (r: Self)
        ensures
            r.providers@.len() == 0,
            r.enabled,
    {
        CompletionManager { providers: Vec::new(), enabled: true }
    }

    /// Register a provider under its name. Fails only while the feature is
    /// disabled.
    pub fn register_provider(&mut self, provider: StaticCompletionProvider) -> (r: McpResult<()>)
        ensures
            !old(self).enabled ==> (r matches Err(e) && e is Resource && *final(self) == *old(self)),
            old(self).enabled ==> (r is Ok && final(self).providers@.len() == old(self).providers@.len() + 1),
    {
        if !self.enabled {
            return Err(McpError::Resource(String::from_str("Completion feature is disabled")));
        }
        let name = provider.name.clone();
        self.providers.push((name, provider));
        Ok(())
    }

    /// Complete through the first provider claiming the reference; with
    /// none, the empty result. Fails only while the feature is disabled.
    #[verifier::loop_isolation(false)]
    pub fn complete(&self, context: &CompletionContext) -> (r: McpResult<CompletionResult>)
        ensures
            !self.enabled ==> (r matches Err(e) && e is Resource),
            self.enabled ==> r is Ok,
    {
        if !self.enabled {
            return Err(McpError::Resource(String::from_str("Completion feature is disabled")));
        }
        let mut i: usize = 0;
        while i < self.providers.len()
            invariant
                i <= self.providers@.len(),
            decreases self.providers@.len() - i,
        {
            if self.providers[i].1.can_handle(&context.reference) {
                return self.providers[i].1.complete(context);
            }
            i = i + 1;
        }
        Ok(CompletionResult::empty())
    }
}

} // verus!

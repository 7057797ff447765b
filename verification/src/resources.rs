//! The resource feature: the static registry, templates, provider records
//! with prefix-based claims, per-URI subscription bookkeeping, and the rule
//! that a provider's subscribe hook fires exactly on the first subscriber
//! and its unsubscribe hook exactly on the last.

use vstd::prelude::*;
use vstd::string::StringExecFns;
use crate::types::{Resource, ResourceV, ResourceTemplate, ResourceTemplateV, ResourceContents,
    ResourceContentsV, PaginationParams, PaginationResult, clone_opt_string};
use crate::error::{McpError, McpResult};
use crate::strings::{str_eq, str_starts_with, is_prefix_of, contains_seq};
use crate::registry::{pairs_view, assoc_lookup, assoc_wf, assoc_get, assoc_insert, assoc_remove,
    lemma_wf_ordered, lemma_assoc_at, lemma_assoc_none, lemma_assoc_lookup_exists};
use crate::pagination::{paginate, spec_page, spec_next_cursor, spec_cursor_start};

verus! {

broadcast use vstd::string::group_string_axioms;

/// A provider record: a name, the URI prefixes it claims, the resources it
/// lists, and the contents it can read, keyed by URI.
#[derive(Debug)]
pub struct ResourceProvider {
    pub name: String,
    pub prefixes: Vec<String>,
    pub resources: Vec<Resource>,
    pub contents: Vec<(String, Vec<ResourceContents>)>,
}

/// Whether a provider claims a URI: the URI starts with one of its prefixes.
pub open spec fn spec_can_handle(p: ResourceProvider, uri: Seq<char>) -> bool {
    exists|i: int| 0 <= i < p.prefixes@.len() && is_prefix_of((#[trigger] p.prefixes@[i])@, uri)
}

impl ResourceProvider {
    /// Whether this provider claims the URI.
    #[verifier::loop_isolation(false)]
    pub fn can_handle(&self, uri: &str) -> (r: bool)
        ensures
            r == spec_can_handle(*self, uri@),
    {
        let mut i: usize = 0;
        while i < self.prefixes.len()
            invariant
                i <= self.prefixes@.len(),
                forall|j: int| 0 <= j < i ==> !is_prefix_of((#[trigger] self.prefixes@[j])@, uri@),
            decreases self.prefixes@.len() - i,
        {
            if str_starts_with(uri, self.prefixes[i].as_str()) {
                return true;
            }
            i = i + 1;
        }
        false
    }
}

/// Whether some provider in the registry claims the URI.
pub open spec fn spec_any_claims(providers: Seq<(Seq<char>, ResourceProvider)>, uri: Seq<char>)
    -> bool {
    exists|i: int| 0 <= i < providers.len() && spec_can_handle((#[trigger] providers[i]).1, uri)
}

/// The index of the first provider claiming the URI.
pub open spec fn spec_first_claiming(providers: Seq<(Seq<char>, ResourceProvider)>,
    uri: Seq<char>) -> Option<int>
    decreases providers.len(),
{
    if providers.len() == 0 {
        None
    } else if spec_can_handle(providers[0].1, uri) {
        Some(0)
    } else {
        match spec_first_claiming(providers.drop_first(), uri) {
            Some(i) => Some(i + 1),
            None => None,
        }
    }
}

/// Whether a client id occurs in a subscriber list.
pub open spec fn spec_has_client(clients: Seq<String>, client: Seq<char>) -> bool {
    exists|i: int| 0 <= i < clients.len() && (#[trigger] clients[i])@ == client
}

/// The resource feature: the static registry, templates, providers, the
/// subscriber sets per URI, and the URIs whose provider subscribe hook has
/// fired and not yet been matched by an unsubscribe hook.
pub struct ResourceManager {
    pub resources: Vec<(String, Resource)>,
    pub templates: Vec<(String, ResourceTemplate)>,
    pub providers: Vec<(String, ResourceProvider)>,
    pub subscriptions: Vec<(String, Vec<String>)>,
    pub hooked: Vec<(String, bool)>,
    pub enabled: bool,
}

impl ResourceManager {
    /// Well-formed: all registries sorted; resources and templates stored
    /// under their own identity; subscriber sets non-empty; and the hook
    /// state matches the subscriber sets exactly: a URI's subscribe hook is
    /// outstanding precisely while it has subscribers.
    pub open spec fn wf(&self) -> bool {
        &&& assoc_wf(pairs_view(self.resources@))
        &&& assoc_wf(pairs_view(self.templates@))
        &&& assoc_wf(pairs_view(self.providers@))
        &&& assoc_wf(pairs_view(self.subscriptions@))
        &&& assoc_wf(pairs_view(self.hooked@))
        &&& forall|i: int|
            0 <= i < self.resources@.len() ==> (#[trigger] self.resources@[i]).1.uri@
                == self.resources@[i].0@
        &&& forall|i: int|
            0 <= i < self.templates@.len() ==> (#[trigger] self.templates@[i]).1.uri_template@
                == self.templates@[i].0@
        &&& forall|i: int|
            0 <= i < self.subscriptions@.len() ==> (#[trigger] self.subscriptions@[i]).1@.len() > 0
        &&& forall|u: Seq<char>|
            #[trigger] assoc_lookup(pairs_view(self.hooked@), u) is Some <==> assoc_lookup(
                pairs_view(self.subscriptions@),
                u,
            ) is Some
    }

    /// The static resource registry.
    pub open spec fn spec_resources(&self) -> Seq<(Seq<char>, Resource)> {
        pairs_view(self.resources@)
    }

    /// The template registry.
    pub open spec fn spec_templates(&self) -> Seq<(Seq<char>, ResourceTemplate)> {
        pairs_view(self.templates@)
    }

    /// The provider registry.
    pub open spec fn spec_providers(&self) -> Seq<(Seq<char>, ResourceProvider)> {
        pairs_view(self.providers@)
    }

    /// The subscriber sets.
    pub open spec fn spec_subscriptions(&self) -> Seq<(Seq<char>, Vec<String>)> {
        pairs_view(self.subscriptions@)
    }

    /// Whether a URI's provider subscribe hook is outstanding.
    pub open spec fn spec_hooked(&self, uri: Seq<char>) -> bool {
        assoc_lookup(pairs_view(self.hooked@), uri) is Some
    }

    /// Whether the feature is enabled.
    pub open spec fn spec_enabled(&self) -> bool {
        self.enabled
    }

    /// A fresh manager: everything empty, feature enabled.
    pub fn new() -> (r: Self)
        ensures
            r.wf(),
            r.spec_resources().len() == 0,
            r.spec_templates().len() == 0,
            r.spec_providers().len() == 0,
            r.spec_subscriptions().len() == 0,
            r.spec_enabled(),
    {
        let r = ResourceManager {
            resources: Vec::new(),
            templates: Vec::new(),
            providers: Vec::new(),
            subscriptions: Vec::new(),
            hooked: Vec::new(),
            enabled: true,
        };
        proof {
            assert(pairs_view(r.resources@) =~= Seq::<(Seq<char>, Resource)>::empty());
            assert(pairs_view(r.templates@) =~= Seq::<(Seq<char>, ResourceTemplate)>::empty());
            assert(pairs_view(r.providers@) =~= Seq::<(Seq<char>, ResourceProvider)>::empty());
            assert(pairs_view(r.subscriptions@) =~= Seq::<(Seq<char>, Vec<String>)>::empty());
            assert(pairs_view(r.hooked@) =~= Seq::<(Seq<char>, bool)>::empty());
        }
        r
    }

    /// Register a resource under its URI; an existing resource of that URI
    /// is overwritten. Fails only while the feature is disabled.
    pub fn register_resource(&mut self, resource: Resource) -> (r: McpResult<()>)
        requires
            old(self).wf(),
        ensures
            final(self).wf(),
            final(self).spec_enabled() == old(self).spec_enabled(),
            final(self).spec_providers() == old(self).spec_providers(),
            final(self).spec_subscriptions() == old(self).spec_subscriptions(),
            final(self).spec_templates() == old(self).spec_templates(),
            !old(self).spec_enabled() ==> r is Err && *final(self) == *old(self) && (
            r->Err_0 matches McpError::Resource(m) && m@ == "Resource feature is disabled"@),
            old(self).spec_enabled() ==> r is Ok && assoc_lookup(
                final(self).spec_resources(),
                resource.uri@,
            ) == Some(resource) && (forall|k2: Seq<char>|
                k2 != resource.uri@ ==> #[trigger] assoc_lookup(final(self).spec_resources(), k2)
                    == assoc_lookup(old(self).spec_resources(), k2)),
    {
        if !self.enabled {
            return Err(McpError::Resource(String::from_str("Resource feature is disabled")));
        }
        let uri = resource.uri.clone();
        let ghost t = resource;
        let ghost olds = pairs_view(self.resources@);
        assoc_insert(&mut self.resources, uri, resource);
        proof {
            let s = pairs_view(self.resources@);
            assert forall|i: int|
                0 <= i < self.resources@.len() implies (#[trigger] self.resources@[i]).1.uri@
                == self.resources@[i].0@ by {
                let k = s[i].0;
                assert forall|j: int| 0 <= j < i implies (#[trigger] s[j]).0 != k by {
                    lemma_wf_ordered(s, j, i);
                }
                lemma_assoc_at(s, k, i);
                if k != t.uri@ {
                    lemma_assoc_lookup_exists(olds, k);
                }
            }
        }
        Ok(())
    }

    /// Remove a resource, returning it when it was present.
    pub fn unregister_resource(&mut self, uri: &str) -> (r: McpResult<Option<Resource>>)
        requires
            old(self).wf(),
        ensures
            final(self).wf(),
            final(self).spec_enabled() == old(self).spec_enabled(),
            final(self).spec_providers() == old(self).spec_providers(),
            final(self).spec_subscriptions() == old(self).spec_subscriptions(),
            final(self).spec_templates() == old(self).spec_templates(),
            assoc_lookup(final(self).spec_resources(), uri@) is None,
            forall|k2: Seq<char>|
                k2 != uri@ ==> #[trigger] assoc_lookup(final(self).spec_resources(), k2)
                    == assoc_lookup(old(self).spec_resources(), k2),
            match r {
                Ok(Some(x)) => assoc_lookup(old(self).spec_resources(), uri@) == Some(x),
                Ok(None) => assoc_lookup(old(self).spec_resources(), uri@) is None,
                Err(_) => false,
            },
    {
        let ghost olds = pairs_view(self.resources@);
        let r = assoc_remove(&mut self.resources, uri);
        proof {
            let s = pairs_view(self.resources@);
            assert forall|i: int|
                0 <= i < self.resources@.len() implies (#[trigger] self.resources@[i]).1.uri@
                == self.resources@[i].0@ by {
                let k = s[i].0;
                assert forall|j: int| 0 <= j < i implies (#[trigger] s[j]).0 != k by {
                    lemma_wf_ordered(s, j, i);
                }
                lemma_assoc_at(s, k, i);
                assert(k != uri@);
                lemma_assoc_lookup_exists(olds, k);
            }
        }
        Ok(r)
    }

    /// Look a resource up by URI.
    pub fn get_resource(&self, uri: &str) -> (r: Option<&Resource>)
        ensures
            match r {
                Some(x) => assoc_lookup(self.spec_resources(), uri@) == Some(*x),
                None => assoc_lookup(self.spec_resources(), uri@) is None,
            },
    {
        assoc_get(&self.resources, uri)
    }

    /// Register a template under its URI template. Fails only while the
    /// feature is disabled.
    pub fn register_template(&mut self, template: ResourceTemplate) -> (r: McpResult<()>)
        requires
            old(self).wf(),
        ensures
            final(self).wf(),
            final(self).spec_enabled() == old(self).spec_enabled(),
            final(self).spec_providers() == old(self).spec_providers(),
            final(self).spec_subscriptions() == old(self).spec_subscriptions(),
            final(self).spec_resources() == old(self).spec_resources(),
            !old(self).spec_enabled() ==> r is Err && *final(self) == *old(self) && (
            r->Err_0 matches McpError::Resource(m) && m@ == "Resource feature is disabled"@),
            old(self).spec_enabled() ==> r is Ok && assoc_lookup(
                final(self).spec_templates(),
                template.uri_template@,
            ) == Some(template) && (forall|k2: Seq<char>|
                k2 != template.uri_template@ ==> #[trigger] assoc_lookup(
                    final(self).spec_templates(),
                    k2,
                ) == assoc_lookup(old(self).spec_templates(), k2)),
    {
        if !self.enabled {
            return Err(McpError::Resource(String::from_str("Resource feature is disabled")));
        }
        let key = template.uri_template.clone();
        let ghost t = template;
        let ghost olds = pairs_view(self.templates@);
        assoc_insert(&mut self.templates, key, template);
        proof {
            let s = pairs_view(self.templates@);
            assert forall|i: int|
                0 <= i < self.templates@.len() implies (#[trigger] self.templates@[i]).1.uri_template@
                == self.templates@[i].0@ by {
                let k = s[i].0;
                assert forall|j: int| 0 <= j < i implies (#[trigger] s[j]).0 != k by {
                    lemma_wf_ordered(s, j, i);
                }
                lemma_assoc_at(s, k, i);
                if k != t.uri_template@ {
                    lemma_assoc_lookup_exists(olds, k);
                }
            }
        }
        Ok(())
    }

    /// Register a provider under its name.
    pub fn register_provider(&mut self, provider: ResourceProvider) -> (r: McpResult<()>)
        requires
            old(self).wf(),
        ensures
            final(self).wf(),
            final(self).spec_enabled() == old(self).spec_enabled(),
            final(self).spec_resources() == old(self).spec_resources(),
            final(self).spec_templates() == old(self).spec_templates(),
            final(self).spec_subscriptions() == old(self).spec_subscriptions(),
            r is Ok,
            assoc_lookup(final(self).spec_providers(), provider.name@) == Some(provider),
            forall|k2: Seq<char>|
                k2 != provider.name@ ==> #[trigger] assoc_lookup(final(self).spec_providers(), k2)
                    == assoc_lookup(old(self).spec_providers(), k2),
    {
        let name = provider.name.clone();
        assoc_insert(&mut self.providers, name, provider);
        Ok(())
    }

    /// Number of registered resources.
    pub fn get_resource_count(&self) -> (r: usize)
        ensures
            r == self.spec_resources().len(),
    {
        self.resources.len()
    }

    /// Number of URIs with subscribers.
    pub fn get_subscription_count(&self) -> (r: usize)
        ensures
            r == self.spec_subscriptions().len(),
    {
        self.subscriptions.len()
    }

    /// Whether the feature is enabled.
    pub fn is_enabled(&self) -> (r: bool)
        ensures
            r == self.spec_enabled(),
    {
        self.enabled
    }

    /// Enable or disable the feature.
    pub fn set_enabled(&mut self, enabled: bool)
        ensures
            final(self).spec_enabled() == enabled,
            final(self).spec_resources() == old(self).spec_resources(),
            final(self).spec_templates() == old(self).spec_templates(),
            final(self).spec_providers() == old(self).spec_providers(),
            final(self).spec_subscriptions() == old(self).spec_subscriptions(),
            final(self).wf() == old(self).wf(),
    {
        self.enabled = enabled;
    }

    /// Read a resource: the first provider that claims the URI serves it
    /// from its contents table; with no claiming provider the read fails.
    #[verifier::loop_isolation(false)]
    pub fn read_resource(&self, uri: &str) -> (r: McpResult<Vec<ResourceContents>>)
        requires
            self.wf(),
        ensures
            !self.spec_enabled() ==> r is Err && (r->Err_0 matches McpError::Resource(m) && m@
                == "Resource feature is disabled"@),
            self.spec_enabled() ==> match spec_first_claiming(self.spec_providers(), uri@) {
                None => r is Err && (r->Err_0 matches McpError::Resource(m) && m@
                    == "No provider found for resource: "@ + uri@),
                Some(i) => {
                    let p = self.spec_providers()[i].1;
                    match assoc_lookup(pairs_view(p.contents@), uri@) {
                        Some(c) => r is Ok && r->Ok_0@.len() == c@.len() && (forall|k: int|
                            0 <= k < c@.len() ==> (#[trigger] r->Ok_0@[k])@ == c@[k]@),
                        None => r is Err && (r->Err_0 matches McpError::Resource(m) && m@
                            == "Resource not available: "@ + uri@),
                    }
                },
            },
    {
        if !self.enabled {
            return Err(McpError::Resource(String::from_str("Resource feature is disabled")));
        }
        let ghost ps = self.spec_providers();
        let mut i: usize = 0;
        while i < self.providers.len()
            invariant
                i <= self.providers@.len(),
                forall|j: int| 0 <= j < i ==> !spec_can_handle((#[trigger] ps[j]).1, uri@),
            decreases self.providers@.len() - i,
        {
            if self.providers[i].1.can_handle(uri) {
                proof {
                    lemma_first_claiming_at(ps, uri@, i as int);
                }
                match assoc_get(&self.providers[i].1.contents, uri) {
                    Some(contents) => {
                        let mut out: Vec<ResourceContents> = Vec::new();
                        let mut k: usize = 0;
                        while k < contents.len()
                            invariant
                                k <= contents@.len(),
                                out@.len() == k,
                                forall|m: int| 0 <= m < k ==> (#[trigger] out@[m])@ == contents@[m]@,
                            decreases contents@.len() - k,
                        {
                            out.push(contents[k].clone_contents());
                            k = k + 1;
                        }
                        return Ok(out);
                    },
                    None => {
                        let mut m = String::from_str("Resource not available: ");
                        m.append(uri);
                        return Err(McpError::Resource(m));
                    },
                }
            }
            i = i + 1;
        }
        proof {
            lemma_first_claiming_none(ps, uri@);
        }
        let mut m = String::from_str("No provider found for resource: ");
        m.append(uri);
        Err(McpError::Resource(m))
    }
}

/// `spec_first_claiming` finds the first claiming provider.
pub proof fn lemma_first_claiming_at(providers: Seq<(Seq<char>, ResourceProvider)>,
    uri: Seq<char>, i: int)
    requires
        0 <= i < providers.len(),
        spec_can_handle(providers[i].1, uri),
        forall|j: int| 0 <= j < i ==> !spec_can_handle((#[trigger] providers[j]).1, uri),
    ensures
        spec_first_claiming(providers, uri) == Some(i),
    decreases providers.len(),
{
    if i > 0 {
        lemma_first_claiming_at(providers.drop_first(), uri, i - 1);
    }
}

/// `spec_first_claiming` finds nothing when no provider claims.
pub proof fn lemma_first_claiming_none(providers: Seq<(Seq<char>, ResourceProvider)>,
    uri: Seq<char>)
    requires
        forall|j: int| 0 <= j < providers.len() ==> !spec_can_handle((#[trigger] providers[j]).1, uri),
    ensures
        spec_first_claiming(providers, uri) is None,
    decreases providers.len(),
{
    if providers.len() > 0 {
        lemma_first_claiming_none(providers.drop_first(), uri);
    }
}

/// What a subscribe call does: the client joins the URI's subscriber set,
/// the provider subscribe hook fires exactly when the set was empty, and
/// nothing else changes.
pub open spec fn subscribe_post(m0: ResourceManager, m1: ResourceManager, uri: Seq<char>,
    client: Seq<char>, fired: bool) -> bool {
    &&& m1.spec_enabled() == m0.spec_enabled()
    &&& m1.spec_resources() == m0.spec_resources()
    &&& m1.spec_templates() == m0.spec_templates()
    &&& m1.spec_providers() == m0.spec_providers()
    &&& fired == (assoc_lookup(m0.spec_subscriptions(), uri) is None)
    &&& match (assoc_lookup(m0.spec_subscriptions(), uri), assoc_lookup(
        m1.spec_subscriptions(),
        uri,
    )) {
        (None, Some(cs1)) => cs1@.len() == 1 && cs1@[0]@ == client,
        (Some(cs0), Some(cs1)) => if spec_has_client(cs0@, client) {
            cs1 == cs0
        } else {
            cs1@.len() == cs0@.len() + 1 && cs1@.drop_last() == cs0@ && cs1@.last()@ == client
        },
        _ => false,
    }
    &&& forall|u: Seq<char>|
        u != uri ==> #[trigger] assoc_lookup(m1.spec_subscriptions(), u) == assoc_lookup(
            m0.spec_subscriptions(),
            u,
        )
    &&& m1.spec_hooked(uri)
    &&& forall|u: Seq<char>| u != uri ==> #[trigger] m1.spec_hooked(u) == m0.spec_hooked(u)
}

/// What an unsubscribe call does: the client leaves the URI's subscriber
/// set, the provider unsubscribe hook fires exactly when the set becomes
/// empty, and nothing else changes.
pub open spec fn unsubscribe_post(m1: ResourceManager, m2: ResourceManager, uri: Seq<char>,
    client: Seq<char>, fired: bool) -> bool {
    &&& m2.spec_enabled() == m1.spec_enabled()
    &&& m2.spec_resources() == m1.spec_resources()
    &&& m2.spec_templates() == m1.spec_templates()
    &&& m2.spec_providers() == m1.spec_providers()
    &&& match assoc_lookup(m1.spec_subscriptions(), uri) {
        None => !fired && assoc_lookup(m2.spec_subscriptions(), uri) is None && m2.spec_hooked(uri)
            == m1.spec_hooked(uri),
        Some(cs1) => {
            if exists|j: int| 0 <= j < cs1@.len() && (#[trigger] cs1@[j])@ != client {
                &&& !fired
                &&& match assoc_lookup(m2.spec_subscriptions(), uri) {
                    Some(cs2) => (forall|c: Seq<char>|
                        #[trigger] spec_has_client(cs2@, c) <==> (spec_has_client(cs1@, c) && c
                            != client)) && cs2@.len() > 0,
                    None => false,
                }
                &&& m2.spec_hooked(uri) == m1.spec_hooked(uri)
            } else {
                &&& fired
                &&& assoc_lookup(m2.spec_subscriptions(), uri) is None
                &&& !m2.spec_hooked(uri)
            }
        },
    }
    &&& forall|u: Seq<char>|
        u != uri ==> #[trigger] assoc_lookup(m2.spec_subscriptions(), u) == assoc_lookup(
            m1.spec_subscriptions(),
            u,
        )
    &&& forall|u: Seq<char>| u != uri ==> #[trigger] m2.spec_hooked(u) == m1.spec_hooked(u)
}

impl ResourceManager {
    /// Subscribe a client to a URI. Some provider must claim the URI. The
    /// returned flag says whether the provider subscribe hook fired, which
    /// happens exactly on the first subscriber.
    #[verifier::rlimit(100)]
    pub fn subscribe(&mut self, uri: &str, client_id: &str) -> (r: McpResult<bool>)
        requires
            old(self).wf(),
        ensures
            final(self).wf(),
            !old(self).spec_enabled() ==> r is Err && *final(self) == *old(self) && (
            r->Err_0 matches McpError::Resource(m) && m@ == "Resource feature is disabled"@),
            old(self).spec_enabled() && !spec_any_claims(old(self).spec_providers(), uri@) ==> r
                is Err && *final(self) == *old(self) && (r->Err_0 matches McpError::Resource(m)
                && m@ == "No provider found for resource: "@ + uri@),
            old(self).spec_enabled() && spec_any_claims(old(self).spec_providers(), uri@) ==> (
            r matches Ok(fired) && subscribe_post(*old(self), *final(self), uri@, client_id@, fired)),
    {
        if !self.enabled {
            return Err(McpError::Resource(String::from_str("Resource feature is disabled")));
        }
        let ghost ps = self.spec_providers();
        let mut ci: usize = 0;
        let mut claimed: bool = false;
        #[verifier::loop_isolation(false)]
        while ci < self.providers.len() && !claimed
            invariant
                ci <= self.providers@.len(),
                claimed ==> spec_any_claims(ps, uri@),
                !claimed ==> forall|j: int|
                    0 <= j < ci ==> !spec_can_handle((#[trigger] ps[j]).1, uri@),
            decreases self.providers@.len() - ci + (if claimed { 0int } else { 1 }),
        {
            if self.providers[ci].1.can_handle(uri) {
                claimed = true;
                proof {
                    assert(spec_can_handle(ps[ci as int].1, uri@));
                }
            } else {
                ci = ci + 1;
            }
        }
        if !claimed {
            let mut m = String::from_str("No provider found for resource: ");
            m.append(uri);
            return Err(McpError::Resource(m));
        }
        let ghost subs0 = pairs_view(self.subscriptions@);
        let existing = assoc_remove(&mut self.subscriptions, uri);
        match existing {
            Some(cs) => {
                let mut cs = cs;
                let mut present: bool = false;
                let mut i: usize = 0;
                #[verifier::loop_isolation(false)]
                while i < cs.len() && !present
                    invariant
                        i <= cs@.len(),
                        present ==> spec_has_client(cs@, client_id@),
                        !present ==> forall|j: int| 0 <= j < i ==> (#[trigger] cs@[j])@ != client_id@,
                    decreases cs@.len() - i + (if present { 0int } else { 1 }),
                {
                    if str_eq(cs[i].as_str(), client_id) {
                        present = true;
                        proof {
                            assert(cs@[i as int]@ == client_id@);
                        }
                    } else {
                        i = i + 1;
                    }
                }
                let ghost cs0 = cs;
                if !present {
                    proof {
                        assert(!spec_has_client(cs@, client_id@));
                    }
                    cs.push(String::from_str(client_id));
                    proof {
                        assert(cs@.drop_last() =~= cs0@);
                    }
                }
                assoc_insert(&mut self.subscriptions, String::from_str(uri), cs);
                proof {
                    lemma_entries_nonempty(
                        subs0,
                        pairs_view(self.subscriptions@),
                        self.subscriptions@,
                        uri@,
                    );
                }
                Ok(false)
            },
            None => {
                let mut cs: Vec<String> = Vec::new();
                cs.push(String::from_str(client_id));
                assoc_insert(&mut self.subscriptions, String::from_str(uri), cs);
                assoc_insert(&mut self.hooked, String::from_str(uri), true);
                proof {
                    lemma_entries_nonempty(
                        subs0,
                        pairs_view(self.subscriptions@),
                        self.subscriptions@,
                        uri@,
                    );
                }
                Ok(true)
            },
        }
    }

    /// Unsubscribe a client from a URI. The returned flag says whether the
    /// provider unsubscribe hook fired, which happens exactly when the last
    /// subscriber leaves.
    #[verifier::rlimit(100)]
    pub fn unsubscribe(&mut self, uri: &str, client_id: &str) -> (r: McpResult<bool>)
        requires
            old(self).wf(),
        ensures
            final(self).wf(),
            r matches Ok(fired) && unsubscribe_post(
                *old(self),
                *final(self),
                uri@,
                client_id@,
                fired,
            ),
    {
        let ghost subs0 = pairs_view(self.subscriptions@);
        let existing = assoc_remove(&mut self.subscriptions, uri);
        match existing {
            Some(cs) => {
                let mut kept: Vec<String> = Vec::new();
                let mut i: usize = 0;
                #[verifier::loop_isolation(false)]
                while i < cs.len()
                    invariant
                        i <= cs@.len(),
                        forall|c: Seq<char>|
                            #[trigger] spec_has_client(kept@, c) <==> (exists|j: int|
                                0 <= j < i && (#[trigger] cs@[j])@ == c && c != client_id@),
                    decreases cs@.len() - i,
                {
                    if !str_eq(cs[i].as_str(), client_id) {
                        let ghost kept0 = kept@;
                        kept.push(cs[i].clone());
                        proof {
                            assert forall|c: Seq<char>|
                                #[trigger] spec_has_client(kept@, c) implies (exists|j: int|
                                0 <= j < i + 1 && (#[trigger] cs@[j])@ == c && c
                                    != client_id@) by {
                                let w = choose|w: int|
                                    0 <= w < kept@.len() && (#[trigger] kept@[w])@ == c;
                                if w < kept0.len() {
                                    assert(spec_has_client(kept0, c));
                                } else {
                                    assert(cs@[i as int]@ == c);
                                }
                            }
                            assert forall|c: Seq<char>|
                                (exists|j: int|
                                    0 <= j < i + 1 && (#[trigger] cs@[j])@ == c && c
                                        != client_id@) implies #[trigger] spec_has_client(
                                kept@,
                                c,
                            ) by {
                                let j = choose|j: int|
                                    0 <= j < i + 1 && (#[trigger] cs@[j])@ == c && c != client_id@;
                                if j < i {
                                    assert(spec_has_client(kept0, c));
                                    let w = choose|w: int|
                                        0 <= w < kept0.len() && (#[trigger] kept0[w])@ == c;
                                    assert(kept@[w]@ == c);
                                } else {
                                    assert(kept@[kept@.len() - 1]@ == c);
                                }
                            }
                        }
                    } else {
                        proof {
                            assert forall|c: Seq<char>|
                                #[trigger] spec_has_client(kept@, c) implies (exists|j: int|
                                0 <= j < i + 1 && (#[trigger] cs@[j])@ == c && c
                                    != client_id@) by {}
                            assert forall|c: Seq<char>|
                                (exists|j: int|
                                    0 <= j < i + 1 && (#[trigger] cs@[j])@ == c && c
                                        != client_id@) implies #[trigger] spec_has_client(
                                kept@,
                                c,
                            ) by {
                                let j = choose|j: int|
                                    0 <= j < i + 1 && (#[trigger] cs@[j])@ == c && c != client_id@;
                                assert(j < i);
                            }
                        }
                    }
                    i = i + 1;
                }
                if kept.len() == 0 {
                    let _ = assoc_remove(&mut self.hooked, uri);
                    proof {
                        assert forall|j: int|
                            0 <= j < cs@.len() implies (#[trigger] cs@[j])@ == client_id@ by {
                            if cs@[j]@ != client_id@ {
                                assert(spec_has_client(kept@, cs@[j]@));
                            }
                        }
                        lemma_entries_nonempty_unchanged(
                            subs0,
                            pairs_view(self.subscriptions@),
                            self.subscriptions@,
                            uri@,
                        );
                    }
                    Ok(true)
                } else {
                    assoc_insert(&mut self.subscriptions, String::from_str(uri), kept);
                    proof {
                        assert(exists|j: int|
                            0 <= j < cs@.len() && (#[trigger] cs@[j])@ != client_id@) by {
                            let c = choose|c: Seq<char>| #[trigger] spec_has_client(kept@, c);
                            assert(spec_has_client(kept@, kept@[0]@));
                        }
                        lemma_entries_nonempty(
                            subs0,
                            pairs_view(self.subscriptions@),
                            self.subscriptions@,
                            uri@,
                        );
                    }
                    Ok(false)
                }
            },
            None => {
                proof {
                    lemma_entries_nonempty_unchanged(
                        subs0,
                        pairs_view(self.subscriptions@),
                        self.subscriptions@,
                        uri@,
                    );
                }
                Ok(false)
            },
        }
    }
}

/// After rebinding one key to a non-empty list, every stored list is still
/// non-empty.
proof fn lemma_entries_nonempty(olds: Seq<(Seq<char>, Vec<String>)>,
    news: Seq<(Seq<char>, Vec<String>)>, newv: Seq<(String, Vec<String>)>, uri: Seq<char>)
    requires
        news == pairs_view(newv),
        assoc_wf(news),
        forall|i: int| 0 <= i < olds.len() ==> (#[trigger] olds[i]).1@.len() > 0,
        match assoc_lookup(news, uri) {
            Some(cs) => cs@.len() > 0,
            None => true,
        },
        forall|u: Seq<char>|
            u != uri ==> #[trigger] assoc_lookup(news, u) == assoc_lookup(olds, u),
    ensures
        forall|i: int| 0 <= i < newv.len() ==> (#[trigger] newv[i]).1@.len() > 0,
{
    assert forall|i: int| 0 <= i < newv.len() implies (#[trigger] newv[i]).1@.len() > 0 by {
        let k = news[i].0;
        assert forall|j: int| 0 <= j < i implies (#[trigger] news[j]).0 != k by {
            lemma_wf_ordered(news, j, i);
        }
        lemma_assoc_at(news, k, i);
        if k != uri {
            lemma_assoc_lookup_exists(olds, k);
        }
    }
}

/// After unbinding one key, every stored list is still non-empty.
proof fn lemma_entries_nonempty_unchanged(olds: Seq<(Seq<char>, Vec<String>)>,
    news: Seq<(Seq<char>, Vec<String>)>, newv: Seq<(String, Vec<String>)>, uri: Seq<char>)
    requires
        news == pairs_view(newv),
        assoc_wf(news),
        forall|i: int| 0 <= i < olds.len() ==> (#[trigger] olds[i]).1@.len() > 0,
        assoc_lookup(news, uri) is None,
        forall|u: Seq<char>|
            u != uri ==> #[trigger] assoc_lookup(news, u) == assoc_lookup(olds, u),
    ensures
        forall|i: int| 0 <= i < newv.len() ==> (#[trigger] newv[i]).1@.len() > 0,
{
    assert forall|i: int| 0 <= i < newv.len() implies (#[trigger] newv[i]).1@.len() > 0 by {
        let k = news[i].0;
        assert forall|j: int| 0 <= j < i implies (#[trigger] news[j]).0 != k by {
            lemma_wf_ordered(news, j, i);
        }
        lemma_assoc_at(news, k, i);
        assert(k != uri);
        lemma_assoc_lookup_exists(olds, k);
    }
}

/// Subscribing a client to a fresh URI and then unsubscribing it leaves the
/// subscriptions empty for that URI and the provider hook state exactly as
/// it was: the subscribe hook fired once and the unsubscribe hook once.
pub proof fn lemma_subscribe_unsubscribe_round_trip(m0: ResourceManager, m1: ResourceManager,
    m2: ResourceManager, uri: Seq<char>, client: Seq<char>, f1: bool, f2: bool)
    requires
        m0.wf(),
        assoc_lookup(m0.spec_subscriptions(), uri) is None,
        subscribe_post(m0, m1, uri, client, f1),
        unsubscribe_post(m1, m2, uri, client, f2),
    ensures
        f1,
        f2,
        forall|u: Seq<char>|
            #[trigger] assoc_lookup(m2.spec_subscriptions(), u) == assoc_lookup(
                m0.spec_subscriptions(),
                u,
            ),
        forall|u: Seq<char>| #[trigger] m2.spec_hooked(u) == m0.spec_hooked(u),
{
    let cs1 = assoc_lookup(m1.spec_subscriptions(), uri)->Some_0;
    assert(cs1@.len() == 1 && cs1@[0]@ == client);
    assert(!(exists|j: int| 0 <= j < cs1@.len() && (#[trigger] cs1@[j])@ != client));
    assert(!m0.spec_hooked(uri));
    assert forall|u: Seq<char>|
        #[trigger] assoc_lookup(m2.spec_subscriptions(), u) == assoc_lookup(
        m0.spec_subscriptions(),
        u,
    ) by {
        if u != uri {
            assert(assoc_lookup(m2.spec_subscriptions(), u) == assoc_lookup(
                m1.spec_subscriptions(),
                u,
            ));
        }
    }
    assert forall|u: Seq<char>| #[trigger] m2.spec_hooked(u) == m0.spec_hooked(u) by {
        if u != uri {
            assert(m2.spec_hooked(u) == m1.spec_hooked(u));
        }
    }
}

/// Views of the resources held in a registry, in registry order.
pub open spec fn spec_resource_views(s: Seq<(Seq<char>, Resource)>) -> Seq<ResourceV> {
    Seq::new(s.len(), |i: int| s[i].1@)
}

/// Views of the templates held in a registry, in registry order.
pub open spec fn spec_template_views(s: Seq<(Seq<char>, ResourceTemplate)>) -> Seq<
    ResourceTemplateV,
> {
    Seq::new(s.len(), |i: int| s[i].1@)
}

impl ResourceManager {
    /// List the registered templates in ascending order of their URI
    /// template, one page at a time. Fails only while the feature is
    /// disabled.
    #[verifier::loop_isolation(false)]
    pub fn list_templates(&self, pagination: Option<&PaginationParams>) -> (r: McpResult<
        (Vec<ResourceTemplate>, PaginationResult),
    >)
        requires
            self.wf(),
        ensures
            !self.spec_enabled() ==> r is Err && (r->Err_0 matches McpError::Resource(m) && m@
                == "Resource feature is disabled"@),
            self.spec_enabled() ==> r is Ok && ({
                let all = spec_template_views(self.spec_templates());
                let page = r->Ok_0.0;
                let pr = r->Ok_0.1;
                match pagination {
                    None => Seq::new(page@.len(), |i: int| page@[i]@) == all && pr.next_cursor
                        is None,
                    Some(p) => {
                        let start = spec_cursor_start(
                            match p.cursor {
                                Some(ref c) => Some(c@),
                                None => None,
                            },
                        );
                        &&& Seq::new(page@.len(), |i: int| page@[i]@) == spec_page(all, start)
                        &&& match (&pr.next_cursor, spec_next_cursor(all, start)) {
                            (Some(c), Some(s)) => c@ == s,
                            (None, None) => true,
                            _ => false,
                        }
                    },
                }
            }),
    {
        if !self.enabled {
            return Err(McpError::Resource(String::from_str("Resource feature is disabled")));
        }
        let ghost all = spec_template_views(self.spec_templates());
        let mut values: Vec<ResourceTemplate> = Vec::new();
        let mut i: usize = 0;
        while i < self.templates.len()
            invariant
                i <= self.templates@.len(),
                values@.len() == i,
                forall|k: int| 0 <= k < i ==> (#[trigger] values@[k])@ == all[k],
            decreases self.templates@.len() - i,
        {
            values.push(self.templates[i].1.clone_template());
            i = i + 1;
        }
        let (page, pr) = paginate(values, pagination);
        proof {
            let pv = Seq::new(page@.len(), |i: int| page@[i]@);
            match pagination {
                None => {
                    assert forall|k: int| 0 <= k < page@.len() implies pv[k] == all[k] by {
                        assert(page@[k] == values@[k]);
                    }
                    assert(pv =~= all);
                },
                Some(p) => {
                    let start = spec_cursor_start(
                        match p.cursor {
                            Some(ref c) => Some(c@),
                            None => None,
                        },
                    );
                    let want = spec_page(all, start);
                    assert forall|k: int| 0 <= k < page@.len() implies pv[k] == want[k] by {
                        assert(page@[k] == spec_page(values@, start)[k]);
                    }
                    assert(pv =~= want);
                },
            }
        }
        Ok((page, pr))
    }

    /// List resources: the union of the static registry and every
    /// provider's resources, deduplicated by URI with the registry taking
    /// precedence, in ascending URI order, one page at a time. Fails only
    /// while the feature is disabled.
    #[verifier::loop_isolation(false)]
    #[verifier::rlimit(100)]
    pub fn list_resources(&self, pagination: Option<&PaginationParams>) -> (r: McpResult<
        (Vec<Resource>, PaginationResult),
    >)
        requires
            self.wf(),
        ensures
            !self.spec_enabled() ==> r is Err && (r->Err_0 matches McpError::Resource(m) && m@
                == "Resource feature is disabled"@),
            self.spec_enabled() ==> r is Ok && (exists|combined: Seq<(Seq<char>, Resource)>|
                {
                    &&& assoc_wf(combined)
                    &&& forall|u: Seq<char>|
                        assoc_lookup(self.spec_resources(), u) is Some ==> (#[trigger] assoc_lookup(
                            combined,
                            u,
                        ) is Some && assoc_lookup(combined, u)->Some_0@ == assoc_lookup(
                            self.spec_resources(),
                            u,
                        )->Some_0@)
                    &&& forall|u: Seq<char>|
                        #[trigger] assoc_lookup(combined, u) is Some ==> (assoc_lookup(
                            self.spec_resources(),
                            u,
                        ) is Some || exists|pi: int, ri: int|
                            0 <= pi < self.spec_providers().len() && 0 <= ri
                                < self.spec_providers()[pi].1.resources@.len() && (
                            #[trigger] self.spec_providers()[pi].1.resources@[ri]).uri@ == u)
                    &&& forall|pi: int, ri: int|
                        0 <= pi < self.spec_providers().len() && 0 <= ri
                            < self.spec_providers()[pi].1.resources@.len() ==> assoc_lookup(
                            combined,
                            (#[trigger] self.spec_providers()[pi].1.resources@[ri]).uri@,
                        ) is Some
                    &&& {
                        let all = spec_resource_views(combined);
                        let page = r->Ok_0.0;
                        let pr = r->Ok_0.1;
                        match pagination {
                            None => Seq::new(page@.len(), |i: int| page@[i]@) == all
                                && pr.next_cursor is None,
                            Some(p) => {
                                let start = spec_cursor_start(
                                    match p.cursor {
                                        Some(ref c) => Some(c@),
                                        None => None,
                                    },
                                );
                                &&& Seq::new(page@.len(), |i: int| page@[i]@) == spec_page(
                                    all,
                                    start,
                                )
                                &&& match (&pr.next_cursor, spec_next_cursor(all, start)) {
                                    (Some(c), Some(s)) => c@ == s,
                                    (None, None) => true,
                                    _ => false,
                                }
                            },
                        }
                    }
                }),
    {
        if !self.enabled {
            return Err(McpError::Resource(String::from_str("Resource feature is disabled")));
        }
        let mut combined: Vec<(String, Resource)> = Vec::new();
        let mut i: usize = 0;
        while i < self.resources.len()
            invariant
                i <= self.resources@.len(),
                combined@.len() == i,
                forall|k: int|
                    0 <= k < i ==> (#[trigger] pairs_view(combined@)[k]).0 == pairs_view(
                        self.resources@,
                    )[k].0 && pairs_view(combined@)[k].1@ == pairs_view(self.resources@)[k].1@,
            decreases self.resources@.len() - i,
        {
            let key = self.resources[i].0.clone();
            let val = self.resources[i].1.clone_resource();
            proof {
                assert(val.uri@ == self.resources@[i as int].1.uri@);
            }
            let ghost comb0 = combined@;
            combined.push((key, val));
            i = i + 1;
            proof {
                assert forall|k: int|
                    0 <= k < i implies ((#[trigger] pairs_view(combined@)[k]).0 == pairs_view(
                    self.resources@,
                )[k].0 && pairs_view(combined@)[k].1@ == pairs_view(self.resources@)[k].1@) by {
                    if k < comb0.len() {
                        assert(combined@[k] == comb0[k]);
                        assert(pairs_view(comb0)[k].0 == pairs_view(self.resources@)[k].0);
                        assert(pairs_view(comb0)[k].1@ == pairs_view(self.resources@)[k].1@);
                    } else {
                        assert(combined@[k] == (key, val));
                    }
                }
            }
        }
        proof {
            assert forall|u: Seq<char>|
                #[trigger] assoc_lookup(pairs_view(combined@), u) is Some <==> assoc_lookup(
                self.spec_resources(),
                u,
            ) is Some by {
                lemma_assoc_pointwise(pairs_view(combined@), self.spec_resources(), u);
            }
            assert forall|u: Seq<char>|
                assoc_lookup(self.spec_resources(), u) is Some implies (#[trigger] assoc_lookup(
                pairs_view(combined@),
                u,
            ) is Some && assoc_lookup(pairs_view(combined@), u)->Some_0@ == assoc_lookup(
                self.spec_resources(),
                u,
            )->Some_0@) by {
                lemma_assoc_pointwise(pairs_view(combined@), self.spec_resources(), u);
            }
            assert forall|a: int|
                0 <= a && a + 1 < pairs_view(combined@).len() implies crate::strings::lex_lt(
                (#[trigger] pairs_view(combined@)[a]).0,
                pairs_view(combined@)[a + 1].0,
            ) by {
                assert(crate::strings::lex_lt(
                    pairs_view(self.resources@)[a].0,
                    pairs_view(self.resources@)[a + 1].0,
                ));
            }
        }
        let mut pi: usize = 0;
        while pi < self.providers.len()
            invariant
                pi <= self.providers@.len(),
                assoc_wf(pairs_view(combined@)),
                forall|u: Seq<char>|
                    assoc_lookup(self.spec_resources(), u) is Some ==> (#[trigger] assoc_lookup(
                        pairs_view(combined@),
                        u,
                    ) is Some && assoc_lookup(pairs_view(combined@), u)->Some_0@ == assoc_lookup(
                        self.spec_resources(),
                        u,
                    )->Some_0@),
                forall|u: Seq<char>|
                    #[trigger] assoc_lookup(pairs_view(combined@), u) is Some ==> (assoc_lookup(
                        self.spec_resources(),
                        u,
                    ) is Some || exists|qi: int, ri: int|
                        0 <= qi < pi && 0 <= ri < self.spec_providers()[qi].1.resources@.len() && (
                        #[trigger] self.spec_providers()[qi].1.resources@[ri]).uri@ == u),
                forall|qi: int, ri: int|
                    0 <= qi < pi && 0 <= ri < self.spec_providers()[qi].1.resources@.len()
                        ==> assoc_lookup(
                        pairs_view(combined@),
                        (#[trigger] self.spec_providers()[qi].1.resources@[ri]).uri@,
                    ) is Some,
            decreases self.providers@.len() - pi,
        {
            let provider = &self.providers[pi].1;
            let mut ri: usize = 0;
            while ri < provider.resources.len()
                invariant
                    ri <= provider.resources@.len(),
                    assoc_wf(pairs_view(combined@)),
                    forall|u: Seq<char>|
                        assoc_lookup(self.spec_resources(), u) is Some ==> (
                        #[trigger] assoc_lookup(pairs_view(combined@), u) is Some && assoc_lookup(
                            pairs_view(combined@),
                            u,
                        )->Some_0@ == assoc_lookup(self.spec_resources(), u)->Some_0@),
                    forall|u: Seq<char>|
                        #[trigger] assoc_lookup(pairs_view(combined@), u) is Some ==> (
                        assoc_lookup(self.spec_resources(), u) is Some || (exists|qi: int, rj: int|
                            0 <= qi < pi && 0 <= rj
                                < self.spec_providers()[qi].1.resources@.len() && (
                            #[trigger] self.spec_providers()[qi].1.resources@[rj]).uri@ == u) || (
                        exists|rj: int|
                            0 <= rj < ri && (
                            #[trigger] self.spec_providers()[pi as int].1.resources@[rj]).uri@
                                == u)),
                    forall|qi: int, rj: int|
                        0 <= qi < pi && 0 <= rj < self.spec_providers()[qi].1.resources@.len()
                            ==> assoc_lookup(
                            pairs_view(combined@),
                            (#[trigger] self.spec_providers()[qi].1.resources@[rj]).uri@,
                        ) is Some,
                    forall|rj: int|
                        0 <= rj < ri ==> assoc_lookup(
                            pairs_view(combined@),
                            (#[trigger] self.spec_providers()[pi as int].1.resources@[rj]).uri@,
                        ) is Some,
                decreases provider.resources@.len() - ri,
            {
                let uri = provider.resources[ri].uri.clone();
                match assoc_get(&combined, uri.as_str()) {
                    Some(_) => (),
                    None => {
                        let val = provider.resources[ri].clone_resource();
                        assoc_insert(&mut combined, uri, val);
                    },
                }
                ri = ri + 1;
            }
            pi = pi + 1;
        }
        let ghost gcombined = pairs_view(combined@);
        let ghost all = spec_resource_views(gcombined);
        let mut values: Vec<Resource> = Vec::new();
        let mut vi: usize = 0;
        while vi < combined.len()
            invariant
                vi <= combined@.len(),
                values@.len() == vi,
                gcombined == pairs_view(combined@),
                forall|k: int| 0 <= k < vi ==> (#[trigger] values@[k])@ == all[k],
            decreases combined@.len() - vi,
        {
            values.push(combined[vi].1.clone_resource());
            vi = vi + 1;
        }
        let (page, pr) = paginate(values, pagination);
        proof {
            let pv = Seq::new(page@.len(), |i: int| page@[i]@);
            match pagination {
                None => {
                    assert forall|k: int| 0 <= k < page@.len() implies pv[k] == all[k] by {
                        assert(page@[k] == values@[k]);
                    }
                    assert(pv =~= all);
                },
                Some(p) => {
                    let start = spec_cursor_start(
                        match p.cursor {
                            Some(ref c) => Some(c@),
                            None => None,
                        },
                    );
                    let want = spec_page(all, start);
                    assert forall|k: int| 0 <= k < page@.len() implies pv[k] == want[k] by {
                        assert(page@[k] == spec_page(values@, start)[k]);
                    }
                    assert(pv =~= want);
                },
            }
        }
        Ok((page, pr))
    }
}

/// Registries with pointwise equal keys and view-equal values have
/// view-equal lookups.
proof fn lemma_assoc_pointwise(a: Seq<(Seq<char>, Resource)>, b: Seq<(Seq<char>, Resource)>,
    u: Seq<char>)
    requires
        a.len() == b.len(),
        forall|i: int| 0 <= i < a.len() ==> (#[trigger] a[i]).0 == b[i].0,
        forall|i: int| 0 <= i < a.len() ==> (#[trigger] a[i]).1@ == b[i].1@,
    ensures
        match (assoc_lookup(a, u), assoc_lookup(b, u)) {
            (Some(x), Some(y)) => x@ == y@,
            (None, None) => true,
            _ => false,
        },
    decreases a.len(),
{
    if a.len() > 0 {
        assert(a[0].0 == b[0].0);
        if a[0].0 != u {
            assert forall|i: int|
                0 <= i < a.drop_first().len() implies (#[trigger] a.drop_first()[i]).0
                == b.drop_first()[i].0 by {
                assert(a.drop_first()[i] == a[i + 1] && b.drop_first()[i] == b[i + 1]);
            }
            assert forall|i: int|
                0 <= i < a.drop_first().len() implies (#[trigger] a.drop_first()[i]).1@
                == b.drop_first()[i].1@ by {
                assert(a.drop_first()[i] == a[i + 1] && b.drop_first()[i] == b[i + 1]);
            }
            lemma_assoc_pointwise(a.drop_first(), b.drop_first(), u);
        }
    }
}

/// The built-in filesystem provider's static shape: it claims `file://`
/// URIs and serves them beneath a root directory.
#[derive(Debug)]
pub struct FileSystemProvider {
    pub root_dir: String,
    pub allow_outside_root: bool,
}

impl FileSystemProvider {
    /// A provider rooted at `root_dir`, confined to it.
    pub fn new(root_dir: String) -> (r: Self)
        ensures
            r.root_dir@ == root_dir@,
            !r.allow_outside_root,
    {
        FileSystemProvider { root_dir, allow_outside_root: false }
    }

    /// A provider rooted at `root_dir`, confined to it unless
    /// `allow_outside_root` is set.
    pub fn with_settings(root_dir: String, allow_outside_root: bool) -> (r: Self)
        ensures
            r.root_dir@ == root_dir@,
            r.allow_outside_root == allow_outside_root,
    {
        FileSystemProvider { root_dir, allow_outside_root }
    }

    /// The provider's name.
    pub fn name(&self) -> (r: &'static str)
        ensures
            r@ == "filesystem"@,
    {
        "filesystem"
    }

    /// Whether this provider claims the URI: it must use the file scheme.
    pub fn can_handle(&self, uri: &str) -> (r: bool)
        ensures
            r == is_prefix_of("file://"@, uri@),
    {
        str_starts_with(uri, "file://")
    }

    /// The security decision on an already canonicalized path: access is
    /// allowed exactly when the path lies beneath the canonical root, or
    /// when the provider allows leaving the root.
    pub fn path_allowed(&self, canonical_path: &str, canonical_root: &str) -> (r: bool)
        ensures
            r == (self.allow_outside_root || is_prefix_of(canonical_root@, canonical_path@)),
    {
        self.allow_outside_root || str_starts_with(canonical_path, canonical_root)
    }
}

/// The built-in web provider's static shape: it claims URIs matching its
/// allowed patterns.
#[derive(Debug)]
pub struct HttpProvider {
    pub allowed_patterns: Vec<String>,
}

impl HttpProvider {
    /// A provider claiming `https://` and `http://` URIs.
    pub fn new() -> (r: Self)
        ensures
            r.allowed_patterns@.len() == 2,
            r.allowed_patterns@[0]@ == "https://"@,
            r.allowed_patterns@[1]@ == "http://"@,
    {
        let mut patterns: Vec<String> = Vec::new();
        patterns.push(String::from_str("https://"));
        patterns.push(String::from_str("http://"));
        HttpProvider { allowed_patterns: patterns }
    }

    /// A provider claiming URIs that start with one of `patterns`.
    pub fn with_patterns(patterns: Vec<String>) -> (r: Self)
        ensures
            r.allowed_patterns@ == patterns@,
    {
        HttpProvider { allowed_patterns: patterns }
    }

    /// The provider's name.
    pub fn name(&self) -> (r: &'static str)
        ensures
            r@ == "http"@,
    {
        "http"
    }

    /// Whether this provider claims the URI: it must start with one of the
    /// allowed patterns.
    #[verifier::loop_isolation(false)]
    pub fn can_handle(&self, uri: &str) -> (r: bool)
        ensures
            r == exists|i: int|
                0 <= i < self.allowed_patterns@.len() && is_prefix_of(
                    (#[trigger] self.allowed_patterns@[i])@,
                    uri@,
                ),
    {
        let mut i: usize = 0;
        while i < self.allowed_patterns.len()
            invariant
                i <= self.allowed_patterns@.len(),
                forall|j: int|
                    0 <= j < i ==> !is_prefix_of((#[trigger] self.allowed_patterns@[j])@, uri@),
            decreases self.allowed_patterns@.len() - i,
        {
            if str_starts_with(uri, self.allowed_patterns[i].as_str()) {
                return true;
            }
            i = i + 1;
        }
        false
    }
}


/// The base64 rendering of a byte sequence. Names the outcome of the base64
/// crate's standard-engine encode, which depends on the bytes alone.
pub uninterp spec fn b64_of(bytes: Seq<u8>) -> Seq<char>;

/// Relies on the base64 crate's `Engine::encode` with the standard engine:
/// the rendering depends only on the input bytes.
#[verifier::external_body]
fn base64_encode(bytes: &Vec<u8>) -> (r: String)
    ensures
        r@ == b64_of(bytes@),
{
    base64::Engine::encode(&base64::engine::general_purpose::STANDARD, bytes)
}

/// The media type guessed for a file extension. Names the outcome of
/// mime_guess's extension table, which depends on the extension alone.
pub uninterp spec fn mime_of_ext(ext: Seq<char>) -> Seq<char>;

/// Relies on mime_guess's `from_ext` and its octet-stream fallback: the
/// guess depends only on the extension.
#[verifier::external_body]
fn guess_mime_from_ext(ext: &str) -> (r: String)
    ensures
        r@ == mime_of_ext(ext@),
{
    mime_guess::from_ext(ext).first_or_octet_stream().essence_str().to_string()
}

/// Relies on std's `String::from_utf8`: it succeeds exactly on UTF-8 input
/// and the returned text re-encodes to the given bytes.
#[verifier::external_body]
fn bytes_to_utf8(bytes: &Vec<u8>) -> (r: Option<String>)
    ensures
        r matches Some(s) ==> vstd::utf8::encode_utf8(s@) == bytes@,
        (r is Some) <==> vstd::utf8::valid_utf8(bytes@),
{
    match String::from_utf8(bytes.clone()) {
        Ok(s) => Some(s),
        Err(_) => None,
    }
}

/// The media type the filesystem provider reports for a URI: guessed from
/// its extension, the octet stream for extensionless names.
pub open spec fn spec_guessed_mime(uri: Seq<char>) -> Seq<char> {
    match crate::utils::spec_file_extension(uri) {
        Some(e) => mime_of_ext(e),
        None => "application/octet-stream"@,
    }
}

impl FileSystemProvider {
    /// The access decision on canonicalized paths, as an error: access
    /// outside the root is denied unless the provider allows it.
    pub fn resolve_access(&self, canonical_path: &str, canonical_root: &str) -> (r: McpResult<()>)
        ensures
            r is Ok <==> (self.allow_outside_root || is_prefix_of(
                canonical_root@,
                canonical_path@,
            )),
            r matches Err(e) ==> (e matches McpError::Resource(m) && m@
                == "Access denied: path outside root directory"@),
    {
        if self.path_allowed(canonical_path, canonical_root) {
            Ok(())
        } else {
            Err(
                McpError::Resource(
                    String::from_str("Access denied: path outside root directory"),
                ),
            )
        }
    }
}

/// The content encoding decision for bytes read from a file: UTF-8 bytes
/// become text contents, anything else a base64 blob; the media type is
/// guessed from the URI's extension.
pub fn contents_of_bytes(uri: &str, bytes: Vec<u8>) -> (r: ResourceContents)
    ensures
        (r@ is Text) <==> vstd::utf8::valid_utf8(bytes@),
        r@ matches ResourceContentsV::Text { uri: u, mime_type: m, text } ==> u == uri@ && (
        m matches Some(mm) && mm == spec_guessed_mime(uri@)) && vstd::utf8::encode_utf8(text)
            == bytes@,
        r@ matches ResourceContentsV::Blob { uri: u, mime_type: m, blob } ==> u == uri@ && (
        m matches Some(mm) && mm == spec_guessed_mime(uri@)) && blob == b64_of(bytes@),
{
    let mime: String = match crate::utils::extract_file_extension(uri) {
        Some(ext) => guess_mime_from_ext(ext.as_str()),
        None => String::from_str("application/octet-stream"),
    };
    match bytes_to_utf8(&bytes) {
        Some(text) => ResourceContents::Text {
            uri: String::from_str(uri),
            mime_type: Some(mime),
            text,
        },
        None => ResourceContents::Blob {
            uri: String::from_str(uri),
            mime_type: Some(mime),
            blob: base64_encode(&bytes),
        },
    }
}

/// Whether a reported content type is textual: a `text/` type, or one that
/// mentions json or xml.
pub open spec fn spec_textual_content_type(ct: Seq<char>) -> bool {
    is_prefix_of("text/"@, ct) || contains_seq(ct, "json"@) || contains_seq(ct, "xml"@)
}

/// The content encoding decision for bytes fetched from the web: UTF-8
/// bytes under a textual content type become text contents, anything else a
/// base64 blob; the reported content type is kept.
pub fn http_contents_of_bytes(uri: &str, content_type: Option<String>, bytes: Vec<u8>) -> (r:
    ResourceContents)
    ensures
        (r@ is Text) <==> ((match content_type {
            Some(ref ct) => spec_textual_content_type(ct@),
            None => false,
        }) && vstd::utf8::valid_utf8(bytes@)),
        r@ matches ResourceContentsV::Text { uri: u, mime_type: m, text } ==> u == uri@ && (match (
            &content_type,
            m,
        ) {
            (Some(ct), Some(mm)) => mm == ct@,
            _ => false,
        }) && vstd::utf8::encode_utf8(text) == bytes@,
        r@ matches ResourceContentsV::Blob { uri: u, mime_type: m, blob } ==> u == uri@ && (match (
            &content_type,
            m,
        ) {
            (Some(ct), Some(mm)) => mm == ct@,
            (None, None) => true,
            _ => false,
        }) && blob == b64_of(bytes@),
{
    let textual = match &content_type {
        Some(ct) => crate::strings::str_starts_with(ct.as_str(), "text/")
            || crate::strings::str_contains(ct.as_str(), "json") || crate::strings::str_contains(
            ct.as_str(),
            "xml",
        ),
        None => false,
    };
    if textual {
        match bytes_to_utf8(&bytes) {
            Some(text) => {
                return ResourceContents::Text {
                    uri: String::from_str(uri),
                    mime_type: content_type,
                    text,
                };
            },
            None => (),
        }
    }
    ResourceContents::Blob {
        uri: String::from_str(uri),
        mime_type: content_type,
        blob: base64_encode(&bytes),
    }
}

/// The resource records of a directory listing: one per entry, under the
/// directory's URI, named by the entry, sized as reported, its media type
/// guessed from the extension.
#[verifier::loop_isolation(false)]
pub fn resources_of_listing(dir_uri: &str, entries: Vec<(String, u64)>) -> (r: Vec<Resource>)
    ensures
        r@.len() == entries@.len(),
        forall|k: int|
            0 <= k < r@.len() ==> {
                let e = #[trigger] entries@[k];
                let ru = (#[trigger] r@[k])@;
                &&& ru.uri == dir_uri@ + "/"@ + e.0@
                &&& ru.name == e.0@
                &&& ru.description == Some("File: "@ + e.0@)
                &&& ru.mime_type == Some(spec_guessed_mime(dir_uri@ + "/"@ + e.0@))
                &&& ru.annotations is None
                &&& ru.size == Some(e.1)
            },
{
    let mut out: Vec<Resource> = Vec::new();
    let mut i: usize = 0;
    while i < entries.len()
        invariant
            i <= entries@.len(),
            out@.len() == i,
            forall|k: int|
                0 <= k < i ==> {
                    let e = #[trigger] entries@[k];
                    let ru = (#[trigger] out@[k])@;
                    &&& ru.uri == dir_uri@ + "/"@ + e.0@
                    &&& ru.name == e.0@
                    &&& ru.description == Some("File: "@ + e.0@)
                    &&& ru.mime_type == Some(spec_guessed_mime(dir_uri@ + "/"@ + e.0@))
                    &&& ru.annotations is None
                    &&& ru.size == Some(e.1)
                },
        decreases entries@.len() - i,
    {
        let mut uri = String::from_str(dir_uri);
        uri.append("/");
        uri.append(entries[i].0.as_str());
        let mime: String = match crate::utils::extract_file_extension(uri.as_str()) {
            Some(ext) => guess_mime_from_ext(ext.as_str()),
            None => String::from_str("application/octet-stream"),
        };
        let mut description = String::from_str("File: ");
        description.append(entries[i].0.as_str());
        out.push(
            Resource {
                uri,
                name: entries[i].0.clone(),
                description: Some(description),
                mime_type: Some(mime),
                annotations: None,
                size: Some(entries[i].1),
            },
        );
        i = i + 1;
    }
    out
}

impl ResourceManager {
    /// Hand a provider the contents it serves for a URI: the shell reads
    /// the data and deposits it here before the read is dispatched. The new
    /// contents shadow any earlier deposit for the same URI; other URIs and
    /// every other provider are untouched. Fails exactly when no provider of
    /// that name is registered.
    #[verifier::rlimit(100)]
    pub fn provide_contents(&mut self, provider_name: &str, uri: String, contents: Vec<
        ResourceContents,
    >) -> (r: McpResult<()>)
        requires
            old(self).wf(),
        ensures
            final(self).wf(),
            final(self).spec_enabled() == old(self).spec_enabled(),
            final(self).spec_resources() == old(self).spec_resources(),
            final(self).spec_templates() == old(self).spec_templates(),
            final(self).spec_subscriptions() == old(self).spec_subscriptions(),
            assoc_lookup(old(self).spec_providers(), provider_name@) is None ==> (r matches Err(e)
                && e is Resource && *final(self) == *old(self)),
            assoc_lookup(old(self).spec_providers(), provider_name@) matches Some(p0) ==> (r is Ok
                && (match assoc_lookup(final(self).spec_providers(), provider_name@) {
                Some(p1) => {
                    &&& p1.name == p0.name
                    &&& p1.prefixes == p0.prefixes
                    &&& p1.resources == p0.resources
                    &&& assoc_lookup(pairs_view(p1.contents@), uri@) == Some(contents)
                    &&& (forall|k2: Seq<char>|
                        k2 != uri@ ==> #[trigger] assoc_lookup(pairs_view(p1.contents@), k2)
                            == assoc_lookup(pairs_view(p0.contents@), k2))
                },
                None => false,
            }) && (forall|n2: Seq<char>|
                n2 != provider_name@ ==> #[trigger] assoc_lookup(final(self).spec_providers(), n2)
                    == assoc_lookup(old(self).spec_providers(), n2))),
    {
        if assoc_get(&self.providers, provider_name).is_none() {
            let mut m = String::from_str("No provider registered under: ");
            m.append(provider_name);
            return Err(McpError::Resource(m));
        }
        let removed = assoc_remove(&mut self.providers, provider_name);
        match removed {
            Some(mut p) => {
                let ghost c0 = pairs_view(p.contents@);
                p.contents.insert(0, (uri, contents));
                proof {
                    assert(pairs_view(p.contents@) =~= c0.insert(
                        0,
                        (pairs_view(p.contents@)[0].0, pairs_view(p.contents@)[0].1),
                    ));
                    assert forall|k2: Seq<char>|
                        k2 != pairs_view(p.contents@)[0].0 implies #[trigger] assoc_lookup(
                        pairs_view(p.contents@),
                        k2,
                    ) == assoc_lookup(c0, k2) by {
                        crate::registry::lemma_assoc_insert_other(
                            c0,
                            0,
                            pairs_view(p.contents@)[0],
                            k2,
                        );
                    }
                }
                assoc_insert(&mut self.providers, String::from_str(provider_name), p);
                Ok(())
            },
            None => {
                let mut m = String::from_str("No provider registered under: ");
                m.append(provider_name);
                Err(McpError::Resource(m))
            },
        }
    }

    /// Replace the resources a provider lists: the shell scans its source
    /// and deposits the records here before a listing is dispatched. Fails
    /// exactly when no provider of that name is registered.
    #[verifier::rlimit(100)]
    pub fn set_provider_resources(&mut self, provider_name: &str, resources: Vec<Resource>) -> (r:
        McpResult<()>)
        requires
            old(self).wf(),
        ensures
            final(self).wf(),
            final(self).spec_enabled() == old(self).spec_enabled(),
            final(self).spec_resources() == old(self).spec_resources(),
            final(self).spec_templates() == old(self).spec_templates(),
            final(self).spec_subscriptions() == old(self).spec_subscriptions(),
            assoc_lookup(old(self).spec_providers(), provider_name@) is None ==> (r matches Err(e)
                && e is Resource && *final(self) == *old(self)),
            assoc_lookup(old(self).spec_providers(), provider_name@) matches Some(p0) ==> (r is Ok
                && (match assoc_lookup(final(self).spec_providers(), provider_name@) {
                Some(p1) => p1.name == p0.name && p1.prefixes == p0.prefixes && p1.contents
                    == p0.contents && p1.resources == resources,
                None => false,
            }) && (forall|n2: Seq<char>|
                n2 != provider_name@ ==> #[trigger] assoc_lookup(final(self).spec_providers(), n2)
                    == assoc_lookup(old(self).spec_providers(), n2))),
    {
        if assoc_get(&self.providers, provider_name).is_none() {
            let mut m = String::from_str("No provider registered under: ");
            m.append(provider_name);
            return Err(McpError::Resource(m));
        }
        let removed = assoc_remove(&mut self.providers, provider_name);
        match removed {
            Some(mut p) => {
                p.resources = resources;
                assoc_insert(&mut self.providers, String::from_str(provider_name), p);
                Ok(())
            },
            None => {
                let mut m = String::from_str("No provider registered under: ");
                m.append(provider_name);
                Err(McpError::Resource(m))
            },
        }
    }
}

} // verus!

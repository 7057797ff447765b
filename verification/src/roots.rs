//! The roots feature: client-provided root directories the server may
//! operate on, kept as a registry keyed by URI.

use vstd::prelude::*;
use vstd::string::StringExecFns;
use crate::error::{McpError, McpResult};
use crate::strings::{str_starts_with, is_prefix_of, str_to_chars, chars_to_string};
use crate::registry::{pairs_view, assoc_lookup, assoc_wf, assoc_get, assoc_insert, assoc_remove,
    lemma_wf_ordered, lemma_assoc_at, lemma_assoc_lookup_exists};
use crate::types::clone_opt_string;

verus! {

broadcast use vstd::string::group_string_axioms;

/// What kind of directory a root is.
#[derive(Debug)]
pub enum RootType {
    Directory,
    Repository,
    Project,
    Workspace,
    Other(String),
}

/// Metadata describing a root. The filesystem inspection that fills it runs
/// outside; the registry stores whatever was gathered.
#[derive(Debug)]
pub struct RootMetadata {
    pub root_type: RootType,
    pub read_only: bool,
    pub file_count: Option<usize>,
    pub total_size: Option<u64>,
    pub last_modified: Option<u64>,
}

/// One root: a `file://` URI, an optional name, the path it denotes, and
/// what is known about it.
#[derive(Debug)]
pub struct Root {
    pub uri: String,
    pub name: Option<String>,
    pub path: String,
    pub accessible: bool,
    pub metadata: RootMetadata,
}

impl Root {
    /// A root for a URI and path, initially not known to be accessible.
    pub fn new(uri: String, path: String) -> (r: Self)
        ensures
            r.uri@ == uri@,
            r.name is None,
            r.path@ == path@,
            !r.accessible,
    {
        Root {
            uri,
            name: None,
            path,
            accessible: false,
            metadata: RootMetadata {
                root_type: RootType::Directory,
                read_only: false,
                file_count: None,
                total_size: None,
                last_modified: None,
            },
        }
    }

    /// A named root for a URI and path.
    pub fn with_name(uri: String, path: String, name: String) -> (r: Self)
        ensures
            r.uri@ == uri@,
            r.name matches Some(n) && n@ == name@,
            r.path@ == path@,
            !r.accessible,
    {
        let mut root = Self::new(uri, path);
        root.name = Some(name);
        root
    }
}

/// The roots registry, keyed by URI.
pub struct RootsManager {
    pub roots: Vec<(String, Root)>,
    pub enabled: bool,
}

impl RootsManager {
    /// Well-formed: sorted by URI, every root stored under its own URI.
    pub open spec fn wf(&self) -> bool {
        &&& assoc_wf(pairs_view(self.roots@))
        &&& forall|i: int|
            0 <= i < self.roots@.len() ==> (#[trigger] self.roots@[i]).1.uri@
                == self.roots@[i].0@
    }

    /// The registry.
    pub open spec fn spec_roots(&self) -> Seq<(Seq<char>, Root)> {
        pairs_view(self.roots@)
    }

    /// An empty registry, enabled.
    pub fn new() -> (r: Self)
        ensures
            r.wf(),
            r.spec_roots().len() == 0,
            r.enabled,
    {
        let r = RootsManager { roots: Vec::new(), enabled: true };
        proof {
            assert(pairs_view(r.roots@) =~= Seq::<(Seq<char>, Root)>::empty());
        }
        r
    }

    /// Whether the feature is enabled.
    pub fn is_enabled(&self) -> (r: bool)
        ensures
            r == self.enabled,
    {
        self.enabled
    }

    /// Enable or disable the feature.
    pub fn set_enabled(&mut self, enabled: bool)
        ensures
            final(self).enabled == enabled,
            final(self).roots == old(self).roots,
            final(self).wf() == old(self).wf(),
    {
        self.enabled = enabled;
    }

    /// Add a root under its URI, which must use the file scheme. The path
    /// is the URI without the scheme; whether it is accessible on disk is
    /// for the caller's environment to discover.
    #[verifier::loop_isolation(false)]
    pub fn add_root(&mut self, uri: String, name: Option<String>) -> (r: McpResult<()>)
        requires
            old(self).wf(),
        ensures
            final(self).wf(),
            final(self).enabled == old(self).enabled,
            !old(self).enabled ==> (r matches Err(e) && e is Resource && *final(self) == *old(self)),
            old(self).enabled && !is_prefix_of("file://"@, uri@) ==> (r matches Err(e) && e
                is InvalidParams && *final(self) == *old(self)),
            old(self).enabled && is_prefix_of("file://"@, uri@) ==> (r is Ok && (match
                assoc_lookup(final(self).spec_roots(), uri@) {
                Some(root) => root.uri@ == uri@ && root.path@ == uri@.skip(7),
                None => false,
            }) && (forall|k2: Seq<char>|
                k2 != uri@ ==> #[trigger] assoc_lookup(final(self).spec_roots(), k2)
                    == assoc_lookup(old(self).spec_roots(), k2))),
    {
        if !self.enabled {
            return Err(McpError::Resource(String::from_str("Roots feature is disabled")));
        }
        if !str_starts_with(uri.as_str(), "file://") {
            return Err(
                McpError::invalid_params(String::from_str("Root URI must start with file://")),
            );
        }
        proof {
            reveal_strlit("file://");
            assert("file://"@.len() == 7);
        }
        let v = str_to_chars(uri.as_str());
        let mut path_chars: Vec<char> = Vec::new();
        let mut i: usize = 7;
        proof {
            assert(path_chars@ =~= uri@.subrange(7, 7));
        }
        while i < v.len()
            invariant
                7 <= i <= v@.len(),
                v@ == uri@,
                path_chars@ == uri@.subrange(7, i as int),
            decreases v@.len() - i,
        {
            path_chars.push(v[i]);
            i = i + 1;
            proof {
                assert(path_chars@ =~= uri@.subrange(7, i as int));
            }
        }
        proof {
            assert(path_chars@ =~= uri@.skip(7));
        }
        let path = chars_to_string(&path_chars);
        let mut root = Root::new(uri.clone(), path);
        root.name = name;
        let ghost t = root;
        let ghost olds = pairs_view(self.roots@);
        assoc_insert(&mut self.roots, uri, root);
        proof {
            let s = pairs_view(self.roots@);
            assert forall|i: int|
                0 <= i < self.roots@.len() implies (#[trigger] self.roots@[i]).1.uri@
                == self.roots@[i].0@ by {
                let k = s[i].0;
                assert forall|j: int| 0 <= j < i implies (#[trigger] s[j]).0 != k by {
                    lemma_wf_ordered(s, j, i);
                }
                lemma_assoc_at(s, k, i);
                if k != t.uri@ {
                    lemma_assoc_lookup_exists(olds, k);
                }
            }
        }
        Ok(())
    }

    /// Remove a root, returning it when it was present. After removal no
    /// root is found under the URI.
    pub fn remove_root(&mut self, uri: &str) -> (r: McpResult<Option<Root>>)
        requires
            old(self).wf(),
        ensures
            final(self).wf(),
            final(self).enabled == old(self).enabled,
            assoc_lookup(final(self).spec_roots(), uri@) is None,
            forall|k2: Seq<char>|
                k2 != uri@ ==> #[trigger] assoc_lookup(final(self).spec_roots(), k2)
                    == assoc_lookup(old(self).spec_roots(), k2),
            match r {
                Ok(Some(root)) => assoc_lookup(old(self).spec_roots(), uri@) == Some(root),
                Ok(None) => assoc_lookup(old(self).spec_roots(), uri@) is None,
                Err(_) => false,
            },
    {
        let ghost olds = pairs_view(self.roots@);
        let r = assoc_remove(&mut self.roots, uri);
        proof {
            let s = pairs_view(self.roots@);
            assert forall|i: int|
                0 <= i < self.roots@.len() implies (#[trigger] self.roots@[i]).1.uri@
                == self.roots@[i].0@ by {
                let k = s[i].0;
                assert forall|j: int| 0 <= j < i implies (#[trigger] s[j]).0 != k by {
                    lemma_wf_ordered(s, j, i);
                }
                lemma_assoc_at(s, k, i);
                assert(k != uri@);
                lemma_assoc_lookup_exists(olds, k);
            }
        }
        Ok(r)
    }

    /// Look a root up by URI.
    pub fn get_root(&self, uri: &str) -> (r: Option<&Root>)
        ensures
            match r {
                Some(root) => assoc_lookup(self.spec_roots(), uri@) == Some(*root),
                None => assoc_lookup(self.spec_roots(), uri@) is None,
            },
    {
        assoc_get(&self.roots, uri)
    }

    /// The URIs of all roots, in ascending order.
    #[verifier::loop_isolation(false)]
    pub fn list_roots(&self) -> (r: McpResult<Vec<String>>)
        ensures
            !self.enabled ==> (r matches Err(e) && e is Resource),
            self.enabled ==> (r matches Ok(uris) && uris@.len() == self.spec_roots().len() && (
            forall|i: int|
                0 <= i < uris@.len() ==> (#[trigger] uris@[i])@ == self.spec_roots()[i].0)),
    {
        if !self.enabled {
            return Err(McpError::Resource(String::from_str("Roots feature is disabled")));
        }
        let mut out: Vec<String> = Vec::new();
        let mut i: usize = 0;
        while i < self.roots.len()
            invariant
                i <= self.roots@.len(),
                out@.len() == i,
                forall|k: int| 0 <= k < i ==> (#[trigger] out@[k])@ == self.spec_roots()[k].0,
            decreases self.roots@.len() - i,
        {
            out.push(self.roots[i].0.clone());
            i = i + 1;
        }
        Ok(out)
    }

    /// Whether a path lies beneath some accessible root.
    #[verifier::loop_isolation(false)]
    pub fn is_path_allowed(&self, path: &str) -> (r: bool)
        ensures
            r == exists|i: int|
                0 <= i < self.spec_roots().len() && (#[trigger] self.spec_roots()[i]).1.accessible
                    && is_prefix_of(self.spec_roots()[i].1.path@, path@),
    {
        let mut i: usize = 0;
        while i < self.roots.len()
            invariant
                i <= self.roots@.len(),
                forall|j: int|
                    0 <= j < i ==> !((#[trigger] self.spec_roots()[j]).1.accessible
                        && is_prefix_of(self.spec_roots()[j].1.path@, path@)),
            decreases self.roots@.len() - i,
        {
            if self.roots[i].1.accessible && str_starts_with(path, self.roots[i].1.path.as_str()) {
                proof {
                    assert((self.spec_roots()[i as int]).1.accessible && is_prefix_of(
                        self.spec_roots()[i as int].1.path@,
                        path@,
                    ));
                }
                return true;
            }
            i = i + 1;
        }
        false
    }

    /// The first accessible root containing the path, when there is one.
    #[verifier::loop_isolation(false)]
    pub fn find_containing_root(&self, path: &str) -> (r: Option<&Root>)
        ensures
            match r {
                Some(root) => root.accessible && is_prefix_of(root.path@, path@),
                None => forall|i: int|
                    0 <= i < self.spec_roots().len() ==> !((
                    #[trigger] self.spec_roots()[i]).1.accessible && is_prefix_of(
                        self.spec_roots()[i].1.path@,
                        path@,
                    )),
            },
    {
        let mut i: usize = 0;
        while i < self.roots.len()
            invariant
                i <= self.roots@.len(),
                forall|j: int|
                    0 <= j < i ==> !((#[trigger] self.spec_roots()[j]).1.accessible
                        && is_prefix_of(self.spec_roots()[j].1.path@, path@)),
            decreases self.roots@.len() - i,
        {
            if self.roots[i].1.accessible && str_starts_with(path, self.roots[i].1.path.as_str()) {
                return Some(&self.roots[i].1);
            }
            i = i + 1;
        }
        None
    }
}

/// Adding a root and then removing it leaves no root under its URI, and
/// every other binding exactly as it was.
pub proof fn lemma_add_remove_root(m0: RootsManager, m1: RootsManager, m2: RootsManager,
    uri: Seq<char>)
    requires
        forall|k2: Seq<char>|
            k2 != uri ==> #[trigger] assoc_lookup(m1.spec_roots(), k2) == assoc_lookup(
                m0.spec_roots(),
                k2,
            ),
        assoc_lookup(m2.spec_roots(), uri) is None,
        forall|k2: Seq<char>|
            k2 != uri ==> #[trigger] assoc_lookup(m2.spec_roots(), k2) == assoc_lookup(
                m1.spec_roots(),
                k2,
            ),
        assoc_lookup(m0.spec_roots(), uri) is None,
    ensures
        forall|k2: Seq<char>|
            #[trigger] assoc_lookup(m2.spec_roots(), k2) == assoc_lookup(m0.spec_roots(), k2),
{
    assert forall|k2: Seq<char>|
        #[trigger] assoc_lookup(m2.spec_roots(), k2) == assoc_lookup(m0.spec_roots(), k2) by {
        if k2 != uri {
            assert(assoc_lookup(m2.spec_roots(), k2) == assoc_lookup(m1.spec_roots(), k2));
        }
    }
}

} // verus!

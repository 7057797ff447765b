//! A keyed registry kept as a vector of pairs sorted strictly by key. All
//! feature registries (resources, tools, prompts, sessions, subscriptions)
//! are instances of it. Lookups are modelled by `assoc_lookup`.

use vstd::prelude::*;
use crate::strings::{lex_le, lex_lt, lemma_lex_le_total, lemma_lex_le_antisym, lemma_lex_le_trans,
    str_lt, str_eq};

verus! {

/// The view of a pair vector: keys as character sequences.
pub open spec fn pairs_view<V>(v: Seq<(String, V)>) -> Seq<(Seq<char>, V)> {
    Seq::new(v.len(), |i: int| (v[i].0@, v[i].1))
}

/// First value bound to key `k`.
pub open spec fn assoc_lookup<V>(s: Seq<(Seq<char>, V)>, k: Seq<char>) -> Option<V>
    decreases s.len(),
{
    if s.len() == 0 {
        None
    } else if s[0].0 == k {
        Some(s[0].1)
    } else {
        assoc_lookup(s.drop_first(), k)
    }
}

/// Whether the pairs are sorted strictly by key.
pub open spec fn assoc_wf<V>(s: Seq<(Seq<char>, V)>) -> bool {
    forall|i: int| 0 <= i && i + 1 < s.len() ==> lex_lt((#[trigger] s[i]).0, s[i + 1].0)
}

/// In a sorted registry every earlier key is strictly below every later key.
pub proof fn lemma_wf_ordered<V>(s: Seq<(Seq<char>, V)>, i: int, j: int)
    requires
        assoc_wf(s),
        0 <= i < j < s.len(),
    ensures
        lex_lt(s[i].0, s[j].0),
    decreases j - i,
{
    if i + 1 < j {
        lemma_wf_ordered(s, i + 1, j);
        lemma_lex_le_trans(s[i].0, s[i + 1].0, s[j].0);
        if s[i].0 == s[j].0 {
            lemma_lex_le_antisym(s[i].0, s[i + 1].0);
        }
    }
}

/// `assoc_lookup` finds the first matching member.
pub proof fn lemma_assoc_at<V>(s: Seq<(Seq<char>, V)>, k: Seq<char>, i: int)
    requires
        0 <= i < s.len(),
        s[i].0 == k,
        forall|j: int| 0 <= j < i ==> (#[trigger] s[j]).0 != k,
    ensures
        assoc_lookup(s, k) == Some(s[i].1),
    decreases s.len(),
{
    if i > 0 {
        lemma_assoc_at(s.drop_first(), k, i - 1);
    }
}

/// `assoc_lookup` finds nothing when no key matches.
pub proof fn lemma_assoc_none<V>(s: Seq<(Seq<char>, V)>, k: Seq<char>)
    requires
        forall|j: int| 0 <= j < s.len() ==> (#[trigger] s[j]).0 != k,
    ensures
        assoc_lookup(s, k) is None,
    decreases s.len(),
{
    if s.len() > 0 {
        lemma_assoc_none(s.drop_first(), k);
    }
}

/// Inserting a pair with a fresh key leaves other lookups unchanged.
pub proof fn lemma_assoc_insert_other<V>(s: Seq<(Seq<char>, V)>, pos: int, e: (Seq<char>, V),
    k: Seq<char>)
    requires
        0 <= pos <= s.len(),
        e.0 != k,
    ensures
        assoc_lookup(s.insert(pos, e), k) == assoc_lookup(s, k),
    decreases pos,
{
    let s2 = s.insert(pos, e);
    if pos == 0 {
        assert(s2.drop_first() =~= s);
    } else {
        assert(s2[0] == s[0]);
        assert(s2.drop_first() =~= s.drop_first().insert(pos - 1, e));
        if s[0].0 != k {
            lemma_assoc_insert_other(s.drop_first(), pos - 1, e, k);
        }
    }
}

/// Replacing the value at a key's position leaves other lookups unchanged
/// and binds the key to the new value.
pub proof fn lemma_assoc_update<V>(s: Seq<(Seq<char>, V)>, pos: int, e: (Seq<char>, V),
    k: Seq<char>)
    requires
        0 <= pos < s.len(),
        e.0 == s[pos].0,
        forall|j: int| 0 <= j < pos ==> (#[trigger] s[j]).0 != e.0,
    ensures
        k != e.0 ==> assoc_lookup(s.update(pos, e), k) == assoc_lookup(s, k),
        assoc_lookup(s.update(pos, e), e.0) == Some(e.1),
    decreases pos,
{
    let s2 = s.update(pos, e);
    if pos == 0 {
        assert(s2[0] == e);
        assert(s2.drop_first() =~= s.drop_first());
    } else {
        assert(s2[0] == s[0]);
        assert(s2.drop_first() =~= s.drop_first().update(pos - 1, e));
        lemma_assoc_update(s.drop_first(), pos - 1, e, k);
    }
}

/// Removing the only member with a key unbinds it and leaves other lookups
/// unchanged.
pub proof fn lemma_assoc_remove<V>(s: Seq<(Seq<char>, V)>, i: int, k: Seq<char>)
    requires
        0 <= i < s.len(),
        forall|j: int| 0 <= j < s.len() && j != i ==> (#[trigger] s[j]).0 != s[i].0,
    ensures
        assoc_lookup(s.remove(i), s[i].0) is None,
        k != s[i].0 ==> assoc_lookup(s.remove(i), k) == assoc_lookup(s, k),
    decreases i,
{
    let s2 = s.remove(i);
    if i == 0 {
        assert(s2 =~= s.drop_first());
        assert forall|j: int| 0 <= j < s2.len() implies (#[trigger] s2[j]).0 != s[0].0 by {
            assert(s2[j] == s[j + 1]);
        }
        lemma_assoc_none(s2, s[0].0);
    } else {
        assert(s2[0] == s[0]);
        assert(s2.drop_first() =~= s.drop_first().remove(i - 1));
        assert forall|j: int|
            0 <= j < s.drop_first().len() && j != i - 1 implies (#[trigger] s.drop_first()[j]).0
            != s.drop_first()[i - 1].0 by {
            assert(s.drop_first()[j] == s[j + 1]);
        }
        lemma_assoc_remove(s.drop_first(), i - 1, k);
    }
}

/// A successful lookup names some member of the registry.
pub proof fn lemma_assoc_lookup_exists<V>(s: Seq<(Seq<char>, V)>, k: Seq<char>)
    requires
        assoc_lookup(s, k) is Some,
    ensures
        exists|i: int|
            0 <= i < s.len() && (#[trigger] s[i]).0 == k && s[i].1 == assoc_lookup(s, k)->Some_0,
    decreases s.len(),
{
    if s.len() > 0 {
        if s[0].0 == k {
            assert(s[0].0 == k && s[0].1 == assoc_lookup(s, k)->Some_0);
        } else {
            lemma_assoc_lookup_exists(s.drop_first(), k);
            let j = choose|j: int|
                0 <= j < s.drop_first().len() && (#[trigger] s.drop_first()[j]).0 == k
                    && s.drop_first()[j].1 == assoc_lookup(s.drop_first(), k)->Some_0;
            assert(s[j + 1].0 == k && s[j + 1].1 == assoc_lookup(s, k)->Some_0);
        }
    }
}

/// Look a key up in a registry.
#[verifier::loop_isolation(false)]
pub fn assoc_get<'a, V>(v: &'a Vec<(String, V)>, key: &str) -> (r: Option<&'a V>)
    ensures
        match r {
            Some(x) => assoc_lookup(pairs_view(v@), key@) == Some(*x),
            None => assoc_lookup(pairs_view(v@), key@) is None,
        },
{
    let mut i: usize = 0;
    while i < v.len()
        invariant
            i <= v@.len(),
            forall|j: int| 0 <= j < i ==> (#[trigger] pairs_view(v@)[j]).0 != key@,
        decreases v@.len() - i,
    {
        if str_eq(v[i].0.as_str(), key) {
            proof {
                lemma_assoc_at(pairs_view(v@), key@, i as int);
            }
            return Some(&v[i].1);
        }
        i = i + 1;
    }
    proof {
        lemma_assoc_none(pairs_view(v@), key@);
    }
    None
}

/// Bind `key` to `value`: replace an existing binding or insert a new pair,
/// keeping the registry sorted.
#[verifier::loop_isolation(false)]
#[verifier::rlimit(100)]
pub fn assoc_insert<V>(v: &mut Vec<(String, V)>, key: String, value: V)
    requires
        assoc_wf(pairs_view(old(v)@)),
    ensures
        assoc_wf(pairs_view(final(v)@)),
        assoc_lookup(pairs_view(final(v)@), key@) == Some(value),
        forall|k2: Seq<char>|
            k2 != key@ ==> #[trigger] assoc_lookup(pairs_view(final(v)@), k2) == assoc_lookup(
                pairs_view(old(v)@),
                k2,
            ),
        assoc_lookup(pairs_view(old(v)@), key@) is Some ==> final(v)@.len() == old(v)@.len(),
        assoc_lookup(pairs_view(old(v)@), key@) is None ==> final(v)@.len() == old(v)@.len() + 1,
{
    let ghost s0 = pairs_view(v@);
    let mut i: usize = 0;
    while i < v.len() && str_lt(v[i].0.as_str(), key.as_str())
        invariant
            i <= v@.len(),
            forall|j: int| 0 <= j < i ==> lex_lt((#[trigger] pairs_view(v@)[j]).0, key@),
        decreases v@.len() - i,
    {
        i = i + 1;
    }
    proof {
        assert forall|j: int| 0 <= j < i implies (#[trigger] s0[j]).0 != key@ by {
            assert(lex_lt(s0[j].0, key@));
        }
    }
    if i < v.len() && str_eq(v[i].0.as_str(), key.as_str()) {
        let ghost e = (key@, value);
        v.remove(i);
        v.insert(i, (key, value));
        proof {
            assert(pairs_view(v@) =~= s0.update(i as int, e));
            lemma_assoc_at(s0, key@, i as int);
            assert forall|k2: Seq<char>|
                k2 != key@ implies #[trigger] assoc_lookup(pairs_view(v@), k2) == assoc_lookup(
                s0,
                k2,
            ) by {
                lemma_assoc_update(s0, i as int, e, k2);
            }
            lemma_assoc_update(s0, i as int, e, key@);
            assert forall|a: int|
                0 <= a && a + 1 < pairs_view(v@).len() implies lex_lt(
                (#[trigger] pairs_view(v@)[a]).0,
                pairs_view(v@)[a + 1].0,
            ) by {
                assert(lex_lt(s0[a].0, s0[a + 1].0));
            }
        }
    } else {
        let ghost e = (key@, value);
        proof {
            if i < v.len() {
                lemma_lex_le_total(s0[i as int].0, key@);
                assert(lex_lt(key@, s0[i as int].0));
            }
            assert forall|j: int| 0 <= j < s0.len() implies (#[trigger] s0[j]).0 != key@ by {
                if j < i {
                    assert(lex_lt(s0[j].0, key@));
                } else if j == i {
                } else {
                    lemma_wf_ordered(s0, i as int, j);
                    if s0[j].0 == key@ {
                        lemma_lex_le_antisym(key@, s0[i as int].0);
                    }
                }
            }
            lemma_assoc_none(s0, key@);
        }
        v.insert(i, (key, value));
        proof {
            assert(pairs_view(v@) =~= s0.insert(i as int, e));
            let s2 = s0.insert(i as int, e);
            assert forall|j: int| 0 <= j < i implies (#[trigger] s2[j]).0 != key@ by {
                assert(s2[j] == s0[j]);
                assert(lex_lt(s0[j].0, key@));
            }
            lemma_assoc_at(s2, key@, i as int);
            assert forall|k2: Seq<char>|
                k2 != key@ implies #[trigger] assoc_lookup(s2, k2) == assoc_lookup(s0, k2) by {
                lemma_assoc_insert_other(s0, i as int, e, k2);
            }
            assert forall|a: int|
                0 <= a && a + 1 < s2.len() implies lex_lt((#[trigger] s2[a]).0, s2[a + 1].0) by {
                if a + 1 < i {
                    assert(s2[a] == s0[a] && s2[a + 1] == s0[a + 1]);
                } else if a + 1 == i {
                    assert(s2[a] == s0[a]);
                    assert(lex_lt(s0[a].0, key@));
                } else if a == i {
                    assert(s2[a + 1] == s0[a]);
                    assert(lex_lt(key@, s0[a].0));
                } else {
                    assert(s2[a] == s0[a - 1] && s2[a + 1] == s0[a]);
                }
            }
        }
    }
}

/// Unbind `key`: remove its pair when present, returning the value.
#[verifier::loop_isolation(false)]
#[verifier::rlimit(100)]
pub fn assoc_remove<V>(v: &mut Vec<(String, V)>, key: &str) -> (r: Option<V>)
    requires
        assoc_wf(pairs_view(old(v)@)),
    ensures
        assoc_wf(pairs_view(final(v)@)),
        assoc_lookup(pairs_view(final(v)@), key@) is None,
        forall|k2: Seq<char>|
            k2 != key@ ==> #[trigger] assoc_lookup(pairs_view(final(v)@), k2) == assoc_lookup(
                pairs_view(old(v)@),
                k2,
            ),
        match r {
            Some(x) => assoc_lookup(pairs_view(old(v)@), key@) == Some(x) && final(v)@.len() + 1
                == old(v)@.len(),
            None => assoc_lookup(pairs_view(old(v)@), key@) is None && final(v)@ == old(v)@,
        },
{
    let ghost s0 = pairs_view(v@);
    let mut i: usize = 0;
    while i < v.len()
        invariant
            i <= v@.len(),
            v@ == old(v)@,
            forall|j: int| 0 <= j < i ==> (#[trigger] pairs_view(v@)[j]).0 != key@,
        decreases v@.len() - i,
    {
        if str_eq(v[i].0.as_str(), key) {
            proof {
                lemma_assoc_at(s0, key@, i as int);
                assert forall|j: int|
                    0 <= j < s0.len() && j != i implies (#[trigger] s0[j]).0 != s0[i as int].0 by {
                    if j < i {
                    } else {
                        lemma_wf_ordered(s0, i as int, j);
                    }
                }
            }
            let (_, value) = v.remove(i);
            proof {
                assert(pairs_view(v@) =~= s0.remove(i as int));
                lemma_assoc_remove(s0, i as int, key@);
                assert forall|k2: Seq<char>|
                    k2 != key@ implies #[trigger] assoc_lookup(pairs_view(v@), k2) == assoc_lookup(
                    s0,
                    k2,
                ) by {
                    lemma_assoc_remove(s0, i as int, k2);
                }
                let s2 = s0.remove(i as int);
                assert forall|a: int|
                    0 <= a && a + 1 < s2.len() implies lex_lt((#[trigger] s2[a]).0, s2[a + 1].0) by {
                    if a + 1 < i {
                        assert(s2[a] == s0[a] && s2[a + 1] == s0[a + 1]);
                    } else if a + 1 == i {
                        assert(s2[a] == s0[a] && s2[a + 1] == s0[a + 2]);
                        lemma_wf_ordered(s0, a, a + 2);
                    } else if a == i {
                        assert(s2[a] == s0[a + 1] && s2[a + 1] == s0[a + 2]);
                    } else {
                        assert(s2[a] == s0[a + 1] && s2[a + 1] == s0[a + 2]);
                    }
                }
            }
            return Some(value);
        }
        i = i + 1;
    }
    proof {
        lemma_assoc_none(s0, key@);
    }
    None
}

} // verus!

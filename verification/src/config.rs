//! The declarative description of the desired remote state.
//!
//! A configuration node holds the policy for extra remotes, the desired
//! remotes keyed by name, and nested configuration nodes keyed by the
//! relative path of a sub-repository. Both key sequences are kept in strictly
//! ascending lexicographic order; iteration order is part of the observable
//! behaviour (actions and diagnostics come out in ascending key order).

use vstd::prelude::*;

use crate::order::lex_lt;

verus! {

/// Policy for remotes that exist locally but are absent from the
/// configuration.
#[derive(Clone, Copy, Debug, PartialEq, Eq, Structural)]
pub enum ExtraRemotes {
    Ignore,
    Warn,
    Remove,
}

impl Default for ExtraRemotes {
    /// The default policy leaves extra remotes alone.
    fn default() -> (r: Self)
        ensures
            r == ExtraRemotes::Ignore,
    {
        ExtraRemotes::Ignore
    }
}

/// The settings section of a configuration node.
#[derive(Clone, Copy, Debug, PartialEq, Eq, Structural)]
pub struct Settings {
    pub extra_remotes: ExtraRemotes,
}

impl Default for Settings {
    fn default() -> (r: Self)
        ensures
            r == (Settings { extra_remotes: ExtraRemotes::Ignore }),
    {
        Settings { extra_remotes: ExtraRemotes::Ignore }
    }
}

/// The mathematical value of one remote's identity: its fetch URL and its
/// optional push URL. Names are kept separately as keys.
pub ghost struct RemoteStateV {
    pub url: Seq<char>,
    pub push_url: Option<Seq<char>>,
}

/// One desired remote in the configuration.
#[derive(Clone, Debug)]
pub struct RemoteConfig {
    pub url: String,
    pub push_url: Option<String>,
}

impl View for RemoteConfig {
    type V = RemoteStateV;

    open spec fn view(&self) -> RemoteStateV {
        RemoteStateV { url: self.url@, push_url: self.push_url.deep_view() }
    }
}

impl DeepView for RemoteConfig {
    type V = RemoteStateV;

    open spec fn deep_view(&self) -> RemoteStateV {
        self@
    }
}

/// The keys of `s` are strictly ascending (hence unique).
pub open spec fn sorted_keys<T>(s: Seq<(Seq<char>, T)>) -> bool {
    forall|i: int, j: int| 0 <= i < j < s.len() ==> lex_lt(#[trigger] s[i].0, #[trigger] s[j].0)
}

/// As `sorted_keys`, for an association list whose keys are still `String`s.
pub open spec fn sorted_pairs<T>(s: Seq<(String, T)>) -> bool {
    forall|i: int, j: int| 0 <= i < j < s.len() ==> lex_lt(#[trigger] s[i].0@, #[trigger] s[j].0@)
}

/// The value of the first entry of `s` whose key is `key`, if any.
pub open spec fn assoc_lookup<T>(s: Seq<(Seq<char>, T)>, key: Seq<char>) -> Option<T>
    decreases s.len(),
{
    if s.len() == 0 {
        None
    } else if s[0].0 == key {
        Some(s[0].1)
    } else {
        assoc_lookup(s.drop_first(), key)
    }
}

/// Whether some entry of `s` has key `key`.
pub open spec fn assoc_contains<T>(s: Seq<(Seq<char>, T)>, key: Seq<char>) -> bool {
    exists|i: int| 0 <= i < s.len() && (#[trigger] s[i].0) == key
}

/// A key that no entry of `s` carries is not found.
pub proof fn lemma_assoc_lookup_none<T>(s: Seq<(Seq<char>, T)>, key: Seq<char>)
    requires
        forall|k: int| 0 <= k < s.len() ==> (#[trigger] s[k].0) != key,
    ensures
        assoc_lookup(s, key) is None,
    decreases s.len(),
{
    if s.len() > 0 {
        assert forall|k: int|
            0 <= k < s.drop_first().len() implies (#[trigger] s.drop_first()[k].0) != key by {
            assert(s.drop_first()[k] == s[k + 1]);
        }
        lemma_assoc_lookup_none(s.drop_first(), key);
    }
}

/// Lookup finds the value at the first index whose key matches.
pub proof fn lemma_assoc_lookup_first_hit<T>(s: Seq<(Seq<char>, T)>, key: Seq<char>, j: int)
    requires
        0 <= j < s.len(),
        s[j].0 == key,
        forall|k: int| 0 <= k < j ==> (#[trigger] s[k].0) != key,
    ensures
        assoc_lookup(s, key) == Some(s[j].1),
    decreases j,
{
    if j > 0 {
        assert(s[0].0 != key);
        assert forall|k: int| 0 <= k < j - 1 implies (#[trigger] s.drop_first()[k].0) != key by {
            assert(s.drop_first()[k] == s[k + 1]);
        }
        assert(s.drop_first()[j - 1] == s[j]);
        lemma_assoc_lookup_first_hit(s.drop_first(), key, j - 1);
    }
}

/// Updating an entry in place, keeping its key, does not change the lookup
/// of any other key.
pub proof fn lemma_assoc_lookup_update_other<T>(
    s: Seq<(Seq<char>, T)>,
    k: int,
    e: (Seq<char>, T),
    q: Seq<char>,
)
    requires
        0 <= k < s.len(),
        s[k].0 == e.0,
        q != e.0,
    ensures
        assoc_lookup(s.update(k, e), q) == assoc_lookup(s, q),
    decreases s.len(),
{
    let s2 = s.update(k, e);
    if k == 0 {
        assert(s2[0].0 == s[0].0);
        assert(s[0].0 != q);
        assert(s2.drop_first() =~= s.drop_first());
    } else {
        assert(s2[0] == s[0]);
        if s[0].0 != q {
            assert(s2.drop_first() =~= s.drop_first().update(k - 1, e));
            assert(s.drop_first()[k - 1] == s[k]);
            lemma_assoc_lookup_update_other(s.drop_first(), k - 1, e, q);
        }
    }
}

/// Inserting an entry does not change the lookup of any other key.
pub proof fn lemma_assoc_lookup_insert_other<T>(
    s: Seq<(Seq<char>, T)>,
    k: int,
    e: (Seq<char>, T),
    q: Seq<char>,
)
    requires
        0 <= k <= s.len(),
        q != e.0,
    ensures
        assoc_lookup(s.insert(k, e), q) == assoc_lookup(s, q),
    decreases s.len(),
{
    let s2 = s.insert(k, e);
    if k == 0 {
        assert(s2[0] == e);
        assert(s2.drop_first() =~= s);
    } else {
        assert(s2[0] == s[0]);
        if s[0].0 != q {
            assert(s2.drop_first() =~= s.drop_first().insert(k - 1, e));
            lemma_assoc_lookup_insert_other(s.drop_first(), k - 1, e, q);
        }
    }
}

/// One node of the configuration tree.
pub struct GemoteConfig {
    pub settings: Settings,
    pub remotes: Vec<(String, RemoteConfig)>,
    pub submodules: Vec<(String, GemoteConfig)>,
}

impl GemoteConfig {
    /// Well-formedness: remote names and sub-repository paths are strictly
    /// sorted, recursively in every nested node.
    pub open spec fn wf(&self) -> bool
        decreases *self,
    {
        &&& sorted_keys(self.remotes.deep_view())
        &&& sorted_pairs(self.submodules@)
        &&& forall|i: int|
            0 <= i < self.submodules.len() ==> (#[trigger] self.submodules[i].1).wf()
    }
}

impl Default for GemoteConfig {
    /// An empty configuration node: default settings, no remotes, no
    /// sub-repositories.
    fn default() -> (r: Self)
        ensures
            r.settings == (Settings { extra_remotes: ExtraRemotes::Ignore }),
            r.remotes@ == Seq::<(String, RemoteConfig)>::empty(),
            r.submodules@ == Seq::<(String, GemoteConfig)>::empty(),
            r.wf(),
    {
        GemoteConfig { settings: Settings::default(), remotes: Vec::new(), submodules: Vec::new() }
    }
}

} // verus!

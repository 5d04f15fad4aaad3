//! The version-control collaborator: observed remote state, and the small
//! capability surface of `git2` that the engine drives.
//!
//! Every call into `git2` stands behind a trusted wrapper. The wrappers only
//! convert between `git2`'s types and plain values; what they return depends
//! on the repository on disk, so their contracts state only what holds of
//! every outcome, and the verified functions around them do the rest.

use vstd::prelude::*;
use vstd::string::StringExecFns;

use crate::config::{
    assoc_lookup, lemma_assoc_lookup_first_hit, lemma_assoc_lookup_insert_other,
    lemma_assoc_lookup_update_other, sorted_keys, RemoteStateV,
};
use crate::error::GemoteError;
use crate::discover::{spec_discovered_paths, discover_nested_paths, DirTree};
use crate::order::{
    lemma_lex_lt_connected, lemma_lex_lt_irreflexive, lemma_lex_lt_transitive, lex_lt, str_lt,
};

verus! {

/// The observed identity of one local remote: its fetch URL and its optional
/// push URL. The remote's name is the key it is stored under.
#[derive(Clone, Debug)]
pub struct RemoteInfo {
    pub url: String,
    pub push_url: Option<String>,
}

impl View for RemoteInfo {
    type V = RemoteStateV;

    open spec fn view(&self) -> RemoteStateV {
        RemoteStateV { url: self.url@, push_url: self.push_url.deep_view() }
    }
}

impl DeepView for RemoteInfo {
    type V = RemoteStateV;

    open spec fn deep_view(&self) -> RemoteStateV {
        self@
    }
}

/// A directly nested repository: its path relative to the parent repository's
/// root, and the opened repository.
pub struct SubRepoInfo {
    pub path: String,
    pub repo: git2::Repository,
}

#[verifier::external_type_specification]
#[verifier::external_body]
pub struct ExGitRepository(git2::Repository);

#[verifier::external_type_specification]
#[verifier::external_body]
pub struct ExGitError(git2::Error);

#[verifier::external_type_specification]
#[verifier::external_body]
pub struct ExGitSubmodule<'repo>(git2::Submodule<'repo>);

/// Relies on git2::Repository::open: opens an already-existing repository at
/// `path`.
#[verifier::external_body]
pub(crate) fn repo_open(path: &str) -> Result<git2::Repository, git2::Error> {
    git2::Repository::open(path)
}

/// Relies on git2::Repository::discover: opens a repository at or above
/// `path`, walking up the filesystem hierarchy.
#[verifier::external_body]
pub(crate) fn repo_discover(path: &str) -> Result<git2::Repository, git2::Error> {
    git2::Repository::discover(path)
}

/// Relies on git2::Repository::remotes: the names of the configured remotes.
/// Names that are not valid UTF-8 are dropped, as the string-array iterator
/// of git2 does.
#[verifier::external_body]
pub(crate) fn repo_remote_names(repo: &git2::Repository) -> Result<Vec<String>, git2::Error> {
    let names = repo.remotes()?;
    let mut out = Vec::new();
    for name in names.iter() {
        if let Ok(Some(n)) = name {
            out.push(n.to_string());
        }
    }
    Ok(out)
}

/// Relies on git2::Repository::find_remote, git2::Remote::url and
/// git2::Remote::pushurl: the fetch URL and the optional push URL of the
/// remote called `name`.
#[verifier::external_body]
pub(crate) fn repo_remote_urls(repo: &git2::Repository, name: &str) -> Result<
    (String, Option<String>),
    git2::Error,
> {
    let remote = repo.find_remote(name)?;
    Ok((remote.url()?.to_string(), remote.pushurl()?.map(String::from)))
}

/// Relies on git2::Repository::remote: creates remote `name` with fetch URL
/// `url`; fails if a remote with that name already exists.
#[verifier::external_body]
pub(crate) fn repo_remote_create(repo: &git2::Repository, name: &str, url: &str) -> Result<
    (),
    git2::Error,
> {
    repo.remote(name, url).map(|_| ())
}

/// Relies on git2::Repository::remote_set_url: sets the fetch URL of the
/// existing remote `name`.
#[verifier::external_body]
pub(crate) fn repo_remote_set_url(repo: &git2::Repository, name: &str, url: &str) -> Result<
    (),
    git2::Error,
> {
    repo.remote_set_url(name, url)
}

/// Relies on git2::Repository::remote_set_pushurl: sets the push URL of the
/// existing remote `name`; `None` clears it.
#[verifier::external_body]
pub(crate) fn repo_remote_set_pushurl(
    repo: &git2::Repository,
    name: &str,
    push_url: Option<&str>,
) -> Result<(), git2::Error> {
    repo.remote_set_pushurl(name, push_url)
}

/// Relies on git2::Repository::remote_delete: deletes the existing remote
/// `name`, with its configuration; fails if it does not exist.
#[verifier::external_body]
pub(crate) fn repo_remote_delete(repo: &git2::Repository, name: &str) -> Result<(), git2::Error> {
    repo.remote_delete(name)
}

/// Relies on git2::Repository::submodules: loads all registered submodules.
#[verifier::external_body]
pub(crate) fn repo_submodules<'r>(repo: &'r git2::Repository) -> Result<
    Vec<git2::Submodule<'r>>,
    git2::Error,
> {
    repo.submodules()
}

/// Relies on git2::Submodule::name: the path the submodule is registered
/// under; empty when that name is not valid UTF-8.
#[verifier::external_body]
pub(crate) fn submodule_name(sub: &git2::Submodule<'_>) -> String {
    sub.name().unwrap_or_default().to_string()
}

/// Relies on git2::Submodule::open: opens the submodule's repository, which
/// only works when it is checked out in the working directory.
#[verifier::external_body]
pub(crate) fn submodule_open(sub: &git2::Submodule<'_>) -> Result<git2::Repository, git2::Error> {
    sub.open()
}

/// Open the repository at `path`, or discover one from the current working
/// directory when no path is given.
pub fn open_repo(path: Option<&String>) -> (r: Result<git2::Repository, GemoteError>)
    ensures
        r matches Err(e) ==> e is RepoNotFound,
{
    let raw = match path {
        Some(p) => repo_open(p.as_str()),
        None => repo_discover("."),
    };
    match raw {
        Ok(repo) => Ok(repo),
        Err(e) => Err(GemoteError::RepoNotFound(e)),
    }
}

/// The position of the first entry that does not come strictly before `name`.
fn find_insert_pos(list: &Vec<(String, RemoteInfo)>, name: &String) -> (r: usize)
    ensures
        r <= list@.len(),
        forall|i: int| 0 <= i < r ==> lex_lt((#[trigger] list.deep_view()[i]).0, name@),
        r < list@.len() ==> !lex_lt(list.deep_view()[r as int].0, name@),
{
    let n = list.len();
    let mut k: usize = 0;
    while k < n
        invariant
            k <= n,
            n == list@.len(),
            forall|i: int| 0 <= i < k ==> lex_lt((#[trigger] list.deep_view()[i]).0, name@),
        decreases n - k,
    {
        if !str_lt(list[k].0.as_str(), name.as_str()) {
            return k;
        }
        k = k + 1;
    }
    k
}

/// Insert one remote into a name-sorted snapshot, replacing the entry when
/// the name is already present: the snapshot stays strictly sorted, the name
/// now maps to the given remote, and every other name keeps its value.
fn insert_remote_sorted(list: &mut Vec<(String, RemoteInfo)>, name: String, info: RemoteInfo)
    requires
        sorted_keys(old(list).deep_view()),
    ensures
        sorted_keys(final(list).deep_view()),
        assoc_lookup(final(list).deep_view(), name@) == Some(info@),
        forall|q: Seq<char>|
            q != name@ ==> #[trigger] assoc_lookup(final(list).deep_view(), q) == assoc_lookup(
                old(list).deep_view(),
                q,
            ),
{
    let ghost old_dv = list.deep_view();
    let ghost e = (name@, info@);
    let n = list.len();
    let k = find_insert_pos(list, &name);
    let same_name = k < n && list[k].0 == name;
    if same_name {
        list.set(k, (name, info));
        proof {
            let dv = list.deep_view();
            assert(old_dv[k as int].0 == name@);
            assert(dv =~= old_dv.update(k as int, e));
            assert forall|i: int| 0 <= i < k as int implies (#[trigger] dv[i]).0 != name@ by {
                assert(dv[i] == old_dv[i]);
                lemma_lex_lt_irreflexive(name@);
                if old_dv[i].0 == name@ {
                    assert(lex_lt(name@, name@));
                }
            }
            assert(dv[k as int] == e);
            lemma_assoc_lookup_first_hit(dv, name@, k as int);
            assert forall|q: Seq<char>| q != name@ implies #[trigger] assoc_lookup(dv, q)
                == assoc_lookup(old_dv, q) by {
                lemma_assoc_lookup_update_other(old_dv, k as int, e, q);
            }
            assert forall|i: int, j: int| 0 <= i < j < dv.len() implies lex_lt(
                (#[trigger] dv[i]).0,
                (#[trigger] dv[j]).0,
            ) by {
                if i != k as int {
                    assert(dv[i].0 == old_dv[i].0);
                }
                if j != k as int {
                    assert(dv[j].0 == old_dv[j].0);
                }
            }
        }
    } else {
        proof {
            if k < n {
                if !lex_lt(name@, list.deep_view()[k as int].0) {
                    lemma_lex_lt_connected(name@, list.deep_view()[k as int].0);
                }
                assert(lex_lt(name@, list.deep_view()[k as int].0));
            }
        }
        list.insert(k, (name, info));
        proof {
            let dv = list.deep_view();
            assert(dv =~= old_dv.insert(k as int, e));
            assert forall|i: int| 0 <= i < k as int implies (#[trigger] dv[i]).0 != name@ by {
                assert(dv[i] == old_dv[i]);
                lemma_lex_lt_irreflexive(name@);
                if old_dv[i].0 == name@ {
                    assert(lex_lt(name@, name@));
                }
            }
            assert(dv[k as int] == e);
            lemma_assoc_lookup_first_hit(dv, name@, k as int);
            assert forall|q: Seq<char>| q != name@ implies #[trigger] assoc_lookup(dv, q)
                == assoc_lookup(old_dv, q) by {
                lemma_assoc_lookup_insert_other(old_dv, k as int, e, q);
            }
            assert forall|i: int, j: int| 0 <= i < j < dv.len() implies lex_lt(
                (#[trigger] dv[i]).0,
                (#[trigger] dv[j]).0,
            ) by {
                if i < k as int && j == k as int {
                    assert(dv[i].0 == old_dv[i].0);
                } else if i == k as int && j > k as int {
                    assert(dv[j].0 == old_dv[j - 1].0);
                    if k < n {
                        if j - 1 > k as int {
                            lemma_lex_lt_transitive(name@, old_dv[k as int].0, old_dv[j - 1].0);
                        }
                    }
                } else if i < k as int && j > k as int {
                    assert(dv[i].0 == old_dv[i].0);
                    assert(dv[j].0 == old_dv[j - 1].0);
                } else if i > k as int {
                    assert(dv[i].0 == old_dv[i - 1].0);
                    assert(dv[j].0 == old_dv[j - 1].0);
                } else {
                    assert(dv[i].0 == old_dv[i].0);
                    assert(dv[j].0 == old_dv[j].0);
                }
            }
        }
    }
}

/// Snapshot the repository's remotes: each name with its fetch URL and its
/// optional push URL, in strictly ascending name order.
pub fn list_remotes(repo: &git2::Repository) -> (r: Result<
    Vec<(String, RemoteInfo)>,
    GemoteError,
>)
    ensures
        r matches Ok(l) ==> sorted_keys(l.deep_view()),
        r matches Err(e) ==> e is Git,
{
    let names = match repo_remote_names(repo) {
        Ok(names) => names,
        Err(e) => {
            return Err(GemoteError::Git(e));
        },
    };
    let mut list: Vec<(String, RemoteInfo)> = Vec::new();
    assert(list.deep_view() =~= Seq::<(Seq<char>, RemoteStateV)>::empty());
    let n = names.len();
    let mut i: usize = 0;
    while i < n
        invariant
            i <= n,
            n == names@.len(),
            sorted_keys(list.deep_view()),
        decreases n - i,
    {
        let name = names[i].clone();
        match repo_remote_urls(repo, name.as_str()) {
            Ok((url, push_url)) => {
                insert_remote_sorted(&mut list, name, RemoteInfo { url, push_url });
            },
            Err(e) => {
                return Err(GemoteError::Git(e));
            },
        }
        i = i + 1;
    }
    Ok(list)
}

/// Create remote `name` with `url`, and set its push URL when one is given.
/// Fails if a remote with that name already exists.
pub fn add_remote(
    repo: &git2::Repository,
    name: &str,
    url: &str,
    push_url: Option<&str>,
) -> (r: Result<(), GemoteError>)
    ensures
        r matches Err(e) ==> e is Git,
{
    match repo_remote_create(repo, name, url) {
        Ok(()) => {},
        Err(e) => {
            return Err(GemoteError::Git(e));
        },
    }
    if let Some(push) = push_url {
        match repo_remote_set_pushurl(repo, name, Some(push)) {
            Ok(()) => {},
            Err(e) => {
                return Err(GemoteError::Git(e));
            },
        }
    }
    Ok(())
}

/// Set the fetch URL of the existing remote `name`.
pub fn update_remote_url(repo: &git2::Repository, name: &str, url: &str) -> (r: Result<
    (),
    GemoteError,
>)
    ensures
        r matches Err(e) ==> e is Git,
{
    match repo_remote_set_url(repo, name, url) {
        Ok(()) => Ok(()),
        Err(e) => Err(GemoteError::Git(e)),
    }
}

/// Set the push URL of the existing remote `name`; `None` clears it, so that
/// pushes fall back to the fetch URL.
pub fn update_remote_push_url(
    repo: &git2::Repository,
    name: &str,
    push_url: Option<&str>,
) -> (r: Result<(), GemoteError>)
    ensures
        r matches Err(e) ==> e is Git,
{
    match repo_remote_set_pushurl(repo, name, push_url) {
        Ok(()) => Ok(()),
        Err(e) => Err(GemoteError::Git(e)),
    }
}

/// Delete the existing remote `name`. Fails if it does not exist.
pub fn remove_remote(repo: &git2::Repository, name: &str) -> (r: Result<(), GemoteError>)
    ensures
        r matches Err(e) ==> e is Git,
{
    match repo_remote_delete(repo, name) {
        Ok(()) => Ok(()),
        Err(e) => Err(GemoteError::Git(e)),
    }
}

/// The registered submodules that can be opened, each under its registered
/// path, together with one diagnostic per submodule that could not be opened
/// (for example, one not yet initialized on disk).
pub fn list_submodules(repo: &git2::Repository) -> (r: Result<
    (Vec<SubRepoInfo>, Vec<String>),
    GemoteError,
>)
    ensures
        r matches Err(e) ==> e is Git,
{
    let subs = match repo_submodules(repo) {
        Ok(subs) => subs,
        Err(e) => {
            return Err(GemoteError::Git(e));
        },
    };
    let mut result: Vec<SubRepoInfo> = Vec::new();
    let mut diagnostics: Vec<String> = Vec::new();
    let n = subs.len();
    let mut i: usize = 0;
    while i < n
        invariant
            i <= n,
            n == subs@.len(),
        decreases n - i,
    {
        let name = submodule_name(&subs[i]);
        match submodule_open(&subs[i]) {
            Ok(sub_repo) => {
                result.push(SubRepoInfo { path: name, repo: sub_repo });
            },
            Err(_) => {
                let mut d = String::from_str("skipping uninitialized submodule '");
                d.append(name.as_str());
                d.append("'");
                diagnostics.push(d);
            },
        }
        i = i + 1;
    }
    Ok((result, diagnostics))
}

/// The paths of a sub-repository list, in order.
pub open spec fn repo_paths(s: Seq<SubRepoInfo>) -> Seq<Seq<char>> {
    s.map_values(|x: SubRepoInfo| x.path@)
}

/// The paths of `s` are strictly ascending (hence unique).
pub open spec fn sorted_repo_paths(s: Seq<SubRepoInfo>) -> bool {
    forall|i: int, j: int|
        0 <= i < j < s.len() ==> lex_lt((#[trigger] s[i]).path@, (#[trigger] s[j]).path@)
}

/// The first entry of `s` whose path is `p`, if any.
pub open spec fn lookup_repo(s: Seq<SubRepoInfo>, p: Seq<char>) -> Option<SubRepoInfo>
    decreases s.len(),
{
    if s.len() == 0 {
        None
    } else if s[0].path@ == p {
        Some(s[0])
    } else {
        lookup_repo(s.drop_first(), p)
    }
}

proof fn lemma_lookup_repo_first_hit(s: Seq<SubRepoInfo>, p: Seq<char>, j: int)
    requires
        0 <= j < s.len(),
        s[j].path@ == p,
        forall|k: int| 0 <= k < j ==> (#[trigger] s[k]).path@ != p,
    ensures
        lookup_repo(s, p) == Some(s[j]),
    decreases j,
{
    if j > 0 {
        assert(s[0].path@ != p);
        assert forall|k: int| 0 <= k < j - 1 implies (#[trigger] s.drop_first()[k]).path@ != p by {
            assert(s.drop_first()[k] == s[k + 1]);
        }
        assert(s.drop_first()[j - 1] == s[j]);
        lemma_lookup_repo_first_hit(s.drop_first(), p, j - 1);
    }
}

/// The position of the first entry whose path does not come strictly before
/// `path`.
fn find_repo_insert_pos(list: &Vec<SubRepoInfo>, path: &String) -> (r: usize)
    ensures
        r <= list@.len(),
        forall|i: int| 0 <= i < r ==> lex_lt((#[trigger] list@[i]).path@, path@),
        r < list@.len() ==> !lex_lt(list@[r as int].path@, path@),
{
    let n = list.len();
    let mut k: usize = 0;
    while k < n
        invariant
            k <= n,
            n == list@.len(),
            forall|i: int| 0 <= i < k ==> lex_lt((#[trigger] list@[i]).path@, path@),
        decreases n - k,
    {
        if !str_lt(list[k].path.as_str(), path.as_str()) {
            return k;
        }
        k = k + 1;
    }
    k
}

/// Merge the registered sub-repositories with the filesystem-discovered
/// ones: one entry per path, the first occurrence winning (registered
/// entries come first, so they win ties), sorted ascending by path.
pub fn merge_repo_lists(subs: Vec<SubRepoInfo>, nested: Vec<SubRepoInfo>) -> (r: Vec<SubRepoInfo>)
    ensures
        sorted_repo_paths(r@),
        forall|p: Seq<char>|
            repo_paths(r@).contains(p) <==> repo_paths(subs@ + nested@).contains(p),
        forall|j: int|
            0 <= j < r@.len() ==> lookup_repo(subs@ + nested@, (#[trigger] r@[j]).path@) == Some(
                r@[j],
            ),
{
    let mut all = subs;
    let mut rest = nested;
    let ghost subs_v = all@;
    let ghost nested_v = rest@;
    all.append(&mut rest);
    let ghost all_v = all@;
    assert(all_v == subs_v + nested_v);
    let mut out: Vec<SubRepoInfo> = Vec::new();
    let ghost mut t: int = 0;
    proof {
        assert(all@ =~= all_v.skip(0));
        assert(repo_paths(out@).len() == 0);
        assert(repo_paths(all_v.take(0)).len() == 0);
    }
    while all.len() > 0
        invariant
            0 <= t <= all_v.len(),
            all@ == all_v.skip(t),
            t == all_v.len() - all@.len(),
            sorted_repo_paths(out@),
            forall|p: Seq<char>|
                repo_paths(out@).contains(p) <==> repo_paths(all_v.take(t)).contains(p),
            forall|j: int|
                0 <= j < out@.len() ==> lookup_repo(all_v, (#[trigger] out@[j]).path@) == Some(
                    out@[j],
                ),
        decreases all@.len(),
    {
        let ghost old_out = out@;
        let item = all.remove(0);
        proof {
            assert(all_v.skip(t)[0] == all_v[t]);
            assert(item == all_v[t]);
            assert(all@ =~= all_v.skip(t + 1));
            assert(repo_paths(all_v.take(t + 1)) =~= repo_paths(all_v.take(t)).push(item.path@));
        }
        let ghost p = item.path@;
        let k = find_repo_insert_pos(&out, &item.path);
        let dup = k < out.len() && out[k].path == item.path;
        if dup {
            proof {
                assert(repo_paths(out@)[k as int] == p);
                assert(repo_paths(out@).contains(p));
                assert forall|q: Seq<char>| repo_paths(out@).contains(q) <==> repo_paths(
                    all_v.take(t + 1),
                ).contains(q) by {
                    let taken = repo_paths(all_v.take(t));
                    let taken1 = repo_paths(all_v.take(t + 1));
                    if taken1.contains(q) {
                        let w = choose|w: int| 0 <= w < taken1.len() && taken1[w] == q;
                        if w < taken.len() {
                            assert(taken[w] == q);
                        } else {
                            assert(q == p);
                        }
                    }
                    if repo_paths(out@).contains(q) {
                        let w = choose|w: int| 0 <= w < taken.len() && taken[w] == q;
                        assert(taken1[w] == q);
                    }
                }
            }
        } else {
            proof {
                // the new path is not among the output paths yet
                assert forall|i: int| 0 <= i < out@.len() implies (#[trigger] out@[i]).path@
                    != p by {
                    if i < k as int {
                        lemma_lex_lt_irreflexive(out@[i].path@);
                    } else if i == k as int {
                    } else {
                        if !lex_lt(p, out@[k as int].path@) {
                            lemma_lex_lt_connected(p, out@[k as int].path@);
                        }
                        lemma_lex_lt_transitive(p, out@[k as int].path@, out@[i].path@);
                        lemma_lex_lt_irreflexive(p);
                    }
                }
                if k < out.len() {
                    if !lex_lt(p, out@[k as int].path@) {
                        lemma_lex_lt_connected(p, out@[k as int].path@);
                    }
                    assert(lex_lt(p, out@[k as int].path@));
                }
                // the new path is new among the processed entries too
                assert(!repo_paths(out@).contains(p));
                assert forall|w: int| 0 <= w < t implies (#[trigger] all_v[w]).path@ != p by {
                    if all_v[w].path@ == p {
                        assert(repo_paths(all_v.take(t))[w] == p);
                        assert(repo_paths(all_v.take(t)).contains(p));
                    }
                }
                lemma_lookup_repo_first_hit(all_v, p, t);
            }
            out.insert(k, item);
            proof {
                let dv = out@;
                assert(dv[k as int].path@ == p);
                assert forall|i: int, j: int| 0 <= i < j < dv.len() implies lex_lt(
                    (#[trigger] dv[i]).path@,
                    (#[trigger] dv[j]).path@,
                ) by {
                    if i < k as int && j == k as int {
                        assert(dv[i] == old_out[i]);
                    } else if i == k as int && j > k as int {
                        assert(dv[j] == old_out[j - 1]);
                        if j - 1 > k as int {
                            lemma_lex_lt_transitive(p, old_out[k as int].path@, old_out[j - 1].path@);
                        }
                    } else if i < k as int && j > k as int {
                        assert(dv[i] == old_out[i]);
                        assert(dv[j] == old_out[j - 1]);
                    } else if i > k as int {
                        assert(dv[i] == old_out[i - 1]);
                        assert(dv[j] == old_out[j - 1]);
                    } else {
                        assert(dv[i] == old_out[i]);
                        assert(dv[j] == old_out[j]);
                    }
                }
                assert forall|q: Seq<char>| repo_paths(out@).contains(q) <==> repo_paths(
                    all_v.take(t + 1),
                ).contains(q) by {
                    let taken = repo_paths(all_v.take(t));
                    let taken1 = repo_paths(all_v.take(t + 1));
                    if taken1.contains(q) {
                        let w = choose|w: int| 0 <= w < taken1.len() && taken1[w] == q;
                        if w < taken.len() {
                            assert(taken[w] == q);
                            assert(taken.contains(q));
                            assert(repo_paths(old_out).contains(q));
                            let u = choose|u: int|
                                0 <= u < repo_paths(old_out).len() && repo_paths(old_out)[u] == q;
                            if u < k as int {
                                assert(out@[u] == old_out[u]);
                                assert(repo_paths(out@)[u] == q);
                            } else {
                                assert(out@[u + 1] == old_out[u]);
                                assert(repo_paths(out@)[u + 1] == q);
                            }
                        } else {
                            assert(q == p);
                            assert(repo_paths(out@)[k as int] == p);
                        }
                    }
                    if repo_paths(out@).contains(q) {
                        let w = choose|w: int|
                            0 <= w < repo_paths(out@).len() && repo_paths(out@)[w] == q;
                        if w == k as int {
                            assert(q == p);
                            assert(taken1[t] == p);
                        } else {
                            let u: int = if w < k as int {
                                w
                            } else {
                                w - 1
                            };
                            assert(out@[w] == old_out[u]);
                            assert(repo_paths(old_out)[u] == q);
                            assert(repo_paths(old_out).contains(q));
                            let v = choose|v: int| 0 <= v < taken.len() && taken[v] == q;
                            assert(taken1[v] == q);
                        }
                    }
                }
                assert forall|j: int| 0 <= j < out@.len() implies lookup_repo(
                    all_v,
                    (#[trigger] out@[j]).path@,
                ) == Some(out@[j]) by {
                    if j < k as int {
                        assert(out@[j] == old_out[j]);
                    } else if j > k as int {
                        assert(out@[j] == old_out[j - 1]);
                    }
                }
            }
        }
        proof {
            t = t + 1;
        }
    }
    proof {
        assert(all_v.take(all_v.len() as int) =~= all_v);
    }
    out
}

/// `m` picks, strictly left to right, the positions in `b` where the
/// elements of `a` stand.
pub open spec fn subsequence_map(m: Seq<int>, a: Seq<Seq<char>>, b: Seq<Seq<char>>) -> bool {
    &&& m.len() == a.len()
    &&& forall|k: int| 0 <= k < m.len() ==> 0 <= (#[trigger] m[k]) < b.len() && b[m[k]] == a[k]
    &&& forall|k1: int, k2: int|
        0 <= k1 < k2 < m.len() ==> (#[trigger] m[k1]) < (#[trigger] m[k2])
}

/// `a` is a subsequence of `b`: its elements occur in `b` in the same order.
pub open spec fn subsequence_of(a: Seq<Seq<char>>, b: Seq<Seq<char>>) -> bool {
    exists|m: Seq<int>| subsequence_map(m, a, b)
}

/// The diagnostic for a discovered repository that could not be opened.
pub open spec fn spec_warn_open_failed(path: Seq<char>) -> Seq<char> {
    "could not open nested repo '"@ + path + "'"@
}

/// `msg` is the open-failure diagnostic of one of the scanned paths.
pub open spec fn names_scanned_failure(msg: Seq<char>, scanned: Seq<Seq<char>>) -> bool {
    exists|c: int| 0 <= c < scanned.len() && msg == spec_warn_open_failed(#[trigger] scanned[c])
}

/// Open each discovered nested repository below `repo_root`. Every scanned
/// path yields exactly one outcome: an opened entry, or one diagnostic
/// naming a scanned repository that could not be opened. The entries' paths
/// are a subsequence of the scanned paths, in scan order.
pub fn discover_nested_repos(
    repo_root: &String,
    tree: &DirTree,
    known_paths: &Vec<String>,
) -> (r: (Vec<SubRepoInfo>, Vec<String>))
    ensures
        r.0@.len() + r.1@.len() == spec_discovered_paths(*tree, known_paths.deep_view()).len(),
        subsequence_of(repo_paths(r.0@), spec_discovered_paths(*tree, known_paths.deep_view())),
        forall|j: int|
            0 <= j < r.0@.len() ==> spec_discovered_paths(*tree, known_paths.deep_view()).contains(
                (#[trigger] r.0@[j]).path@,
            ),
        forall|k: int|
            0 <= k < r.1@.len() ==> names_scanned_failure(
                (#[trigger] r.1@[k])@,
                spec_discovered_paths(*tree, known_paths.deep_view()),
            ),
{
    let paths = discover_nested_paths(tree, known_paths);
    let ghost discovered = spec_discovered_paths(*tree, known_paths.deep_view());
    let mut out: Vec<SubRepoInfo> = Vec::new();
    let mut diagnostics: Vec<String> = Vec::new();
    let ghost mut idxs: Seq<int> = Seq::<int>::empty();
    let ghost mut dsrc: Seq<int> = Seq::<int>::empty();
    let n = paths.len();
    let mut i: usize = 0;
    proof {
        assert(repo_paths(out@) =~= Seq::<Seq<char>>::empty());
    }
    while i < n
        invariant
            i <= n,
            n == paths@.len(),
            paths.deep_view() == discovered,
            out@.len() + diagnostics@.len() == i,
            dsrc.len() == diagnostics@.len(),
            forall|k: int|
                0 <= k < dsrc.len() ==> 0 <= (#[trigger] dsrc[k]) < discovered.len()
                    && diagnostics@[k]@ == spec_warn_open_failed(discovered[dsrc[k]]),
            subsequence_map(idxs, repo_paths(out@), discovered),
            forall|k: int| 0 <= k < idxs.len() ==> (#[trigger] idxs[k]) < i,
            forall|j: int|
                0 <= j < out@.len() ==> discovered.contains((#[trigger] out@[j]).path@),
        decreases n - i,
    {
        let rel = paths[i].clone();
        let mut full = repo_root.clone();
        full.append("/");
        full.append(rel.as_str());
        match repo_open(full.as_str()) {
            Ok(repo) => {
                let ghost old_paths = repo_paths(out@);
                proof {
                    assert(paths.deep_view()[i as int] == rel@);
                }
                out.push(SubRepoInfo { path: rel, repo });
                proof {
                    assert(repo_paths(out@) =~= old_paths.push(discovered[i as int]));
                    idxs = idxs.push(i as int);
                }
            },
            Err(_) => {
                let ghost old_diags = diagnostics@;
                let mut d = String::from_str("could not open nested repo '");
                d.append(rel.as_str());
                d.append("'");
                proof {
                    assert(paths.deep_view()[i as int] == rel@);
                    assert(d@ =~= spec_warn_open_failed(discovered[i as int]));
                }
                diagnostics.push(d);
                proof {
                    dsrc = dsrc.push(i as int);
                    assert forall|k: int|
                        0 <= k < dsrc.len() implies 0 <= (#[trigger] dsrc[k]) < discovered.len()
                            && diagnostics@[k]@ == spec_warn_open_failed(
                            discovered[dsrc[k]],
                        ) by {
                        if k < old_diags.len() {
                            assert(diagnostics@[k] == old_diags[k]);
                        } else {
                            assert(diagnostics@[k]@ == spec_warn_open_failed(
                                discovered[i as int],
                            ));
                        }
                    }
                }
            },
        }
        i = i + 1;
    }
    proof {
        assert(subsequence_of(repo_paths(out@), discovered));
        assert forall|k: int| 0 <= k < diagnostics@.len() implies names_scanned_failure(
            (#[trigger] diagnostics@[k])@,
            spec_discovered_paths(*tree, known_paths.deep_view()),
        ) by {
            let c0 = dsrc[k];
            assert(0 <= c0 < discovered.len() && diagnostics@[k]@ == spec_warn_open_failed(
                discovered[c0],
            ));
        }
    }
    (out, diagnostics)
}

/// All directly nested repositories of one repository: its registered
/// submodules plus the nested repositories discovered on disk, one entry per
/// path with registered entries winning ties, sorted ascending by path;
/// beside them, the diagnostics the walk produced.
pub fn collect_all_repos(
    repo: &git2::Repository,
    repo_root: &String,
    tree: &DirTree,
) -> (r: Result<(Vec<SubRepoInfo>, Vec<String>), GemoteError>)
    ensures
        r matches Ok(pair) ==> sorted_repo_paths(pair.0@),
        r matches Err(e) ==> e is Git,
{
    let (subs, mut diagnostics) = match list_submodules(repo) {
        Ok(x) => x,
        Err(e) => {
            return Err(e);
        },
    };
    let mut known: Vec<String> = Vec::new();
    let n = subs.len();
    let mut i: usize = 0;
    while i < n
        invariant
            i <= n,
            n == subs@.len(),
        decreases n - i,
    {
        known.push(subs[i].path.clone());
        i = i + 1;
    }
    let (nested, mut nested_diagnostics) = discover_nested_repos(repo_root, tree, &known);
    diagnostics.append(&mut nested_diagnostics);
    let merged = merge_repo_lists(subs, nested);
    Ok((merged, diagnostics))
}

} // verus!

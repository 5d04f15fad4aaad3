//! The recursive orchestrator: one reconciliation pass per repository,
//! walking the configuration tree in lockstep with the discovered repository
//! tree, and the reverse walk that snapshots a repository tree into a
//! configuration.
//!
//! Each node yields one report: the corrective actions computed for it, the
//! diagnostics raised at it, whether the actions were applied, and the
//! failure that abandoned its subtree, if any. Diagnostics never become
//! actions. A structural mismatch (a configured path with no repository, or
//! a discovered repository with no configuration) is reported and the pair
//! is skipped; an undeclared nested repository is never reconciled.

use vstd::prelude::*;
use vstd::string::StringExecFns;

use crate::config::{sorted_keys, ExtraRemotes, GemoteConfig, RemoteConfig, RemoteStateV, Settings};
use crate::discover::{child_rel_path, join_path, spec_tree_height, subtree_at, DirTree};
use crate::order::lex_lt;
use crate::error::GemoteError;
use crate::git::{
    collect_all_repos, list_remotes, repo_paths, sorted_repo_paths, RemoteInfo, SubRepoInfo,
};
use crate::sync::{
    apply_actions, clone_opt, compute_diff, extra_remote_warnings, spec_diff, spec_warnings,
    SyncAction,
};

verus! {

/// What one reconciliation pass reports for one node: the node's display
/// path, the corrective actions computed for it, the diagnostics raised at
/// it, whether the actions were applied, and the failure that abandoned its
/// subtree, if any.
pub struct NodeReport {
    pub path: String,
    pub actions: Vec<SyncAction>,
    pub warnings: Vec<String>,
    pub applied: bool,
    pub error: Option<String>,
}

/// The diagnostic for a local remote the configuration does not mention.
pub open spec fn spec_warn_extra_remote(name: Seq<char>) -> Seq<char> {
    "remote '"@ + name + "' exists locally but not in config"@
}

fn warn_extra_remote(name: &String) -> (r: String)
    ensures
        r@ == spec_warn_extra_remote(name@),
{
    let mut s = String::from_str("remote '");
    s.append(name.as_str());
    s.append("' exists locally but not in config");
    assert(s@ =~= spec_warn_extra_remote(name@));
    s
}

/// The diagnostic for a configured sub-repository path with no repository.
pub open spec fn spec_warn_missing_repo(path: Seq<char>) -> Seq<char> {
    "config has submodule section '"@ + path + "' but no matching repo found"@
}

fn warn_missing_repo(path: &String) -> (r: String)
    ensures
        r@ == spec_warn_missing_repo(path@),
{
    let mut s = String::from_str("config has submodule section '");
    s.append(path.as_str());
    s.append("' but no matching repo found");
    assert(s@ =~= spec_warn_missing_repo(path@));
    s
}

/// The diagnostic for a discovered repository with no configuration entry.
pub open spec fn spec_warn_unconfigured(path: Seq<char>) -> Seq<char> {
    "discovered repo '"@ + path + "' has no config section (skipping)"@
}

fn warn_unconfigured(path: &String) -> (r: String)
    ensures
        r@ == spec_warn_unconfigured(path@),
{
    let mut s = String::from_str("discovered repo '");
    s.append(path.as_str());
    s.append("' has no config section (skipping)");
    assert(s@ =~= spec_warn_unconfigured(path@));
    s
}

/// The extra-remote diagnostics rendered for one snapshot, in order.
pub open spec fn spec_rendered_warnings(
    policy: ExtraRemotes,
    desired: Seq<(Seq<char>, RemoteStateV)>,
    local: Seq<(Seq<char>, RemoteStateV)>,
) -> Seq<Seq<char>> {
    spec_warnings(policy, desired, local).map_values(|n: Seq<char>| spec_warn_extra_remote(n))
}

/// The report's actions are exactly the diff of the configuration node
/// against some sorted snapshot of local remotes, and its warnings begin
/// with that snapshot's rendered extra-remote diagnostics (structural
/// diagnostics may follow them).
pub open spec fn report_reflects_config(cfg: GemoteConfig, rep: NodeReport) -> bool {
    exists|l: Seq<(Seq<char>, RemoteStateV)>|
        {
            &&& sorted_keys(l)
            &&& rep.actions.deep_view() == #[trigger] spec_diff(
                cfg.settings.extra_remotes,
                cfg.remotes.deep_view(),
                l,
            )
            &&& spec_rendered_warnings(
                cfg.settings.extra_remotes,
                cfg.remotes.deep_view(),
                l,
            ).is_prefix_of(rep.warnings.deep_view())
        }
}

/// `p` names a configured node of the walk rooted at `cfg` under `prefix`:
/// the node itself, or, recursively, a configured node below one of its
/// declared sub-repository entries. Reports are only ever written for
/// configured nodes; an undeclared nested repository is never reconciled.
pub open spec fn configured_node_path(cfg: GemoteConfig, prefix: Seq<char>, p: Seq<char>) -> bool
    decreases cfg,
{
    ||| p == prefix
    ||| exists|j: int|
        0 <= j < cfg.submodules.len() && configured_node_path(
            (#[trigger] cfg.submodules[j]).1,
            child_rel_path(prefix, cfg.submodules[j].0@),
            p,
        )
}

/// Whether the configuration declares a sub-repository at path `p`.
pub open spec fn submodules_contain(cfg: GemoteConfig, p: Seq<char>) -> bool {
    exists|j: int| 0 <= j < cfg.submodules.len() && (#[trigger] cfg.submodules[j]).0@ == p
}

/// One witness of a node's discovery outcome: `d` holds the discovered child
/// paths in ascending order and `m` places the configured children's
/// reports. Every discovered child with a configuration entry has a report
/// strictly after the node's own report at `lo`, under its extended path,
/// children in ascending path order, and — unless that pass failed — the
/// report reflects the child's own configuration node; every discovered
/// child without an entry is named in a "no config section" diagnostic of
/// the node's report and is never reconciled; every configured path that was
/// not discovered is named in a "no matching repo" diagnostic.
pub open spec fn children_accounted(
    cfg: GemoteConfig,
    prefix: Seq<char>,
    reports: Seq<NodeReport>,
    lo: int,
    d: Seq<Seq<char>>,
    m: Seq<int>,
) -> bool {
    &&& 0 <= lo < reports.len()
    &&& forall|c1: int, c2: int|
        0 <= c1 < c2 < d.len() ==> lex_lt(#[trigger] d[c1], #[trigger] d[c2])
    &&& m.len() == d.len()
    &&& forall|c: int|
        0 <= c < d.len() && submodules_contain(cfg, #[trigger] d[c]) ==> lo < m[c]
            < reports.len() && reports[m[c]].path@ == child_rel_path(prefix, d[c])
    &&& forall|c1: int, c2: int|
        0 <= c1 < c2 < d.len() && submodules_contain(cfg, #[trigger] d[c1])
            && submodules_contain(cfg, #[trigger] d[c2]) ==> m[c1] < m[c2]
    &&& forall|c: int|
        0 <= c < d.len() && submodules_contain(cfg, #[trigger] d[c]) ==> exists|j: int|
            0 <= j < cfg.submodules.len() && (#[trigger] cfg.submodules[j]).0@ == d[c] && (
            reports[m[c]].error is None ==> report_reflects_config(
                cfg.submodules[j].1,
                reports[m[c]],
            ))
    &&& forall|c: int|
        0 <= c < d.len() && !submodules_contain(cfg, #[trigger] d[c])
            ==> reports[lo].warnings.deep_view().contains(
            spec_warn_unconfigured(child_rel_path(prefix, d[c])),
        )
    &&& forall|j: int|
        0 <= j < cfg.submodules.len() ==> d.contains((#[trigger] cfg.submodules[j]).0@)
            || reports[lo].warnings.deep_view().contains(
            spec_warn_missing_repo(cfg.submodules[j].0@),
        )
}

proof fn lemma_contains_push<A>(s: Seq<A>, x: A, y: A)
    requires
        s.contains(y),
    ensures
        s.push(x).contains(y),
{
    let w = choose|w: int| 0 <= w < s.len() && s[w] == y;
    assert(s.push(x)[w] == y);
}

proof fn lemma_contains_concat_right<A>(a: Seq<A>, b: Seq<A>, y: A)
    requires
        b.contains(y),
    ensures
        (a + b).contains(y),
{
    let w = choose|w: int| 0 <= w < b.len() && b[w] == y;
    assert((a + b)[a.len() + w] == y);
}

/// Index of the configuration entry for the sub-repository path, if any.
fn find_submodule(cfg: &GemoteConfig, path: &String) -> (r: Option<usize>)
    ensures
        match r {
            Some(j) => 0 <= j < cfg.submodules@.len() && cfg.submodules@[j as int].0@ == path@,
            None => forall|k: int|
                0 <= k < cfg.submodules@.len() ==> (#[trigger] cfg.submodules@[k]).0@ != path@,
        },
{
    let n = cfg.submodules.len();
    let mut j: usize = 0;
    while j < n
        invariant
            j <= n,
            n == cfg.submodules@.len(),
            forall|k: int| 0 <= k < j ==> (#[trigger] cfg.submodules@[k]).0@ != path@,
        decreases n - j,
    {
        if cfg.submodules[j].0 == *path {
            return Some(j);
        }
        j = j + 1;
    }
    None
}

/// Whether some discovered sub-repository has this path.
fn subrepos_contain(subrepos: &Vec<SubRepoInfo>, path: &String) -> (r: bool)
    ensures
        r == repo_paths(subrepos@).contains(path@),
{
    let n = subrepos.len();
    let mut j: usize = 0;
    while j < n
        invariant
            j <= n,
            n == subrepos@.len(),
            forall|k: int| 0 <= k < j ==> (#[trigger] subrepos@[k]).path@ != path@,
        decreases n - j,
    {
        if subrepos[j].path == *path {
            assert(repo_paths(subrepos@)[j as int] == path@);
            return true;
        }
        j = j + 1;
    }
    proof {
        if repo_paths(subrepos@).contains(path@) {
            let w = choose|w: int|
                0 <= w < repo_paths(subrepos@).len() && repo_paths(subrepos@)[w] == path@;
            assert(subrepos@[w].path@ == path@);
        }
    }
    false
}

/// One reconciliation pass for a single repository: snapshot the local
/// remotes, diff them against the configuration node, and apply the actions
/// unless this is a dry run. Nothing is applied on a dry run, and nothing is
/// applied when the diff is empty; a failing action leaves the earlier
/// actions committed and is reported in the node's error.
pub fn sync_one_repo(
    repo: &git2::Repository,
    cfg: &GemoteConfig,
    label: Option<&String>,
    dry_run: bool,
) -> (r: Result<NodeReport, GemoteError>)
    ensures
        r matches Ok(rep) ==> {
            &&& rep.applied == (!dry_run && rep.actions@.len() > 0 && rep.error is None)
            &&& (dry_run ==> rep.error is None)
            &&& (rep.error is Some ==> rep.actions@.len() > 0)
            &&& match label {
                Some(l) => rep.path@ == l@,
                None => rep.path@ == Seq::<char>::empty(),
            }
            &&& exists|l: Seq<(Seq<char>, RemoteStateV)>|
                {
                    &&& sorted_keys(l)
                    &&& rep.actions.deep_view() == #[trigger] spec_diff(
                        cfg.settings.extra_remotes,
                        cfg.remotes.deep_view(),
                        l,
                    )
                    &&& rep.warnings.deep_view() == spec_rendered_warnings(
                        cfg.settings.extra_remotes,
                        cfg.remotes.deep_view(),
                        l,
                    )
                }
        },
        r matches Err(e) ==> e is Git,
{
    let local = match list_remotes(repo) {
        Ok(l) => l,
        Err(e) => {
            return Err(e);
        },
    };
    let ghost lv = local.deep_view();
    let actions = compute_diff(cfg, &local);
    let warn_names = extra_remote_warnings(cfg, &local);
    let ghost rendered = spec_rendered_warnings(
        cfg.settings.extra_remotes,
        cfg.remotes.deep_view(),
        lv,
    );
    let mut warnings: Vec<String> = Vec::new();
    let wn = warn_names.len();
    let mut wi: usize = 0;
    proof {
        assert(warnings.deep_view() =~= rendered.take(0));
    }
    while wi < wn
        invariant
            wi <= wn,
            wn == warn_names@.len(),
            warn_names.deep_view() == spec_warnings(
                cfg.settings.extra_remotes,
                cfg.remotes.deep_view(),
                lv,
            ),
            rendered == spec_rendered_warnings(
                cfg.settings.extra_remotes,
                cfg.remotes.deep_view(),
                lv,
            ),
            rendered.len() == wn,
            warnings.deep_view() == rendered.take(wi as int),
        decreases wn - wi,
    {
        let ghost base = warnings.deep_view();
        warnings.push(warn_extra_remote(&warn_names[wi]));
        proof {
            assert(rendered[wi as int] == spec_warn_extra_remote(warn_names.deep_view()[wi as int]));
            assert(warnings.deep_view() =~= base.push(rendered[wi as int]));
            assert(warnings.deep_view() =~= rendered.take(wi as int + 1));
        }
        wi = wi + 1;
    }
    proof {
        assert(rendered.take(wn as int) =~= rendered);
    }
    let path = match label {
        Some(l) => l.clone(),
        None => String::new(),
    };
    let mut applied = false;
    let mut error: Option<String> = None;
    if !dry_run && actions.len() > 0 {
        match apply_actions(repo, actions.as_slice()) {
            Ok(()) => {
                applied = true;
            },
            Err(e) => {
                error = Some(e.message());
            },
        }
    }
    Ok(NodeReport { path, actions, warnings, applied, error })
}

/// Reconcile one node and, below it, every discovered sub-repository that has
/// a configuration entry, appending one report per visited node, parent
/// first, children in ascending path order. Discovery runs at every visited
/// node; every report belongs to a configured node, and when the node's own
/// pass succeeds its discovery outcome is accounted for: configured children
/// are visited, unconfigured ones are named in a diagnostic and skipped, and
/// configured paths with no repository are named in a diagnostic. A node
/// whose pass fails is reported and its subtree is skipped; its siblings are
/// still visited. A failure at this node before anything was reported is
/// returned instead.
fn reconcile_node(
    repo: &git2::Repository,
    repo_root: &String,
    tree: &DirTree,
    cfg: &GemoteConfig,
    path_prefix: &String,
    dry_run: bool,
    at_root: bool,
    reports: &mut Vec<NodeReport>,
) -> (r: Result<(), GemoteError>)
    ensures
        final(reports)@.len() >= old(reports)@.len(),
        forall|j: int|
            0 <= j < old(reports)@.len() ==> final(reports)@[j] == (#[trigger] old(reports)@[j]),
        dry_run ==> forall|j: int|
            old(reports)@.len() <= j < final(reports)@.len()
                ==> !(#[trigger] final(reports)@[j]).applied,
        forall|j: int|
            old(reports)@.len() <= j < final(reports)@.len() ==> configured_node_path(
                *cfg,
                path_prefix@,
                (#[trigger] final(reports)@[j]).path@,
            ),
        r is Ok ==> final(reports)@.len() > old(reports)@.len()
            && final(reports)@[old(reports)@.len() as int].path@ == path_prefix@
            && report_reflects_config(*cfg, final(reports)@[old(reports)@.len() as int]),
        r is Ok && final(reports)@[old(reports)@.len() as int].error is None ==> exists|
            d: Seq<Seq<char>>,
            m: Seq<int>,
        |
            children_accounted(
                *cfg,
                path_prefix@,
                final(reports)@,
                old(reports)@.len() as int,
                d,
                m,
            ),
        r matches Err(e) ==> e is Git,
    decreases *cfg,
{
    let mut rep = match sync_one_repo(repo, cfg, Some(path_prefix), dry_run) {
        Ok(rep) => rep,
        Err(e) => {
            return Err(e);
        },
    };
    let ghost wit = choose|l: Seq<(Seq<char>, RemoteStateV)>|
        {
            &&& sorted_keys(l)
            &&& rep.actions.deep_view() == #[trigger] spec_diff(
                cfg.settings.extra_remotes,
                cfg.remotes.deep_view(),
                l,
            )
            &&& rep.warnings.deep_view() == spec_rendered_warnings(
                cfg.settings.extra_remotes,
                cfg.remotes.deep_view(),
                l,
            )
        };
    let ghost wit_rendered = spec_rendered_warnings(
        cfg.settings.extra_remotes,
        cfg.remotes.deep_view(),
        wit,
    );
    let mut subrepos: Vec<SubRepoInfo> = Vec::new();
    if rep.error.is_none() {
        match collect_all_repos(repo, repo_root, tree) {
            Ok((srs, mut diags)) => {
                subrepos = srs;
                let m = cfg.submodules.len();
                let mut j: usize = 0;
                while j < m
                    invariant
                        j <= m,
                        m == cfg.submodules@.len(),
                        forall|j2: int|
                            0 <= j2 < j ==> repo_paths(subrepos@).contains(
                                (#[trigger] cfg.submodules@[j2]).0@,
                            ) || diags.deep_view().contains(
                                spec_warn_missing_repo(cfg.submodules@[j2].0@),
                            ),
                    decreases m - j,
                {
                    let ghost dpre = diags.deep_view();
                    let missing = !subrepos_contain(&subrepos, &cfg.submodules[j].0);
                    if missing {
                        let msg = warn_missing_repo(&cfg.submodules[j].0);
                        let ghost msg_v = msg@;
                        diags.push(msg);
                        proof {
                            assert(diags.deep_view() =~= dpre.push(msg_v));
                            assert(diags.deep_view()[dpre.len() as int] == msg_v);
                        }
                    }
                    proof {
                        assert forall|j2: int|
                            0 <= j2 <= j implies repo_paths(subrepos@).contains(
                            (#[trigger] cfg.submodules@[j2]).0@,
                        ) || diags.deep_view().contains(
                            spec_warn_missing_repo(cfg.submodules@[j2].0@),
                        ) by {
                            if j2 < j {
                                if !repo_paths(subrepos@).contains(cfg.submodules@[j2].0@) {
                                    if missing {
                                        lemma_contains_push(
                                            dpre,
                                            spec_warn_missing_repo(cfg.submodules@[j as int].0@),
                                            spec_warn_missing_repo(cfg.submodules@[j2].0@),
                                        );
                                    }
                                }
                            } else {
                                if !repo_paths(subrepos@).contains(cfg.submodules@[j2].0@) {
                                    assert(diags.deep_view().contains(
                                        spec_warn_missing_repo(cfg.submodules@[j2].0@),
                                    ));
                                }
                            }
                        }
                    }
                    j = j + 1;
                }
                let s = subrepos.len();
                let mut i: usize = 0;
                while i < s
                    invariant
                        i <= s,
                        s == subrepos@.len(),
                        forall|j2: int|
                            0 <= j2 < cfg.submodules@.len() ==> repo_paths(subrepos@).contains(
                                (#[trigger] cfg.submodules@[j2]).0@,
                            ) || diags.deep_view().contains(
                                spec_warn_missing_repo(cfg.submodules@[j2].0@),
                            ),
                        forall|c: int|
                            0 <= c < i && !submodules_contain(
                                *cfg,
                                (#[trigger] subrepos@[c]).path@,
                            ) ==> diags.deep_view().contains(
                                spec_warn_unconfigured(
                                    child_rel_path(path_prefix@, subrepos@[c].path@),
                                ),
                            ),
                    decreases s - i,
                {
                    let ghost dpre = diags.deep_view();
                    let unconfigured = find_submodule(cfg, &subrepos[i].path).is_none();
                    proof {
                        if !unconfigured && !submodules_contain(*cfg, subrepos@[i as int].path@) {
                            assert(false);
                        }
                    }
                    if unconfigured {
                        let full = join_path(path_prefix, &subrepos[i].path);
                        let msg = warn_unconfigured(&full);
                        let ghost msg_v = msg@;
                        diags.push(msg);
                        proof {
                            assert(diags.deep_view() =~= dpre.push(msg_v));
                            assert(diags.deep_view()[dpre.len() as int] == msg_v);
                        }
                    }
                    proof {
                        assert forall|j2: int|
                            0 <= j2 < cfg.submodules@.len() implies repo_paths(
                            subrepos@,
                        ).contains((#[trigger] cfg.submodules@[j2]).0@) || diags.deep_view(
                        ).contains(spec_warn_missing_repo(cfg.submodules@[j2].0@)) by {
                            if !repo_paths(subrepos@).contains(cfg.submodules@[j2].0@)
                                && unconfigured {
                                lemma_contains_push(
                                    dpre,
                                    spec_warn_unconfigured(
                                        child_rel_path(
                                            path_prefix@,
                                            subrepos@[i as int].path@,
                                        ),
                                    ),
                                    spec_warn_missing_repo(cfg.submodules@[j2].0@),
                                );
                            }
                        }
                        assert forall|c: int|
                            0 <= c <= i && !submodules_contain(
                                *cfg,
                                (#[trigger] subrepos@[c]).path@,
                            ) implies diags.deep_view().contains(
                            spec_warn_unconfigured(
                                child_rel_path(path_prefix@, subrepos@[c].path@),
                            ),
                        ) by {
                            if c < i {
                                if unconfigured {
                                    lemma_contains_push(
                                        dpre,
                                        spec_warn_unconfigured(
                                            child_rel_path(
                                                path_prefix@,
                                                subrepos@[i as int].path@,
                                            ),
                                        ),
                                        spec_warn_unconfigured(
                                            child_rel_path(path_prefix@, subrepos@[c].path@),
                                        ),
                                    );
                                }
                            } else {
                                assert(diags.deep_view()[dpre.len() as int]
                                    == spec_warn_unconfigured(
                                    child_rel_path(path_prefix@, subrepos@[c].path@),
                                ));
                            }
                        }
                    }
                    i = i + 1;
                }
                let ghost w0 = rep.warnings.deep_view();
                let ghost dv = diags.deep_view();
                rep.warnings.append(&mut diags);
                proof {
                    assert(rep.warnings.deep_view() =~= w0 + dv);
                    assert forall|c: int|
                        0 <= c < subrepos@.len() && !submodules_contain(
                            *cfg,
                            (#[trigger] subrepos@[c]).path@,
                        ) implies rep.warnings.deep_view().contains(
                        spec_warn_unconfigured(
                            child_rel_path(path_prefix@, subrepos@[c].path@),
                        ),
                    ) by {
                        lemma_contains_concat_right(
                            w0,
                            dv,
                            spec_warn_unconfigured(
                                child_rel_path(path_prefix@, subrepos@[c].path@),
                            ),
                        );
                    }
                    assert forall|j2: int|
                        0 <= j2 < cfg.submodules@.len() implies repo_paths(subrepos@).contains(
                        (#[trigger] cfg.submodules@[j2]).0@,
                    ) || rep.warnings.deep_view().contains(
                        spec_warn_missing_repo(cfg.submodules@[j2].0@),
                    ) by {
                        if !repo_paths(subrepos@).contains(cfg.submodules@[j2].0@) {
                            lemma_contains_concat_right(
                                w0,
                                dv,
                                spec_warn_missing_repo(cfg.submodules@[j2].0@),
                            );
                        }
                    }
                }
            },
            Err(e) => {
                if at_root {
                    return Err(e);
                }
                rep.error = Some(e.message());
            },
        }
    }
    proof {
        assert(wit_rendered.is_prefix_of(rep.warnings.deep_view())) by {
            assert(rep.warnings.deep_view().take(wit_rendered.len() as int) =~= wit_rendered);
        }
        assert(report_reflects_config(*cfg, rep));
        assert(configured_node_path(*cfg, path_prefix@, rep.path@));
    }
    let failed = rep.error.is_some();
    let ghost rep_v = rep;
    let ghost entry = reports@;
    reports.push(rep);
    proof {
        assert(reports@ == entry.push(rep_v));
        assert(reports@[entry.len() as int] == rep_v);
        assert forall|j: int| 0 <= j < entry.len() implies reports@[j] == (
        #[trigger] entry[j]) by {}
    }
    if failed {
        return Ok(());
    }
    let ghost d = repo_paths(subrepos@);
    let ghost mut mmap: Seq<int> = Seq::<int>::empty();
    let s = subrepos.len();
    let mut i: usize = 0;
    while i < s
        invariant
            i <= s,
            s == subrepos@.len(),
            d == repo_paths(subrepos@),
            reports@.len() > entry.len(),
            forall|j: int| 0 <= j < entry.len() ==> reports@[j] == (#[trigger] entry[j]),
            reports@[entry.len() as int] == rep_v,
            dry_run ==> forall|j: int|
                entry.len() <= j < reports@.len() ==> !(#[trigger] reports@[j]).applied,
            forall|j: int|
                entry.len() <= j < reports@.len() ==> configured_node_path(
                    *cfg,
                    path_prefix@,
                    (#[trigger] reports@[j]).path@,
                ),
            mmap.len() == i as int,
            forall|c: int|
                0 <= c < i && submodules_contain(*cfg, d[c]) ==> entry.len() < (
                #[trigger] mmap[c]) && mmap[c] < reports@.len() && reports@[mmap[c]].path@
                    == child_rel_path(path_prefix@, d[c]),
            forall|c1: int, c2: int|
                0 <= c1 < c2 < i && submodules_contain(*cfg, d[c1]) && submodules_contain(
                    *cfg,
                    d[c2],
                ) ==> (#[trigger] mmap[c1]) < (#[trigger] mmap[c2]),
            forall|c: int|
                0 <= c < i && submodules_contain(*cfg, d[c]) ==> exists|j2: int|
                    0 <= j2 < cfg.submodules@.len() && (#[trigger] cfg.submodules@[j2]).0@
                        == d[c] && (reports@[mmap[c]].error is None ==> report_reflects_config(
                        cfg.submodules@[j2].1,
                        reports@[mmap[c]],
                    )),
        decreases s - i,
    {
        let ghost pre = reports@;
        let sub = &subrepos[i];
        proof {
            assert(d[i as int] == subrepos@[i as int].path@);
        }
        let ghost mut idx: int = 0;
        match find_submodule(cfg, &sub.path) {
            None => {
                proof {
                    if submodules_contain(*cfg, d[i as int]) {
                        let jw = choose|jw: int|
                            0 <= jw < cfg.submodules.len() && (
                            #[trigger] cfg.submodules[jw]).0@ == d[i as int];
                        assert(false);
                    }
                    mmap = mmap.push(0);
                }
            },
            Some(j) => {
                let child_prefix = join_path(path_prefix, &sub.path);
                proof {
                    assert(child_prefix@ == child_rel_path(
                        path_prefix@,
                        cfg.submodules@[j as int].0@,
                    ));
                    assert(submodules_contain(*cfg, d[i as int]));
                }
                let mut child_root = repo_root.clone();
                child_root.append("/");
                child_root.append(sub.path.as_str());
                let empty_prefix = String::new();
                let outcome = match subtree_at(tree, &empty_prefix, &sub.path) {
                    Some(child_tree) => reconcile_node(
                        &sub.repo,
                        &child_root,
                        child_tree,
                        &cfg.submodules[j].1,
                        &child_prefix,
                        dry_run,
                        false,
                        reports,
                    ),
                    None => {
                        let leaf = DirTree {
                            name: String::new(),
                            is_repo: true,
                            entries: Vec::new(),
                        };
                        reconcile_node(
                            &sub.repo,
                            &child_root,
                            &leaf,
                            &cfg.submodules[j].1,
                            &child_prefix,
                            dry_run,
                            false,
                            reports,
                        )
                    },
                };
                proof {
                    assert forall|j2: int|
                        pre.len() <= j2 < reports@.len() implies configured_node_path(
                        *cfg,
                        path_prefix@,
                        (#[trigger] reports@[j2]).path@,
                    ) by {
                        assert(configured_node_path(
                            cfg.submodules@[j as int].1,
                            child_prefix@,
                            reports@[j2].path@,
                        ));
                    }
                }
                match outcome {
                    Ok(()) => {
                        proof {
                            idx = pre.len() as int;
                            assert(reports@[idx].path@ == child_prefix@);
                        }
                    },
                    Err(e) => {
                        let ghost mid = reports@;
                        reports.push(
                            NodeReport {
                                path: child_prefix,
                                actions: Vec::new(),
                                warnings: Vec::new(),
                                applied: false,
                                error: Some(e.message()),
                            },
                        );
                        proof {
                            idx = mid.len() as int;
                            assert(reports@[idx].path@ == child_rel_path(
                                path_prefix@,
                                cfg.submodules@[j as int].0@,
                            ));
                            assert forall|j2: int| 0 <= j2 < pre.len() implies reports@[j2] == (
                            #[trigger] pre[j2]) by {
                                assert(mid[j2] == pre[j2]);
                                assert(reports@[j2] == mid[j2]);
                            }
                            if dry_run {
                                assert forall|j2: int|
                                    pre.len() <= j2 < reports@.len() implies !(
                                    #[trigger] reports@[j2]).applied by {
                                    if j2 < mid.len() {
                                        assert(reports@[j2] == mid[j2]);
                                    } else {
                                        assert(reports@[j2] == reports@[reports@.len() - 1]);
                                    }
                                }
                            }
                            assert forall|j2: int|
                                pre.len() <= j2 < reports@.len() implies configured_node_path(
                                *cfg,
                                path_prefix@,
                                (#[trigger] reports@[j2]).path@,
                            ) by {
                                if j2 < mid.len() {
                                    assert(reports@[j2] == mid[j2]);
                                    assert(configured_node_path(
                                        *cfg,
                                        path_prefix@,
                                        mid[j2].path@,
                                    ));
                                } else {
                                    assert(reports@[j2] == reports@[reports@.len() - 1]);
                                    assert(configured_node_path(
                                        cfg.submodules@[j as int].1,
                                        child_prefix@,
                                        child_prefix@,
                                    ));
                                }
                            }
                        }
                    },
                }
                proof {
                    mmap = mmap.push(idx);
                    assert(entry.len() < pre.len() <= idx < reports@.len());
                    assert(reports@[idx].path@ == child_rel_path(path_prefix@, d[i as int]));
                    assert(reports@[idx].error is None ==> report_reflects_config(
                        cfg.submodules@[j as int].1,
                        reports@[idx],
                    ));
                }
            },
        }
        proof {
            assert forall|j2: int| 0 <= j2 < entry.len() implies reports@[j2] == (
            #[trigger] entry[j2]) by {
                assert(reports@[j2] == pre[j2]);
            }
            assert(reports@[entry.len() as int] == pre[entry.len() as int]);
            if dry_run {
                assert forall|j2: int|
                    entry.len() <= j2 < reports@.len() implies !(
                    #[trigger] reports@[j2]).applied by {
                    if j2 < pre.len() {
                        assert(reports@[j2] == pre[j2]);
                        assert(!pre[j2].applied);
                    }
                }
            }
            assert forall|j2: int|
                entry.len() <= j2 < reports@.len() implies configured_node_path(
                *cfg,
                path_prefix@,
                (#[trigger] reports@[j2]).path@,
            ) by {
                if j2 < pre.len() {
                    assert(reports@[j2] == pre[j2]);
                    assert(configured_node_path(*cfg, path_prefix@, pre[j2].path@));
                }
            }
            assert forall|c: int|
                0 <= c < i + 1 && submodules_contain(*cfg, d[c]) implies entry.len() < (
                #[trigger] mmap[c]) && mmap[c] < reports@.len() && reports@[mmap[c]].path@
                    == child_rel_path(path_prefix@, d[c]) by {
                if c < i {
                    assert(mmap[c] < pre.len());
                    assert(reports@[mmap[c]] == pre[mmap[c]]);
                }
            }
            assert forall|c: int|
                0 <= c < i + 1 && submodules_contain(*cfg, d[c]) implies exists|j2: int|
                    0 <= j2 < cfg.submodules@.len() && (#[trigger] cfg.submodules@[j2]).0@
                        == d[c] && (reports@[mmap[c]].error is None ==> report_reflects_config(
                        cfg.submodules@[j2].1,
                        reports@[mmap[c]],
                    )) by {
                if c < i {
                    assert(mmap[c] < pre.len());
                    assert(reports@[mmap[c]] == pre[mmap[c]]);
                    let j3 = choose|j3: int|
                        0 <= j3 < cfg.submodules@.len() && (#[trigger] cfg.submodules@[j3]).0@
                            == d[c] && (pre[mmap[c]].error is None ==> report_reflects_config(
                            cfg.submodules@[j3].1,
                            pre[mmap[c]],
                        ));
                    assert(0 <= j3 < cfg.submodules@.len() && cfg.submodules@[j3].0@ == d[c] && (
                    reports@[mmap[c]].error is None ==> report_reflects_config(
                        cfg.submodules@[j3].1,
                        reports@[mmap[c]],
                    )));
                }
            }
        }
        i = i + 1;
    }
    proof {
        assert forall|c1: int, c2: int|
            0 <= c1 < c2 < d.len() implies lex_lt(#[trigger] d[c1], #[trigger] d[c2]) by {
            assert(d[c1] == subrepos@[c1].path@);
            assert(d[c2] == subrepos@[c2].path@);
        }
        assert(children_accounted(*cfg, path_prefix@, reports@, entry.len() as int, d, mmap));
    }
    Ok(())
}

/// Reconcile the whole tree: the repository itself, then, depth-first and in
/// ascending path order, every discovered sub-repository that the
/// configuration declares. The first report is the root's; on a dry run no
/// node applies anything. A failure at the root aborts the whole run; a
/// failure below it is reported in that node's entry and its siblings are
/// still visited.
pub fn reconcile_tree(
    repo: &git2::Repository,
    repo_root: &String,
    tree: &DirTree,
    config: &GemoteConfig,
    path_prefix: &String,
    dry_run: bool,
) -> (r: Result<Vec<NodeReport>, GemoteError>)
    ensures
        r matches Ok(reports) ==> {
            &&& reports@.len() >= 1
            &&& reports@[0].path@ == path_prefix@
            &&& report_reflects_config(*config, reports@[0])
            &&& (dry_run ==> forall|j: int|
                0 <= j < reports@.len() ==> !(#[trigger] reports@[j]).applied)
            &&& forall|j: int|
                0 <= j < reports@.len() ==> configured_node_path(
                    *config,
                    path_prefix@,
                    (#[trigger] reports@[j]).path@,
                )
            &&& (reports@[0].error is None ==> exists|d: Seq<Seq<char>>, m: Seq<int>|
                children_accounted(*config, path_prefix@, reports@, 0, d, m))
        },
        r matches Err(e) ==> e is Git,
{
    let mut reports: Vec<NodeReport> = Vec::new();
    match reconcile_node(repo, repo_root, tree, config, path_prefix, dry_run, true, &mut reports) {
        Ok(()) => Ok(reports),
        Err(e) => Err(e),
    }
}

/// Turn a snapshot of local remotes into a leaf configuration node that
/// declares exactly those remotes, with default settings.
pub fn config_from_remotes(local: &Vec<(String, RemoteInfo)>) -> (r: GemoteConfig)
    ensures
        r.settings == (Settings { extra_remotes: ExtraRemotes::Ignore }),
        r.submodules@.len() == 0,
        r.remotes.deep_view() == local.deep_view(),
{
    let mut remotes: Vec<(String, RemoteConfig)> = Vec::new();
    let n = local.len();
    let mut i: usize = 0;
    assert(remotes.deep_view() =~= local.deep_view().take(0));
    while i < n
        invariant
            i <= n,
            n == local@.len(),
            remotes.deep_view() == local.deep_view().take(i as int),
        decreases n - i,
    {
        let ghost base = remotes.deep_view();
        let name = local[i].0.clone();
        let info = &local[i].1;
        remotes.push((name, RemoteConfig { url: info.url.clone(), push_url: clone_opt(&info.push_url) }));
        proof {
            assert(remotes.deep_view() =~= base.push(local.deep_view()[i as int]));
            assert(remotes.deep_view() =~= local.deep_view().take(i as int + 1));
        }
        i = i + 1;
    }
    proof {
        assert(local.deep_view().take(n as int) =~= local.deep_view());
    }
    GemoteConfig { settings: Settings::default(), remotes, submodules: Vec::new() }
}

/// Snapshot one repository's remotes into a leaf configuration node.
pub fn save_one_repo(repo: &git2::Repository) -> (r: Result<GemoteConfig, GemoteError>)
    ensures
        r matches Ok(c) ==> {
            &&& c.wf()
            &&& c.submodules@.len() == 0
            &&& c.settings == (Settings { extra_remotes: ExtraRemotes::Ignore })
        },
        r matches Err(e) ==> e is Git,
{
    let local = match list_remotes(repo) {
        Ok(l) => l,
        Err(e) => {
            return Err(e);
        },
    };
    let cfg = config_from_remotes(&local);
    proof {
        assert(sorted_keys(cfg.remotes.deep_view()));
        assert(cfg.wf());
    }
    Ok(cfg)
}

/// Attach one saved child under its path, after the entries already present.
fn attach_submodule(cfg: &mut GemoteConfig, path: String, child: GemoteConfig)
    ensures
        final(cfg).settings == old(cfg).settings,
        final(cfg).remotes == old(cfg).remotes,
        final(cfg).submodules@ == old(cfg).submodules@.push((path, child)),
{
    cfg.submodules.push((path, child));
}

/// Every node of the configuration tree carries the default settings: a
/// snapshot declares remotes, never a policy.
pub open spec fn default_settings_tree(c: GemoteConfig) -> bool
    decreases c,
{
    &&& c.settings == (Settings { extra_remotes: ExtraRemotes::Ignore })
    &&& forall|i: int|
        0 <= i < c.submodules.len() ==> default_settings_tree((#[trigger] c.submodules[i]).1)
}

/// Snapshot a repository and, recursively, every directly nested repository
/// below it, into one well-formed configuration tree, with the diagnostics
/// the walk produced. Every node of the result carries the default settings.
/// A nested repository whose directory is not part of the tree model is
/// saved without descending further.
pub fn save_tree(repo: &git2::Repository, repo_root: &String, tree: &DirTree) -> (r: Result<
    (GemoteConfig, Vec<String>),
    GemoteError,
>)
    ensures
        r matches Ok(pair) ==> pair.0.wf() && default_settings_tree(pair.0),
        r matches Err(e) ==> e is Git,
    decreases spec_tree_height(*tree),
{
    let mut cfg = match save_one_repo(repo) {
        Ok(c) => c,
        Err(e) => {
            return Err(e);
        },
    };
    let (subrepos, mut diagnostics) = match collect_all_repos(repo, repo_root, tree) {
        Ok(x) => x,
        Err(e) => {
            return Err(e);
        },
    };
    let n = subrepos.len();
    let mut i: usize = 0;
    while i < n
        invariant
            i <= n,
            n == subrepos@.len(),
            sorted_repo_paths(subrepos@),
            cfg.settings == (Settings { extra_remotes: ExtraRemotes::Ignore }),
            sorted_keys(cfg.remotes.deep_view()),
            cfg.submodules@.len() == i as int,
            forall|j: int| 0 <= j < i ==> (#[trigger] cfg.submodules@[j]).0@ == subrepos@[j].path@,
            forall|j: int| 0 <= j < i ==> (#[trigger] cfg.submodules@[j]).1.wf(),
            forall|j: int|
                0 <= j < i ==> default_settings_tree((#[trigger] cfg.submodules@[j]).1),
        decreases n - i,
    {
        let sub = &subrepos[i];
        let mut child_root = repo_root.clone();
        child_root.append("/");
        child_root.append(sub.path.as_str());
        let empty_prefix = String::new();
        let child_cfg = match subtree_at(tree, &empty_prefix, &sub.path) {
            Some(child_tree) => {
                match save_tree(&sub.repo, &child_root, child_tree) {
                    Ok((c, mut ds)) => {
                        diagnostics.append(&mut ds);
                        c
                    },
                    Err(e) => {
                        return Err(e);
                    },
                }
            },
            None => {
                match save_one_repo(&sub.repo) {
                    Ok(c) => c,
                    Err(e) => {
                        return Err(e);
                    },
                }
            },
        };
        proof {
            assert(default_settings_tree(child_cfg));
        }
        attach_submodule(&mut cfg, sub.path.clone(), child_cfg);
        i = i + 1;
    }
    proof {
        assert forall|a: int, b: int| 0 <= a < b < cfg.submodules@.len() implies crate::order::lex_lt(
            (#[trigger] cfg.submodules@[a]).0@,
            (#[trigger] cfg.submodules@[b]).0@,
        ) by {
            assert(cfg.submodules@[a].0@ == subrepos@[a].path@);
            assert(cfg.submodules@[b].0@ == subrepos@[b].path@);
        }
        assert(cfg.wf());
        assert(default_settings_tree(cfg));
    }
    Ok((cfg, diagnostics))
}

} // verus!

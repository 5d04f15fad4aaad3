//! The reconciliation engine: diffing one repository's remote set against one
//! configuration node.
//!
//! `compute_diff` is pure: given the desired remotes and a snapshot of the
//! local remotes it returns the ordered list of corrective actions, exactly
//! as `spec_diff` describes. Desired remotes are visited in the order they
//! are stored (ascending, for a well-formed configuration); local-only
//! remotes are visited afterwards, in the order of the snapshot.

use vstd::prelude::*;
use vstd::string::StringExecFns;

use crate::config::{
    assoc_contains, assoc_lookup, lemma_assoc_lookup_first_hit, lemma_assoc_lookup_none,
    ExtraRemotes, GemoteConfig, RemoteConfig, RemoteStateV,
};
use crate::error::GemoteError;
use crate::git::{add_remote, remove_remote, update_remote_push_url, update_remote_url, RemoteInfo};

verus! {

/// One corrective step, carrying enough information (old and new values) to
/// render a human-readable diff line without re-querying state.
#[derive(Debug)]
pub enum SyncAction {
    Add { name: String, url: String, push_url: Option<String> },
    UpdateUrl { name: String, old_url: String, new_url: String },
    UpdatePushUrl { name: String, old: Option<String>, new: Option<String> },
    Remove { name: String },
}

/// The mathematical value of a `SyncAction`.
pub ghost enum ActionV {
    Add { name: Seq<char>, url: Seq<char>, push_url: Option<Seq<char>> },
    UpdateUrl { name: Seq<char>, old_url: Seq<char>, new_url: Seq<char> },
    UpdatePushUrl { name: Seq<char>, old: Option<Seq<char>>, new: Option<Seq<char>> },
    Remove { name: Seq<char> },
}

impl View for SyncAction {
    type V = ActionV;

    open spec fn view(&self) -> ActionV {
        match self {
            SyncAction::Add { name, url, push_url } => ActionV::Add {
                name: name@,
                url: url@,
                push_url: push_url.deep_view(),
            },
            SyncAction::UpdateUrl { name, old_url, new_url } => ActionV::UpdateUrl {
                name: name@,
                old_url: old_url@,
                new_url: new_url@,
            },
            SyncAction::UpdatePushUrl { name, old, new } => ActionV::UpdatePushUrl {
                name: name@,
                old: old.deep_view(),
                new: new.deep_view(),
            },
            SyncAction::Remove { name } => ActionV::Remove { name: name@ },
        }
    }
}

impl DeepView for SyncAction {
    type V = ActionV;

    open spec fn deep_view(&self) -> ActionV {
        self@
    }
}

/// The actions that one desired remote gives rise to, against the local
/// snapshot: an `Add` when it is absent, else an `UpdateUrl` and/or an
/// `UpdatePushUrl` for whichever of the two endpoints differs.
pub open spec fn desired_head_actions(
    p: (Seq<char>, RemoteStateV),
    local: Seq<(Seq<char>, RemoteStateV)>,
) -> Seq<ActionV> {
    match assoc_lookup(local, p.0) {
        None => seq![ActionV::Add { name: p.0, url: p.1.url, push_url: p.1.push_url }],
        Some(have) => (if have.url != p.1.url {
            seq![ActionV::UpdateUrl { name: p.0, old_url: have.url, new_url: p.1.url }]
        } else {
            Seq::<ActionV>::empty()
        }) + (if have.push_url != p.1.push_url {
            seq![ActionV::UpdatePushUrl { name: p.0, old: have.push_url, new: p.1.push_url }]
        } else {
            Seq::<ActionV>::empty()
        }),
    }
}

/// Actions for all desired remotes, in order.
pub open spec fn spec_desired_actions(
    desired: Seq<(Seq<char>, RemoteStateV)>,
    local: Seq<(Seq<char>, RemoteStateV)>,
) -> Seq<ActionV>
    decreases desired.len(),
{
    if desired.len() == 0 {
        Seq::<ActionV>::empty()
    } else {
        desired_head_actions(desired[0], local) + spec_desired_actions(desired.drop_first(), local)
    }
}

/// Names of local remotes that the configuration does not mention, in
/// snapshot order.
pub open spec fn spec_extra_names(
    desired: Seq<(Seq<char>, RemoteStateV)>,
    local: Seq<(Seq<char>, RemoteStateV)>,
) -> Seq<Seq<char>>
    decreases local.len(),
{
    if local.len() == 0 {
        Seq::<Seq<char>>::empty()
    } else {
        (if !assoc_contains(desired, local[0].0) {
            seq![local[0].0]
        } else {
            Seq::<Seq<char>>::empty()
        }) + spec_extra_names(desired, local.drop_first())
    }
}

/// Actions for local-only remotes: one `Remove` per extra name under the
/// `Remove` policy, nothing otherwise.
pub open spec fn spec_extra_actions(
    policy: ExtraRemotes,
    desired: Seq<(Seq<char>, RemoteStateV)>,
    local: Seq<(Seq<char>, RemoteStateV)>,
) -> Seq<ActionV> {
    if policy is Remove {
        spec_extra_names(desired, local).map_values(|n: Seq<char>| ActionV::Remove { name: n })
    } else {
        Seq::<ActionV>::empty()
    }
}

/// The full corrective action sequence for one reconciliation pass.
pub open spec fn spec_diff(
    policy: ExtraRemotes,
    desired: Seq<(Seq<char>, RemoteStateV)>,
    local: Seq<(Seq<char>, RemoteStateV)>,
) -> Seq<ActionV> {
    spec_desired_actions(desired, local) + spec_extra_actions(policy, desired, local)
}

/// Names that the `Warn` policy reports: the extra names, under that policy
/// alone.
pub open spec fn spec_warnings(
    policy: ExtraRemotes,
    desired: Seq<(Seq<char>, RemoteStateV)>,
    local: Seq<(Seq<char>, RemoteStateV)>,
) -> Seq<Seq<char>> {
    if policy is Warn {
        spec_extra_names(desired, local)
    } else {
        Seq::<Seq<char>>::empty()
    }
}

/// Clone an optional string, preserving its value.
pub(crate) fn clone_opt(o: &Option<String>) -> (r: Option<String>)
    ensures
        r.deep_view() == o.deep_view(),
{
    match o {
        None => None,
        Some(s) => Some(s.clone()),
    }
}

/// Optional strings are equal exactly when their values are.
fn opt_str_eq(a: &Option<String>, b: &Option<String>) -> (r: bool)
    ensures
        r == (a.deep_view() == b.deep_view()),
{
    match (a, b) {
        (None, None) => true,
        (Some(x), Some(y)) => *x == *y,
        _ => false,
    }
}

/// Index of the first local remote named `name`, if any.
fn find_local_remote(local: &Vec<(String, RemoteInfo)>, name: &String) -> (r: Option<usize>)
    ensures
        match r {
            Some(j) => {
                &&& 0 <= j < local@.len()
                &&& local.deep_view()[j as int].0 == name@
                &&& forall|k: int| 0 <= k < j ==> (#[trigger] local.deep_view()[k].0) != name@
            },
            None => forall|k: int|
                0 <= k < local@.len() ==> (#[trigger] local.deep_view()[k].0) != name@,
        },
{
    let n = local.len();
    let mut j: usize = 0;
    while j < n
        invariant
            j <= n,
            n == local@.len(),
            forall|k: int| 0 <= k < j ==> (#[trigger] local.deep_view()[k].0) != name@,
        decreases n - j,
    {
        if local[j].0 == *name {
            return Some(j);
        }
        j = j + 1;
    }
    None
}

/// Whether the configuration names a remote called `name`.
fn config_has_remote(remotes: &Vec<(String, RemoteConfig)>, name: &String) -> (r: bool)
    ensures
        r == assoc_contains(remotes.deep_view(), name@),
{
    let n = remotes.len();
    let mut j: usize = 0;
    while j < n
        invariant
            j <= n,
            n == remotes@.len(),
            forall|k: int| 0 <= k < j ==> (#[trigger] remotes.deep_view()[k].0) != name@,
        decreases n - j,
    {
        if remotes[j].0 == *name {
            assert(remotes.deep_view()[j as int].0 == name@);
            return true;
        }
        j = j + 1;
    }
    false
}

/// Compute the ordered corrective actions that make the local remote set
/// match the configuration: desired remotes first, in storage order, then
/// the policy's treatment of local-only remotes, in snapshot order. Pure:
/// the result is exactly `spec_diff` of the two inputs.
pub fn compute_diff(config: &GemoteConfig, local: &Vec<(String, RemoteInfo)>) -> (r: Vec<
    SyncAction,
>)
    ensures
        r.deep_view() == spec_diff(
            config.settings.extra_remotes,
            config.remotes.deep_view(),
            local.deep_view(),
        ),
{
    let ghost dv = config.remotes.deep_view();
    let ghost lv = local.deep_view();
    let mut actions: Vec<SyncAction> = Vec::new();
    let n = config.remotes.len();
    let mut i: usize = 0;
    assert(actions.deep_view() =~= Seq::<ActionV>::empty());
    assert(dv.skip(0) =~= dv);
    while i < n
        invariant
            i <= n,
            n == config.remotes@.len(),
            dv == config.remotes.deep_view(),
            lv == local.deep_view(),
            actions.deep_view() + spec_desired_actions(dv.skip(i as int), lv)
                == spec_desired_actions(dv, lv),
        decreases n - i,
    {
        let ghost base = actions.deep_view();
        let name = &config.remotes[i].0;
        let rc = &config.remotes[i].1;
        proof {
            assert(dv.skip(i as int)[0] == dv[i as int]);
            assert(dv.skip(i as int).drop_first() =~= dv.skip(i as int + 1));
        }
        match find_local_remote(local, name) {
            None => {
                proof {
                    lemma_assoc_lookup_none(lv, name@);
                }
                actions.push(
                    SyncAction::Add {
                        name: name.clone(),
                        url: rc.url.clone(),
                        push_url: clone_opt(&rc.push_url),
                    },
                );
                proof {
                    assert(actions.deep_view() =~= base + desired_head_actions(dv[i as int], lv));
                }
            },
            Some(j) => {
                proof {
                    lemma_assoc_lookup_first_hit(lv, name@, j as int);
                }
                let have = &local[j].1;
                if !(have.url == rc.url) {
                    actions.push(
                        SyncAction::UpdateUrl {
                            name: name.clone(),
                            old_url: have.url.clone(),
                            new_url: rc.url.clone(),
                        },
                    );
                }
                if !opt_str_eq(&have.push_url, &rc.push_url) {
                    actions.push(
                        SyncAction::UpdatePushUrl {
                            name: name.clone(),
                            old: clone_opt(&have.push_url),
                            new: clone_opt(&rc.push_url),
                        },
                    );
                }
                proof {
                    assert(actions.deep_view() =~= base + desired_head_actions(dv[i as int], lv));
                }
            },
        }
        proof {
            assert(actions.deep_view() + spec_desired_actions(dv.skip(i as int + 1), lv)
                =~= spec_desired_actions(dv, lv));
        }
        i = i + 1;
    }
    proof {
        assert(dv.skip(n as int) =~= Seq::<(Seq<char>, RemoteStateV)>::empty());
        assert(actions.deep_view() =~= spec_desired_actions(dv, lv));
        assert(lv.skip(0) =~= lv);
    }
    let m = local.len();
    let mut i2: usize = 0;
    while i2 < m
        invariant
            i2 <= m,
            m == local@.len(),
            dv == config.remotes.deep_view(),
            lv == local.deep_view(),
            config.settings.extra_remotes is Remove ==> actions.deep_view() + spec_extra_names(
                dv,
                lv.skip(i2 as int),
            ).map_values(|nm: Seq<char>| ActionV::Remove { name: nm }) == spec_diff(
                config.settings.extra_remotes,
                dv,
                lv,
            ),
            !(config.settings.extra_remotes is Remove) ==> actions.deep_view() == spec_diff(
                config.settings.extra_remotes,
                dv,
                lv,
            ),
        decreases m - i2,
    {
        let ghost base = actions.deep_view();
        let name = &local[i2].0;
        proof {
            assert(lv.skip(i2 as int)[0] == lv[i2 as int]);
            assert(lv.skip(i2 as int).drop_first() =~= lv.skip(i2 as int + 1));
        }
        let in_config = config_has_remote(&config.remotes, name);
        if !in_config {
            match config.settings.extra_remotes {
                ExtraRemotes::Ignore => {},
                ExtraRemotes::Warn => {},
                ExtraRemotes::Remove => {
                    actions.push(SyncAction::Remove { name: name.clone() });
                    proof {
                        assert(actions.deep_view() =~= base.push(
                            ActionV::Remove { name: name@ },
                        ));
                    }
                },
            }
        }
        proof {
            if config.settings.extra_remotes is Remove {
                assert(base + spec_extra_names(dv, lv.skip(i2 as int)).map_values(
                    |nm: Seq<char>| ActionV::Remove { name: nm },
                ) =~= actions.deep_view() + spec_extra_names(dv, lv.skip(i2 as int + 1)).map_values(
                    |nm: Seq<char>| ActionV::Remove { name: nm },
                ));
            }
        }
        i2 = i2 + 1;
    }
    proof {
        if config.settings.extra_remotes is Remove {
            assert(lv.skip(m as int) =~= Seq::<(Seq<char>, RemoteStateV)>::empty());
            assert(spec_extra_names(dv, lv.skip(m as int)).map_values(
                |nm: Seq<char>| ActionV::Remove { name: nm },
            ) =~= Seq::<ActionV>::empty());
            assert(actions.deep_view() =~= actions.deep_view() + Seq::<ActionV>::empty());
        }
    }
    actions
}

/// Names of local remotes that the configuration does not mention, reported
/// as diagnostics under the `Warn` policy; empty under any other policy.
/// These never become actions.
pub fn extra_remote_warnings(config: &GemoteConfig, local: &Vec<(String, RemoteInfo)>) -> (r: Vec<
    String,
>)
    ensures
        r.deep_view() == spec_warnings(
            config.settings.extra_remotes,
            config.remotes.deep_view(),
            local.deep_view(),
        ),
{
    let ghost dv = config.remotes.deep_view();
    let ghost lv = local.deep_view();
    let mut warnings: Vec<String> = Vec::new();
    match config.settings.extra_remotes {
        ExtraRemotes::Warn => {},
        _ => {
            assert(warnings.deep_view() =~= Seq::<Seq<char>>::empty());
            return warnings;
        },
    }
    let m = local.len();
    let mut i: usize = 0;
    assert(warnings.deep_view() =~= Seq::<Seq<char>>::empty());
    assert(lv.skip(0) =~= lv);
    while i < m
        invariant
            i <= m,
            m == local@.len(),
            dv == config.remotes.deep_view(),
            lv == local.deep_view(),
            warnings.deep_view() + spec_extra_names(dv, lv.skip(i as int)) == spec_extra_names(
                dv,
                lv,
            ),
        decreases m - i,
    {
        let ghost base = warnings.deep_view();
        let name = &local[i].0;
        proof {
            assert(lv.skip(i as int)[0] == lv[i as int]);
            assert(lv.skip(i as int).drop_first() =~= lv.skip(i as int + 1));
        }
        if !config_has_remote(&config.remotes, name) {
            warnings.push(name.clone());
            proof {
                assert(warnings.deep_view() =~= base.push(name@));
            }
        }
        proof {
            assert(warnings.deep_view() + spec_extra_names(dv, lv.skip(i as int + 1))
                =~= spec_extra_names(dv, lv));
        }
        i = i + 1;
    }
    proof {
        assert(lv.skip(m as int) =~= Seq::<(Seq<char>, RemoteStateV)>::empty());
        assert(warnings.deep_view() =~= spec_extra_names(dv, lv));
    }
    warnings
}

/// How an optional push URL is rendered in a diff line.
pub open spec fn spec_opt_url_text(o: Option<Seq<char>>) -> Seq<char> {
    match o {
        None => "(none)"@,
        Some(u) => u,
    }
}

/// The human-readable line that describes one action.
pub open spec fn spec_describe(a: ActionV) -> Seq<char> {
    match a {
        ActionV::Add { name, url, push_url } => "add remote "@ + name + " (url: "@ + url + ")"@
            + (match push_url {
            None => Seq::<char>::empty(),
            Some(p) => " (push_url: "@ + p + ")"@,
        }),
        ActionV::UpdateUrl { name, old_url, new_url } => "update remote "@ + name + " url: "@
            + old_url + " -> "@ + new_url,
        ActionV::UpdatePushUrl { name, old, new } => "update remote "@ + name + " push_url: "@
            + spec_opt_url_text(old) + " -> "@ + spec_opt_url_text(new),
        ActionV::Remove { name } => "remove remote "@ + name,
    }
}

impl SyncAction {
    /// Render the action as one human-readable line.
    pub fn describe(&self) -> (r: String)
        ensures
            r@ == spec_describe(self@),
    {
        let mut s = String::new();
        match self {
            SyncAction::Add { name, url, push_url } => {
                s.append("add remote ");
                s.append(name.as_str());
                s.append(" (url: ");
                s.append(url.as_str());
                s.append(")");
                if let Some(p) = push_url {
                    s.append(" (push_url: ");
                    s.append(p.as_str());
                    s.append(")");
                }
                assert(s@ =~= spec_describe(self@));
            },
            SyncAction::UpdateUrl { name, old_url, new_url } => {
                s.append("update remote ");
                s.append(name.as_str());
                s.append(" url: ");
                s.append(old_url.as_str());
                s.append(" -> ");
                s.append(new_url.as_str());
                assert(s@ =~= spec_describe(self@));
            },
            SyncAction::UpdatePushUrl { name, old, new } => {
                s.append("update remote ");
                s.append(name.as_str());
                s.append(" push_url: ");
                match old {
                    None => s.append("(none)"),
                    Some(p) => s.append(p.as_str()),
                }
                s.append(" -> ");
                match new {
                    None => s.append("(none)"),
                    Some(p) => s.append(p.as_str()),
                }
                assert(s@ =~= spec_describe(self@));
            },
            SyncAction::Remove { name } => {
                s.append("remove remote ");
                s.append(name.as_str());
                assert(s@ =~= spec_describe(self@));
            },
        }
        s
    }
}

/// Execute the corrective actions strictly in sequence order. When action
/// `k` fails, actions before `k` have already been committed and actions
/// after `k` are never attempted: application is not transactional, and the
/// single returned error identifies the failure.
pub fn apply_actions(repo: &git2::Repository, actions: &[SyncAction]) -> (r: Result<
    (),
    GemoteError,
>)
    ensures
        actions@.len() == 0 ==> r is Ok,
        r is Err ==> actions@.len() > 0,
        r matches Err(e) ==> e is Git,
{
    let n = actions.len();
    let mut i: usize = 0;
    while i < n
        invariant
            i <= n,
            n == actions@.len(),
        decreases n - i,
    {
        let step = match &actions[i] {
            SyncAction::Add { name, url, push_url } => {
                let push: Option<&str> = match push_url {
                    None => None,
                    Some(p) => Some(p.as_str()),
                };
                add_remote(repo, name.as_str(), url.as_str(), push)
            },
            SyncAction::UpdateUrl { name, new_url, .. } => {
                update_remote_url(repo, name.as_str(), new_url.as_str())
            },
            SyncAction::UpdatePushUrl { name, new, .. } => {
                let push: Option<&str> = match new {
                    None => None,
                    Some(p) => Some(p.as_str()),
                };
                update_remote_push_url(repo, name.as_str(), push)
            },
            SyncAction::Remove { name } => remove_remote(repo, name.as_str()),
        };
        match step {
            Ok(()) => {},
            Err(e) => {
                return Err(e);
            },
        }
        i = i + 1;
    }
    Ok(())
}

/// Law: diffing is deterministic. Two calls on equal inputs yield
/// element-wise equal action sequences, in the same order.
pub proof fn lemma_diff_deterministic(
    p1: ExtraRemotes,
    d1: Seq<(Seq<char>, RemoteStateV)>,
    l1: Seq<(Seq<char>, RemoteStateV)>,
    p2: ExtraRemotes,
    d2: Seq<(Seq<char>, RemoteStateV)>,
    l2: Seq<(Seq<char>, RemoteStateV)>,
)
    requires
        p1 == p2,
        d1 == d2,
        l1 == l2,
    ensures
        spec_diff(p1, d1, l1) == spec_diff(p2, d2, l2),
{
}

proof fn lemma_desired_actions_empty_iff(
    desired: Seq<(Seq<char>, RemoteStateV)>,
    local: Seq<(Seq<char>, RemoteStateV)>,
)
    ensures
        spec_desired_actions(desired, local).len() == 0 <==> forall|i: int|
            0 <= i < desired.len() ==> assoc_lookup(local, (#[trigger] desired[i]).0) == Some(
                desired[i].1,
            ),
    decreases desired.len(),
{
    if desired.len() > 0 {
        lemma_desired_actions_empty_iff(desired.drop_first(), local);
        assert forall|i: int| 1 <= i < desired.len() implies #[trigger] desired[i]
            == desired.drop_first()[i - 1] by {}
        if desired_head_actions(desired[0], local).len() == 0 {
            match assoc_lookup(local, desired[0].0) {
                None => {},
                Some(have) => {
                    assert(have == desired[0].1);
                },
            }
        }
    }
}

proof fn lemma_extra_names_empty_iff(
    desired: Seq<(Seq<char>, RemoteStateV)>,
    local: Seq<(Seq<char>, RemoteStateV)>,
)
    ensures
        spec_extra_names(desired, local).len() == 0 <==> forall|i: int|
            0 <= i < local.len() ==> assoc_contains(desired, (#[trigger] local[i]).0),
    decreases local.len(),
{
    if local.len() > 0 {
        lemma_extra_names_empty_iff(desired, local.drop_first());
        assert forall|i: int| 1 <= i < local.len() implies #[trigger] local[i]
            == local.drop_first()[i - 1] by {}
    }
}

/// Law: idempotence. The diff is empty exactly when every desired remote is
/// already present with the desired fetch and push URLs, and, under the
/// `Remove` policy, no local remote falls outside the configuration.
pub proof fn lemma_diff_empty_iff(
    policy: ExtraRemotes,
    desired: Seq<(Seq<char>, RemoteStateV)>,
    local: Seq<(Seq<char>, RemoteStateV)>,
)
    ensures
        spec_diff(policy, desired, local).len() == 0 <==> ({
            &&& forall|i: int|
                0 <= i < desired.len() ==> assoc_lookup(local, (#[trigger] desired[i]).0) == Some(
                    desired[i].1,
                )
            &&& policy is Remove ==> forall|i: int|
                0 <= i < local.len() ==> assoc_contains(desired, (#[trigger] local[i]).0)
        }),
{
    lemma_desired_actions_empty_iff(desired, local);
    lemma_extra_names_empty_iff(desired, local);
}

/// Law: fetch-URL and push-URL updates are independent. When only the fetch
/// URL differs, the diff is exactly one `UpdateUrl` action and no
/// `UpdatePushUrl` action, whatever the policy.
pub proof fn lemma_update_url_independent(
    policy: ExtraRemotes,
    name: Seq<char>,
    desired_url: Seq<char>,
    local_url: Seq<char>,
    push: Option<Seq<char>>,
)
    requires
        desired_url != local_url,
    ensures
        spec_diff(
            policy,
            seq![(name, RemoteStateV { url: desired_url, push_url: push })],
            seq![(name, RemoteStateV { url: local_url, push_url: push })],
        ) == seq![ActionV::UpdateUrl { name: name, old_url: local_url, new_url: desired_url }],
{
    let desired = seq![(name, RemoteStateV { url: desired_url, push_url: push })];
    let local = seq![(name, RemoteStateV { url: local_url, push_url: push })];
    reveal_with_fuel(spec_extra_names, 3);
    reveal_with_fuel(spec_desired_actions, 3);
    assert(local[0].0 == name);
    assert(assoc_lookup(local, name) == Some(local[0].1));
    assert(desired.drop_first().len() == 0);
    assert(local.drop_first().len() == 0);
    assert(desired[0].0 == local[0].0);
    assert(assoc_contains(desired, local[0].0));
    assert(spec_extra_names(desired, local) =~= Seq::<Seq<char>>::empty());
    assert(spec_extra_actions(policy, desired, local) =~= Seq::<ActionV>::empty());
    assert(desired_head_actions(desired[0], local) =~= seq![
        ActionV::UpdateUrl { name: name, old_url: local_url, new_url: desired_url },
    ]);
    assert(spec_desired_actions(desired, local) =~= desired_head_actions(desired[0], local));
    assert(spec_diff(policy, desired, local) =~= seq![
        ActionV::UpdateUrl { name: name, old_url: local_url, new_url: desired_url },
    ]);
}

/// Law: policy gating. For a local remote that the configuration does not
/// mention, `Ignore` and `Warn` produce no action — `Warn` reports the name
/// as a diagnostic — and `Remove` produces exactly one `Remove` action.
pub proof fn lemma_policy_gating(
    desired: Seq<(Seq<char>, RemoteStateV)>,
    x: Seq<char>,
    v: RemoteStateV,
)
    requires
        !assoc_contains(desired, x),
    ensures
        spec_extra_actions(ExtraRemotes::Ignore, desired, seq![(x, v)]) == Seq::<ActionV>::empty(),
        spec_extra_actions(ExtraRemotes::Warn, desired, seq![(x, v)]) == Seq::<ActionV>::empty(),
        spec_extra_actions(ExtraRemotes::Remove, desired, seq![(x, v)]) == seq![
            ActionV::Remove { name: x },
        ],
        spec_warnings(ExtraRemotes::Warn, desired, seq![(x, v)]) == seq![x],
        spec_warnings(ExtraRemotes::Ignore, desired, seq![(x, v)]) == Seq::<Seq<char>>::empty(),
        spec_warnings(ExtraRemotes::Remove, desired, seq![(x, v)]) == Seq::<Seq<char>>::empty(),
{
    let local = seq![(x, v)];
    reveal_with_fuel(spec_extra_names, 3);
    assert(local[0].0 == x);
    assert(local.drop_first().len() == 0);
    assert(spec_extra_names(desired, local) =~= seq![x]);
    assert(spec_extra_actions(ExtraRemotes::Remove, desired, local) =~= seq![
        ActionV::Remove { name: x },
    ]);
}

} // verus!

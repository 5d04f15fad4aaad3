use gemote::config::{ExtraRemotes, GemoteConfig, RemoteConfig, Settings};
use gemote::git::{list_remotes, RemoteInfo};
use gemote::sync::{apply_actions, compute_diff, extra_remote_warnings, SyncAction};

fn make_config(extra: ExtraRemotes, remotes: Vec<(&str, &str, Option<&str>)>) -> GemoteConfig {
    let mut cfg = GemoteConfig {
        settings: Settings { extra_remotes: extra },
        remotes: Vec::new(),
        submodules: Vec::new(),
    };
    for (name, url, push_url) in remotes {
        cfg.remotes.push((
            name.to_string(),
            RemoteConfig {
                url: url.to_string(),
                push_url: push_url.map(|s| s.to_string()),
            },
        ));
    }
    cfg
}

fn make_local(remotes: Vec<(&str, &str, Option<&str>)>) -> Vec<(String, RemoteInfo)> {
    let mut list = Vec::new();
    for (name, url, push_url) in remotes {
        list.push((
            name.to_string(),
            RemoteInfo {
                url: url.to_string(),
                push_url: push_url.map(|s| s.to_string()),
            },
        ));
    }
    list
}

// --- compute_diff tests ---

#[test]
fn diff_empty_both() {
    let cfg = make_config(ExtraRemotes::Ignore, vec![]);
    let local = make_local(vec![]);
    assert!(compute_diff(&cfg, &local).is_empty());
}

#[test]
fn diff_add_remote() {
    let cfg = make_config(
        ExtraRemotes::Ignore,
        vec![("origin", "https://example.com/repo.git", None)],
    );
    let local = make_local(vec![]);
    let actions = compute_diff(&cfg, &local);

    assert_eq!(actions.len(), 1);
    assert!(matches!(
        &actions[0],
        SyncAction::Add { name, url, push_url }
        if name == "origin" && url == "https://example.com/repo.git" && push_url.is_none()
    ));
}

#[test]
fn diff_add_multiple() {
    let cfg = make_config(
        ExtraRemotes::Ignore,
        vec![
            ("origin", "https://a.com/repo.git", None),
            ("upstream", "https://b.com/repo.git", None),
        ],
    );
    let local = make_local(vec![]);
    let actions = compute_diff(&cfg, &local);
    assert_eq!(actions.len(), 2);
    assert!(actions.iter().all(|a| matches!(a, SyncAction::Add { .. })));
}

#[test]
fn diff_no_changes() {
    let cfg = make_config(
        ExtraRemotes::Ignore,
        vec![("origin", "https://example.com/repo.git", None)],
    );
    let local = make_local(vec![("origin", "https://example.com/repo.git", None)]);
    assert!(compute_diff(&cfg, &local).is_empty());
}

#[test]
fn diff_update_url() {
    let cfg = make_config(
        ExtraRemotes::Ignore,
        vec![("origin", "https://new.com/repo.git", None)],
    );
    let local = make_local(vec![("origin", "https://old.com/repo.git", None)]);
    let actions = compute_diff(&cfg, &local);

    assert_eq!(actions.len(), 1);
    assert!(matches!(
        &actions[0],
        SyncAction::UpdateUrl { name, old_url, new_url }
        if name == "origin" && old_url == "https://old.com/repo.git" && new_url == "https://new.com/repo.git"
    ));
}

#[test]
fn diff_update_push_url_add() {
    let cfg = make_config(
        ExtraRemotes::Ignore,
        vec![(
            "origin",
            "https://example.com/repo.git",
            Some("git@example.com:repo.git"),
        )],
    );
    let local = make_local(vec![("origin", "https://example.com/repo.git", None)]);
    let actions = compute_diff(&cfg, &local);

    assert_eq!(actions.len(), 1);
    assert!(matches!(
        &actions[0],
        SyncAction::UpdatePushUrl { name, old, new }
        if name == "origin" && old.is_none() && new.as_deref() == Some("git@example.com:repo.git")
    ));
}

#[test]
fn diff_update_push_url_remove() {
    let cfg = make_config(
        ExtraRemotes::Ignore,
        vec![("origin", "https://example.com/repo.git", None)],
    );
    let local = make_local(vec![(
        "origin",
        "https://example.com/repo.git",
        Some("git@example.com:repo.git"),
    )]);
    let actions = compute_diff(&cfg, &local);

    assert_eq!(actions.len(), 1);
    assert!(matches!(
        &actions[0],
        SyncAction::UpdatePushUrl { name, old, new }
        if name == "origin" && old.as_deref() == Some("git@example.com:repo.git") && new.is_none()
    ));
}

#[test]
fn diff_update_push_url_change() {
    let cfg = make_config(
        ExtraRemotes::Ignore,
        vec![(
            "origin",
            "https://example.com/repo.git",
            Some("git@new.com:repo.git"),
        )],
    );
    let local = make_local(vec![(
        "origin",
        "https://example.com/repo.git",
        Some("git@old.com:repo.git"),
    )]);
    let actions = compute_diff(&cfg, &local);

    assert_eq!(actions.len(), 1);
    assert!(matches!(
        &actions[0],
        SyncAction::UpdatePushUrl { name, old, new }
        if name == "origin"
          && old.as_deref() == Some("git@old.com:repo.git")
          && new.as_deref() == Some("git@new.com:repo.git")
    ));
}

#[test]
fn diff_extra_ignore() {
    let cfg = make_config(ExtraRemotes::Ignore, vec![]);
    let local = make_local(vec![("extra", "https://extra.com/repo.git", None)]);
    assert!(compute_diff(&cfg, &local).is_empty());
}

#[test]
fn diff_extra_warn() {
    let cfg = make_config(ExtraRemotes::Warn, vec![]);
    let local = make_local(vec![("extra", "https://extra.com/repo.git", None)]);
    // Warn produces no actions (only a diagnostic)
    assert!(compute_diff(&cfg, &local).is_empty());
}

#[test]
fn diff_extra_remove() {
    let cfg = make_config(ExtraRemotes::Remove, vec![]);
    let local = make_local(vec![("extra", "https://extra.com/repo.git", None)]);
    let actions = compute_diff(&cfg, &local);

    assert_eq!(actions.len(), 1);
    assert!(matches!(
        &actions[0],
        SyncAction::Remove { name } if name == "extra"
    ));
}

#[test]
fn diff_complex() {
    let cfg = make_config(
        ExtraRemotes::Remove,
        vec![
            ("origin", "https://new-origin.com/repo.git", None),
            ("upstream", "https://upstream.com/repo.git", None),
        ],
    );
    let local = make_local(vec![
        ("origin", "https://old-origin.com/repo.git", None), // URL mismatch -> Update
        ("stale", "https://stale.com/repo.git", None),       // not in config -> Remove
                                                             // upstream missing from local -> Add
    ]);
    let actions = compute_diff(&cfg, &local);

    assert_eq!(actions.len(), 3);
    assert!(
        actions
            .iter()
            .any(|a| matches!(a, SyncAction::UpdateUrl { name, .. } if name == "origin"))
    );
    assert!(
        actions
            .iter()
            .any(|a| matches!(a, SyncAction::Add { name, .. } if name == "upstream"))
    );
    assert!(
        actions
            .iter()
            .any(|a| matches!(a, SyncAction::Remove { name } if name == "stale"))
    );
}

// --- determinism and warnings ---

#[test]
fn diff_deterministic_repeat() {
    let cfg = make_config(
        ExtraRemotes::Remove,
        vec![
            ("origin", "https://new.com/repo.git", Some("git@new.com:r.git")),
            ("upstream", "https://b.com/repo.git", None),
        ],
    );
    let local = make_local(vec![
        ("origin", "https://old.com/repo.git", None),
        ("stale", "https://stale.com/repo.git", None),
    ]);
    let first = compute_diff(&cfg, &local);
    let second = compute_diff(&cfg, &local);
    assert_eq!(first.len(), second.len());
    for (a, b) in first.iter().zip(second.iter()) {
        assert_eq!(a.describe(), b.describe());
    }
}

#[test]
fn warn_policy_reports_extra_name() {
    let cfg = make_config(ExtraRemotes::Warn, vec![]);
    let local = make_local(vec![("extra", "https://extra.com/repo.git", None)]);
    let warnings = extra_remote_warnings(&cfg, &local);
    assert_eq!(warnings, vec!["extra".to_string()]);

    let cfg_ignore = make_config(ExtraRemotes::Ignore, vec![]);
    assert!(extra_remote_warnings(&cfg_ignore, &local).is_empty());
    let cfg_remove = make_config(ExtraRemotes::Remove, vec![]);
    assert!(extra_remote_warnings(&cfg_remove, &local).is_empty());
}

#[test]
fn url_update_independent_of_matching_push_url() {
    // desired url A with push P, local url B with the same push P:
    // exactly one UpdateUrl and no UpdatePushUrl
    let cfg = make_config(
        ExtraRemotes::Ignore,
        vec![("origin", "A", Some("P"))],
    );
    let local = make_local(vec![("origin", "B", Some("P"))]);
    let actions = compute_diff(&cfg, &local);
    assert_eq!(actions.len(), 1);
    assert!(matches!(
        &actions[0],
        SyncAction::UpdateUrl { name, old_url, new_url }
        if name == "origin" && old_url == "B" && new_url == "A"
    ));
}

#[test]
fn both_urls_update_independently() {
    // both endpoints differ: two separate actions in one pass
    let cfg = make_config(
        ExtraRemotes::Ignore,
        vec![("origin", "https://new.com/r.git", Some("git@new.com:r.git"))],
    );
    let local = make_local(vec![(
        "origin",
        "https://old.com/r.git",
        Some("git@old.com:r.git"),
    )]);
    let actions = compute_diff(&cfg, &local);
    assert_eq!(actions.len(), 2);
    assert!(matches!(&actions[0], SyncAction::UpdateUrl { .. }));
    assert!(matches!(&actions[1], SyncAction::UpdatePushUrl { .. }));
}

// --- action rendering ---

#[test]
fn describe_add_action() {
    let a = SyncAction::Add {
        name: "origin".to_string(),
        url: "https://example.com/repo.git".to_string(),
        push_url: None,
    };
    assert_eq!(a.describe(), "add remote origin (url: https://example.com/repo.git)");
    let b = SyncAction::Add {
        name: "origin".to_string(),
        url: "https://example.com/repo.git".to_string(),
        push_url: Some("git@example.com:repo.git".to_string()),
    };
    assert_eq!(
        b.describe(),
        "add remote origin (url: https://example.com/repo.git) (push_url: git@example.com:repo.git)"
    );
}

#[test]
fn describe_update_and_remove_actions() {
    let u = SyncAction::UpdateUrl {
        name: "origin".to_string(),
        old_url: "https://old.com/r.git".to_string(),
        new_url: "https://new.com/r.git".to_string(),
    };
    assert_eq!(
        u.describe(),
        "update remote origin url: https://old.com/r.git -> https://new.com/r.git"
    );
    let p = SyncAction::UpdatePushUrl {
        name: "origin".to_string(),
        old: None,
        new: Some("git@example.com:repo.git".to_string()),
    };
    assert_eq!(
        p.describe(),
        "update remote origin push_url: (none) -> git@example.com:repo.git"
    );
    let r = SyncAction::Remove {
        name: "stale".to_string(),
    };
    assert_eq!(r.describe(), "remove remote stale");
}

// --- apply_actions tests ---

fn test_repo() -> (tempfile::TempDir, git2::Repository) {
    let dir = tempfile::TempDir::new().unwrap();
    let repo = git2::Repository::init(dir.path()).unwrap();
    (dir, repo)
}

#[test]
fn apply_empty() {
    let (_dir, repo) = test_repo();
    apply_actions(&repo, &[]).unwrap();
    assert!(repo.remotes().unwrap().is_empty());
}

#[test]
fn apply_add() {
    let (_dir, repo) = test_repo();
    let actions = vec![SyncAction::Add {
        name: "origin".into(),
        url: "https://example.com/repo.git".into(),
        push_url: None,
    }];
    apply_actions(&repo, &actions).unwrap();

    let remote = repo.find_remote("origin").unwrap();
    assert_eq!(remote.url().unwrap(), "https://example.com/repo.git");
}

#[test]
fn apply_add_with_push_url() {
    let (_dir, repo) = test_repo();
    let actions = vec![SyncAction::Add {
        name: "origin".into(),
        url: "https://example.com/repo.git".into(),
        push_url: Some("git@example.com:repo.git".into()),
    }];
    apply_actions(&repo, &actions).unwrap();

    let remote = repo.find_remote("origin").unwrap();
    assert_eq!(remote.url().unwrap(), "https://example.com/repo.git");
    assert_eq!(remote.pushurl().unwrap().unwrap(), "git@example.com:repo.git");
}

#[test]
fn apply_update_url() {
    let (_dir, repo) = test_repo();
    repo.remote("origin", "https://old.com/repo.git").unwrap();

    let actions = vec![SyncAction::UpdateUrl {
        name: "origin".into(),
        old_url: "https://old.com/repo.git".into(),
        new_url: "https://new.com/repo.git".into(),
    }];
    apply_actions(&repo, &actions).unwrap();

    let remote = repo.find_remote("origin").unwrap();
    assert_eq!(remote.url().unwrap(), "https://new.com/repo.git");
}

#[test]
fn apply_update_push_url() {
    let (_dir, repo) = test_repo();
    repo.remote("origin", "https://example.com/repo.git")
        .unwrap();

    let actions = vec![SyncAction::UpdatePushUrl {
        name: "origin".into(),
        old: None,
        new: Some("git@example.com:repo.git".into()),
    }];
    apply_actions(&repo, &actions).unwrap();

    let remote = repo.find_remote("origin").unwrap();
    assert_eq!(remote.pushurl().unwrap().unwrap(), "git@example.com:repo.git");
}

#[test]
fn apply_remove() {
    let (_dir, repo) = test_repo();
    repo.remote("origin", "https://example.com/repo.git")
        .unwrap();

    let actions = vec![SyncAction::Remove {
        name: "origin".into(),
    }];
    apply_actions(&repo, &actions).unwrap();

    assert!(repo.find_remote("origin").is_err());
}

// --- end-to-end: add on an empty repository ---

#[test]
fn add_then_listing_shows_exactly_one_remote() {
    let (_dir, repo) = test_repo();
    let cfg = make_config(
        ExtraRemotes::Ignore,
        vec![("origin", "https://example.com/repo.git", None)],
    );
    let local = list_remotes(&repo).unwrap();
    assert!(local.is_empty());
    let actions = compute_diff(&cfg, &local);
    assert_eq!(actions.len(), 1);
    assert!(matches!(&actions[0], SyncAction::Add { .. }));
    apply_actions(&repo, &actions).unwrap();

    let after = list_remotes(&repo).unwrap();
    assert_eq!(after.len(), 1);
    assert_eq!(after[0].0, "origin");
    assert_eq!(after[0].1.url, "https://example.com/repo.git");
    assert!(after[0].1.push_url.is_none());
    // reconciled state diffs to nothing
    assert!(compute_diff(&cfg, &after).is_empty());
}

// --- end-to-end: url update in place ---

#[test]
fn update_then_listing_shows_new_url() {
    let (_dir, repo) = test_repo();
    repo.remote("origin", "https://old/r.git").unwrap();
    let cfg = make_config(ExtraRemotes::Ignore, vec![("origin", "https://new/r.git", None)]);
    let local = list_remotes(&repo).unwrap();
    let actions = compute_diff(&cfg, &local);
    assert_eq!(actions.len(), 1);
    assert!(matches!(
        &actions[0],
        SyncAction::UpdateUrl { name, old_url, new_url }
        if name == "origin" && old_url == "https://old/r.git" && new_url == "https://new/r.git"
    ));
    apply_actions(&repo, &actions).unwrap();

    let after = list_remotes(&repo).unwrap();
    assert_eq!(after.len(), 1);
    assert_eq!(after[0].1.url, "https://new/r.git");
}

use gemote::config::ExtraRemotes;
use gemote::discover::{discover_nested_paths, DirTree};
use gemote::error::GemoteError;
use gemote::git::{
    add_remote, collect_all_repos, list_remotes, list_submodules, open_repo, remove_remote,
    update_remote_push_url, update_remote_url,
};

fn test_repo() -> (tempfile::TempDir, git2::Repository) {
    let dir = tempfile::TempDir::new().unwrap();
    let repo = git2::Repository::init(dir.path()).unwrap();
    (dir, repo)
}

fn root_path(dir: &tempfile::TempDir) -> String {
    dir.path().to_str().unwrap().to_string()
}

fn subdir(name: &str, entries: Vec<DirTree>) -> DirTree {
    DirTree {
        name: name.to_string(),
        is_repo: false,
        entries,
    }
}

fn subrepo(name: &str, entries: Vec<DirTree>) -> DirTree {
    DirTree {
        name: name.to_string(),
        is_repo: true,
        entries,
    }
}

fn root_tree(entries: Vec<DirTree>) -> DirTree {
    DirTree {
        name: String::new(),
        is_repo: true,
        entries,
    }
}

#[test]
fn open_repo_with_path() {
    let (dir, _) = test_repo();
    let repo = open_repo(Some(&root_path(&dir))).unwrap();
    // Canonicalize to handle macOS /var -> /private/var symlink
    let expected = dir.path().canonicalize().unwrap();
    let actual = repo.workdir().unwrap().canonicalize().unwrap();
    assert_eq!(actual, expected);
}

#[test]
fn open_repo_not_found() {
    let result = open_repo(Some(&"/nonexistent/repo".to_string()));
    assert!(matches!(result, Err(GemoteError::RepoNotFound(_))));
}

#[test]
fn list_remotes_empty() {
    let (_dir, repo) = test_repo();
    let remotes = list_remotes(&repo).unwrap();
    assert!(remotes.is_empty());
}

#[test]
fn list_remotes_single() {
    let (_dir, repo) = test_repo();
    repo.remote("origin", "https://example.com/repo.git")
        .unwrap();

    let remotes = list_remotes(&repo).unwrap();
    assert_eq!(remotes.len(), 1);
    assert_eq!(remotes[0].0, "origin");
    assert_eq!(remotes[0].1.url, "https://example.com/repo.git");
    assert!(remotes[0].1.push_url.is_none());
}

#[test]
fn list_remotes_multiple() {
    let (_dir, repo) = test_repo();
    repo.remote("origin", "https://a.com/repo.git").unwrap();
    repo.remote("upstream", "https://b.com/repo.git").unwrap();

    let remotes = list_remotes(&repo).unwrap();
    assert_eq!(remotes.len(), 2);
    let keys: Vec<&str> = remotes.iter().map(|p| p.0.as_str()).collect();
    assert_eq!(keys, vec!["origin", "upstream"]);
}

#[test]
fn list_remotes_with_push_url() {
    let (_dir, repo) = test_repo();
    repo.remote("origin", "https://example.com/repo.git")
        .unwrap();
    repo.remote_set_pushurl("origin", Some("git@example.com:repo.git"))
        .unwrap();

    let remotes = list_remotes(&repo).unwrap();
    assert_eq!(
        remotes[0].1.push_url.as_deref(),
        Some("git@example.com:repo.git")
    );
}

#[test]
fn add_remote_basic() {
    let (_dir, repo) = test_repo();
    add_remote(&repo, "origin", "https://example.com/repo.git", None).unwrap();

    let remote = repo.find_remote("origin").unwrap();
    assert_eq!(remote.url().unwrap(), "https://example.com/repo.git");
    assert!(remote.pushurl().unwrap().is_none());
}

#[test]
fn add_remote_with_push_url() {
    let (_dir, repo) = test_repo();
    add_remote(
        &repo,
        "origin",
        "https://example.com/repo.git",
        Some("git@example.com:repo.git"),
    )
    .unwrap();

    let remote = repo.find_remote("origin").unwrap();
    assert_eq!(remote.url().unwrap(), "https://example.com/repo.git");
    assert_eq!(remote.pushurl().unwrap().unwrap(), "git@example.com:repo.git");
}

#[test]
fn add_remote_duplicate() {
    let (_dir, repo) = test_repo();
    add_remote(&repo, "origin", "https://example.com/repo.git", None).unwrap();
    let result = add_remote(&repo, "origin", "https://other.com/repo.git", None);
    assert!(result.is_err());
}

#[test]
fn test_update_remote_url() {
    let (_dir, repo) = test_repo();
    repo.remote("origin", "https://old.com/repo.git").unwrap();

    update_remote_url(&repo, "origin", "https://new.com/repo.git").unwrap();

    let remote = repo.find_remote("origin").unwrap();
    assert_eq!(remote.url().unwrap(), "https://new.com/repo.git");
}

#[test]
fn update_push_url_set() {
    let (_dir, repo) = test_repo();
    repo.remote("origin", "https://example.com/repo.git")
        .unwrap();

    update_remote_push_url(&repo, "origin", Some("git@example.com:repo.git")).unwrap();

    let remote = repo.find_remote("origin").unwrap();
    assert_eq!(remote.pushurl().unwrap().unwrap(), "git@example.com:repo.git");
}

#[test]
fn update_push_url_clear() {
    let (_dir, repo) = test_repo();
    repo.remote("origin", "https://example.com/repo.git")
        .unwrap();
    repo.remote_set_pushurl("origin", Some("git@example.com:repo.git"))
        .unwrap();

    update_remote_push_url(&repo, "origin", None).unwrap();

    let remote = repo.find_remote("origin").unwrap();
    assert!(remote.pushurl().unwrap().is_none());
}

#[test]
fn test_remove_remote() {
    let (_dir, repo) = test_repo();
    repo.remote("origin", "https://example.com/repo.git")
        .unwrap();

    remove_remote(&repo, "origin").unwrap();

    assert!(repo.find_remote("origin").is_err());
}

#[test]
fn remove_remote_nonexistent() {
    let (_dir, repo) = test_repo();
    let result = remove_remote(&repo, "nonexistent");
    assert!(result.is_err());
    assert!(matches!(result, Err(GemoteError::Git(_))));
}

#[test]
fn list_submodules_empty() {
    let (_dir, repo) = test_repo();
    let (subs, diagnostics) = list_submodules(&repo).unwrap();
    assert!(subs.is_empty());
    assert!(diagnostics.is_empty());
}

#[test]
fn discover_nested_repos_empty() {
    let dir = tempfile::TempDir::new().unwrap();
    git2::Repository::init(dir.path()).unwrap();
    let tree = root_tree(vec![]);
    let nested = discover_nested_paths(&tree, &Vec::new());
    assert!(nested.is_empty());
}

#[test]
fn discover_nested_repos_finds_repo() {
    let tree = root_tree(vec![subdir("libs", vec![subrepo("core", vec![])])]);
    let nested = discover_nested_paths(&tree, &Vec::new());
    assert_eq!(nested.len(), 1);
    assert_eq!(nested[0], "libs/core");
}

#[test]
fn discover_nested_repos_skips_known() {
    let tree = root_tree(vec![subdir("libs", vec![subrepo("core", vec![])])]);
    let known = vec!["libs/core".to_string()];
    let nested = discover_nested_paths(&tree, &known);
    assert!(nested.is_empty());
}

#[test]
fn discover_nested_repos_skips_hidden() {
    // a repository inside a hidden directory is never discovered
    let tree = root_tree(vec![subdir(".hidden", vec![subrepo("repo", vec![])])]);
    let nested = discover_nested_paths(&tree, &Vec::new());
    assert!(nested.is_empty());
}

#[test]
fn discover_nested_repos_multiple() {
    let tree = root_tree(vec![
        subdir("libs", vec![subrepo("core", vec![])]),
        subdir("vendor", vec![subdir("deps", vec![subrepo("util", vec![])])]),
    ]);
    let nested = discover_nested_paths(&tree, &Vec::new());
    assert_eq!(nested.len(), 2);

    let paths: Vec<&str> = nested.iter().map(|s| s.as_str()).collect();
    assert!(paths.contains(&"libs/core"));
    assert!(paths.contains(&"vendor/deps/util"));
}

#[test]
fn discover_nested_repos_stops_at_git_boundary() {
    // an inner repo nested inside the outer one is NOT found
    let tree = root_tree(vec![subdir(
        "libs",
        vec![subrepo(
            "outer",
            vec![subdir("sub", vec![subrepo("inner", vec![])])],
        )],
    )]);
    let nested = discover_nested_paths(&tree, &Vec::new());
    assert_eq!(nested.len(), 1);
    assert_eq!(nested[0], "libs/outer");
}

#[test]
fn discovery_scoped_to_inner_repo_finds_inner() {
    // a discovery pass scoped to the outer repository root does find the
    // repository nested below it
    let outer = subrepo("outer", vec![subdir("sub", vec![subrepo("inner", vec![])])]);
    let nested = discover_nested_paths(&outer, &Vec::new());
    assert_eq!(nested.len(), 1);
    assert_eq!(nested[0], "sub/inner");
}

#[test]
fn collect_all_repos_empty() {
    let (dir, repo) = test_repo();
    let tree = root_tree(vec![]);
    let (all, _diagnostics) = collect_all_repos(&repo, &root_path(&dir), &tree).unwrap();
    assert!(all.is_empty());
}

#[test]
fn collect_all_repos_discovers_nested() {
    let (dir, repo) = test_repo();
    let nested_path = dir.path().join("vendor").join("lib");
    git2::Repository::init(&nested_path).unwrap();
    let tree = root_tree(vec![subdir("vendor", vec![subrepo("lib", vec![])])]);

    let (all, _diagnostics) = collect_all_repos(&repo, &root_path(&dir), &tree).unwrap();
    assert_eq!(all.len(), 1);
    assert_eq!(all[0].path, "vendor/lib");
}

#[test]
fn collect_all_repos_deduplicates() {
    let (dir, repo) = test_repo();

    // Create a nested repo that could be found by discovery
    let nested_path = dir.path().join("libs").join("core");
    git2::Repository::init(&nested_path).unwrap();
    let tree = root_tree(vec![subdir("libs", vec![subrepo("core", vec![])])]);

    // collect_all_repos merges submodules (empty here) + discovered,
    // then deduplicates — verify no duplicates in output
    let (all, _diagnostics) = collect_all_repos(&repo, &root_path(&dir), &tree).unwrap();
    assert_eq!(all.len(), 1);
    assert_eq!(all[0].path, "libs/core");

    // Verify paths are unique
    let mut paths: Vec<String> = all.iter().map(|s| s.path.clone()).collect();
    paths.dedup();
    assert_eq!(paths.len(), all.len());
}

#[test]
fn collect_all_repos_sorted_ascending() {
    let (dir, repo) = test_repo();
    for name in ["zeta", "alpha", "midway"] {
        git2::Repository::init(dir.path().join(name)).unwrap();
    }
    let tree = root_tree(vec![
        subrepo("zeta", vec![]),
        subrepo("alpha", vec![]),
        subrepo("midway", vec![]),
    ]);
    let (all, _diagnostics) = collect_all_repos(&repo, &root_path(&dir), &tree).unwrap();
    let paths: Vec<&str> = all.iter().map(|s| s.path.as_str()).collect();
    assert_eq!(paths, vec!["alpha", "midway", "zeta"]);
}

#[test]
fn default_extra_remotes_is_ignore() {
    assert_eq!(ExtraRemotes::default(), ExtraRemotes::Ignore);
}

#[test]
fn error_messages_by_variant() {
    let not_found = GemoteError::ConfigNotFound("/tmp/none/.gemote".to_string());
    assert_eq!(not_found.message(), "config file not found: /tmp/none/.gemote");
    let parse = GemoteError::ConfigParse("bad document".to_string());
    assert_eq!(parse.message(), "failed to parse config: bad document");
    let ser = GemoteError::ConfigSerialize("oops".to_string());
    assert_eq!(ser.message(), "failed to serialize config");
    let io = GemoteError::Io("broken pipe".to_string());
    assert_eq!(io.message(), "IO error");
    match open_repo(Some(&"/nonexistent/repo".to_string())) {
        Err(e) => assert_eq!(e.message(), "failed to discover git repository"),
        Ok(_) => panic!("repository must not open"),
    }
    let (_dir, repo) = test_repo();
    match remove_remote(&repo, "nonexistent") {
        Err(e) => assert_eq!(e.message(), "git operation failed"),
        Ok(_) => panic!("removal must fail"),
    }
}

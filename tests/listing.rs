use dirgrab::config::{GrabConfig, GrabError};
use dirgrab::gitls::{
    absorb_ls_output, build_exclude_pathspecs, build_scope_pathspecs, derive_scope_subdir,
    git_listing_queries, normalize_for_git, prefix_for_git,
};
use dirgrab::textlist::insert_path;

fn config(patterns: &[&str]) -> GrabConfig {
    GrabConfig {
        target_path: "/repo".to_string(),
        add_headers: true,
        exclude_patterns: patterns.iter().map(|p| p.to_string()).collect(),
        include_untracked: false,
        include_default_output: false,
        no_git: false,
        include_tree: true,
        convert_pdf: false,
        all_repo: false,
    }
}

#[test]
fn prefix_for_git_adds_any_depth_prefix() {
    assert_eq!(prefix_for_git("*.log"), "**/*.log");
    assert_eq!(prefix_for_git("dirgrab.txt"), "**/dirgrab.txt");
    assert_eq!(prefix_for_git("subdir/"), "subdir/");
    assert_eq!(prefix_for_git("a/b.txt"), "a/b.txt");
}

#[test]
fn normalize_for_git_joins_components() {
    assert_eq!(normalize_for_git("a//b/"), "a/b");
    assert_eq!(normalize_for_git("pkg"), "pkg");
    assert_eq!(normalize_for_git(""), "");
}

#[test]
fn scope_pathspecs_for_directory_file_and_none() {
    assert_eq!(build_scope_pathspecs(Some("pkg"), true), vec![":(glob)pkg/**".to_string()]);
    assert_eq!(build_scope_pathspecs(Some("pkg/main.rs"), false), vec![":(glob)pkg/main.rs".to_string()]);
    assert!(build_scope_pathspecs(Some(""), true).is_empty());
    assert!(build_scope_pathspecs(None, true).is_empty());
}

#[test]
fn exclude_pathspecs_default_first_and_deduplicated() {
    let specs = build_exclude_pathspecs(&config(&["*.log", "target/", "*.log", "dirgrab.txt"]));
    assert_eq!(
        specs,
        vec![
            ":(glob,exclude)**/dirgrab.txt".to_string(),
            ":(glob,exclude)**/*.log".to_string(),
            ":(glob,exclude)target/".to_string(),
        ]
    );
}

#[test]
fn exclude_pathspecs_with_default_output_let_in() {
    let mut c = config(&["*.log"]);
    c.include_default_output = true;
    assert_eq!(build_exclude_pathspecs(&c), vec![":(glob,exclude)**/*.log".to_string()]);
}

#[test]
fn queries_tracked_only() {
    let q = git_listing_queries(None, false, &config(&[]));
    assert_eq!(q.len(), 1);
    assert_eq!(
        q[0],
        vec!["ls-files".to_string(), "-z".to_string(), ":(glob,exclude)**/dirgrab.txt".to_string()]
    );
}

#[test]
fn queries_with_untracked_and_scope() {
    let mut c = config(&["*.log"]);
    c.include_untracked = true;
    let q = git_listing_queries(Some("pkg"), true, &c);
    assert_eq!(q.len(), 2);
    assert_eq!(
        q[1],
        vec![
            "ls-files".to_string(),
            "-z".to_string(),
            "--others".to_string(),
            "--exclude-standard".to_string(),
            ":(glob)pkg/**".to_string(),
            ":(glob,exclude)**/dirgrab.txt".to_string(),
            ":(glob,exclude)**/*.log".to_string(),
        ]
    );
}

#[test]
fn tracked_listing_joins_root() {
    let mut files = Vec::new();
    let r = absorb_ls_output("/repo", None, "git ls-files -z", true, "x.rs\0README.md\0", "", &mut files);
    assert!(r.is_ok());
    assert_eq!(files, vec!["/repo/README.md".to_string(), "/repo/x.rs".to_string()]);
}

#[test]
fn scoped_listing_keeps_scope() {
    let scope = derive_scope_subdir("/repo", "/repo/pkg", &config(&[]));
    assert_eq!(scope.as_deref(), Some("pkg"));
    let mut files = Vec::new();
    absorb_ls_output(
        "/repo",
        scope.as_deref(),
        "git ls-files -z :(glob)pkg/**",
        true,
        "pkg/a.rs\0pkg/sub/b.rs\0pkgx/c.rs\0top.rs\0",
        "",
        &mut files,
    )
    .unwrap();
    assert_eq!(files, vec!["/repo/pkg/a.rs".to_string(), "/repo/pkg/sub/b.rs".to_string()]);
}

#[test]
fn derive_scope_whole_repository_cases() {
    let mut c = config(&[]);
    assert_eq!(derive_scope_subdir("/repo", "/repo", &c), None);
    assert_eq!(derive_scope_subdir("/repo", "/elsewhere", &c), None);
    c.all_repo = true;
    assert_eq!(derive_scope_subdir("/repo", "/repo/pkg", &c), None);
}

#[test]
fn listing_union_has_no_repeats() {
    let mut files = Vec::new();
    absorb_ls_output("/repo", None, "q1", true, "b\0a\0", "", &mut files).unwrap();
    absorb_ls_output("/repo", None, "q2", true, "a\0c\0\0", "", &mut files).unwrap();
    assert_eq!(
        files,
        vec!["/repo/a".to_string(), "/repo/b".to_string(), "/repo/c".to_string()]
    );
}

#[test]
fn failed_listing_reports_command() {
    let mut files = vec!["/repo/a".to_string()];
    let r = absorb_ls_output("/repo", None, "git ls-files -z", false, "partial", "boom", &mut files);
    match r {
        Err(GrabError::GitCommandError { command, stderr, stdout }) => {
            assert_eq!(command, "git ls-files -z");
            assert_eq!(stderr, "boom");
            assert_eq!(stdout, "partial");
        }
        other => panic!("unexpected result: {:?}", other),
    }
    assert_eq!(files, vec!["/repo/a".to_string()]);
}

#[test]
fn file_set_insert_orders_and_dedups() {
    let mut v: Vec<String> = Vec::new();
    insert_path(&mut v, "b".to_string());
    insert_path(&mut v, "a".to_string());
    insert_path(&mut v, "b".to_string());
    insert_path(&mut v, "B".to_string());
    assert_eq!(v, vec!["B".to_string(), "a".to_string(), "b".to_string()]);
}

#[test]
fn log_exclusion_passed_to_listing() {
    let specs = build_exclude_pathspecs(&config(&["*.log"]));
    assert!(specs.contains(&":(glob,exclude)**/*.log".to_string()));
}

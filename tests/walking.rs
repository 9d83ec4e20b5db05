use dirgrab::config::GrabConfig;
use dirgrab::tree::generate_indented_tree;
use dirgrab::walk::{build_walk_matcher, walk_step, EntryAction, WalkEntry};

fn config(patterns: &[&str], include_default_output: bool) -> GrabConfig {
    GrabConfig {
        target_path: "/root".to_string(),
        add_headers: false,
        exclude_patterns: patterns.iter().map(|p| p.to_string()).collect(),
        include_untracked: false,
        include_default_output,
        no_git: true,
        include_tree: false,
        convert_pdf: false,
        all_repo: false,
    }
}

fn file(path: &str) -> WalkEntry {
    WalkEntry { path: path.to_string(), is_dir: false, is_file: true, is_symlink: false, resolved: None }
}

fn dir(path: &str) -> WalkEntry {
    WalkEntry { path: path.to_string(), is_dir: true, is_file: false, is_symlink: false, resolved: None }
}

/// Runs the walk decisions over entries in walk order, honouring pruning.
fn walk(patterns: &[&str], include_default_output: bool, entries: Vec<WalkEntry>) -> (Vec<String>, Vec<EntryAction>) {
    let matcher = build_walk_matcher("/root", &config(patterns, include_default_output)).unwrap();
    let mut files = Vec::new();
    let mut actions = Vec::new();
    let mut pruned: Vec<String> = Vec::new();
    for e in entries {
        if pruned.iter().any(|p| e.path.starts_with(&format!("{}/", p))) {
            continue;
        }
        let a = walk_step(&matcher, "/root", &e, &mut files);
        if a == EntryAction::Skip && e.is_dir {
            pruned.push(e.path.clone());
        }
        actions.push(a);
    }
    (files, actions)
}

#[test]
fn walk_leaves_out_metadata_directory() {
    let (files, _) = walk(
        &[],
        false,
        vec![
            dir("/root"),
            file("/root/a.txt"),
            dir("/root/.git"),
            file("/root/.git/config"),
            dir("/root/sub"),
            file("/root/sub/b.txt"),
        ],
    );
    assert_eq!(files, vec!["/root/a.txt".to_string(), "/root/sub/b.txt".to_string()]);
    assert_eq!(generate_indented_tree(&files, "/root").unwrap(), "- a.txt\n- sub/\n  - b.txt\n");
}

#[test]
fn walk_excludes_log_pattern_at_any_depth() {
    let (files, _) = walk(&["*.log"], false, vec![dir("/root"), dir("/root/sub"), file("/root/sub/debug.log"), file("/root/sub/keep.txt")]);
    assert_eq!(files, vec!["/root/sub/keep.txt".to_string()]);
}

#[test]
fn walk_prunes_excluded_directory() {
    let (files, actions) = walk(
        &["*.log", "subdir/"],
        false,
        vec![
            dir("/root"),
            file("/root/file1.txt"),
            dir("/root/subdir"),
            file("/root/subdir/another.txt"),
            file("/root/binary.dat"),
        ],
    );
    assert_eq!(files, vec!["/root/binary.dat".to_string(), "/root/file1.txt".to_string()]);
    assert_eq!(actions[2], EntryAction::Skip);
}

#[test]
fn walk_default_output_excluded_unless_let_in() {
    let entries = || vec![dir("/root"), file("/root/dirgrab.txt"), file("/root/file2.rs")];
    let (files, _) = walk(&[], false, entries());
    assert_eq!(files, vec!["/root/file2.rs".to_string()]);
    let (files, _) = walk(&[], true, entries());
    assert_eq!(files, vec!["/root/dirgrab.txt".to_string(), "/root/file2.rs".to_string()]);
}

#[test]
fn walk_never_takes_directories() {
    let (files, actions) = walk(&[], false, vec![dir("/root"), dir("/root/empty")]);
    assert!(files.is_empty());
    assert_eq!(actions, vec![EntryAction::Descend, EntryAction::Descend]);
}

#[test]
fn walk_skips_links_leaving_root() {
    let outside = WalkEntry {
        path: "/root/link".to_string(),
        is_dir: true,
        is_file: false,
        is_symlink: true,
        resolved: Some("/etc".to_string()),
    };
    let inside = WalkEntry {
        path: "/root/alias.txt".to_string(),
        is_dir: false,
        is_file: true,
        is_symlink: true,
        resolved: Some("/root/a.txt".to_string()),
    };
    let broken = WalkEntry {
        path: "/root/broken".to_string(),
        is_dir: false,
        is_file: true,
        is_symlink: true,
        resolved: None,
    };
    let (files, actions) = walk(&[], false, vec![dir("/root"), outside, file("/root/link/passwd"), inside, broken]);
    assert_eq!(actions[1], EntryAction::Skip);
    assert_eq!(files, vec!["/root/alias.txt".to_string()]);
}

#[test]
fn walk_skips_entries_outside_root() {
    let (files, actions) = walk(&[], false, vec![file("/elsewhere/x.txt")]);
    assert!(files.is_empty());
    assert_eq!(actions, vec![EntryAction::Skip]);
}

#[test]
fn walk_with_bad_pattern_keeps_others() {
    let (files, _) = walk(&["[", "*.rs"], false, vec![dir("/root"), file("/root/a.rs"), file("/root/b.txt")]);
    assert_eq!(files, vec!["/root/b.txt".to_string()]);
}

fn sample_tree() -> Vec<WalkEntry> {
    vec![
        dir("/root"),
        file("/root/file1.txt"),
        file("/root/file2.rs"),
        dir("/root/subdir"),
        file("/root/subdir/file3.log"),
        file("/root/subdir/another.txt"),
        file("/root/binary.dat"),
        file("/root/dirgrab.txt"),
    ]
}

fn expected(rels: &[&str]) -> Vec<String> {
    let mut v: Vec<String> = rels.iter().map(|r| format!("/root/{}", r)).collect();
    v.sort();
    v
}

#[test]
fn test_list_files_walkdir_no_exclude_default_excludes_dirgrab_txt() {
    let (files, _) = walk(&[], false, sample_tree());
    assert_eq!(
        files,
        expected(&["file1.txt", "file2.rs", "subdir/file3.log", "subdir/another.txt", "binary.dat"])
    );
}

#[test]
fn test_list_files_walkdir_with_exclude() {
    let (files, _) = walk(&["*.log", "subdir/"], false, sample_tree());
    assert_eq!(files, expected(&["file1.txt", "file2.rs", "binary.dat"]));
}

#[test]
fn test_list_files_walkdir_include_default_output() {
    let (files, _) = walk(&[], true, sample_tree());
    assert_eq!(
        files,
        expected(&["file1.txt", "file2.rs", "subdir/file3.log", "subdir/another.txt", "binary.dat", "dirgrab.txt"])
    );
}

#[test]
fn walk_metadata_stays_out_despite_whitelist() {
    let git_file = WalkEntry { path: "/root/sub/.git".to_string(), is_dir: false, is_file: true, is_symlink: false, resolved: None };
    let (files, actions) = walk(
        &["!.git/", "!.git/**"],
        false,
        vec![dir("/root"), dir("/root/.git"), file("/root/.git/config"), file("/root/a.txt"), git_file],
    );
    assert_eq!(actions[1], EntryAction::Skip);
    assert_eq!(files, vec!["/root/a.txt".to_string(), "/root/sub/.git".to_string()]);
}

#[test]
fn walk_step_skips_metadata_contents_met_directly() {
    let matcher = build_walk_matcher("/root", &config(&[], false)).unwrap();
    let mut files = Vec::new();
    assert_eq!(walk_step(&matcher, "/root", &file("/root/x/.git/HEAD"), &mut files), EntryAction::Skip);
    assert!(files.is_empty());
}

#[test]
fn walk_skips_unclean_relative_paths() {
    let (files, actions) = walk(&["*.log"], false, vec![file("/root/.//x"), file("/root/./y"), file("/root/a//b")]);
    assert!(files.is_empty());
    assert_eq!(actions, vec![EntryAction::Skip, EntryAction::Skip, EntryAction::Skip]);
}

#[test]
fn walk_matcher_handles_comment_and_padded_lines() {
    let (files, _) = walk(
        &["# a comment", "*.log   ", ""],
        false,
        vec![dir("/root"), file("/root/debug.log"), file("/root/keep.txt")],
    );
    assert_eq!(files, vec!["/root/keep.txt".to_string()]);
}

#[test]
fn walk_matcher_root_with_dot_prefix() {
    let matcher = build_walk_matcher("./proj", &config(&["*.log"], false)).unwrap();
    let mut files = Vec::new();
    assert_eq!(walk_step(&matcher, "./proj", &file("./proj/a.log"), &mut files), EntryAction::Skip);
    assert_eq!(walk_step(&matcher, "./proj", &file("./proj/a.txt"), &mut files), EntryAction::Include);
    assert_eq!(files, vec!["./proj/a.txt".to_string()]);
}

use dirgrab::config::GrabError;
use dirgrab::tree::generate_indented_tree;

fn paths(base: &str, rels: &[&str]) -> Vec<String> {
    rels.iter().map(|r| format!("{}/{}", base, r)).collect()
}

#[test]
fn test_generate_indented_tree_simple() {
    let base = "/tmp/case_simple/project";
    let files = paths(base, &["src/main.rs", "README.md", "src/lib.rs", "tests/basic.rs"]);
    let tree = generate_indented_tree(&files, base).unwrap();
    let expected = "\
- README.md
- src/
  - lib.rs
  - main.rs
- tests/
  - basic.rs
";
    assert_eq!(tree, expected);
}

#[test]
fn test_generate_indented_tree_deeper() {
    let base = "/tmp/case_deeper/project";
    let files = paths(
        base,
        &["a/b/c/file1.txt", "a/d/file2.txt", "top.txt", "a/b/file3.txt"],
    );
    let tree = generate_indented_tree(&files, base).unwrap();
    let expected = "\
- a/
  - b/
    - c/
      - file1.txt
    - file3.txt
  - d/
    - file2.txt
- top.txt
";
    assert_eq!(tree, expected);
}

#[test]
fn tree_flat_and_nested() {
    let files = paths("/root", &["a.txt", "sub/b.txt"]);
    let tree = generate_indented_tree(&files, "/root").unwrap();
    assert_eq!(tree, "- a.txt\n- sub/\n  - b.txt\n");
}

#[test]
fn tree_lists_each_directory_once() {
    let files = paths("/r", &["d/e/f.txt", "d/e/g.txt", "d/h.txt", "d/e/f.txt"]);
    let tree = generate_indented_tree(&files, "/r").unwrap();
    assert_eq!(tree, "- d/\n  - e/\n    - f.txt\n    - g.txt\n  - h.txt\n");
    assert_eq!(tree.matches("- e/").count(), 1);
}

#[test]
fn tree_orders_by_component_not_by_raw_text() {
    let files = paths("/r", &["a.txt", "a/x"]);
    let tree = generate_indented_tree(&files, "/r").unwrap();
    assert_eq!(tree, "- a/\n  - x\n- a.txt\n");
}

#[test]
fn tree_of_no_files_is_empty() {
    let files: Vec<String> = Vec::new();
    assert_eq!(generate_indented_tree(&files, "/r").unwrap(), "");
}

#[test]
fn tree_base_with_trailing_separator() {
    let files = vec!["/r/x/y".to_string()];
    assert_eq!(generate_indented_tree(&files, "/r/").unwrap(), "- x/\n  - y\n");
}

#[test]
fn tree_rejects_file_outside_base() {
    let files = vec!["/r/a.txt".to_string(), "/other/b.txt".to_string()];
    match generate_indented_tree(&files, "/r") {
        Err(GrabError::PathStripError { prefix, path }) => {
            assert_eq!(prefix, "/r");
            assert_eq!(path, "/other/b.txt");
        }
        other => panic!("unexpected result: {:?}", other),
    }
}

#[test]
fn tree_rejects_sibling_with_common_text_prefix() {
    let files = vec!["/rr/a.txt".to_string()];
    assert!(generate_indented_tree(&files, "/r").is_err());
}

#[test]
fn tree_error_names_first_file_outside() {
    let files = vec!["/r/a".to_string(), "/x/first".to_string(), "/y/second".to_string()];
    match generate_indented_tree(&files, "/r") {
        Err(GrabError::PathStripError { path, .. }) => assert_eq!(path, "/x/first"),
        other => panic!("unexpected result: {:?}", other),
    }
}

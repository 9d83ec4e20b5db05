use dirgrab::config::GrabError;
use dirgrab::locate::interpret_toplevel_query;
use dirgrab::config::GrabOutput;
use dirgrab::output::{
    assemble_output, is_pdf_path, token_basis, TREE_ERROR_SECTION,
};
use dirgrab::output::{
    append_extraction_failure, append_file_section, display_path_for, make_tree_section,
    offset_range, shift_segments, strip_header_lines, strip_tree_section, SectionKind,
    EMPTY_TREE_SECTION,
};
use dirgrab::settings::{
    apply_cli_overrides, apply_dirgrab_section, excludes_output_name, CliOverrides, DirgrabSection,
    Flags, PatternAccumulator,
};

#[test]
fn toplevel_found_is_trimmed() {
    let r = interpret_toplevel_query(true, "  /home/u/repo\n", "").unwrap();
    assert_eq!(r.as_deref(), Some("/home/u/repo"));
}

#[test]
fn toplevel_empty_output_means_none() {
    assert_eq!(interpret_toplevel_query(true, " \n", "").unwrap(), None);
}

#[test]
fn toplevel_not_a_repository() {
    let stderr = "fatal: not a git repository (or any of the parent directories): .git\n";
    assert_eq!(interpret_toplevel_query(false, "", stderr).unwrap(), None);
}

#[test]
fn toplevel_dubious_ownership_degrades() {
    let stderr = "fatal: detected dubious ownership in repository at '/x'\n";
    assert_eq!(interpret_toplevel_query(false, "", stderr).unwrap(), None);
}

#[test]
fn toplevel_other_failure_is_error() {
    match interpret_toplevel_query(false, "out", "fatal: something else") {
        Err(GrabError::GitCommandError { command, stderr, stdout }) => {
            assert_eq!(command, "git rev-parse --show-toplevel");
            assert_eq!(stderr, "fatal: something else");
            assert_eq!(stdout, "out");
        }
        other => panic!("unexpected result: {:?}", other),
    }
}

#[test]
fn file_sections_without_headers() {
    let mut buf = String::new();
    let a = append_file_section(&mut buf, "file1.txt", "Content of file 1.", SectionKind::Text, false);
    let b = append_file_section(&mut buf, "file2.rs", "fn main() {}", SectionKind::Text, false);
    assert_eq!(buf, "Content of file 1.\n\nfn main() {}\n\n");
    assert!(a.header_range.is_none());
    assert_eq!(&buf[a.body_range.clone()], "Content of file 1.\n\n");
    assert_eq!(&buf[b.body_range.clone()], "fn main() {}\n\n");
    assert_eq!(b.full_range, b.body_range);
}

#[test]
fn file_sections_with_headers() {
    let mut buf = String::new();
    let a = append_file_section(&mut buf, "file1.txt", "Content of file 1.", SectionKind::Text, true);
    append_file_section(&mut buf, "file2.rs", "fn main() {}\n", SectionKind::Text, true);
    assert_eq!(
        buf,
        "--- FILE: file1.txt ---\nContent of file 1.\n\n--- FILE: file2.rs ---\nfn main() {}\n\n"
    );
    assert_eq!(a.display_path, "file1.txt");
    assert_eq!(&buf[a.header_range.clone().unwrap()], "--- FILE: file1.txt ---\n");
    assert_eq!(&buf[a.body_range.clone()], "Content of file 1.\n\n");
}

#[test]
fn file_section_ranges_count_bytes() {
    let mut buf = "é".to_string();
    let a = append_file_section(&mut buf, "ü.txt", "ñ", SectionKind::ExtractedPdf, true);
    assert_eq!(a.full_range.start, 2);
    assert_eq!(&buf[a.header_range.clone().unwrap()], "--- FILE: ü.txt (extracted text) ---\n");
    assert_eq!(&buf[a.body_range.clone()], "ñ\n\n");
    assert_eq!(a.full_range.end, buf.len());
}

#[test]
fn extraction_failure_note() {
    let mut buf = String::new();
    append_extraction_failure(&mut buf, "doc.pdf", true);
    assert_eq!(buf, "--- FILE: doc.pdf (PDF extraction failed) ---\n\n");
    let mut quiet = String::new();
    append_extraction_failure(&mut quiet, "doc.pdf", false);
    assert_eq!(quiet, "");
}

#[test]
fn display_paths() {
    assert_eq!(display_path_for("/repo/deep/sub/nested.txt", Some("/repo"), "/repo/deep", false), "deep/sub/nested.txt");
    assert_eq!(display_path_for("/repo/deep/sub/nested.txt", Some("/repo"), "/repo/deep", true), "sub/nested.txt");
    assert_eq!(display_path_for("/t/file1.txt", None, "/t", false), "file1.txt");
    assert_eq!(display_path_for("/x/y", None, "/t", false), "/x/y");
}

#[test]
fn offsets_and_shifts() {
    assert_eq!(offset_range(&(3..7), 10), 13..17);
    let mut buf = String::new();
    let seg = append_file_section(&mut buf, "f", "body", SectionKind::Text, true);
    let prefix = make_tree_section("- f\n");
    let shifted = shift_segments(vec![seg], prefix.len());
    let content = format!("{}{}", prefix, buf);
    assert_eq!(&content[shifted[0].header_range.clone().unwrap()], "--- FILE: f ---\n");
    assert_eq!(&content[shifted[0].body_range.clone()], "body\n\n");
}

#[test]
fn tree_sections() {
    assert_eq!(make_tree_section("- a\n"), "---\nDIRECTORY STRUCTURE\n---\n- a\n\n---\nFILE CONTENTS\n---\n\n");
    assert_eq!(EMPTY_TREE_SECTION, "---\nDIRECTORY STRUCTURE (No files selected)\n---\n\n");
}

#[test]
fn strip_tree_keeps_contents() {
    let out = format!("{}{}", make_tree_section("- a\n"), "--- FILE: a ---\nx\n\n");
    assert_eq!(strip_tree_section(&out), "--- FILE: a ---\nx\n\n");
    assert_eq!(strip_tree_section("no tree here"), "no tree here");
}

#[test]
fn strip_headers_drops_header_lines() {
    let content = "--- FILE: foo.txt ---\nhello world\n\n--- FILE: b ---\nlast";
    assert_eq!(strip_header_lines(content), "hello world\n\nlast");
    assert_eq!(strip_header_lines("--- FILE: x ---"), "");
}

#[test]
fn pattern_accumulator_trims_and_dedups() {
    let mut acc = PatternAccumulator::new();
    acc.push("  node_modules/ ");
    acc.push("");
    acc.push("   ");
    acc.push("node_modules/");
    acc.merge(&vec!["Cargo.lock".to_string(), " out.txt".to_string(), "Cargo.lock".to_string()]);
    assert_eq!(
        acc.into_vec(),
        vec!["node_modules/".to_string(), "Cargo.lock".to_string(), "out.txt".to_string()]
    );
}

#[test]
fn dirgrab_section_and_cli_overrides() {
    let mut flags = Flags::default();
    assert!(flags.add_headers && flags.include_tree && flags.convert_pdf && flags.include_untracked);
    assert!(!flags.include_default_output && !flags.no_git && !flags.all_repo);
    let mut acc = PatternAccumulator::new();
    let section = DirgrabSection {
        exclude: Some(vec!["Cargo.lock".to_string()]),
        include_untracked: Some(true),
        include_tree: Some(false),
        add_headers: Some(false),
        convert_pdf: None,
        include_default_output: None,
        no_git: None,
        tracked_only: Some(true),
        all_repo: None,
    };
    apply_dirgrab_section(section, &mut flags, &mut acc);
    assert!(!flags.include_tree);
    assert!(!flags.add_headers);
    assert!(!flags.include_untracked);
    assert!(flags.convert_pdf);
    let cli = CliOverrides {
        no_headers: false,
        no_tree: false,
        no_pdf: true,
        include_default_output: false,
        no_git: false,
        all_repo: true,
        tracked_only: false,
        include_untracked: true,
    };
    apply_cli_overrides(&mut flags, &cli);
    assert!(flags.include_untracked);
    assert!(!flags.convert_pdf);
    assert!(flags.all_repo);
    assert_eq!(acc.into_vec(), vec!["Cargo.lock".to_string()]);
}

#[test]
fn output_name_exclusion() {
    assert!(excludes_output_name("out.txt", true));
    assert!(excludes_output_name("DIRGRAB.TXT", false));
    assert!(!excludes_output_name("DirGrab.txt", true));
    assert!(excludes_output_name("dirgrab.txt2", true));
}

#[test]
fn ignore_text_skips_comments_and_blanks() {
    let mut acc = PatternAccumulator::new();
    acc.push("target/");
    acc.apply_ignore_text("# build output\r\ntarget/\n\n   \n  *.tmp  \r\n#*.log\nnode_modules/");
    assert_eq!(
        acc.into_vec(),
        vec!["target/".to_string(), "*.tmp".to_string(), "node_modules/".to_string()]
    );
}

#[test]
fn assemble_empty_selection() {
    let empty = || GrabOutput { content: String::new(), files: Vec::new() };
    let with_tree = assemble_output(true, None, empty(), false);
    assert_eq!(with_tree.content, "---\nDIRECTORY STRUCTURE (No files selected)\n---\n\n");
    assert!(with_tree.files.is_empty());
    assert_eq!(assemble_output(false, None, empty(), false).content, "");
}

#[test]
fn assemble_with_tree_moves_places() {
    let mut buf = String::new();
    let seg = append_file_section(&mut buf, "file1.txt", "Content of file 1.", SectionKind::Text, true);
    let out = assemble_output(true, Some("- file1.txt\n".to_string()), GrabOutput { content: buf, files: vec![seg] }, true);
    assert!(out.content.starts_with("---\nDIRECTORY STRUCTURE\n---\n- file1.txt\n\n---\nFILE CONTENTS\n---\n\n"));
    assert_eq!(&out.content[out.files[0].header_range.clone().unwrap()], "--- FILE: file1.txt ---\n");
    assert_eq!(&out.content[out.files[0].body_range.clone()], "Content of file 1.\n\n");
}

#[test]
fn assemble_with_failed_tree() {
    let mut buf = String::new();
    let seg = append_file_section(&mut buf, "a", "x", SectionKind::Text, false);
    let out = assemble_output(true, None, GrabOutput { content: buf, files: vec![seg] }, true);
    assert_eq!(out.content, format!("{}x\n\n", TREE_ERROR_SECTION));
    assert_eq!(&out.content[out.files[0].full_range.clone()], "x\n\n");
}

#[test]
fn token_basis_strips_asked_parts() {
    let content = format!("{}{}", make_tree_section("- foo.txt\n"), "--- FILE: foo.txt ---\nhello world\n\n");
    assert_eq!(token_basis(&content, true, true, true, true), "hello world\n\n");
    assert_eq!(token_basis(&content, true, true, false, true), "---\nDIRECTORY STRUCTURE\n---\n- foo.txt\n\n---\nFILE CONTENTS\n---\n\nhello world\n\n");
    assert_eq!(token_basis(&content, true, true, false, false), content);
    assert_eq!(token_basis(&content, false, false, true, true), content);
}

#[test]
fn test_process_files_with_headers_git_mode() {
    let root = "/tmp/sample";
    let mut content = String::new();
    let mut files = Vec::new();
    for (path, body) in [("/tmp/sample/file1.txt", "Content of file 1."), ("/tmp/sample/file2.rs", "fn main() {}")] {
        let display = display_path_for(path, Some(root), root, false);
        files.push(append_file_section(&mut content, &display, body, SectionKind::Text, true));
    }
    let expected_content = format!(
        "--- FILE: {} ---\nContent of file 1.\n\n--- FILE: {} ---\nfn main() {{}}\n\n",
        "file1.txt", "file2.rs"
    );
    assert_eq!(content, expected_content);
    assert_eq!(files.len(), 2);
    assert!(files.iter().all(|seg| seg.header_range.is_some()));
    let first = &files[0];
    assert_eq!(first.display_path, "file1.txt");
    assert_eq!(&content[first.header_range.clone().unwrap()], "--- FILE: file1.txt ---\n");
    assert_eq!(&content[first.body_range.clone()], "Content of file 1.\n\n");
}

#[test]
fn test_process_files_headers_no_git_mode() {
    let target = "/tmp/sample";
    let mut content = String::new();
    let mut files = Vec::new();
    for (path, body) in [("/tmp/sample/file1.txt", "Content of file 1."), ("/tmp/sample/subdir/another.txt", "Another text file.")] {
        let display = display_path_for(path, None, target, true);
        files.push(append_file_section(&mut content, &display, body, SectionKind::Text, true));
    }
    let expected_content = format!(
        "--- FILE: {} ---\nContent of file 1.\n\n--- FILE: {} ---\nAnother text file.\n\n",
        "file1.txt", "subdir/another.txt"
    );
    assert_eq!(content, expected_content);
    assert_eq!(files.len(), 2);
}

#[test]
fn pdf_names() {
    assert!(is_pdf_path("/docs/sample.pdf"));
    assert!(is_pdf_path("/docs/REPORT.PdF"));
    assert!(is_pdf_path("a.tar.pdf"));
    assert!(!is_pdf_path("/docs/.pdf"));
    assert!(!is_pdf_path("/docs/pdf"));
    assert!(!is_pdf_path("/docs/sample.pdfx"));
    assert!(!is_pdf_path("/docs.pdf/readme"));
    assert!(!is_pdf_path(""));
}

#[test]
fn output_name_offered_to_patterns() {
    let mut acc = PatternAccumulator::new();
    acc.offer_output_name(Some("out.txt"), false);
    acc.offer_output_name(Some("dirgrab.txt"), true);
    acc.offer_output_name(None, false);
    acc.offer_output_name(Some("DIRGRAB.TXT"), false);
    assert_eq!(acc.into_vec(), vec!["out.txt".to_string(), "DIRGRAB.TXT".to_string()]);
}

#[test]
fn unicode_white_space_trimmed() {
    let mut acc = PatternAccumulator::new();
    acc.push("\u{3000}\t*.tmp\u{00a0}\n");
    acc.push("\u{2003}");
    assert_eq!(acc.into_vec(), vec!["*.tmp".to_string()]);
}

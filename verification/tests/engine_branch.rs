use herdr_hunks::engine::branch::{assemble_rows, keep_sections, parse_name_status, split_header, status_of};
use herdr_hunks::git::{decode_git_patch_path, ChangedFile, ChangedFileStatus};

#[test]
fn name_status_records_carry_the_old_path_for_renames_and_copies() {
    let out = b"M\0a.txt\0R100\0old.txt\0new.txt\0A\0d.txt\0T\0link\0C75\0src\0copy\0D\0gone\0";
    let records = parse_name_status(out);
    let brief: Vec<(char, Option<&str>, &str)> = records
        .iter()
        .map(|r| (r.status, r.old.as_deref(), r.path.as_str()))
        .collect();
    assert_eq!(
        brief,
        vec![
            ('M', None, "a.txt"),
            ('R', Some("old.txt"), "new.txt"),
            ('A', None, "d.txt"),
            ('T', None, "link"),
            ('C', Some("src"), "copy"),
            ('D', None, "gone"),
        ]
    );
    assert!(parse_name_status(b"").is_empty());
}

#[test]
fn headers_split_plain_quoted_and_mixed_sides() {
    assert_eq!(split_header("a/x y b/x y"), None, "ambiguous without quoting");
    assert_eq!(
        split_header(r#""a/sp\303\244ce" "b/sp\303\244ce""#),
        Some(("a/späce".into(), "b/späce".into()))
    );
    assert_eq!(
        split_header(r#""a/q\"uote" b/plain"#),
        Some(("a/q\"uote".into(), "b/plain".into()))
    );
    assert_eq!(
        split_header(r#"a/plain "b/tab\there""#),
        Some(("a/plain".into(), "b/tab\there".into()))
    );
}

#[test]
fn only_sections_naming_the_row_are_kept_and_type_changes_keep_both() {
    let two_paths = "diff --git a/tools b/tools\ndeleted file mode 100644\n--- a/tools\n+++ /dev/null\n@@ -1 +0,0 @@\n-x\ndiff --git a/tools/run b/tools/run\nnew file mode 100644\n--- /dev/null\n+++ b/tools/run\n@@ -0,0 +1 @@\n+y\n";
    assert_eq!(
        keep_sections(two_paths, "tools", None),
        "diff --git a/tools b/tools\ndeleted file mode 100644\n--- a/tools\n+++ /dev/null\n@@ -1 +0,0 @@\n-x\n"
    );
    let type_change = "diff --git a/f b/f\ndeleted file mode 100644\n@@ -1 +0,0 @@\n-x\ndiff --git a/f b/f\nnew file mode 120000\n@@ -0,0 +1 @@\n+target\n";
    assert_eq!(keep_sections(type_change, "f", None), type_change);
    let rename = "diff --git a/old b/new\nsimilarity index 90%\nrename from old\nrename to new\n@@ -1 +1 @@\n-x\n+y\ndiff --git a/new/inner b/new/inner\nnew file mode 100644\n@@ -0,0 +1 @@\n+z\n";
    assert_eq!(
        keep_sections(rename, "new", Some("old")),
        &rename[..rename.find("diff --git a/new/inner").unwrap()]
    );
    let quoted = "diff --git \"a/sp\\303\\244ce\" \"b/sp\\303\\244ce\"\n@@ -1 +1 @@\n-x\n+y\n";
    assert_eq!(keep_sections(quoted, "späce", None), quoted);
    assert_eq!(keep_sections(quoted, "space", None), "");
}

#[test]
fn a_missing_final_field_reads_as_an_empty_path() {
    let records = parse_name_status(b"R90\0only-old");
    assert_eq!(records.len(), 1);
    assert_eq!(records[0].old.as_deref(), Some("only-old"));
    assert_eq!(records[0].path, "");
    assert!(parse_name_status(b"\0M\0x\0").is_empty(), "an empty status ends the list");
}

#[test]
fn codes_map_to_row_statuses() {
    assert_eq!(status_of('A'), ChangedFileStatus::Added);
    assert_eq!(status_of('C'), ChangedFileStatus::Added);
    assert_eq!(status_of('D'), ChangedFileStatus::Deleted);
    assert_eq!(status_of('R'), ChangedFileStatus::Renamed);
    assert_eq!(status_of('T'), ChangedFileStatus::Modified);
    assert_eq!(status_of('M'), ChangedFileStatus::Modified);
}

#[test]
fn quoted_paths_decode_escapes_and_leave_plain_tokens_alone() {
    assert_eq!(decode_git_patch_path(r#""a\tb\\c\"d""#), "a\tb\\c\"d");
    assert_eq!(decode_git_patch_path(r#""\346\227\245""#), "日");
    assert_eq!(decode_git_patch_path("plain path"), "plain path");
    assert_eq!(decode_git_patch_path(r#""\q""#), "\\q", "a backslash that starts no escape is kept");
    assert_eq!(decode_git_patch_path(r#""é""#), "é");
    assert_eq!(decode_git_patch_path("\""), "\"");
    assert_eq!(split_header(r#""a/x"éb/y"#), None, "the separator after a quoted side is one byte");
}

#[test]
fn branch_rows_are_sorted_counted_and_collapsed() {
    let records = parse_name_status(b"M\0b.txt\0D\0gone\0R90\0old.txt\0a.txt\0A\0\xc3\xa9t\xc3\xa9\0");
    let counts = vec![("b.txt".to_string(), 3, 1), ("a.txt".to_string(), 1, 1), ("b.txt".to_string(), 9, 9)];
    let untracked = vec![
        ChangedFile { path: "gone".into(), status: ChangedFileStatus::Untracked, staged: false, insertions: None, deletions: None },
        ChangedFile { path: "b.txt".into(), status: ChangedFileStatus::Untracked, staged: false, insertions: None, deletions: None },
        ChangedFile { path: "c.txt".into(), status: ChangedFileStatus::Modified, staged: false, insertions: None, deletions: None },
    ];
    let rows = assemble_rows(&records, &counts, untracked);
    let brief: Vec<(&str, ChangedFileStatus, Option<u32>)> =
        rows.files.iter().map(|f| (f.path.as_str(), f.status, f.insertions)).collect();
    assert_eq!(
        brief,
        vec![
            ("a.txt", ChangedFileStatus::Renamed, Some(1)),
            ("b.txt", ChangedFileStatus::Modified, Some(3)),
            ("gone", ChangedFileStatus::Deleted, None),
            ("gone", ChangedFileStatus::Untracked, None),
            ("été", ChangedFileStatus::Added, None),
        ],
        "sorted by path; a deleted path keeps its untracked row; other repeats collapse; only untracked rows join"
    );
    assert_eq!(rows.rename_sources, vec![("a.txt".to_string(), "old.txt".to_string())]);
}

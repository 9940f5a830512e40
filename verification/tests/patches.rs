use vcs_flow_commit::patch::{assemble, split};

const PATCH: &[u8] = b"diff --git a/f.txt b/f.txt\n\
index 111..222 100644\n\
--- a/f.txt\n\
+++ b/f.txt\n\
@@ -1,3 +1,3 @@ first\n\
 ctx\n\
-old1\n\
+new1\n\
@@ -10,2 +10,3 @@ second\n\
 ctx2\n\
+added\n";

#[test]
fn split_separates_header_and_hunks() {
    let (header, hunks) = split(PATCH);
    assert!(header.starts_with(b"diff --git"));
    assert!(header.ends_with(b"+++ b/f.txt\n"));
    assert_eq!(hunks.len(), 2);
    assert!(hunks[0].starts_with(b"@@ -1,3 +1,3 @@ first\n"));
    assert!(hunks[0].ends_with(b"+new1\n"));
    assert!(hunks[1].starts_with(b"@@ -10,2 +10,3 @@ second\n"));
}

#[test]
fn assemble_full_selection_is_byte_identical() {
    let (header, hunks) = split(PATCH);
    assert_eq!(assemble(&header, &hunks, &[0, 1]), PATCH);
}

#[test]
fn assemble_subset_keeps_only_selected_hunks() {
    let (header, hunks) = split(PATCH);
    let only_second = assemble(&header, &hunks, &[1]);
    let text = String::from_utf8_lossy(&only_second);
    assert!(text.contains("second"));
    assert!(!text.contains("first"));
    assert!(text.starts_with("diff --git"));
    assert_eq!(assemble(&header, &hunks, &[1, 7]), only_second);
}

#[test]
fn split_is_byte_exact_for_crlf_and_high_bytes() {
    let patch: Vec<u8> = [
        &b"--- a/f\n+++ b/f\n"[..],
        b"@@ -1 +1 @@\n-a\xFF\r\n+b\xFE\r\n",
        b"@@ -5 +5 @@\n-c\r\n+d\r\n",
    ]
    .concat();
    let (header, hunks) = split(&patch);
    assert_eq!(hunks.len(), 2);
    assert_eq!(assemble(&header, &hunks, &[0, 1]), patch);
    let first_only = assemble(&header, &hunks, &[0]);
    assert!(first_only.ends_with(b"+b\xFE\r\n"));
}

#[test]
fn patch_without_hunks_is_all_header() {
    let (header, hunks) = split(b"diff --git a/x b/x\nBinary files differ\n");
    assert!(hunks.is_empty());
    assert!(header.ends_with(b"differ\n"));
}

#[test]
fn at_signs_inside_hunk_bodies_do_not_split() {
    let patch = b"--- a/f\n+++ b/f\n@@ -1 +1 @@\n- x @@ y\n+ z @@ w\n";
    let (_, hunks) = split(patch);
    assert_eq!(hunks.len(), 1);
}

#[test]
fn the_order_of_a_selection_does_not_matter() {
    let (header, hunks) = split(PATCH);
    assert_eq!(assemble(&header, &hunks, &[1, 0, 1]), PATCH);
    assert_eq!(assemble(&header, &hunks, &[]), header);
}

#[test]
fn a_subset_splits_into_the_selected_hunks() {
    let (header, hunks) = split(PATCH);
    let (again, kept) = split(&assemble(&header, &hunks, &[1]));
    assert_eq!(again, header);
    assert_eq!(kept, vec![hunks[1].clone()]);
}

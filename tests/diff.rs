use shadcn_ui::diff::{diff_ops, tag_lines, DiffOp};
use shadcn_ui::hunks::build_hunks;
use shadcn_ui::text::{push_decimal, split_lines};
use shadcn_ui::unified::{render_unified, unified_diff, DIFF_CONTEXT};

fn lines(v: &[&str]) -> Vec<String> {
    v.iter().map(|s| s.to_string()).collect()
}

#[test]
fn substitution_script_and_hunk() {
    let old = lines(&["a", "b", "c"]);
    let new = lines(&["a", "x", "c"]);
    let ops = diff_ops(&old, &new);
    assert_eq!(ops, vec![DiffOp::Equal, DiffOp::Remove, DiffOp::Add, DiffOp::Equal]);
    let hunks = build_hunks(&old, &new, 3);
    assert_eq!(hunks.len(), 1);
    assert_eq!(hunks[0].old_start, 1);
    assert_eq!(hunks[0].old_count, 3);
    assert_eq!(hunks[0].new_start, 1);
    assert_eq!(hunks[0].new_count, 3);
    assert_eq!(
        unified_diff("a\nb\nc\n", "a\nx\nc\n", "button.rs"),
        "--- a/button.rs (registry)\n+++ b/button.rs (local)\n@@ -1,3 +1,3 @@\n a\n-b\n+x\n c\n"
    );
}

#[test]
fn pure_insertion_script_and_hunk() {
    let old: Vec<String> = Vec::new();
    let new = lines(&["a"]);
    assert_eq!(diff_ops(&old, &new), vec![DiffOp::Add]);
    let hunks = build_hunks(&old, &new, 3);
    assert_eq!(hunks.len(), 1);
    assert_eq!(hunks[0].old_start, 1);
    assert_eq!(hunks[0].old_count, 0);
    assert_eq!(hunks[0].new_start, 1);
    assert_eq!(hunks[0].new_count, 1);
    assert_eq!(unified_diff("", "a", "f.rs"), "--- a/f.rs (registry)\n+++ b/f.rs (local)\n@@ -1,0 +1,1 @@\n+a\n");
}

#[test]
fn pure_deletion() {
    assert_eq!(diff_ops(&lines(&["a", "b"]), &[]), vec![DiffOp::Remove, DiffOp::Remove]);
    assert_eq!(unified_diff("a\nb\n", "", "f"), "--- a/f (registry)\n+++ b/f (local)\n@@ -1,2 +1,0 @@\n-a\n-b\n");
}

fn numbered(n: usize) -> Vec<String> {
    (0..n).map(|i| format!("line{}", i)).collect()
}

#[test]
fn distant_changes_make_two_hunks() {
    // Changes at lines 0 and 11, with 10 unchanged lines between them.
    let old = numbered(12);
    let mut new = old.clone();
    new[0] = "changed0".to_string();
    new[11] = "changed11".to_string();
    let hunks = build_hunks(&old, &new, DIFF_CONTEXT);
    assert_eq!(hunks.len(), 2);
    assert_eq!((hunks[0].old_start, hunks[0].old_count), (1, 4));
    assert_eq!((hunks[0].new_start, hunks[0].new_count), (1, 4));
    assert_eq!((hunks[1].old_start, hunks[1].old_count), (9, 4));
    assert_eq!((hunks[1].new_start, hunks[1].new_count), (9, 4));
}

#[test]
fn near_changes_merge_into_one_hunk() {
    // Changes at lines 0 and 3, with 2 unchanged lines between them.
    let old = numbered(12);
    let mut new = old.clone();
    new[0] = "changed0".to_string();
    new[3] = "changed3".to_string();
    let hunks = build_hunks(&old, &new, DIFF_CONTEXT);
    assert_eq!(hunks.len(), 1);
    assert_eq!((hunks[0].old_start, hunks[0].old_count), (1, 7));
    assert_eq!((hunks[0].new_start, hunks[0].new_count), (1, 7));
    let removed = hunks[0].lines.iter().filter(|l| l.kind == DiffOp::Remove).count();
    let added = hunks[0].lines.iter().filter(|l| l.kind == DiffOp::Add).count();
    assert_eq!((removed, added), (2, 2));
}

#[test]
fn gap_of_exactly_twice_context_merges() {
    let old = numbered(20);
    let mut new = old.clone();
    new[2] = "x".to_string();
    new[9] = "y".to_string();
    assert_eq!(build_hunks(&old, &new, 3).len(), 1);
    new[9] = old[9].clone();
    new[10] = "y".to_string();
    assert_eq!(build_hunks(&old, &new, 3).len(), 2);
}

#[test]
fn identical_inputs_give_header_only() {
    let a = lines(&["x", "y", "z"]);
    assert_eq!(diff_ops(&a, &a), vec![DiffOp::Equal; 3]);
    assert!(build_hunks(&a, &a, 3).is_empty());
    assert_eq!(unified_diff("x\ny\nz\n", "x\ny\nz\n", "f"), "--- a/f (registry)\n+++ b/f (local)\n");
    assert_eq!(unified_diff("", "", "f"), "--- a/f (registry)\n+++ b/f (local)\n");
}

#[test]
fn replaying_the_script_rebuilds_both_sides() {
    let old = lines(&["a", "b", "c", "d", "e"]);
    let new = lines(&["b", "x", "d", "e", "f", "a"]);
    let ops = diff_ops(&old, &new);
    let tagged = tag_lines(&old, &new, &ops);
    let old_side: Vec<String> =
        tagged.iter().filter(|t| t.kind != DiffOp::Add).map(|t| t.text.clone()).collect();
    let new_side: Vec<String> =
        tagged.iter().filter(|t| t.kind != DiffOp::Remove).map(|t| t.text.clone()).collect();
    assert_eq!(old_side, old);
    assert_eq!(new_side, new);
    let kept = ops.iter().filter(|o| **o == DiffOp::Equal).count();
    assert_eq!(kept, 3);
}

#[test]
fn ties_prefer_add_over_remove() {
    assert_eq!(diff_ops(&lines(&["a"]), &lines(&["b"])), vec![DiffOp::Remove, DiffOp::Add]);
    assert_eq!(
        diff_ops(&lines(&["a", "b"]), &lines(&["b", "a"])),
        vec![DiffOp::Remove, DiffOp::Equal, DiffOp::Add]
    );
}

#[test]
fn tagged_line_numbers() {
    let old = lines(&["a", "b"]);
    let new = lines(&["b", "c"]);
    let ops = diff_ops(&old, &new);
    let tagged = tag_lines(&old, &new, &ops);
    let shape: Vec<(DiffOp, usize, usize, String)> =
        tagged.iter().map(|t| (t.kind, t.old_line, t.new_line, t.text.clone())).collect();
    assert_eq!(
        shape,
        vec![
            (DiffOp::Remove, 0, 0, "a".to_string()),
            (DiffOp::Equal, 1, 0, "b".to_string()),
            (DiffOp::Add, 2, 1, "c".to_string()),
        ]
    );
}

#[test]
fn hunk_in_the_middle_has_context_and_numbers() {
    let old = numbered(20);
    let mut new = old.clone();
    new[10] = "changed".to_string();
    let text = unified_diff(&(old.join("\n") + "\n"), &(new.join("\n") + "\n"), "m.rs");
    let expected = "--- a/m.rs (registry)\n+++ b/m.rs (local)\n@@ -8,7 +8,7 @@\n line7\n line8\n line9\n-line10\n+changed\n line11\n line12\n line13\n";
    assert_eq!(text, expected);
}

#[test]
fn render_of_no_hunks_is_the_header() {
    assert_eq!(render_unified("x", &Vec::new()), "--- a/x (registry)\n+++ b/x (local)\n");
}

#[test]
fn line_splitting() {
    assert_eq!(split_lines(""), Vec::<String>::new());
    assert_eq!(split_lines("a"), vec!["a"]);
    assert_eq!(split_lines("a\n"), vec!["a"]);
    assert_eq!(split_lines("a\nb"), vec!["a", "b"]);
    assert_eq!(split_lines("a\r\nb\r\n"), vec!["a", "b"]);
    assert_eq!(split_lines("\n\n"), vec!["", ""]);
    assert_eq!(split_lines("a\rb\n"), vec!["a\rb"]);
    assert_eq!(split_lines("a\r"), vec!["a\r"]);
    assert_eq!(split_lines("a\r\r\n"), vec!["a\r"]);
    assert_eq!(split_lines("héllo\nwörld"), vec!["héllo", "wörld"]);
    let s = "x\r\ny\n\nz\r";
    assert_eq!(split_lines(s), s.lines().collect::<Vec<_>>());
}

#[test]
fn crlf_and_lf_texts_compare_equal() {
    assert_eq!(unified_diff("a\r\nb\r\n", "a\nb", "f"), "--- a/f (registry)\n+++ b/f (local)\n");
}

#[test]
fn decimal_rendering() {
    let mut s = String::from("n=");
    push_decimal(&mut s, 0);
    assert_eq!(s, "n=0");
    let mut s = String::new();
    push_decimal(&mut s, 1234567890);
    assert_eq!(s, "1234567890");
    let mut s = String::new();
    push_decimal(&mut s, usize::MAX);
    assert_eq!(s, usize::MAX.to_string());
}

use lunarzero::edit::{
    after_write, count_changes, detect_line_ending, diff_stats, normalize_line_endings, split_bom, to_line_ending,
    trim_diff, unified_diff, EditArgs, EditTool, LineChange, WriteArgs, WriteTool,
};
use lunarzero::task::{TaskTool, ToolError};

#[test]
fn trims_common_indent_in_diff() {
    let d = "--- a\n+++ b\n@@ -1,2 +1,2 @@\n     foo\n-    bar\n+    baz\n";
    let t = trim_diff(d);
    assert!(t.contains("\n foo\n-bar\n+baz"));
}

#[test]
fn stats() {
    assert_eq!(diff_stats("a\nb\n", "a\nc\nd\n"), (2, 1));
}

#[test]
fn only_common_indentation_goes() {
    // a line without indentation keeps everything
    assert_eq!(trim_diff("+  a\n+b\n"), "+  a\n+b\n");
    // blank lines do not count, and lose what they have
    assert_eq!(trim_diff("+    a\n+ \n-      b\n"), "+a\n+\n-  b");
    // headers are left alone
    assert_eq!(trim_diff("---  x\n+++  y\n+  a"), "---  x\n+++  y\n+a");
    assert_eq!(trim_diff("no diff"), "no diff");
    assert_eq!(trim_diff(""), "");
    // wide blanks are blanks like any other
    assert_eq!(trim_diff("+\u{3000}a\n-\u{3000}\u{3000}b"), "+a\n-\u{3000}b");
}

#[test]
fn marks_are_split_off() {
    assert_eq!(split_bom("\u{feff}x"), (true, "x".to_string()));
    assert_eq!(split_bom("x\u{feff}"), (false, "x\u{feff}".to_string()));
    assert_eq!(split_bom(""), (false, String::new()));
}

#[test]
fn line_endings_are_kept() {
    assert_eq!(detect_line_ending("a\r\nb\n"), "\r\n");
    assert_eq!(detect_line_ending("a\nb\r"), "\n");
    assert_eq!(normalize_line_endings("a\r\nb\rc\r\r\n"), "a\nb\rc\r\n");
    assert_eq!(to_line_ending("a\nb\r\nc", "\r\n"), "a\r\nb\r\nc");
    assert_eq!(to_line_ending("a\nb\r\nc", "\n"), "a\nb\nc");
    let s = "x\r\ny\nz\r\n";
    assert_eq!(normalize_line_endings(&to_line_ending(s, "\r\n")), normalize_line_endings(s));
    assert_eq!(normalize_line_endings("plain\ntext\n"), "plain\ntext\n");
}

#[test]
fn diffs_are_unified() {
    let d = unified_diff("f.rs", "a\nb\nc\n", "a\nx\nc\n");
    assert_eq!(d, "--- f.rs\n+++ f.rs\n@@ -1,3 +1,3 @@\n a\n-b\n+x\n c\n");
    assert_eq!(unified_diff("f", "same\n", "same\n"), "");
    assert_eq!(count_changes(&vec![LineChange::Kept, LineChange::Added, LineChange::Removed, LineChange::Added]), (2, 1));
    assert_eq!(diff_stats("", "a\nb"), (2, 0));
    assert_eq!(diff_stats("a\n", ""), (0, 1));
    assert_eq!(diff_stats("same\n", "same\n"), (0, 0));
}

fn args(path: &str, from: &str, to: &str) -> EditArgs {
    EditArgs { file_path: path.into(), old_string: from.into(), new_string: to.into(), replace_all: false }
}

#[test]
fn edits_name_their_file() {
    let t = EditTool::target(&args("src/a.rs", "x", "y"), "/h", "/w/sub", "/w", "identical").unwrap();
    assert_eq!((t.path.as_str(), t.shown.as_str()), ("/w/sub/src/a.rs", "sub/src/a.rs"));
    assert!(matches!(EditTool::target(&args("", "x", "y"), "/h", "/w", "/w", "i"), Err(ToolError::Invalid(w))
        if w == "filePath is required"));
    assert!(matches!(EditTool::target(&args("a", "x", "x"), "/h", "/w", "/w", "i"), Err(ToolError::Invalid(w))
        if w == "i"));
    let t = WriteTool::target(&WriteArgs { file_path: "/v/b".into(), content: "c".into() }, "/h", "/w", "/w");
    assert_eq!((t.path.as_str(), t.shown.as_str()), ("/v/b", "/v/b"));
}

#[test]
fn empty_search_makes_a_new_file() {
    let p = EditTool::create(&args("a", "", "\u{feff}new\n"), "/w/a", false, "taken").unwrap();
    assert_eq!((p.before.as_str(), p.after.as_str(), p.out.as_str()), ("", "new\n", "\u{feff}new\n"));
    assert_eq!(p.diff, "--- /w/a\n+++ /w/a\n@@ -0,0 +1 @@\n+new\n");
    assert!(matches!(EditTool::create(&args("a", "", "x"), "/w/a", true, "taken"), Err(ToolError::Invalid(w))
        if w == "taken"));
}

#[test]
fn only_files_are_edited() {
    assert!(EditTool::check_file("/w/a", Some(false)).is_ok());
    assert!(matches!(EditTool::check_file("/w/a", None), Err(ToolError::Other(w)) if w == "File /w/a not found"));
    assert!(matches!(EditTool::check_file("/w/a", Some(true)), Err(ToolError::Other(w))
        if w == "Path is a directory, not a file: /w/a"));
}

#[test]
fn replacements_keep_mark_and_endings() {
    let raw = "\u{feff}a\r\nb\r\n";
    let (source, from, to) = EditTool::search(&args("f", "a\nb", "a\nc\n"), raw);
    assert_eq!((source.as_str(), from.as_str(), to.as_str()), ("a\r\nb\r\n", "a\r\nb", "a\r\nc\r\n"));
    let p = EditTool::replace("f", raw, "a\r\nc\r\n");
    assert_eq!(p.out, "\u{feff}a\r\nc\r\n");
    assert_eq!(p.diff, "--- f\n+++ f\n@@ -1,2 +1,2 @@\n a\n-b\n+c\n");
    assert_eq!((p.before.as_str(), p.after.as_str()), ("a\r\nb\r\n", "a\r\nc\r\n"));
    assert_eq!(EditTool::final_diff("f", "a\r\n", "b\n"), "--- f\n+++ f\n@@ -1 +1 @@\n-a\n+b\n");
    let w = WriteTool::plan(&WriteArgs { file_path: "f".into(), content: "x\n".into() }, "f", "\u{feff}y\n");
    assert_eq!((w.out.as_str(), w.before.as_str(), w.after.as_str()), ("\u{feff}x\n", "y\n", "x\n"));
    let w = WriteTool::plan(&WriteArgs { file_path: "f".into(), content: "x\n".into() }, "f", "");
    assert_eq!(w.out, "x\n");
}

#[test]
fn formatting_redraws_the_diff_of_a_change() {
    let change = args("f", "a", "b");
    let p = EditTool::finish(&change, "f", EditTool::replace("f", "a\r\n", "b\r\n"), Some("c\n".into()));
    assert_eq!(p.diff, "--- f\n+++ f\n@@ -1 +1 @@\n-a\n+c\n");
    assert_eq!((p.before.as_str(), p.after.as_str(), p.out.as_str()), ("a\r\n", "c\n", "b\r\n"));
    let p = EditTool::finish(&change, "f", EditTool::replace("f", "a\r\n", "b\r\n"), None);
    assert_eq!((p.diff.as_str(), p.after.as_str()), ("--- f\n+++ f\n@@ -1 +1 @@\n-a\n+b\n", "b\r\n"));
    let new = args("f", "", "x\n");
    let p = EditTool::finish(&new, "f", EditTool::create(&new, "f", false, "taken").unwrap(), Some("y\n".into()));
    assert_eq!((p.diff.as_str(), p.after.as_str()), ("--- f\n+++ f\n@@ -0,0 +1 @@\n+x\n", "y\n"));
    let plan = WriteTool::plan(&WriteArgs { file_path: "f".into(), content: "x\n".into() }, "f", "");
    let p = WriteTool::finish(plan, Some("y\n".into()));
    assert_eq!((p.diff.as_str(), p.after.as_str()), ("--- f\n+++ f\n@@ -0,0 +1 @@\n+x\n", "y\n"));
}

#[test]
fn trimming_twice_changes_nothing() {
    let d = "--- a\n+++ b\n@@ -1,2 +1,2 @@\n     foo\n-      bar\n+    baz\n";
    let t = trim_diff(d);
    assert_eq!(t, "--- a\n+++ b\n@@ -1,2 +1,2 @@\n foo\n-  bar\n+baz");
    assert_eq!(trim_diff(&t), t);
    // a line that passes for the head of a diff once it is trimmed
    let odd = "-  --x\n-    y";
    assert_eq!(trim_diff(odd), "---x\n-  y");
    assert_eq!(trim_diff(&trim_diff(odd)), "---x\n-y");
}

#[test]
fn writes_are_reported() {
    let r = after_write("/w/a.rs", "/w", "the diff", "a\n", "b\nc\n", "Edit applied successfully.", &None);
    assert_eq!((r.title.as_str(), r.output.as_str()), ("a.rs", "Edit applied successfully."));
    assert_eq!((r.additions, r.deletions), (2, 1));
    assert_eq!((r.file.as_str(), r.diff.as_str()), ("/w/a.rs", "the diff"));
    let r = after_write("/w/a.rs", "/w", "", "a\n", "a\n", "Wrote file successfully.", &Some("ERROR".into()));
    assert_eq!(r.output, "Wrote file successfully.\n\nLSP errors detected in this file, please fix:\nERROR");
}

#[test]
fn tools_describe_their_arguments() {
    for (id, text, required) in [
        (EditTool.id(), EditTool.parameters(), vec!["filePath", "oldString", "newString"]),
        (WriteTool.id(), WriteTool.parameters(), vec!["filePath", "content"]),
    ] {
        let v: serde_json::Value = serde_json::from_str(text).unwrap();
        assert_eq!(v["type"], "object", "{id}");
        let names: Vec<&str> = v["required"].as_array().unwrap().iter().map(|x| x.as_str().unwrap()).collect();
        assert_eq!(names, required);
        for n in names {
            assert_eq!(v["properties"][n]["type"], "string");
        }
    }
    assert_eq!((EditTool.id(), WriteTool.id(), TaskTool.id()), ("edit", "write", "task"));
}

use lunarzero::panels::{
    Area, Ground, PermChoice, PermissionFacts, PermissionPanel, PermissionRequest, Question, QuestionOption, QuestionPanel,
    QuestionRequest, StyledLine, Tone,
};

fn request(permission: &str, metadata: &str) -> PermissionRequest {
    PermissionRequest {
        permission: permission.into(),
        patterns: vec!["a/*".into(), "b".into()],
        always: Vec::new(),
        metadata: metadata.into(),
    }
}

fn text(l: &StyledLine) -> String {
    l.spans.iter().map(|s| s.text.as_str()).collect()
}

fn texts(v: &[StyledLine]) -> Vec<String> {
    v.iter().map(text).collect()
}

fn body(permission: &str, metadata: &str, full: bool) -> Vec<String> {
    texts(&PermissionPanel::body_lines(&request(permission, metadata), Vec::new(), full))
}

fn diff_line(s: &str) -> StyledLine {
    StyledLine {
        spans: vec![lunarzero::panels::StyledSpan {
            text: s.into(),
            style: lunarzero::panels::TextStyle { tone: Tone::Text, ground: Ground::Plain, bold: false },
        }],
    }
}

#[test]
fn choices_cycle_both_ways() {
    let mut p = PermissionPanel::default();
    assert_eq!((p.choice, p.fullscreen, p.scroll), (PermChoice::Once, false, 0));
    for want in [PermChoice::Always, PermChoice::Reject, PermChoice::Once] {
        p.next();
        assert_eq!(p.choice, want);
    }
    for want in [PermChoice::Reject, PermChoice::Always, PermChoice::Once] {
        p.prev();
        assert_eq!(p.choice, want);
    }
    p.next();
    p.prev();
    assert_eq!(p.choice, PermChoice::Once);
}

#[test]
fn edit_requests_show_file_and_diff() {
    let r = request("edit", r#"{"filePath": "src/a.rs", "diff": "-a\n+b\n", "content": "x"}"#);
    assert_eq!(PermissionPanel::diff_of(&r).as_deref(), Some("-a\n+b\n"));
    let v = PermissionPanel::body_lines(&r, vec![diff_line("-a"), diff_line("+b")], false);
    assert_eq!(texts(&v), vec!["src/a.rs", "-a", "+b"]);
    assert!(v[0].spans[0].style.bold);
    // a path that is no text hides the other spelling
    assert_eq!(body("write", r#"{"filePath": 1, "filepath": "b"}"#, false), Vec::<String>::new());
    assert_eq!(body("apply_patch", r#"{"filepath": "b"}"#, false), vec!["b"]);
    assert_eq!(PermissionPanel::diff_of(&request("bash", r#"{"diff": "d"}"#)), None);
}

#[test]
fn new_files_show_their_first_lines() {
    let content = (0..30).map(|i| format!("l{i}")).collect::<Vec<_>>().join("\\n");
    let meta = format!("{{\"filePath\": \"f\", \"content\": \"{content}\"}}");
    let short = body("write", &meta, false);
    assert_eq!(short.len(), 21);
    assert_eq!(short[20], "l19");
    assert_eq!(body("write", &meta, true).len(), 31);
}

#[test]
fn commands_are_shown_behind_a_prompt() {
    let v = PermissionPanel::body_lines(
        &request("bash", r#"{"command": "ls\npwd", "description": "look"}"#),
        Vec::new(),
        false,
    );
    assert_eq!(texts(&v), vec!["$ ls", "$ pwd", "look"]);
    assert_eq!(v[0].spans[0].style.tone, Tone::Primary);
    assert_eq!(v[2].spans[0].style.tone, Tone::TextMuted);
}

#[test]
fn other_requests_show_patterns_and_metadata() {
    assert_eq!(body("external_directory", r#"{"k": 1}"#, false), vec!["a/*", "b"]);
    assert_eq!(
        body("doom_loop", "null", false),
        vec!["The model is repeating the same tool call. Continue?"]
    );
    assert_eq!(body("webfetch", r#"{"k": 1}"#, false), vec!["a/*", "b", "{", "  \"k\": 1", "}"]);
    assert_eq!(body("webfetch", "{}", false), vec!["a/*", "b"]);
    assert_eq!(body("webfetch", "null", false), vec!["a/*", "b"]);
    let many = (0..40).map(|i| format!("\"k{i:02}\": {i}")).collect::<Vec<_>>().join(",");
    assert_eq!(body("webfetch", &format!("{{{many}}}"), false).len(), 14);
    assert_eq!(body("webfetch", &format!("{{{many}}}"), true).len(), 44);
}

#[test]
fn bodies_follow_the_facts() {
    let facts = || PermissionFacts {
        file: Some("f".into()),
        diff: None,
        content: Some("a\nb".into()),
        command: Some("ls".into()),
        description: None,
        listing: Some("{\n}".into()),
    };
    let lines = |p: &str, f: PermissionFacts| texts(&PermissionPanel::lines_for(p, &vec!["x".into()], &f, vec![diff_line("d")], false));
    assert_eq!(lines("write", facts()), vec!["f", "a", "b"]);
    let mut f = facts();
    f.diff = Some("any".into());
    assert_eq!(lines("edit", f), vec!["f", "d"]);
    assert_eq!(lines("bash", facts()), vec!["$ ls"]);
    assert_eq!(lines("other", facts()), vec!["x", "{", "}"]);
}

#[test]
fn panel_height_is_kept_in_bounds() {
    let p = PermissionPanel::default();
    assert_eq!(p.height(&request("doom_loop", "null"), Vec::new(), 20), 6);
    assert_eq!(p.height(&request("external_directory", "null"), Vec::new(), 20), 7);
    let lines = || (0..50).map(|_| diff_line("x")).collect::<Vec<_>>();
    assert_eq!(p.height(&request("edit", r#"{"diff": "d"}"#), lines(), 20), 20);
    assert_eq!(p.height(&request("edit", r#"{"diff": "d"}"#), lines(), 100), 55);
}

#[test]
fn permission_panel_lays_out_body_and_buttons() {
    let mut p = PermissionPanel { choice: PermChoice::Always, fullscreen: false, scroll: 9 };
    let mut r = request("external_directory", "null");
    r.always = vec!["x".into(), "y".into()];
    let inner = Area { x: 1, y: 2, width: 30, height: 3 };
    let v = p.render(inner, &r, Vec::new(), false);
    assert_eq!(v.title, " Permission: external_directory ");
    assert_eq!(v.body_area, Area { x: 1, y: 2, width: 30, height: 1 });
    assert_eq!(v.buttons_area, Area { x: 1, y: 4, width: 30, height: 1 });
    assert_eq!(p.scroll, 1);
    let b: Vec<&str> = v.buttons.spans.iter().map(|s| s.text.as_str()).collect();
    assert_eq!(b[0..5], [" Allow once ", " ", " Always: x, y ", " ", " Reject "]);
    assert_eq!(v.buttons.spans[2].style.ground, Ground::Primary);
    assert!(v.buttons.spans[2].style.bold);
    assert_eq!(v.buttons.spans[0].style.ground, Ground::Element);
    r.always.clear();
    p.choice = PermChoice::Reject;
    let v = p.render(Area { height: 0, ..inner }, &r, Vec::new(), false);
    assert_eq!(v.buttons.spans[2].text, " Allow always ");
    assert_eq!(v.buttons.spans[4].style.ground, Ground::Error);
    assert_eq!((v.body_area.height, v.buttons_area.y), (0, 2));
}

fn question(multiple: Option<bool>, custom: Option<bool>) -> Question {
    Question {
        header: "H".into(),
        question: "Which?".into(),
        options: vec![
            QuestionOption { label: "one".into(), description: "first".into() },
            QuestionOption { label: "two".into(), description: String::new() },
        ],
        multiple,
        custom,
    }
}

#[test]
fn toggling_respects_multiple() {
    let req = QuestionRequest { questions: vec![question(Some(true), None), question(None, Some(false))] };
    let mut p = QuestionPanel::new(&req);
    assert_eq!((p.tab, p.cursor, p.selected.len(), p.custom.len()), (0, 0, 2, 2));
    assert_eq!(p.option_count(&req), 3);
    p.toggle(&req);
    p.cursor = 1;
    p.toggle(&req);
    assert_eq!(p.selected[0], vec![0, 1]);
    p.cursor = 0;
    p.toggle(&req);
    assert_eq!(p.selected[0], vec![1]);
    // on and off again
    p.toggle(&req);
    p.toggle(&req);
    assert_eq!(p.selected[0], vec![1]);
    // the row for an own answer
    p.cursor = 2;
    assert!(p.is_custom_row(&req));
    p.toggle(&req);
    assert_eq!(p.selected[0], vec![1]);
    p.tab = 1;
    assert_eq!(p.option_count(&req), 2);
    p.custom[1] = Some("typed".into());
    p.cursor = 0;
    p.toggle(&req);
    p.cursor = 1;
    p.toggle(&req);
    assert_eq!(p.selected[1], vec![1]);
    assert_eq!(p.custom[1], None);
    assert_eq!(p.answers(&req), vec![vec!["two".to_string()], vec!["two".to_string()]]);
}

#[test]
fn typed_answers_count_unless_blank() {
    let req = QuestionRequest { questions: vec![question(None, None), question(None, None)] };
    let mut p = QuestionPanel::new(&req);
    p.selected[0] = vec![1, 7];
    p.custom[0] = Some(" own ".into());
    p.custom[1] = Some("   ".into());
    assert_eq!(p.answers(&req), vec![vec!["two".to_string(), " own ".to_string()], Vec::new()]);
    assert_eq!(p.height(&req, 30), 10);
    assert_eq!(p.height(&req, 8), 8);
}

#[test]
fn question_panel_shows_tabs_options_and_keys() {
    let req = QuestionRequest { questions: vec![question(Some(true), None), question(None, Some(false))] };
    let mut p = QuestionPanel::new(&req);
    p.selected[0] = vec![1];
    p.cursor = 1;
    let v = texts(&p.render(&req));
    assert_eq!(
        v,
        vec![
            " H ✓   H  ",
            "Which?",
            "",
            "  [ ] one",
            "      first",
            "▶ [x] two",
            "  ✎ Type your own answer…",
            "",
            "↑/↓ move · space toggle · ←/→ questions · enter submit · esc dismiss",
        ]
    );
    p.tab = 1;
    let one = QuestionRequest { questions: vec![question(None, None)] };
    let mut q = QuestionPanel::new(&one);
    q.selected[0] = vec![0];
    q.custom[0] = Some("mine".into());
    q.cursor = 2;
    let v = q.render(&one);
    assert_eq!(texts(&v)[0], "Which?");
    assert_eq!(texts(&v)[2], "  (•) one");
    assert_eq!(texts(&v)[4], "  ( ) two");
    assert_eq!(texts(&v)[5], "▶ ✎ mine");
    assert_eq!(v[5].spans[2].style.ground, Ground::Element);
}

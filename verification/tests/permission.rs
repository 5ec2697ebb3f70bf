#[test]
fn basics() {
    assert!(lunarzero::wildcard::matches("git status", "git *"));
    assert!(lunarzero::wildcard::matches("git", "git *"));
    assert!(!lunarzero::wildcard::matches("gitk", "git *"));
    assert!(lunarzero::wildcard::matches("anything", "*"));
    assert!(lunarzero::wildcard::matches("a.env", "*.env"));
    assert!(!lunarzero::wildcard::matches("a.envx", "*.env"));
    assert!(lunarzero::wildcard::matches("src/x.rs", "src/?.rs"));
    assert!(lunarzero::wildcard::matches("multi\nline", "multi*"));
}

use lunarzero::permission::{copy_rules, evaluate, merged, Action, Rule};

#[test]
fn wildcards_match_whole_texts() {
    let ok = |i: &str, p: &str| lunarzero::wildcard::matches(i, p);
    assert!(ok("", "") && ok("", "*") && !ok("a", ""));
    // nothing but the two wildcards is special
    assert!(ok("a.b+c(d)[e]{f}^$|", "a.b+c(d)[e]{f}^$|"));
    assert!(!ok("axb", "a.b"));
    assert!(ok("a\\b", "a/b") && ok("a/b", "a\\b"));
    assert!(ok("ls -la", "ls *") && ok("ls", "ls *") && !ok("ls", "ls * "));
    assert!(ok("Xé", "X?") && !ok("X", "X?"));
    assert!(!ok("Git", "git"));
    assert_eq!(lunarzero::wildcard::compile("a*.rs"), "(?s)^a.*\\.rs$");
    assert_eq!(lunarzero::wildcard::compile("git *"), "(?s)^git( .*)?$");
}

#[test]
fn last_rule_decides() {
    let rules = vec![
        Rule::new("*", "*", Action::Ask),
        Rule::new("bash", "git *", Action::Allow),
        Rule::new("bash", "git push*", Action::Deny),
    ];
    assert_eq!(evaluate("bash", "git status", &rules), Some(Action::Allow));
    assert_eq!(evaluate("bash", "git push -f", &rules), Some(Action::Deny));
    assert_eq!(evaluate("edit", "x", &rules), Some(Action::Ask));
    assert_eq!(evaluate("edit", "x", &Vec::new()), None);
    let more = merged(&rules, &vec![Rule::new("bash", "*", Action::Allow)]);
    assert_eq!(more.len(), 4);
    assert_eq!(evaluate("bash", "git push -f", &more), Some(Action::Allow));
    assert_eq!(copy_rules(&rules), rules);
}

#[test]
fn long_patterns_keep_their_meaning() {
    let any = "?".repeat(1999) + "*";
    assert!(lunarzero::wildcard::matches(&"ä".repeat(1999), &any));
    assert!(lunarzero::wildcard::matches(&"x\n".repeat(1000), &any));
    assert!(!lunarzero::wildcard::matches(&"x".repeat(1998), &any));
    let stars = "*.".repeat(999) + " *";
    assert!(lunarzero::wildcard::matches(&".".repeat(999), &stars));
    assert!(!lunarzero::wildcard::matches(&".".repeat(998), &stars));
}

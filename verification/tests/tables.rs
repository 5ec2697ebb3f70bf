use lunarzero::json::{json_text, pointer_to};
use lunarzero::sort::{add_once, has_sorted, order_of, sorted_once};
use lunarzero::table::Table;
use lunarzero::usage::Usage;

#[test]
fn tables_are_kept_in_order() {
    let mut t: Table<String> = Table::new();
    for (k, v) in [("b", "2"), ("a", "1"), ("c", "3"), ("b", "4"), ("é", "5"), ("B", "6")] {
        t.insert(k.into(), v.into());
    }
    assert_eq!(t.keys(), vec!["B", "a", "b", "c", "é"]);
    assert_eq!((t.len(), t.key(2), t.value(2).as_str()), (5, "b", "4"));
    assert_eq!(t.get("c").map(|s| s.as_str()), Some("3"));
    assert!(t.get("d").is_none() && t.contains_key("a"));
    assert_eq!(t.remove("a").as_deref(), Some("1"));
    assert_eq!(t.remove("a"), None);
    assert_eq!(t.len(), 4);
}

#[test]
fn sorting_is_stable() {
    assert_eq!(order_of(&vec![3u64, 1, 2, 1, 3]), vec![1, 3, 2, 0, 4]);
    let words: Vec<String> = ["b", "a", "b", "aa", ""].iter().map(|s| s.to_string()).collect();
    assert_eq!(order_of(&words), vec![4, 1, 3, 0, 2]);
    assert_eq!(sorted_once(&words), vec!["", "a", "aa", "b"]);
    let mut once = sorted_once(&words);
    add_once(&mut once, "ab");
    add_once(&mut once, "a");
    assert_eq!(once, vec!["", "a", "aa", "ab", "b"]);
    assert!(has_sorted(&once, "ab") && !has_sorted(&once, "c"));
}

#[test]
fn pointers_reach_into_json() {
    assert_eq!(pointer_to("a/b~c"), "/a~1b~0c");
    let doc = r#"{"a/b~c": "x", "n": 1, "l": ["y"]}"#;
    assert_eq!(json_text(doc, &pointer_to("a/b~c")).as_deref(), Some("x"));
    assert_eq!(json_text(doc, "/l/0").as_deref(), Some("y"));
    assert_eq!(json_text(doc, "/n"), None);
    assert_eq!(json_text("{", ""), None);
}

#[test]
fn usage_windows_move() {
    let day = 86_400_000;
    let now = 10 * day;
    let mut u = Usage::new();
    for t in [now - day - 1, now - day, now - 60_000, now - 59_999, now] {
        u.reqs.push_back(t);
        u.toks.push_back((t, u64::MAX));
    }
    assert_eq!((u.count_since(now, 60_000), u.count_since(now, day)), (3, 4));
    assert_eq!(u.tokens_since(now, 60_000), 3 * (u64::MAX as u128));
    u.prune(now);
    assert_eq!((u.reqs.len(), u.toks.len()), (4, 4));
    assert_eq!((u.count_since(now, 60_000), u.count_since(now, day)), (3, 4));
    u.prune(now);
    assert_eq!(u.reqs.len(), 4);
    // before the first day is over, nothing is old
    assert_eq!(u.count_since(5, day), 4);
}

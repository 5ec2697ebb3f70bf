use lunarzero::path::{
    components_of, extension_of, file_name_of, is_absolute, is_same_path, is_under, join_path, parent_of, relative_to,
    shown_path,
};

#[test]
fn components_agree_with_std() {
    for p in ["/a/b/c.rs", "a//b/./c", "./a", "", "/", "../x/..", "a/b/", "//x", "."] {
        let std_parts: Vec<String> = std::path::Path::new(p)
            .components()
            .map(|c| c.as_os_str().to_str().unwrap().to_string())
            .collect();
        assert_eq!(components_of(p), std_parts, "{p}");
    }
}

#[test]
fn parents_agree_with_std() {
    for p in ["/a/b/c.rs", "a//b/./c", "./a", "", "/", "../x/..", "a/b/", "//x", ".", "a", "/a"] {
        let want = std::path::Path::new(p).parent().map(|x| x.to_str().unwrap().to_string());
        assert_eq!(parent_of(p), want, "{p}");
    }
}

#[test]
fn going_up_comes_to_an_end() {
    let mut p = "/a/b//c/./d".to_string();
    let mut n = 0;
    while let Some(q) = parent_of(&p) {
        assert!(q.len() < p.len());
        p = q;
        n += 1;
    }
    assert_eq!(n, 4);
}

#[test]
fn names_agree_with_std() {
    for p in ["/a/b/c.rs", "a/.env", "x.tar.gz", "a/..", "a/b/", "", "noext", "dot.", "a/.hidden.txt"] {
        let q = std::path::Path::new(p);
        assert_eq!(file_name_of(p), q.file_name().map(|x| x.to_str().unwrap().to_string()), "{p}");
        assert_eq!(extension_of(p), q.extension().map(|x| x.to_str().unwrap().to_string()), "{p}");
    }
}

#[test]
fn joins_agree_with_std() {
    for (a, b) in [("/a", "b"), ("/a/", "b"), ("", "b"), ("/a", "/b"), ("a", ""), ("/", "x")] {
        let want = std::path::Path::new(a).join(b);
        assert_eq!(join_path(a, b), want.to_str().unwrap(), "{a} {b}");
    }
}

#[test]
fn prefixes_agree_with_std() {
    for (a, b) in [
        ("/a/b/c", "/a"),
        ("/a/b", "/a/b"),
        ("/ab", "/a"),
        ("a/b", ""),
        ("/a//b/./c", "/a/b"),
        ("/a", "a"),
        ("/x", "/"),
    ] {
        let (p, q) = (std::path::Path::new(a), std::path::Path::new(b));
        assert_eq!(is_under(a, b), p.starts_with(q), "{a} {b}");
        let want = p.strip_prefix(q).ok().map(|x| x.to_str().unwrap().to_string());
        assert_eq!(relative_to(a, b), want, "{a} {b}");
        assert_eq!(is_same_path(a, b), p == q, "{a} {b}");
        assert_eq!(is_absolute(a), p.is_absolute());
    }
    assert_eq!(shown_path("/w/a.rs", "/w"), "a.rs");
    assert_eq!(shown_path("/v/a.rs", "/w"), "/v/a.rs");
}

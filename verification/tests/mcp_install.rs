use lunarzero::config::strip_comments;
use lunarzero::mcp_install::{
    config_candidates, config_file, default_name, detect, detect_with, entry_of, failure_text, install_package, installed_checkout,
    launch, log_line, missing_folder, plan_clone, read_package, register, script_of, steps_of, BuildOutput, BuildPlan, BuiltFile,
    McpInstalled, Package, ProjectFacts, RepoSource,
};
use lunarzero::paths::Paths;

#[test]
fn names() {
    assert_eq!(
        default_name(
            "https://github.com/modelcontextprotocol/servers.git",
            Some("src/filesystem")
        ),
        "filesystem"
    );
    assert_eq!(default_name("@modelcontextprotocol/server-github", None), "github");
    assert_eq!(
        default_name("https://github.com/acme/weather-mcp-server.git", None),
        "weather"
    );
    assert_eq!(default_name("mcp-server-git", None), "git");
}

#[test]
fn config_names_are_clean() {
    assert_eq!(default_name("git@host:owner/My.Repo.git/", None), "my-repo");
    assert_eq!(default_name("x/Tool_Box-server", None), "tool_box");
    assert_eq!(default_name("server-", None), "mcp");
    assert_eq!(default_name("", None), "mcp");
    assert_eq!(default_name("a/b", Some("c/")), "mcp");
}

fn strings(v: &[&str]) -> Vec<String> {
    v.iter().map(|s| s.to_string()).collect()
}

fn paths() -> Paths {
    Paths::detect("/h".into(), None, None, None)
}

#[test]
fn commands_are_logged() {
    assert_eq!(log_line("npm", &strings(&["run", "build"])), "$ npm run build");
    let err: String = (1..=20).map(|i| format!("e{i}\n")).collect();
    let want: String = (6..=20).map(|i| format!("e{i}")).collect::<Vec<_>>().join("\n");
    assert_eq!(failure_text("git", &strings(&["clone"]), &err), format!("`git clone` failed:\n{want}"));
    assert_eq!(failure_text("git", &Vec::new(), "one\n"), "`git ` failed:\none");
}

#[test]
fn shortcuts_need_their_launcher() {
    let r = install_package(" npm:@acme/server-x ", None, true, false).unwrap().unwrap();
    assert_eq!((r.name.as_str(), r.runtime.as_str()), ("x", "npm"));
    assert_eq!(r.command, strings(&["npx", "-y", "@acme/server-x"]));
    assert!(r.cwd.is_none() && r.dir.is_none() && r.notes.is_empty());
    assert_eq!(
        install_package("npm:x", None, false, true).unwrap().unwrap_err(),
        "npx (Node.js) is required for npm packages"
    );
    for source in ["pypi:mcp-server-git", "pip:mcp-server-git"] {
        let r = install_package(source, Some("mine".into()), false, true).unwrap().unwrap();
        assert_eq!((r.name.as_str(), r.runtime.as_str()), ("mine", "pypi"));
        assert_eq!(r.command, strings(&["uvx", "mcp-server-git"]));
    }
    assert_eq!(
        install_package("pypi:x", None, true, false).unwrap().unwrap_err(),
        "uvx (https://docs.astral.sh/uv/) is required for PyPI packages"
    );
    assert!(install_package("https://github.com/a/b", None, true, true).is_none());
}

#[test]
fn repositories_are_cloned_by_name() {
    let src = RepoSource {
        url: "https://x/weather-mcp.git".into(),
        git_ref: Some("v1".into()),
        subpath: Some("src/srv".into()),
    };
    let p = plan_clone(&paths(), &src, None);
    assert_eq!((p.name.as_str(), p.dir.as_str()), ("srv", "/h/.local/share/lunarzero/mcp/srv"));
    assert_eq!(p.root, "/h/.local/share/lunarzero/mcp/srv/src/srv");
    assert_eq!(
        p.args,
        strings(&["clone", "--depth", "1", "--quiet", "--branch", "v1", "https://x/weather-mcp.git", &p.dir])
    );
    assert_eq!(missing_folder(&src), "`src/srv` does not exist in the repository");
    let plain = RepoSource { url: "https://x/weather-mcp.git".into(), git_ref: None, subpath: None };
    let p = plan_clone(&paths(), &plain, Some("n".into()));
    assert_eq!((p.name.as_str(), p.root.as_str()), ("n", "/h/.local/share/lunarzero/mcp/n"));
    assert_eq!(p.args.len(), 6);
}

fn facts() -> ProjectFacts {
    ProjectFacts {
        package_json: None,
        pnpm_lock: false,
        yarn_lock: false,
        bun_lock: false,
        pyproject: None,
        cargo_toml: false,
        go_mod: false,
        has_node: true,
        has_pnpm: true,
        has_yarn: true,
        has_bun: true,
        has_uv: true,
        has_python3: true,
        has_cargo: true,
        has_go: true,
    }
}

fn output(entries: Vec<bool>) -> BuildOutput {
    BuildOutput { entries, modules: Vec::new(), built: None }
}

#[test]
fn node_projects_are_built() {
    let mut f = facts();
    f.package_json = Some(Ok(r#"{"bin": {"a/b": "cli.js"}, "main": "lib.js", "scripts": {"build": "tsc"}}"#.into()));
    f.yarn_lock = true;
    let plan = detect(&f).unwrap();
    let BuildPlan::Node { manager, build, candidates } = &plan else { panic!("not node") };
    assert_eq!((manager.as_str(), *build), ("yarn", true));
    assert_eq!(candidates[0..3], strings(&["cli.js", "lib.js", "dist/index.js"]));
    assert_eq!(candidates.len(), 9);
    let steps = steps_of(&plan, "/r");
    assert_eq!(steps.iter().map(|s| s.args.join(" ")).collect::<Vec<_>>(), strings(&["install", "run build"]));
    assert!(steps.iter().all(|s| s.required && s.cmd == "yarn"));
    let l = launch(&plan, "/r", &output(vec![false, true, true])).unwrap();
    assert_eq!((l.runtime.as_str(), l.command), ("node", strings(&["node", "/r/lib.js"])));
    let why = launch(&plan, "/r", &output(vec![false; 9])).err().unwrap();
    assert!(why.starts_with("built, but no entry point found (tried cli.js, lib.js, dist/index.js, "));
    // the lock file of a manager that is not installed does not count
    f.has_yarn = false;
    f.package_json = Some(Ok(r#"{"bin": "x.js"}"#.into()));
    let BuildPlan::Node { manager, build, candidates } = detect(&f).unwrap() else { panic!("not node") };
    assert_eq!((manager.as_str(), build, candidates[0].as_str()), ("npm", false, "x.js"));
    f.package_json = Some(Ok("{".into()));
    assert!(detect(&f).err().unwrap().starts_with("package.json: "));
    f.package_json = Some(Err("gone".into()));
    assert_eq!(detect(&f).err().unwrap(), "gone");
    f.has_node = false;
    assert_eq!(detect(&f).err().unwrap(), "this server needs Node.js (node/npm on PATH)");
}

#[test]
fn packages_are_read_apart() {
    let p = read_package(r#"{"bin": {"b": "z.js", "a": "y.js"}, "main": 3, "scripts": []}"#).unwrap();
    assert!(p.bin.is_some() && p.main.is_none() && !p.builds);
    assert!(read_package("nope").unwrap_err().starts_with("package.json: "));
    let known = || Some(Ok(Package { bin: None, main: Some("m.js".into()), builds: true }));
    let BuildPlan::Node { build, candidates, .. } = detect_with(&facts(), known()).unwrap() else { panic!("not node") };
    assert!(build && candidates[0] == "m.js" && candidates.len() == 8);
    let mut f = facts();
    f.has_node = false;
    assert!(detect_with(&f, known()).is_err());
}

#[test]
fn python_projects_are_built() {
    let mut f = facts();
    f.pyproject = Some("[project]\nname='x'\n[project.scripts]\n\n\"my-tool\" = \"a:b\"\nother = 1\n".into());
    let plan = detect(&f).unwrap();
    assert!(!steps_of(&plan, "/r")[0].required);
    let l = launch(&plan, "/r", &output(Vec::new())).unwrap();
    assert_eq!(l.runtime, "python (uv)");
    assert_eq!(l.command, strings(&["uv", "run", "--directory", "/r", "my-tool"]));
    let mut out = output(Vec::new());
    out.modules = strings(&["x.egg-info", "pkg"]);
    let l = launch(&BuildPlan::Uv { script: None }, "/r", &out).unwrap();
    assert_eq!(l.command[4..], strings(&["python", "-m", "pkg"]));
    let l = launch(&BuildPlan::Uv { script: None }, "/r", &output(Vec::new())).unwrap();
    assert_eq!(l.command[6], "server");
    f.has_uv = false;
    let plan = detect(&f).unwrap();
    let steps = steps_of(&plan, "/r");
    assert_eq!((steps[0].cmd.as_str(), steps[1].cmd.as_str()), ("python3", "/r/.venv/bin/pip"));
    assert_eq!(launch(&plan, "/r", &output(Vec::new())).unwrap().command, strings(&["/r/.venv/bin/my-tool"]));
    let l = launch(&BuildPlan::Venv { script: None }, "/r", &output(Vec::new())).unwrap();
    assert_eq!(l.command, strings(&["/r/.venv/bin/python", "-m", "server"]));
    f.has_python3 = false;
    assert_eq!(detect(&f).err().unwrap(), "this server needs Python: install uv (recommended) or python3");
    assert_eq!(script_of("no scripts"), None);
    assert_eq!(script_of("[project.scripts]\n[tool]\nx\n"), None);
}

#[test]
fn compiled_projects_are_built() {
    let mut f = facts();
    f.cargo_toml = true;
    f.go_mod = true;
    let plan = detect(&f).unwrap();
    assert!(matches!(plan, BuildPlan::Cargo));
    let file = |path: &str, is_file: bool| BuiltFile { path: path.into(), is_file };
    let mut out = output(Vec::new());
    out.built = Some(vec![
        file("/r/target/release/deps", false),
        file("/r/target/release/.cargo-lock", true),
        file("/r/target/release/libx.rlib", true),
        file("/r/target/release/server", true),
    ]);
    let l = launch(&plan, "/r", &out).unwrap();
    assert_eq!((l.runtime.as_str(), l.command), ("rust", strings(&["/r/target/release/server"])));
    assert_eq!(
        launch(&plan, "/r", &output(Vec::new())).err().unwrap(),
        "built, but no binary found in target/release"
    );
    f.has_cargo = false;
    assert_eq!(detect(&f).err().unwrap(), "this server needs a Rust toolchain (cargo)");
    f.cargo_toml = false;
    let plan = detect(&f).unwrap();
    assert_eq!(steps_of(&plan, "/r")[0].args, strings(&["build", "-o", "/r/bin/server", "."]));
    assert_eq!(launch(&plan, "/r", &output(Vec::new())).unwrap().command, strings(&["/r/bin/server"]));
    f.has_go = false;
    assert_eq!(detect(&f).err().unwrap(), "this server needs Go");
    f.go_mod = false;
    assert!(detect(&f).err().unwrap().starts_with("no package.json, pyproject.toml, Cargo.toml or go.mod found"));
}

fn installed() -> McpInstalled {
    McpInstalled {
        name: "a/b".into(),
        command: strings(&["node", "x \"y\".js"]),
        cwd: Some("/r".into()),
        runtime: "node".into(),
        dir: None,
        notes: Vec::new(),
    }
}

#[test]
fn entries_are_registered() {
    assert_eq!(
        entry_of(&installed()),
        "{\"type\":\"local\",\"command\":[\"node\",\"x \\\"y\\\".js\"],\"cwd\":\"/r\"}"
    );
    let s = register("{\"theme\": \"dark\", \"mcp\": {\"old\": {\"type\": \"remote\"}}}", &installed()).unwrap();
    assert!(s.ends_with("}\n"));
    let v: serde_json::Value = serde_json::from_str(&s).unwrap();
    assert_eq!(v["theme"], "dark");
    assert_eq!(v["mcp"]["old"]["type"], "remote");
    assert_eq!(v["mcp"]["a/b"]["type"], "local");
    assert_eq!(v["mcp"]["a/b"]["command"][1], "x \"y\".js");
    assert_eq!(v["mcp"]["a/b"]["cwd"], "/r");
    for empty in ["", " \n", "[]", "{\"mcp\": 3}"] {
        let v: serde_json::Value = serde_json::from_str(&register(empty, &installed()).unwrap()).unwrap();
        assert_eq!(v["mcp"].as_object().unwrap().len(), 1, "{empty}");
    }
    // what cannot be read is not overwritten
    let why = register("{\"theme\": }", &installed()).unwrap_err();
    assert_eq!(why, serde_json::from_str::<serde_json::Value>("{\"theme\": }").unwrap_err().to_string());
    let mut bare = installed();
    bare.cwd = None;
    assert!(!entry_of(&bare).contains("cwd"));
}

#[test]
fn configs_may_hold_comments() {
    let file = "// mine\n{\n  /* look */ \"theme\": \"a // b /* c */ \\\" // d\", // end\n  \"n\": 1\n}\n/* done */";
    assert_eq!(
        strip_comments(file),
        " \n{\n    \"theme\": \"a // b /* c */ \\\" // d\",  \n  \"n\": 1\n}\n "
    );
    let v: serde_json::Value = serde_json::from_str(&register(file, &installed()).unwrap()).unwrap();
    assert_eq!(v["theme"], "a // b /* c */ \" // d");
    assert_eq!((v["n"].as_u64(), v["mcp"]["a/b"]["type"].as_str()), (Some(1), Some("local")));
    let only: serde_json::Value = serde_json::from_str(&register("// nothing", &installed()).unwrap()).unwrap();
    assert_eq!(only.as_object().unwrap().len(), 1);
    // a comment parts what stands around it, and one that is never closed is none
    assert_eq!(strip_comments("1/**/2"), "1 2");
    assert_eq!(strip_comments("{} /* open"), "{} /* open");
    assert!(register("{} /* open", &installed()).is_err());
    assert_eq!(strip_comments("\"\\"), "\"\\");
    assert_eq!(strip_comments("a / b"), "a / b");
}

#[test]
fn deep_configs_are_kept_or_refused() {
    let nested = |depth: usize| format!("{{\"deep\": {}{}}}", "[".repeat(depth - 1), "]".repeat(depth - 1));
    let s = register(&nested(127), &installed()).unwrap();
    let v: serde_json::Value = serde_json::from_str(&s).unwrap();
    assert_eq!(v["mcp"]["a/b"]["type"], "local");
    let mut at = &v["deep"];
    let mut depth = 0;
    while let Some(a) = at.as_array() {
        depth += 1;
        at = match a.first() {
            Some(x) => x,
            None => break,
        };
    }
    assert_eq!(depth, 126);
    assert!(register(&nested(128), &installed()).is_err());
    let servers = format!("{{\"mcp\": {{\"old\": {}{}}}}}", "[".repeat(125), "]".repeat(125));
    let s = register(&servers, &installed()).unwrap();
    let v: serde_json::Value = serde_json::from_str(&s).unwrap();
    assert_eq!(v["mcp"].as_object().unwrap().len(), 2);
}

#[test]
fn entries_go_to_the_config_that_exists() {
    let p = paths();
    assert_eq!(config_candidates(&p, "/w", true).len(), 3);
    assert_eq!(config_candidates(&p, "/w", false)[3], "/w/opencode.json");
    assert_eq!(config_file(&p, "/w", false, &vec![false, false, true, true]), "/w/opencode.jsonc");
    assert_eq!(config_file(&p, "/w", false, &vec![false; 4]), "/w/lunarzero.json");
    assert_eq!(config_file(&p, "/w", true, &vec![false, false, true]), "/h/.config/lunarzero/config.json");
    assert_eq!(config_file(&p, "/w", true, &vec![false; 3]), "/h/.config/lunarzero/lunarzero.json");
}

#[test]
fn checkouts_tell_where_they_live() {
    let src = RepoSource { url: "https://x/y".into(), git_ref: None, subpath: Some("s".into()) };
    let plan = plan_clone(&paths(), &src, None);
    let (dir, root) = (plan.dir.clone(), plan.root.clone());
    let l = launch(&BuildPlan::Go, &root, &output(Vec::new())).unwrap();
    let r = installed_checkout(plan, l, strings(&["$ git clone"]));
    assert_eq!((r.dir, r.cwd, r.runtime.as_str(), r.notes.len()), (Some(dir), Some(root), "go", 1));
}

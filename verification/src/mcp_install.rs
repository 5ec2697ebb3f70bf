//! Install MCP servers from source: a GitHub repo (cloned, dependencies
//! installed, built, launch command detected) or a package shortcut
//! (`npm:<pkg>` → `npx -y`, `pypi:<pkg>` → `uvx`). What to run and what comes of
//! it; the commands are run by the caller.

use crate::config::{strip_comments, uncommented};
use crate::json::{
    all_quoted, as_text, flat_object, flat_value, has_plain_keys, is_flat, is_pointer, is_regular, json_at, json_error,
    json_fault, json_leaf, json_member, json_member_text, json_set, json_string, json_text, json_with, keeps,
    nests_within, pointer_step, pointer_to, quoted, spells_no_raw_key, FlatValue, JsonLeaf, LeafView, MAX_DEPTH, RAW_KEY,
};
use crate::path::{extension, extension_of, file_name, file_name_of, join_path, joined_path};
use crate::paths::Paths;
use crate::text::{
    after_last, after_part, after_prefix, ascii_lower, before_char, before_part, before_suffix, chars_of, contains,
    ends_with, first_at, first_of, has_part, has_prefix, has_suffix, is_ascii_word, join,
    joined, last_piece, lines, lines_of, lower_char, opt_text, starts_with, strip_all_prefix, strip_all_suffix,
    texts, trim, trimmed, without_prefixes, without_suffixes,
};
use vstd::prelude::*;

verus! {

/// A server that was installed, and how it is launched.
#[derive(Debug)]
pub struct McpInstalled {
    pub name: String,
    pub command: Vec<String>,
    pub cwd: Option<String>,
    pub runtime: String,
    /// where the checkout lives (none for package shortcuts)
    pub dir: Option<String>,
    pub notes: Vec<String>,
}

// ───────────────────────────── names ─────────────────────────────

/// The last part of a source: of its sub-folder where it has one, else of its
/// address without the ending of a repository.
pub open spec fn base_name(source: Seq<char>, subpath: Option<Seq<char>>) -> Seq<char> {
    match subpath {
        Some(p) => after_last(p, "/"@),
        None => after_last(
            strip_all_suffix(strip_all_suffix(source, "/"@), ".git"@),
            "/:"@,
        ),
    }
}

pub open spec fn drop_prefix(s: Seq<char>) -> Seq<char> {
    if starts_with(s, "mcp-server-"@) {
        s.skip("mcp-server-"@.len() as int)
    } else if starts_with(s, "server-"@) {
        s.skip("server-"@.len() as int)
    } else {
        s
    }
}

pub open spec fn drop_suffix(s: Seq<char>) -> Seq<char> {
    if ends_with(s, "-mcp-server"@) {
        s.take(s.len() - "-mcp-server"@.len())
    } else if ends_with(s, "-mcp"@) {
        s.take(s.len() - "-mcp"@.len())
    } else if ends_with(s, "-server"@) {
        s.take(s.len() - "-server"@.len())
    } else {
        s
    }
}

/// A character of a config name: lower case, and a dash for all but letters,
/// digits, dashes and underscores.
pub open spec fn name_char(c: char) -> char {
    if is_ascii_word(c) || c == '-' || c == '_' {
        ascii_lower(c)
    } else {
        '-'
    }
}

pub open spec fn config_name(source: Seq<char>, subpath: Option<Seq<char>>) -> Seq<char> {
    let base = drop_suffix(drop_prefix(base_name(source, subpath)));
    if base.len() == 0 {
        "mcp"@
    } else {
        Seq::new(base.len(), |i: int| name_char(base[i]))
    }
}

/// Derive a config name from the source (`owner/repo` → `repo`, `@scope/pkg` → `pkg`).
pub fn default_name(source: &str, subpath: Option<&str>) -> (r: String)
    ensures
        r@ == config_name(
            source@,
            match subpath {
                Some(p) => Some(p@),
                None => None,
            },
        ),
{
    let base = match subpath {
        Some(p) => last_piece(p, "/"),
        None => {
            let a = without_suffixes(source, "/");
            let b = without_suffixes(a.as_str(), ".git");
            last_piece(b.as_str(), "/:")
        },
    };
    let base = if let Some(rest) = after_prefix(base.as_str(), "mcp-server-") {
        rest
    } else if let Some(rest) = after_prefix(base.as_str(), "server-") {
        rest
    } else {
        base
    };
    let base = if let Some(rest) = before_suffix(base.as_str(), "-mcp-server") {
        rest
    } else if let Some(rest) = before_suffix(base.as_str(), "-mcp") {
        rest
    } else if let Some(rest) = before_suffix(base.as_str(), "-server") {
        rest
    } else {
        base
    };
    let v = chars_of(base.as_str());
    if v.len() == 0 {
        return "mcp".to_owned();
    }
    let mut out = String::new();
    let mut i: usize = 0;
    while i < v.len()
        invariant
            i <= v@.len(),
            out@.len() == i,
            forall|k: int| 0 <= k < i ==> out@[k] == name_char(v@[k]),
        decreases v@.len() - i,
    {
        let c = v[i];
        if ('a' <= c && c <= 'z') || ('A' <= c && c <= 'Z') || ('0' <= c && c <= '9') || c == '-' || c
            == '_' {
            out.push(lower_char(c));
        } else {
            out.push('-');
        }
        i += 1;
    }
    assert(out@ =~= Seq::new(v@.len(), |k: int| name_char(v@[k])));
    out
}

/// A config name is never empty and holds lower-case letters, digits, dashes and
/// underscores alone.
pub proof fn config_name_is_clean(source: Seq<char>, subpath: Option<Seq<char>>)
    ensures
        config_name(source, subpath).len() > 0,
        forall|i: int|
            0 <= i < config_name(source, subpath).len() ==> ({
                let c = #[trigger] config_name(source, subpath)[i];
                ('a' <= c <= 'z') || ('0' <= c <= '9') || c == '-' || c == '_'
            }),
{
    reveal_strlit("mcp");
}

// ───────────────────────────── running commands ─────────────────────────────

/// The last fifteen lines of a text.
pub open spec fn tail(s: Seq<char>) -> Seq<char> {
    let l = lines(s);
    join(
        if l.len() <= 15 {
            l
        } else {
            l.skip(l.len() - 15)
        },
        "\n"@,
    )
}

/// A command as the log shows it.
pub fn log_line(cmd: &str, args: &Vec<String>) -> (s: String)
    ensures
        s@ == "$ "@ + cmd@ + " "@ + join(texts(args@), " "@),
{
    let mut s = "$ ".to_owned();
    s.append(cmd);
    s.append(" ");
    s.append(joined(args, " ").as_str());
    s
}

/// What is said of a command that failed, with the end of what it wrote.
pub fn failure_text(cmd: &str, args: &Vec<String>, stderr: &str) -> (s: String)
    ensures
        s@ == "`"@ + cmd@ + " "@ + join(texts(args@), " "@) + "` failed:\n"@ + tail(stderr@),
{
    let l = lines_of(stderr);
    let ghost g = lines(stderr@);
    assert(g.len() == l@.len());
    let mut i: usize = if l.len() <= 15 {
        0
    } else {
        l.len() - 15
    };
    let ghost from = i as int;
    let mut last: Vec<String> = Vec::new();
    while i < l.len()
        invariant
            from <= i <= l@.len(),
            texts(l@) == g,
            last@.len() == i - from,
            forall|k: int| 0 <= k < last@.len() ==> (#[trigger] last@[k])@ == g[from + k],
        decreases l@.len() - i,
    {
        assert(g[i as int] == l@[i as int]@);
        last.push(l[i].clone());
        i += 1;
    }
    assert(texts(last@) =~= (if g.len() <= 15 {
        g
    } else {
        g.skip(g.len() - 15)
    }));
    let mut s = "`".to_owned();
    s.append(cmd);
    s.append(" ");
    s.append(joined(args, " ").as_str());
    s.append("` failed:\n");
    s.append(joined(&last, "\n").as_str());
    s
}

// ───────────────────────────── package shortcuts ─────────────────────────────

/// The package behind a shortcut, with the runtime that it is for.
pub open spec fn shortcut(source: Seq<char>) -> Option<(bool, Seq<char>)> {
    let s = trim(source);
    if starts_with(s, "npm:"@) {
        Some((true, s.skip("npm:"@.len() as int)))
    } else if starts_with(s, "pypi:"@) {
        Some((false, s.skip("pypi:"@.len() as int)))
    } else if starts_with(s, "pip:"@) {
        Some((false, s.skip("pip:"@.len() as int)))
    } else {
        None
    }
}

pub open spec fn name_or(name: Option<String>, other: Seq<char>) -> Seq<char> {
    match name {
        Some(n) => n@,
        None => other,
    }
}

pub open spec fn is_package(r: McpInstalled, npm: bool, pkg: Seq<char>, name: Option<String>) -> bool {
    &&& r.name@ == name_or(name, config_name(pkg, None))
    &&& texts(r.command@) == (if npm {
        seq!["npx"@, "-y"@, pkg]
    } else {
        seq!["uvx"@, pkg]
    })
    &&& r.cwd is None && r.dir is None && r.notes@.len() == 0
    &&& r.runtime@ == (if npm {
        "npm"@
    } else {
        "pypi"@
    })
}

/// The launch of a package shortcut, where `source` is one. It needs the
/// launcher of its runtime.
pub fn install_package(source: &str, name: Option<String>, has_npx: bool, has_uvx: bool) -> (r: Option<
    Result<McpInstalled, String>,
>)
    ensures
        match (shortcut(source@), r) {
            (None, None) => true,
            (Some((npm, pkg)), Some(Ok(i))) => (if npm {
                has_npx
            } else {
                has_uvx
            }) && is_package(i, npm, pkg, name),
            (Some((npm, pkg)), Some(Err(why))) => if npm {
                !has_npx && why@ == "npx (Node.js) is required for npm packages"@
            } else {
                !has_uvx && why@
                    == "uvx (https://docs.astral.sh/uv/) is required for PyPI packages"@
            },
            _ => false,
        },
{
    let t = trimmed(source);
    let src = t.as_str();
    if let Some(pkg) = after_prefix(src, "npm:") {
        if !has_npx {
            return Some(Err("npx (Node.js) is required for npm packages".to_owned()));
        }
        let name = match name {
            Some(n) => n,
            None => default_name(pkg.as_str(), None),
        };
        let mut command: Vec<String> = Vec::new();
        command.push("npx".to_owned());
        command.push("-y".to_owned());
        let ghost p = pkg@;
        command.push(pkg);
        assert(texts(command@) =~= seq!["npx"@, "-y"@, p]);
        return Some(
            Ok(
                McpInstalled {
                    name,
                    command,
                    cwd: None,
                    runtime: "npm".to_owned(),
                    dir: None,
                    notes: Vec::new(),
                },
            ),
        );
    }
    let found = match after_prefix(src, "pypi:") {
        Some(p) => Some(p),
        None => after_prefix(src, "pip:"),
    };
    if let Some(pkg) = found {
        if !has_uvx {
            return Some(
                Err("uvx (https://docs.astral.sh/uv/) is required for PyPI packages".to_owned()),
            );
        }
        let name = match name {
            Some(n) => n,
            None => default_name(pkg.as_str(), None),
        };
        let mut command: Vec<String> = Vec::new();
        command.push("uvx".to_owned());
        let ghost p = pkg@;
        command.push(pkg);
        assert(texts(command@) =~= seq!["uvx"@, p]);
        return Some(
            Ok(
                McpInstalled {
                    name,
                    command,
                    cwd: None,
                    runtime: "pypi".to_owned(),
                    dir: None,
                    notes: Vec::new(),
                },
            ),
        );
    }
    None
}

// ───────────────────────────── checkouts ─────────────────────────────

/// A repository to install from.
pub struct RepoSource {
    pub url: String,
    pub git_ref: Option<String>,
    pub subpath: Option<String>,
}

/// Where a repository is checked out, and how.
pub struct ClonePlan {
    pub name: String,
    pub dir: String,
    /// what `git` is called with
    pub args: Vec<String>,
    /// the folder of the server
    pub root: String,
}

pub open spec fn clone_args(src: RepoSource, dir: Seq<char>) -> Seq<Seq<char>> {
    seq!["clone"@, "--depth"@, "1"@, "--quiet"@] + (match src.git_ref {
        Some(r) => seq!["--branch"@, r@],
        None => Seq::empty(),
    }) + seq![src.url@, dir]
}

pub fn plan_clone(paths: &Paths, src: &RepoSource, name: Option<String>) -> (p: ClonePlan)
    ensures
        p.name@ == name_or(name, config_name(src.url@, opt_text(src.subpath))),
        p.dir@ == joined_path(joined_path(paths.data@, "mcp"@), p.name@),
        texts(p.args@) == clone_args(*src, p.dir@),
        p.root@ == (match src.subpath {
            Some(s) => joined_path(p.dir@, s@),
            None => p.dir@,
        }),
{
    let name = match name {
        Some(n) => n,
        None => match &src.subpath {
            Some(s) => default_name(src.url.as_str(), Some(s.as_str())),
            None => default_name(src.url.as_str(), None),
        },
    };
    let dir = join_path(join_path(paths.data.as_str(), "mcp").as_str(), name.as_str());
    let mut args: Vec<String> = Vec::new();
    args.push("clone".to_owned());
    args.push("--depth".to_owned());
    args.push("1".to_owned());
    args.push("--quiet".to_owned());
    if let Some(r) = &src.git_ref {
        args.push("--branch".to_owned());
        args.push(r.clone());
    }
    args.push(src.url.clone());
    args.push(dir.clone());
    assert(texts(args@) =~= clone_args(*src, dir@));
    let root = match &src.subpath {
        Some(s) => join_path(dir.as_str(), s.as_str()),
        None => dir.clone(),
    };
    ClonePlan { name, dir, args, root }
}

/// What is said where the sub-folder is not in the repository.
pub fn missing_folder(src: &RepoSource) -> (s: String)
    ensures
        s@ == "`"@ + (match src.subpath {
            Some(p) => p@,
            None => Seq::empty(),
        }) + "` does not exist in the repository"@,
{
    let mut s = "`".to_owned();
    match &src.subpath {
        Some(p) => s.append(p.as_str()),
        None => s.append(""),
    }
    proof {
        reveal_strlit("");
        assert(""@ =~= Seq::empty());
    }
    s.append("` does not exist in the repository");
    s
}

/// The result of an installation from a checkout.
pub fn installed_checkout(plan: ClonePlan, launch: Launch, notes: Vec<String>) -> (r: McpInstalled)
    ensures
        r.name == plan.name,
        r.command == launch.command,
        r.cwd == Some(plan.root),
        r.runtime == launch.runtime,
        r.dir == Some(plan.dir),
        r.notes == notes,
{
    McpInstalled {
        name: plan.name,
        command: launch.command,
        cwd: Some(plan.root),
        runtime: launch.runtime,
        dir: Some(plan.dir),
        notes,
    }
}

// ───────────────────────────── building ─────────────────────────────

/// What the folder of a server holds, and which programs are installed.
pub struct ProjectFacts {
    /// `package.json` where there is one: its text, or why it cannot be read
    pub package_json: Option<Result<String, String>>,
    pub pnpm_lock: bool,
    pub yarn_lock: bool,
    pub bun_lock: bool,
    /// `pyproject.toml` where there is one
    pub pyproject: Option<String>,
    pub cargo_toml: bool,
    pub go_mod: bool,
    pub has_node: bool,
    pub has_pnpm: bool,
    pub has_yarn: bool,
    pub has_bun: bool,
    pub has_uv: bool,
    pub has_python3: bool,
    pub has_cargo: bool,
    pub has_go: bool,
}

/// How to build a server.
pub enum BuildPlan {
    /// with a package manager; `build` asks for the build script, and the entry
    /// is the first of `candidates` that is there afterwards
    Node { manager: String, build: bool, candidates: Vec<String> },
    Uv { script: Option<String> },
    Venv { script: Option<String> },
    Cargo,
    Go,
}

/// A command that starts the server.
pub struct Launch {
    pub runtime: String,
    pub command: Vec<String>,
}

/// The package manager whose lock file is there, where it is installed.
pub open spec fn manager_for(f: ProjectFacts) -> Seq<char> {
    if f.pnpm_lock && f.has_pnpm {
        "pnpm"@
    } else if f.yarn_lock && f.has_yarn {
        "yarn"@
    } else if f.bun_lock && f.has_bun {
        "bun"@
    } else {
        "npm"@
    }
}

/// What a `package.json` says of how a server is built and started.
#[derive(Debug)]
pub struct Package {
    /// the program, where there is one
    pub bin: Option<String>,
    pub main: Option<String>,
    /// whether there is a build script
    pub builds: bool,
}

pub struct PackageView {
    pub bin: Option<Seq<char>>,
    pub main: Option<Seq<char>>,
    pub builds: bool,
}

impl View for Package {
    type V = PackageView;

    open spec fn view(&self) -> PackageView {
        PackageView { bin: opt_text(self.bin), main: opt_text(self.main), builds: self.builds }
    }
}

/// The text of a `package.json`, read; or what is said where it is no JSON.
pub open spec fn package_in(text: Seq<char>) -> Result<PackageView, Seq<char>> {
    match json_fault(text) {
        Some(e) => Err("package.json: "@ + e),
        None => Ok(
            PackageView {
                bin: bin_entry(text),
                main: as_text(json_at(text, "/main"@)),
                builds: has_build(text),
            },
        ),
    }
}

pub open spec fn package_result(r: Result<Package, String>) -> Result<PackageView, Seq<char>> {
    match r {
        Ok(p) => Ok(p@),
        Err(e) => Err(e@),
    }
}

/// Whether a package has a build script.
pub open spec fn has_build(pkg: Seq<char>) -> bool {
    json_at(pkg, "/scripts"@) matches Some(LeafView::Members(m)) && m.contains("build"@)
}

/// The program of a package: `bin`, or the first member of it.
pub open spec fn bin_entry(pkg: Seq<char>) -> Option<Seq<char>> {
    match json_at(pkg, "/bin"@) {
        Some(LeafView::Text(t)) => Some(t),
        Some(LeafView::Members(m)) => if m.len() > 0 {
            as_text(json_at(pkg, "/bin"@ + pointer_step(m[0])))
        } else {
            None
        },
        _ => None,
    }
}

pub open spec fn common_outputs() -> Seq<Seq<char>> {
    seq![
        "dist/index.js"@,
        "build/index.js"@,
        "dist/server.js"@,
        "build/server.js"@,
        "index.js"@,
        "server.js"@,
        "dist/cli.js"@,
    ]
}

pub open spec fn one_or_none(t: Option<Seq<char>>) -> Seq<Seq<char>> {
    match t {
        Some(t) => seq![t],
        None => Seq::empty(),
    }
}

/// Where the entry of a package may be: its program, its main file, or one of the
/// usual build outputs.
pub open spec fn entry_candidates(pkg: PackageView) -> Seq<Seq<char>> {
    one_or_none(pkg.bin) + one_or_none(pkg.main) + common_outputs()
}

fn package_has_build(pkg: &str) -> (b: bool)
    ensures
        b == has_build(pkg@),
{
    match json_leaf(pkg, "/scripts") {
        Some(JsonLeaf::Members(m)) => crate::text::has_text(&m, "build"),
        _ => false,
    }
}

fn package_bin(pkg: &str) -> (r: Option<String>)
    ensures
        opt_text(r) == bin_entry(pkg@),
{
    match json_leaf(pkg, "/bin") {
        Some(JsonLeaf::Text(t)) => Some(t),
        Some(JsonLeaf::Members(m)) => {
            assert(texts(m@).len() == m@.len());
            if m.len() > 0 {
                assert(texts(m@)[0] == m@[0]@);
                let mut p = "/bin".to_owned();
                p.append(pointer_to(m[0].as_str()).as_str());
                json_text(pkg, p.as_str())
            } else {
                None
            }
        },
        _ => None,
    }
}

/// Reads a `package.json`.
pub fn read_package(text: &str) -> (r: Result<Package, String>)
    ensures
        package_result(r) == package_in(text@),
{
    if let Some(e) = json_error(text) {
        let mut s = "package.json: ".to_owned();
        s.append(e.as_str());
        return Err(s);
    }
    Ok(
        Package {
            bin: package_bin(text),
            main: json_text(text, "/main"),
            builds: package_has_build(text),
        },
    )
}

fn package_entries(pkg: &Package) -> (r: Vec<String>)
    ensures
        texts(r@) == entry_candidates(pkg@),
{
    let mut v: Vec<String> = Vec::new();
    if let Some(b) = &pkg.bin {
        v.push(b.clone());
    }
    assert(texts(v@) =~= one_or_none(pkg@.bin));
    if let Some(m) = &pkg.main {
        v.push(m.clone());
    }
    assert(texts(v@) =~= one_or_none(pkg@.bin) + one_or_none(pkg@.main));
    let ghost head = texts(v@);
    v.push("dist/index.js".to_owned());
    v.push("build/index.js".to_owned());
    v.push("dist/server.js".to_owned());
    v.push("build/server.js".to_owned());
    v.push("index.js".to_owned());
    v.push("server.js".to_owned());
    v.push("dist/cli.js".to_owned());
    assert(texts(v@) =~= head + common_outputs());
    v
}

/// Whether a line of a table of scripts defines one.
pub open spec fn is_script_line(l: Seq<char>) -> bool {
    l.len() > 0 && !starts_with(l, "["@) && contains(l, "="@)
}

/// The first line that defines a script.
pub open spec fn first_script(ls: Seq<Seq<char>>) -> Option<Seq<char>>
    decreases ls.len(),
{
    if ls.len() == 0 {
        None
    } else if is_script_line(trim(ls[0])) {
        Some(trim(ls[0]))
    } else {
        first_script(ls.skip(1))
    }
}

pub open spec fn unquoted(s: Seq<char>) -> Seq<char> {
    strip_all_suffix(strip_all_prefix(s, "\""@), "\""@)
}

/// The first script that a `pyproject.toml` defines.
pub open spec fn project_script(text: Seq<char>) -> Option<Seq<char>> {
    let mark = "[project.scripts]"@;
    if first_at(text, mark) < text.len() {
        let rest = text.skip(first_at(text, mark) + mark.len());
        let table = rest.take(first_at(rest, mark));
        match first_script(lines(table)) {
            Some(l) => Some(unquoted(trim(l.take(first_of(l, '='))))),
            None => None,
        }
    } else {
        None
    }
}

pub fn script_of(text: &str) -> (r: Option<String>)
    ensures
        opt_text(r) == project_script(text@),
{
    proof {
        reveal_strlit("[project.scripts]");
    }
    let rest = match after_part(text, "[project.scripts]") {
        Some(r) => r,
        None => {
            return None;
        },
    };
    let table = before_part(rest.as_str(), "[project.scripts]");
    let ls = lines_of(table.as_str());
    let ghost g = lines(table@);
    let mut i: usize = 0;
    assert(g.skip(0) =~= g);
    while i < ls.len()
        invariant
            i <= ls@.len(),
            texts(ls@) == g,
            g == lines(table@),
            table@ == rest@.take(first_at(rest@, "[project.scripts]"@)),
            first_at(text@, "[project.scripts]"@) < text@.len(),
            rest@ == text@.skip(
                first_at(text@, "[project.scripts]"@) + "[project.scripts]"@.len(),
            ),
            first_script(g) == first_script(g.skip(i as int)),
        decreases ls@.len() - i,
    {
        let l = trimmed(ls[i].as_str());
        assert(g.skip(i as int)[0] == ls@[i as int]@);
        assert(g.skip(i as int).skip(1) =~= g.skip(i + 1));
        if !l.as_str().is_empty() && !has_prefix(l.as_str(), "[") && has_part(l.as_str(), "=") {
            let name = trimmed(before_char(l.as_str(), '=').as_str());
            let a = without_prefixes(name.as_str(), "\"");
            return Some(without_suffixes(a.as_str(), "\""));
        }
        i += 1;
    }
    None
}

pub open spec fn nothing_found() -> Seq<char> {
    "no package.json, pyproject.toml, Cargo.toml or go.mod found — point at the server's sub-folder (…/tree/main/src/<server>) or use npm:<package> / pypi:<package>"@
}

/// What a project is built with, or why it cannot be. A `package.json` comes
/// before a `pyproject.toml`, that before a `Cargo.toml`, and a `go.mod` last.
pub open spec fn is_detected(
    r: Result<BuildPlan, String>,
    f: ProjectFacts,
    package: Option<Result<PackageView, Seq<char>>>,
) -> bool {
    match package {
        Some(read) => if !f.has_node {
            r matches Err(why) && why@ == "this server needs Node.js (node/npm on PATH)"@
        } else {
            match read {
                Err(e) => r matches Err(why) && why@ == e,
                Ok(pkg) => r matches Ok(BuildPlan::Node { manager, build, candidates }) && manager@
                    == manager_for(f) && build == pkg.builds && texts(candidates@)
                    == entry_candidates(pkg),
            }
        },
        None => match f.pyproject {
            Some(text) => if f.has_uv {
                r matches Ok(BuildPlan::Uv { script }) && opt_text(script) == project_script(text@)
            } else if f.has_python3 {
                r matches Ok(BuildPlan::Venv { script }) && opt_text(script) == project_script(
                    text@,
                )
            } else {
                r matches Err(why) && why@
                    == "this server needs Python: install uv (recommended) or python3"@
            },
            None => if f.cargo_toml {
                if f.has_cargo {
                    r matches Ok(BuildPlan::Cargo)
                } else {
                    r matches Err(why) && why@ == "this server needs a Rust toolchain (cargo)"@
                }
            } else if f.go_mod {
                if f.has_go {
                    r matches Ok(BuildPlan::Go)
                } else {
                    r matches Err(why) && why@ == "this server needs Go"@
                }
            } else {
                r matches Err(why) && why@ == nothing_found()
            },
        },
    }
}

/// The package of a project, where its text could be read.
pub open spec fn package_of(f: ProjectFacts) -> Option<Result<PackageView, Seq<char>>> {
    match f.package_json {
        Some(Ok(text)) => Some(package_in(text@)),
        Some(Err(e)) => Some(Err(e@)),
        None => None,
    }
}

pub open spec fn package_option(p: Option<Result<Package, String>>) -> Option<
    Result<PackageView, Seq<char>>,
> {
    match p {
        Some(r) => Some(package_result(r)),
        None => None,
    }
}

/// What a project is built with, or why it cannot be.
pub fn detect(f: &ProjectFacts) -> (r: Result<BuildPlan, String>)
    ensures
        is_detected(r, *f, package_of(*f)),
{
    let package = match &f.package_json {
        Some(Ok(text)) => Some(read_package(text.as_str())),
        Some(Err(e)) => Some(Err(e.clone())),
        None => None,
    };
    detect_with(f, package)
}

/// As `detect`, of a project whose `package.json` was read.
pub fn detect_with(f: &ProjectFacts, package: Option<Result<Package, String>>) -> (r: Result<
    BuildPlan,
    String,
>)
    ensures
        is_detected(r, *f, package_option(package)),
{
    if let Some(read) = package {
        if !f.has_node {
            return Err("this server needs Node.js (node/npm on PATH)".to_owned());
        }
        let pkg = match read {
            Ok(p) => p,
            Err(e) => {
                return Err(e);
            },
        };
        let manager = if f.pnpm_lock && f.has_pnpm {
            "pnpm"
        } else if f.yarn_lock && f.has_yarn {
            "yarn"
        } else if f.bun_lock && f.has_bun {
            "bun"
        } else {
            "npm"
        };
        return Ok(
            BuildPlan::Node {
                manager: manager.to_owned(),
                build: pkg.builds,
                candidates: package_entries(&pkg),
            },
        );
    }
    if let Some(text) = &f.pyproject {
        let script = script_of(text.as_str());
        return if f.has_uv {
            Ok(BuildPlan::Uv { script })
        } else if f.has_python3 {
            Ok(BuildPlan::Venv { script })
        } else {
            Err("this server needs Python: install uv (recommended) or python3".to_owned())
        };
    }
    if f.cargo_toml {
        return if f.has_cargo {
            Ok(BuildPlan::Cargo)
        } else {
            Err("this server needs a Rust toolchain (cargo)".to_owned())
        };
    }
    if f.go_mod {
        return if f.has_go {
            Ok(BuildPlan::Go)
        } else {
            Err("this server needs Go".to_owned())
        };
    }
    Err(
        "no package.json, pyproject.toml, Cargo.toml or go.mod found — point at the server's sub-folder (…/tree/main/src/<server>) or use npm:<package> / pypi:<package>".to_owned(),
    )
}

/// A command of a build. One that is not `required` may fail.
pub struct BuildStep {
    pub cmd: String,
    pub args: Vec<String>,
    pub required: bool,
}

pub struct StepView {
    pub cmd: Seq<char>,
    pub args: Seq<Seq<char>>,
    pub required: bool,
}

impl View for BuildStep {
    type V = StepView;

    open spec fn view(&self) -> StepView {
        StepView { cmd: self.cmd@, args: texts(self.args@), required: self.required }
    }
}

pub open spec fn steps(v: Seq<BuildStep>) -> Seq<StepView> {
    Seq::new(v.len(), |i: int| v[i]@)
}

pub open spec fn step(cmd: Seq<char>, args: Seq<Seq<char>>, required: bool) -> StepView {
    StepView { cmd, args, required }
}

/// What a build runs, one after the other.
pub open spec fn build_steps(plan: BuildPlan, root: Seq<char>) -> Seq<StepView> {
    match plan {
        BuildPlan::Node { manager, build, .. } => seq![step(manager@, seq!["install"@], true)] + (
        if build {
            seq![step(manager@, seq!["run"@, "build"@], true)]
        } else {
            Seq::empty()
        }),
        BuildPlan::Uv { .. } => seq![step("uv"@, seq!["sync"@], false)],
        BuildPlan::Venv { .. } => seq![
            step("python3"@, seq!["-m"@, "venv"@, ".venv"@], true),
            step(
                joined_path(root, ".venv/bin/pip"@),
                seq!["install"@, "-q"@, "-e"@, "."@],
                true,
            ),
        ],
        BuildPlan::Cargo => seq![
            step("cargo"@, seq!["build"@, "--release"@, "--quiet"@], true),
        ],
        BuildPlan::Go => seq![
            step("go"@, seq!["build"@, "-o"@, joined_path(root, "bin/server"@), "."@], true),
        ],
    }
}

fn words(a: &str, b: &str, c: &str, d: &str, n: usize) -> (r: Vec<String>)
    requires
        n <= 4,
    ensures
        texts(r@) == seq![a@, b@, c@, d@].take(n as int),
{
    let mut v: Vec<String> = Vec::new();
    if n > 0 {
        v.push(a.to_owned());
    }
    if n > 1 {
        v.push(b.to_owned());
    }
    if n > 2 {
        v.push(c.to_owned());
    }
    if n > 3 {
        v.push(d.to_owned());
    }
    assert(texts(v@) =~= seq![a@, b@, c@, d@].take(n as int));
    v
}

pub fn steps_of(plan: &BuildPlan, root: &str) -> (r: Vec<BuildStep>)
    ensures
        steps(r@) == build_steps(*plan, root@),
        plan is Cargo ==> r@.len() == 1 && r@[0].required && r@[0].cmd@ == "cargo"@ && r@[0].args@.len() == 3
            && r@[0].args@[0]@ == "build"@ && r@[0].args@[1]@ == "--release"@ && r@[0].args@[2]@ == "--quiet"@,
{
    let mut out: Vec<BuildStep> = Vec::new();
    match plan {
        BuildPlan::Node { manager, build, .. } => {
            let args = words("install", "", "", "", 1);
            assert(texts(args@) =~= seq!["install"@]);
            out.push(BuildStep { cmd: manager.clone(), args, required: true });
            if *build {
                let args = words("run", "build", "", "", 2);
                assert(texts(args@) =~= seq!["run"@, "build"@]);
                out.push(BuildStep { cmd: manager.clone(), args, required: true });
            }
        },
        BuildPlan::Uv { .. } => {
            let args = words("sync", "", "", "", 1);
            assert(texts(args@) =~= seq!["sync"@]);
            out.push(BuildStep { cmd: "uv".to_owned(), args, required: false });
        },
        BuildPlan::Venv { .. } => {
            let args = words("-m", "venv", ".venv", "", 3);
            assert(texts(args@) =~= seq!["-m"@, "venv"@, ".venv"@]);
            out.push(BuildStep { cmd: "python3".to_owned(), args, required: true });
            let args = words("install", "-q", "-e", ".", 4);
            assert(texts(args@) =~= seq!["install"@, "-q"@, "-e"@, "."@]);
            out.push(BuildStep { cmd: join_path(root, ".venv/bin/pip"), args, required: true });
        },
        BuildPlan::Cargo => {
            let args = words("build", "--release", "--quiet", "", 3);
            assert(texts(args@) =~= seq!["build"@, "--release"@, "--quiet"@]);
            out.push(BuildStep { cmd: "cargo".to_owned(), args, required: true });
        },
        BuildPlan::Go => {
            let bin = join_path(root, "bin/server");
            let args = words("build", "-o", bin.as_str(), ".", 4);
            assert(texts(args@) =~= seq!["build"@, "-o"@, joined_path(root@, "bin/server"@), "."@]);
            out.push(BuildStep { cmd: "go".to_owned(), args, required: true });
        },
    }
    assert(steps(out@) =~= build_steps(*plan, root@));
    proof {
        if plan is Cargo {
            let a = steps(out@)[0].args;
            assert(a == seq!["build"@, "--release"@, "--quiet"@]);
            assert(a.len() == 3 && a[0] == "build"@ && a[1] == "--release"@ && a[2] == "--quiet"@);
        }
    }
    out
}

/// A file in the directory of built programs.
pub struct BuiltFile {
    pub path: String,
    pub is_file: bool,
}

/// What a build left behind.
pub struct BuildOutput {
    /// which of the candidates for an entry are files
    pub entries: Vec<bool>,
    /// the folders under `src`
    pub modules: Vec<String>,
    /// what is in the directory of release builds, where it can be read
    pub built: Option<Vec<BuiltFile>>,
}

pub open spec fn first_true(v: Seq<bool>) -> Option<int>
    decreases v.len(),
{
    if v.len() == 0 {
        None
    } else if v[0] {
        Some(0)
    } else {
        match first_true(v.skip(1)) {
            Some(i) => Some(i + 1),
            None => None,
        }
    }
}

fn find_true(v: &Vec<bool>) -> (r: Option<usize>)
    ensures
        match r {
            Some(i) => i < v@.len() && first_true(v@) == Some(i as int),
            None => first_true(v@) is None,
        },
{
    let mut i: usize = 0;
    assert(v@.skip(0) =~= v@);
    while i < v.len()
        invariant
            i <= v@.len(),
            first_true(v@) == (match first_true(v@.skip(i as int)) {
                Some(j) => Some(j + i),
                None => None,
            }),
        decreases v@.len() - i,
    {
        assert(v@.skip(i as int).skip(1) =~= v@.skip(i + 1));
        if v[i] {
            return Some(i);
        }
        i += 1;
    }
    None
}

/// The first folder that is a module of the project, not its metadata.
pub open spec fn module_in(dirs: Seq<Seq<char>>) -> Seq<char>
    decreases dirs.len(),
{
    if dirs.len() == 0 {
        "server"@
    } else if !ends_with(dirs[0], ".egg-info"@) {
        dirs[0]
    } else {
        module_in(dirs.skip(1))
    }
}

fn module_of(dirs: &Vec<String>) -> (s: String)
    ensures
        s@ == module_in(texts(dirs@)),
{
    let ghost g = texts(dirs@);
    let mut i: usize = 0;
    assert(g.skip(0) =~= g);
    while i < dirs.len()
        invariant
            i <= dirs@.len(),
            g == texts(dirs@),
            module_in(g) == module_in(g.skip(i as int)),
        decreases dirs@.len() - i,
    {
        assert(g.skip(i as int)[0] == dirs@[i as int]@);
        assert(g.skip(i as int).skip(1) =~= g.skip(i + 1));
        if !has_suffix(dirs[i].as_str(), ".egg-info") {
            return dirs[i].clone();
        }
        i += 1;
    }
    "server".to_owned()
}

/// Whether a built file is a program: a file without an extension that is not
/// hidden.
pub open spec fn is_program(f: BuiltFile) -> bool {
    &&& f.is_file
    &&& extension(f.path@) is None
    &&& file_name(f.path@) matches Some(n) && !starts_with(n, "."@)
}

pub open spec fn program_in(v: Seq<BuiltFile>) -> Option<Seq<char>>
    decreases v.len(),
{
    if v.len() == 0 {
        None
    } else if is_program(v[0]) {
        Some(v[0].path@)
    } else {
        program_in(v.skip(1))
    }
}

fn program_of(v: &Vec<BuiltFile>) -> (r: Option<String>)
    ensures
        opt_text(r) == program_in(v@),
{
    let mut i: usize = 0;
    assert(v@.skip(0) =~= v@);
    while i < v.len()
        invariant
            i <= v@.len(),
            program_in(v@) == program_in(v@.skip(i as int)),
        decreases v@.len() - i,
    {
        assert(v@.skip(i as int)[0] == v@[i as int]);
        assert(v@.skip(i as int).skip(1) =~= v@.skip(i + 1));
        let f = &v[i];
        let shown = match file_name_of(f.path.as_str()) {
            Some(n) => !has_prefix(n.as_str(), "."),
            None => false,
        };
        if f.is_file && extension_of(f.path.as_str()).is_none() && shown {
            return Some(f.path.clone());
        }
        i += 1;
    }
    None
}

/// How a server that was built is launched: its runtime and command, or why it
/// cannot be.
pub open spec fn launch_of(plan: BuildPlan, root: Seq<char>, out: BuildOutput) -> Result<
    (Seq<char>, Seq<Seq<char>>),
    Seq<char>,
> {
    match plan {
        BuildPlan::Node { candidates, .. } => match first_true(out.entries@) {
            Some(i) => if i < candidates@.len() {
                Ok(("node"@, seq!["node"@, joined_path(root, candidates@[i]@)]))
            } else {
                Err(no_entry(texts(candidates@)))
            },
            None => Err(no_entry(texts(candidates@))),
        },
        BuildPlan::Uv { script } => Ok(
            (
                "python (uv)"@,
                match script {
                    Some(s) => seq!["uv"@, "run"@, "--directory"@, root, s@],
                    None => seq![
                        "uv"@,
                        "run"@,
                        "--directory"@,
                        root,
                        "python"@,
                        "-m"@,
                        module_in(texts(out.modules@)),
                    ],
                },
            ),
        ),
        BuildPlan::Venv { script } => Ok(
            (
                "python (venv)"@,
                match script {
                    Some(s) => seq![joined_path(joined_path(root, ".venv/bin"@), s@)],
                    None => seq![joined_path(root, ".venv/bin/python"@), "-m"@, "server"@],
                },
            ),
        ),
        BuildPlan::Cargo => match out.built {
            Some(v) => match program_in(v@) {
                Some(p) => Ok(("rust"@, seq![p])),
                None => Err("built, but no binary found in target/release"@),
            },
            None => Err("built, but no binary found in target/release"@),
        },
        BuildPlan::Go => Ok(("go"@, seq![joined_path(root, "bin/server"@)])),
    }
}

pub open spec fn no_entry(tried: Seq<Seq<char>>) -> Seq<char> {
    "built, but no entry point found (tried "@ + join(tried, ", "@) + ")"@
}

pub fn launch(plan: &BuildPlan, root: &str, out: &BuildOutput) -> (r: Result<Launch, String>)
    ensures
        match r {
            Ok(l) => launch_of(*plan, root@, *out) == Ok::<(Seq<char>, Seq<Seq<char>>), Seq<char>>(
                (l.runtime@, texts(l.command@)),
            ),
            Err(why) => launch_of(*plan, root@, *out) == Err::<
                (Seq<char>, Seq<Seq<char>>),
                Seq<char>,
            >(why@),
        },
{
    let mut command: Vec<String> = Vec::new();
    match plan {
        BuildPlan::Node { candidates, .. } => {
            if let Some(i) = find_true(&out.entries) {
                if i < candidates.len() {
                    command.push("node".to_owned());
                    command.push(join_path(root, candidates[i].as_str()));
                    assert(texts(command@) =~= seq![
                        "node"@,
                        joined_path(root@, candidates@[i as int]@),
                    ]);
                    return Ok(Launch { runtime: "node".to_owned(), command });
                }
            }
            let mut s = "built, but no entry point found (tried ".to_owned();
            s.append(joined(candidates, ", ").as_str());
            s.append(")");
            Err(s)
        },
        BuildPlan::Uv { script } => {
            command.push("uv".to_owned());
            command.push("run".to_owned());
            command.push("--directory".to_owned());
            command.push(root.to_owned());
            match script {
                Some(s) => {
                    command.push(s.clone());
                    assert(texts(command@) =~= seq!["uv"@, "run"@, "--directory"@, root@, s@]);
                },
                None => {
                    command.push("python".to_owned());
                    command.push("-m".to_owned());
                    command.push(module_of(&out.modules));
                    assert(texts(command@) =~= seq![
                        "uv"@,
                        "run"@,
                        "--directory"@,
                        root@,
                        "python"@,
                        "-m"@,
                        module_in(texts(out.modules@)),
                    ]);
                },
            }
            Ok(Launch { runtime: "python (uv)".to_owned(), command })
        },
        BuildPlan::Venv { script } => {
            match script {
                Some(s) => {
                    let bin = join_path(root, ".venv/bin");
                    command.push(join_path(bin.as_str(), s.as_str()));
                    assert(texts(command@) =~= seq![
                        joined_path(joined_path(root@, ".venv/bin"@), s@),
                    ]);
                },
                None => {
                    command.push(join_path(root, ".venv/bin/python"));
                    command.push("-m".to_owned());
                    command.push("server".to_owned());
                    assert(texts(command@) =~= seq![
                        joined_path(root@, ".venv/bin/python"@),
                        "-m"@,
                        "server"@,
                    ]);
                },
            }
            Ok(Launch { runtime: "python (venv)".to_owned(), command })
        },
        BuildPlan::Cargo => {
            let found = match &out.built {
                Some(v) => program_of(v),
                None => None,
            };
            match found {
                Some(p) => {
                    let ghost pv = p@;
                    command.push(p);
                    assert(texts(command@) =~= seq![pv]);
                    Ok(Launch { runtime: "rust".to_owned(), command })
                },
                None => Err("built, but no binary found in target/release".to_owned()),
            }
        },
        BuildPlan::Go => {
            command.push(join_path(root, "bin/server"));
            assert(texts(command@) =~= seq![joined_path(root@, "bin/server"@)]);
            Ok(Launch { runtime: "go".to_owned(), command })
        },
    }
}

// ───────────────────────────── registering ─────────────────────────────

/// The config entry of a server, as JSON text.
pub open spec fn entry_json(command: Seq<Seq<char>>, cwd: Option<Seq<char>>) -> Seq<char> {
    "{\"type\":\"local\",\"command\":["@ + join(all_quoted(command), ","@) + "]"@ + (match cwd {
        Some(d) => ",\"cwd\":"@ + quoted(d),
        None => Seq::empty(),
    }) + "}"@
}

pub fn entry_of(installed: &McpInstalled) -> (s: String)
    ensures
        s@ == entry_json(texts(installed.command@), opt_text(installed.cwd)),
{
    let mut q: Vec<String> = Vec::new();
    let mut i: usize = 0;
    while i < installed.command.len()
        invariant
            i <= installed.command@.len(),
            q@.len() == i,
            forall|k: int| 0 <= k < i ==> (#[trigger] q@[k])@ == quoted(installed.command@[k]@),
        decreases installed.command@.len() - i,
    {
        q.push(json_string(installed.command[i].as_str()));
        i += 1;
    }
    assert(texts(q@) =~= all_quoted(texts(installed.command@)));
    let mut s = "{\"type\":\"local\",\"command\":[".to_owned();
    s.append(joined(&q, ",").as_str());
    s.append("]");
    let mut dir = String::new();
    if let Some(d) = &installed.cwd {
        dir.append(",\"cwd\":");
        dir.append(json_string(d.as_str()).as_str());
    }
    assert(dir@ =~= (match installed.cwd {
        Some(d) => ",\"cwd\":"@ + quoted(d@),
        None => Seq::empty(),
    }));
    s.append(dir.as_str());
    s.append("}");
    s
}

/// The entries for MCP servers in a config; none where it has no object there.
pub open spec fn mcp_entries(config: Seq<char>) -> Seq<char> {
    match json_at(config, "/mcp"@) {
        Some(LeafView::Members(_)) => match json_member(config, "mcp"@) {
            Some(m) => m,
            None => "{}"@,
        },
        _ => "{}"@,
    }
}

/// A config with the `mcp.<name>` entry of a server written into it.
pub open spec fn registered(config: Seq<char>, name: Seq<char>, entry: Seq<char>) -> Seq<char> {
    json_with(config, "mcp"@, json_with(mcp_entries(config), name, entry)) + "\n"@
}

/// What was written holds the entry, the entries of other servers, and the rest
/// of the config as they were.
pub open spec fn holds_all(written: Seq<char>, config: Seq<char>, name: Seq<char>, entry: Seq<char>) -> bool {
    &&& forall|p: Seq<char>|
        is_pointer(p) ==> #[trigger] keeps(written, "/mcp"@ + (pointer_step(name) + p), entry, p)
    &&& (json_at(config, "/mcp"@) matches Some(LeafView::Members(_))) && json_member(
        config,
        "mcp"@,
    ) is Some ==> forall|k: Seq<char>, p: Seq<char>|
        k != name && is_pointer(p) ==> #[trigger] keeps(
            written,
            "/mcp"@ + (pointer_step(k) + p),
            config,
            "/mcp"@ + (pointer_step(k) + p),
        )
    &&& (json_at(config, ""@) matches Some(LeafView::Members(_))) ==> forall|k: Seq<char>, p: Seq<char>|
        k != "mcp"@ && is_pointer(p) ==> #[trigger] keeps(
            written,
            pointer_step(k) + p,
            config,
            pointer_step(k) + p,
        )
}

proof fn lemma_mcp_step()
    ensures
        pointer_step("mcp"@) == "/mcp"@,
{
    reveal_strlit("mcp");
    reveal_strlit("/mcp");
    reveal_strlit("/");
    reveal_with_fuel(crate::text::replace_char, 4);
    let m = "mcp"@;
    assert(m.drop_last().drop_last().drop_last() =~= Seq::empty());
    let a = crate::text::replace_char(m, '~', "~0"@);
    assert(a =~= m);
    let b = crate::text::replace_char(m, '/', "~1"@);
    assert(b =~= m);
    assert(pointer_step(m) =~= "/mcp"@);
}

proof fn lemma_step_is_pointer(key: Seq<char>, p: Seq<char>)
    ensures
        is_pointer(pointer_step(key) + p),
{
    reveal_strlit("/");
}

proof fn lemma_holds_all(
    written: Seq<char>,
    config: Seq<char>,
    entries: Seq<char>,
    all: Seq<char>,
    name: Seq<char>,
    entry: Seq<char>,
)
    requires
        forall|p: Seq<char>|
            is_pointer(p) ==> #[trigger] keeps(written, pointer_step("mcp"@) + p, all, p),
        json_at(config, ""@) matches Some(LeafView::Members(_)) ==> forall|k: Seq<char>, p: Seq<char>|
            k != "mcp"@ && is_pointer(p) ==> #[trigger] keeps(
                written,
                pointer_step(k) + p,
                config,
                pointer_step(k) + p,
            ),
        forall|p: Seq<char>|
            is_pointer(p) ==> #[trigger] keeps(all, pointer_step(name) + p, entry, p),
        json_at(entries, ""@) matches Some(LeafView::Members(_)) ==> forall|
            k: Seq<char>,
            p: Seq<char>,
        |
            k != name && is_pointer(p) ==> #[trigger] keeps(
                all,
                pointer_step(k) + p,
                entries,
                pointer_step(k) + p,
            ),
        json_member(config, "mcp"@) is Some && (json_at(config, "/mcp"@) matches Some(
            LeafView::Members(_),
        )) ==> forall|p: Seq<char>|
            is_pointer(p) ==> #[trigger] keeps(entries, p, config, pointer_step("mcp"@) + p),
    ensures
        holds_all(written, config, name, entry),
{
    lemma_mcp_step();
    let mcp = "/mcp"@;
    assert forall|p: Seq<char>| is_pointer(p) implies #[trigger] keeps(
        written,
        mcp + (pointer_step(name) + p),
        entry,
        p,
    ) by {
        lemma_step_is_pointer(name, p);
        assert(keeps(written, pointer_step("mcp"@) + (pointer_step(name) + p), all, pointer_step(name) + p));
        assert(keeps(all, pointer_step(name) + p, entry, p));
    }
    if (json_at(config, mcp) matches Some(LeafView::Members(_))) && json_member(config, "mcp"@) is Some {
        reveal_strlit("");
        assert(keeps(entries, ""@, config, pointer_step("mcp"@) + ""@));
        assert(pointer_step("mcp"@) + ""@ =~= mcp);
        assert forall|k: Seq<char>, p: Seq<char>| k != name && is_pointer(p) implies #[trigger] keeps(
            written,
            mcp + (pointer_step(k) + p),
            config,
            mcp + (pointer_step(k) + p),
        ) by {
            let q = pointer_step(k) + p;
            lemma_step_is_pointer(k, p);
            assert(keeps(written, pointer_step("mcp"@) + q, all, q));
            assert(keeps(all, pointer_step(k) + p, entries, pointer_step(k) + p));
            assert(keeps(entries, q, config, pointer_step("mcp"@) + q));
        }
    }
}

proof fn lemma_plain_quoted(s: Seq<char>)
    requires
        forall|i: int| 0 <= i < s.len() ==> 'a' <= #[trigger] s[i] <= 'z',
    ensures
        quoted(s) == seq!['"'] + s + seq!['"'],
    decreases s.len(),
{
    lemma_plain_escaped(s);
}

proof fn lemma_plain_escaped(s: Seq<char>)
    requires
        forall|i: int| 0 <= i < s.len() ==> 'a' <= #[trigger] s[i] <= 'z',
    ensures
        crate::json::all_escaped(s) == s,
    decreases s.len(),
{
    if s.len() == 0 {
        assert(crate::json::all_escaped(s) =~= s);
    } else {
        let d = s.drop_last();
        assert forall|i: int| 0 <= i < d.len() implies 'a' <= #[trigger] d[i] <= 'z' by {
            assert(s[i] == d[i]);
        }
        lemma_plain_escaped(d);
        assert('a' <= s[s.len() - 1] <= 'z');
        assert(s =~= d + seq![s.last()]);
    }
}

/// The names and the fixed value in an entry, as they are written.
proof fn lemma_entry_words()
    ensures
        "{\"type\":\"local\",\"command\":["@ == seq!['{'] + (quoted("type"@) + seq![':'] + quoted("local"@))
            + seq![','] + (quoted("command"@) + seq![':']) + seq!['['],
        ",\"cwd\":"@ == seq![','] + (quoted("cwd"@) + seq![':']),
        "]"@ == seq![']'],
        "}"@ == seq!['}'],
        ","@ == seq![','],
        "type"@ != RAW_KEY@ && "command"@ != RAW_KEY@ && "cwd"@ != RAW_KEY@ && "mcp"@ != RAW_KEY@,
{
    reveal_strlit("{\"type\":\"local\",\"command\":[");
    reveal_strlit("]");
    reveal_strlit(",\"cwd\":");
    reveal_strlit("}");
    reveal_strlit(",");
    reveal_strlit("type");
    reveal_strlit("local");
    reveal_strlit("command");
    reveal_strlit("cwd");
    reveal_strlit("mcp");
    reveal_strlit("$serde_json::private::RawValue");
    assert(RAW_KEY@.len() == 30);
    lemma_plain_quoted("type"@);
    lemma_plain_quoted("local"@);
    lemma_plain_quoted("command"@);
    lemma_plain_quoted("cwd"@);
    assert("{\"type\":\"local\",\"command\":["@ =~= seq!['{'] + (quoted("type"@) + seq![':'] + quoted(
        "local"@,
    )) + seq![','] + (quoted("command"@) + seq![':']) + seq!['[']);
    assert(",\"cwd\":"@ =~= seq![','] + (quoted("cwd"@) + seq![':']));
    assert("]"@ =~= seq![']']);
    assert("}"@ =~= seq!['}']);
    assert(","@ =~= seq![',']);
}

/// The entry of a server is an object of texts and a list of texts.
proof fn lemma_entry_is_flat(command: Seq<Seq<char>>, cwd: Option<Seq<char>>)
    ensures
        is_flat(entry_json(command, cwd)),
{
    lemma_entry_words();
    let comma = seq![','];
    let two = seq![("type"@, FlatValue::Text("local"@)), ("command"@, FlatValue::List(command))];
    let a = quoted("type"@) + seq![':'] + quoted("local"@);
    let key = quoted("command"@) + seq![':'];
    let list = join(all_quoted(command), comma);
    let b = key + (seq!['['] + list + seq![']']);
    match cwd {
        Some(d) => {
            let members = two.push(("cwd"@, FlatValue::Text(d)));
            let parts = Seq::new(
                members.len(),
                |i: int| quoted(members[i].0) + seq![':'] + flat_value(members[i].1),
            );
            let c = quoted("cwd"@) + seq![':'] + quoted(d);
            assert(parts =~= seq![a, b, c]);
            lemma_join_three(a, b, c, comma);
            assert(flat_object(members) =~= entry_json(command, cwd));
            assert forall|i: int| 0 <= i < members.len() implies (#[trigger] members[i]).0 != RAW_KEY@ by {}
        },
        None => {
            let parts = Seq::new(two.len(), |i: int| quoted(two[i].0) + seq![':'] + flat_value(two[i].1));
            assert(parts =~= seq![a, b]);
            lemma_join_two(a, b, comma);
            assert(flat_object(two) =~= entry_json(command, cwd));
            assert forall|i: int| 0 <= i < two.len() implies (#[trigger] two[i]).0 != RAW_KEY@ by {}
        },
    }
}

proof fn lemma_join_two(a: Seq<char>, b: Seq<char>, sep: Seq<char>)
    ensures
        join(seq![a, b], sep) == a + sep + b,
{
    assert(seq![a, b].drop_last() =~= seq![a]);
    assert(join(seq![a], sep) == a);
}

proof fn lemma_join_three(a: Seq<char>, b: Seq<char>, c: Seq<char>, sep: Seq<char>)
    ensures
        join(seq![a, b, c], sep) == a + sep + b + sep + c,
{
    assert(seq![a, b, c].drop_last() =~= seq![a, b]);
    lemma_join_two(a, b, sep);
}

proof fn lemma_nothing_is_flat()
    ensures
        is_flat("{}"@),
{
    reveal_strlit("{}");
    let none = Seq::<(Seq<char>, FlatValue)>::empty();
    assert(flat_object(none) =~= "{}"@);
}

/// The JSON text of a config file: its comments are left out, and one without text
/// is an empty object.
pub open spec fn config_text(file: Seq<char>) -> Seq<char> {
    let text = uncommented(file);
    if trim(text).len() == 0 {
        "{}"@
    } else {
        text
    }
}

/// Why a config file cannot be read, if it cannot.
pub open spec fn config_fault(file: Seq<char>) -> Option<Seq<char>> {
    let text = uncommented(file);
    if trim(text).len() == 0 {
        None
    } else {
        json_fault(text)
    }
}

/// Whether a config file holds no name that the JSON reader keeps for itself, and
/// so nests no deeper than can be read again.
pub open spec fn is_ordinary(file: Seq<char>) -> bool {
    let text = uncommented(file);
    ||| trim(text).len() == 0
    ||| spells_no_raw_key(text)
    ||| has_plain_keys(text) && nests_within(text, MAX_DEPTH as nat)
}

/// Write the `mcp.<name>` entry into a config (project or global). `file` is the
/// text of the file, JSON with comments, empty where there is none. One that
/// cannot be read is refused. What is written can be read, the entry is found in
/// it again, and nothing is lost but the comments, where neither the file nor the
/// server has a name that the JSON reader keeps for itself.
pub fn register(file: &str, installed: &McpInstalled) -> (r: Result<String, String>)
    ensures
        ({
            let config = config_text(file@);
            let entry = entry_json(texts(installed.command@), opt_text(installed.cwd));
            match (config_fault(file@), r) {
                (Some(why), Err(e)) => e@ == why,
                (None, Ok(s)) => {
                    &&& s@ == registered(config, installed.name@, entry)
                    &&& is_ordinary(file@) && installed.name@ != RAW_KEY@ ==> json_fault(
                        s@.drop_last(),
                    ) is None && holds_all(s@.drop_last(), config, installed.name@, entry)
                },
                _ => false,
            }
        }),
{
    let mut config = strip_comments(file);
    if trimmed(config.as_str()).as_str().is_empty() {
        config = "{}".to_owned();
        proof {
            lemma_nothing_is_flat();
        }
    } else if let Some(why) = json_error(config.as_str()) {
        return Err(why);
    }
    let entries = match json_leaf(config.as_str(), "/mcp") {
        Some(JsonLeaf::Members(_)) => match json_member_text(config.as_str(), "mcp") {
            Some(m) => m,
            None => "{}".to_owned(),
        },
        _ => "{}".to_owned(),
    };
    let entry = entry_of(installed);
    let all = json_set(entries.as_str(), installed.name.as_str(), entry.as_str());
    let mut s = json_set(config.as_str(), "mcp", all.as_str());
    proof {
        let written = s@;
        let name = installed.name@;
        lemma_entry_words();
        if is_ordinary(file@) && name != RAW_KEY@ {
            lemma_nothing_is_flat();
            lemma_entry_is_flat(texts(installed.command@), opt_text(installed.cwd));
            assert(is_regular(config@, 126 + 1));
            assert(is_regular(entries@, 125 + 1));
            assert(is_regular(entry@, 125));
            assert(is_regular(all@, 125 + 1));
            lemma_deeper(entries@, 126, 127);
            lemma_deeper(entry@, 125, 126);
            lemma_holds_all(written, config@, entries@, all@, name, entry@);
        }
        reveal_strlit("\n");
        assert((written + "\n"@).drop_last() =~= written);
    }
    s.append("\n");
    Ok(s)
}

/// What nests less deep nests no deeper.
proof fn lemma_deeper(text: Seq<char>, n: nat, more: nat)
    requires
        is_regular(text, n),
        n <= more,
    ensures
        is_regular(text, more),
{
}

// ───────────────────────────── config file ─────────────────────────────

/// Where an `mcp` entry may go, the first that exists.
pub open spec fn config_places(paths: Paths, directory: Seq<char>, global: bool) -> Seq<Seq<char>> {
    if global {
        seq![
            joined_path(paths.config@, "lunarzero.jsonc"@),
            joined_path(paths.config@, "lunarzero.json"@),
            joined_path(paths.config@, "config.json"@),
        ]
    } else {
        seq![
            joined_path(directory, "lunarzero.jsonc"@),
            joined_path(directory, "lunarzero.json"@),
            joined_path(directory, "opencode.jsonc"@),
            joined_path(directory, "opencode.json"@),
        ]
    }
}

pub fn config_candidates(paths: &Paths, directory: &str, global: bool) -> (r: Vec<String>)
    ensures
        texts(r@) == config_places(*paths, directory@, global),
{
    let mut v: Vec<String> = Vec::new();
    if global {
        let c = paths.config.as_str();
        v.push(join_path(c, "lunarzero.jsonc"));
        v.push(join_path(c, "lunarzero.json"));
        v.push(join_path(c, "config.json"));
    } else {
        v.push(join_path(directory, "lunarzero.jsonc"));
        v.push(join_path(directory, "lunarzero.json"));
        v.push(join_path(directory, "opencode.jsonc"));
        v.push(join_path(directory, "opencode.json"));
    }
    assert(texts(v@) =~= config_places(*paths, directory@, global));
    v
}

/// The config file an `mcp` entry should go to. `exists` says which of the
/// candidates are there.
pub fn config_file(paths: &Paths, directory: &str, global: bool, exists: &Vec<bool>) -> (p: String)
    ensures
        ({
            let places = config_places(*paths, directory@, global);
            let new_file = joined_path(
                if global {
                    paths.config@
                } else {
                    directory@
                },
                "lunarzero.json"@,
            );
            p@ == (match first_true(exists@) {
                Some(i) => if i < places.len() {
                    places[i]
                } else {
                    new_file
                },
                None => new_file,
            })
        }),
{
    let v = config_candidates(paths, directory, global);
    let ghost places = texts(v@);
    assert(places.len() == v@.len());
    if let Some(i) = find_true(exists) {
        if i < v.len() {
            assert(places[i as int] == v@[i as int]@);
            return v[i].clone();
        }
    }
    if global {
        join_path(paths.config.as_str(), "lunarzero.json")
    } else {
        join_path(directory, "lunarzero.json")
    }
}

} // verus!

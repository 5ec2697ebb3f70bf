//! How MCP servers are installed.

use crate::mcp_install::{
    build_steps, clone_args, config_name, config_places, drop_prefix, drop_suffix, entry_candidates, first_script,
    first_true, is_detected, is_package, is_program, is_script_line, launch_of, manager_for, module_in, package_in,
    program_in, project_script, shortcut, tail, BuildOutput, BuildPlan, BuiltFile, McpInstalled, PackageView,
    ProjectFacts, RepoSource,
};
use crate::json::{as_text, json_at, json_fault, pointer_step, LeafView};
use crate::path::{extension, file_name, joined_path};
use crate::paths::Paths;
use crate::text::{contains, ends_with, join, lines, starts_with, texts, trim};
use vstd::prelude::*;

verus! {

// ───────────────────────────── building and launching ─────────────────────────────

/// A Rust server is built for release, in one step that must not fail; that is where
/// its program is looked for.
pub proof fn rust_servers_are_built_for_release(root: Seq<char>, out: BuildOutput)
    ensures
        ({
            let steps = build_steps(BuildPlan::Cargo, root);
            &&& steps.len() == 1 && steps[0].required
            &&& steps[0].cmd == "cargo"@
            &&& steps[0].args.len() == 3
            &&& steps[0].args[0] == "build"@
            &&& steps[0].args[1] == "--release"@
            &&& steps[0].args[2] == "--quiet"@
        }),
        launch_of(BuildPlan::Cargo, root, out) matches Ok(l) ==> {
            &&& l.0 == "rust"@ && l.1.len() == 1
            &&& out.built is Some
            &&& exists|i: int|
                0 <= i < out.built->0@.len() && (#[trigger] out.built->0@[i]).path@ == l.1[0] && out.built->0@[i].is_file
                    && extension(out.built->0@[i].path@) is None && (file_name(out.built->0@[i].path@) matches Some(n)
                    && !starts_with(n, "."@)) && forall|j: int|
                    0 <= j < i ==> !is_program(#[trigger] out.built->0@[j])
        },
        launch_of(BuildPlan::Cargo, root, out) is Err ==> (out.built matches Some(v) ==> forall|i: int|
            0 <= i < v@.len() ==> !((#[trigger] v@[i]).is_file && extension(v@[i].path@) is None && (file_name(
                v@[i].path@,
            ) matches Some(n) && !starts_with(n, "."@)))),
{
    if let Some(v) = out.built {
        lemma_program(v@);
    }
}

proof fn lemma_program(v: Seq<BuiltFile>)
    ensures
        match program_in(v) {
            Some(p) => exists|i: int|
                0 <= i < v.len() && (#[trigger] v[i]).path@ == p && is_program(v[i]) && forall|j: int|
                    0 <= j < i ==> !is_program(#[trigger] v[j]),
            None => forall|i: int| 0 <= i < v.len() ==> !is_program(#[trigger] v[i]),
        },
    decreases v.len(),
{
    if v.len() > 0 {
        if is_program(v[0]) {
            assert(v[0].path@ == program_in(v)->0);
        } else {
            let d = v.skip(1);
            lemma_program(d);
            match program_in(d) {
                Some(p) => {
                    let i = choose|i: int|
                        0 <= i < d.len() && (#[trigger] d[i]).path@ == p && is_program(d[i]) && forall|j: int|
                            0 <= j < i ==> !is_program(#[trigger] d[j]);
                    assert(v[i + 1] == d[i]);
                    assert forall|j: int| 0 <= j < i + 1 implies !is_program(#[trigger] v[j]) by {
                        if j > 0 {
                            assert(v[j] == d[j - 1]);
                        }
                    }
                },
                None => {
                    assert forall|i: int| 0 <= i < v.len() implies !is_program(#[trigger] v[i]) by {
                        if i > 0 {
                            assert(v[i] == d[i - 1]);
                        }
                    }
                },
            }
        }
    }
}

/// What a Go build writes is what is launched.
pub proof fn go_servers_launch_what_was_built(root: Seq<char>, out: BuildOutput)
    ensures
        ({
            let steps = build_steps(BuildPlan::Go, root);
            &&& steps.len() == 1 && steps[0].required && steps[0].cmd == "go"@
            &&& steps[0].args.len() == 4
            &&& steps[0].args[0] == "build"@ && steps[0].args[1] == "-o"@ && steps[0].args[3] == "."@
            &&& launch_of(BuildPlan::Go, root, out) matches Ok(l) && l.0 == "go"@ && l.1.len() == 1 && l.1[0]
                == steps[0].args[2]
            &&& steps[0].args[2] == joined_path(root, "bin/server"@)
        }),
{
}

/// A Node server is installed by its package manager and then built where it has a
/// build, neither of which may fail; it is launched by `node`, on the first entry
/// point that is there.
pub proof fn node_servers_launch_an_entry_point(plan: BuildPlan, root: Seq<char>, out: BuildOutput)
    requires
        plan is Node,
        out.entries@.len() == plan->candidates@.len(),
    ensures
        ({
            let steps = build_steps(plan, root);
            &&& steps.len() == (if plan->build {
                2int
            } else {
                1int
            })
            &&& forall|i: int|
                0 <= i < steps.len() ==> (#[trigger] steps[i]).cmd == plan->manager@ && steps[i].required
            &&& steps[0].args.len() == 1 && steps[0].args[0] == "install"@
            &&& plan->build ==> steps[1].args.len() == 2 && steps[1].args[0] == "run"@ && steps[1].args[1] == "build"@
        }),
        match launch_of(plan, root, out) {
            Ok(l) => l.0 == "node"@ && l.1.len() == 2 && l.1[0] == "node"@ && exists|i: int|
                0 <= i < out.entries@.len() && #[trigger] out.entries@[i] && l.1[1] == joined_path(
                    root,
                    plan->candidates@[i]@,
                ) && forall|j: int| 0 <= j < i ==> !#[trigger] out.entries@[j],
            Err(_) => forall|i: int| 0 <= i < out.entries@.len() ==> !#[trigger] out.entries@[i],
        },
{
    lemma_first_true(out.entries@);
}

pub proof fn lemma_first_true(v: Seq<bool>)
    ensures
        match first_true(v) {
            Some(i) => 0 <= i < v.len() && v[i] && forall|j: int| 0 <= j < i ==> !#[trigger] v[j],
            None => forall|j: int| 0 <= j < v.len() ==> !#[trigger] v[j],
        },
    decreases v.len(),
{
    if v.len() > 0 && !v[0] {
        let d = v.skip(1);
        lemma_first_true(d);
        let bound = match first_true(d) {
            Some(i) => i + 1,
            None => v.len() as int,
        };
        assert forall|j: int| 0 <= j < bound implies !#[trigger] v[j] by {
            if j > 0 {
                assert(v[j] == d[j - 1]);
            }
        }
    }
}

/// A Python server that `uv` runs is synced first, which may fail; it runs in its
/// folder, by its script, else as the first module that is no package information.
pub proof fn uv_servers_run_in_their_folder(script: Option<String>, root: Seq<char>, out: BuildOutput)
    ensures
        ({
            let plan = BuildPlan::Uv { script };
            let steps = build_steps(plan, root);
            &&& steps.len() == 1 && !steps[0].required && steps[0].cmd == "uv"@
            &&& steps[0].args.len() == 1 && steps[0].args[0] == "sync"@
            &&& launch_of(plan, root, out) matches Ok(l) && l.0 == "python (uv)"@ && l.1.len() >= 5 && l.1[0] == "uv"@
                && l.1[1] == "run"@ && l.1[2] == "--directory"@ && l.1[3] == root && (match script {
                Some(s) => l.1.len() == 5 && l.1[4] == s@,
                None => l.1.len() == 7 && l.1[4] == "python"@ && l.1[5] == "-m"@ && is_first_module(
                    texts(out.modules@),
                    l.1[6],
                ),
            })
        }),
{
    lemma_module(texts(out.modules@));
}

/// The first folder that is no package information, else `server`.
pub open spec fn is_first_module(dirs: Seq<Seq<char>>, m: Seq<char>) -> bool {
    ||| exists|i: int|
        0 <= i < dirs.len() && #[trigger] dirs[i] == m && !ends_with(m, ".egg-info"@) && forall|j: int|
            0 <= j < i ==> ends_with(#[trigger] dirs[j], ".egg-info"@)
    ||| m == "server"@ && forall|j: int| 0 <= j < dirs.len() ==> ends_with(#[trigger] dirs[j], ".egg-info"@)
}

proof fn lemma_module(dirs: Seq<Seq<char>>)
    ensures
        is_first_module(dirs, module_in(dirs)),
    decreases dirs.len(),
{
    if dirs.len() > 0 {
        if !ends_with(dirs[0], ".egg-info"@) {
            assert(dirs[0] == module_in(dirs));
        } else {
            let d = dirs.skip(1);
            let m = module_in(d);
            lemma_module(d);
            if exists|i: int|
                0 <= i < d.len() && #[trigger] d[i] == m && !ends_with(m, ".egg-info"@) && forall|j: int|
                    0 <= j < i ==> ends_with(#[trigger] d[j], ".egg-info"@) {
                let i = choose|i: int|
                    0 <= i < d.len() && #[trigger] d[i] == m && !ends_with(m, ".egg-info"@) && forall|j: int|
                        0 <= j < i ==> ends_with(#[trigger] d[j], ".egg-info"@);
                assert(dirs[i + 1] == m);
                assert forall|j: int| 0 <= j < i + 1 implies ends_with(#[trigger] dirs[j], ".egg-info"@) by {
                    if j > 0 {
                        assert(dirs[j] == d[j - 1]);
                    }
                }
            } else {
                assert forall|j: int| 0 <= j < dirs.len() implies ends_with(#[trigger] dirs[j], ".egg-info"@) by {
                    if j > 0 {
                        assert(dirs[j] == d[j - 1]);
                    }
                }
            }
        }
    }
}

/// Without `uv` a Python server gets an environment of its own, into which it is
/// installed and from which it is launched; neither step may fail.
pub proof fn venv_servers_run_from_their_environment(script: Option<String>, root: Seq<char>, out: BuildOutput)
    ensures
        ({
            let plan = BuildPlan::Venv { script };
            let steps = build_steps(plan, root);
            &&& steps.len() == 2 && steps[0].required && steps[1].required
            &&& steps[0].cmd == "python3"@ && steps[0].args.len() == 3 && steps[0].args[0] == "-m"@
                && steps[0].args[1] == "venv"@ && steps[0].args[2] == ".venv"@
            &&& steps[1].cmd == joined_path(root, ".venv/bin/pip"@) && steps[1].args.len() == 4 && steps[1].args[0]
                == "install"@ && steps[1].args[1] == "-q"@ && steps[1].args[2] == "-e"@ && steps[1].args[3] == "."@
            &&& launch_of(plan, root, out) matches Ok(l) && l.0 == "python (venv)"@ && (match script {
                Some(s) => l.1.len() == 1 && l.1[0] == joined_path(joined_path(root, ".venv/bin"@), s@),
                None => l.1.len() == 3 && l.1[0] == joined_path(root, ".venv/bin/python"@) && l.1[1] == "-m"@ && l.1[2]
                    == "server"@,
            })
        }),
{
}

// ───────────────────────────── what a project is ─────────────────────────────

/// A lock file chooses its package manager where that is installed, `pnpm` before
/// `yarn` before `bun`; without one it is `npm`.
pub proof fn lock_files_choose_the_manager(f: ProjectFacts)
    ensures
        f.pnpm_lock && f.has_pnpm ==> manager_for(f) == "pnpm"@,
        !(f.pnpm_lock && f.has_pnpm) && f.yarn_lock && f.has_yarn ==> manager_for(f) == "yarn"@,
        !(f.pnpm_lock && f.has_pnpm) && !(f.yarn_lock && f.has_yarn) && f.bun_lock && f.has_bun ==> manager_for(f)
            == "bun"@,
        !(f.pnpm_lock && f.has_pnpm) && !(f.yarn_lock && f.has_yarn) && !(f.bun_lock && f.has_bun) ==> manager_for(f)
            == "npm"@,
{
}

/// A project is what its files make it, `package.json` before `pyproject.toml`
/// before `Cargo.toml` before `go.mod`, and what it needs must be installed.
pub proof fn projects_go_by_their_files(
    r: Result<BuildPlan, String>,
    f: ProjectFacts,
    package: Option<Result<PackageView, Seq<char>>>,
)
    requires
        is_detected(r, f, package),
    ensures
        (r matches Ok(BuildPlan::Node { .. })) <==> f.has_node && (package matches Some(Ok(_))),
        (r matches Ok(BuildPlan::Uv { .. })) <==> package is None && f.pyproject is Some && f.has_uv,
        (r matches Ok(BuildPlan::Venv { .. })) <==> package is None && f.pyproject is Some && !f.has_uv
            && f.has_python3,
        (r matches Ok(BuildPlan::Cargo)) <==> package is None && f.pyproject is None && f.cargo_toml && f.has_cargo,
        (r matches Ok(BuildPlan::Go)) <==> package is None && f.pyproject is None && !f.cargo_toml && f.go_mod
            && f.has_go,
        r matches Ok(BuildPlan::Node { manager, build, candidates }) ==> (package matches Some(Ok(p)) && build
            == p.builds && manager@ == manager_for(f) && texts(candidates@) == entry_candidates(p)),
        r matches Ok(BuildPlan::Uv { script }) ==> (match script {
            Some(s) => project_script(f.pyproject->0@) == Some(s@),
            None => project_script(f.pyproject->0@) is None,
        }),
        r matches Ok(BuildPlan::Venv { script }) ==> (match script {
            Some(s) => project_script(f.pyproject->0@) == Some(s@),
            None => project_script(f.pyproject->0@) is None,
        }),
{
}

/// Of a package the program that it declares is tried first, then its main module,
/// then where builds commonly put an entry point.
pub proof fn declared_entry_points_come_first(p: PackageView)
    ensures
        ({
            let c = entry_candidates(p);
            let a = if p.bin is Some {
                1int
            } else {
                0int
            };
            let b = if p.main is Some {
                a + 1
            } else {
                a
            };
            &&& c.len() == b + 7
            &&& p.bin matches Some(t) ==> c[0] == t
            &&& p.main matches Some(t) ==> c[a] == t
            &&& c[b] == "dist/index.js"@ && c[b + 1] == "build/index.js"@ && c[b + 2] == "dist/server.js"@ && c[b + 3]
                == "build/server.js"@ && c[b + 4] == "index.js"@ && c[b + 5] == "server.js"@ && c[b + 6]
                == "dist/cli.js"@
        }),
{
}

/// What is read of a `package.json`: its program, by its name or the first of
/// several, its main module, and whether it has a build script.
pub proof fn packages_are_read(text: Seq<char>)
    ensures
        json_fault(text) matches Some(e) ==> (package_in(text) matches Err(why) && why == "package.json: "@ + e),
        json_fault(text) is None ==> (package_in(text) matches Ok(p) && {
            &&& json_at(text, "/bin"@) matches Some(LeafView::Text(t)) ==> p.bin == Some(t)
            &&& json_at(text, "/bin"@) matches Some(LeafView::Members(m)) ==> (if m.len() > 0 {
                p.bin == as_text(json_at(text, "/bin"@ + pointer_step(m[0])))
            } else {
                p.bin is None
            })
            &&& !(json_at(text, "/bin"@) matches Some(LeafView::Text(_))) && !(json_at(text, "/bin"@) matches Some(
                LeafView::Members(_),
            )) ==> p.bin is None
            &&& json_at(text, "/main"@) matches Some(LeafView::Text(t)) ==> p.main == Some(t)
            &&& !(json_at(text, "/main"@) matches Some(LeafView::Text(_))) ==> p.main is None
            &&& p.builds <==> (json_at(text, "/scripts"@) matches Some(LeafView::Members(m)) && m.contains("build"@))
        }),
{
}

/// A script is the first line of its table that assigns something.
pub proof fn scripts_are_the_first_assignment(ls: Seq<Seq<char>>)
    ensures
        match first_script(ls) {
            Some(s) => exists|i: int|
                0 <= i < ls.len() && trim(#[trigger] ls[i]) == s && s.len() > 0 && !starts_with(s, "["@) && contains(
                    s,
                    "="@,
                ) && forall|j: int| 0 <= j < i ==> !is_script_line(trim(#[trigger] ls[j])),
            None => forall|i: int|
                0 <= i < ls.len() ==> trim(#[trigger] ls[i]).len() == 0 || starts_with(trim(ls[i]), "["@) || !contains(
                    trim(ls[i]),
                    "="@,
                ),
        },
    decreases ls.len(),
{
    if ls.len() > 0 {
        if is_script_line(trim(ls[0])) {
            assert(trim(ls[0]) == first_script(ls)->0);
        } else {
            let d = ls.skip(1);
            scripts_are_the_first_assignment(d);
            match first_script(d) {
                Some(s) => {
                    let i = choose|i: int|
                        0 <= i < d.len() && trim(#[trigger] d[i]) == s && s.len() > 0 && !starts_with(s, "["@)
                            && contains(s, "="@) && forall|j: int| 0 <= j < i ==> !is_script_line(trim(#[trigger] d[j]));
                    assert(ls[i + 1] == d[i]);
                    assert forall|j: int| 0 <= j < i + 1 implies !is_script_line(trim(#[trigger] ls[j])) by {
                        if j > 0 {
                            assert(ls[j] == d[j - 1]);
                        }
                    }
                },
                None => {
                    assert forall|i: int| 0 <= i < ls.len() implies trim(#[trigger] ls[i]).len() == 0 || starts_with(
                        trim(ls[i]),
                        "["@,
                    ) || !contains(trim(ls[i]), "="@) by {
                        if i > 0 {
                            assert(ls[i] == d[i - 1]);
                        }
                    }
                },
            }
        }
    }
}

// ───────────────────────────── packages and clones ─────────────────────────────

/// `npm:` names a package for `npx`, `pypi:` and `pip:` one for `uvx`, which is
/// launched without an installation.
pub proof fn shortcuts_name_packages(source: Seq<char>, pkg: Seq<char>, r: McpInstalled, name: Option<String>)
    ensures
        trim(source) == "npm:"@ + pkg ==> shortcut(source) == Some((true, pkg)),
        trim(source) == "pypi:"@ + pkg ==> shortcut(source) == Some((false, pkg)),
        trim(source) == "pip:"@ + pkg ==> shortcut(source) == Some((false, pkg)),
        shortcut(source) is Some ==> starts_with(trim(source), "npm:"@) || starts_with(trim(source), "pypi:"@)
            || starts_with(trim(source), "pip:"@),
        is_package(r, true, pkg, name) ==> r.command@.len() == 3 && r.command@[0]@ == "npx"@ && r.command@[1]@ == "-y"@
            && r.command@[2]@ == pkg && r.runtime@ == "npm"@ && r.cwd is None && r.dir is None,
        is_package(r, false, pkg, name) ==> r.command@.len() == 2 && r.command@[0]@ == "uvx"@ && r.command@[1]@ == pkg
            && r.runtime@ == "pypi"@ && r.cwd is None && r.dir is None,
        is_package(r, true, pkg, name) || is_package(r, false, pkg, name) ==> r.name@ == (match name {
            Some(n) => n@,
            None => config_name(pkg, None),
        }),
{
    let s = trim(source);
    reveal_strlit("npm:");
    reveal_strlit("pypi:");
    reveal_strlit("pip:");
    let npm = "npm:"@;
    let pypi = "pypi:"@;
    let pip = "pip:"@;
    assert(npm.len() == 4 && pypi.len() == 5 && pip.len() == 4);
    assert((npm + pkg).subrange(0, 4) =~= npm);
    assert((npm + pkg).skip(4) =~= pkg);
    assert((pypi + pkg).subrange(0, 5) =~= pypi);
    assert((pypi + pkg).skip(5) =~= pkg);
    assert((pip + pkg).subrange(0, 4) =~= pip);
    assert((pip + pkg).skip(4) =~= pkg);
    assert((pypi + pkg).subrange(0, 4)[0] == 'p' && npm[0] == 'n');
    assert((pip + pkg).subrange(0, 4)[0] == 'p');
    assert(pypi[1] == 'y' && pip[1] == 'i');
    if s == pip + pkg && s.len() >= 5 {
        assert(s.subrange(0, 5)[1] == 'i');
    }
    let c = texts(r.command@);
    if is_package(r, true, pkg, name) {
        assert(c.len() == 3 && c[0] == "npx"@ && c[1] == "-y"@ && c[2] == pkg);
    }
    if is_package(r, false, pkg, name) {
        assert(c.len() == 2 && c[0] == "uvx"@ && c[1] == pkg);
    }
}

/// A clone takes the last state only, of the branch that was asked for, from the
/// address into the folder.
pub proof fn clones_are_shallow(src: RepoSource, dir: Seq<char>)
    ensures
        ({
            let a = clone_args(src, dir);
            &&& a[0] == "clone"@ && a[1] == "--depth"@ && a[2] == "1"@ && a[3] == "--quiet"@
            &&& a[a.len() - 2] == src.url@ && a.last() == dir
            &&& match src.git_ref {
                Some(r) => a.len() == 8 && a[4] == "--branch"@ && a[5] == r@,
                None => a.len() == 6,
            }
        }),
{
}

/// The words that say that something is an MCP server are no part of its name.
pub proof fn names_drop_what_every_server_is_called(name: Seq<char>)
    ensures
        drop_prefix("mcp-server-"@ + name) == name,
        !starts_with("server-"@ + name, "mcp-server-"@) ==> drop_prefix("server-"@ + name) == name,
        drop_suffix(name + "-mcp-server"@) == name,
        !ends_with(name + "-mcp"@, "-mcp-server"@) ==> drop_suffix(name + "-mcp"@) == name,
        !ends_with(name + "-server"@, "-mcp-server"@) && !ends_with(name + "-server"@, "-mcp"@) ==> drop_suffix(
            name + "-server"@,
        ) == name,
        !starts_with(name, "mcp-server-"@) && !starts_with(name, "server-"@) ==> drop_prefix(name) == name,
        !ends_with(name, "-mcp-server"@) && !ends_with(name, "-mcp"@) && !ends_with(name, "-server"@) ==> drop_suffix(
            name,
        ) == name,
{
    let a = "mcp-server-"@;
    let b = "server-"@;
    let c = "-mcp-server"@;
    let d = "-mcp"@;
    let e = "-server"@;
    assert((a + name).subrange(0, a.len() as int) =~= a);
    assert((a + name).skip(a.len() as int) =~= name);
    assert((b + name).subrange(0, b.len() as int) =~= b);
    assert((b + name).skip(b.len() as int) =~= name);
    assert((name + c).subrange(name.len() as int, (name + c).len() as int) =~= c);
    assert((name + c).take(name.len() as int) =~= name);
    assert((name + d).subrange(name.len() as int, (name + d).len() as int) =~= d);
    assert((name + d).take(name.len() as int) =~= name);
    assert((name + e).subrange(name.len() as int, (name + e).len() as int) =~= e);
    assert((name + e).take(name.len() as int) =~= name);
}

/// Where an entry goes: to the project's config or to the global one, with comments
/// before without.
pub proof fn configs_are_looked_for_in_order(paths: Paths, directory: Seq<char>)
    ensures
        ({
            let g = config_places(paths, directory, true);
            let p = config_places(paths, directory, false);
            &&& g.len() == 3
            &&& g[0] == joined_path(paths.config@, "lunarzero.jsonc"@)
            &&& g[1] == joined_path(paths.config@, "lunarzero.json"@)
            &&& g[2] == joined_path(paths.config@, "config.json"@)
            &&& p.len() == 4
            &&& p[0] == joined_path(directory, "lunarzero.jsonc"@)
            &&& p[1] == joined_path(directory, "lunarzero.json"@)
            &&& p[2] == joined_path(directory, "opencode.jsonc"@)
            &&& p[3] == joined_path(directory, "opencode.json"@)
        }),
{
}

/// Of a failed command at most the last fifteen lines are shown.
pub proof fn failures_show_the_last_lines(stderr: Seq<char>)
    ensures
        ({
            let l = lines(stderr);
            let from = if l.len() > 15 {
                l.len() - 15
            } else {
                0
            };
            tail(stderr) == join(l.subrange(from, l.len() as int), "\n"@)
        }),
{
    let l = lines(stderr);
    if l.len() > 15 {
        assert(l.subrange(l.len() - 15, l.len() as int) =~= l.skip(l.len() - 15));
    } else {
        assert(l.subrange(0, l.len() as int) =~= l);
    }
}

/// The name of a server is the last part of its address, or of the folder within it; small
/// letters, digits, dashes and underscores are kept, capitals are lowered, and anything else
/// is a dash.
pub proof fn names_come_from_the_address(owner: Seq<char>, repo: Seq<char>, folder: Seq<char>, c: char)
    requires
        repo.len() > 0,
        forall|i: int| 0 <= i < repo.len() ==> #[trigger] repo[i] != '/' && repo[i] != ':',
        !ends_with(repo, ".git"@),
        forall|i: int| 0 <= i < folder.len() ==> #[trigger] folder[i] != '/',
    ensures
        crate::mcp_install::base_name(owner.push('/') + repo, None) == repo,
        crate::mcp_install::base_name(owner.push(':') + repo, None) == repo,
        crate::mcp_install::base_name(repo, Some(owner.push('/') + folder)) == folder,
        'a' <= c <= 'z' || '0' <= c <= '9' || c == '-' || c == '_' ==> crate::mcp_install::name_char(c) == c,
        'A' <= c <= 'Z' ==> 'a' <= crate::mcp_install::name_char(c) <= 'z' && crate::mcp_install::name_char(c) as int
            - 'a' as int == c as int - 'A' as int,
        !('a' <= c <= 'z' || '0' <= c <= '9' || 'A' <= c <= 'Z' || c == '-' || c == '_')
            ==> crate::mcp_install::name_char(c) == '-',
{
    reveal_strlit("/");
    reveal_strlit("/:");
    reveal_strlit(".git");
    assert("/"@.len() == 1 && "/:"@.len() == 2 && ".git"@.len() == 4);
    assert("/:"@[0] == '/' && "/:"@[1] == ':' && "/"@[0] == '/');
    assert("/:"@.contains('/') && "/:"@.contains(':') && "/"@.contains('/'));
    lemma_bare_address(owner.push('/'), repo);
    lemma_bare_address(owner.push(':'), repo);
    assert forall|i: int| 0 <= i < repo.len() implies !"/:"@.contains(#[trigger] repo[i]) by {}
    crate::laws::text::last_pieces_are_last(owner, '/', repo, "/:"@);
    crate::laws::text::last_pieces_are_last(owner, ':', repo, "/:"@);
    assert forall|i: int| 0 <= i < folder.len() implies !"/"@.contains(#[trigger] folder[i]) by {}
    crate::laws::text::last_pieces_are_last(owner, '/', folder, "/"@);
}

proof fn lemma_bare_address(head: Seq<char>, repo: Seq<char>)
    requires
        repo.len() > 0,
        forall|i: int| 0 <= i < repo.len() ==> #[trigger] repo[i] != '/' && repo[i] != ':',
        !ends_with(repo, ".git"@),
        head.len() > 0,
        head.last() == '/' || head.last() == ':',
    ensures
        crate::text::strip_all_suffix(crate::text::strip_all_suffix(head + repo, "/"@), ".git"@) == head + repo,
{
    reveal_strlit("/");
    reveal_strlit(".git");
    let s = head + repo;
    let slash = "/"@;
    let git = ".git"@;
    assert(slash.len() == 1 && slash[0] == '/' && git.len() == 4);
    assert(git[0] == '.' && git[1] == 'g' && git[2] == 'i' && git[3] == 't');
    assert(s.last() == repo[repo.len() - 1]);
    if ends_with(s, slash) {
        assert(s.subrange(s.len() - 1, s.len() as int)[0] == s.last());
    }
    crate::laws::text::repeated_marks_are_taken_off(s, slash);
    if ends_with(s, git) {
        let e = s.subrange(s.len() - 4, s.len() as int);
        if repo.len() >= 4 {
            assert(repo.subrange(repo.len() - 4, repo.len() as int) =~= e);
        } else {
            let k = 3 - repo.len() as int;
            assert(e[k] == s[s.len() - 4 + k]);
            assert(s[s.len() - 4 + k] == head.last());
        }
    }
    crate::laws::text::repeated_marks_are_taken_off(s, git);
}

/// What keeps a project from being built is said.
pub proof fn projects_say_what_they_need(
    r: Result<BuildPlan, String>,
    f: ProjectFacts,
    package: Option<Result<PackageView, Seq<char>>>,
)
    requires
        is_detected(r, f, package),
    ensures
        r matches Err(why) ==> {
            ||| package is Some && !f.has_node && why@ == "this server needs Node.js (node/npm on PATH)"@
            ||| f.has_node && (package matches Some(Err(e)) && why@ == e)
            ||| package is None && f.pyproject is Some && !f.has_uv && !f.has_python3 && why@
                == "this server needs Python: install uv (recommended) or python3"@
            ||| package is None && f.pyproject is None && f.cargo_toml && !f.has_cargo && why@
                == "this server needs a Rust toolchain (cargo)"@
            ||| package is None && f.pyproject is None && !f.cargo_toml && f.go_mod && !f.has_go && why@
                == "this server needs Go"@
            ||| package is None && f.pyproject is None && !f.cargo_toml && !f.go_mod
        },
{
}

/// Where no entry point is found, those that were tried are named.
pub proof fn missing_entry_points_are_named(tried: Seq<Seq<char>>)
    ensures
        crate::mcp_install::no_entry(tried) == "built, but no entry point found (tried "@ + join(tried, ", "@) + ")"@,
{
}

} // verus!

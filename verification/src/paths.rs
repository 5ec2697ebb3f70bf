//! XDG-style directory layout. LunarZero owns `~/.config/lunarzero` etc.;
//! matching legacy directories are read as fallbacks for migration.

use crate::path::{is_same_path, join_path, joined_path, same_path};
use crate::text::{after_prefix, copy_texts, opt_text, same, starts_with, texts};
use vstd::prelude::*;

verus! {

#[derive(Debug)]
pub struct Paths {
    pub home: String,
    pub config: String,
    pub data: String,
    pub cache: String,
    pub state: String,
    /// Legacy config dir, read-only fallback for migrated setups.
    pub legacy_config: String,
    pub legacy_data: String,
}

impl Clone for Paths {
    fn clone(&self) -> (r: Self)
        ensures
            r == *self,
    {
        Paths {
            home: self.home.clone(),
            config: self.config.clone(),
            data: self.data.clone(),
            cache: self.cache.clone(),
            state: self.state.clone(),
            legacy_config: self.legacy_config.clone(),
            legacy_data: self.legacy_data.clone(),
        }
    }
}

/// The base directories of the platform.
#[derive(Debug)]
pub struct BaseDirs {
    pub config: String,
    pub data: String,
    pub cache: String,
    pub state: Option<String>,
}

pub open spec fn non_empty(v: Option<String>) -> Option<Seq<char>> {
    match v {
        Some(s) => if s@.len() > 0 {
            Some(s@)
        } else {
            None
        },
        None => None,
    }
}

fn filled(v: Option<String>) -> (r: Option<String>)
    ensures
        opt_text(r) == non_empty(v),
{
    match v {
        Some(s) => if s.as_str().is_empty() {
            None
        } else {
            Some(s)
        },
        None => None,
    }
}

/// The names of a variable: under the program's own prefix, and under the old
/// one.
pub fn env_names(name: &str) -> (r: (String, String))
    ensures
        r.0@ == "LZ_"@ + name@,
        r.1@ == "OPENCODE_"@ + name@,
{
    let mut own = "LZ_".to_owned();
    own.append(name);
    let mut old_name = "OPENCODE_".to_owned();
    old_name.append(name);
    (own, old_name)
}

/// The value of a variable: `own` is what it holds under the program's own
/// prefix, `legacy` what it holds under the old one. An own value counts even
/// where it is empty, and an empty value is none.
pub fn env_var(own: Option<String>, legacy: Option<String>) -> (r: Option<String>)
    ensures
        opt_text(r) == (match own {
            Some(_) => non_empty(own),
            None => non_empty(legacy),
        }),
{
    match own {
        Some(v) => filled(Some(v)),
        None => filled(legacy),
    }
}

pub open spec fn text_or(v: Option<Seq<char>>, other: Seq<char>) -> Seq<char> {
    match v {
        Some(s) => s,
        None => other,
    }
}

fn or_else(v: Option<String>, other: String) -> (r: String)
    ensures
        r@ == text_or(opt_text(v), other@),
{
    match v {
        Some(s) => s,
        None => other,
    }
}

impl Paths {
    /// The layout from the home directory, the platform's base directories where
    /// they are known, and the two config directories that the environment may
    /// name.
    pub fn detect(
        home: String,
        base: Option<BaseDirs>,
        config_dir: Option<String>,
        legacy_config_dir: Option<String>,
    ) -> (p: Self)
        ensures
            ({
                let config_home = match base {
                    Some(b) => b.config@,
                    None => joined_path(home@, ".config"@),
                };
                let data_home = match base {
                    Some(b) => b.data@,
                    None => joined_path(home@, ".local/share"@),
                };
                let cache_home = match base {
                    Some(b) => b.cache@,
                    None => joined_path(home@, ".cache"@),
                };
                let state_home = match base {
                    Some(b) => text_or(opt_text(b.state), joined_path(home@, ".local/state"@)),
                    None => joined_path(home@, ".local/state"@),
                };
                &&& p.home@ == home@
                &&& p.config@ == text_or(
                    non_empty(config_dir),
                    joined_path(config_home, "lunarzero"@),
                )
                &&& p.data@ == joined_path(data_home, "lunarzero"@)
                &&& p.cache@ == joined_path(cache_home, "lunarzero"@)
                &&& p.state@ == joined_path(state_home, "lunarzero"@)
                &&& p.legacy_config@ == text_or(
                    non_empty(legacy_config_dir),
                    joined_path(config_home, "opencode"@),
                )
                &&& p.legacy_data@ == joined_path(data_home, "opencode"@)
            }),
    {
        let h = home.as_str();
        let base = match base {
            Some(b) => b,
            None => BaseDirs {
                config: join_path(h, ".config"),
                data: join_path(h, ".local/share"),
                cache: join_path(h, ".cache"),
                state: Some(join_path(h, ".local/state")),
            },
        };
        let state_home = or_else(base.state, join_path(h, ".local/state"));
        Paths {
            config: or_else(filled(config_dir), join_path(base.config.as_str(), "lunarzero")),
            data: join_path(base.data.as_str(), "lunarzero"),
            cache: join_path(base.cache.as_str(), "lunarzero"),
            state: join_path(state_home.as_str(), "lunarzero"),
            legacy_config: or_else(
                filled(legacy_config_dir),
                join_path(base.config.as_str(), "opencode"),
            ),
            legacy_data: join_path(base.data.as_str(), "opencode"),
            home,
        }
    }

    /// The directories that must exist before anything runs.
    pub fn ensure(&self) -> (dirs: Vec<String>)
        ensures
            texts(dirs@) == seq![
                self.config@,
                self.data@,
                self.cache@,
                self.state@,
                joined_path(self.data@, "tool-output"@),
                joined_path(self.data@, "log"@),
            ],
    {
        let mut v: Vec<String> = Vec::new();
        v.push(self.config.clone());
        v.push(self.data.clone());
        v.push(self.cache.clone());
        v.push(self.state.clone());
        v.push(self.tool_output());
        v.push(self.log());
        assert(texts(v@) =~= seq![
            self.config@,
            self.data@,
            self.cache@,
            self.state@,
            joined_path(self.data@, "tool-output"@),
            joined_path(self.data@, "log"@),
        ]);
        v
    }

    /// The database: where the environment puts it, else with the data.
    pub fn db(&self, named: Option<String>) -> (p: String)
        ensures
            p@ == text_or(opt_text(named), joined_path(self.data@, "lunarzero.db"@)),
    {
        or_else(named, join_path(self.data.as_str(), "lunarzero.db"))
    }

    pub fn auth(&self) -> (p: String)
        ensures
            p@ == joined_path(self.data@, "auth.json"@),
    {
        join_path(self.data.as_str(), "auth.json")
    }

    pub fn legacy_auth(&self) -> (p: String)
        ensures
            p@ == joined_path(self.legacy_data@, "auth.json"@),
    {
        join_path(self.legacy_data.as_str(), "auth.json")
    }

    pub fn mcp_auth(&self) -> (p: String)
        ensures
            p@ == joined_path(self.data@, "mcp-auth.json"@),
    {
        join_path(self.data.as_str(), "mcp-auth.json")
    }

    pub fn tool_output(&self) -> (p: String)
        ensures
            p@ == joined_path(self.data@, "tool-output"@),
    {
        join_path(self.data.as_str(), "tool-output")
    }

    pub fn snapshot(&self) -> (p: String)
        ensures
            p@ == joined_path(self.data@, "snapshot"@),
    {
        join_path(self.data.as_str(), "snapshot")
    }

    pub fn plans(&self) -> (p: String)
        ensures
            p@ == joined_path(self.data@, "plans"@),
    {
        join_path(self.data.as_str(), "plans")
    }

    pub fn log(&self) -> (p: String)
        ensures
            p@ == joined_path(self.data@, "log"@),
    {
        join_path(self.data.as_str(), "log")
    }

    pub fn models_cache(&self) -> (p: String)
        ensures
            p@ == joined_path(self.cache@, "models.json"@),
    {
        join_path(self.cache.as_str(), "models.json")
    }

    pub fn kv(&self) -> (p: String)
        ensures
            p@ == joined_path(self.state@, "kv.json"@),
    {
        join_path(self.state.as_str(), "kv.json")
    }

    pub open spec fn global_dirs(&self) -> Seq<Seq<char>> {
        if same_path(self.legacy_config@, self.config@) {
            seq![self.config@]
        } else {
            seq![self.legacy_config@, self.config@]
        }
    }

    /// Global config directories, lowest precedence first (legacy, then lunarzero).
    pub fn global_config_dirs(&self) -> (v: Vec<String>)
        ensures
            texts(v@) == self.global_dirs(),
    {
        let mut v: Vec<String> = Vec::new();
        if !is_same_path(self.legacy_config.as_str(), self.config.as_str()) {
            v.push(self.legacy_config.clone());
        }
        v.push(self.config.clone());
        assert(texts(v@) =~= self.global_dirs());
        v
    }
}

/// `p` with a leading `~` or `$HOME` expanded.
pub open spec fn expanded(p: Seq<char>, home: Seq<char>) -> Seq<char> {
    if starts_with(p, "~/"@) {
        joined_path(home, p.skip("~/"@.len() as int))
    } else if p == "~"@ || p == "$HOME"@ {
        home
    } else if starts_with(p, "$HOME/"@) {
        joined_path(home, p.skip("$HOME/"@.len() as int))
    } else {
        p
    }
}

/// Expand a leading `~` or `$HOME`.
pub fn expand_home(p: &str, home: &str) -> (r: String)
    ensures
        r@ == expanded(p@, home@),
        p@ == "~"@ || p@ == "$HOME"@ ==> r@ == home@,
{
    proof {
        reveal_strlit("~");
        reveal_strlit("~/");
        reveal_strlit("$HOME");
        if starts_with(p@, "~/"@) {
            assert(p@[0] == p@.take(2)[0]);
        }
    }
    if let Some(rest) = after_prefix(p, "~/") {
        join_path(home, rest.as_str())
    } else if same(p, "~") || same(p, "$HOME") {
        home.to_owned()
    } else if let Some(rest) = after_prefix(p, "$HOME/") {
        join_path(home, rest.as_str())
    } else {
        p.to_owned()
    }
}

/// A possibly relative path, taken from `directory`.
pub open spec fn resolved(p: Seq<char>, home: Seq<char>, directory: Seq<char>) -> Seq<char> {
    joined_path(directory, expanded(p, home))
}

/// Resolve a possibly relative path against the project directory.
pub fn resolve_path(p: &str, home: &str, directory: &str) -> (r: String)
    ensures
        r@ == resolved(p@, home@, directory@),
{
    let e = expand_home(p, home);
    join_path(directory, e.as_str())
}

/// Where themes are looked for: below the global configuration directories,
/// then below the project's.
pub fn theme_dirs(paths: &Paths, config_dirs: &Vec<String>) -> (r: Vec<String>)
    ensures
        texts(r@) == themes(paths.global_dirs() + texts(config_dirs@)),
{
    let mut dirs = paths.global_config_dirs();
    let mut own = copy_texts(config_dirs);
    let ghost g = texts(dirs@);
    let ghost o = texts(own@);
    dirs.append(&mut own);
    assert(texts(dirs@) =~= g + o);
    let mut r: Vec<String> = Vec::new();
    let mut i: usize = 0;
    while i < dirs.len()
        invariant
            i <= dirs@.len(),
            r@.len() == i,
            forall|k: int|
                0 <= k < i ==> (#[trigger] r@[k])@ == joined_path(dirs@[k]@, "themes"@),
        decreases dirs@.len() - i,
    {
        r.push(join_path(dirs[i].as_str(), "themes"));
        i += 1;
    }
    assert(texts(r@) =~= themes(texts(dirs@)));
    r
}

pub open spec fn themes(dirs: Seq<Seq<char>>) -> Seq<Seq<char>> {
    Seq::new(dirs.len(), |i: int| joined_path(dirs[i], "themes"@))
}

} // verus!

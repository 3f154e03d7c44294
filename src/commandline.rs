use vstd::prelude::*;
use vstd::string::*;

use crate::tree::{join_dir, join_directory};

verus! {

/// Why command-line options were refused.
#[derive(Debug)]
pub enum ConfigError {
    NodePathMustBeAbsolute(String),
}

/// Whether a path string is absolute.
pub open spec fn is_absolute(s: Seq<char>) -> bool {
    s.len() > 0 && s[0] == '/'
}

pub fn starts_with_slash(s: &String) -> (r: bool)
    ensures
        r == is_absolute(s@),
{
    let t = s.as_str();
    t.unicode_len() > 0 && t.get_char(0) == '/'
}

/// The file an option names: as given when absolute, else under the
/// current directory; `default_name` under it when none is given.
pub open spec fn file_spec(file: Option<Seq<char>>, cwd: Seq<char>, default_name: Seq<char>) -> Seq<char> {
    match file {
        Some(f) => if is_absolute(f) {
            f
        } else {
            join_dir(cwd, f)
        },
        None => join_dir(cwd, default_name),
    }
}

pub open spec fn opt_view(s: Option<String>) -> Option<Seq<char>> {
    match s {
        Some(t) => Some(t@),
        None => None,
    }
}

/// The file an option names, as `file_spec` states it.
pub fn resolve_file(file: Option<String>, cwd: &String, default_name: &str) -> (r: String)
    ensures
        r@ == file_spec(opt_view(file), cwd@, default_name@),
{
    match file {
        Some(f) => if starts_with_slash(&f) {
            f
        } else {
            join_directory(cwd.clone(), &f)
        },
        None => join_directory(cwd.clone(), &String::from_str(default_name)),
    }
}

/// The node path an option names: `/` by default; it must be absolute.
pub fn node_path_option(path: Option<String>) -> (r: Result<String, ConfigError>)
    ensures
        match path {
            Some(p) => if is_absolute(p@) {
                r matches Ok(s) && s@ == p@
            } else {
                r matches Err(ConfigError::NodePathMustBeAbsolute(s)) && s@ == p@
            },
            None => r matches Ok(s) && s@ == "/"@,
        },
{
    match path {
        Some(p) => if starts_with_slash(&p) {
            Ok(p)
        } else {
            Err(ConfigError::NodePathMustBeAbsolute(p))
        },
        None => Ok(String::from_str("/")),
    }
}

fn or_default(s: Option<String>, default: &str) -> (r: String)
    ensures
        r@ == match s {
            Some(t) => t@,
            None => default@,
        },
{
    match s {
        Some(t) => t,
        None => String::from_str(default),
    }
}

/// Options of a one-shot layout run.
pub struct CommandlineOptions {
    pub layout: Option<String>,
    pub project_name: Option<String>,
    pub path: Option<String>,
    pub keys: Option<Vec<String>>,
    pub hide_key: Option<bool>,
    pub file: Option<String>,
}

/// `CommandlineOptions` with every default filled in.
#[derive(Debug)]
pub struct CommandlineConfig {
    pub layout: String,
    pub project_name: String,
    pub path: String,
    pub keys: Vec<String>,
    pub hide_key: bool,
    pub file: String,
}

impl CommandlineConfig {
    /// Fills in the defaults: the plain layout, project name `.`, path `/`,
    /// no keys, keys shown, and `LOOKME.toml` in `cwd`. A relative file is
    /// taken under `cwd`; a relative node path is refused.
    pub fn from_opt(opt: CommandlineOptions, cwd: &String) -> (r: Result<CommandlineConfig, ConfigError>)
        ensures
            match opt.path {
                Some(p) => !is_absolute(p@) ==> (r matches Err(ConfigError::NodePathMustBeAbsolute(s))
                    && s@ == p@),
                None => true,
            },
            (match opt.path {
                Some(p) => is_absolute(p@),
                None => true,
            }) ==> (r matches Ok(c) && c.layout@ == (match opt.layout {
                Some(l) => l@,
                None => "plain"@,
            }) && c.project_name@ == (match opt.project_name {
                Some(n) => n@,
                None => "."@,
            }) && c.path@ == (match opt.path {
                Some(p) => p@,
                None => "/"@,
            }) && c.keys@ == (match opt.keys {
                Some(k) => k@,
                None => Seq::<String>::empty(),
            }) && c.hide_key == (match opt.hide_key {
                Some(h) => h,
                None => false,
            }) && c.file@ == file_spec(opt_view(opt.file), cwd@, "LOOKME.toml"@)),
    {
        let path = match node_path_option(opt.path) {
            Ok(p) => p,
            Err(e) => {
                return Err(e);
            },
        };
        let keys = match opt.keys {
            Some(k) => k,
            None => Vec::new(),
        };
        let hide_key = match opt.hide_key {
            Some(h) => h,
            None => false,
        };
        Ok(
            CommandlineConfig {
                layout: or_default(opt.layout, "plain"),
                project_name: or_default(opt.project_name, "."),
                path,
                keys,
                hide_key,
                file: resolve_file(opt.file, cwd, "LOOKME.toml"),
            },
        )
    }
}

/// Options of the `layout` command.
pub struct LayoutOptions {
    pub layout: Option<String>,
    pub project_name: Option<String>,
    pub path: Option<String>,
    pub keys: Option<Vec<String>>,
    pub hide_key: bool,
    pub file: Option<String>,
    pub depth: Option<usize>,
}

/// `LayoutOptions` with every default filled in.
#[derive(Debug)]
pub struct LayoutConfig {
    pub layout: String,
    pub project_name: String,
    pub path: String,
    pub keys: Vec<String>,
    pub hide_key: bool,
    pub file: String,
    pub depth: usize,
}

impl LayoutConfig {
    /// Fills in the defaults: the line layout, project name `.`, path `/`,
    /// no keys, `LOOKME.toml` in `cwd`, depth 3. A relative file is taken
    /// under `cwd`; a relative node path is refused.
    pub fn from_opt(opt: LayoutOptions, cwd: &String) -> (r: Result<LayoutConfig, ConfigError>)
        ensures
            match opt.path {
                Some(p) => !is_absolute(p@) ==> (r matches Err(ConfigError::NodePathMustBeAbsolute(s))
                    && s@ == p@),
                None => true,
            },
            (match opt.path {
                Some(p) => is_absolute(p@),
                None => true,
            }) ==> (r matches Ok(c) && c.layout@ == (match opt.layout {
                Some(l) => l@,
                None => "line"@,
            }) && c.project_name@ == (match opt.project_name {
                Some(n) => n@,
                None => "."@,
            }) && c.path@ == (match opt.path {
                Some(p) => p@,
                None => "/"@,
            }) && c.keys@ == (match opt.keys {
                Some(k) => k@,
                None => Seq::<String>::empty(),
            }) && c.hide_key == opt.hide_key && c.file@ == file_spec(
                opt_view(opt.file),
                cwd@,
                "LOOKME.toml"@,
            ) && c.depth == (match opt.depth {
                Some(d) => d,
                None => 3,
            })),
    {
        let path = match node_path_option(opt.path) {
            Ok(p) => p,
            Err(e) => {
                return Err(e);
            },
        };
        let keys = match opt.keys {
            Some(k) => k,
            None => Vec::new(),
        };
        let depth = match opt.depth {
            Some(d) => d,
            None => 3,
        };
        Ok(
            LayoutConfig {
                layout: or_default(opt.layout, "line"),
                project_name: or_default(opt.project_name, "."),
                path,
                keys,
                hide_key: opt.hide_key,
                file: resolve_file(opt.file, cwd, "LOOKME.toml"),
                depth,
            },
        )
    }
}

/// Options of the `generate` command.
pub struct GenerateOptions {
    pub path: Option<String>,
    pub file_name: Option<String>,
}

/// `GenerateOptions` with every default filled in.
#[derive(Debug)]
pub struct GenerateConfig {
    pub path: String,
    pub file_name: String,
}

impl GenerateConfig {
    /// The project directory (`cwd` by default, a relative one under `cwd`)
    /// and the document name (`LOOKME.toml` by default).
    pub fn from_opt(opt: GenerateOptions, cwd: &String) -> (r: GenerateConfig)
        ensures
            r.path@ == match opt.path {
                Some(p) => if is_absolute(p@) {
                    p@
                } else {
                    join_dir(cwd@, p@)
                },
                None => cwd@,
            },
            r.file_name@ == match opt.file_name {
                Some(n) => n@,
                None => "LOOKME.toml"@,
            },
    {
        let path = match opt.path {
            Some(p) => if starts_with_slash(&p) {
                p
            } else {
                join_directory(cwd.clone(), &p)
            },
            None => cwd.clone(),
        };
        GenerateConfig { path, file_name: or_default(opt.file_name, "LOOKME.toml") }
    }
}

/// Options of the interactive mode.
pub struct InteractOptions {
    pub project_name: Option<String>,
    pub file: Option<String>,
}

/// `InteractOptions` with every default filled in.
#[derive(Debug)]
pub struct InteractConfig {
    pub project_name: String,
    pub file: String,
}

impl InteractConfig {
    /// Project name `.` and `LOOKME.toml` in `cwd` by default; a relative
    /// file is taken under `cwd`.
    pub fn from_opt(opt: InteractOptions, cwd: &String) -> (r: InteractConfig)
        ensures
            r.project_name@ == match opt.project_name {
                Some(n) => n@,
                None => "."@,
            },
            r.file@ == file_spec(opt_view(opt.file), cwd@, "LOOKME.toml"@),
    {
        InteractConfig {
            project_name: or_default(opt.project_name, "."),
            file: resolve_file(opt.file, cwd, "LOOKME.toml"),
        }
    }
}

/// Options of the interactive `get` command.
pub struct GetOptions {
    pub key: String,
    pub path: String,
}

/// The program's commands.
pub enum Commandline {
    /// Display a project layout.
    Layout(LayoutOptions),
    /// Generate default documents.
    Generate(GenerateOptions),
    /// Enter interactive mode.
    Interact(InteractOptions),
}

} // verus!

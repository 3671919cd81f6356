use vstd::prelude::*;

use crate::text::{chars_of, push_str, string_of};

verus! {

/// The application's settings.
#[derive(Clone, Debug)]
pub struct AppConfig {
    /// The name of the colour theme.
    pub theme: String,
}

/// What a configuration file holds; a key it leaves out is `None`.
#[derive(Clone, Debug)]
pub struct ConfigFile {
    pub theme: Option<String>,
}

pub open spec fn default_theme_text() -> Seq<char> {
    seq!['D', 'e', 'f', 'a', 'u', 'l', 't', ' ', 'L', 'i', 'g', 'h', 't']
}

/// The theme used when none is configured.
pub fn default_theme() -> (r: String)
    ensures
        r@ == default_theme_text(),
{
    let t = "Default Light";
    proof {
        reveal_strlit("Default Light");
    }
    assert(t@ =~= default_theme_text());
    String::from_str(t)
}

impl Default for AppConfig {
    fn default() -> (r: AppConfig)
        ensures
            r.theme@ == default_theme_text(),
    {
        AppConfig { theme: default_theme() }
    }
}

/// The settings to use: those of the file that was read, with the default theme where it names
/// none; all defaults when no file could be read.
pub fn load_config(file: Option<ConfigFile>) -> (r: AppConfig)
    ensures
        r.theme@ == match file {
            Some(ConfigFile { theme: Some(t) }) => t@,
            _ => default_theme_text(),
        },
{
    match file {
        Some(ConfigFile { theme: Some(t) }) => AppConfig { theme: t },
        _ => AppConfig { theme: default_theme() },
    }
}

/// `base` and `part` joined by one `/`, as a path gets a relative component.
pub open spec fn joined(base: Seq<char>, part: Seq<char>) -> Seq<char> {
    if base.len() == 0 || base.last() == '/' {
        base + part
    } else {
        base + seq!['/'] + part
    }
}

pub open spec fn app_dir_text() -> Seq<char> {
    seq!['t', 'a', 'b', 'u', 'l', 'i', 't', 'e']
}

pub open spec fn config_file_text() -> Seq<char> {
    seq!['c', 'o', 'n', 'f', 'i', 'g', '.', 't', 'o', 'm', 'l']
}

/// The configuration file under a configuration directory.
pub open spec fn config_file_in(dir: Seq<char>) -> Seq<char> {
    joined(joined(dir, app_dir_text()), config_file_text())
}

fn push_component(out: &mut Vec<char>, part: &str)
    ensures
        final(out)@ == joined(old(out)@, part@),
{
    if out.len() > 0 && out[out.len() - 1] != '/' {
        out.push('/');
    }
    push_str(out, part);
    assert(final(out)@ =~= joined(old(out)@, part@));
}

fn config_file_path_in(dir: &String) -> (r: String)
    ensures
        r@ == config_file_in(dir@),
{
    let mut out = chars_of(dir.as_str());
    let app = "tabulite";
    let file = "config.toml";
    proof {
        reveal_strlit("tabulite");
        reveal_strlit("config.toml");
    }
    assert(app@ =~= app_dir_text());
    assert(file@ =~= config_file_text());
    push_component(&mut out, app);
    push_component(&mut out, file);
    string_of(&out)
}

/// The default configuration file: under `$XDG_CONFIG_HOME` when that is set and not empty,
/// else under the platform's configuration directory; `None` when neither is known.
pub fn default_config_path(xdg_config_home: Option<String>, config_dir: Option<String>) -> (r:
    Option<String>)
    ensures
        match xdg_config_home {
            Some(x) if x@.len() > 0 => r is Some && r->0@ == config_file_in(x@),
            _ => match config_dir {
                Some(d) => r is Some && r->0@ == config_file_in(d@),
                None => r is None,
            },
        },
{
    if let Some(x) = &xdg_config_home {
        if !x.as_str().is_empty() {
            return Some(config_file_path_in(x));
        }
    }
    match &config_dir {
        Some(d) => Some(config_file_path_in(d)),
        None => None,
    }
}

} // verus!

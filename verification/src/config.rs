//! The translation tool's settings: which engine, and the Baidu credentials,
//! which the environment can supply where the settings file has none.

use vstd::prelude::*;
use crate::text::push_str;

verus! {

broadcast use vstd::string::group_string_axioms;

/// Settings of the translation tool.
#[derive(Debug, Clone)]
pub struct TranslateConfig {
    /// 0 for MyMemory, 1 for Baidu.
    pub engine_index: i32,
    pub baidu_appid: String,
    pub baidu_key: String,
}

/// The engine of a settings file that names none: MyMemory.
pub fn default_engine() -> (r: i32)
    ensures
        r == 0,
{
    0
}

impl Default for TranslateConfig {
    /// MyMemory, no credentials.
    fn default() -> (r: TranslateConfig)
        ensures
            r.engine_index == 0,
            r.baidu_appid@.len() == 0,
            r.baidu_key@.len() == 0,
    {
        TranslateConfig { engine_index: default_engine(), baidu_appid: String::new(), baidu_key: String::new() }
    }
}

/// A credential after the environment had its say: the variable's value
/// where it is set and `keep_set` does not hold, else the current value.
pub open spec fn merged(current: Seq<char>, env: Option<Seq<char>>, keep_set: bool) -> Seq<char> {
    match env {
        Some(v) if !(keep_set && current.len() > 0) => v,
        _ => current,
    }
}

pub open spec fn opt_view(v: Option<String>) -> Option<Seq<char>> {
    match v {
        Some(s) => Some(s@),
        None => None,
    }
}

impl TranslateConfig {
    /// The settings used without a settings file: MyMemory, and the
    /// credentials of `BAIDU_TRANSLATE_APPID` and `BAIDU_TRANSLATE_KEY`
    /// where they are set (their values given here).
    pub fn from_env(appid_env: Option<String>, key_env: Option<String>) -> (r: TranslateConfig)
        ensures
            r.engine_index == 0,
            r.baidu_appid@ == merged(Seq::empty(), opt_view(appid_env), false),
            r.baidu_key@ == merged(Seq::empty(), opt_view(key_env), false),
    {
        let mut cfg = TranslateConfig::default();
        if let Some(v) = appid_env {
            cfg.baidu_appid = v;
        }
        if let Some(v) = key_env {
            cfg.baidu_key = v;
        }
        cfg
    }

    /// Loaded settings completed from the environment: a credential that
    /// the file left empty is taken from its variable, where that is set.
    pub fn fill_from_env(self, appid_env: Option<String>, key_env: Option<String>) -> (r: TranslateConfig)
        ensures
            r.engine_index == self.engine_index,
            r.baidu_appid@ == merged(self.baidu_appid@, opt_view(appid_env), true),
            r.baidu_key@ == merged(self.baidu_key@, opt_view(key_env), true),
    {
        let mut cfg = self;
        if cfg.baidu_appid.as_str().is_empty() {
            if let Some(v) = appid_env {
                cfg.baidu_appid = v;
            }
        }
        if cfg.baidu_key.as_str().is_empty() {
            if let Some(v) = key_env {
                cfg.baidu_key = v;
            }
        }
        cfg
    }
}

/// `dir` followed by `/` and `name`.
pub open spec fn path_join(dir: Seq<char>, name: Seq<char>) -> Seq<char> {
    dir + seq!['/'] + name
}

/// Where the settings live: `xtools/translate.json` under
/// `$XDG_CONFIG_HOME`, or else under `$HOME/.config`; nowhere when neither
/// variable is set (their values given here).
pub open spec fn config_path(xdg_config_home: Option<Seq<char>>, home: Option<Seq<char>>) -> Option<Seq<char>> {
    let base = match xdg_config_home {
        Some(x) => Some(x),
        None => match home {
            Some(h) => Some(path_join(h, ".config"@)),
            None => None,
        },
    };
    match base {
        Some(b) => Some(path_join(path_join(b, "xtools"@), "translate.json"@)),
        None => None,
    }
}

/// The settings file's path, see [`config_path`].
pub fn config_file_path(xdg_config_home: Option<&str>, home: Option<&str>) -> (r: Option<String>)
    ensures
        opt_view(r) == config_path(crate::instance::opt_str_view(xdg_config_home), crate::instance::opt_str_view(home)),
{
    let mut base = String::new();
    match xdg_config_home {
        Some(x) => push_str(&mut base, x),
        None => match home {
            Some(h) => {
                push_str(&mut base, h);
                push_str(&mut base, "/.config");
                proof {
                    reveal_strlit("/.config");
                    reveal_strlit(".config");
                }
            },
            None => return None,
        },
    }
    let ghost b = base@;
    push_str(&mut base, "/xtools/translate.json");
    proof {
        reveal_strlit("/xtools/translate.json");
        reveal_strlit("xtools");
        reveal_strlit("translate.json");
        assert(base@ =~= path_join(path_join(b, "xtools"@), "translate.json"@));
    }
    Some(base)
}

} // verus!

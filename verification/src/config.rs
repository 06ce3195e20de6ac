//! Process-wide configuration: per-language profiles and the container each
//! language tag runs in. Read-only once built; lookups are first-match over
//! association lists.
use vstd::prelude::*;
use crate::text::str_eq;

verus! {

pub struct ServerConfig {
    pub bind_addr: String,
    pub run_timeout: u64,
}

pub struct DockerConfig {
    pub host: String,
    pub connect_timeout: u64,
    pub keepalive_secs: u64,
    pub request_timeout: u64,
}

/// One language profile: whether it may run, its source-file extension, an
/// optional compile-command template and a run-command template. Templates
/// carry `{source}` and `{binary}` placeholders.
pub struct LanguageConfig {
    pub enabled: bool,
    pub file_extension: String,
    pub compile_cmd: Option<String>,
    pub run_cmd: String,
}

pub struct Config {
    pub server: ServerConfig,
    pub docker: DockerConfig,
    pub containers: Vec<(String, String)>,
    pub languages: Vec<(String, LanguageConfig)>,
}

/// First profile whose tag equals `k`.
pub open spec fn spec_lookup_lang(m: Seq<(String, LanguageConfig)>, k: Seq<char>) -> Option<
    LanguageConfig,
>
    decreases m.len(),
{
    if m.len() == 0 {
        None
    } else if m[0].0@ == k {
        Some(m[0].1)
    } else {
        spec_lookup_lang(m.skip(1), k)
    }
}

/// First container whose tag equals `k`.
pub open spec fn spec_lookup_container(m: Seq<(String, String)>, k: Seq<char>) -> Option<String>
    decreases m.len(),
{
    if m.len() == 0 {
        None
    } else if m[0].0@ == k {
        Some(m[0].1)
    } else {
        spec_lookup_container(m.skip(1), k)
    }
}

/// The profile for `k`, but only while it is enabled.
pub open spec fn spec_get_language(c: Config, k: Seq<char>) -> Option<LanguageConfig> {
    match spec_lookup_lang(c.languages@, k) {
        Some(cfg) => if cfg.enabled {
            Some(cfg)
        } else {
            None
        },
        None => None,
    }
}

pub open spec fn spec_get_container(c: Config, k: Seq<char>) -> Option<String> {
    spec_lookup_container(c.containers@, k)
}

impl Config {
    /// The enabled profile for a language tag, if any.
    #[verifier::loop_isolation(false)]
    pub fn get_language(&self, lang: &str) -> (r: Option<&LanguageConfig>)
        ensures
            match r {
                Some(cfg) => spec_get_language(*self, lang@) == Some(*cfg),
                None => spec_get_language(*self, lang@) is None,
            },
    {
        let n = self.languages.len();
        let mut i: usize = 0;
        proof {
            assert(self.languages@.skip(0) =~= self.languages@);
        }
        while i < n
            invariant
                0 <= i <= n,
                n == self.languages@.len(),
                spec_lookup_lang(self.languages@, lang@) == spec_lookup_lang(
                    self.languages@.skip(i as int),
                    lang@,
                ),
            decreases n - i,
        {
            let ghost rest = self.languages@.skip(i as int);
            proof {
                assert(rest[0] == self.languages@[i as int]);
                assert(rest.skip(1) =~= self.languages@.skip(i + 1));
            }
            let entry = &self.languages[i];
            if str_eq(entry.0.as_str(), lang) {
                if entry.1.enabled {
                    return Some(&entry.1);
                } else {
                    return None;
                }
            }
            i = i + 1;
        }
        proof {
            assert(self.languages@.skip(n as int) =~= Seq::<(String, LanguageConfig)>::empty());
        }
        None
    }

    /// The container mapped to a language tag, if any.
    #[verifier::loop_isolation(false)]
    pub fn get_container(&self, lang: &str) -> (r: Option<&str>)
        ensures
            match r {
                Some(name) => spec_get_container(*self, lang@) matches Some(n) && n@ == name@,
                None => spec_get_container(*self, lang@) is None,
            },
    {
        let n = self.containers.len();
        let mut i: usize = 0;
        proof {
            assert(self.containers@.skip(0) =~= self.containers@);
        }
        while i < n
            invariant
                0 <= i <= n,
                n == self.containers@.len(),
                spec_lookup_container(self.containers@, lang@) == spec_lookup_container(
                    self.containers@.skip(i as int),
                    lang@,
                ),
            decreases n - i,
        {
            let ghost rest = self.containers@.skip(i as int);
            proof {
                assert(rest[0] == self.containers@[i as int]);
                assert(rest.skip(1) =~= self.containers@.skip(i + 1));
            }
            let entry = &self.containers[i];
            if str_eq(entry.0.as_str(), lang) {
                return Some(entry.1.as_str());
            }
            i = i + 1;
        }
        proof {
            assert(self.containers@.skip(n as int) =~= Seq::<(String, String)>::empty());
        }
        None
    }
}

} // verus!

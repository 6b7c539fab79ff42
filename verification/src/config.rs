//! The settings: resolving a [`Config`] from defaults, a settings file and
//! environment overrides.
//!
//! Three typed fields (`model`, `endpoint`, `token_budget`) are resolved from
//! three layers with a fixed precedence: built-in defaults, overridden by the
//! `key = value` lines of a `mend.toml` text, overridden in turn by the
//! `MEND_MODEL`, `MEND_ENDPOINT` and `MEND_TOKEN_BUDGET` values. A missing file
//! is not an error. The one hard failure is a `token_budget`, from the file or
//! the environment, that is not an integer. Reading the file and the
//! environment is the caller's part; [`Config::resolve`] decides.
use vstd::prelude::*;

use crate::decimal::{parse_u32, parsed_u32};
use crate::text::{
    chars_of, concat3, find_char, find_char_exec, lines, lines_exec, string_of, subrange, trim,
    trim_exec, vviews,
};
use crate::{MendError, Result};

verus! {

/// The resolved configuration feeding the deterministic layers.
#[derive(Debug, Clone, PartialEq, Eq)]
pub struct Config {
    /// The model identifier the completer backend should use.
    pub model: String,
    /// The endpoint URL the completer backend should talk to.
    pub endpoint: String,
    /// The per-run token budget the deterministic layers spend against.
    pub token_budget: u32,
}

/// The mathematical value of a [`Config`].
pub struct ConfigView {
    pub model: Seq<char>,
    pub endpoint: Seq<char>,
    pub token_budget: u32,
}

impl View for Config {
    type V = ConfigView;

    open spec fn view(&self) -> ConfigView {
        ConfigView { model: self.model@, endpoint: self.endpoint@, token_budget: self.token_budget }
    }
}

/// The built-in defaults.
pub open spec fn default_config() -> ConfigView {
    ConfigView {
        model: "gpt-4"@,
        endpoint: "https://api.openai.com/v1"@,
        token_budget: 4096,
    }
}

/// `value` without one layer of surrounding double quotes, if it has them.
pub open spec fn unquoted(value: Seq<char>) -> Seq<char> {
    if value.len() >= 2 && value[0] == '"' && value.last() == '"' {
        value.subrange(1, value.len() - 1)
    } else {
        value
    }
}

/// The message for a `token_budget` that is not an integer.
pub open spec fn budget_message(value: Seq<char>) -> Seq<char> {
    "token_budget must be an integer, got: "@ + value
}

/// `c` with its budget read from `value`, or the message refusing it.
pub open spec fn with_budget(c: ConfigView, value: Seq<char>) -> std::result::Result<
    ConfigView,
    Seq<char>,
> {
    match parsed_u32(value) {
        Some(n) => Ok(ConfigView { token_budget: n, ..c }),
        None => Err(budget_message(value)),
    }
}

/// One settings line applied to `c`: a line `key = value` (split at its first
/// `=`, both sides trimmed, the value unquoted) sets `model`, `endpoint` or
/// `token_budget`; other keys and lines without `=` change nothing.
pub open spec fn apply_line(c: ConfigView, line: Seq<char>) -> std::result::Result<
    ConfigView,
    Seq<char>,
> {
    let k = find_char(line, '=');
    if k >= line.len() {
        Ok(c)
    } else {
        let key = trim(line.take(k as int));
        let value = unquoted(trim(line.skip(k + 1 as int)));
        if key == "model"@ {
            Ok(ConfigView { model: value, ..c })
        } else if key == "endpoint"@ {
            Ok(ConfigView { endpoint: value, ..c })
        } else if key == "token_budget"@ {
            with_budget(c, value)
        } else {
            Ok(c)
        }
    }
}

/// The settings lines from `i` on applied to `c` in order, stopping at the
/// first refused budget.
pub open spec fn apply_lines(c: ConfigView, ls: Seq<Seq<char>>, i: int) -> std::result::Result<
    ConfigView,
    Seq<char>,
>
    decreases ls.len() - i,
{
    if i < 0 || i >= ls.len() {
        Ok(c)
    } else {
        match apply_line(c, ls[i]) {
            Ok(c2) => apply_lines(c2, ls, i + 1),
            Err(m) => Err(m),
        }
    }
}

/// The configuration resolved from the defaults, the settings text (if the
/// file exists) and the environment overrides (if set), in increasing order of
/// precedence; or the message refusing a budget.
pub open spec fn resolved(
    file: Option<Seq<char>>,
    env_model: Option<Seq<char>>,
    env_endpoint: Option<Seq<char>>,
    env_budget: Option<Seq<char>>,
) -> std::result::Result<ConfigView, Seq<char>> {
    let from_file = match file {
        Some(text) => apply_lines(default_config(), lines(text), 0),
        None => Ok(default_config()),
    };
    match from_file {
        Err(m) => Err(m),
        Ok(c) => {
            let c1 = match env_model {
                Some(m) => ConfigView { model: m, ..c },
                None => c,
            };
            let c2 = match env_endpoint {
                Some(e) => ConfigView { endpoint: e, ..c1 },
                None => c1,
            };
            match env_budget {
                Some(v) => with_budget(c2, v),
                None => Ok(c2),
            }
        },
    }
}

/// Strip one layer of surrounding double quotes from a settings value.
fn unquote(value: &[char]) -> (r: Vec<char>)
    ensures
        r@ == unquoted(value@),
{
    let n = value.len();
    if n >= 2 && value[0] == '"' && value[n - 1] == '"' {
        subrange(value, 1, n - 1)
    } else {
        proof {
            assert(value@.subrange(0, n as int) == value@);
        }
        subrange(value, 0, n)
    }
}

/// Read a `token_budget` value, refusing any non-integer text with
/// [`MendError::Config`].
fn parse_budget(value: &str) -> (r: Result<u32>)
    ensures
        match r {
            Ok(n) => parsed_u32(value@) == Some(n),
            Err(MendError::Config(m)) => parsed_u32(value@) is None && m@ == budget_message(
                value@,
            ),
            Err(_) => false,
        },
{
    match parse_u32(value) {
        Some(n) => Ok(n),
        None => {
            proof {
                reveal_strlit("");
            }
            Err(MendError::Config(concat3("token_budget must be an integer, got: ", value, "")))
        },
    }
}

/// The outcome of a spec-level step as a library result.
pub open spec fn matches_resolution(
    r: Result<Config>,
    s: std::result::Result<ConfigView, Seq<char>>,
) -> bool {
    match (r, s) {
        (Ok(c), Ok(v)) => c@ == v,
        (Err(MendError::Config(m)), Err(sm)) => m@ == sm,
        _ => false,
    }
}

impl Config {
    /// The configuration with one settings line applied.
    fn apply_line_exec(self, line: &[char]) -> (r: Result<Config>)
        ensures
            matches_resolution(r, apply_line(self@, line@)),
    {
        let k = find_char_exec(line, '=');
        if k >= line.len() {
            return Ok(self);
        }
        let key = trim_exec(&subrange(line, 0, k));
        let value = unquote(&trim_exec(&subrange(line, k + 1, line.len())));
        proof {
            assert(line@.subrange(0, k as int) == line@.take(k as int));
            assert(line@.subrange(k + 1, line@.len() as int) == line@.skip(k + 1 as int));
        }
        let key_s = string_of(&key);
        let value_s = string_of(&value);
        if key_s == "model".to_owned() {
            Ok(Config { model: value_s, ..self })
        } else if key_s == "endpoint".to_owned() {
            Ok(Config { endpoint: value_s, ..self })
        } else if key_s == "token_budget".to_owned() {
            match parse_budget(value_s.as_str()) {
                Ok(n) => Ok(Config { token_budget: n, ..self }),
                Err(e) => Err(e),
            }
        } else {
            Ok(self)
        }
    }

    /// Resolve the configuration from the defaults, the text of `mend.toml`
    /// (`None` when there is no such file) and the values of `MEND_MODEL`,
    /// `MEND_ENDPOINT` and `MEND_TOKEN_BUDGET` (`None` when unset), in
    /// increasing order of precedence.
    ///
    /// Returns [`MendError::Config`] when a `token_budget` from the file or the
    /// environment is not a valid integer.
    pub fn resolve(
        file: Option<&str>,
        env_model: Option<&str>,
        env_endpoint: Option<&str>,
        env_budget: Option<&str>,
    ) -> (r: Result<Config>)
        ensures
            matches_resolution(
                r,
                resolved(
                    match file {
                        Some(t) => Some(t@),
                        None => None,
                    },
                    match env_model {
                        Some(t) => Some(t@),
                        None => None,
                    },
                    match env_endpoint {
                        Some(t) => Some(t@),
                        None => None,
                    },
                    match env_budget {
                        Some(t) => Some(t@),
                        None => None,
                    },
                ),
            ),
    {
        let mut c = Config {
            model: "gpt-4".to_owned(),
            endpoint: "https://api.openai.com/v1".to_owned(),
            token_budget: 4096,
        };
        if let Some(text) = file {
            let ls = lines_exec(&chars_of(text));
            let ghost lv = vviews(ls@);
            let mut i: usize = 0;
            while i < ls.len()
                invariant
                    file == Some(text),
                    i <= ls@.len(),
                    lv == vviews(ls@),
                    lv == lines(text@),
                    apply_lines(default_config(), lv, 0) == apply_lines(c@, lv, i as int),
                decreases ls@.len() - i,
            {
                assert(lv[i as int] == ls@[i as int]@);
                match c.apply_line_exec(&ls[i]) {
                    Ok(c2) => {
                        c = c2;
                    },
                    Err(e) => {
                        return Err(e);
                    },
                }
                i += 1;
            }
        }
        if let Some(m) = env_model {
            c = Config { model: m.to_owned(), ..c };
        }
        if let Some(e) = env_endpoint {
            c = Config { endpoint: e.to_owned(), ..c };
        }
        if let Some(v) = env_budget {
            match parse_budget(v) {
                Ok(n) => {
                    c = Config { token_budget: n, ..c };
                },
                Err(e) => {
                    return Err(e);
                },
            }
        }
        Ok(c)
    }
}

} // verus!

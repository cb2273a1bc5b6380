//! Named `config` blocks of a program and the values they resolve to.
//!
//! Environment variables are read from a snapshot of the process
//! environment that the manager is given when it is made.

use vstd::prelude::*;
use crate::ast::{Config, ConfigProperty, ConfigValue};
use crate::error::WebPipeError;
use crate::json::{JsonValue, Json, jv, get, as_str, as_bool, as_i64, lemma_jv_entries};
use crate::text::{str_eq, chars_of, string_of, append_str};

verus! {

/// The configs of a program, by name, and the environment they resolve
/// variables against.
#[derive(Debug)]
pub struct ConfigManager {
    pub configs: Vec<Config>,
    pub env: Vec<(String, String)>,
}

/// The last config named `name` (a later block replaces an earlier one).
pub open spec fn config_named(cs: Seq<Config>, name: Seq<char>) -> Option<Config>
    decreases cs.len(),
{
    if cs.len() == 0 {
        None
    } else if cs.last().name@ == name {
        Some(cs.last())
    } else {
        config_named(cs.drop_last(), name)
    }
}

/// The value of `var` in an environment snapshot.
pub open spec fn env_value(env: Seq<(String, String)>, var: Seq<char>) -> Option<Seq<char>>
    decreases env.len(),
{
    if env.len() == 0 {
        None
    } else if env[0].0@ == var {
        Some(env[0].1@)
    } else {
        env_value(env.drop_first(), var)
    }
}

/// What a config value resolves to: its JSON value, or the message of the
/// configuration error.
pub open spec fn resolved(v: ConfigValue, env: Seq<(String, String)>) -> Result<Json, Seq<char>> {
    match v {
        ConfigValue::String(s) => Ok(Json::Str(s@)),
        ConfigValue::Boolean(b) => Ok(Json::Bool(b)),
        ConfigValue::Number(n) => Ok(Json::Int(n as int)),
        ConfigValue::EnvVar { var, default } => match env_value(env, var@) {
            Some(x) => Ok(Json::Str(x)),
            None => match default {
                Some(d) => Ok(Json::Str(d@)),
                None => Err("Environment variable "@ + var@ + " not found and no default provided"@),
            },
        },
    }
}

/// The message of the first property that fails to resolve.
pub open spec fn first_failure(props: Seq<ConfigProperty>, env: Seq<(String, String)>) -> Option<Seq<char>>
    decreases props.len(),
{
    if props.len() == 0 {
        None
    } else {
        match resolved(props[0].value, env) {
            Err(m) => Some(m),
            Ok(_) => first_failure(props.drop_first(), env),
        }
    }
}

/// The value of the last property with key `k`.
pub open spec fn property_value(props: Seq<ConfigProperty>, k: Seq<char>, env: Seq<(String, String)>) -> Option<Json>
    decreases props.len(),
{
    if props.len() == 0 {
        None
    } else if props.last().key@ == k {
        match resolved(props.last().value, env) {
            Ok(j) => Some(j),
            Err(_) => None,
        }
    } else {
        property_value(props.drop_last(), k, env)
    }
}

/// The JSON object a config resolves to, described by its members: it
/// exists when the config does and every property resolves.
pub open spec fn config_object(j: Json, c: Config, env: Seq<(String, String)>) -> bool {
    &&& j is Object
    &&& forall|k: Seq<char>| #[trigger] get(j, k) == property_value(c.properties@, k, env)
}

/// The message for a config that does not exist.
pub open spec fn missing_config(name: Seq<char>) -> Seq<char> {
    "Config '"@ + name + "' not found"@
}

/// What resolving the config `name` gives: `Ok` exactly when the config
/// exists and all its properties resolve, else the configuration error.
pub open spec fn resolve_outcome(cs: Seq<Config>, name: Seq<char>, env: Seq<(String, String)>, r: Result<Json, Seq<char>>) -> bool {
    match config_named(cs, name) {
        None => r == Err::<Json, Seq<char>>(missing_config(name)),
        Some(c) => match first_failure(c.properties@, env) {
            Some(m) => r == Err::<Json, Seq<char>>(m),
            None => r is Ok && config_object(r->Ok_0, c, env),
        },
    }
}

/// The message for a missing typed value (`lead` names the type).
pub open spec fn missing_value(lead: Seq<char>, key: Seq<char>, name: Seq<char>) -> Seq<char> {
    lead + key + "' not found in config '"@ + name + "'"@
}

/// The configuration error with message `m`.
fn config_error(m: Vec<char>) -> (e: WebPipeError)
    ensures
        e == WebPipeError::ConfigError(e->ConfigError_0) && e->ConfigError_0@ == m@,
{
    WebPipeError::ConfigError(string_of(m.as_slice()))
}

impl ConfigManager {
    /// A manager over `configs` with an empty environment.
    pub fn new(configs: Vec<Config>) -> (r: Self)
        ensures
            r.configs@ == configs@,
            r.env@.len() == 0,
    {
        ConfigManager { configs, env: Vec::new() }
    }

    /// A manager over `configs` that resolves variables against `env`.
    pub fn with_env(configs: Vec<Config>, env: Vec<(String, String)>) -> (r: Self)
        ensures
            r.configs@ == configs@,
            r.env@ == env@,
    {
        ConfigManager { configs, env }
    }

    /// The config named `name` (the last one, when several are).
    pub fn get_config(&self, name: &str) -> (r: Option<&Config>)
        ensures
            match r {
                Some(c) => config_named(self.configs@, name@) == Some(*c),
                None => config_named(self.configs@, name@) is None,
            },
    {
        let mut i = self.configs.len();
        assert(self.configs@.take(i as int) =~= self.configs@);
        while i > 0
            invariant
                i <= self.configs@.len(),
                config_named(self.configs@, name@) == config_named(self.configs@.take(i as int), name@),
            decreases i,
        {
            let ghost t = self.configs@.take(i as int);
            assert(t.drop_last() =~= self.configs@.take(i - 1));
            assert(t.last() == self.configs@[i - 1]);
            if str_eq(self.configs[i - 1].name.as_str(), name) {
                return Some(&self.configs[i - 1]);
            }
            i = i - 1;
        }
        None
    }

    /// The value of `var` in the environment.
    fn env_var(&self, var: &str) -> (r: Option<&String>)
        ensures
            match r {
                Some(x) => env_value(self.env@, var@) == Some(x@),
                None => env_value(self.env@, var@) is None,
            },
    {
        let mut i: usize = 0;
        assert(self.env@.skip(0) =~= self.env@);
        while i < self.env.len()
            invariant
                i <= self.env@.len(),
                env_value(self.env@, var@) == env_value(self.env@.skip(i as int), var@),
            decreases self.env@.len() - i,
        {
            assert(self.env@.skip(i as int).drop_first() =~= self.env@.skip(i + 1));
            if str_eq(self.env[i].0.as_str(), var) {
                return Some(&self.env[i].1);
            }
            i = i + 1;
        }
        None
    }

    /// Resolves one config value: strings, booleans and numbers as they
    /// are, an environment variable to its value or else its default.
    pub fn resolve_config_value(&self, value: &ConfigValue) -> (r: Result<JsonValue, WebPipeError>)
        ensures
            match r {
                Ok(j) => resolved(*value, self.env@) == Ok::<Json, Seq<char>>(jv(j)),
                Err(e) => e matches WebPipeError::ConfigError(m) && resolved(*value, self.env@) == Err::<Json, Seq<char>>(m@),
            },
    {
        match value {
            ConfigValue::String(s) => Ok(JsonValue::Str(string_of(chars_of(s.as_str()).as_slice()))),
            ConfigValue::Boolean(b) => Ok(JsonValue::Bool(*b)),
            ConfigValue::Number(n) => Ok(JsonValue::Number(crate::json::JsonNumber::Int(*n))),
            ConfigValue::EnvVar { var, default } => {
                match self.env_var(var.as_str()) {
                    Some(x) => Ok(JsonValue::Str(string_of(chars_of(x.as_str()).as_slice()))),
                    None => match default {
                        Some(d) => Ok(JsonValue::Str(string_of(chars_of(d.as_str()).as_slice()))),
                        None => {
                            let mut m: Vec<char> = Vec::new();
                            append_str(&mut m, "Environment variable ");
                            append_str(&mut m, var.as_str());
                            append_str(&mut m, " not found and no default provided");
                            assert(m@ =~= "Environment variable "@ + var@ + " not found and no default provided"@);
                            Err(config_error(m))
                        },
                    },
                }
            },
        }
    }

    /// Resolves the config `name` to a JSON object of its properties (a
    /// later property replaces an earlier one with the same key).
    pub fn resolve_config_as_json(&self, name: &str) -> (r: Result<JsonValue, WebPipeError>)
        ensures
            match r {
                Ok(j) => resolve_outcome(self.configs@, name@, self.env@, Ok::<Json, Seq<char>>(jv(j))),
                Err(e) => e matches WebPipeError::ConfigError(m) && resolve_outcome(self.configs@, name@, self.env@, Err::<Json, Seq<char>>(m@)),
            },
    {
        let config = match self.get_config(name) {
            Some(c) => c,
            None => {
                let mut m: Vec<char> = Vec::new();
                append_str(&mut m, "Config '");
                append_str(&mut m, name);
                append_str(&mut m, "' not found");
                assert(m@ =~= missing_config(name@));
                return Err(config_error(m));
            },
        };
        let ghost props = config.properties@;
        let mut result = JsonValue::Object(Vec::new());
        proof { lemma_jv_entries(Seq::<(String, JsonValue)>::empty()); }
        assert(props.skip(0) =~= props);
        let mut i: usize = 0;
        while i < config.properties.len()
            invariant
                props == config.properties@,
                config_named(self.configs@, name@) == Some(*config),
                i <= props.len(),
                jv(result) is Object,
                forall|k: Seq<char>| #[trigger] get(jv(result), k) == property_value(props.take(i as int), k, self.env@),
                first_failure(props, self.env@) == first_failure(props.skip(i as int), self.env@),
            decreases props.len() - i,
        {
            let p = &config.properties[i];
            assert(props.skip(i as int).drop_first() =~= props.skip(i + 1));
            assert(props.skip(i as int)[0] == props[i as int]);
            let v = match self.resolve_config_value(&p.value) {
                Ok(v) => v,
                Err(e) => {
                    proof {
                        let ss = props.skip(i as int);
                        assert(ss[0] == props[i as int]);
                        let m = e->ConfigError_0;
                        assert(resolved(ss[0].value, self.env@) == Err::<Json, Seq<char>>(m@));
                        assert(first_failure(ss, self.env@) == Some(m@));
                    }
                    return Err(e);
                },
            };
            let ghost before = result;
            result.set(string_of(chars_of(p.key.as_str()).as_slice()), v);
            proof {
                let t = props.take(i + 1);
                assert(t.drop_last() =~= props.take(i as int));
                assert(t.last() == props[i as int]);
                assert forall|k: Seq<char>| #[trigger] get(jv(result), k) == property_value(t, k, self.env@) by {
                    if k == p.key@ {
                    } else {
                        assert(get(jv(result), k) == get(jv(before), k));
                    }
                }
            }
            i = i + 1;
        }
        assert(props.take(props.len() as int) =~= props);
        assert(props.skip(props.len() as int) =~= Seq::<ConfigProperty>::empty());
        Ok(result)
    }

    /// The string value `key` of the config `config_name`.
    pub fn get_string_value(&self, config_name: &str, key: &str) -> (r: Result<String, WebPipeError>)
        ensures
            match r {
                Ok(s) => exists|j: Json| #[trigger] resolve_outcome(self.configs@, config_name@, self.env@, Ok::<Json, Seq<char>>(j))
                    && as_str_of(get(j, key@)) == Some(s@),
                Err(e) => e matches WebPipeError::ConfigError(m) && ((exists|j: Json| #[trigger] resolve_outcome(self.configs@, config_name@, self.env@, Ok::<Json, Seq<char>>(j))
                    && as_str_of(get(j, key@)) is None && m@ == missing_value("String value '"@, key@, config_name@))
                    || resolve_outcome(self.configs@, config_name@, self.env@, Err::<Json, Seq<char>>(m@))),
            },
    {
        let j = match self.resolve_config_as_json(config_name) {
            Ok(j) => j,
            Err(e) => {
                return Err(e);
            },
        };
        match j.get(key) {
            Some(v) => match v.as_str() {
                Some(s) => {
                    return Ok(string_of(chars_of(s.as_str()).as_slice()));
                },
                None => {},
            },
            None => {},
        }
        let mut m: Vec<char> = Vec::new();
        append_str(&mut m, "String value '");
        append_str(&mut m, key);
        append_str(&mut m, "' not found in config '");
        append_str(&mut m, config_name);
        append_str(&mut m, "'");
        assert(m@ =~= missing_value("String value '"@, key@, config_name@));
        Err(config_error(m))
    }

    /// The boolean value `key` of the config `config_name`.
    pub fn get_bool_value(&self, config_name: &str, key: &str) -> (r: Result<bool, WebPipeError>)
        ensures
            match r {
                Ok(b) => exists|j: Json| #[trigger] resolve_outcome(self.configs@, config_name@, self.env@, Ok::<Json, Seq<char>>(j))
                    && as_bool_of(get(j, key@)) == Some(b),
                Err(e) => e matches WebPipeError::ConfigError(m) && ((exists|j: Json| #[trigger] resolve_outcome(self.configs@, config_name@, self.env@, Ok::<Json, Seq<char>>(j))
                    && as_bool_of(get(j, key@)) is None && m@ == missing_value("Boolean value '"@, key@, config_name@))
                    || resolve_outcome(self.configs@, config_name@, self.env@, Err::<Json, Seq<char>>(m@))),
            },
    {
        let j = match self.resolve_config_as_json(config_name) {
            Ok(j) => j,
            Err(e) => {
                return Err(e);
            },
        };
        match j.get(key) {
            Some(v) => match v.as_bool() {
                Some(b) => {
                    return Ok(b);
                },
                None => {},
            },
            None => {},
        }
        let mut m: Vec<char> = Vec::new();
        append_str(&mut m, "Boolean value '");
        append_str(&mut m, key);
        append_str(&mut m, "' not found in config '");
        append_str(&mut m, config_name);
        append_str(&mut m, "'");
        assert(m@ =~= missing_value("Boolean value '"@, key@, config_name@));
        Err(config_error(m))
    }

    /// The integer value `key` of the config `config_name`.
    pub fn get_number_value(&self, config_name: &str, key: &str) -> (r: Result<i64, WebPipeError>)
        ensures
            match r {
                Ok(n) => exists|j: Json| #[trigger] resolve_outcome(self.configs@, config_name@, self.env@, Ok::<Json, Seq<char>>(j))
                    && as_i64_of(get(j, key@)) == Some(n as int),
                Err(e) => e matches WebPipeError::ConfigError(m) && ((exists|j: Json| #[trigger] resolve_outcome(self.configs@, config_name@, self.env@, Ok::<Json, Seq<char>>(j))
                    && as_i64_of(get(j, key@)) is None && m@ == missing_value("Number value '"@, key@, config_name@))
                    || resolve_outcome(self.configs@, config_name@, self.env@, Err::<Json, Seq<char>>(m@))),
            },
    {
        let j = match self.resolve_config_as_json(config_name) {
            Ok(j) => j,
            Err(e) => {
                return Err(e);
            },
        };
        match j.get(key) {
            Some(v) => match v.as_i64() {
                Some(n) => {
                    return Ok(n);
                },
                None => {},
            },
            None => {},
        }
        let mut m: Vec<char> = Vec::new();
        append_str(&mut m, "Number value '");
        append_str(&mut m, key);
        append_str(&mut m, "' not found in config '");
        append_str(&mut m, config_name);
        append_str(&mut m, "'");
        assert(m@ =~= missing_value("Number value '"@, key@, config_name@));
        Err(config_error(m))
    }
}

/// The string in an optional value.
pub open spec fn as_str_of(v: Option<Json>) -> Option<Seq<char>> {
    match v {
        Some(j) => as_str(j),
        None => None,
    }
}

/// The boolean in an optional value.
pub open spec fn as_bool_of(v: Option<Json>) -> Option<bool> {
    match v {
        Some(j) => as_bool(j),
        None => None,
    }
}

/// The `i64` integer in an optional value.
pub open spec fn as_i64_of(v: Option<Json>) -> Option<int> {
    match v {
        Some(j) => as_i64(j),
        None => None,
    }
}

} // verus!

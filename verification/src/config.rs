//! Application configuration: the resolved values the engine consumes.
//! Values come from defaults, overridden by key/value settings that the
//! surrounding program gathers from its environment or a settings file;
//! applying those settings is the verified logic here.

use vstd::prelude::*;
use crate::text::{
    chars_of, parse_bool_chars, parse_u64_chars, spec_all_digits, spec_dec_value,
    spec_split, split_string, str_eq, concat_strs, spec_starts_with, starts_with_str,
    spec_contains_char, contains_char,
};

verus! {

/// Workflow discovery settings.
pub struct WorkflowConfig {
    /// Directory to search for workflow files.
    pub directory: String,
    /// File extensions to consider as workflows.
    pub extensions: Vec<String>,
    /// Maximum number of workflows to load.
    pub max_workflows: usize,
}

/// Server settings for the web front end.
pub struct ServerConfig {
    /// Server host address.
    pub host: String,
    /// Server port.
    pub port: u16,
    /// Static files directory for the web front end.
    pub static_dir: String,
}

/// Settings of the subprocess-interpreted script runner.
pub struct PythonConfig {
    /// Interpreter path.
    pub interpreter: String,
    /// Whether the runner is registered.
    pub enabled: bool,
}

/// Settings of the subprocess JavaScript runner.
pub struct JavaScriptConfig {
    /// Interpreter path.
    pub interpreter: String,
    /// Whether the runner is registered.
    pub enabled: bool,
}

/// Settings of the shell runner.
pub struct ShellConfig {
    /// Interpreter path.
    pub interpreter: String,
    /// Whether the runner is registered.
    pub enabled: bool,
}

/// Settings of the binary-module runner.
pub struct WasmConfig {
    /// Directory holding compiled modules.
    pub modules_dir: String,
    /// Whether system-interface support is switched on.
    pub wasi_enabled: bool,
    /// Whether the runner is registered.
    pub enabled: bool,
}

/// Per-runner settings.
pub struct RunnerConfig {
    pub python: PythonConfig,
    pub javascript: JavaScriptConfig,
    pub shell: ShellConfig,
    pub wasm: WasmConfig,
}

/// Logging settings.
pub struct LoggingConfig {
    /// Log level name.
    pub level: String,
    /// Whether output is colored.
    pub colored: bool,
}

/// The application configuration.
pub struct AppConfig {
    pub workflows: WorkflowConfig,
    pub server: ServerConfig,
    pub runners: RunnerConfig,
    pub logging: LoggingConfig,
}

pub fn default_workflow_dir() -> (r: String)
    ensures
        r@ == "workflows"@,
{
    "workflows".to_owned()
}

pub fn default_workflow_extensions() -> (r: Vec<String>)
    ensures
        r.deep_view() == seq!["lua"@],
{
    let mut v: Vec<String> = Vec::new();
    v.push("lua".to_owned());
    assert(v.deep_view() =~= seq!["lua"@]);
    v
}

pub fn default_max_workflows() -> (r: usize)
    ensures
        r == 100,
{
    100
}

pub fn default_server_host() -> (r: String)
    ensures
        r@ == "127.0.0.1"@,
{
    "127.0.0.1".to_owned()
}

pub fn default_server_port() -> (r: u16)
    ensures
        r == 3030,
{
    3030
}

pub fn default_static_dir() -> (r: String)
    ensures
        r@ == "pkg"@,
{
    "pkg".to_owned()
}

pub fn default_python_interpreter() -> (r: String)
    ensures
        r@ == "python3"@,
{
    "python3".to_owned()
}

pub fn default_node_interpreter() -> (r: String)
    ensures
        r@ == "node"@,
{
    "node".to_owned()
}

pub fn default_shell_interpreter() -> (r: String)
    ensures
        r@ == "sh"@,
{
    "sh".to_owned()
}

pub fn default_wasm_modules_dir() -> (r: String)
    ensures
        r@ == "wasm_modules/target/wasm32-unknown-unknown/release"@,
{
    "wasm_modules/target/wasm32-unknown-unknown/release".to_owned()
}

pub fn default_log_level() -> (r: String)
    ensures
        r@ == "info"@,
{
    "info".to_owned()
}

pub fn default_true() -> (r: bool)
    ensures
        r == true,
{
    true
}

pub fn default_false() -> (r: bool)
    ensures
        r == false,
{
    false
}

/// Whether a configuration holds exactly the default values.
pub open spec fn spec_is_default_config(c: AppConfig) -> bool {
    &&& c.workflows.directory@ == "workflows"@
    &&& c.workflows.extensions.deep_view() == seq!["lua"@]
    &&& c.workflows.max_workflows == 100
    &&& c.server.host@ == "127.0.0.1"@
    &&& c.server.port == 3030
    &&& c.server.static_dir@ == "pkg"@
    &&& c.runners.python.interpreter@ == "python3"@
    &&& c.runners.python.enabled == true
    &&& c.runners.javascript.interpreter@ == "node"@
    &&& c.runners.javascript.enabled == true
    &&& c.runners.shell.interpreter@ == "sh"@
    &&& c.runners.shell.enabled == true
    &&& c.runners.wasm.modules_dir@ == "wasm_modules/target/wasm32-unknown-unknown/release"@
    &&& c.runners.wasm.wasi_enabled == false
    &&& c.runners.wasm.enabled == true
    &&& c.logging.level@ == "info"@
    &&& c.logging.colored == true
}

impl Default for AppConfig {
    /// The built-in defaults.
    fn default() -> (r: AppConfig)
        ensures
            spec_is_default_config(r),
    {
        AppConfig {
            workflows: WorkflowConfig {
                directory: default_workflow_dir(),
                extensions: default_workflow_extensions(),
                max_workflows: default_max_workflows(),
            },
            server: ServerConfig {
                host: default_server_host(),
                port: default_server_port(),
                static_dir: default_static_dir(),
            },
            runners: RunnerConfig {
                python: PythonConfig {
                    interpreter: default_python_interpreter(),
                    enabled: default_true(),
                },
                javascript: JavaScriptConfig {
                    interpreter: default_node_interpreter(),
                    enabled: default_true(),
                },
                shell: ShellConfig {
                    interpreter: default_shell_interpreter(),
                    enabled: default_true(),
                },
                wasm: WasmConfig {
                    modules_dir: default_wasm_modules_dir(),
                    wasi_enabled: default_false(),
                    enabled: default_true(),
                },
            },
            logging: LoggingConfig { level: default_log_level(), colored: default_true() },
        }
    }
}

/// The settings list as a sequence of key/value character sequences.
pub open spec fn spec_env_view(env: Seq<(String, String)>) -> Seq<(Seq<char>, Seq<char>)> {
    env.map_values(|p: (String, String)| (p.0@, p.1@))
}

/// The value of the first setting with the given key, if any.
pub open spec fn spec_lookup(env: Seq<(Seq<char>, Seq<char>)>, key: Seq<char>) -> Option<
    Seq<char>,
>
    decreases env.len(),
{
    if env.len() == 0 {
        None
    } else if env[0].0 == key {
        Some(env[0].1)
    } else {
        spec_lookup(env.drop_first(), key)
    }
}

/// A string setting: the given value if the key is set, the old value
/// otherwise.
pub open spec fn spec_ov_str(
    env: Seq<(Seq<char>, Seq<char>)>,
    key: Seq<char>,
    old_val: Seq<char>,
) -> Seq<char> {
    match spec_lookup(env, key) {
        Some(v) => v,
        None => old_val,
    }
}

/// A numeric setting: the decimal value of the entry if the key is set.
pub open spec fn spec_ov_num(env: Seq<(Seq<char>, Seq<char>)>, key: Seq<char>, old_val: nat) -> nat {
    match spec_lookup(env, key) {
        Some(v) => spec_dec_value(v),
        None => old_val,
    }
}

/// A boolean setting: `true` exactly for the text `true` if the key is set.
pub open spec fn spec_ov_bool(
    env: Seq<(Seq<char>, Seq<char>)>,
    key: Seq<char>,
    old_val: bool,
) -> bool {
    match spec_lookup(env, key) {
        Some(v) => v == "true"@,
        None => old_val,
    }
}

/// Whether a set entry is not a decimal number within the given bound.
pub open spec fn spec_bad_num(
    env: Seq<(Seq<char>, Seq<char>)>,
    key: Seq<char>,
    bound: nat,
) -> bool {
    match spec_lookup(env, key) {
        Some(v) => !(v.len() > 0 && spec_all_digits(v) && spec_dec_value(v) <= bound),
        None => false,
    }
}

/// Whether a set entry is neither `true` nor `false`.
pub open spec fn spec_bad_bool(env: Seq<(Seq<char>, Seq<char>)>, key: Seq<char>) -> bool {
    match spec_lookup(env, key) {
        Some(v) => v != "true"@ && v != "false"@,
        None => false,
    }
}

/// Whether any typed setting of the override set cannot be parsed.
pub open spec fn spec_bad_overrides(env: Seq<(Seq<char>, Seq<char>)>) -> bool {
    ||| spec_bad_num(env, "HWFE_WORKFLOW_MAX"@, usize::MAX as nat)
    ||| spec_bad_num(env, "HWFE_SERVER_PORT"@, u16::MAX as nat)
    ||| spec_bad_bool(env, "HWFE_PYTHON_ENABLED"@)
    ||| spec_bad_bool(env, "HWFE_JS_ENABLED"@)
    ||| spec_bad_bool(env, "HWFE_SHELL_ENABLED"@)
    ||| spec_bad_bool(env, "HWFE_WASM_WASI_ENABLED"@)
    ||| spec_bad_bool(env, "HWFE_WASM_ENABLED"@)
    ||| spec_bad_bool(env, "HWFE_LOG_COLORED"@)
}

/// Whether `m` is the parse-failure message of some typed setting that is
/// present and cannot be parsed: the message names the offending setting.
pub open spec fn spec_names_bad_setting(env: Seq<(Seq<char>, Seq<char>)>, m: Seq<char>) -> bool {
    ||| spec_bad_num(env, "HWFE_WORKFLOW_MAX"@, usize::MAX as nat) && m == "Invalid "@
        + "HWFE_WORKFLOW_MAX"@ + " value"@
    ||| spec_bad_num(env, "HWFE_SERVER_PORT"@, u16::MAX as nat) && m == "Invalid "@
        + "HWFE_SERVER_PORT"@ + " value"@
    ||| spec_bad_bool(env, "HWFE_PYTHON_ENABLED"@) && m == "Invalid "@ + "HWFE_PYTHON_ENABLED"@
        + " value"@
    ||| spec_bad_bool(env, "HWFE_JS_ENABLED"@) && m == "Invalid "@ + "HWFE_JS_ENABLED"@
        + " value"@
    ||| spec_bad_bool(env, "HWFE_SHELL_ENABLED"@) && m == "Invalid "@ + "HWFE_SHELL_ENABLED"@
        + " value"@
    ||| spec_bad_bool(env, "HWFE_WASM_WASI_ENABLED"@) && m == "Invalid "@
        + "HWFE_WASM_WASI_ENABLED"@ + " value"@
    ||| spec_bad_bool(env, "HWFE_WASM_ENABLED"@) && m == "Invalid "@ + "HWFE_WASM_ENABLED"@
        + " value"@
    ||| spec_bad_bool(env, "HWFE_LOG_COLORED"@) && m == "Invalid "@ + "HWFE_LOG_COLORED"@
        + " value"@
}

/// Whether `after` is `before` with the workflow settings applied.
pub open spec fn spec_wf_overridden(
    before: WorkflowConfig,
    after: WorkflowConfig,
    env: Seq<(Seq<char>, Seq<char>)>,
) -> bool {
    &&& after.directory@ == spec_ov_str(env, "HWFE_WORKFLOW_DIR"@, before.directory@)
    &&& after.extensions.deep_view() == (match spec_lookup(env, "HWFE_WORKFLOW_EXTENSIONS"@) {
        Some(v) => spec_split(v, ','),
        None => before.extensions.deep_view(),
    })
    &&& after.max_workflows as nat == spec_ov_num(
        env,
        "HWFE_WORKFLOW_MAX"@,
        before.max_workflows as nat,
    )
}

/// Whether `after` is `before` with the server settings applied.
pub open spec fn spec_server_overridden(
    before: ServerConfig,
    after: ServerConfig,
    env: Seq<(Seq<char>, Seq<char>)>,
) -> bool {
    &&& after.host@ == spec_ov_str(env, "HWFE_SERVER_HOST"@, before.host@)
    &&& after.port as nat == spec_ov_num(env, "HWFE_SERVER_PORT"@, before.port as nat)
    &&& after.static_dir@ == spec_ov_str(env, "HWFE_STATIC_DIR"@, before.static_dir@)
}

/// Whether `after` is `before` with the runner settings applied.
pub open spec fn spec_runners_overridden(
    before: RunnerConfig,
    after: RunnerConfig,
    env: Seq<(Seq<char>, Seq<char>)>,
) -> bool {
    &&& after.python.interpreter@ == spec_ov_str(
        env,
        "HWFE_PYTHON_INTERPRETER"@,
        before.python.interpreter@,
    )
    &&& after.python.enabled == spec_ov_bool(env, "HWFE_PYTHON_ENABLED"@, before.python.enabled)
    &&& after.javascript.interpreter@ == spec_ov_str(
        env,
        "HWFE_JS_INTERPRETER"@,
        before.javascript.interpreter@,
    )
    &&& after.javascript.enabled == spec_ov_bool(env, "HWFE_JS_ENABLED"@, before.javascript.enabled)
    &&& after.shell.interpreter@ == spec_ov_str(
        env,
        "HWFE_SHELL_INTERPRETER"@,
        before.shell.interpreter@,
    )
    &&& after.shell.enabled == spec_ov_bool(env, "HWFE_SHELL_ENABLED"@, before.shell.enabled)
    &&& after.wasm.modules_dir@ == spec_ov_str(
        env,
        "HWFE_WASM_MODULES_DIR"@,
        before.wasm.modules_dir@,
    )
    &&& after.wasm.wasi_enabled == spec_ov_bool(
        env,
        "HWFE_WASM_WASI_ENABLED"@,
        before.wasm.wasi_enabled,
    )
    &&& after.wasm.enabled == spec_ov_bool(env, "HWFE_WASM_ENABLED"@, before.wasm.enabled)
}

/// Whether `after` is `before` with the logging settings applied.
pub open spec fn spec_logging_overridden(
    before: LoggingConfig,
    after: LoggingConfig,
    env: Seq<(Seq<char>, Seq<char>)>,
) -> bool {
    &&& after.level@ == spec_ov_str(env, "HWFE_LOG_LEVEL"@, before.level@)
    &&& after.colored == spec_ov_bool(env, "HWFE_LOG_COLORED"@, before.colored)
}

/// Whether `after` is `before` with the whole override set applied.
pub open spec fn spec_overridden(
    before: AppConfig,
    after: AppConfig,
    env: Seq<(Seq<char>, Seq<char>)>,
) -> bool {
    &&& spec_wf_overridden(before.workflows, after.workflows, env)
    &&& spec_server_overridden(before.server, after.server, env)
    &&& spec_runners_overridden(before.runners, after.runners, env)
    &&& spec_logging_overridden(before.logging, after.logging, env)
}

/// Finds the first setting with the given key.
fn lookup_env<'a>(env: &'a Vec<(String, String)>, key: &str) -> (r: Option<&'a String>)
    ensures
        match r {
            Some(v) => spec_lookup(spec_env_view(env@), key@) == Some(v@),
            None => spec_lookup(spec_env_view(env@), key@) is None,
        },
{
    let mut i: usize = 0;
    assert(spec_env_view(env@).skip(0) =~= spec_env_view(env@));
    while i < env.len()
        invariant
            i <= env@.len(),
            spec_lookup(spec_env_view(env@), key@) == spec_lookup(
                spec_env_view(env@).skip(i as int),
                key@,
            ),
        decreases env@.len() - i,
    {
        let ghost rest = spec_env_view(env@).skip(i as int);
        proof {
            assert(rest[0] == (env@[i as int].0@, env@[i as int].1@));
            assert(rest.drop_first() =~= spec_env_view(env@).skip(i as int + 1));
        }
        if str_eq(env[i].0.as_str(), key) {
            return Some(&env[i].1);
        }
        i = i + 1;
    }
    assert(spec_env_view(env@).skip(env@.len() as int) =~= Seq::<(Seq<char>, Seq<char>)>::empty());
    None
}

/// Parses a setting as a bounded number; the error names the setting.
fn parse_num_setting(v: &String, key: &str, bound: u64) -> (r: Result<u64, String>)
    ensures
        match r {
            Ok(n) => v@.len() > 0 && spec_all_digits(v@) && n as nat == spec_dec_value(v@) && n
                <= bound,
            Err(m) => (v@.len() == 0 || !spec_all_digits(v@) || spec_dec_value(v@) > bound as nat)
                && m@ == "Invalid "@ + key@ + " value"@,
        },
{
    let cs = chars_of(v.as_str());
    let parsed = parse_u64_chars(&cs);
    match parsed {
        Some(n) if n <= bound => Ok(n),
        _ => {
            let msg = concat_strs("Invalid ", key);
            let msg = concat_strs(msg.as_str(), " value");
            Err(msg)
        }
    }
}

/// Parses a setting as a boolean; the error names the setting.
fn parse_bool_setting(v: &String, key: &str) -> (r: Result<bool, String>)
    ensures
        match r {
            Ok(b) => b == (v@ == "true"@) && (v@ == "true"@ || v@ == "false"@),
            Err(m) => v@ != "true"@ && v@ != "false"@ && m@ == "Invalid "@ + key@ + " value"@,
        },
{
    let cs = chars_of(v.as_str());
    match parse_bool_chars(&cs) {
        Some(b) => Ok(b),
        None => {
            let msg = concat_strs("Invalid ", key);
            let msg = concat_strs(msg.as_str(), " value");
            Err(msg)
        }
    }
}

/// Applies the workflow settings.
fn apply_wf_overrides(c: &mut WorkflowConfig, env: &Vec<(String, String)>) -> (r: Result<
    (),
    String,
>)
    ensures
        r is Ok <==> !spec_bad_num(spec_env_view(env@), "HWFE_WORKFLOW_MAX"@, usize::MAX as nat),
        r is Ok ==> spec_wf_overridden(*old(c), *final(c), spec_env_view(env@)),
        r matches Err(m) ==> m@ == "Invalid "@ + "HWFE_WORKFLOW_MAX"@ + " value"@,
{
    if let Some(v) = lookup_env(env, "HWFE_WORKFLOW_DIR") {
        c.directory = v.clone();
    }
    if let Some(v) = lookup_env(env, "HWFE_WORKFLOW_EXTENSIONS") {
        c.extensions = split_string(v.as_str(), ',');
    }
    if let Some(v) = lookup_env(env, "HWFE_WORKFLOW_MAX") {
        match parse_num_setting(v, "HWFE_WORKFLOW_MAX", usize::MAX as u64) {
            Ok(n) => {
                c.max_workflows = n as usize;
            }
            Err(m) => {
                return Err(m);
            }
        }
    }
    Ok(())
}

/// Applies the server settings.
fn apply_server_overrides(c: &mut ServerConfig, env: &Vec<(String, String)>) -> (r: Result<
    (),
    String,
>)
    ensures
        r is Ok <==> !spec_bad_num(spec_env_view(env@), "HWFE_SERVER_PORT"@, u16::MAX as nat),
        r is Ok ==> spec_server_overridden(*old(c), *final(c), spec_env_view(env@)),
        r matches Err(m) ==> m@ == "Invalid "@ + "HWFE_SERVER_PORT"@ + " value"@,
{
    if let Some(v) = lookup_env(env, "HWFE_SERVER_HOST") {
        c.host = v.clone();
    }
    if let Some(v) = lookup_env(env, "HWFE_SERVER_PORT") {
        match parse_num_setting(v, "HWFE_SERVER_PORT", u16::MAX as u64) {
            Ok(n) => {
                c.port = n as u16;
            }
            Err(m) => {
                return Err(m);
            }
        }
    }
    if let Some(v) = lookup_env(env, "HWFE_STATIC_DIR") {
        c.static_dir = v.clone();
    }
    Ok(())
}

/// Applies the runner settings.
#[verifier::rlimit(50)]
fn apply_runner_overrides(c: &mut RunnerConfig, env: &Vec<(String, String)>) -> (r: Result<
    (),
    String,
>)
    ensures
        r is Ok <==> {
            &&& !spec_bad_bool(spec_env_view(env@), "HWFE_PYTHON_ENABLED"@)
            &&& !spec_bad_bool(spec_env_view(env@), "HWFE_JS_ENABLED"@)
            &&& !spec_bad_bool(spec_env_view(env@), "HWFE_SHELL_ENABLED"@)
            &&& !spec_bad_bool(spec_env_view(env@), "HWFE_WASM_WASI_ENABLED"@)
            &&& !spec_bad_bool(spec_env_view(env@), "HWFE_WASM_ENABLED"@)
        },
        r is Ok ==> spec_runners_overridden(*old(c), *final(c), spec_env_view(env@)),
        r matches Err(m) ==> spec_names_bad_setting(spec_env_view(env@), m@),
{
    if let Some(v) = lookup_env(env, "HWFE_PYTHON_INTERPRETER") {
        c.python.interpreter = v.clone();
    }
    if let Some(v) = lookup_env(env, "HWFE_PYTHON_ENABLED") {
        match parse_bool_setting(v, "HWFE_PYTHON_ENABLED") {
            Ok(b) => {
                c.python.enabled = b;
            }
            Err(m) => {
                return Err(m);
            }
        }
    }
    if let Some(v) = lookup_env(env, "HWFE_JS_INTERPRETER") {
        c.javascript.interpreter = v.clone();
    }
    if let Some(v) = lookup_env(env, "HWFE_JS_ENABLED") {
        match parse_bool_setting(v, "HWFE_JS_ENABLED") {
            Ok(b) => {
                c.javascript.enabled = b;
            }
            Err(m) => {
                return Err(m);
            }
        }
    }
    if let Some(v) = lookup_env(env, "HWFE_SHELL_INTERPRETER") {
        c.shell.interpreter = v.clone();
    }
    if let Some(v) = lookup_env(env, "HWFE_SHELL_ENABLED") {
        match parse_bool_setting(v, "HWFE_SHELL_ENABLED") {
            Ok(b) => {
                c.shell.enabled = b;
            }
            Err(m) => {
                return Err(m);
            }
        }
    }
    if let Some(v) = lookup_env(env, "HWFE_WASM_MODULES_DIR") {
        c.wasm.modules_dir = v.clone();
    }
    if let Some(v) = lookup_env(env, "HWFE_WASM_WASI_ENABLED") {
        match parse_bool_setting(v, "HWFE_WASM_WASI_ENABLED") {
            Ok(b) => {
                c.wasm.wasi_enabled = b;
            }
            Err(m) => {
                return Err(m);
            }
        }
    }
    if let Some(v) = lookup_env(env, "HWFE_WASM_ENABLED") {
        match parse_bool_setting(v, "HWFE_WASM_ENABLED") {
            Ok(b) => {
                c.wasm.enabled = b;
            }
            Err(m) => {
                return Err(m);
            }
        }
    }
    Ok(())
}

/// Applies the logging settings.
fn apply_logging_overrides(c: &mut LoggingConfig, env: &Vec<(String, String)>) -> (r: Result<
    (),
    String,
>)
    ensures
        r is Ok <==> !spec_bad_bool(spec_env_view(env@), "HWFE_LOG_COLORED"@),
        r is Ok ==> spec_logging_overridden(*old(c), *final(c), spec_env_view(env@)),
        r matches Err(m) ==> m@ == "Invalid "@ + "HWFE_LOG_COLORED"@ + " value"@,
{
    if let Some(v) = lookup_env(env, "HWFE_LOG_LEVEL") {
        c.level = v.clone();
    }
    if let Some(v) = lookup_env(env, "HWFE_LOG_COLORED") {
        match parse_bool_setting(v, "HWFE_LOG_COLORED") {
            Ok(b) => {
                c.colored = b;
            }
            Err(m) => {
                return Err(m);
            }
        }
    }
    Ok(())
}

impl AppConfig {
    /// Applies override settings, keyed as the surrounding program's
    /// environment names them. Environment variables are unique, so the
    /// first entry for a key decides.
    pub fn apply_env_overrides(&mut self, env: &Vec<(String, String)>) -> (r: Result<(), String>)
        ensures
            r is Ok <==> !spec_bad_overrides(spec_env_view(env@)),
            r is Ok ==> spec_overridden(*old(self), *final(self), spec_env_view(env@)),
            r matches Err(m) ==> spec_names_bad_setting(spec_env_view(env@), m@),
    {
        match apply_wf_overrides(&mut self.workflows, env) {
            Ok(()) => {}
            Err(m) => {
                return Err(m);
            }
        }
        match apply_server_overrides(&mut self.server, env) {
            Ok(()) => {}
            Err(m) => {
                return Err(m);
            }
        }
        match apply_runner_overrides(&mut self.runners, env) {
            Ok(()) => {}
            Err(m) => {
                return Err(m);
            }
        }
        match apply_logging_overrides(&mut self.logging, env) {
            Ok(()) => {}
            Err(m) => {
                return Err(m);
            }
        }
        Ok(())
    }

    /// Builds a configuration from the defaults and a settings list read
    /// from a settings file by the surrounding program, with the same keys
    /// an environment would use.
    pub fn load_from_file(entries: &Vec<(String, String)>) -> (r: Result<AppConfig, String>)
        ensures
            r is Ok <==> !spec_bad_overrides(spec_env_view(entries@)),
            r matches Ok(c) ==> exists|d: AppConfig|
                spec_is_default_config(d) && spec_overridden(d, c, spec_env_view(entries@)),
            r matches Err(m) ==> spec_names_bad_setting(spec_env_view(entries@), m@),
    {
        let mut cfg = AppConfig::default();
        let ghost d = cfg;
        match cfg.apply_env_overrides(entries) {
            Ok(()) => {
                proof {
                    assert(spec_is_default_config(d) && spec_overridden(
                        d,
                        cfg,
                        spec_env_view(entries@),
                    ));
                }
                Ok(cfg)
            }
            Err(m) => Err(m),
        }
    }
}

/// Whether the path list holds the given path.
pub open spec fn spec_present(paths: Seq<Seq<char>>, p: Seq<char>) -> bool {
    exists|i: int| 0 <= i < paths.len() && paths[i] == p
}

/// Whether the list of existing files holds the given path.
pub fn path_present(present: &Vec<String>, p: &str) -> (r: bool)
    ensures
        r == spec_present(present.deep_view(), p@),
{
    let mut i: usize = 0;
    while i < present.len()
        invariant
            i <= present@.len(),
            forall|j: int| 0 <= j < i ==> present.deep_view()[j] != p@,
        decreases present@.len() - i,
    {
        if str_eq(present[i].as_str(), p) {
            assert(present.deep_view()[i as int] == p@);
            return true;
        }
        i = i + 1;
    }
    false
}

/// Where a workflow name points: the name as given when it already starts
/// with the workflow directory or is a path to a file known to exist;
/// otherwise the name under the workflow directory, or under one of its
/// conventional subdirectories, whichever exists; otherwise the name under
/// the workflow directory even so.
pub open spec fn spec_resolve_workflow_path(
    path: Seq<char>,
    dir: Seq<char>,
    present: Seq<Seq<char>>,
) -> Seq<char> {
    if spec_starts_with(path, dir) {
        path
    } else if !spec_contains_char(path, '/') || !spec_present(present, path) {
        let wp = dir + "/"@ + path;
        if spec_present(present, wp) {
            wp
        } else if spec_present(present, dir + "/examples/"@ + path) {
            dir + "/examples/"@ + path
        } else if spec_present(present, dir + "/templates/"@ + path) {
            dir + "/templates/"@ + path
        } else if spec_present(present, dir + "/tests/"@ + path) {
            dir + "/tests/"@ + path
        } else {
            wp
        }
    } else {
        path
    }
}

/// Resolves a workflow name against the configured workflow directory.
/// `present` lists the candidate paths that exist on disk, as the
/// surrounding program found them.
pub fn resolve_workflow_path(path: &str, config: &AppConfig, present: &Vec<String>) -> (r: String)
    ensures
        r@ == spec_resolve_workflow_path(
            path@,
            config.workflows.directory@,
            present.deep_view(),
        ),
{
    let dir = config.workflows.directory.as_str();
    if starts_with_str(path, dir) {
        return path.to_owned();
    }
    if !contains_char(path, '/') || !path_present(present, path) {
        let dir_slash = concat_strs(dir, "/");
        let wp = concat_strs(dir_slash.as_str(), path);
        if path_present(present, wp.as_str()) {
            return wp;
        }
        let p1 = concat_strs(concat_strs(dir, "/examples/").as_str(), path);
        assert(p1@ == config.workflows.directory@ + "/examples/"@ + path@);
        if path_present(present, p1.as_str()) {
            return p1;
        }
        let p2 = concat_strs(concat_strs(dir, "/templates/").as_str(), path);
        assert(p2@ == config.workflows.directory@ + "/templates/"@ + path@);
        if path_present(present, p2.as_str()) {
            return p2;
        }
        let p3 = concat_strs(concat_strs(dir, "/tests/").as_str(), path);
        assert(p3@ == config.workflows.directory@ + "/tests/"@ + path@);
        if path_present(present, p3.as_str()) {
            return p3;
        }
        return wp;
    }
    path.to_owned()
}

} // verus!

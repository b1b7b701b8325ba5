//! The runner registry: the closed mapping from a step's language tag to
//! the executor that runs it. Tags are matched case-insensitively over the
//! fixed alias sets; a step whose tag maps to no registered runner fails
//! with an unsupported-language error naming the tag.

use vstd::prelude::*;
use crate::config::AppConfig;
use crate::step::Step;
use crate::text::{chars_of, chars_eq_str, concat_strs, lower_ascii, spec_lower};

verus! {

/// The executors a step can be routed to.
#[derive(Clone, Copy, Debug, PartialEq, Eq, Structural)]
pub enum Language {
    /// The embedded scripting runtime.
    Lua,
    /// The subprocess-interpreted scripting language.
    Python,
    /// The POSIX shell family.
    Shell,
    /// The subprocess JavaScript engine.
    JavaScript,
    /// The binary-module executor.
    Wasm,
}

/// The runner a tag selects: each alias set collapses, case-insensitively,
/// to one runner.
pub open spec fn spec_language_of(tag: Seq<char>) -> Option<Language> {
    let t = spec_lower(tag);
    if t == "lua"@ {
        Some(Language::Lua)
    } else if t == "python"@ {
        Some(Language::Python)
    } else if t == "bash"@ || t == "shell"@ || t == "sh"@ {
        Some(Language::Shell)
    } else if t == "javascript"@ || t == "js"@ || t == "node"@ || t == "nodejs"@ {
        Some(Language::JavaScript)
    } else if t == "wasm"@ || t == "webassembly"@ {
        Some(Language::Wasm)
    } else {
        None
    }
}

/// Parses a language tag.
pub fn parse_language(tag: &str) -> (r: Option<Language>)
    ensures
        r == spec_language_of(tag@),
{
    let cs = chars_of(tag);
    let t = lower_ascii(&cs);
    if chars_eq_str(&t, "lua") {
        Some(Language::Lua)
    } else if chars_eq_str(&t, "python") {
        Some(Language::Python)
    } else if chars_eq_str(&t, "bash") || chars_eq_str(&t, "shell") || chars_eq_str(&t, "sh") {
        Some(Language::Shell)
    } else if chars_eq_str(&t, "javascript") || chars_eq_str(&t, "js") || chars_eq_str(&t, "node")
        || chars_eq_str(&t, "nodejs") {
        Some(Language::JavaScript)
    } else if chars_eq_str(&t, "wasm") || chars_eq_str(&t, "webassembly") {
        Some(Language::Wasm)
    } else {
        None
    }
}

/// How executing one step fails.
#[derive(Debug)]
pub enum StepError {
    /// No runner is registered for the step's language tag; holds the tag.
    UnsupportedLanguage(String),
    /// The runner's host interpreter is missing; holds the interpreter.
    InterpreterUnavailable(String),
    /// The step's code failed; holds the runner's description.
    Execution(String),
}

impl StepError {
    /// The failure as readable text.
    pub fn message(&self) -> (r: String)
        ensures
            self matches StepError::UnsupportedLanguage(t) ==> r@ == "Unsupported language: "@
                + t@,
            self matches StepError::InterpreterUnavailable(t) ==> r@
                == "Interpreter not available: "@ + t@,
            self matches StepError::Execution(t) ==> r@ == "Step failed: "@ + t@,
    {
        match self {
            StepError::UnsupportedLanguage(t) => concat_strs("Unsupported language: ", t.as_str()),
            StepError::InterpreterUnavailable(t) => concat_strs(
                "Interpreter not available: ",
                t.as_str(),
            ),
            StepError::Execution(t) => concat_strs("Step failed: ", t.as_str()),
        }
    }
}

/// Which runners a run has registered, resolved from configuration at
/// startup.
pub struct RunnerRegistry {
    pub lua: bool,
    pub python: bool,
    pub shell: bool,
    pub javascript: bool,
    pub wasm: bool,
}

/// Whether the registry has a runner for the language.
pub open spec fn spec_registered(reg: RunnerRegistry, l: Language) -> bool {
    match l {
        Language::Lua => reg.lua,
        Language::Python => reg.python,
        Language::Shell => reg.shell,
        Language::JavaScript => reg.javascript,
        Language::Wasm => reg.wasm,
    }
}

impl RunnerRegistry {
    /// The registry the configuration's enable flags describe; the
    /// embedded scripting runtime is always available.
    pub fn from_config(config: &AppConfig) -> (r: RunnerRegistry)
        ensures
            r.lua == true,
            r.python == config.runners.python.enabled,
            r.shell == config.runners.shell.enabled,
            r.javascript == config.runners.javascript.enabled,
            r.wasm == config.runners.wasm.enabled,
    {
        RunnerRegistry {
            lua: true,
            python: config.runners.python.enabled,
            shell: config.runners.shell.enabled,
            javascript: config.runners.javascript.enabled,
            wasm: config.runners.wasm.enabled,
        }
    }

    /// Routes a step to its runner. Fails, naming the step's tag, exactly
    /// when the tag selects no registered runner.
    pub fn dispatch(&self, step: &Step) -> (r: Result<Language, StepError>)
        ensures
            r matches Ok(l) ==> spec_language_of(step.language@) == Some(l) && spec_registered(
                *self,
                l,
            ),
            r matches Err(e) ==> e matches StepError::UnsupportedLanguage(t) && t@
                == step.language@ && (match spec_language_of(step.language@) {
                Some(l) => !spec_registered(*self, l),
                None => true,
            }),
            r is Ok <==> (spec_language_of(step.language@) matches Some(l) && spec_registered(
                *self,
                l,
            )),
    {
        match parse_language(step.language.as_str()) {
            Some(l) => {
                let ok = match l {
                    Language::Lua => self.lua,
                    Language::Python => self.python,
                    Language::Shell => self.shell,
                    Language::JavaScript => self.javascript,
                    Language::Wasm => self.wasm,
                };
                if ok {
                    Ok(l)
                } else {
                    Err(StepError::UnsupportedLanguage(step.language.clone()))
                }
            }
            None => Err(StepError::UnsupportedLanguage(step.language.clone())),
        }
    }
}

} // verus!

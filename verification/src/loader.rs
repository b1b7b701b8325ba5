//! The definition loader's validation: turning the raw step descriptors of
//! a workflow document — already read into plain optional fields by the
//! surrounding program's document evaluator — into checked `Step` records,
//! applying the defaulting and rejection rules of the document format.

use vstd::prelude::*;
use crate::step::{Step, StepView};
use crate::text::{chars_of, chars_eq_str, concat_strs, lower_ascii, spec_lower};

verus! {

/// One step descriptor as the document gives it: every field optional but
/// the name, plus whether the descriptor used the deprecated embedded
/// `run = function()` shape.
pub struct RawStep {
    /// The step's name: the descriptor's key.
    pub name: String,
    /// The declared language tag, if any.
    pub language: Option<String>,
    /// The source text, if any.
    pub code: Option<String>,
    /// The declared dependencies, if any.
    pub depends_on: Option<Vec<String>>,
    /// The binary-module path, if any.
    pub module_ref: Option<String>,
    /// The module entry point under its short key, if any.
    pub func: Option<String>,
    /// The module entry point under its long key, if any.
    pub function_name: Option<String>,
    /// Whether the descriptor embeds a function under a `run` key.
    pub has_legacy_run: bool,
}

/// The mathematical shape of a raw descriptor.
pub struct RawStepView {
    pub name: Seq<char>,
    pub language: Option<Seq<char>>,
    pub code: Option<Seq<char>>,
    pub depends_on: Option<Seq<Seq<char>>>,
    pub module_ref: Option<Seq<char>>,
    pub func: Option<Seq<char>>,
    pub function_name: Option<Seq<char>>,
    pub has_legacy_run: bool,
}

impl View for RawStep {
    type V = RawStepView;

    open spec fn view(&self) -> RawStepView {
        RawStepView {
            name: self.name@,
            language: self.language.deep_view(),
            code: self.code.deep_view(),
            depends_on: self.depends_on.deep_view(),
            module_ref: self.module_ref.deep_view(),
            func: self.func.deep_view(),
            function_name: self.function_name.deep_view(),
            has_legacy_run: self.has_legacy_run,
        }
    }
}

/// The language a descriptor declares; the embedded-script tag by default.
pub open spec fn spec_raw_language(r: RawStepView) -> Seq<char> {
    match r.language {
        Some(l) => l,
        None => "lua"@,
    }
}

/// Whether the tag selects the binary-module runner.
pub open spec fn spec_is_wasm_tag(t: Seq<char>) -> bool {
    spec_lower(t) == "wasm"@ || spec_lower(t) == "webassembly"@
}

/// A descriptor is accepted when it has code, or names a binary-module
/// language, where code is optional.
pub open spec fn spec_raw_ok(r: RawStepView) -> bool {
    spec_is_wasm_tag(spec_raw_language(r)) || r.code is Some
}

/// The step a raw descriptor loads to: the language defaulted, missing
/// code empty (binary-module steps), missing dependencies none, and the
/// module entry point taken from the short key before the long one.
pub open spec fn spec_loaded_step(r: RawStepView) -> StepView {
    StepView {
        name: r.name,
        language: spec_raw_language(r),
        code: (match r.code {
            Some(c) => c,
            None => Seq::empty(),
        }),
        depends_on: (match r.depends_on {
            Some(d) => d,
            None => Seq::empty(),
        }),
        module_ref: r.module_ref,
        function_name: (match r.func {
            Some(f) => Some(f),
            None => r.function_name,
        }),
    }
}

/// The message a rejected descriptor produces: the deprecated embedded
/// shape is named as such, otherwise the missing code field is named; both
/// name the offending step.
pub open spec fn spec_raw_err_msg(r: RawStepView, m: Seq<char>) -> bool {
    &&& !spec_raw_ok(r)
    &&& if spec_lower(spec_raw_language(r)) == "lua"@ && r.has_legacy_run {
        m == "Legacy Lua workflow format detected in step '"@ + r.name
            + "'. Please use the new format with 'language' and 'code' instead of 'run = function()'."@
    } else if spec_lower(spec_raw_language(r)) == "lua"@ {
        m == "Lua step '"@ + r.name + "' is missing required 'code' field"@
    } else {
        m == "Step '"@ + r.name + "' is missing required 'code' field"@
    }
}

/// Validates the raw descriptors of one document and loads them as steps,
/// in document order; fails on the first descriptor that a rule rejects.
pub fn steps_from_raw(raw: &Vec<RawStep>) -> (r: Result<Vec<Step>, String>)
    ensures
        r is Ok <==> (forall|i: int| 0 <= i < raw@.len() ==> spec_raw_ok(#[trigger] raw@[i]@)),
        r matches Ok(steps) ==> steps@.len() == raw@.len() && (forall|i: int|
            0 <= i < raw@.len() ==> (#[trigger] steps@[i]@) == spec_loaded_step(raw@[i]@)),
        r matches Err(m) ==> exists|i: int|
            0 <= i < raw@.len() && spec_raw_err_msg(#[trigger] raw@[i]@, m@),
{
    let mut out: Vec<Step> = Vec::new();
    let mut i: usize = 0;
    while i < raw.len()
        invariant
            i <= raw@.len(),
            out@.len() == i,
            forall|j: int| 0 <= j < i ==> spec_raw_ok(#[trigger] raw@[j]@),
            forall|j: int| 0 <= j < i ==> (#[trigger] out@[j]@) == spec_loaded_step(raw@[j]@),
        decreases raw@.len() - i,
    {
        let rs = &raw[i];
        let language: String = match &rs.language {
            Some(l) => l.clone(),
            None => "lua".to_owned(),
        };
        let lower = lower_ascii(&chars_of(language.as_str()));
        let is_wasm = chars_eq_str(&lower, "wasm") || chars_eq_str(&lower, "webassembly");
        let is_lua = chars_eq_str(&lower, "lua");
        proof {
            assert(language@ == spec_raw_language(raw@[i as int]@));
        }
        let code: String = match &rs.code {
            Some(c) => c.clone(),
            None => {
                if !is_wasm {
                    if is_lua && rs.has_legacy_run {
                        let m = concat_strs(
                            "Legacy Lua workflow format detected in step '",
                            rs.name.as_str(),
                        );
                        let m = concat_strs(
                            m.as_str(),
                            "'. Please use the new format with 'language' and 'code' instead of 'run = function()'.",
                        );
                        return Err(m);
                    }
                    if is_lua {
                        let m = concat_strs("Lua step '", rs.name.as_str());
                        let m = concat_strs(m.as_str(), "' is missing required 'code' field");
                        return Err(m);
                    }
                    let m = concat_strs("Step '", rs.name.as_str());
                    let m = concat_strs(m.as_str(), "' is missing required 'code' field");
                    return Err(m);
                }
                String::new()
            }
        };
        let depends_on: Vec<String> = match &rs.depends_on {
            Some(d) => crate::step::clone_strings(d),
            None => Vec::new(),
        };
        let function_name: Option<String> = match &rs.func {
            Some(f) => Some(f.clone()),
            None => crate::step::clone_opt_string(&rs.function_name),
        };
        let step = Step {
            name: rs.name.clone(),
            language,
            code,
            depends_on,
            module_ref: crate::step::clone_opt_string(&rs.module_ref),
            function_name,
        };
        proof {
            assert(step@ =~~= spec_loaded_step(raw@[i as int]@));
        }
        out.push(step);
        i = i + 1;
    }
    Ok(out)
}

} // verus!

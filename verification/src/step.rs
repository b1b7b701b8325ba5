//! The step record: one named unit of work with a language tag, source
//! code or a binary-module reference, and the names of the steps whose
//! outputs it consumes.

use vstd::prelude::*;

verus! {

/// One unit of work in a workflow.
#[derive(Debug)]
pub struct Step {
    /// Unique identifier within the workflow; also the key under which the
    /// step's output is published.
    pub name: String,
    /// The tag selecting the runner.
    pub language: String,
    /// Source text to execute; empty for binary-module steps that name a
    /// module instead.
    pub code: String,
    /// Names of steps whose outputs must be available before this one runs.
    pub depends_on: Vec<String>,
    /// Path of a compiled module; binary-module steps only.
    pub module_ref: Option<String>,
    /// Exported entry point of the module; binary-module steps only.
    pub function_name: Option<String>,
}

/// The mathematical shape of a step.
#[verifier::ext_equal]
pub struct StepView {
    pub name: Seq<char>,
    pub language: Seq<char>,
    pub code: Seq<char>,
    pub depends_on: Seq<Seq<char>>,
    pub module_ref: Option<Seq<char>>,
    pub function_name: Option<Seq<char>>,
}

impl View for Step {
    type V = StepView;

    open spec fn view(&self) -> StepView {
        StepView {
            name: self.name@,
            language: self.language@,
            code: self.code@,
            depends_on: self.depends_on.deep_view(),
            module_ref: self.module_ref.deep_view(),
            function_name: self.function_name.deep_view(),
        }
    }
}

/// A workflow: the steps of one source document plus its metadata.
pub struct Workflow {
    /// The document's declared name.
    pub name: String,
    /// The document's declared description, if any.
    pub description: Option<String>,
    /// The steps, in the order the document gives them.
    pub steps: Vec<Step>,
}

/// Whether some step in the sequence carries the given name.
pub open spec fn spec_has_name(steps: Seq<StepView>, name: Seq<char>) -> bool {
    exists|i: int| 0 <= i < steps.len() && steps[i].name == name
}

/// Whether all step names in the sequence are distinct.
pub open spec fn spec_unique_names(steps: Seq<StepView>) -> bool {
    forall|i: int, j: int|
        0 <= i < j < steps.len() ==> (#[trigger] steps[i].name) != (#[trigger] steps[j].name)
}

/// Whether every dependency names some step of the sequence.
pub open spec fn spec_deps_known(steps: Seq<StepView>) -> bool {
    forall|i: int, k: int|
        0 <= i < steps.len() && 0 <= k < steps[i].depends_on.len() ==> spec_has_name(
            steps,
            #[trigger] steps[i].depends_on[k],
        )
}

/// A deep copy of a vector of strings.
pub fn clone_strings(v: &Vec<String>) -> (r: Vec<String>)
    ensures
        r@ == v@,
{
    let mut out: Vec<String> = Vec::new();
    let mut i: usize = 0;
    while i < v.len()
        invariant
            i <= v@.len(),
            out@ == v@.subrange(0, i as int),
        decreases v@.len() - i,
    {
        out.push(v[i].clone());
        i = i + 1;
        assert(out@ =~= v@.subrange(0, i as int));
    }
    assert(out@ =~= v@);
    out
}

/// A deep copy of an optional string.
pub fn clone_opt_string(v: &Option<String>) -> (r: Option<String>)
    ensures
        r == *v,
{
    match v {
        Some(s) => Some(s.clone()),
        None => None,
    }
}

impl Step {
    /// A copy of the step whose view equals the original's.
    pub fn duplicate(&self) -> (r: Step)
        ensures
            r@ == self@,
    {
        let r = Step {
            name: self.name.clone(),
            language: self.language.clone(),
            code: self.code.clone(),
            depends_on: clone_strings(&self.depends_on),
            module_ref: clone_opt_string(&self.module_ref),
            function_name: clone_opt_string(&self.function_name),
        };
        assert(r@ =~~= self@);
        r
    }
}

} // verus!

//! The binary-module runner's decision logic: the ordered chain of call
//! signatures to probe on a module's export, the conventional entry point,
//! and the mapping from a call's numeric return code to a step outcome —
//! zero is success, a small positive code is success with a warning, and
//! anything else fails the step, naming the function and the code.

use vstd::prelude::*;
use crate::json::{JsonValue, JsonView};
use crate::runner::StepError;
use crate::text::{concat_strs, dec_string_i64, dec_string_u64, spec_dec_i64, spec_dec_u64};

verus! {

/// The call signatures probed on a module export, in order.
#[derive(Clone, Copy, Debug, PartialEq, Eq, Structural)]
pub enum WasmSignature {
    /// No argument, returning a status code.
    NoArgToCode,
    /// One integer argument, returning a status code.
    IntArgToCode,
    /// No argument and no return; treated as status code zero.
    NoArgNoReturn,
}

/// The probe order: a descending chain from the richest signature.
pub fn signature_probes() -> (r: Vec<WasmSignature>)
    ensures
        r@ == seq![
            WasmSignature::NoArgToCode,
            WasmSignature::IntArgToCode,
            WasmSignature::NoArgNoReturn,
        ],
{
    let mut r: Vec<WasmSignature> = Vec::new();
    r.push(WasmSignature::NoArgToCode);
    r.push(WasmSignature::IntArgToCode);
    r.push(WasmSignature::NoArgNoReturn);
    assert(r@ =~= seq![
        WasmSignature::NoArgToCode,
        WasmSignature::IntArgToCode,
        WasmSignature::NoArgNoReturn,
    ]);
    r
}

/// The entry point probed when a step names none.
pub fn default_entry_point() -> (r: String)
    ensures
        r@ == "run"@,
{
    "run".to_owned()
}

/// The synthesized result of a successful module call: the module, the
/// function, the return code, the coarse status, and how many inputs the
/// step received.
pub open spec fn spec_wasm_result(
    module: Seq<char>,
    function: Seq<char>,
    rc: int,
    input_count: nat,
) -> JsonView {
    JsonView::Obj(
        seq![
            (
                "wasm_execution"@,
                JsonView::Obj(
                    seq![
                        ("module"@, JsonView::Str(module)),
                        ("function"@, JsonView::Str(function)),
                        ("return_code"@, JsonView::Num(spec_dec_i64(rc))),
                        (
                            "status"@,
                            JsonView::Str(
                                if rc == 0 {
                                    "success"@
                                } else {
                                    "warning"@
                                },
                            ),
                        ),
                        ("input_count"@, JsonView::Num(spec_dec_u64(input_count))),
                    ],
                ),
            ),
        ],
    )
}

/// Maps a module call's return code to the step's outcome: zero succeeds,
/// one through ten succeeds with a warning status, anything else fails the
/// step with a message naming the function and the code.
pub fn wasm_outcome(module: &str, function: &str, rc: i32, input_count: usize) -> (r: Result<
    JsonValue,
    StepError,
>)
    ensures
        r is Ok <==> 0 <= rc <= 10,
        r matches Ok(v) ==> v@ == spec_wasm_result(
            module@,
            function@,
            rc as int,
            input_count as nat,
        ),
        r matches Err(e) ==> e matches StepError::Execution(m) && m@ == "WASM function '"@
            + function@ + "' failed with return code: "@ + spec_dec_i64(rc as int),
{
    if rc < 0 || rc > 10 {
        let m = concat_strs("WASM function '", function);
        let m = concat_strs(m.as_str(), "' failed with return code: ");
        let m = concat_strs(m.as_str(), dec_string_i64(rc as i64).as_str());
        return Err(StepError::Execution(m));
    }
    let status: String = if rc == 0 {
        "success".to_owned()
    } else {
        "warning".to_owned()
    };
    let mut inner: Vec<(String, JsonValue)> = Vec::new();
    inner.push(("module".to_owned(), JsonValue::Str(module.to_owned())));
    inner.push(("function".to_owned(), JsonValue::Str(function.to_owned())));
    inner.push(("return_code".to_owned(), JsonValue::Num(dec_string_i64(rc as i64))));
    inner.push(("status".to_owned(), JsonValue::Str(status)));
    inner.push(("input_count".to_owned(), JsonValue::Num(dec_string_u64(input_count as u64))));
    let mut outer: Vec<(String, JsonValue)> = Vec::new();
    outer.push(("wasm_execution".to_owned(), JsonValue::Obj(inner)));
    let r = JsonValue::Obj(outer);
    proof {
        reveal_with_fuel(JsonValue::view, 3);
        let w = spec_wasm_result(module@, function@, rc as int, input_count as nat);
        assert(r@ matches JsonView::Obj(s) && s.len() == 1);
        assert(r@->Obj_0[0].0 == "wasm_execution"@);
        assert(r@->Obj_0[0].1 matches JsonView::Obj(t) && t.len() == 5);
        let ri = r@->Obj_0[0].1->Obj_0;
        let wi = w->Obj_0[0].1->Obj_0;
        assert(ri[0] == wi[0]);
        assert(ri[1] == wi[1]);
        assert(ri[2] == wi[2]);
        assert(ri[3] == wi[3]);
        assert(ri[4] == wi[4]);
        assert(ri =~= wi);
        assert(r@->Obj_0[0].1 =~~= w->Obj_0[0].1);
        assert(r@->Obj_0[0] == w->Obj_0[0]);
        assert(r@->Obj_0 =~= w->Obj_0);
        assert(r@ =~~= w);
    }
    Ok(r)
}

} // verus!

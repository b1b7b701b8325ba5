//! Construction of the generated scripts that the subprocess runners
//! execute: the step's inputs are embedded as rendered JSON — exported as
//! `INPUT_<NAME>` environment variables for the shell, assigned to a
//! global `inputs` object for JavaScript — followed by the step's code and
//! a call of its conventional `run` entry point.

use vstd::prelude::*;
use crate::json::{JsonValue, JsonView};
use crate::render::{push_render, push_str_chars, spec_render};
use crate::text::{chars_of, string_from_chars};

verus! {

/// ASCII upper-casing of a single character; other characters unchanged.
pub open spec fn spec_upper_char(c: char) -> char {
    if 'a' <= c && c <= 'z' {
        (((c as u8) - 32) as char)
    } else {
        c
    }
}

/// A whole sequence of characters, ASCII upper-cased.
pub open spec fn spec_upper(s: Seq<char>) -> Seq<char> {
    s.map_values(|c: char| spec_upper_char(c))
}

/// How one character embeds inside a single-quoted shell word: a quote
/// closes the word, appears escaped, and reopens it.
pub open spec fn spec_shell_quote_char(c: char) -> Seq<char> {
    if c == '\'' {
        seq!['\'', '\\', '\'', '\'']
    } else {
        seq![c]
    }
}

/// A whole sequence, embedded in a single-quoted shell word.
pub open spec fn spec_shell_quote(s: Seq<char>) -> Seq<char>
    decreases s.len(),
{
    if s.len() == 0 {
        Seq::empty()
    } else {
        spec_shell_quote(s.drop_last()) + spec_shell_quote_char(s.last())
    }
}

/// The export lines of a script's inputs, in input order.
pub open spec fn spec_export_lines(inputs: Seq<(Seq<char>, JsonView)>) -> Seq<char>
    decreases inputs.len(),
{
    if inputs.len() == 0 {
        Seq::empty()
    } else {
        spec_export_lines(inputs.drop_last()) + "export INPUT_"@ + spec_upper(inputs.last().0)
            + "='"@ + spec_shell_quote(spec_render(inputs.last().1)) + "'\n"@
    }
}

/// The generated shell script: exit on error, the inputs exported, the
/// step's code, and a call of its `run` function when it defines one.
pub open spec fn spec_shell_script(code: Seq<char>, inputs: Seq<(Seq<char>, JsonView)>) -> Seq<
    char,
> {
    "set -e\n"@ + spec_export_lines(inputs) + code
        + "\nif type run >/dev/null 2>&1; then run; fi\n"@
}

/// Appends the upper-cased characters of a string to the output.
fn push_upper(out: &mut Vec<char>, s: &str)
    ensures
        final(out)@ == old(out)@ + spec_upper(s@),
{
    let cs = chars_of(s);
    let mut i: usize = 0;
    while i < cs.len()
        invariant
            i <= cs@.len(),
            cs@ == s@,
            out@ == old(out)@ + spec_upper(cs@.subrange(0, i as int)),
        decreases cs@.len() - i,
    {
        let c = cs[i];
        if 'a' <= c && c <= 'z' {
            out.push(((c as u8) - 32) as char);
        } else {
            out.push(c);
        }
        proof {
            assert(out@ =~= old(out)@ + spec_upper(cs@.subrange(0, i as int + 1)));
        }
        i = i + 1;
    }
    assert(cs@.subrange(0, cs@.len() as int) =~= cs@);
    assert(out@ =~= old(out)@ + spec_upper(s@));
}

/// Appends the characters, single-quote embedded, to the output.
fn push_shell_quoted(out: &mut Vec<char>, cs: &Vec<char>)
    ensures
        final(out)@ == old(out)@ + spec_shell_quote(cs@),
{
    let mut i: usize = 0;
    while i < cs.len()
        invariant
            i <= cs@.len(),
            out@ == old(out)@ + spec_shell_quote(cs@.subrange(0, i as int)),
        decreases cs@.len() - i,
    {
        proof {
            assert(cs@.subrange(0, i as int + 1).drop_last() =~= cs@.subrange(0, i as int));
            assert(cs@.subrange(0, i as int + 1).last() == cs@[i as int]);
        }
        let c = cs[i];
        if c == '\'' {
            out.push('\'');
            out.push('\\');
            out.push('\'');
            out.push('\'');
        } else {
            out.push(c);
        }
        proof {
            assert(out@ =~= old(out)@ + spec_shell_quote(cs@.subrange(0, i as int + 1)));
        }
        i = i + 1;
    }
    assert(cs@.subrange(0, cs@.len() as int) =~= cs@);
    assert(out@ =~= old(out)@ + spec_shell_quote(cs@));
}

/// Builds the shell script that runs a step's code over its inputs.
#[verifier::loop_isolation(false)]
pub fn build_shell_script(code: &str, inputs: &Vec<(String, JsonValue)>) -> (r: String)
    ensures
        r@ == spec_shell_script(code@, crate::store::spec_store_view(inputs@)),
{
    let ghost iv = crate::store::spec_store_view(inputs@);
    let mut out: Vec<char> = Vec::new();
    push_str_chars(&mut out, "set -e\n");
    let ghost base = out@;
    let mut i: usize = 0;
    while i < inputs.len()
        invariant
            i <= inputs@.len(),
            out@ == base + spec_export_lines(iv.subrange(0, i as int)),
        decreases inputs@.len() - i,
    {
        proof {
            assert(iv.subrange(0, i as int + 1).drop_last() =~= iv.subrange(0, i as int));
            assert(iv.subrange(0, i as int + 1).last() == iv[i as int]);
            assert(iv[i as int] == (inputs@[i as int].0@, inputs@[i as int].1@));
        }
        push_str_chars(&mut out, "export INPUT_");
        push_upper(&mut out, inputs[i].0.as_str());
        push_str_chars(&mut out, "='");
        let mut rendered: Vec<char> = Vec::new();
        push_render(&inputs[i].1, &mut rendered);
        proof {
            assert(rendered@ =~= spec_render(iv[i as int].1));
        }
        push_shell_quoted(&mut out, &rendered);
        push_str_chars(&mut out, "'\n");
        proof {
            assert(out@ =~= base + spec_export_lines(iv.subrange(0, i as int + 1)));
        }
        i = i + 1;
    }
    proof {
        assert(iv.subrange(0, iv.len() as int) =~= iv);
    }
    push_str_chars(&mut out, code);
    push_str_chars(&mut out, "\nif type run >/dev/null 2>&1; then run; fi\n");
    assert(out@ =~= spec_shell_script(code@, iv));
    string_from_chars(&out)
}

/// The assignment lines of a JavaScript program's inputs, in input order;
/// the keys are embedded as rendered JSON strings.
pub open spec fn spec_assign_lines(inputs: Seq<(Seq<char>, JsonView)>) -> Seq<char>
    decreases inputs.len(),
{
    if inputs.len() == 0 {
        Seq::empty()
    } else {
        spec_assign_lines(inputs.drop_last()) + "inputs["@ + spec_render(
            JsonView::Str(inputs.last().0),
        ) + "] = "@ + spec_render(inputs.last().1) + ";\n"@
    }
}

/// The generated JavaScript program: the inputs assigned to a global
/// object, the step's code, and a call of its `run` function — with the
/// inputs when any exist — whose result prints as one JSON line, an empty
/// object standing in for a missing result.
pub open spec fn spec_javascript_program(
    code: Seq<char>,
    inputs: Seq<(Seq<char>, JsonView)>,
) -> Seq<char> {
    "const inputs = {};\n"@ + spec_assign_lines(inputs) + code
        + "\nconst result = Object.keys(inputs).length ? run(inputs) : run();\nconsole.log(JSON.stringify(result === undefined || result === null ? {} : result));\n"@
}

/// Builds the JavaScript program that runs a step's code over its inputs.
#[verifier::loop_isolation(false)]
pub fn build_javascript_program(code: &str, inputs: &Vec<(String, JsonValue)>) -> (r: String)
    ensures
        r@ == spec_javascript_program(code@, crate::store::spec_store_view(inputs@)),
{
    let ghost iv = crate::store::spec_store_view(inputs@);
    let mut out: Vec<char> = Vec::new();
    push_str_chars(&mut out, "const inputs = {};\n");
    let ghost base = out@;
    let mut i: usize = 0;
    while i < inputs.len()
        invariant
            i <= inputs@.len(),
            out@ == base + spec_assign_lines(iv.subrange(0, i as int)),
        decreases inputs@.len() - i,
    {
        proof {
            assert(iv.subrange(0, i as int + 1).drop_last() =~= iv.subrange(0, i as int));
            assert(iv.subrange(0, i as int + 1).last() == iv[i as int]);
            assert(iv[i as int] == (inputs@[i as int].0@, inputs@[i as int].1@));
        }
        push_str_chars(&mut out, "inputs[");
        let key = JsonValue::Str(inputs[i].0.clone());
        push_render(&key, &mut out);
        proof {
            assert(key@ == JsonView::Str(iv[i as int].0));
        }
        push_str_chars(&mut out, "] = ");
        push_render(&inputs[i].1, &mut out);
        push_str_chars(&mut out, ";\n");
        proof {
            assert(out@ =~= base + spec_assign_lines(iv.subrange(0, i as int + 1)));
        }
        i = i + 1;
    }
    proof {
        assert(iv.subrange(0, iv.len() as int) =~= iv);
    }
    push_str_chars(&mut out, code);
    push_str_chars(
        &mut out,
        "\nconst result = Object.keys(inputs).length ? run(inputs) : run();\nconsole.log(JSON.stringify(result === undefined || result === null ? {} : result));\n",
    );
    assert(out@ =~= spec_javascript_program(code@, iv));
    string_from_chars(&out)
}

} // verus!

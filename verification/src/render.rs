//! Rendering a JSON value as text: the canonical form without whitespace,
//! with the quote, backslash, newline, carriage-return and tab characters
//! escaped inside strings. Other characters pass through unchanged.

use vstd::prelude::*;
use crate::json::{JsonValue, JsonView};
use crate::text::{push_char, string_from_chars};

verus! {

/// How one character renders inside a JSON string.
pub open spec fn spec_escape_char(c: char) -> Seq<char> {
    if c == '"' {
        seq!['\\', '"']
    } else if c == '\\' {
        seq!['\\', '\\']
    } else if c == '\n' {
        seq!['\\', 'n']
    } else if c == '\r' {
        seq!['\\', 'r']
    } else if c == '\t' {
        seq!['\\', 't']
    } else {
        seq![c]
    }
}

/// A whole string's characters, escaped.
pub open spec fn spec_escape(s: Seq<char>) -> Seq<char>
    decreases s.len(),
{
    if s.len() == 0 {
        Seq::empty()
    } else {
        spec_escape(s.drop_last()) + spec_escape_char(s.last())
    }
}

/// The rendering of a JSON value.
pub open spec fn spec_render(v: JsonView) -> Seq<char>
    decreases v, 1int,
{
    match v {
        JsonView::Null => "null"@,
        JsonView::Bool(b) => (if b {
            "true"@
        } else {
            "false"@
        }),
        JsonView::Num(s) => s,
        JsonView::Str(s) => seq!['"'] + spec_escape(s) + seq!['"'],
        JsonView::Arr(items) => seq!['['] + spec_render_items(items) + seq![']'],
        JsonView::Obj(entries) => seq!['{'] + spec_render_entries(entries) + seq!['}'],
    }
}

/// Array items, comma-separated.
pub open spec fn spec_render_items(items: Seq<JsonView>) -> Seq<char>
    decreases items, 0int,
{
    if items.len() == 0 {
        Seq::empty()
    } else if items.len() == 1 {
        spec_render(items[0])
    } else {
        spec_render_items(items.drop_last()) + seq![','] + spec_render(items.last())
    }
}

/// Object entries, comma-separated, each a quoted key, a colon, a value.
pub open spec fn spec_render_entries(entries: Seq<(Seq<char>, JsonView)>) -> Seq<char>
    decreases entries, 0int,
{
    if entries.len() == 0 {
        Seq::empty()
    } else {
        let one = seq!['"'] + spec_escape(entries.last().0) + seq!['"', ':'] + spec_render(
            entries.last().1,
        );
        if entries.len() == 1 {
            one
        } else {
            spec_render_entries(entries.drop_last()) + seq![','] + one
        }
    }
}

/// Appends a string slice's characters to the output.
pub fn push_str_chars(out: &mut Vec<char>, s: &str)
    ensures
        final(out)@ == old(out)@ + s@,
{
    let cs = crate::text::chars_of(s);
    let mut i: usize = 0;
    while i < cs.len()
        invariant
            i <= cs@.len(),
            cs@ == s@,
            out@ == old(out)@ + cs@.subrange(0, i as int),
        decreases cs@.len() - i,
    {
        out.push(cs[i]);
        proof {
            assert(out@ =~= old(out)@ + cs@.subrange(0, i as int + 1));
        }
        i = i + 1;
    }
    assert(out@ =~= old(out)@ + s@);
}

/// Appends a string's escaped characters to the output.
fn push_escaped(out: &mut Vec<char>, s: &str)
    ensures
        final(out)@ == old(out)@ + spec_escape(s@),
{
    let cs = crate::text::chars_of(s);
    let mut i: usize = 0;
    while i < cs.len()
        invariant
            i <= cs@.len(),
            cs@ == s@,
            out@ == old(out)@ + spec_escape(cs@.subrange(0, i as int)),
        decreases cs@.len() - i,
    {
        let c = cs[i];
        proof {
            assert(cs@.subrange(0, i as int + 1).drop_last() =~= cs@.subrange(0, i as int));
            assert(cs@.subrange(0, i as int + 1).last() == cs@[i as int]);
        }
        if c == '"' {
            out.push('\\');
            out.push('"');
        } else if c == '\\' {
            out.push('\\');
            out.push('\\');
        } else if c == '\n' {
            out.push('\\');
            out.push('n');
        } else if c == '\r' {
            out.push('\\');
            out.push('r');
        } else if c == '\t' {
            out.push('\\');
            out.push('t');
        } else {
            out.push(c);
        }
        proof {
            assert(out@ =~= old(out)@ + spec_escape(cs@.subrange(0, i as int + 1)));
        }
        i = i + 1;
    }
    assert(cs@.subrange(0, cs@.len() as int) =~= cs@);
    assert(out@ =~= old(out)@ + spec_escape(s@));
}

/// Appends a value's rendering to the output.
#[verifier::loop_isolation(false)]
#[verifier::rlimit(100)]
pub fn push_render(v: &JsonValue, out: &mut Vec<char>)
    ensures
        final(out)@ == old(out)@ + spec_render(v@),
    decreases *v,
{
    match v {
        JsonValue::Null => {
            push_str_chars(out, "null");
        }
        JsonValue::Bool(b) => {
            if *b {
                push_str_chars(out, "true");
            } else {
                push_str_chars(out, "false");
            }
        }
        JsonValue::Num(s) => {
            push_str_chars(out, s.as_str());
        }
        JsonValue::Str(s) => {
            out.push('"');
            push_escaped(out, s.as_str());
            out.push('"');
            assert(out@ =~= old(out)@ + spec_render(v@));
        }
        JsonValue::Arr(items) => {
            out.push('[');
            let ghost base = out@;
            let ghost iv = v@->Arr_0;
            let mut x: usize = 0;
            while x < items.len()
                invariant
                    x <= items@.len(),
                    out@ == base + spec_render_items(iv.subrange(0, x as int)),
                decreases items@.len() - x,
            {
                if x > 0 {
                    out.push(',');
                }
                push_render(&items[x], out);
                proof {
                    assert(iv.subrange(0, x as int + 1).drop_last() =~= iv.subrange(0, x as int));
                    assert(iv.subrange(0, x as int + 1).last() == iv[x as int]);
                    assert(iv[x as int] == items@[x as int]@);
                    assert(out@ =~= base + spec_render_items(iv.subrange(0, x as int + 1)));
                }
                x = x + 1;
            }
            out.push(']');
            proof {
                assert(iv.subrange(0, iv.len() as int) =~= iv);
                assert(out@ =~= old(out)@ + spec_render(v@));
            }
        }
        JsonValue::Obj(entries) => {
            out.push('{');
            let ghost base = out@;
            let ghost ev = v@->Obj_0;
            let mut x: usize = 0;
            while x < entries.len()
                invariant
                    x <= entries@.len(),
                    out@ == base + spec_render_entries(ev.subrange(0, x as int)),
                decreases entries@.len() - x,
            {
                if x > 0 {
                    out.push(',');
                }
                out.push('"');
                push_escaped(out, entries[x].0.as_str());
                out.push('"');
                out.push(':');
                push_render(&entries[x].1, out);
                proof {
                    assert(ev.subrange(0, x as int + 1).drop_last() =~= ev.subrange(0, x as int));
                    assert(ev.subrange(0, x as int + 1).last() == ev[x as int]);
                    assert(ev[x as int] == (entries@[x as int].0@, entries@[x as int].1@));
                    assert(out@ =~= base + spec_render_entries(ev.subrange(0, x as int + 1)));
                }
                x = x + 1;
            }
            out.push('}');
            proof {
                assert(ev.subrange(0, ev.len() as int) =~= ev);
                assert(out@ =~= old(out)@ + spec_render(v@));
            }
        }
    }
}

/// Renders a JSON value as text.
pub fn render_json(v: &JsonValue) -> (r: String)
    ensures
        r@ == spec_render(v@),
{
    let mut out: Vec<char> = Vec::new();
    push_render(v, &mut out);
    assert(out@ =~= spec_render(v@));
    string_from_chars(&out)
}

} // verus!

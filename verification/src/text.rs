//! Character-level utilities: extracting the characters of a string,
//! rebuilding strings from characters, ASCII case folding, splitting,
//! and decimal and boolean parsing.

use vstd::prelude::*;
use vstd::std_specs::iter::IteratorSpec;
use vstd::string::StringExecFns;

verus! {

/// Collects the characters of a string slice into a vector.
pub fn chars_of(s: &str) -> (r: Vec<char>)
    ensures
        r@ == s@,
{
    broadcast use vstd::string::axiom_spec_iter, vstd::string::next_postcondition;

    let mut it = s.chars();
    let mut r: Vec<char> = Vec::new();
    let mut done = false;
    while !done
        invariant
            r@ + it.remaining() == s@,
            done ==> it.remaining().len() == 0,
        decreases s@.len() - r@.len() + (if done { 0int } else { 1 }),
    {
        match it.next() {
            Some(c) => {
                r.push(c);
            }
            None => {
                done = true;
            }
        }
    }
    assert(r@ =~= s@);
    r
}

/// Relies on std's `String::push`: appends one character to the string.
#[verifier::external_body]
pub fn push_char(s: &mut String, c: char)
    ensures
        final(s)@ == old(s)@.push(c),
{
    s.push(c);
}

/// Builds a `String` holding exactly the given characters.
pub fn string_from_chars(cs: &Vec<char>) -> (r: String)
    ensures
        r@ == cs@,
{
    let mut r = String::new();
    let mut i: usize = 0;
    while i < cs.len()
        invariant
            i <= cs@.len(),
            r@ == cs@.subrange(0, i as int),
        decreases cs@.len() - i,
    {
        push_char(&mut r, cs[i]);
        i = i + 1;
        assert(r@ =~= cs@.subrange(0, i as int));
    }
    assert(r@ =~= cs@);
    r
}

/// ASCII lower-casing of a single character; other characters unchanged.
pub open spec fn spec_lower_char(c: char) -> char {
    if 'A' <= c && c <= 'Z' {
        (((c as u8) + 32) as char)
    } else {
        c
    }
}

/// A whole sequence of characters, ASCII lower-cased.
pub open spec fn spec_lower(s: Seq<char>) -> Seq<char> {
    s.map_values(|c: char| spec_lower_char(c))
}

/// Lower-cases the ASCII letters of a character vector.
pub fn lower_ascii(cs: &Vec<char>) -> (r: Vec<char>)
    ensures
        r@ == spec_lower(cs@),
{
    let mut r: Vec<char> = Vec::new();
    let mut i: usize = 0;
    while i < cs.len()
        invariant
            i <= cs@.len(),
            r@ == spec_lower(cs@.subrange(0, i as int)),
        decreases cs@.len() - i,
    {
        let c = cs[i];
        if 'A' <= c && c <= 'Z' {
            r.push(((c as u8) + 32) as char);
        } else {
            r.push(c);
        }
        i = i + 1;
        assert(r@ =~= spec_lower(cs@.subrange(0, i as int)));
    }
    assert(cs@.subrange(0, cs@.len() as int) =~= cs@);
    r
}

/// Compares a character vector against a string slice.
pub fn chars_eq_str(cs: &Vec<char>, s: &str) -> (r: bool)
    ensures
        r == (cs@ == s@),
{
    let other = chars_of(s);
    if cs.len() != other.len() {
        assert(cs@.len() != s@.len());
        return false;
    }
    let mut i: usize = 0;
    while i < cs.len()
        invariant
            i <= cs@.len(),
            cs@.len() == other@.len(),
            other@ == s@,
            forall|j: int| 0 <= j < i ==> cs@[j] == other@[j],
        decreases cs@.len() - i,
    {
        if cs[i] != other[i] {
            return false;
        }
        i = i + 1;
    }
    assert(cs@ =~= s@);
    true
}

/// Compares two string slices by their characters.
pub fn str_eq(a: &str, b: &str) -> (r: bool)
    ensures
        r == (a@ == b@),
{
    let ca = chars_of(a);
    chars_eq_str(&ca, b)
}

/// Concatenates two string slices.
pub fn concat_strs(a: &str, b: &str) -> (r: String)
    ensures
        r@ == a@ + b@,
{
    let mut r = a.to_owned();
    r.append(b);
    r
}

/// Splitting a character sequence at a separator, keeping empty pieces,
/// defined by peeling characters off the right-hand end.
pub open spec fn spec_split(s: Seq<char>, sep: char) -> Seq<Seq<char>>
    decreases s.len(),
{
    if s.len() == 0 {
        seq![Seq::<char>::empty()]
    } else {
        let rest = spec_split(s.drop_last(), sep);
        if s.last() == sep {
            rest.push(Seq::empty())
        } else {
            rest.update(rest.len() - 1, rest.last().push(s.last()))
        }
    }
}

/// Every split has at least one piece.
pub proof fn lemma_split_nonempty(s: Seq<char>, sep: char)
    ensures
        spec_split(s, sep).len() > 0,
    decreases s.len(),
{
    if s.len() > 0 {
        lemma_split_nonempty(s.drop_last(), sep);
    }
}

/// Splits a string at a separator character, keeping empty pieces.
pub fn split_string(s: &str, sep: char) -> (r: Vec<String>)
    ensures
        r.deep_view() == spec_split(s@, sep),
{
    let cs = chars_of(s);
    let mut out: Vec<String> = Vec::new();
    let mut cur: String = String::new();
    let mut i: usize = 0;
    proof {
        lemma_split_nonempty(cs@, sep);
    }
    while i < cs.len()
        invariant
            i <= cs@.len(),
            cs@ == s@,
            spec_split(cs@.subrange(0, i as int), sep) == out.deep_view().push(cur@),
        decreases cs@.len() - i,
    {
        let ghost prefix = cs@.subrange(0, i as int);
        proof {
            assert(cs@.subrange(0, i as int + 1).drop_last() =~= prefix);
            assert(cs@.subrange(0, i as int + 1).last() == cs@[i as int]);
        }
        let c = cs[i];
        if c == sep {
            out.push(cur);
            cur = String::new();
            assert(spec_split(cs@.subrange(0, i as int + 1), sep) =~~= out.deep_view().push(
                cur@,
            ));
        } else {
            push_char(&mut cur, c);
            assert(spec_split(cs@.subrange(0, i as int + 1), sep) =~~= out.deep_view().push(
                cur@,
            ));
        }
        i = i + 1;
    }
    assert(cs@.subrange(0, cs@.len() as int) =~= cs@);
    out.push(cur);
    assert(out.deep_view() =~~= spec_split(s@, sep));
    out
}

/// Whether `p` is a prefix of `s`.
pub open spec fn spec_starts_with(s: Seq<char>, p: Seq<char>) -> bool {
    s.len() >= p.len() && s.subrange(0, p.len() as int) == p
}

/// Whether the string starts with the given prefix.
pub fn starts_with_str(s: &str, p: &str) -> (r: bool)
    ensures
        r == spec_starts_with(s@, p@),
{
    let cs = chars_of(s);
    let cp = chars_of(p);
    if cs.len() < cp.len() {
        return false;
    }
    let mut i: usize = 0;
    while i < cp.len()
        invariant
            i <= cp@.len(),
            cp@.len() <= cs@.len(),
            cs@ == s@,
            cp@ == p@,
            forall|j: int| 0 <= j < i ==> cs@[j] == cp@[j],
        decreases cp@.len() - i,
    {
        if cs[i] != cp[i] {
            assert(s@.subrange(0, p@.len() as int)[i as int] != p@[i as int]);
            return false;
        }
        i = i + 1;
    }
    assert(s@.subrange(0, p@.len() as int) =~= p@);
    true
}

/// Whether the sequence holds the given character.
pub open spec fn spec_contains_char(s: Seq<char>, c: char) -> bool {
    exists|i: int| 0 <= i < s.len() && s[i] == c
}

/// Whether the string holds the given character.
pub fn contains_char(s: &str, c: char) -> (r: bool)
    ensures
        r == spec_contains_char(s@, c),
{
    let cs = chars_of(s);
    let mut i: usize = 0;
    while i < cs.len()
        invariant
            i <= cs@.len(),
            cs@ == s@,
            forall|j: int| 0 <= j < i ==> s@[j] != c,
        decreases cs@.len() - i,
    {
        if cs[i] == c {
            return true;
        }
        i = i + 1;
    }
    false
}

/// The decimal digit character for a value below ten.
pub open spec fn spec_digit_char(d: nat) -> char
    recommends
        d < 10,
{
    (((48 + d) as u8) as char)
}

/// The decimal rendering of a natural number, most significant digit first.
pub open spec fn spec_dec_u64(n: nat) -> Seq<char>
    decreases n,
{
    if n < 10 {
        seq![spec_digit_char(n)]
    } else {
        spec_dec_u64(n / 10).push(spec_digit_char(n % 10))
    }
}

/// The decimal rendering of an integer: a minus sign when negative.
pub open spec fn spec_dec_i64(n: int) -> Seq<char> {
    if n >= 0 {
        spec_dec_u64(n as nat)
    } else {
        seq!['-'] + spec_dec_u64((-n) as nat)
    }
}

/// Appends the decimal rendering of `n` to `out`.
pub fn push_dec_u64(n: u64, out: &mut Vec<char>)
    ensures
        final(out)@ == old(out)@ + spec_dec_u64(n as nat),
    decreases n,
{
    if n < 10 {
        out.push(((48 + (n as u8)) as char));
    } else {
        push_dec_u64(n / 10, out);
        out.push(((48 + ((n % 10) as u8)) as char));
    }
}

/// The decimal rendering of `n` as a string.
pub fn dec_string_u64(n: u64) -> (r: String)
    ensures
        r@ == spec_dec_u64(n as nat),
{
    let mut out: Vec<char> = Vec::new();
    push_dec_u64(n, &mut out);
    assert(out@ =~= spec_dec_u64(n as nat));
    string_from_chars(&out)
}

/// The decimal rendering of a signed `n` as a string.
pub fn dec_string_i64(n: i64) -> (r: String)
    ensures
        r@ == spec_dec_i64(n as int),
{
    let mut out: Vec<char> = Vec::new();
    if n >= 0 {
        push_dec_u64(n as u64, &mut out);
    } else {
        out.push('-');
        let mag: u64 = ((-(n + 1)) as u64) + 1;
        assert(mag as nat == (-(n as int)) as nat);
        push_dec_u64(mag, &mut out);
    }
    assert(out@ =~= spec_dec_i64(n as int));
    string_from_chars(&out)
}

/// Whether the character is a decimal digit.
pub open spec fn spec_is_digit(c: char) -> bool {
    '0' <= c && c <= '9'
}

/// The numeric value of a digit character.
pub open spec fn spec_digit_value(c: char) -> nat
    recommends
        spec_is_digit(c),
{
    ((c as u32) - 48) as nat
}

/// The value of a digit string read most significant digit first.
pub open spec fn spec_dec_value(s: Seq<char>) -> nat
    decreases s.len(),
{
    if s.len() == 0 {
        0
    } else {
        spec_dec_value(s.drop_last()) * 10 + spec_digit_value(s.last())
    }
}

/// Whether every character of the sequence is a decimal digit.
pub open spec fn spec_all_digits(s: Seq<char>) -> bool {
    forall|i: int| 0 <= i < s.len() ==> spec_is_digit(#[trigger] s[i])
}

/// Parses an unsigned decimal number. Returns `Some` exactly when the
/// input is a nonempty run of digits whose value fits in a `u64`.
pub fn parse_u64_chars(cs: &Vec<char>) -> (r: Option<u64>)
    ensures
        match r {
            Some(v) => cs@.len() > 0 && spec_all_digits(cs@) && v as nat == spec_dec_value(cs@),
            None => cs@.len() == 0 || !spec_all_digits(cs@) || spec_dec_value(cs@)
                > u64::MAX as nat,
        },
{
    if cs.len() == 0 {
        return None;
    }
    let mut acc: u64 = 0;
    let mut i: usize = 0;
    while i < cs.len()
        invariant
            i <= cs@.len(),
            spec_all_digits(cs@.subrange(0, i as int)),
            acc as nat == spec_dec_value(cs@.subrange(0, i as int)),
        decreases cs@.len() - i,
    {
        let c = cs[i];
        if !('0' <= c && c <= '9') {
            assert(!spec_is_digit(cs@[i as int]));
            return None;
        }
        let d: u64 = ((c as u32) - 48) as u64;
        let ghost prev = cs@.subrange(0, i as int);
        proof {
            assert(cs@.subrange(0, i as int + 1).drop_last() =~= prev);
            assert(cs@.subrange(0, i as int + 1).last() == cs@[i as int]);
        }
        if acc > (u64::MAX - d) / 10 {
            proof {
                lemma_dec_value_grows(cs@, i as int);
            }
            return None;
        }
        acc = acc * 10 + d;
        i = i + 1;
    }
    assert(cs@.subrange(0, cs@.len() as int) =~= cs@);
    Some(acc)
}

/// Once a prefix of a digit string is too large, the whole string is
/// not a digit string that fits.
proof fn lemma_dec_value_grows(s: Seq<char>, i: int)
    requires
        0 <= i < s.len(),
        spec_dec_value(s.subrange(0, i + 1)) > u64::MAX as nat,
    ensures
        !spec_all_digits(s) || spec_dec_value(s) > u64::MAX as nat,
    decreases s.len() - i,
{
    if i == s.len() - 1 {
        assert(s.subrange(0, s.len() as int) =~= s);
    } else if spec_all_digits(s) {
        assert(s.subrange(0, i + 2).drop_last() =~= s.subrange(0, i + 1));
        assert(s.subrange(0, i + 2).last() == s[i + 1]);
        assert(spec_dec_value(s.subrange(0, i + 2)) == spec_dec_value(s.subrange(0, i + 1)) * 10
            + spec_digit_value(s[i + 1]));
        lemma_dec_value_grows(s, i + 1);
    }
}

/// Parses `true` or `false`, as std's `bool` parser does.
pub fn parse_bool_chars(cs: &Vec<char>) -> (r: Option<bool>)
    ensures
        match r {
            Some(v) => (v == (cs@ == "true"@)) && (cs@ == "true"@ || cs@ == "false"@),
            None => cs@ != "true"@ && cs@ != "false"@,
        },
{
    if chars_eq_str(cs, "true") {
        Some(true)
    } else if chars_eq_str(cs, "false") {
        Some(false)
    } else {
        None
    }
}

} // verus!

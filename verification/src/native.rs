//! The embedded scripting runtime's native values, modeled as plain data,
//! and the marshaling rule that turns a native value into JSON. The
//! runtime's one container type does not distinguish arrays from objects;
//! the load-bearing rule is: a nonempty table whose keys are exactly
//! 1, 2, …, n in order converts to a JSON array of its values, any other
//! table converts to a JSON object.

use vstd::prelude::*;
use crate::json::{JsonValue, JsonView};
use crate::store::spec_store_view;
use crate::text::{dec_string_i64, spec_dec_i64};

verus! {

/// A native table key.
pub enum NativeKey {
    /// An integer key.
    Int(i64),
    /// A string key.
    Str(String),
    /// Any other key kind; such entries cannot be keyed in JSON.
    Other,
}

/// The mathematical shape of a native key.
#[verifier::ext_equal]
pub enum NativeKeyView {
    Int(int),
    Str(Seq<char>),
    Other,
}

impl View for NativeKey {
    type V = NativeKeyView;

    open spec fn view(&self) -> NativeKeyView {
        match self {
            NativeKey::Int(i) => NativeKeyView::Int(*i as int),
            NativeKey::Str(s) => NativeKeyView::Str(s@),
            NativeKey::Other => NativeKeyView::Other,
        }
    }
}

/// A native value of the embedded runtime, as plain data.
pub enum NativeValue {
    Nil,
    Bool(bool),
    Int(i64),
    /// A non-integral number, kept as its literal text.
    Num(String),
    Str(String),
    Table(Vec<(NativeKey, NativeValue)>),
}

/// The mathematical shape of a native value.
#[verifier::ext_equal]
pub enum NativeValueView {
    Nil,
    Bool(bool),
    Int(int),
    Num(Seq<char>),
    Str(Seq<char>),
    Table(Seq<(NativeKeyView, NativeValueView)>),
}

impl NativeValue {
    /// The view of a native value: the same tree over sequences.
    pub open spec fn view(self) -> NativeValueView
        decreases self,
    {
        match self {
            NativeValue::Nil => NativeValueView::Nil,
            NativeValue::Bool(b) => NativeValueView::Bool(b),
            NativeValue::Int(i) => NativeValueView::Int(i as int),
            NativeValue::Num(s) => NativeValueView::Num(s@),
            NativeValue::Str(s) => NativeValueView::Str(s@),
            NativeValue::Table(entries) => NativeValueView::Table(
                Seq::new(
                    entries@.len(),
                    |i: int|
                        if 0 <= i < entries@.len() {
                            (entries@[i].0@, entries@[i].1.view())
                        } else {
                            (NativeKeyView::Other, NativeValueView::Nil)
                        },
                ),
            ),
        }
    }
}

impl View for NativeValue {
    type V = NativeValueView;

    open spec fn view(&self) -> NativeValueView {
        NativeValue::view(*self)
    }
}

/// The array rule: the keys are exactly 1, 2, …, n in order.
pub open spec fn spec_array_keys(entries: Seq<(NativeKeyView, NativeValueView)>) -> bool {
    forall|x: int| 0 <= x < entries.len() ==> (#[trigger] entries[x]).0 == NativeKeyView::Int(x + 1)
}

/// The JSON key an entry converts to in the object branch: integer keys
/// render in decimal, string keys stay themselves. Entries under any other
/// key kind are dropped there, having no JSON key.
pub open spec fn spec_json_key(k: NativeKeyView) -> Option<Seq<char>> {
    match k {
        NativeKeyView::Int(i) => Some(spec_dec_i64(i)),
        NativeKeyView::Str(s) => Some(s),
        NativeKeyView::Other => None,
    }
}

/// The object a table's entries convert to, defined entry by entry.
pub open spec fn spec_obj_entries(entries: Seq<(NativeKeyView, NativeValueView)>) -> Seq<
    (Seq<char>, JsonView),
>
    decreases entries, 0int,
{
    if entries.len() == 0 {
        Seq::empty()
    } else {
        let rest = spec_obj_entries(entries.drop_last());
        match spec_json_key(entries.last().0) {
            Some(k) => rest.push((k, spec_native_to_json(entries.last().1))),
            None => rest,
        }
    }
}

/// The JSON value a native value converts to: scalars map directly, a
/// nonempty table with the array keys becomes an array of its values in
/// key order, any other table becomes an object.
pub open spec fn spec_native_to_json(v: NativeValueView) -> JsonView
    decreases v, 1int,
{
    match v {
        NativeValueView::Nil => JsonView::Null,
        NativeValueView::Bool(b) => JsonView::Bool(b),
        NativeValueView::Int(i) => JsonView::Num(spec_dec_i64(i)),
        NativeValueView::Num(s) => JsonView::Num(s),
        NativeValueView::Str(s) => JsonView::Str(s),
        NativeValueView::Table(entries) => {
            if spec_array_keys(entries) && entries.len() > 0 {
                JsonView::Arr(
                    Seq::new(
                        entries.len(),
                        |x: int|
                            if 0 <= x < entries.len() {
                                spec_native_to_json(entries[x].1)
                            } else {
                                JsonView::Null
                            },
                    ),
                )
            } else {
                JsonView::Obj(spec_obj_entries(entries))
            }
        }
    }
}

/// Converts a native value to JSON under the classification rule.
#[verifier::loop_isolation(false)]
#[verifier::rlimit(100)]
pub fn native_to_json(v: &NativeValue) -> (r: JsonValue)
    ensures
        r@ == spec_native_to_json(v@),
    decreases *v,
{
    match v {
        NativeValue::Nil => JsonValue::Null,
        NativeValue::Bool(b) => JsonValue::Bool(*b),
        NativeValue::Int(i) => JsonValue::Num(dec_string_i64(*i)),
        NativeValue::Num(s) => JsonValue::Num(s.clone()),
        NativeValue::Str(s) => JsonValue::Str(s.clone()),
        NativeValue::Table(entries) => classify_table(entries),
    }
}

/// Converts a native table to JSON: a nonempty table whose keys are
/// exactly 1, 2, …, n in order becomes the array of its values; any
/// non-contiguous or non-integer key makes it an object, whose integer
/// keys render in decimal and whose unkeyable entries are dropped.
#[verifier::loop_isolation(false)]
#[verifier::rlimit(100)]
pub fn classify_table(entries: &Vec<(NativeKey, NativeValue)>) -> (r: JsonValue)
    ensures
        r@ == spec_native_to_json(NativeValueView::Table(NativeValue::Table(*entries)@->Table_0)),
        spec_array_keys(NativeValue::Table(*entries)@->Table_0) && entries@.len() > 0 ==> r@ is Arr,
        !spec_array_keys(NativeValue::Table(*entries)@->Table_0) ==> r@ is Obj,
    decreases entries@,
{
    let ghost tv = NativeValue::Table(*entries)@->Table_0;
    // Decide the array rule.
    let mut is_array = true;
    let mut x: usize = 0;
    while x < entries.len()
        invariant
            x <= entries@.len(),
            is_array == (forall|y: int| 0 <= y < x ==> (#[trigger] tv[y]).0 == NativeKeyView::Int(
                y + 1,
            )),
        decreases entries@.len() - x,
    {
        let keep = match &entries[x].0 {
            NativeKey::Int(i) => {
                if x < usize::MAX && *i >= 1 && (*i as u64) == (x as u64) + 1 {
                    true
                } else {
                    false
                }
            }
            _ => false,
        };
        proof {
            assert(tv[x as int].0 == entries@[x as int].0@);
        }
        if !keep {
            is_array = false;
        }
        is_array = is_array && keep;
        x = x + 1;
    }
    if is_array && entries.len() > 0 {
        let mut items: Vec<JsonValue> = Vec::new();
        let mut t: usize = 0;
        while t < entries.len()
            invariant
                t <= entries@.len(),
                items@.len() == t,
                forall|y: int| 0 <= y < t ==> (#[trigger] items@[y])@ == spec_native_to_json(
                    tv[y].1,
                ),
            decreases entries@.len() - t,
        {
            items.push(native_to_json(&entries[t].1));
            proof {
                assert(tv[t as int].1 == entries@[t as int].1@);
            }
            t = t + 1;
        }
        let r = JsonValue::Arr(items);
        proof {
            assert(r@ matches JsonView::Arr(s) && spec_native_to_json(NativeValueView::Table(tv))
                matches JsonView::Arr(w) && s =~= w);
        }
        r
    } else {
        let mut obj: Vec<(String, JsonValue)> = Vec::new();
        let mut t: usize = 0;
        while t < entries.len()
            invariant
                t <= entries@.len(),
                spec_store_view(obj@) == spec_obj_entries(tv.subrange(0, t as int)),
            decreases entries@.len() - t,
        {
            let ghost before = spec_store_view(obj@);
            proof {
                assert(tv.subrange(0, t as int + 1).drop_last() =~= tv.subrange(0, t as int));
                assert(tv.subrange(0, t as int + 1).last() == tv[t as int]);
                assert(tv[t as int] == (entries@[t as int].0@, entries@[t as int].1@));
            }
            match &entries[t].0 {
                NativeKey::Int(i) => {
                    let key = dec_string_i64(*i);
                    let val = native_to_json(&entries[t].1);
                    obj.push((key, val));
                }
                NativeKey::Str(s) => {
                    let key = s.clone();
                    let val = native_to_json(&entries[t].1);
                    obj.push((key, val));
                }
                NativeKey::Other => {}
            }
            proof {
                assert(spec_store_view(obj@) =~= spec_obj_entries(
                    tv.subrange(0, t as int + 1),
                ));
            }
            t = t + 1;
        }
        proof {
            assert(tv.subrange(0, tv.len() as int) =~= tv);
        }
        let r = JsonValue::Obj(obj);
        proof {
            assert(r@ matches JsonView::Obj(s) && spec_native_to_json(NativeValueView::Table(tv))
                matches JsonView::Obj(w) && s =~= w);
        }
        r
    }
}

} // verus!

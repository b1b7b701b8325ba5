//! The JSON value model that step results are marshaled through. A value
//! is a plain tree: numbers keep their literal text, objects are ordered
//! key/value lists written exactly once per key by the producers in this
//! crate. The mathematical view of a value is the ghost tree `JsonView`.

use vstd::prelude::*;

verus! {

/// A JSON value. `Num` holds the number's literal text so that values
/// round-trip through rendering without any numeric re-encoding.
pub enum JsonValue {
    Null,
    Bool(bool),
    Num(String),
    Str(String),
    Arr(Vec<JsonValue>),
    Obj(Vec<(String, JsonValue)>),
}

/// The mathematical shape of a JSON value.
#[verifier::ext_equal]
pub enum JsonView {
    Null,
    Bool(bool),
    Num(Seq<char>),
    Str(Seq<char>),
    Arr(Seq<JsonView>),
    Obj(Seq<(Seq<char>, JsonView)>),
}

impl JsonValue {
    /// The view of a value: the same tree over sequences.
    pub open spec fn view(self) -> JsonView
        decreases self,
    {
        match self {
            JsonValue::Null => JsonView::Null,
            JsonValue::Bool(b) => JsonView::Bool(b),
            JsonValue::Num(s) => JsonView::Num(s@),
            JsonValue::Str(s) => JsonView::Str(s@),
            JsonValue::Arr(items) => JsonView::Arr(
                Seq::new(
                    items@.len(),
                    |i: int|
                        if 0 <= i < items@.len() {
                            items@[i].view()
                        } else {
                            JsonView::Null
                        },
                ),
            ),
            JsonValue::Obj(entries) => JsonView::Obj(
                Seq::new(
                    entries@.len(),
                    |i: int|
                        if 0 <= i < entries@.len() {
                            (entries@[i].0@, entries@[i].1.view())
                        } else {
                            (Seq::empty(), JsonView::Null)
                        },
                ),
            ),
        }
    }
}

impl View for JsonValue {
    type V = JsonView;

    open spec fn view(&self) -> JsonView {
        JsonValue::view(*self)
    }
}

/// A deep copy of a JSON value.
#[verifier::loop_isolation(false)]
pub fn json_clone(v: &JsonValue) -> (r: JsonValue)
    ensures
        r@ == v@,
    decreases *v,
{
    match v {
        JsonValue::Null => JsonValue::Null,
        JsonValue::Bool(b) => JsonValue::Bool(*b),
        JsonValue::Num(s) => JsonValue::Num(s.clone()),
        JsonValue::Str(s) => JsonValue::Str(s.clone()),
        JsonValue::Arr(items) => {
            let mut out: Vec<JsonValue> = Vec::new();
            let mut i: usize = 0;
            while i < items.len()
                invariant
                    i <= items@.len(),
                    out@.len() == i,
                    forall|j: int| 0 <= j < i ==> out@[j]@ == items@[j]@,
                decreases items@.len() - i,
            {
                out.push(json_clone(&items[i]));
                i = i + 1;
            }
            let r = JsonValue::Arr(out);
            assert(r@ matches JsonView::Arr(s) && v@ matches JsonView::Arr(t) && s =~= t);
            r
        }
        JsonValue::Obj(entries) => {
            let mut out: Vec<(String, JsonValue)> = Vec::new();
            let mut i: usize = 0;
            while i < entries.len()
                invariant
                    i <= entries@.len(),
                    out@.len() == i,
                    forall|j: int|
                        0 <= j < i ==> out@[j].0@ == entries@[j].0@ && out@[j].1@
                            == entries@[j].1@,
                decreases entries@.len() - i,
            {
                let pair = &entries[i];
                out.push((pair.0.clone(), json_clone(&pair.1)));
                i = i + 1;
            }
            let r = JsonValue::Obj(out);
            assert(r@ matches JsonView::Obj(s) && v@ matches JsonView::Obj(t) && s =~= t);
            r
        }
    }
}

/// Structural equality of two JSON values, decided at the view level.
#[verifier::loop_isolation(false)]
pub fn json_eq(a: &JsonValue, b: &JsonValue) -> (r: bool)
    ensures
        r == (a@ == b@),
    decreases *a,
{
    match (a, b) {
        (JsonValue::Null, JsonValue::Null) => true,
        (JsonValue::Bool(x), JsonValue::Bool(y)) => *x == *y,
        (JsonValue::Num(x), JsonValue::Num(y)) => *x == *y,
        (JsonValue::Str(x), JsonValue::Str(y)) => *x == *y,
        (JsonValue::Arr(xs), JsonValue::Arr(ys)) => {
            if xs.len() != ys.len() {
                assert(a@ != b@) by {
                    assert(a@ matches JsonView::Arr(s) && s.len() == xs@.len());
                    assert(b@ matches JsonView::Arr(s) && s.len() == ys@.len());
                }
                return false;
            }
            let mut i: usize = 0;
            while i < xs.len()
                invariant
                    i <= xs@.len(),
                    xs@.len() == ys@.len(),
                    a@ matches JsonView::Arr(s) && s == Seq::new(
                        xs@.len(),
                        |j: int|
                            if 0 <= j < xs@.len() {
                                xs@[j]@
                            } else {
                                JsonView::Null
                            },
                    ),
                    b@ matches JsonView::Arr(s) && s == Seq::new(
                        ys@.len(),
                        |j: int|
                            if 0 <= j < ys@.len() {
                                ys@[j]@
                            } else {
                                JsonView::Null
                            },
                    ),
                    forall|j: int| 0 <= j < i ==> xs@[j]@ == ys@[j]@,
                decreases xs@.len() - i,
            {
                if !json_eq(&xs[i], &ys[i]) {
                    proof {
                        assert(a@->Arr_0[i as int] == xs@[i as int]@);
                        assert(b@->Arr_0[i as int] == ys@[i as int]@);
                        assert(a@->Arr_0 != b@->Arr_0);
                    }
                    return false;
                }
                i = i + 1;
            }
            proof {
                assert(a@ matches JsonView::Arr(s) && b@ matches JsonView::Arr(t) && s =~= t);
            }
            true
        }
        (JsonValue::Obj(xs), JsonValue::Obj(ys)) => {
            if xs.len() != ys.len() {
                assert(a@ != b@) by {
                    assert(a@ matches JsonView::Obj(s) && s.len() == xs@.len());
                    assert(b@ matches JsonView::Obj(s) && s.len() == ys@.len());
                }
                return false;
            }
            let mut i: usize = 0;
            while i < xs.len()
                invariant
                    i <= xs@.len(),
                    xs@.len() == ys@.len(),
                    a@ matches JsonView::Obj(s) && s == Seq::new(
                        xs@.len(),
                        |j: int|
                            if 0 <= j < xs@.len() {
                                (xs@[j].0@, xs@[j].1@)
                            } else {
                                (Seq::<char>::empty(), JsonView::Null)
                            },
                    ),
                    b@ matches JsonView::Obj(s) && s == Seq::new(
                        ys@.len(),
                        |j: int|
                            if 0 <= j < ys@.len() {
                                (ys@[j].0@, ys@[j].1@)
                            } else {
                                (Seq::<char>::empty(), JsonView::Null)
                            },
                    ),
                    forall|j: int|
                        0 <= j < i ==> xs@[j].0@ == ys@[j].0@ && xs@[j].1@ == ys@[j].1@,
                decreases xs@.len() - i,
            {
                let xp = &xs[i];
                let yp = &ys[i];
                if !(xp.0 == yp.0) {
                    proof {
                        assert(a@->Obj_0[i as int] == (xs@[i as int].0@, xs@[i as int].1@));
                        assert(b@->Obj_0[i as int] == (ys@[i as int].0@, ys@[i as int].1@));
                        assert(a@->Obj_0 != b@->Obj_0);
                    }
                    return false;
                }
                if !json_eq(&xp.1, &yp.1) {
                    proof {
                        assert(a@->Obj_0[i as int] == (xs@[i as int].0@, xs@[i as int].1@));
                        assert(b@->Obj_0[i as int] == (ys@[i as int].0@, ys@[i as int].1@));
                        assert(a@->Obj_0 != b@->Obj_0);
                    }
                    return false;
                }
                i = i + 1;
            }
            proof {
                assert(a@ matches JsonView::Obj(s) && b@ matches JsonView::Obj(t) && s =~= t);
            }
            true
        }
        _ => {
            assert(a@ != b@);
            false
        }
    }
}

} // verus!

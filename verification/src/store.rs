//! The result store of one workflow run: step name to published JSON
//! output, written exactly once per step, and the input gathering that
//! hands a step exactly its dependencies' outputs.

use vstd::prelude::*;
use crate::json::{json_clone, JsonValue, JsonView};

verus! {

/// The mapping from step name to its published output.
pub struct ResultStore {
    pub entries: Vec<(String, JsonValue)>,
}

/// The store's view: name/value pairs in publication order.
pub open spec fn spec_store_view(entries: Seq<(String, JsonValue)>) -> Seq<(Seq<char>, JsonView)> {
    entries.map_values(|p: (String, JsonValue)| (p.0@, p.1@))
}

/// The value under a name: the first entry carrying it, if any.
pub open spec fn spec_store_get(s: Seq<(Seq<char>, JsonView)>, name: Seq<char>) -> Option<JsonView>
    decreases s.len(),
{
    if s.len() == 0 {
        None
    } else if s[0].0 == name {
        Some(s[0].1)
    } else {
        spec_store_get(s.drop_first(), name)
    }
}

/// The inputs a step receives: one entry per dependency already present
/// in the store, in dependency order, holding that dependency's output.
pub open spec fn spec_gathered(
    s: Seq<(Seq<char>, JsonView)>,
    deps: Seq<Seq<char>>,
) -> Seq<(Seq<char>, JsonView)>
    decreases deps.len(),
{
    if deps.len() == 0 {
        Seq::empty()
    } else {
        let rest = spec_gathered(s, deps.drop_last());
        match spec_store_get(s, deps.last()) {
            Some(v) => rest.push((deps.last(), v)),
            None => rest,
        }
    }
}

impl ResultStore {
    /// The store's contents as a view.
    pub open spec fn view(&self) -> Seq<(Seq<char>, JsonView)> {
        spec_store_view(self.entries@)
    }

    /// An empty store.
    pub fn new() -> (r: ResultStore)
        ensures
            r@ == Seq::<(Seq<char>, JsonView)>::empty(),
    {
        let r = ResultStore { entries: Vec::new() };
        proof {
            assert(r@ =~= Seq::<(Seq<char>, JsonView)>::empty());
        }
        r
    }

    /// Looks a step's output up by name.
    pub fn get<'a>(&'a self, name: &str) -> (r: Option<&'a JsonValue>)
        ensures
            match r {
                Some(v) => spec_store_get(self@, name@) == Some(v@),
                None => spec_store_get(self@, name@) is None,
            },
    {
        let mut i: usize = 0;
        assert(self@.skip(0) =~= self@);
        while i < self.entries.len()
            invariant
                i <= self.entries@.len(),
                spec_store_get(self@, name@) == spec_store_get(self@.skip(i as int), name@),
            decreases self.entries@.len() - i,
        {
            let ghost rest = self@.skip(i as int);
            proof {
                assert(rest[0] == (self.entries@[i as int].0@, self.entries@[i as int].1@));
                assert(rest.drop_first() =~= self@.skip(i as int + 1));
            }
            if crate::text::str_eq(self.entries[i].0.as_str(), name) {
                return Some(&self.entries[i].1);
            }
            i = i + 1;
        }
        assert(self@.skip(self.entries@.len() as int) =~= Seq::<(Seq<char>, JsonView)>::empty());
        None
    }

    /// Publishes a step's output. Each name is written exactly once per
    /// run, so the name must be absent.
    pub fn publish(&mut self, name: String, value: JsonValue)
        requires
            spec_store_get(old(self)@, name@) is None,
        ensures
            final(self)@ == old(self)@.push((name@, value@)),
    {
        let ghost before = self@;
        self.entries.push((name, value));
        proof {
            assert(self@ =~= before.push((self.entries@[self.entries@.len() - 1].0@, self.entries@[
                self.entries@.len() - 1].1@)));
        }
    }

    /// Gathers a step's inputs: its dependencies' published outputs, keyed
    /// by dependency name, and nothing else.
    pub fn gather_inputs(&self, deps: &Vec<String>) -> (r: Vec<(String, JsonValue)>)
        ensures
            spec_store_view(r@) == spec_gathered(self@, deps.deep_view()),
    {
        let mut r: Vec<(String, JsonValue)> = Vec::new();
        let mut i: usize = 0;
        while i < deps.len()
            invariant
                i <= deps@.len(),
                spec_store_view(r@) == spec_gathered(self@, deps.deep_view().subrange(0, i as int)),
            decreases deps@.len() - i,
        {
            let ghost prefix = deps.deep_view().subrange(0, i as int);
            proof {
                assert(deps.deep_view().subrange(0, i as int + 1).drop_last() =~= prefix);
                assert(deps.deep_view().subrange(0, i as int + 1).last() == deps@[i as int]@);
            }
            let ghost before = spec_store_view(r@);
            match self.get(deps[i].as_str()) {
                Some(v) => {
                    r.push((deps[i].clone(), json_clone(v)));
                    proof {
                        assert(spec_store_view(r@) =~= before.push((deps@[i as int]@, spec_store_get(
                            self@,
                            deps@[i as int]@,
                        )->0)));
                    }
                }
                None => {}
            }
            proof {
                assert(spec_store_view(r@) =~= spec_gathered(
                    self@,
                    deps.deep_view().subrange(0, i as int + 1),
                ));
            }
            i = i + 1;
        }
        assert(deps.deep_view().subrange(0, deps.deep_view().len() as int) =~= deps.deep_view());
        r
    }
}

/// A name the store answers for is the key of some entry.
pub proof fn lemma_store_get_entry(s: Seq<(Seq<char>, JsonView)>, name: Seq<char>)
    requires
        spec_store_get(s, name) is Some,
    ensures
        exists|e: int| 0 <= e < s.len() && (#[trigger] s[e]).0 == name,
    decreases s.len(),
{
    if s.len() > 0 {
        if s[0].0 == name {
            assert(s[0].0 == name);
        } else {
            lemma_store_get_entry(s.drop_first(), name);
            let e = choose|e: int|
                0 <= e < s.drop_first().len() && (#[trigger] s.drop_first()[e]).0 == name;
            assert(s[e + 1].0 == name);
        }
    }
}

/// Input propagation: what a step receives for a dependency name is
/// exactly what the store published under that name, and no key outside
/// the dependency list gets in.
pub proof fn lemma_input_propagation(
    s: Seq<(Seq<char>, JsonView)>,
    deps: Seq<Seq<char>>,
    name: Seq<char>,
)
    ensures
        forall|x: int|
            0 <= x < spec_gathered(s, deps).len() ==> (exists|d: int|
                0 <= d < deps.len() && deps[d] == (#[trigger] spec_gathered(s, deps)[x]).0)
                && spec_store_get(s, spec_gathered(s, deps)[x].0) == Some(
                spec_gathered(s, deps)[x].1,
            ),
    decreases deps.len(),
{
    if deps.len() > 0 {
        lemma_input_propagation(s, deps.drop_last(), name);
        let rest = spec_gathered(s, deps.drop_last());
        assert forall|x: int|
            0 <= x < spec_gathered(s, deps).len() implies (exists|d: int|
            0 <= d < deps.len() && deps[d] == (#[trigger] spec_gathered(s, deps)[x]).0)
            && spec_store_get(s, spec_gathered(s, deps)[x].0) == Some(
            spec_gathered(s, deps)[x].1,
        ) by {
            if x < rest.len() {
                assert(spec_gathered(s, deps)[x] == rest[x]);
                let d = choose|d: int| 0 <= d < deps.drop_last().len() && deps.drop_last()[d] == rest[x].0;
                assert(deps[d] == rest[x].0);
            } else {
                assert(spec_store_get(s, deps.last()) is Some);
                assert(spec_gathered(s, deps)[x] == (deps.last(), spec_store_get(
                    s,
                    deps.last(),
                )->0));
                assert(deps[deps.len() - 1] == spec_gathered(s, deps)[x].0);
            }
        }
    }
}

} // verus!

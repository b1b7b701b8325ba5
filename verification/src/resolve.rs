//! The graph resolver: validates dependency names, detects cycles, and
//! produces a topologically valid execution order.
//!
//! Feasibility is one notion for both outputs: the dependency names must
//! all resolve and the graph must admit a rank function (equivalently, it
//! has no cycle). Both resolvers succeed exactly on such step sets, and
//! each failure carries a witness: an unknown dependency name, or a step
//! that lies on a cycle.

use vstd::prelude::*;
use crate::step::{Step, StepView, spec_has_name, spec_unique_names, spec_deps_known};
use crate::text::concat_strs;

verus! {

/// The views of a sequence of steps.
pub open spec fn spec_views(steps: Seq<Step>) -> Seq<StepView> {
    steps.map_values(|s: Step| s@)
}

/// Step `i` depends on step `j`: some dependency of `i` is `j`'s name.
pub open spec fn spec_edge(sv: Seq<StepView>, i: int, j: int) -> bool {
    &&& 0 <= i < sv.len()
    &&& 0 <= j < sv.len()
    &&& exists|k: int| 0 <= k < sv[i].depends_on.len() && sv[i].depends_on[k] == sv[j].name
}

/// A rank assignment: dependencies rank strictly below their dependents.
pub open spec fn spec_is_rank(sv: Seq<StepView>, l: Seq<nat>) -> bool {
    &&& l.len() == sv.len()
    &&& forall|i: int, j: int| #[trigger] spec_edge(sv, i, j) ==> l[j] < l[i]
}

/// A step set is acyclic when some rank assignment exists.
pub open spec fn spec_acyclic(sv: Seq<StepView>) -> bool {
    exists|l: Seq<nat>| spec_is_rank(sv, l)
}

/// A dependency cycle: a nonempty index sequence where each step depends
/// on the next, wrapping around.
pub open spec fn spec_is_cycle(sv: Seq<StepView>, c: Seq<int>) -> bool {
    &&& c.len() > 0
    &&& forall|k: int|
        0 <= k < c.len() ==> spec_edge(sv, #[trigger] c[k], c[((k + 1) % (c.len() as int))])
}

/// Whether the step with the given name lies on some dependency cycle.
pub open spec fn spec_named_on_cycle(sv: Seq<StepView>, name: Seq<char>) -> bool {
    exists|c: Seq<int>, k: int|
        spec_is_cycle(sv, c) && 0 <= k < c.len() && sv[#[trigger] c[k]].name == name
}

/// Whether some step lists the given name among its dependencies.
pub open spec fn spec_dep_requested(sv: Seq<StepView>, name: Seq<char>) -> bool {
    exists|i: int, k: int|
        0 <= i < sv.len() && 0 <= k < sv[i].depends_on.len() && #[trigger] sv[i].depends_on[k]
            == name
}

/// Both resolvers accept exactly these step sets.
pub open spec fn spec_resolvable(sv: Seq<StepView>) -> bool {
    spec_deps_known(sv) && spec_acyclic(sv)
}

/// Dependency `k` of the step at position `i` names some earlier step.
pub open spec fn spec_dep_earlier(out: Seq<StepView>, i: int, k: int) -> bool {
    exists|j: int| 0 <= j < i && (#[trigger] out[j]).name == out[i].depends_on[k]
}

/// An output order is topological: every dependency of a step is the name
/// of some earlier step.
pub open spec fn spec_is_topo_order(out: Seq<StepView>) -> bool {
    forall|i: int, k: int|
        0 <= i < out.len() && 0 <= k < out[i].depends_on.len() ==> #[trigger] spec_dep_earlier(
            out,
            i,
            k,
        )
}

/// Whether the view appears somewhere in the sequence.
pub open spec fn spec_appears(xs: Seq<StepView>, v: StepView) -> bool {
    exists|j: int| 0 <= j < xs.len() && #[trigger] xs[j] == v
}

/// The two sequences hold the same step views, in some order.
pub open spec fn spec_perm_of(a: Seq<StepView>, b: Seq<StepView>) -> bool {
    &&& a.len() == b.len()
    &&& forall|i: int| 0 <= i < a.len() ==> #[trigger] spec_appears(b, a[i])
    &&& forall|j: int| 0 <= j < b.len() ==> #[trigger] spec_appears(a, b[j])
}

/// How a resolution fails.
#[derive(Debug)]
pub enum ResolveError {
    /// A `depends_on` entry with no matching step; holds that entry.
    UnknownDependency(String),
    /// A dependency cycle; holds the name of a step on it.
    Cycle(String),
}

impl ResolveError {
    /// The failure as readable text.
    pub fn message(&self) -> (r: String)
        ensures
            self matches ResolveError::UnknownDependency(n) ==> r@ == "Step not found: "@ + n@,
            self matches ResolveError::Cycle(n) ==> r@
                == "Circular dependency detected involving step '"@ + n@ + "'"@,
    {
        match self {
            ResolveError::UnknownDependency(n) => concat_strs("Step not found: ", n.as_str()),
            ResolveError::Cycle(n) => {
                let head = concat_strs(
                    "Circular dependency detected involving step '",
                    n.as_str(),
                );
                concat_strs(head.as_str(), "'")
            }
        }
    }
}

/// No rank assignment tolerates a cycle: following the cycle, ranks would
/// descend forever.
proof fn lemma_cycle_breaks_rank(sv: Seq<StepView>, c: Seq<int>, l: Seq<nat>, m: nat)
    requires
        spec_is_cycle(sv, c),
        spec_is_rank(sv, l),
    ensures
        l[c[((m as int) % (c.len() as int))]] + m <= l[c[0]],
    decreases m,
{
    if m == 0 {
        assert(0int % (c.len() as int) == 0);
    } else {
        lemma_cycle_breaks_rank(sv, c, l, (m - 1) as nat);
        let len = c.len() as int;
        let prev = ((m - 1) as int) % len;
        let cur = (m as int) % len;
        assert(cur == (prev + 1) % len) by (nonlinear_arith)
            requires
                len > 0,
                prev == ((m - 1) as int) % len,
                cur == (m as int) % len,
                m >= 1,
        ;
        assert(0 <= prev < len && 0 <= cur < len) by (nonlinear_arith)
            requires
                len > 0,
                prev == ((m - 1) as int) % len,
                cur == (m as int) % len,
        ;
        assert(spec_edge(sv, c[prev], c[cur]));
        assert(l[c[cur]] < l[c[prev]] + 1);
    }
}

/// A step set with a cycle admits no rank assignment.
pub proof fn lemma_cycle_not_acyclic(sv: Seq<StepView>, c: Seq<int>)
    requires
        spec_is_cycle(sv, c),
    ensures
        !spec_acyclic(sv),
{
    assert forall|l: Seq<nat>| !spec_is_rank(sv, l) by {
        if spec_is_rank(sv, l) {
            let m = (l[c[0]] + 1) as nat;
            lemma_cycle_breaks_rank(sv, c, l, m);
            let len = c.len() as int;
            assert(0 <= (m as int) % len < len) by (nonlinear_arith)
                requires
                    len > 0,
            ;
        }
    }
}

/// A dependency-index table: row `i` resolves each dependency name of step
/// `i` to the index of the step carrying that name.
pub open spec fn spec_idx_ok(sv: Seq<StepView>, d: Seq<Seq<usize>>) -> bool {
    &&& d.len() == sv.len()
    &&& forall|i: int| 0 <= i < d.len() ==> (#[trigger] d[i]).len() == sv[i].depends_on.len()
    &&& forall|i: int, k: int|
        0 <= i < d.len() && 0 <= k < d[i].len() ==> (#[trigger] d[i][k]) < sv.len() && sv[d[i][k] as int].name
            == sv[i].depends_on[k]
}

/// With unique names, the index table captures the edge relation exactly.
proof fn lemma_edge_iff_idx(sv: Seq<StepView>, d: Seq<Seq<usize>>, i: int, j: int)
    requires
        spec_unique_names(sv),
        spec_idx_ok(sv, d),
        0 <= i < sv.len(),
        0 <= j < sv.len(),
    ensures
        spec_edge(sv, i, j) <==> exists|k: int| 0 <= k < d[i].len() && d[i][k] == j,
{
    if spec_edge(sv, i, j) {
        let k = choose|k: int|
            0 <= k < sv[i].depends_on.len() && sv[i].depends_on[k] == sv[j].name;
        assert(sv[d[i][k] as int].name == sv[j].name);
        if d[i][k] != j {
            if d[i][k] < j {
                assert(sv[d[i][k] as int].name != sv[j].name);
            } else {
                assert(sv[j].name != sv[d[i][k] as int].name);
            }
        }
        assert(d[i][k] == j);
    }
    if exists|k: int| 0 <= k < d[i].len() && d[i][k] == j {
        let k = choose|k: int| 0 <= k < d[i].len() && d[i][k] == j;
        assert(sv[i].depends_on[k] == sv[j].name);
    }
}

/// Finds the step carrying the given name.
fn name_index(steps: &Vec<Step>, name: &String) -> (r: Option<usize>)
    ensures
        match r {
            Some(i) => i < steps@.len() && spec_views(steps@)[i as int].name == name@,
            None => !spec_has_name(spec_views(steps@), name@),
        },
{
    let mut i: usize = 0;
    while i < steps.len()
        invariant
            i <= steps@.len(),
            forall|j: int| 0 <= j < i ==> spec_views(steps@)[j].name != name@,
        decreases steps@.len() - i,
    {
        if steps[i].name == *name {
            return Some(i);
        }
        i = i + 1;
    }
    None
}

/// Resolves every dependency name to a step index, or reports the first
/// name with no matching step.
fn build_dep_indices(steps: &Vec<Step>) -> (r: Result<Vec<Vec<usize>>, ResolveError>)
    ensures
        r matches Ok(d) ==> spec_idx_ok(spec_views(steps@), d.deep_view()),
        r is Ok <==> spec_deps_known(spec_views(steps@)),
        r matches Err(e) ==> e matches ResolveError::UnknownDependency(nm)
            && !spec_has_name(spec_views(steps@), nm@) && spec_dep_requested(
            spec_views(steps@),
            nm@,
        ),
{
    let ghost sv = spec_views(steps@);
    let mut d: Vec<Vec<usize>> = Vec::new();
    let mut i: usize = 0;
    while i < steps.len()
        invariant
            i <= steps@.len(),
            sv == spec_views(steps@),
            d.deep_view().len() == i,
            forall|a: int| 0 <= a < i ==> (#[trigger] d.deep_view()[a]).len()
                == sv[a].depends_on.len(),
            forall|a: int, k: int|
                0 <= a < i && 0 <= k < d.deep_view()[a].len() ==> (#[trigger] d.deep_view()[a][k])
                    < sv.len() && sv[d.deep_view()[a][k] as int].name == sv[a].depends_on[k],
        decreases steps@.len() - i,
    {
        let deps = &steps[i].depends_on;
        let mut row: Vec<usize> = Vec::new();
        let mut k: usize = 0;
        while k < deps.len()
            invariant
                k <= deps@.len(),
                i < steps@.len(),
                sv == spec_views(steps@),
                deps@.len() == sv[i as int].depends_on.len(),
                forall|t: int| 0 <= t < deps@.len() ==> deps@[t]@ == sv[i as int].depends_on[t],
                row@.len() == k,
                forall|t: int| 0 <= t < k ==> (#[trigger] row@[t]) < sv.len() && sv[row@[t] as int].name
                    == sv[i as int].depends_on[t],
            decreases deps@.len() - k,
        {
            match name_index(steps, &deps[k]) {
                Some(j) => {
                    row.push(j);
                }
                None => {
                    assert(!spec_has_name(sv, sv[i as int].depends_on[k as int]));
                    assert(!spec_deps_known(sv));
                    assert(spec_dep_requested(sv, sv[i as int].depends_on[k as int]));
                    return Err(ResolveError::UnknownDependency(deps[k].clone()));
                }
            }
            k = k + 1;
        }
        let ghost prev_dv = d.deep_view();
        d.push(row);
        proof {
            assert(d.deep_view() =~= prev_dv.push(d@[i as int].deep_view()));
            assert(d.deep_view()[i as int].len() == sv[i as int].depends_on.len());
            assert(forall|t: int|
                0 <= t < d.deep_view()[i as int].len() ==> (#[trigger] d.deep_view()[i as int][t])
                    < sv.len() && sv[d.deep_view()[i as int][t] as int].name
                    == sv[i as int].depends_on[t]);
        }
        i = i + 1;
    }
    proof {
        assert(spec_idx_ok(sv, d.deep_view()));
        assert(spec_deps_known(sv)) by {
            assert forall|a: int, k: int|
                0 <= a < sv.len() && 0 <= k < sv[a].depends_on.len() implies spec_has_name(
                sv,
                sv[a].depends_on[k],
            ) by {
                let j = d.deep_view()[a][k] as int;
                assert(sv[j].name == sv[a].depends_on[k]);
            }
        }
    }
    Ok(d)
}

/// How many entries of a boolean sequence are set.
pub open spec fn spec_count_true(s: Seq<bool>) -> nat
    decreases s.len(),
{
    if s.len() == 0 {
        0
    } else {
        spec_count_true(s.drop_last()) + (if s.last() {
            1nat
        } else {
            0nat
        })
    }
}

/// Setting one unset entry raises the count by one.
proof fn lemma_count_true_update(s: Seq<bool>, i: int)
    requires
        0 <= i < s.len(),
        !s[i],
    ensures
        spec_count_true(s.update(i, true)) == spec_count_true(s) + 1,
    decreases s.len(),
{
    if i == s.len() - 1 {
        assert(s.update(i, true).drop_last() =~= s.drop_last());
    } else {
        assert(s.update(i, true).drop_last() =~= s.drop_last().update(i, true));
        lemma_count_true_update(s.drop_last(), i);
    }
}

/// The count never exceeds the length; it reaches the length exactly when
/// every entry is set.
proof fn lemma_count_true_full(s: Seq<bool>)
    ensures
        spec_count_true(s) <= s.len(),
        spec_count_true(s) == s.len() <==> forall|i: int| 0 <= i < s.len() ==> s[i],
    decreases s.len(),
{
    if s.len() > 0 {
        lemma_count_true_full(s.drop_last());
        if spec_count_true(s) == s.len() {
            assert forall|i: int| 0 <= i < s.len() implies s[i] by {
                if i < s.len() - 1 {
                    assert(s.drop_last()[i] == s[i]);
                }
            }
        }
        if forall|i: int| 0 <= i < s.len() ==> s[i] {
            assert forall|i: int| 0 <= i < s.drop_last().len() implies s.drop_last()[i] by {
                assert(s.drop_last()[i] == s[i]);
            }
            assert(s.last());
        }
    }
}

/// A vector of `n` unset flags.
fn false_flags(n: usize) -> (r: Vec<bool>)
    ensures
        r@.len() == n,
        forall|i: int| 0 <= i < n ==> !r@[i],
        spec_count_true(r@) == 0,
{
    let mut r: Vec<bool> = Vec::new();
    let mut i: usize = 0;
    while i < n
        invariant
            i <= n,
            r@.len() == i,
            forall|j: int| 0 <= j < i ==> !r@[j],
            spec_count_true(r@) == 0,
        decreases n - i,
    {
        let ghost before = r@;
        r.push(false);
        assert(r@.drop_last() =~= before);
        i = i + 1;
    }
    r
}

/// Whether every listed dependency index is placed.
fn deps_all_placed(row: &Vec<usize>, placed: &Vec<bool>) -> (r: bool)
    requires
        forall|k: int| 0 <= k < row@.len() ==> (#[trigger] row@[k]) < placed@.len(),
    ensures
        r == forall|k: int| 0 <= k < row@.len() ==> placed@[#[trigger] row@[k] as int],
{
    let mut k: usize = 0;
    while k < row.len()
        invariant
            k <= row@.len(),
            forall|t: int| 0 <= t < row@.len() ==> (#[trigger] row@[t]) < placed@.len(),
            forall|t: int| 0 <= t < k ==> placed@[#[trigger] row@[t] as int],
        decreases row@.len() - k,
    {
        if !placed[row[k]] {
            return false;
        }
        k = k + 1;
    }
    true
}

/// A dependency walk that returns to an earlier step yields a cycle
/// through that step.
proof fn lemma_extract_cycle(sv: Seq<StepView>, path: Seq<usize>, p: int, cur: usize)
    requires
        0 <= p < path.len(),
        path[p] == cur,
        forall|a: int|
            0 <= a && a + 1 < path.len() ==> spec_edge(sv, #[trigger] path[a] as int, path[a + 1] as int),
        spec_edge(sv, path[path.len() - 1] as int, cur as int),
    ensures
        spec_named_on_cycle(sv, sv[cur as int].name),
{
    let sub = path.subrange(p, path.len() as int);
    let c = Seq::new(sub.len(), |a: int| sub[a] as int);
    assert(c.len() > 0);
    assert forall|k: int| 0 <= k < c.len() implies spec_edge(
        sv,
        #[trigger] c[k],
        c[((k + 1) % (c.len() as int))],
    ) by {
        if k + 1 < c.len() {
            assert((k + 1) % (c.len() as int) == k + 1) by (nonlinear_arith)
                requires
                    0 <= k + 1 < c.len(),
            ;
            assert(c[k] == path[p + k] as int);
            assert(c[k + 1] == path[p + k + 1] as int);
            assert(spec_edge(sv, path[p + k] as int, path[p + k + 1] as int));
        } else {
            assert((k + 1) % (c.len() as int) == 0) by (nonlinear_arith)
                requires
                    k + 1 == c.len() && c.len() > 0,
            ;
            assert(c[k] == path[path.len() - 1] as int);
            assert(c[0] == path[p] as int);
            assert(spec_edge(sv, path[path.len() - 1] as int, cur as int));
        }
    }
    assert(spec_is_cycle(sv, c));
    assert(sv[c[0]].name == sv[cur as int].name);
}

/// Walks unplaced dependencies until a step repeats; that step lies on a
/// cycle. Requires that every unplaced step has an unplaced dependency.
#[verifier::rlimit(100)]
fn find_cycle_member(
    steps: &Vec<Step>,
    deps_idx: &Vec<Vec<usize>>,
    placed: &Vec<bool>,
    start: usize,
) -> (r: usize)
    requires
        spec_idx_ok(spec_views(steps@), deps_idx.deep_view()),
        placed@.len() == steps@.len(),
        start < steps@.len(),
        !placed@[start as int],
        forall|i: int|
            0 <= i < steps@.len() && !placed@[i] ==> exists|k: int|
                0 <= k < deps_idx.deep_view()[i].len() && !placed@[#[trigger] deps_idx.deep_view()[i][k] as int],
    ensures
        r < steps@.len(),
        spec_named_on_cycle(spec_views(steps@), spec_views(steps@)[r as int].name),
{
    let ghost sv = spec_views(steps@);
    let ghost dv = deps_idx.deep_view();
    let n = steps.len();
    let mut visited = false_flags(n);
    let mut path: Vec<usize> = Vec::new();
    let mut cur = start;
    loop
        invariant
            sv == spec_views(steps@),
            dv == deps_idx.deep_view(),
            spec_idx_ok(sv, dv),
            placed@.len() == n,
            n == sv.len(),
            visited@.len() == n,
            cur < n,
            !placed@[cur as int],
            forall|i: int|
                0 <= i < n && !placed@[i] ==> exists|k: int|
                    0 <= k < dv[i].len() && !placed@[#[trigger] dv[i][k] as int],
            forall|a: int| 0 <= a < path@.len() ==> (#[trigger] path@[a]) < n && !placed@[path@[a] as int],
            forall|a: int| 0 <= a < path@.len() ==> visited@[#[trigger] path@[a] as int],
            forall|i: int|
                0 <= i < n && visited@[i] ==> exists|a: int|
                    0 <= a < path@.len() && path@[a] == i,
            forall|a: int|
                0 <= a && a + 1 < path@.len() ==> spec_edge(sv, #[trigger] path@[a] as int, path@[a + 1] as int),
            path@.len() > 0 ==> spec_edge(sv, path@[path@.len() - 1] as int, cur as int),
            spec_count_true(visited@) <= path@.len(),
        decreases n - spec_count_true(visited@),
    {
        if visited[cur] {
            // The walk closed: the path from the first occurrence of `cur`
            // to its end is a dependency cycle through `cur`.
            let mut p: usize = 0;
            while p < path.len()
                invariant
                    p <= path@.len(),
                    cur < n,
                    n == sv.len(),
                    sv == spec_views(steps@),
                    forall|a: int| 0 <= a < p ==> path@[a] != cur,
                    exists|a: int| 0 <= a < path@.len() && path@[a] == cur,
                    forall|a: int|
                        0 <= a && a + 1 < path@.len() ==> spec_edge(
                            sv,
                            #[trigger] path@[a] as int,
                            path@[a + 1] as int,
                        ),
                    path@.len() > 0 ==> spec_edge(sv, path@[path@.len() - 1] as int, cur as int),
                decreases path@.len() - p,
            {
                if path[p] == cur {
                    proof {
                        lemma_extract_cycle(sv, path@, p as int, cur);
                    }
                    return cur;
                }
                p = p + 1;
            }
            // Unreachable: a visited step always sits on the path.
            proof {
                let a = choose|a: int| 0 <= a < path@.len() && path@[a] == cur;
                assert(false);
            }
            return cur;
        }
        let ghost visited_before = visited@;
        let ghost path_before = path@;
        visited.set(cur, true);
        proof {
            lemma_count_true_update(visited_before, cur as int);
            lemma_count_true_full(visited@);
        }
        path.push(cur);
        proof {
            assert(path@ == path_before.push(cur));
            assert forall|a: int| 0 <= a && a + 1 < path@.len() implies spec_edge(
                sv,
                #[trigger] path@[a] as int,
                path@[a + 1] as int,
            ) by {
                if a + 1 < path_before.len() {
                    assert(path_before.push(cur)[a] == path_before[a]);
                    assert(path_before.push(cur)[a + 1] == path_before[a + 1]);
                    assert(path@[a] == path_before[a] && path@[a + 1] == path_before[a + 1]);
                } else {
                    assert(path_before.push(cur)[a] == path_before[a]);
                    assert(path@[a] == path_before[path_before.len() - 1]);
                    assert(path_before.push(cur)[a + 1] == cur);
                    assert(path@[a + 1] == cur);
                }
            }
            assert forall|i: int| 0 <= i < n && visited@[i] implies exists|a: int|
                0 <= a < path@.len() && path@[a] == i by {
                if i == cur as int {
                    assert(path_before.push(cur)[path@.len() - 1] == cur);
                    assert(path@[path@.len() - 1] == cur);
                } else {
                    assert(visited_before[i]);
                    let a = choose|a: int| 0 <= a < path_before.len() && path_before[a] == i;
                    assert(path_before.push(cur)[a] == path_before[a]);
                    assert(path@[a] == i);
                }
            }
        }
        // Follow some unplaced dependency; one exists.
        let row = &deps_idx[cur];
        proof {
            assert(dv[cur as int] =~= row@);
        }
        let mut k: usize = 0;
        let mut next: usize = 0;
        let mut found = false;
        while k < row.len()
            invariant
                k <= row@.len(),
                cur < n,
                n == sv.len(),
                sv == spec_views(steps@),
                dv == deps_idx.deep_view(),
                spec_idx_ok(sv, dv),
                placed@.len() == n,
                dv[cur as int] == row@,
                found ==> next < n && !placed@[next as int] && spec_edge(
                    sv,
                    cur as int,
                    next as int,
                ),
                !found ==> forall|t: int| 0 <= t < k ==> placed@[#[trigger] dv[cur as int][t] as int],
            decreases row@.len() - k,
        {
            if !found {
                let j = row[k];
                proof {
                    assert(dv[cur as int][k as int] == row@[k as int]);
                }
                if !placed[j] {
                    next = j;
                    found = true;
                    proof {
                        assert(sv[j as int].name == sv[cur as int].depends_on[k as int]);
                        assert(spec_edge(sv, cur as int, j as int));
                    }
                }
            }
            k = k + 1;
        }
        proof {
            if !found {
                let kk = choose|kk: int|
                    0 <= kk < dv[cur as int].len() && !placed@[dv[cur as int][kk] as int];
                assert(placed@[dv[cur as int][kk] as int]);
                assert(false);
            }
        }
        cur = next;
    }
}

/// Dependency `k` of the step at position `a` of the order was placed at
/// an earlier position.
pub open spec fn spec_dep_placed_before(dv: Seq<Seq<usize>>, order: Seq<int>, a: int, k: int) -> bool {
    exists|b: int| 0 <= b < a && #[trigger] order[b] == dv[order[a]][k] as int
}

/// Whether `i` occurs in the order.
pub open spec fn spec_in_order(order: Seq<int>, i: int) -> bool {
    exists|a: int| 0 <= a < order.len() && order[a] == i
}

/// The position of `i` in an order.
pub open spec fn spec_pos_of(order: Seq<int>, i: int) -> int {
    choose|a: int| 0 <= a < order.len() && order[a] == i
}

/// A complete placement order whose dependencies always come earlier gives
/// a rank assignment: the graph is acyclic.
proof fn lemma_order_gives_rank(sv: Seq<StepView>, dv: Seq<Seq<usize>>, order: Seq<int>)
    requires
        spec_unique_names(sv),
        spec_idx_ok(sv, dv),
        order.len() == sv.len(),
        forall|a: int| 0 <= a < order.len() ==> 0 <= #[trigger] order[a] < sv.len(),
        forall|a: int, b: int| 0 <= a < b < order.len() ==> order[a] != order[b],
        forall|i: int| 0 <= i < sv.len() ==> #[trigger] spec_in_order(order, i),
        forall|a: int, k: int|
            0 <= a < order.len() && 0 <= k < dv[order[a]].len() ==> #[trigger] spec_dep_placed_before(
                dv,
                order,
                a,
                k,
            ),
    ensures
        spec_acyclic(sv),
{
    let l = Seq::new(sv.len(), |i: int| spec_pos_of(order, i) as nat);
    assert forall|i: int, j: int| #[trigger] spec_edge(sv, i, j) implies l[j] < l[i] by {
        lemma_edge_iff_idx(sv, dv, i, j);
        let k = choose|k: int| 0 <= k < dv[i].len() && dv[i][k] == j;
        assert(spec_in_order(order, i) && spec_in_order(order, j));
        let a = spec_pos_of(order, i);
        assert(0 <= a < order.len() && order[a] == i);
        assert(spec_dep_placed_before(dv, order, a, k));
        let b = choose|b: int| 0 <= b < a && order[b] == dv[order[a]][k] as int;
        let bj = spec_pos_of(order, j);
        assert(0 <= bj < order.len() && order[bj] == j);
        if b < bj {
            assert(order[b] != order[bj]);
        } else if bj < b {
            assert(order[bj] != order[b]);
        }
        assert(bj == b);
        assert(l[j] == bj as nat && l[i] == a as nat);
    }
    assert(spec_is_rank(sv, l));
}

/// Finds an unplaced index; the count says one exists.
fn first_unplaced(placed: &Vec<bool>) -> (r: usize)
    requires
        spec_count_true(placed@) < placed@.len(),
    ensures
        r < placed@.len(),
        !placed@[r as int],
{
    let mut i: usize = 0;
    while i < placed.len()
        invariant
            i <= placed@.len(),
            forall|j: int| 0 <= j < i ==> placed@[j],
        decreases placed@.len() - i,
    {
        if !placed[i] {
            return i;
        }
        i = i + 1;
    }
    proof {
        lemma_count_true_full(placed@);
    }
    0
}

/// A complete placement order reproduces exactly the input steps.
proof fn lemma_order_gives_perm(sv: Seq<StepView>, order: Seq<int>, out: Seq<StepView>)
    requires
        order.len() == sv.len(),
        out.len() == order.len(),
        forall|a: int| 0 <= a < order.len() ==> 0 <= #[trigger] order[a] < sv.len(),
        forall|i: int| 0 <= i < sv.len() ==> #[trigger] spec_in_order(order, i),
        forall|a: int| 0 <= a < order.len() ==> #[trigger] out[a] == sv[order[a]],
    ensures
        spec_perm_of(out, sv),
{
    assert forall|a: int| 0 <= a < out.len() implies #[trigger] spec_appears(sv, out[a]) by {
        assert(0 <= order[a] < sv.len() && sv[order[a]] == out[a]);
    }
    assert forall|j: int| 0 <= j < sv.len() implies #[trigger] spec_appears(out, sv[j]) by {
        assert(spec_in_order(order, j));
        let a = choose|a: int| 0 <= a < order.len() && order[a] == j;
        assert(0 <= a < out.len() && out[a] == sv[j]);
    }
}

/// A placement order whose dependencies always come earlier reads back as
/// a topological order.
proof fn lemma_order_gives_topo(
    sv: Seq<StepView>,
    dv: Seq<Seq<usize>>,
    order: Seq<int>,
    out: Seq<StepView>,
)
    requires
        spec_idx_ok(sv, dv),
        out.len() == order.len(),
        forall|a: int| 0 <= a < order.len() ==> 0 <= #[trigger] order[a] < sv.len(),
        forall|a: int| 0 <= a < order.len() ==> #[trigger] out[a] == sv[order[a]],
        forall|a: int, k: int|
            0 <= a < order.len() && 0 <= k < dv[order[a]].len()
                ==> #[trigger] spec_dep_placed_before(dv, order, a, k),
    ensures
        spec_is_topo_order(out),
{
    assert forall|a: int, k: int|
        0 <= a < out.len() && 0 <= k < out[a].depends_on.len() implies #[trigger] spec_dep_earlier(
        out,
        a,
        k,
    ) by {
        assert(out[a] == sv[order[a]]);
        assert(spec_dep_placed_before(dv, order, a, k));
        let b = choose|b: int| 0 <= b < a && order[b] == dv[order[a]][k] as int;
        assert(out[b] == sv[order[b]]);
        assert(sv[dv[order[a]][k] as int].name == sv[order[a]].depends_on[k]);
        assert(0 <= b < a && out[b].name == out[a].depends_on[k]);
    }
}

/// Orders the steps so that every dependency precedes its dependents.
/// Repeatedly places the steps whose dependencies are all placed; a full
/// pass that places nothing means the remaining steps hold a cycle.
#[verifier::rlimit(100)]
pub fn sort_steps_by_dependencies(steps: Vec<Step>) -> (r: Result<Vec<Step>, ResolveError>)
    requires
        spec_unique_names(spec_views(steps@)),
    ensures
        r is Ok <==> spec_resolvable(spec_views(steps@)),
        r matches Ok(out) ==> spec_perm_of(spec_views(out@), spec_views(steps@))
            && spec_is_topo_order(spec_views(out@)),
        r matches Err(e) ==> (match e {
            ResolveError::UnknownDependency(nm) => !spec_deps_known(spec_views(steps@))
                && !spec_has_name(spec_views(steps@), nm@) && spec_dep_requested(
                spec_views(steps@),
                nm@,
            ),
            ResolveError::Cycle(nm) => spec_deps_known(spec_views(steps@)) && spec_named_on_cycle(
                spec_views(steps@),
                nm@,
            ),
        }),
{
    let ghost sv = spec_views(steps@);
    let n = steps.len();
    let deps_idx = match build_dep_indices(&steps) {
        Ok(d) => d,
        Err(e) => {
            return Err(e);
        }
    };
    let ghost dv = deps_idx.deep_view();
    let mut placed = false_flags(n);
    let mut sorted: Vec<Step> = Vec::new();
    let ghost mut order: Seq<int> = Seq::empty();
    while sorted.len() < n
        invariant
            sv == spec_views(steps@),
            dv == deps_idx.deep_view(),
            spec_idx_ok(sv, dv),
            spec_unique_names(sv),
            spec_deps_known(sv),
            n == sv.len(),
            placed@.len() == n,
            order.len() == sorted@.len(),
            spec_count_true(placed@) == order.len(),
            forall|a: int| 0 <= a < order.len() ==> 0 <= #[trigger] order[a] < n
                && placed@[order[a]],
            forall|a: int, b: int| 0 <= a < b < order.len() ==> order[a] != order[b],
            forall|i: int|
                0 <= i < n && placed@[i] ==> exists|a: int| 0 <= a < order.len() && order[a] == i,
            forall|a: int|
                0 <= a < order.len() ==> #[trigger] spec_views(sorted@)[a] == sv[order[a]],
            order.len() <= n,
            forall|a: int, k: int|
                0 <= a < order.len() && 0 <= k < dv[order[a]].len()
                    ==> #[trigger] spec_dep_placed_before(dv, order, a, k),
        decreases n - sorted@.len(),
    {
        let ghost placed_entry = placed@;
        let ghost len_entry = sorted@.len();
        let mut progress = false;
        let mut i: usize = 0;
        while i < n
            invariant
                sv == spec_views(steps@),
                dv == deps_idx.deep_view(),
                spec_idx_ok(sv, dv),
                spec_unique_names(sv),
                spec_deps_known(sv),
                n == sv.len(),
                placed@.len() == n,
                i <= n,
                order.len() == sorted@.len(),
                spec_count_true(placed@) == order.len(),
                forall|a: int| 0 <= a < order.len() ==> 0 <= #[trigger] order[a] < n
                    && placed@[order[a]],
                forall|a: int, b: int| 0 <= a < b < order.len() ==> order[a] != order[b],
                forall|j: int|
                    0 <= j < n && placed@[j] ==> exists|a: int|
                        0 <= a < order.len() && order[a] == j,
                forall|a: int|
                    0 <= a < order.len() ==> #[trigger] spec_views(sorted@)[a] == sv[order[a]],
                order.len() <= n,
                forall|a: int, k: int|
                    0 <= a < order.len() && 0 <= k < dv[order[a]].len()
                        ==> #[trigger] spec_dep_placed_before(dv, order, a, k),
                progress ==> sorted@.len() > len_entry,
                !progress ==> sorted@.len() == len_entry,
                !progress ==> placed@ == placed_entry,
                !progress ==> forall|t: int|
                    0 <= t < i && !placed@[t] ==> exists|k: int|
                        0 <= k < dv[t].len() && !placed@[#[trigger] dv[t][k] as int],
                progress ==> sorted@.len() > 0,
            decreases n - i,
        {
            proof {
                assert(dv[i as int] =~= deps_idx@[i as int]@);
            }
            if !placed[i] && deps_all_placed(&deps_idx[i], &placed) {
                let ghost placed_before = placed@;
                let ghost sorted_before = sorted@;
                let ghost order_before = order;
                sorted.push(steps[i].duplicate());
                placed.set(i, true);
                proof {
                    lemma_count_true_update(placed_before, i as int);
                    lemma_count_true_full(placed@);
                    order = order.push(i as int);
                    assert forall|x: int| 0 <= x < order_before.len() implies #[trigger] order[x]
                        == order_before[x] by {
                        assert(order_before.push(i as int)[x] == order_before[x]);
                    }
                    assert(order[order.len() - 1] == i as int);
                    assert(spec_views(sorted@) =~= spec_views(sorted_before).push(
                        sorted@[sorted@.len() - 1]@,
                    ));
                    assert(spec_views(sorted@)[order.len() - 1] == sv[i as int]);
                    assert forall|j: int| 0 <= j < n && placed@[j] implies exists|a: int|
                        0 <= a < order.len() && order[a] == j by {
                        if j == i as int {
                            assert(order[order.len() - 1] == j);
                        } else {
                            assert(placed_before[j]);
                            let a = choose|a: int|
                                0 <= a < order_before.len() && order_before[a] == j;
                            assert(order[a] == j);
                        }
                    }
                    assert forall|a: int, k: int|
                        0 <= a < order.len() && 0 <= k < dv[order[a]].len()
                        implies #[trigger] spec_dep_placed_before(dv, order, a, k) by {
                        if a < order.len() - 1 {
                            assert(order[a] == order_before[a]);
                            assert(spec_dep_placed_before(dv, order_before, a, k));
                            let b = choose|b: int|
                                0 <= b < a && order_before[b] == dv[order_before[a]][k] as int;
                            assert(order[b] == dv[order[a]][k] as int);
                        } else {
                            assert(order[a] == i as int);
                            assert(placed_before[dv[i as int][k] as int]);
                            let b = choose|b: int|
                                0 <= b < order_before.len() && order_before[b] == dv[i as int][k] as int;
                            assert(order[b] == dv[order[a]][k] as int);
                        }
                    }
                }
                progress = true;
            }
            i = i + 1;
        }
        if !progress {
            proof {
                lemma_count_true_full(placed@);
            }
            let start = first_unplaced(&placed);
            let m = find_cycle_member(&steps, &deps_idx, &placed, start);
            proof {
                let c = choose|c: Seq<int>, k: int|
                    spec_is_cycle(sv, c) && 0 <= k < c.len() && sv[c[k]].name == sv[m as int].name;
                assert(spec_is_cycle(sv, c.0) && 0 <= c.1 < c.0.len() && sv[c.0[c.1]].name
                    == sv[m as int].name);
                lemma_cycle_not_acyclic(sv, c.0);
            }
            return Err(ResolveError::Cycle(steps[m].name.clone()));
        }
    }
    proof {
        lemma_count_true_full(placed@);
        assert forall|i: int| 0 <= i < sv.len() implies #[trigger] spec_in_order(order, i) by {
            assert(placed@[i]);
        }
        lemma_order_gives_rank(sv, dv, order);
        lemma_order_gives_perm(sv, order, spec_views(sorted@));
        lemma_order_gives_topo(sv, dv, order, spec_views(sorted@));
    }
    Ok(sorted)
}

/// A vector of `n` zero levels.
fn zero_levels(n: usize) -> (r: Vec<usize>)
    ensures
        r@.len() == n,
{
    let mut r: Vec<usize> = Vec::new();
    let mut i: usize = 0;
    while i < n
        invariant
            i <= n,
            r@.len() == i,
        decreases n - i,
    {
        r.push(0);
        i = i + 1;
    }
    r
}

/// Whether every listed dependency is assigned to a level below `cur`.
fn deps_assigned_below(
    row: &Vec<usize>,
    assigned: &Vec<bool>,
    level_of: &Vec<usize>,
    cur: usize,
) -> (r: bool)
    requires
        level_of@.len() == assigned@.len(),
        forall|k: int| 0 <= k < row@.len() ==> (#[trigger] row@[k]) < assigned@.len(),
    ensures
        r == forall|k: int|
            0 <= k < row@.len() ==> assigned@[#[trigger] row@[k] as int] && level_of@[row@[k] as int]
                < cur,
{
    let mut k: usize = 0;
    while k < row.len()
        invariant
            k <= row@.len(),
            level_of@.len() == assigned@.len(),
            forall|t: int| 0 <= t < row@.len() ==> (#[trigger] row@[t]) < assigned@.len(),
            forall|t: int|
                0 <= t < k ==> assigned@[#[trigger] row@[t] as int] && level_of@[row@[t] as int]
                    < cur,
        decreases row@.len() - k,
    {
        let j = row[k];
        if !assigned[j] || level_of[j] >= cur {
            return false;
        }
        k = k + 1;
    }
    true
}

/// Levels respect edges: every dependency sits strictly below.
pub open spec fn spec_level_edge_ok(dv: Seq<Seq<usize>>, l: Seq<usize>) -> bool {
    forall|i: int, k: int|
        0 <= i < dv.len() && 0 <= k < dv[i].len() ==> l[#[trigger] dv[i][k] as int] < l[i]
}

/// Levels are tight: above level zero, some dependency sits one below.
pub open spec fn spec_level_tight_idx(dv: Seq<Seq<usize>>, l: Seq<usize>) -> bool {
    forall|i: int|
        0 <= i < dv.len() && l[i] > 0 ==> exists|k: int|
            0 <= k < dv[i].len() && l[#[trigger] dv[i][k] as int] + 1 == l[i]
}

/// Computes the level of each step: zero without dependencies, otherwise
/// one more than the highest dependency level. Each pass assigns the steps
/// whose dependencies all sit in earlier passes; a pass that assigns
/// nothing means the remaining steps hold a cycle.
#[verifier::rlimit(100)]
fn compute_levels(steps: &Vec<Step>, deps_idx: &Vec<Vec<usize>>) -> (r: Result<
    Vec<usize>,
    ResolveError,
>)
    requires
        spec_unique_names(spec_views(steps@)),
        spec_idx_ok(spec_views(steps@), deps_idx.deep_view()),
    ensures
        r is Ok <==> spec_acyclic(spec_views(steps@)),
        r matches Ok(l) ==> l@.len() == steps@.len() && spec_level_edge_ok(
            deps_idx.deep_view(),
            l@,
        ) && spec_level_tight_idx(deps_idx.deep_view(), l@) && (forall|i: int|
            0 <= i < l@.len() ==> (#[trigger] l@[i]) < steps@.len()),
        r matches Err(e) ==> e matches ResolveError::Cycle(nm) && spec_named_on_cycle(
            spec_views(steps@),
            nm@,
        ),
{
    let ghost sv = spec_views(steps@);
    let ghost dv = deps_idx.deep_view();
    let n = steps.len();
    let mut assigned = false_flags(n);
    let mut level_of: Vec<usize> = zero_levels(n);
    let mut count: usize = 0;
    let mut cur: usize = 0;
    while count < n
        invariant
            sv == spec_views(steps@),
            dv == deps_idx.deep_view(),
            spec_idx_ok(sv, dv),
            n == sv.len(),
            assigned@.len() == n,
            level_of@.len() == n,
            spec_count_true(assigned@) == count,
            count <= n,
            cur <= count,
            forall|i: int|
                0 <= i < n && assigned@[i] ==> (#[trigger] level_of@[i]) < cur,
            forall|i: int, k: int|
                0 <= i < n && assigned@[i] && 0 <= k < dv[i].len()
                    ==> assigned@[#[trigger] dv[i][k] as int] && level_of@[dv[i][k] as int]
                    < level_of@[i],
            forall|i: int|
                0 <= i < n && assigned@[i] && #[trigger] level_of@[i] > 0 ==> exists|k: int|
                    0 <= k < dv[i].len() && level_of@[#[trigger] dv[i][k] as int] + 1
                        == level_of@[i],
            forall|i: int|
                0 <= i < n && !assigned@[i] ==> cur == 0 || exists|k: int|
                    0 <= k < dv[i].len() && (!assigned@[#[trigger] dv[i][k] as int]
                        || level_of@[dv[i][k] as int] + 1 >= cur),
        decreases n - count,
    {
        let count_entry = count;
        let mut i: usize = 0;
        while i < n
            invariant
                sv == spec_views(steps@),
                dv == deps_idx.deep_view(),
                spec_idx_ok(sv, dv),
                n == sv.len(),
                i <= n,
                assigned@.len() == n,
                level_of@.len() == n,
                spec_count_true(assigned@) == count,
                count_entry <= count <= n,
                forall|j: int|
                    0 <= j < n && assigned@[j] ==> (#[trigger] level_of@[j]) <= cur,
                forall|j: int, k: int|
                    0 <= j < n && assigned@[j] && 0 <= k < dv[j].len()
                        ==> assigned@[#[trigger] dv[j][k] as int] && level_of@[dv[j][k] as int]
                        < level_of@[j],
                forall|j: int|
                    0 <= j < n && assigned@[j] && #[trigger] level_of@[j] > 0 ==> exists|k: int|
                        0 <= k < dv[j].len() && level_of@[#[trigger] dv[j][k] as int] + 1
                            == level_of@[j],
                forall|j: int|
                    0 <= j < n && !assigned@[j] ==> cur == 0 || exists|k: int|
                        0 <= k < dv[j].len() && (!assigned@[#[trigger] dv[j][k] as int]
                            || level_of@[dv[j][k] as int] + 1 >= cur),
                forall|t: int|
                    0 <= t < i && !assigned@[t] ==> exists|k: int|
                        0 <= k < dv[t].len() && (!assigned@[#[trigger] dv[t][k] as int]
                            || level_of@[dv[t][k] as int] >= cur),
                count == count_entry ==> (forall|j: int|
                    0 <= j < n && assigned@[j] ==> (#[trigger] level_of@[j]) < cur),
            decreases n - i,
        {
            proof {
                assert(dv[i as int] =~= deps_idx@[i as int]@);
            }
            if !assigned[i] && deps_assigned_below(&deps_idx[i], &assigned, &level_of, cur) {
                let ghost assigned_before = assigned@;
                let ghost level_before = level_of@;
                assigned.set(i, true);
                level_of.set(i, cur);
                proof {
                    lemma_count_true_update(assigned_before, i as int);
                    lemma_count_true_full(assigned@);
                    assert forall|j: int, k: int|
                        0 <= j < n && assigned@[j] && 0 <= k < dv[j].len()
                        implies assigned@[#[trigger] dv[j][k] as int] && level_of@[dv[j][k] as int]
                        < level_of@[j] by {
                        if j == i as int {
                            assert(assigned_before[dv[j][k] as int] && level_before[dv[j][k] as int]
                                < cur);
                            assert(dv[j][k] as int != i as int);
                        } else {
                            assert(assigned_before[j]);
                            assert(dv[j][k] as int != i as int || !assigned_before[dv[j][k] as int]);
                        }
                    }
                    assert forall|j: int|
                        0 <= j < n && assigned@[j] && #[trigger] level_of@[j] > 0 implies exists|
                        k: int|
                        0 <= k < dv[j].len() && level_of@[#[trigger] dv[j][k] as int] + 1
                            == level_of@[j] by {
                        if j == i as int {
                            let k = choose|k: int|
                                0 <= k < dv[j].len() && (!assigned_before[dv[j][k] as int]
                                    || level_before[dv[j][k] as int] + 1 >= cur);
                            assert(assigned_before[dv[j][k] as int]);
                            assert(level_before[dv[j][k] as int] + 1 == cur);
                            assert(dv[j][k] as int != i as int);
                            assert(level_of@[dv[j][k] as int] + 1 == level_of@[j]);
                        } else {
                            assert(assigned_before[j]);
                            let k = choose|k: int|
                                0 <= k < dv[j].len() && level_before[dv[j][k] as int] + 1
                                    == level_before[j];
                            assert(assigned_before[dv[j][k] as int]);
                            assert(dv[j][k] as int != i as int);
                            assert(level_of@[dv[j][k] as int] + 1 == level_of@[j]);
                        }
                    }
                    assert forall|t: int|
                        0 <= t < i + 1 && !assigned@[t] implies exists|k: int|
                        0 <= k < dv[t].len() && (!assigned@[#[trigger] dv[t][k] as int]
                            || level_of@[dv[t][k] as int] >= cur) by {
                        assert(t != i as int);
                        let k = choose|k: int|
                            0 <= k < dv[t].len() && (!assigned_before[dv[t][k] as int]
                                || level_before[dv[t][k] as int] >= cur);
                        if dv[t][k] as int == i as int {
                            assert(level_of@[dv[t][k] as int] == cur);
                        }
                    }
                    assert forall|t: int|
                        0 <= t < n && !assigned@[t] implies cur == 0 || exists|k: int|
                        0 <= k < dv[t].len() && (!assigned@[#[trigger] dv[t][k] as int]
                            || level_of@[dv[t][k] as int] + 1 >= cur) by {
                        if cur > 0 {
                            assert(!assigned_before[t]);
                            let k = choose|k: int|
                                0 <= k < dv[t].len() && (!assigned_before[dv[t][k] as int]
                                    || level_before[dv[t][k] as int] + 1 >= cur);
                            if dv[t][k] as int == i as int {
                                assert(level_of@[dv[t][k] as int] == cur);
                            }
                        }
                    }
                }
                count = count + 1;
            } else {
                proof {
                    if !assigned@[i as int] {
                        let k = choose|k: int|
                            0 <= k < dv[i as int].len() && !(assigned@[dv[i as int][k] as int]
                                && level_of@[dv[i as int][k] as int] < cur);
                    }
                }
            }
            i = i + 1;
        }
        if count == count_entry {
            proof {
                lemma_count_true_full(assigned@);
                assert forall|t: int| 0 <= t < n && !assigned@[t] implies exists|k: int|
                    0 <= k < dv[t].len() && !assigned@[#[trigger] dv[t][k] as int] by {
                    let k = choose|k: int|
                        0 <= k < dv[t].len() && (!assigned@[dv[t][k] as int]
                            || level_of@[dv[t][k] as int] >= cur);
                }
            }
            let start = first_unplaced(&assigned);
            let m = find_cycle_member(steps, &deps_idx, &assigned, start);
            proof {
                let c = choose|c: Seq<int>, k: int|
                    spec_is_cycle(sv, c) && 0 <= k < c.len() && sv[c[k]].name == sv[m as int].name;
                assert(spec_is_cycle(sv, c.0) && 0 <= c.1 < c.0.len() && sv[c.0[c.1]].name
                    == sv[m as int].name);
                lemma_cycle_not_acyclic(sv, c.0);
            }
            return Err(ResolveError::Cycle(steps[m].name.clone()));
        }
        cur = cur + 1;
    }
    proof {
        lemma_count_true_full(assigned@);
        // The level assignment is itself a rank, so the graph is acyclic.
        let l = Seq::new(sv.len(), |i: int| level_of@[i] as nat);
        assert forall|i: int, j: int| #[trigger] spec_edge(sv, i, j) implies l[j] < l[i] by {
            lemma_edge_iff_idx(sv, dv, i, j);
            let k = choose|k: int| 0 <= k < dv[i].len() && dv[i][k] == j;
            assert(assigned@[i]);
        }
        assert(spec_is_rank(sv, l));
    }
    Ok(level_of)
}

/// The views of a sequence of levels.
pub open spec fn spec_level_views(lvls: Seq<Vec<Step>>) -> Seq<Seq<StepView>> {
    lvls.map_values(|v: Vec<Step>| spec_views(v@))
}

/// The levels, flattened in order.
pub open spec fn spec_flatten(lv: Seq<Seq<StepView>>) -> Seq<StepView>
    decreases lv.len(),
{
    if lv.len() == 0 {
        Seq::empty()
    } else {
        spec_flatten(lv.drop_last()) + lv.last()
    }
}

/// Dependency `k` of step `x` of level `p` sits in an earlier level.
pub open spec fn spec_dep_in_earlier_level(lv: Seq<Seq<StepView>>, p: int, x: int, k: int) -> bool {
    exists|q: int, y: int|
        0 <= q < p && 0 <= y < lv[q].len() && (#[trigger] lv[q][y]).name == lv[p][x].depends_on[k]
}

/// Every dependency of a step in level `p` names a step of a strictly
/// earlier level. In particular level zero holds only steps without
/// dependencies, and steps sharing a level never depend on one another.
pub open spec fn spec_level_dep_sound(lv: Seq<Seq<StepView>>) -> bool {
    forall|p: int, x: int, k: int|
        0 <= p < lv.len() && 0 <= x < lv[p].len() && 0 <= k < lv[p][x].depends_on.len()
            ==> #[trigger] spec_dep_in_earlier_level(lv, p, x, k)
}

/// Some dependency of step `x` of level `p` sits exactly in level `p - 1`.
pub open spec fn spec_dep_in_prev_level(lv: Seq<Seq<StepView>>, p: int, x: int) -> bool {
    exists|k: int, y: int|
        #![trigger lv[p - 1][y].name, lv[p][x].depends_on[k]]
        0 <= k < lv[p][x].depends_on.len() && 0 <= y < lv[p - 1].len() && lv[p - 1][y].name
            == lv[p][x].depends_on[k]
}

/// Every step above level zero has a dependency exactly one level down:
/// the partition is as flat as the dependencies allow.
pub open spec fn spec_level_tight(lv: Seq<Seq<StepView>>) -> bool {
    forall|p: int, x: int|
        1 <= p < lv.len() && 0 <= x < lv[p].len() ==> #[trigger] spec_dep_in_prev_level(lv, p, x)
}

/// No step name repeats anywhere in the partition.
pub open spec fn spec_levels_names_unique(lv: Seq<Seq<StepView>>) -> bool {
    forall|q: int, x: int, q2: int, x2: int|
        0 <= q < lv.len() && 0 <= x < lv[q].len() && 0 <= q2 < lv.len() && 0 <= x2 < lv[q2].len()
            && (q != q2 || x != x2) ==> (#[trigger] lv[q][x]).name != (#[trigger] lv[q2][x2]).name
}

/// What a correct level partition of the step set looks like: flattened in
/// level order it is the step set in a topologically valid order, every
/// dependency sits in a strictly earlier level, every step above level
/// zero has a dependency one level down, no level is empty, and no step
/// name repeats.
pub open spec fn spec_good_levels(sv: Seq<StepView>, lv: Seq<Seq<StepView>>) -> bool {
    &&& spec_perm_of(spec_flatten(lv), sv)
    &&& spec_is_topo_order(spec_flatten(lv))
    &&& spec_level_dep_sound(lv)
    &&& spec_level_tight(lv)
    &&& forall|p: int| 0 <= p < lv.len() ==> (#[trigger] lv[p]).len() > 0
    &&& spec_levels_names_unique(lv)
}

/// The steps of an order, read back through the step views.
pub open spec fn spec_of_order(sv: Seq<StepView>, order: Seq<int>) -> Seq<StepView> {
    Seq::new(order.len(), |a: int| sv[order[a]])
}

/// The indices below `m` assigned level `p`, in index order.
pub open spec fn spec_idxs_at(l: Seq<usize>, p: int, m: int) -> Seq<int>
    decreases m,
{
    if m <= 0 {
        Seq::empty()
    } else {
        let rest = spec_idxs_at(l, p, m - 1);
        if l[m - 1] == p {
            rest.push(m - 1)
        } else {
            rest
        }
    }
}

/// How many indices below `m` sit on a level below `p`.
pub open spec fn spec_count_lt(l: Seq<usize>, p: int, m: int) -> nat
    decreases m,
{
    if m <= 0 {
        0
    } else {
        spec_count_lt(l, p, m - 1) + (if (l[m - 1] as int) < p {
            1nat
        } else {
            0nat
        })
    }
}

/// The indices at one level are increasing, in range, and carry that level.
proof fn lemma_idxs_at_props(l: Seq<usize>, p: int, m: int)
    requires
        m <= l.len(),
    ensures
        forall|a: int|
            0 <= a < spec_idxs_at(l, p, m).len() ==> 0 <= #[trigger] spec_idxs_at(l, p, m)[a] < m
                && l[spec_idxs_at(l, p, m)[a]] == p,
        forall|a: int, b: int|
            0 <= a < b < spec_idxs_at(l, p, m).len() ==> spec_idxs_at(l, p, m)[a] < spec_idxs_at(
                l,
                p,
                m,
            )[b],
    decreases m,
{
    if m > 0 {
        lemma_idxs_at_props(l, p, m - 1);
        let prev = spec_idxs_at(l, p, m - 1);
        let cur = spec_idxs_at(l, p, m);
        if l[m - 1] == p {
            assert(cur == prev.push(m - 1));
            assert forall|a: int| 0 <= a < cur.len() implies 0 <= #[trigger] cur[a] < m && l[cur[a]]
                == p by {
                if a < prev.len() {
                    assert(cur[a] == prev[a]);
                } else {
                    assert(cur[a] == m - 1);
                }
            }
            assert forall|a: int, b: int| 0 <= a < b < cur.len() implies cur[a] < cur[b] by {
                if b < prev.len() {
                    assert(cur[a] == prev[a] && cur[b] == prev[b]);
                } else {
                    assert(cur[b] == m - 1);
                    assert(cur[a] == prev[a]);
                    assert(prev[a] < m - 1);
                }
            }
        } else {
            assert(cur == prev);
        }
    }
}

/// Every index carrying the level occurs among that level's indices.
proof fn lemma_idxs_at_complete(l: Seq<usize>, p: int, m: int, i: int)
    requires
        0 <= i < m <= l.len(),
        l[i] == p,
    ensures
        exists|a: int|
            0 <= a < spec_idxs_at(l, p, m).len() && #[trigger] spec_idxs_at(l, p, m)[a] == i,
    decreases m,
{
    if i == m - 1 {
        assert(spec_idxs_at(l, p, m)[spec_idxs_at(l, p, m).len() - 1] == i);
    } else {
        lemma_idxs_at_complete(l, p, m - 1, i);
        let a = choose|a: int|
            0 <= a < spec_idxs_at(l, p, m - 1).len() && #[trigger] spec_idxs_at(l, p, m - 1)[a]
                == i;
        assert(spec_idxs_at(l, p, m)[a] == i);
    }
}

/// Raising the bound by one adds exactly the indices at that level.
proof fn lemma_count_lt_step(l: Seq<usize>, p: int, m: int)
    ensures
        spec_count_lt(l, p + 1, m) == spec_count_lt(l, p, m) + spec_idxs_at(l, p, m).len(),
    decreases m,
{
    if m > 0 {
        lemma_count_lt_step(l, p, m - 1);
    }
}

/// When every level sits below the bound, the count is everything.
proof fn lemma_count_lt_all(l: Seq<usize>, p: int, m: int)
    requires
        0 <= m <= l.len(),
        forall|i: int| 0 <= i < m ==> (#[trigger] l[i] as int) < p,
    ensures
        spec_count_lt(l, p, m) == m,
    decreases m,
{
    if m > 0 {
        lemma_count_lt_all(l, p, m - 1);
    }
}

/// No level sits below a bound of zero or less.
proof fn lemma_count_lt_zero(l: Seq<usize>, p: int, m: int)
    requires
        p <= 0,
    ensures
        spec_count_lt(l, p, m) == 0,
    decreases m,
{
    if m > 0 {
        lemma_count_lt_zero(l, p, m - 1);
    }
}

/// Collects the steps assigned the given level, in step order.
fn collect_one_level(steps: &Vec<Step>, level_of: &Vec<usize>, p: usize) -> (r: Vec<Step>)
    requires
        level_of@.len() == steps@.len(),
    ensures
        spec_views(r@) == spec_of_order(
            spec_views(steps@),
            spec_idxs_at(level_of@, p as int, steps@.len() as int),
        ),
{
    let ghost sv = spec_views(steps@);
    let n = steps.len();
    let mut r: Vec<Step> = Vec::new();
    let mut i: usize = 0;
    while i < n
        invariant
            i <= n,
            n == steps@.len(),
            sv == spec_views(steps@),
            level_of@.len() == n,
            spec_views(r@) == spec_of_order(sv, spec_idxs_at(level_of@, p as int, i as int)),
        decreases n - i,
    {
        let ghost before = spec_views(r@);
        if level_of[i] == p {
            r.push(steps[i].duplicate());
            proof {
                assert(spec_views(r@) =~= before.push(sv[i as int]));
            }
        }
        proof {
            assert(spec_views(r@) =~= spec_of_order(
                sv,
                spec_idxs_at(level_of@, p as int, i as int + 1),
            ));
        }
        i = i + 1;
    }
    r
}

/// The highest level in use; zero when there are no steps.
fn max_level(level_of: &Vec<usize>) -> (r: usize)
    ensures
        forall|t: int| 0 <= t < level_of@.len() ==> (#[trigger] level_of@[t]) <= r,
        level_of@.len() > 0 ==> exists|t: int|
            0 <= t < level_of@.len() && (#[trigger] level_of@[t]) == r,
        level_of@.len() == 0 ==> r == 0,
{
    let mut max: usize = 0;
    let mut i: usize = 0;
    while i < level_of.len()
        invariant
            i <= level_of@.len(),
            forall|t: int| 0 <= t < i ==> (#[trigger] level_of@[t]) <= max,
            i > 0 ==> exists|t: int| 0 <= t < i && (#[trigger] level_of@[t]) == max,
            i == 0 ==> max == 0,
        decreases level_of@.len() - i,
    {
        if level_of[i] > max {
            max = level_of[i];
        }
        i = i + 1;
    }
    max
}

/// Every level below an attained level is attained.
proof fn lemma_level_attained(dv: Seq<Seq<usize>>, l: Seq<usize>, j: int, q: int)
    requires
        spec_level_tight_idx(dv, l),
        dv.len() == l.len(),
        forall|i: int, k: int|
            0 <= i < dv.len() && 0 <= k < dv[i].len() ==> (#[trigger] dv[i][k]) < l.len(),
        0 <= j < l.len(),
        0 <= q <= l[j],
    ensures
        exists|i: int| 0 <= i < l.len() && #[trigger] l[i] == q,
    decreases l[j] - q,
{
    if l[j] == q {
        assert(l[j] == q);
    } else {
        assert(l[j] > 0);
        let k = choose|k: int| 0 <= k < dv[j].len() && l[dv[j][k] as int] + 1 == l[j];
        lemma_level_attained(dv, l, dv[j][k] as int, q);
    }
}

/// The indices of the levels below `p`, concatenated in level order.
pub open spec fn spec_cat_idxs(l: Seq<usize>, p: int, m: int) -> Seq<int>
    decreases p,
{
    if p <= 0 {
        Seq::empty()
    } else {
        spec_cat_idxs(l, p - 1, m) + spec_idxs_at(l, p - 1, m)
    }
}

/// The concatenated order is in range, stays below `p`, is complete for
/// levels below `p`, has the count's length, and orders levels ascending.
proof fn lemma_cat_props(l: Seq<usize>, p: int, m: int)
    requires
        0 <= m <= l.len(),
    ensures
        spec_cat_idxs(l, p, m).len() == spec_count_lt(l, p, m),
        forall|a: int|
            0 <= a < spec_cat_idxs(l, p, m).len() ==> 0 <= #[trigger] spec_cat_idxs(l, p, m)[a]
                < m && (l[spec_cat_idxs(l, p, m)[a]] as int) < p,
        forall|t: int|
            0 <= t < m && (#[trigger] l[t] as int) < p ==> spec_in_order(spec_cat_idxs(l, p, m), t),
        forall|a: int, b: int|
            0 <= a < spec_cat_idxs(l, p, m).len() && 0 <= b < spec_cat_idxs(l, p, m).len() && (l[
            spec_cat_idxs(l, p, m)[a]] as int) < (l[spec_cat_idxs(l, p, m)[b]] as int) ==> a < b,
        forall|a: int, b: int|
            0 <= a < b < spec_cat_idxs(l, p, m).len() ==> spec_cat_idxs(l, p, m)[a]
                != spec_cat_idxs(l, p, m)[b],
    decreases p,
{
    if p <= 0 {
        lemma_count_lt_zero(l, p, m);
    } else {
        lemma_cat_props(l, p - 1, m);
        lemma_idxs_at_props(l, p - 1, m);
        lemma_count_lt_step(l, p - 1, m);
        let old_c = spec_cat_idxs(l, p - 1, m);
        let new_i = spec_idxs_at(l, p - 1, m);
        let cur = spec_cat_idxs(l, p, m);
        assert(cur == old_c + new_i);
        assert forall|a: int|
            0 <= a < cur.len() implies 0 <= #[trigger] cur[a] < m && (l[cur[a]] as int) < p by {
            if a < old_c.len() {
                assert(cur[a] == old_c[a]);
            } else {
                assert(cur[a] == new_i[a - old_c.len()]);
            }
        }
        assert forall|t: int|
            0 <= t < m && (#[trigger] l[t] as int) < p implies spec_in_order(cur, t) by {
            if (l[t] as int) < p - 1 {
                let a = choose|a: int| 0 <= a < old_c.len() && #[trigger] old_c[a] == t;
                assert(cur[a] == t);
            } else {
                lemma_idxs_at_complete(l, p - 1, m, t);
                let a = choose|a: int| 0 <= a < new_i.len() && #[trigger] new_i[a] == t;
                assert(cur[old_c.len() + a] == t);
            }
        }
        assert forall|a: int, b: int|
            0 <= a < cur.len() && 0 <= b < cur.len() && (l[cur[a]] as int) < (l[cur[b]] as int)
            implies a < b by {
            if b < old_c.len() {
                assert(cur[b] == old_c[b]);
                if a >= old_c.len() {
                    assert(cur[a] == new_i[a - old_c.len()]);
                    assert((l[cur[a]] as int) == p - 1);
                } else {
                    assert(cur[a] == old_c[a]);
                }
            } else {
                assert(cur[b] == new_i[b - old_c.len()]);
                if a >= old_c.len() {
                    assert(cur[a] == new_i[a - old_c.len()]);
                } else {
                    assert(a < b);
                }
            }
        }
        assert forall|a: int, b: int| 0 <= a < b < cur.len() implies cur[a] != cur[b] by {
            if b < old_c.len() {
                assert(cur[a] == old_c[a] && cur[b] == old_c[b]);
            } else if a < old_c.len() {
                assert(cur[a] == old_c[a] && cur[b] == new_i[b - old_c.len()]);
                assert((l[cur[a]] as int) < p - 1 && (l[cur[b]] as int) == p - 1);
            } else {
                assert(cur[a] == new_i[a - old_c.len()] && cur[b] == new_i[b - old_c.len()]);
            }
        }
    }
}

/// Dependencies come earlier in the concatenated order.
proof fn lemma_cat_dep_placed(sv: Seq<StepView>, dv: Seq<Seq<usize>>, l: Seq<usize>, p: int)
    requires
        spec_idx_ok(sv, dv),
        l.len() == sv.len(),
        spec_level_edge_ok(dv, l),
    ensures
        forall|a: int, k: int|
            0 <= a < spec_cat_idxs(l, p, l.len() as int).len() && 0 <= k < dv[spec_cat_idxs(
                l,
                p,
                l.len() as int,
            )[a]].len() ==> #[trigger] spec_dep_placed_before(
                dv,
                spec_cat_idxs(l, p, l.len() as int),
                a,
                k,
            ),
{
    let m = l.len() as int;
    lemma_cat_props(l, p, m);
    let cur = spec_cat_idxs(l, p, m);
    assert forall|a: int, k: int|
        0 <= a < cur.len() && 0 <= k < dv[cur[a]].len() implies #[trigger] spec_dep_placed_before(
        dv,
        cur,
        a,
        k,
    ) by {
        let i = cur[a];
        let j = dv[i][k] as int;
        assert((l[j] as int) < (l[i] as int));
        assert((l[j] as int) < p);
        assert(spec_in_order(cur, j));
        let b = choose|b: int| 0 <= b < cur.len() && #[trigger] cur[b] == j;
        assert((l[cur[b]] as int) < (l[cur[a]] as int));
        assert(b < a);
        assert(cur[b] == dv[cur[a]][k] as int);
    }
}

/// A level table whose rows are exactly the per-level index selections
/// flattens to the concatenated order.
proof fn lemma_flatten_cat(
    sv: Seq<StepView>,
    l: Seq<usize>,
    lv: Seq<Seq<StepView>>,
    p: int,
)
    requires
        0 <= p <= lv.len(),
        forall|q: int|
            0 <= q < lv.len() ==> #[trigger] lv[q] == spec_of_order(
                sv,
                spec_idxs_at(l, q, l.len() as int),
            ),
    ensures
        spec_flatten(lv.take(p)) == spec_of_order(sv, spec_cat_idxs(l, p, l.len() as int)),
    decreases p,
{
    let m = l.len() as int;
    if p <= 0 {
        assert(lv.take(0) =~= Seq::<Seq<StepView>>::empty());
        assert(spec_flatten(lv.take(0)) =~= spec_of_order(sv, spec_cat_idxs(l, 0, m)));
    } else {
        lemma_flatten_cat(sv, l, lv, p - 1);
        assert(lv.take(p).drop_last() =~= lv.take(p - 1));
        assert(lv.take(p).last() == lv[p - 1]);
        assert(spec_flatten(lv.take(p)) == spec_flatten(lv.take(p - 1)) + lv[p - 1]);
        assert(spec_flatten(lv.take(p)) =~= spec_of_order(sv, spec_cat_idxs(l, p, m)));
    }
}

/// A level table whose rows select the steps of each level, for a level
/// assignment that respects edges and is tight, is a good partition.
#[verifier::rlimit(100)]
proof fn lemma_good_from_rep(
    sv: Seq<StepView>,
    dv: Seq<Seq<usize>>,
    l: Seq<usize>,
    lv: Seq<Seq<StepView>>,
    top: int,
)
    requires
        spec_unique_names(sv),
        spec_idx_ok(sv, dv),
        l.len() == sv.len(),
        sv.len() > 0,
        spec_level_edge_ok(dv, l),
        spec_level_tight_idx(dv, l),
        forall|t: int| 0 <= t < l.len() ==> (#[trigger] l[t] as int) <= top,
        exists|t: int| 0 <= t < l.len() && (#[trigger] l[t] as int) == top,
        lv.len() == top + 1,
        forall|q: int|
            0 <= q < lv.len() ==> #[trigger] lv[q] == spec_of_order(
                sv,
                spec_idxs_at(l, q, l.len() as int),
            ),
    ensures
        spec_good_levels(sv, lv),
{
    let m = l.len() as int;
    let p = top + 1;
    let order = spec_cat_idxs(l, p, m);
    lemma_cat_props(l, p, m);
    lemma_count_lt_all(l, p, m);
    assert(order.len() == sv.len());
    assert forall|t: int| 0 <= t < sv.len() implies #[trigger] spec_in_order(order, t) by {
        assert((l[t] as int) < p);
    }
    lemma_cat_dep_placed(sv, dv, l, p);
    lemma_order_gives_perm(sv, order, spec_of_order(sv, order));
    lemma_order_gives_topo(sv, dv, order, spec_of_order(sv, order));
    lemma_flatten_cat(sv, l, lv, p);
    assert(lv.take(p) =~= lv);
    assert(spec_flatten(lv) == spec_of_order(sv, order));
    // Every dependency sits in a strictly earlier level.
    assert forall|q: int, x: int, k: int|
        0 <= q < lv.len() && 0 <= x < lv[q].len() && 0 <= k < lv[q][x].depends_on.len()
        implies #[trigger] spec_dep_in_earlier_level(lv, q, x, k) by {
        lemma_idxs_at_props(l, q, m);
        let i = spec_idxs_at(l, q, m)[x];
        assert(lv[q][x] == sv[i]);
        assert(dv[i].len() == sv[i].depends_on.len());
        let j = dv[i][k] as int;
        assert((l[j] as int) < q);
        let jq = l[j] as int;
        lemma_idxs_at_complete(l, jq, m, j);
        lemma_idxs_at_props(l, jq, m);
        let y = choose|y: int|
            0 <= y < spec_idxs_at(l, jq, m).len() && #[trigger] spec_idxs_at(l, jq, m)[y] == j;
        assert(lv[jq][y] == sv[j]);
        assert(sv[j].name == sv[i].depends_on[k]);
        assert(0 <= jq < q && 0 <= y < lv[jq].len() && lv[jq][y].name == lv[q][x].depends_on[k]);
    }
    // Every step above level zero keeps a dependency one level down.
    assert forall|q: int, x: int|
        1 <= q < lv.len() && 0 <= x < lv[q].len() implies #[trigger] spec_dep_in_prev_level(
        lv,
        q,
        x,
    ) by {
        lemma_idxs_at_props(l, q, m);
        let i = spec_idxs_at(l, q, m)[x];
        assert(lv[q][x] == sv[i]);
        assert((l[i] as int) == q);
        let k = choose|k: int| 0 <= k < dv[i].len() && (l[#[trigger] dv[i][k] as int] + 1) == l[i];
        let j = dv[i][k] as int;
        assert((l[j] as int) == q - 1);
        lemma_idxs_at_complete(l, q - 1, m, j);
        lemma_idxs_at_props(l, q - 1, m);
        let y = choose|y: int|
            0 <= y < spec_idxs_at(l, q - 1, m).len() && #[trigger] spec_idxs_at(l, q - 1, m)[y]
                == j;
        assert(lv[q - 1][y] == sv[j]);
        assert(dv[i].len() == sv[i].depends_on.len());
        assert(sv[j].name == sv[i].depends_on[k]);
        assert(0 <= k < lv[q][x].depends_on.len() && 0 <= y < lv[q - 1].len() && lv[q - 1][y].name
            == lv[q][x].depends_on[k]);
    }
    // Distinct partition slots carry distinct indices, hence names.
    assert forall|q: int, x: int, q2: int, x2: int|
        0 <= q < lv.len() && 0 <= x < lv[q].len() && 0 <= q2 < lv.len() && 0 <= x2 < lv[q2].len()
            && (q != q2 || x != x2) implies (#[trigger] lv[q][x]).name != (#[trigger] lv[q2][x2]).name by {
        lemma_idxs_at_props(l, q, m);
        lemma_idxs_at_props(l, q2, m);
        let i = spec_idxs_at(l, q, m)[x];
        let i2 = spec_idxs_at(l, q2, m)[x2];
        assert(lv[q][x] == sv[i] && lv[q2][x2] == sv[i2]);
        if q == q2 {
            if x < x2 {
                assert(spec_idxs_at(l, q, m)[x] < spec_idxs_at(l, q, m)[x2]);
            } else {
                assert(spec_idxs_at(l, q, m)[x2] < spec_idxs_at(l, q, m)[x]);
            }
        } else {
            assert((l[i] as int) == q && (l[i2] as int) == q2);
        }
        if i < i2 {
            assert(sv[i].name != sv[i2].name);
        } else {
            assert(sv[i2].name != sv[i].name);
        }
    }
    // No level is empty.
    assert forall|q: int| 0 <= q < lv.len() implies (#[trigger] lv[q]).len() > 0 by {
        let tj = choose|t: int| 0 <= t < l.len() && (#[trigger] l[t] as int) == top;
        lemma_level_attained(dv, l, tj, q);
        let ti = choose|t: int| 0 <= t < l.len() && #[trigger] l[t] == q;
        lemma_idxs_at_complete(l, q, m, ti);
    }
}

/// Partitions the steps into execution levels: level zero holds the steps
/// without dependencies, and each later level the steps whose dependencies
/// all sit in earlier levels. Steps sharing a level are mutually
/// independent and may run in parallel; flattened in level order the
/// partition is a topologically valid order of exactly the given steps.
pub fn group_by_dependency_level(steps: &Vec<Step>) -> (r: Result<Vec<Vec<Step>>, ResolveError>)
    requires
        spec_unique_names(spec_views(steps@)),
    ensures
        r is Ok <==> spec_resolvable(spec_views(steps@)),
        r matches Ok(lvls) ==> spec_good_levels(spec_views(steps@), spec_level_views(lvls@)),
        r matches Err(e) ==> (match e {
            ResolveError::UnknownDependency(nm) => !spec_deps_known(spec_views(steps@))
                && !spec_has_name(spec_views(steps@), nm@) && spec_dep_requested(
                spec_views(steps@),
                nm@,
            ),
            ResolveError::Cycle(nm) => spec_deps_known(spec_views(steps@)) && spec_named_on_cycle(
                spec_views(steps@),
                nm@,
            ),
        }),
{
    let ghost sv = spec_views(steps@);
    let n = steps.len();
    let deps_idx = match build_dep_indices(steps) {
        Ok(d) => d,
        Err(e) => {
            return Err(e);
        }
    };
    let ghost dv = deps_idx.deep_view();
    let level_of = match compute_levels(steps, &deps_idx) {
        Ok(l) => l,
        Err(e) => {
            return Err(e);
        }
    };
    let mut lvls: Vec<Vec<Step>> = Vec::new();
    if n == 0 {
        proof {
            assert(spec_flatten(spec_level_views(lvls@)) =~= Seq::<StepView>::empty());
            assert(spec_is_rank(sv, Seq::<nat>::empty()));
        }
        return Ok(lvls);
    }
    let top = max_level(&level_of);
    assert(top < n);
    let mut p: usize = 0;
    while p <= top
        invariant
            sv == spec_views(steps@),
            n == sv.len(),
            level_of@.len() == n,
            top < n,
            p <= top + 1,
            lvls@.len() == p,
            forall|q: int|
                0 <= q < p ==> #[trigger] spec_level_views(lvls@)[q] == spec_of_order(
                    sv,
                    spec_idxs_at(level_of@, q, n as int),
                ),
        decreases top + 1 - p,
    {
        let lp = collect_one_level(steps, &level_of, p);
        let ghost lvls_before = lvls@;
        lvls.push(lp);
        proof {
            assert(spec_level_views(lvls@) =~= spec_level_views(lvls_before).push(
                spec_views(lvls@[lvls@.len() - 1]@),
            ));
        }
        p = p + 1;
    }
    proof {
        lemma_good_from_rep(sv, dv, level_of@, spec_level_views(lvls@), top as int);
    }
    Ok(lvls)
}

} // verus!

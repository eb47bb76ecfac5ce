//! Target specifications and their arrangement into build order.
use vstd::prelude::*;
use vstd::multiset::Multiset;
use vstd::set_lib::{lemma_int_range, lemma_len_subset, set_int_range};
use crate::error::ConfigError;
use crate::text::same_text;

verus! {

/// One buildable unit of a configuration.
#[derive(Debug, Clone)]
pub struct TargetConfig {
    pub name: String,
    pub src: String,
    pub src_excluded: Vec<String>,
    pub include_dir: String,
    pub typ: String,
    pub cflags: String,
    pub archive: String,
    pub ldflags: String,
    pub deps: Vec<String>,
}

/// Whether `a` lists `b` among its dependencies.
pub open spec fn depends_on(a: TargetConfig, b: TargetConfig) -> bool {
    exists|k: int| 0 <= k < a.deps@.len() && #[trigger] a.deps@[k]@ == b.name@
}

/// Every target comes after each target it depends on.
pub open spec fn dependency_ordered(ts: Seq<TargetConfig>) -> bool {
    forall|p: int, q: int|
        0 <= p < ts.len() && 0 <= q < ts.len() && #[trigger] depends_on(ts[p], ts[q]) ==> q < p
}

/// Some target of `ts` is among the dependencies of `ts[i]`.
pub open spec fn depends_within(ts: Seq<TargetConfig>, i: int) -> bool {
    exists|j: int| 0 <= j < ts.len() && #[trigger] depends_on(ts[i], ts[j])
}

/// `c` is a non-empty collection of targets of `ts` in which every target
/// depends on some target of `c`: following dependencies from it never ends.
pub open spec fn dependency_closed(ts: Seq<TargetConfig>, c: Seq<TargetConfig>) -> bool {
    &&& c.len() > 0
    &&& forall|i: int| 0 <= i < c.len() ==> ts.contains(#[trigger] c[i])
    &&& forall|i: int| 0 <= i < c.len() ==> #[trigger] depends_within(c, i)
}

/// `c` is a cycle of dependencies among targets of `ts`: each target of
/// `c` depends on the next, and the last on the first.
pub open spec fn dependency_cycle(ts: Seq<TargetConfig>, c: Seq<TargetConfig>) -> bool {
    &&& c.len() > 0
    &&& forall|i: int| 0 <= i < c.len() ==> ts.contains(#[trigger] c[i])
    &&& forall|i: int| #![trigger c[i]] 0 <= i < c.len() ==> depends_on(c[i], c[next_of(c.len() as int, i)])
}

/// The position after `i` in a cycle of `len` positions.
pub open spec fn next_of(len: int, i: int) -> int {
    if i + 1 < len {
        i + 1
    } else {
        0
    }
}

/// The dependencies among `ts` hold a cycle.
pub open spec fn has_cycle(ts: Seq<TargetConfig>) -> bool {
    exists|c: Seq<TargetConfig>| dependency_closed(ts, c)
}

/// The position of a target of `ts` that `ts[i]` depends on, if any.
fn blocker(ts: &Vec<TargetConfig>, i: usize) -> (r: Option<usize>)
    requires
        i < ts@.len(),
    ensures
        r matches Some(j) ==> j < ts@.len() && depends_on(ts@[i as int], ts@[j as int]),
        r is None ==> forall|j: int| 0 <= j < ts@.len() ==> !depends_on(ts@[i as int], ts@[j]),
{
    let deps = &ts[i].deps;
    let mut k: usize = 0;
    while k < deps.len()
        invariant
            deps == ts@[i as int].deps,
            k <= deps@.len(),
            forall|kk: int, j: int|
                0 <= kk < k && 0 <= j < ts@.len() ==> #[trigger] deps@[kk]@ != #[trigger] ts@[j].name@,
        decreases deps.len() - k,
    {
        let mut j: usize = 0;
        while j < ts.len()
            invariant
                deps == ts@[i as int].deps,
                k < deps@.len(),
                j <= ts@.len(),
                forall|kk: int, jj: int|
                    0 <= kk < k && 0 <= jj < ts@.len() ==> #[trigger] deps@[kk]@ != #[trigger] ts@[jj].name@,
                forall|jj: int| 0 <= jj < j ==> deps@[k as int]@ != #[trigger] ts@[jj].name@,
            decreases ts.len() - j,
        {
            if same_text(ts[j].name.as_str(), deps[k].as_str()) {
                assert(depends_on(ts@[i as int], ts@[j as int]));
                return Some(j);
            }
            j += 1;
        }
        k += 1;
    }
    None
}

proof fn lemma_distinct_bound(s: Seq<int>, n: int)
    requires
        0 <= n,
        s.no_duplicates(),
        forall|i: int| 0 <= i < s.len() ==> 0 <= #[trigger] s[i] < n,
    ensures
        s.len() <= n,
{
    s.unique_seq_to_set();
    lemma_int_range(0, n);
    assert(s.to_set().subset_of(set_int_range(0, n)));
    lemma_len_subset(s.to_set(), set_int_range(0, n));
}

proof fn lemma_extend_path(gp: Seq<int>, x: int, n: int)
    requires
        0 <= n,
        0 <= x < n,
        gp.no_duplicates(),
        forall|i: int| 0 <= i < gp.len() ==> 0 <= #[trigger] gp[i] < n,
        forall|i: int| 0 <= i < gp.len() ==> #[trigger] gp[i] != x,
    ensures
        gp.push(x).no_duplicates(),
        gp.len() < n,
{
    let g2 = gp.push(x);
    assert forall|i: int, j: int| 0 <= i < g2.len() && 0 <= j < g2.len() && i != j implies g2[i] != g2[j] by {
        if i < gp.len() && j < gp.len() {
        } else if i == gp.len() {
            assert(g2[j] == gp[j]);
        } else {
            assert(g2[i] == gp[i]);
        }
    }
    assert forall|i: int| 0 <= i < g2.len() implies 0 <= #[trigger] g2[i] < n by {
        if i < gp.len() {
            assert(g2[i] == gp[i]);
        }
    }
    lemma_distinct_bound(g2, n);
}

proof fn lemma_path_cycle(ts: Seq<TargetConfig>, gp: Seq<int>, m: int)
    requires
        gp.len() >= 1,
        forall|i: int| 0 <= i < gp.len() ==> 0 <= #[trigger] gp[i] < ts.len(),
        forall|i: int| 0 <= i < gp.len() - 1 ==> depends_on(ts[#[trigger] gp[i]], ts[gp[i + 1]]),
        0 <= m < gp.len(),
        depends_on(ts[gp[gp.len() - 1]], ts[gp[m]]),
    ensures
        exists|c: Seq<TargetConfig>|
            dependency_cycle(ts, c) && c[0] == ts[gp[gp.len() - 1]] && c[next_of(c.len() as int, 0)]
                == ts[gp[m]],
{
    let li = gp.len() - 1;
    let tail = Seq::new((li - m) as nat, |i: int| ts[gp[m + i]]);
    let c = seq![ts[gp[li]]] + tail;
    assert forall|i: int| 0 <= i < c.len() implies ts.contains(#[trigger] c[i]) by {
        if i == 0 {
            assert(ts[gp[li]] == c[0]);
        } else {
            assert(c[i] == ts[gp[m + i - 1]]);
        }
    }
    assert forall|i: int| #![trigger c[i]] 0 <= i < c.len() implies depends_on(
        c[i],
        c[next_of(c.len() as int, i)],
    ) by {
        if c.len() == 1 {
        } else if i == 0 {
            assert(c[1] == ts[gp[m]]);
        } else if i < c.len() - 1 {
            assert(c[i] == ts[gp[m + i - 1]]);
            assert(c[i + 1] == ts[gp[m + i]]);
        } else {
            assert(c[i] == ts[gp[li - 1]]);
        }
    }
    if c.len() > 1 {
        assert(c[1] == ts[gp[m]]);
    }
    assert(dependency_cycle(ts, c));
}

/// Where every target of `ts` depends on some target of `ts`: positions of
/// two targets that close a dependency cycle, the first depending on the
/// second.
fn find_cycle(ts: &Vec<TargetConfig>) -> (r: (usize, usize))
    requires
        ts@.len() > 0,
        forall|i: int| 0 <= i < ts@.len() ==> #[trigger] depends_within(ts@, i),
    ensures
        r.0 < ts@.len() && r.1 < ts@.len(),
        exists|c: Seq<TargetConfig>|
            dependency_cycle(ts@, c) && c[0] == ts@[r.0 as int] && c[next_of(c.len() as int, 0)] == ts@[r.1 as int],
{
    let n = ts.len();
    let mut path: Vec<usize> = Vec::new();
    path.push(0);
    let ghost mut gp: Seq<int> = seq![0int];
    loop
        invariant
            n == ts@.len(),
            path@.len() == gp.len(),
            gp.len() >= 1,
            forall|i: int| 0 <= i < gp.len() ==> #[trigger] gp[i] == path@[i] as int,
            forall|i: int| 0 <= i < gp.len() ==> 0 <= #[trigger] gp[i] < n,
            gp.no_duplicates(),
            forall|i: int|
                0 <= i < gp.len() - 1 ==> depends_on(ts@[#[trigger] gp[i]], ts@[gp[i + 1]]),
            forall|i: int| 0 <= i < ts@.len() ==> #[trigger] depends_within(ts@, i),
        decreases n - path@.len(),
    {
        let last = path.len() - 1;
        let cur = path[last];
        assert(gp[last as int] == cur as int);
        assert(depends_within(ts@, cur as int));
        let nxt = match blocker(ts, cur) {
            Some(j) => j,
            None => {
                assert(false);
                0
            },
        };
        let mut m: usize = 0;
        while m < path.len() && path[m] != nxt
            invariant
                m <= path@.len(),
                forall|i: int| 0 <= i < m ==> path@[i] != nxt,
            decreases path.len() - m,
        {
            m += 1;
        }
        assert(forall|i: int| 0 <= i < m ==> #[trigger] gp[i] != nxt as int);
        if m < path.len() {
            proof {
                lemma_path_cycle(ts@, gp, m as int);
            }
            return (cur, nxt);
        }
        proof {
            lemma_extend_path(gp, nxt as int, n as int);
        }
        path.push(nxt);
        proof {
            gp = gp.push(nxt as int);
        }
    }
}

/// The position of the first target of `ts` that depends on no target of `ts`.
fn find_ready(ts: &Vec<TargetConfig>) -> (r: Option<usize>)
    ensures
        r matches Some(i) ==> i < ts@.len() && forall|j: int|
            0 <= j < ts@.len() ==> !depends_on(ts@[i as int], ts@[j]),
        r is None ==> forall|i: int| 0 <= i < ts@.len() ==> #[trigger] depends_within(ts@, i),
{
    let mut i: usize = 0;
    while i < ts.len()
        invariant
            i <= ts@.len(),
            forall|ii: int| 0 <= ii < i ==> #[trigger] depends_within(ts@, ii),
        decreases ts.len() - i,
    {
        match blocker(ts, i) {
            None => return Some(i),
            Some(j) => {
                assert(depends_on(ts@[i as int], ts@[j as int]));
                assert(depends_within(ts@, i as int));
            },
        }
        i += 1;
    }
    None
}

proof fn lemma_same_elements(a: Seq<TargetConfig>, b: Seq<TargetConfig>, x: TargetConfig)
    requires
        a.to_multiset() == b.to_multiset(),
        a.contains(x),
    ensures
        b.contains(x),
{
    a.to_multiset_ensures();
    b.to_multiset_ensures();
    assert(a.to_multiset().count(x) > 0);
    assert(b.to_multiset().count(x) > 0);
}

proof fn lemma_empty_multiset(s: Seq<TargetConfig>)
    requires
        s.len() == 0,
    ensures
        s.to_multiset() == Multiset::<TargetConfig>::empty(),
        forall|m: Multiset<TargetConfig>| s.to_multiset().add(m) == m,
        forall|m: Multiset<TargetConfig>| m.add(s.to_multiset()) == m,
{
    broadcast use vstd::multiset::group_multiset_axioms;

    s.to_multiset_ensures();
    assert(s.to_multiset() =~= Multiset::<TargetConfig>::empty());
    assert forall|m: Multiset<TargetConfig>| s.to_multiset().add(m) == m by {
        assert(s.to_multiset().add(m) =~= m);
    }
    assert forall|m: Multiset<TargetConfig>| m.add(s.to_multiset()) == m by {
        assert(m.add(s.to_multiset()) =~= m);
    }
}

proof fn lemma_move_multiset(res: Seq<TargetConfig>, rem: Seq<TargetConfig>, i: int)
    requires
        0 <= i < rem.len(),
    ensures
        res.push(rem[i]).to_multiset().add(rem.remove(i).to_multiset()) == res.to_multiset().add(
            rem.to_multiset(),
        ),
{
    broadcast use vstd::multiset::group_multiset_axioms;

    res.to_multiset_ensures();
    rem.to_multiset_ensures();
    assert(rem.to_multiset().count(rem[i]) > 0) by {
        assert(rem.contains(rem[i]));
    }
    assert(res.push(rem[i]).to_multiset().add(rem.remove(i).to_multiset()) =~= res.to_multiset().add(
        rem.to_multiset(),
    ));
}

/// An order in which each dependency comes first admits no cycle.
proof fn lemma_closed_avoids(
    out: Seq<TargetConfig>,
    input: Seq<TargetConfig>,
    c: Seq<TargetConfig>,
    p: int,
)
    requires
        out.to_multiset() == input.to_multiset(),
        dependency_ordered(out),
        dependency_closed(input, c),
        0 <= p < out.len(),
    ensures
        forall|i: int| 0 <= i < c.len() ==> c[i] != out[p],
    decreases p,
{
    assert forall|i: int| 0 <= i < c.len() implies c[i] != out[p] by {
        if c[i] == out[p] {
            assert(depends_within(c, i));
            let j = choose|j: int| 0 <= j < c.len() && #[trigger] depends_on(c[i], c[j]);
            lemma_same_elements(input, out, c[j]);
            let q = choose|q: int| 0 <= q < out.len() && out[q] == c[j];
            assert(depends_on(out[p], out[q]));
            lemma_closed_avoids(out, input, c, q);
        }
    }
}

/// A dependency-ordered arrangement of `input` exists only where the
/// dependencies among `input` hold no cycle.
pub proof fn lemma_ordered_acyclic(out: Seq<TargetConfig>, input: Seq<TargetConfig>)
    requires
        out.to_multiset() == input.to_multiset(),
        dependency_ordered(out),
    ensures
        !has_cycle(input),
{
    if has_cycle(input) {
        let c = choose|c: Seq<TargetConfig>| dependency_closed(input, c);
        assert(input.contains(c[0]));
        lemma_same_elements(input, out, c[0]);
        let q = choose|q: int| 0 <= q < out.len() && out[q] == c[0];
        lemma_closed_avoids(out, input, c, q);
    }
}

impl TargetConfig {
    /// Arranges `targets` so that every target comes after each target it
    /// depends on. Dependencies naming no target of the list are ignored.
    /// Fails when the dependencies hold a cycle, naming the two targets that
    /// close one: the first depends on the second.
    pub fn arrange_targets(targets: Vec<TargetConfig>) -> (r: Result<
        Vec<TargetConfig>,
        ConfigError,
    >)
        ensures
            r is Ok <==> !has_cycle(targets@),
            r matches Ok(out) ==> out@.to_multiset() == targets@.to_multiset()
                && dependency_ordered(out@),
            r matches Err(e) ==> e matches ConfigError::CircularDependency { first, second }
                && exists|c: Seq<TargetConfig>|
                dependency_cycle(targets@, c) && c[0].name@ == first@ && c[next_of(c.len() as int, 0)].name@
                    == second@,
    {
        let ghost input = targets@;
        let mut remaining = targets;
        let mut result: Vec<TargetConfig> = Vec::new();
        proof {
            lemma_empty_multiset(result@);
        }
        while remaining.len() > 0
            invariant
                input == targets@,
                result@.to_multiset().add(remaining@.to_multiset()) == input.to_multiset(),
                dependency_ordered(result@),
                forall|p: int, q: int|
                    0 <= p < result@.len() && 0 <= q < remaining@.len() ==> !#[trigger] depends_on(
                        result@[p],
                        remaining@[q],
                    ),
            decreases remaining.len(),
        {
            match find_ready(&remaining) {
                Some(i) => {
                    let ghost before_rem = remaining@;
                    let ghost before_res = result@;
                    let t = remaining.remove(i);
                    result.push(t);
                    proof {
                        assert(remaining@ == before_rem.remove(i as int));
                        assert(result@ == before_res.push(before_rem[i as int]));
                        lemma_move_multiset(before_res, before_rem, i as int);
                        assert forall|p: int, q: int|
                            0 <= p < result@.len() && 0 <= q < result@.len() && #[trigger] depends_on(
                                result@[p],
                                result@[q],
                            ) implies q < p by {
                            let n = before_res.len() as int;
                            if p == n && q == n {
                                assert(!depends_on(before_rem[i as int], before_rem[i as int]));
                            } else if q == n {
                                assert(!depends_on(before_res[p], before_rem[i as int]));
                            }
                        }
                        assert forall|p: int, q: int|
                            0 <= p < result@.len() && 0 <= q < remaining@.len() implies !#[trigger] depends_on(
                                result@[p],
                                remaining@[q],
                            ) by {
                            let qq = if q < i { q } else { q + 1 };
                            assert(remaining@[q] == before_rem[qq]);
                        }
                    }
                },
                None => {
                    let ghost rem = remaining@;
                    proof {
                        assert forall|k: int| 0 <= k < rem.len() implies input.contains(
                            #[trigger] rem[k],
                        ) by {
                            broadcast use vstd::multiset::group_multiset_axioms;

                            rem.to_multiset_ensures();
                            input.to_multiset_ensures();
                            assert(rem.contains(rem[k]));
                            assert(rem.to_multiset().count(rem[k]) > 0);
                            assert(input.to_multiset().count(rem[k]) > 0);
                        }
                        assert forall|k: int| 0 <= k < rem.len() implies #[trigger] depends_within(rem, k) by {
                        }
                        assert(dependency_closed(input, rem));
                        assert(has_cycle(input));
                    }
                    let (a, b) = find_cycle(&remaining);
                    let first = remaining[a].name.clone();
                    let second = remaining[b].name.clone();
                    proof {
                        let c = choose|c: Seq<TargetConfig>|
                            dependency_cycle(rem, c) && c[0] == rem[a as int] && c[next_of(c.len() as int, 0)]
                                == rem[b as int];
                        assert forall|i: int| 0 <= i < c.len() implies input.contains(#[trigger] c[i]) by {
                            assert(rem.contains(c[i]));
                            let k = choose|k: int| 0 <= k < rem.len() && rem[k] == c[i];
                            assert(input.contains(rem[k]));
                        }
                        assert(dependency_cycle(input, c));
                    }
                    return Err(ConfigError::CircularDependency { first, second });
                },
            }
        }
        proof {
            lemma_empty_multiset(remaining@);
            lemma_ordered_acyclic(result@, input);
        }
        Ok(result)
    }
}

} // verus!

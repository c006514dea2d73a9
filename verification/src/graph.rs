//! Recipe dependency planning.
//!
//! Recipes form a graph: recipe `i` depends on the recipes listed in
//! `deps[i]`. Before anything runs, the requested recipes are expanded into
//! an execution order by a post-order depth-first walk that runs every
//! dependency before its dependent and every recipe at most once. A cycle in
//! the graph is an error carrying the full cycle path.

use vstd::prelude::*;

verus! {

/// Well-formedness of a dependency graph: every listed dependency names an
/// existing recipe.
pub open spec fn wf_graph(g: Seq<Vec<usize>>) -> bool {
    forall|i: int, j: int|
        0 <= i < g.len() && 0 <= j < g[i]@.len() ==> (g[i]@[j] as int) < g.len()
}

/// Whether the graph has an edge from `a` to `b`: recipe `a` depends on `b`.
pub open spec fn edge(g: Seq<Vec<usize>>, a: usize, b: usize) -> bool {
    (a as int) < g.len() && exists|j: int| 0 <= j < g[a as int]@.len() && g[a as int]@[j] == b
}

/// Whether `x` occurs in `s`.
pub open spec fn in_seq(s: Seq<usize>, x: usize) -> bool {
    exists|k: int| 0 <= k < s.len() && s[k] == x
}

/// Whether `p` walks a cycle of the graph: consecutive elements are edges
/// and the first element returns as the last.
pub open spec fn is_cycle_path(g: Seq<Vec<usize>>, p: Seq<usize>) -> bool {
    &&& p.len() >= 2
    &&& p[0] == p[p.len() - 1]
    &&& forall|t: int| 0 <= t < p.len() - 1 ==> edge(g, #[trigger] p[t], p[t + 1])
}

/// How many recipes below `k` are marked done or on the stack.
pub open spec fn count_marked(done: Seq<bool>, stk: Seq<bool>, k: int) -> int
    decreases k,
{
    if k <= 0 {
        0
    } else {
        count_marked(done, stk, k - 1) + if done[k - 1] || stk[k - 1] {
            1int
        } else {
            0int
        }
    }
}

proof fn lemma_count_le(done: Seq<bool>, stk: Seq<bool>, k: int)
    requires
        k >= 0,
    ensures
        0 <= count_marked(done, stk, k) <= k,
    decreases k,
{
    if k > 0 {
        lemma_count_le(done, stk, k - 1);
    }
}

proof fn lemma_count_monotone(d1: Seq<bool>, s1: Seq<bool>, d2: Seq<bool>, s2: Seq<bool>, k: int)
    requires
        forall|i: int| 0 <= i < k ==> ((d1[i] || s1[i]) ==> (d2[i] || s2[i])),
    ensures
        count_marked(d1, s1, k) <= count_marked(d2, s2, k),
    decreases k,
{
    if k > 0 {
        lemma_count_monotone(d1, s1, d2, s2, k - 1);
    }
}

proof fn lemma_count_strict(
    d1: Seq<bool>,
    s1: Seq<bool>,
    d2: Seq<bool>,
    s2: Seq<bool>,
    k: int,
    j: int,
)
    requires
        forall|i: int| 0 <= i < k ==> ((d1[i] || s1[i]) ==> (d2[i] || s2[i])),
        0 <= j < k,
        !(d1[j] || s1[j]),
        d2[j] || s2[j],
    ensures
        count_marked(d1, s1, k) + 1 <= count_marked(d2, s2, k),
    decreases k,
{
    if j == k - 1 {
        lemma_count_monotone(d1, s1, d2, s2, k - 1);
    } else {
        lemma_count_strict(d1, s1, d2, s2, k - 1, j);
    }
}

proof fn lemma_in_seq_push(s: Seq<usize>, x: usize, y: usize)
    requires
        in_seq(s, x),
    ensures
        in_seq(s.push(y), x),
{
    let k = choose|k: int| 0 <= k < s.len() && s[k] == x;
    assert(s.push(y)[k] == x);
}

/// Whether every dependency of the recipe at position `i` of `order` stands
/// at an earlier position.
pub open spec fn deps_listed_before(g: Seq<Vec<usize>>, order: Seq<usize>, i: int) -> bool {
    forall|j: int|
        #![trigger g[order[i] as int]@[j]]
        0 <= j < g[order[i] as int]@.len() ==> in_seq(order.take(i), g[order[i] as int]@[j])
}

/// The state invariant of the depth-first walk. `done` marks recipes whose
/// subtree is fully ordered, `stk` marks the recipes on the current walk
/// path, `stack` is that path itself, and `order` is the execution order
/// built so far.
pub open spec fn dfs_inv(
    g: Seq<Vec<usize>>,
    done: Seq<bool>,
    stk: Seq<bool>,
    stack: Seq<usize>,
    order: Seq<usize>,
) -> bool {
    &&& done.len() == g.len()
    &&& stk.len() == g.len()
    &&& forall|k: int|
        #![trigger order[k]]
        0 <= k < order.len() ==> (order[k] as int) < g.len() && done[order[k] as int]
    &&& forall|i: usize|
        #![trigger done[i as int]]
        (i as int) < g.len() && done[i as int] ==> in_seq(order, i)
    &&& forall|i: int, j: int|
        #![trigger order[i], order[j]]
        0 <= i < j < order.len() ==> order[i] != order[j]
    &&& forall|i: int| 0 <= i < order.len() ==> #[trigger] deps_listed_before(g, order, i)
    &&& forall|i: int|
        #![trigger done[i]]
        #![trigger stk[i]]
        0 <= i < g.len() ==> !(done[i] && stk[i])
    &&& forall|k: int|
        #![trigger stack[k]]
        0 <= k < stack.len() ==> (stack[k] as int) < g.len() && stk[stack[k] as int]
    &&& forall|i: usize|
        #![trigger stk[i as int]]
        (i as int) < g.len() && stk[i as int] ==> in_seq(stack, i)
    &&& forall|t: int| 0 <= t < stack.len() - 1 ==> edge(g, #[trigger] stack[t], stack[t + 1])
}

/// Entering recipe `u` keeps the walk invariant: `u` goes onto the stack,
/// which it extends by a dependency edge.
proof fn lemma_push_inv(
    g: Seq<Vec<usize>>,
    done: Seq<bool>,
    stk: Seq<bool>,
    stack: Seq<usize>,
    order: Seq<usize>,
    u: usize,
)
    requires
        dfs_inv(g, done, stk, stack, order),
        (u as int) < g.len(),
        !done[u as int],
        !stk[u as int],
        stack.len() > 0 ==> edge(g, stack[stack.len() - 1], u),
    ensures
        dfs_inv(g, done, stk.update(u as int, true), stack.push(u), order),
{
    let stk2 = stk.update(u as int, true);
    let stack2 = stack.push(u);
    assert forall|i: usize| (i as int) < g.len() && stk2[i as int] implies in_seq(stack2, i) by {
        if i == u {
            assert(stack2[stack2.len() - 1] == u);
        } else {
            assert(stk[i as int]);
            assert(in_seq(stack, i));
            lemma_in_seq_push(stack, i, u);
        }
    }
    assert forall|k: int|
        0 <= k < stack2.len() implies (stack2[k] as int) < g.len() && stk2[stack2[k] as int] by {
        if k < stack2.len() - 1 {
            assert(stack2[k] == stack[k]);
            assert(stk[stack[k] as int]);
        } else {
            assert(stack2[k] == u);
        }
    }
    assert forall|t: int| 0 <= t < stack2.len() - 1 implies edge(
        g,
        #[trigger] stack2[t],
        stack2[t + 1],
    ) by {
        if t < stack2.len() - 2 {
            assert(stack2[t] == stack[t]);
            assert(stack2[t + 1] == stack[t + 1]);
            assert(edge(g, stack[t], stack[t + 1]));
        } else {
            assert(stack2[t] == stack[stack.len() - 1]);
            assert(stack2[t + 1] == u);
        }
    }
}

/// Leaving recipe `u` keeps the walk invariant: all of `u`'s dependencies
/// are done, `u` is appended to the order, marked done, and taken off the
/// stack.
proof fn lemma_pop_inv(
    g: Seq<Vec<usize>>,
    done: Seq<bool>,
    stk: Seq<bool>,
    stack: Seq<usize>,
    order: Seq<usize>,
    u: usize,
)
    requires
        wf_graph(g),
        dfs_inv(g, done, stk.update(u as int, true), stack.push(u), order),
        (u as int) < g.len(),
        stk.len() == g.len(),
        !done[u as int],
        !stk[u as int],
        forall|k: int| 0 <= k < stack.len() ==> stack[k] != u,
        forall|j: int| 0 <= j < g[u as int]@.len() ==> done[#[trigger] g[u as int]@[j] as int],
    ensures
        dfs_inv(g, done.update(u as int, true), stk, stack, order.push(u)),
{
    let stk2 = stk.update(u as int, true);
    let stack2 = stack.push(u);
    let done2 = done.update(u as int, true);
    let od = order.push(u);
    assert(od[od.len() - 1] == u);
    assert forall|k: int|
        0 <= k < od.len() implies (od[k] as int) < g.len() && done2[od[k] as int] by {
        if k < od.len() - 1 {
            assert(od[k] == order[k]);
            assert(done[order[k] as int]);
        }
    }
    assert forall|i: usize| (i as int) < g.len() && done2[i as int] implies in_seq(od, i) by {
        if i == u {
            assert(od[od.len() - 1] == u);
        } else {
            assert(done[i as int]);
            assert(in_seq(order, i));
            lemma_in_seq_push(order, i, u);
        }
    }
    assert forall|i: int, j: int| 0 <= i < j < od.len() implies od[i] != od[j] by {
        if j == od.len() - 1 && od[i] == u {
            assert(order[i] == u);
            assert(done[u as int]);
        }
    }
    assert forall|i: int| 0 <= i < od.len() implies #[trigger] deps_listed_before(g, od, i) by {
        if i == od.len() - 1 {
            assert forall|j: int|
                0 <= j < g[od[i] as int]@.len() implies in_seq(
                od.take(i),
                #[trigger] g[od[i] as int]@[j],
            ) by {
                assert(od[i] == u);
                let dep = g[u as int]@[j];
                assert(g[od[i] as int]@[j] == dep);
                assert((dep as int) < g.len());
                assert(done[dep as int]);
                assert(in_seq(order, dep));
                let k = choose|k: int| 0 <= k < order.len() && order[k] == dep;
                assert(od.take(i)[k] == dep);
            }
        } else {
            assert(od[i] == order[i]);
            assert(deps_listed_before(g, order, i));
            assert forall|j: int|
                0 <= j < g[od[i] as int]@.len() implies in_seq(
                od.take(i),
                #[trigger] g[od[i] as int]@[j],
            ) by {
                let dep = g[order[i] as int]@[j];
                assert(g[od[i] as int]@[j] == dep);
                assert(in_seq(order.take(i), dep));
                let k = choose|k: int| 0 <= k < order.take(i).len() && order.take(i)[k] == dep;
                assert(od.take(i)[k] == dep);
            }
        }
    }
    assert forall|k: int|
        0 <= k < stack.len() implies (stack[k] as int) < g.len() && stk[stack[k] as int] by {
        assert(stack2[k] == stack[k]);
        assert(stk2[stack2[k] as int]);
        assert(stack[k] != u);
    }
    assert forall|i: usize| (i as int) < g.len() && stk[i as int] implies in_seq(stack, i) by {
        assert(stk2[i as int]);
        assert(in_seq(stack2, i));
        let k = choose|k: int| 0 <= k < stack2.len() && stack2[k] == i;
        if k == stack2.len() - 1 {
            assert(i == u);
            assert(false);
        } else {
            assert(stack[k] == i);
        }
    }
    assert forall|t: int| 0 <= t < stack.len() - 1 implies edge(
        g,
        #[trigger] stack[t],
        stack[t + 1],
    ) by {
        assert(stack2[t] == stack[t]);
        assert(stack2[t + 1] == stack[t + 1]);
        assert(edge(g, stack2[t], stack2[t + 1]));
    }
}

/// A circular dependency: walking `path` returns to its first recipe.
/// `recipe` is the recipe whose dependency closed the cycle.
#[derive(Debug)]
pub struct CycleError {
    pub recipe: usize,
    pub path: Vec<usize>,
}

/// A vector of `n` `false` marks.
fn mk_marks(n: usize) -> (r: Vec<bool>)
    ensures
        r@.len() == n,
        forall|i: int| 0 <= i < n ==> !r@[i],
{
    let mut r: Vec<bool> = Vec::new();
    let mut i: usize = 0;
    while i < n
        invariant
            i <= n,
            r@.len() == i,
            forall|j: int| 0 <= j < i ==> !r@[j],
        decreases n - i,
    {
        r.push(false);
        i = i + 1;
    }
    r
}

/// The elements of `v` from `from` (inclusive) to `to` (exclusive).
fn sub_indices(v: &Vec<usize>, from: usize, to: usize) -> (r: Vec<usize>)
    requires
        from <= to <= v@.len(),
    ensures
        r@ == v@.subrange(from as int, to as int),
{
    let mut r: Vec<usize> = Vec::new();
    let mut i: usize = from;
    while i < to
        invariant
            from <= i <= to <= v@.len(),
            r@ == v@.subrange(from as int, i as int),
        decreases to - i,
    {
        r.push(v[i]);
        i = i + 1;
        proof {
            assert(r@ =~= v@.subrange(from as int, i as int));
        }
    }
    r
}

/// The cycle closed by the walk path `stack`, whose top recipe `u` depends
/// on the on-path recipe `d`: the part of the path from `d` on, with `d`
/// appended.
fn build_cycle(g: &Vec<Vec<usize>>, stack: &Vec<usize>, u: usize, d: usize) -> (e: CycleError)
    requires
        forall|k: int|
            #![trigger stack@[k]]
            0 <= k < stack@.len() ==> (stack@[k] as int) < g@.len(),
        forall|t: int| 0 <= t < stack@.len() - 1 ==> edge(g@, #[trigger] stack@[t], stack@[t + 1]),
        in_seq(stack@, d),
        stack@.len() > 0,
        stack@[stack@.len() - 1] == u,
        edge(g@, u, d),
        (d as int) < g@.len(),
    ensures
        is_cycle_path(g@, e.path@),
        e.path@.len() >= 2,
        e.path@[e.path@.len() - 2] == e.recipe,
        forall|t: int| 0 <= t < e.path@.len() ==> (e.path@[t] as int) < g@.len(),
{
    let mut k: usize = 0;
    let slen = stack.len();
    while k < slen
        invariant_except_break
            slen == stack@.len(),
            k <= slen,
            forall|j: int| 0 <= j < k ==> stack@[j] != d,
            in_seq(stack@, d),
        ensures
            slen == stack@.len(),
            k <= slen,
            forall|j: int| 0 <= j < k ==> stack@[j] != d,
            in_seq(stack@, d),
            k < slen ==> stack@[k as int] == d,
        decreases slen - k,
    {
        if stack[k] == d {
            break;
        }
        k = k + 1;
    }
    if k == slen {
        proof {
            assert(false);
        }
        return CycleError { recipe: u, path: Vec::new() };
    }
    let mut path = sub_indices(stack, k, slen);
    path.push(d);
    proof {
        let p = path@;
        assert(p.len() == slen - k + 1);
        assert(p[0] == stack@[k as int]);
        assert(stack@[k as int] == d);
        assert(p[p.len() - 1] == d);
        assert(p[p.len() - 2] == u);
        assert forall|t: int| 0 <= t < p.len() - 1 implies edge(g@, #[trigger] p[t], p[t + 1]) by {
            if t < p.len() - 2 {
                assert(p[t] == stack@[k + t]);
                assert(p[t + 1] == stack@[k + t + 1]);
                assert(edge(g@, stack@[k + t], stack@[k + t + 1]));
            } else {
                assert(p[t] == u);
                assert(p[t + 1] == d);
                assert(edge(g@, u, d));
            }
        }
        assert forall|t: int| 0 <= t < p.len() implies (p[t] as int) < g@.len() by {
            if t < p.len() - 1 {
                assert(p[t] == stack@[k + t]);
            } else {
                assert(p[t] == d);
            }
        }
    }
    CycleError { recipe: u, path }
}

/// Walks recipe `u`'s subtree, appending every recipe of it to `order` after
/// its dependencies. Fails with the cycle path when a dependency leads back
/// to a recipe on the current walk path.
#[verifier::rlimit(60)]
fn visit(
    g: &Vec<Vec<usize>>,
    u: usize,
    done: &mut Vec<bool>,
    stk: &mut Vec<bool>,
    stack: &mut Vec<usize>,
    order: &mut Vec<usize>,
) -> (r: Result<(), CycleError>)
    requires
        wf_graph(g@),
        (u as int) < g@.len(),
        dfs_inv(g@, old(done)@, old(stk)@, old(stack)@, old(order)@),
        !old(done)@[u as int],
        !old(stk)@[u as int],
        old(stack)@.len() > 0 ==> edge(g@, old(stack)@[old(stack)@.len() - 1], u),
    ensures
        match r {
            Ok(_) => {
                &&& dfs_inv(g@, final(done)@, final(stk)@, final(stack)@, final(order)@)
                &&& final(stk)@ == old(stk)@
                &&& final(stack)@ == old(stack)@
                &&& final(done)@.len() == old(done)@.len()
                &&& forall|i: int| 0 <= i < g@.len() && old(done)@[i] ==> final(done)@[i]
                &&& final(done)@[u as int]
                &&& final(order)@.len() >= old(order)@.len()
                &&& final(order)@.take(old(order)@.len() as int) == old(order)@
            },
            Err(e) => {
                &&& is_cycle_path(g@, e.path@)
                &&& e.path@.len() >= 2
                &&& e.path@[e.path@.len() - 2] == e.recipe
                &&& forall|t: int| 0 <= t < e.path@.len() ==> (e.path@[t] as int) < g@.len()
            },
        },
    decreases g@.len() - count_marked(old(done)@, old(stk)@, g@.len() as int),
{
    let ghost n = g@.len() as int;
    let ghost done0 = done@;
    let ghost stk0 = stk@;
    let ghost stack0 = stack@;
    let ghost order0 = order@;
    proof {
        lemma_count_le(done0, stk0, n);
        lemma_push_inv(g@, done0, stk0, stack0, order0, u);
    }
    stack.push(u);
    stk.set(u, true);
    let nd = g[u].len();
    let mut di: usize = 0;
    while di < nd
        invariant
            wf_graph(g@),
            (u as int) < g@.len(),
            g@.len() == n,
            nd == g@[u as int]@.len(),
            di <= nd,
            dfs_inv(g@, done@, stk@, stack@, order@),
            stk@ == stk0.update(u as int, true),
            stk0.len() == g@.len(),
            !stk0[u as int],
            !done@[u as int],
            stack@ == stack0.push(u),
            forall|i: int| 0 <= i < g@.len() && done0[i] ==> done@[i],
            done0.len() == done@.len(),
            forall|i: int| 0 <= i < n ==> ((done0[i] || stk0[i]) ==> (done@[i] || stk@[i])),
            forall|j: int| 0 <= j < di ==> done@[#[trigger] g@[u as int]@[j] as int],
            order@.len() >= order0.len(),
            order@.take(order0.len() as int) == order0,
            done0 == old(done)@,
            stk0 == old(stk)@,
        decreases nd - di,
    {
        let d = g[u][di];
        proof {
            assert(g@[u as int]@[di as int] == d);
            assert((d as int) < g@.len());
            assert(edge(g@, u, d));
        }
        if stk[d] {
            // `d` is an ancestor on the walk path: the path from its position
            // to `u`, closed with `d` itself, is a cycle.
            proof {
                assert(in_seq(stack@, d));
                assert(stack@[stack@.len() - 1] == u);
            }
            return Err(build_cycle(g, stack, u, d));
        }
        if !done[d] {
            proof {
                lemma_count_le(done@, stk@, n);
                lemma_count_strict(done0, stk0, done@, stk@, n, u as int);
            }
            match visit(g, d, done, stk, stack, order) {
                Ok(_) => {},
                Err(e) => {
                    return Err(e);
                },
            }
        }
        di = di + 1;
        proof {
            assert(order@.take(order0.len() as int) =~= order0);
        }
    }
    // Every dependency of `u` is ordered; `u` itself comes after them.
    proof {
        assert forall|k: int| 0 <= k < stack0.len() implies stack0[k] != u by {
            assert(stk0[stack0[k] as int]);
        }
        lemma_pop_inv(g@, done@, stk0, stack0, order@, u);
    }
    let ghost order_pre = order@;
    let ghost done_b = done@;
    order.push(u);
    done.set(u, true);
    stk.set(u, false);
    stack.pop();
    proof {
        assert(stk@ =~= stk0);
        assert(stack@ =~= stack0);
        assert(dfs_inv(g@, done@, stk@, stack@, order@));
        assert(order@.take(order0.len() as int) =~= order0);
    }
    Ok(())
}

proof fn lemma_in_seq_prefix(s1: Seq<usize>, s2: Seq<usize>, x: usize)
    requires
        s2.len() >= s1.len(),
        s2.take(s1.len() as int) == s1,
        in_seq(s1, x),
    ensures
        in_seq(s2, x),
{
    let k = choose|k: int| 0 <= k < s1.len() && s1[k] == x;
    assert(s2.take(s1.len() as int)[k] == x);
    assert(s2[k] == x);
}

/// Expands the requested recipes into an execution order: a post-order
/// depth-first walk of the dependency graph. Every recipe reached appears
/// exactly once, after all of its dependencies; the requested recipes all
/// appear. A cycle reachable from a requested recipe is an error carrying
/// the cycle's path; conversely an order satisfying this contract shows
/// that no cycle was reachable.
pub fn plan(g: &Vec<Vec<usize>>, roots: &Vec<usize>) -> (r: Result<Vec<usize>, CycleError>)
    requires
        wf_graph(g@),
        forall|i: int| 0 <= i < roots@.len() ==> ((#[trigger] roots@[i]) as int) < g@.len(),
    ensures
        match r {
            Ok(order) => {
                &&& forall|k: int|
                    #![trigger order@[k]]
                    0 <= k < order@.len() ==> (order@[k] as int) < g@.len()
                &&& forall|i: int, j: int|
                    #![trigger order@[i], order@[j]]
                    0 <= i < j < order@.len() ==> order@[i] != order@[j]
                &&& forall|i: int| 0 <= i < order@.len() ==> #[trigger] deps_listed_before(
                    g@,
                    order@,
                    i,
                )
                &&& forall|i: int| 0 <= i < roots@.len() ==> in_seq(order@, #[trigger] roots@[i])
            },
            Err(e) => {
                &&& is_cycle_path(g@, e.path@)
                &&& e.path@.len() >= 2
                &&& e.path@[e.path@.len() - 2] == e.recipe
                &&& forall|t: int| 0 <= t < e.path@.len() ==> (e.path@[t] as int) < g@.len()
            },
        },
{
    let n = g.len();
    let mut done = mk_marks(n);
    let mut stk = mk_marks(n);
    let mut stack: Vec<usize> = Vec::new();
    let mut order: Vec<usize> = Vec::new();
    let mut ri: usize = 0;
    while ri < roots.len()
        invariant
            wf_graph(g@),
            forall|i: int| 0 <= i < roots@.len() ==> ((#[trigger] roots@[i]) as int) < g@.len(),
            ri <= roots@.len(),
            n == g@.len(),
            dfs_inv(g@, done@, stk@, stack@, order@),
            stack@.len() == 0,
            forall|i: int| 0 <= i < g@.len() ==> !stk@[i],
            forall|i: int| 0 <= i < ri ==> in_seq(order@, #[trigger] roots@[i]),
        decreases roots@.len() - ri,
    {
        let ghost order_pre = order@;
        let root = roots[ri];
        if !done[root] {
            match visit(g, root, &mut done, &mut stk, &mut stack, &mut order) {
                Ok(_) => {
                    proof {
                        assert(done@[root as int]);
                        assert(in_seq(order@, root));
                    }
                },
                Err(e) => {
                    return Err(e);
                },
            }
        } else {
            proof {
                assert(in_seq(order@, root));
            }
        }
        ri = ri + 1;
        proof {
            assert(order@.take(order_pre.len() as int) =~= order_pre);
            assert forall|i: int| 0 <= i < ri implies in_seq(order@, #[trigger] roots@[i]) by {
                if i < ri - 1 {
                    lemma_in_seq_prefix(order_pre, order@, roots@[i]);
                }
            }
        }
    }
    Ok(order)
}

/// What follows the first name in a rendered dependency path: each further
/// name after an arrow.
pub open spec fn arrows_tail(names: Seq<String>, rest: Seq<usize>) -> Seq<char>
    decreases rest.len(),
{
    if rest.len() == 0 {
        Seq::<char>::empty()
    } else {
        " -> "@ + names[rest[0] as int]@ + arrows_tail(names, rest.drop_first())
    }
}

/// The names along `path`, joined by arrows.
pub open spec fn path_names(names: Seq<String>, path: Seq<usize>) -> Seq<char> {
    if path.len() == 0 {
        Seq::<char>::empty()
    } else {
        names[path[0] as int]@ + arrows_tail(names, path.drop_first())
    }
}

/// The message a circular dependency renders to: a recipe that depends on
/// itself is said so directly, any longer cycle is spelled out name by name.
pub open spec fn cycle_message_spec(names: Seq<String>, recipe: usize, path: Seq<usize>)
    -> Seq<char> {
    if path.len() == 2 {
        "Recipe `"@ + names[recipe as int]@ + "` depends on itself"@
    } else {
        "Recipe `"@ + names[recipe as int]@ + "` has circular dependency `"@ + path_names(
            names,
            path,
        ) + "`"@
    }
}

/// Renders the names along `path`, joined by arrows.
fn render_path(names: &Vec<String>, path: &Vec<usize>) -> (r: String)
    requires
        forall|t: int| 0 <= t < path@.len() ==> ((#[trigger] path@[t]) as int) < names@.len(),
    ensures
        r@ == path_names(names@, path@),
{
    if path.len() == 0 {
        return String::new();
    }
    let mut r = String::from_str(names[path[0]].as_str());
    let mut i: usize = 1;
    proof {
        assert(path@.skip(1) =~= path@.drop_first());
    }
    while i < path.len()
        invariant
            1 <= i <= path@.len(),
            forall|t: int| 0 <= t < path@.len() ==> ((#[trigger] path@[t]) as int) < names@.len(),
            path_names(names@, path@) == r@ + arrows_tail(names@, path@.skip(i as int)),
        decreases path@.len() - i,
    {
        let ghost r0 = r@;
        proof {
            assert(path@.skip(i as int)[0] == path@[i as int]);
            assert(path@.skip(i as int).drop_first() =~= path@.skip(i as int + 1));
        }
        r.append(" -> ");
        r.append(names[path[i]].as_str());
        proof {
            let x = arrows_tail(names@, path@.skip(i as int + 1));
            assert(arrows_tail(names@, path@.skip(i as int)) == " -> "@ + names@[path@[i as int] as int]@
                + x);
            assert(r@ + x =~= r0 + (" -> "@ + names@[path@[i as int] as int]@ + x));
        }
        i = i + 1;
    }
    proof {
        assert(path@.skip(path@.len() as int) =~= Seq::<usize>::empty());
        assert(r@ + Seq::<char>::empty() =~= r@);
    }
    r
}

impl CycleError {
    /// The message this cycle renders to, given every recipe's name.
    pub fn message(&self, names: &Vec<String>) -> (r: String)
        requires
            (self.recipe as int) < names@.len(),
            forall|t: int|
                0 <= t < self.path@.len() ==> ((#[trigger] self.path@[t]) as int) < names@.len(),
        ensures
            r@ == cycle_message_spec(names@, self.recipe, self.path@),
    {
        if self.path.len() == 2 {
            let mut r = String::from_str("Recipe `");
            r.append(names[self.recipe].as_str());
            r.append("` depends on itself");
            proof {
                assert(r@ =~= cycle_message_spec(names@, self.recipe, self.path@));
            }
            r
        } else {
            let mut r = String::from_str("Recipe `");
            r.append(names[self.recipe].as_str());
            r.append("` has circular dependency `");
            let shown = render_path(names, &self.path);
            r.append(shown.as_str());
            r.append("`");
            proof {
                assert(r@ =~= cycle_message_spec(names@, self.recipe, self.path@));
            }
            r
        }
    }
}

} // verus!

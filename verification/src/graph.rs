//! Acyclicity of a dependency graph given as adjacency lists.
use vstd::prelude::*;
use vstd::set_lib::{lemma_int_range, lemma_len_subset, set_int_range};

verus! {

pub open spec fn view_graph(g: Seq<Vec<usize>>) -> Seq<Seq<usize>> {
    g.map_values(|v: Vec<usize>| v@)
}

pub open spec fn edges_in_range(g: Seq<Seq<usize>>) -> bool {
    forall|i: int, k: int| 0 <= i < g.len() && 0 <= k < g[i].len() ==> (#[trigger] g[i][k]) < g.len()
}

/// Every edge leads to a node of strictly smaller rank.
pub open spec fn ranked(g: Seq<Seq<usize>>, rank: spec_fn(int) -> int) -> bool {
    forall|i: int, k: int| 0 <= i < g.len() && 0 <= k < g[i].len() ==> rank(#[trigger] g[i][k] as int) < rank(i)
}

/// A graph is acyclic when its nodes can be ranked so that every node
/// depends only on nodes of smaller rank.
pub open spec fn acyclic(g: Seq<Seq<usize>>) -> bool {
    exists|rank: spec_fn(int) -> int| ranked(g, rank)
}

pub open spec fn deps_done(g: Seq<Seq<usize>>, done: Seq<bool>, i: int) -> bool {
    forall|k: int| 0 <= k < g[i].len() ==> done[#[trigger] g[i][k] as int]
}

proof fn lemma_min_rank(done: Seq<bool>, rank: spec_fn(int) -> int, n: int) -> (u: int)
    requires
        0 <= n <= done.len(),
        exists|i: int| 0 <= i < n && !done[i],
    ensures
        0 <= u < n,
        !done[u],
        forall|v: int| 0 <= v < n && !done[v] ==> rank(u) <= rank(v),
    decreases n,
{
    if exists|i: int| 0 <= i < n - 1 && !done[i] {
        let u0 = lemma_min_rank(done, rank, n - 1);
        if !done[n - 1] && rank(n - 1) < rank(u0) {
            n - 1
        } else {
            u0
        }
    } else {
        n - 1
    }
}

/// Whether the graph has no dependency cycle.
pub fn is_acyclic(g: &Vec<Vec<usize>>) -> (r: bool)
    requires
        edges_in_range(view_graph(g@)),
    ensures
        r == acyclic(view_graph(g@)),
{
    let ghost gv = view_graph(g@);
    let n = g.len();
    let mut done: Vec<bool> = Vec::new();
    let mut z: usize = 0;
    while z < n
        invariant
            z <= n,
            done@.len() == z,
            forall|q: int| 0 <= q < z ==> !done@[q],
        decreases n - z,
    {
        done.push(false);
        z = z + 1;
    }
    let ghost mut pos: Seq<int> = Seq::new(n as nat, |q: int| 0);
    let ghost mut marked: Set<int> = Set::empty();
    let mut count: usize = 0;
    proof {
        lemma_int_range(0, n as int);
    }
    let mut progress = true;
    while progress
        invariant
            n == g@.len(),
            gv == view_graph(g@),
            edges_in_range(gv),
            done@.len() == n,
            pos.len() == n,
            marked.finite(),
            marked.len() == count,
            forall|q: int| marked.contains(q) <==> (0 <= q < n && done@[q]),
            set_int_range(0, n as int).finite(),
            set_int_range(0, n as int).len() == n,
            count <= n,
            forall|j: int| 0 <= j < n && done@[j] ==> pos[j] < count,
            forall|i: int| #![trigger done@[i]] 0 <= i < n && done@[i] ==> deps_done(gv, done@, i)
                && forall|k: int| 0 <= k < gv[i].len() ==> pos[gv[i][k] as int] < pos[i],
            !progress ==> forall|i: int| 0 <= i < n && !done@[i] ==> !deps_done(gv, done@, i),
        decreases n - count + (if progress { 1int } else { 0int }),
    {
        progress = false;
        let ghost start_count = count;
        let mut i: usize = 0;
        while i < n
            invariant
                n == g@.len(),
                gv == view_graph(g@),
                edges_in_range(gv),
                done@.len() == n,
                pos.len() == n,
                i <= n,
                marked.finite(),
                marked.len() == count,
                forall|q: int| marked.contains(q) <==> (0 <= q < n && done@[q]),
                set_int_range(0, n as int).finite(),
                set_int_range(0, n as int).len() == n,
                count <= n,
                forall|j: int| 0 <= j < n && done@[j] ==> pos[j] < count,
                progress ==> count > start_count,
                !progress ==> count == start_count,
                forall|j: int| #![trigger done@[j]] 0 <= j < n && done@[j] ==> deps_done(gv, done@, j)
                    && forall|k: int| 0 <= k < gv[j].len() ==> pos[gv[j][k] as int] < pos[j],
                !progress ==> forall|j: int| 0 <= j < i && !done@[j] ==> !deps_done(gv, done@, j),
            decreases n - i,
        {
            if !done[i] {
                let mut ready = true;
                let mut k: usize = 0;
                let di = &g[i];
                assert(di@ == gv[i as int]);
                while k < di.len()
                    invariant
                        done@.len() == n,
                        di@ == gv[i as int],
                        edges_in_range(gv),
                        n == gv.len(),
                        i < n,
                        k <= di@.len(),
                        ready == (forall|q: int| 0 <= q < k ==> done@[#[trigger] gv[i as int][q] as int]),
                    decreases di@.len() - k,
                {
                    assert(gv[i as int][k as int] < n);
                    if !done[di[k]] {
                        ready = false;
                    }
                    k = k + 1;
                }
                if ready {
                    proof {
                        assert(!marked.contains(i as int));
                        marked = marked.insert(i as int);
                        assert(marked.subset_of(set_int_range(0, n as int)));
                        lemma_len_subset(marked, set_int_range(0, n as int));
                        let mut m: int = 0;
                        let bigger = count as int;
                        pos = pos.update(i as int, bigger);
                    }
                    let ghost old_done = done@;
                    done.set(i, true);
                    proof {
                        assert forall|j: int| #![trigger done@[j]] 0 <= j < n && done@[j] implies deps_done(gv, done@, j)
                            && forall|kk: int| 0 <= kk < gv[j].len() ==> pos[gv[j][kk] as int] < pos[j] by {
                            if j == i {
                                assert forall|kk: int| 0 <= kk < gv[j].len() implies pos[gv[j][kk] as int] < pos[j] by {
                                    let d = gv[j][kk] as int;
                                    assert(old_done[d]);
                                    assert(d != i);
                                    assert(pos[d] < count);
                                }
                            } else {
                                assert(old_done[j]);
                                assert forall|kk: int| 0 <= kk < gv[j].len() implies done@[#[trigger] gv[j][kk] as int] by {
                                    assert(old_done[gv[j][kk] as int]);
                                }
                                assert forall|kk: int| 0 <= kk < gv[j].len() implies pos[gv[j][kk] as int] < pos[j] by {
                                    let d = gv[j][kk] as int;
                                    assert(old_done[d]);
                                    assert(d != i);
                                }
                            }
                        }
                    }
                    count = count + 1;
                    progress = true;
                }
            }
            i = i + 1;
        }
    }
    let mut all = true;
    let mut q: usize = 0;
    while q < n
        invariant
            done@.len() == n,
            q <= n,
            all == (forall|j: int| 0 <= j < q ==> done@[j]),
        decreases n - q,
    {
        if !done[q] {
            all = false;
        }
        q = q + 1;
    }
    proof {
        if all {
            let rank = |x: int| pos[x];
            assert(ranked(gv, rank)) by {
                assert forall|i: int, k: int| 0 <= i < gv.len() && 0 <= k < gv[i].len() implies rank(#[trigger] gv[i][k] as int) < rank(i) by {
                    assert(done@[i]);
                }
            }
        } else {
            assert forall|rank: spec_fn(int) -> int| !ranked(gv, rank) by {
                if ranked(gv, rank) {
                    let u = lemma_min_rank(done@, rank, n as int);
                    assert(!deps_done(gv, done@, u));
                    let k = choose|k: int| 0 <= k < gv[u].len() && !done@[#[trigger] gv[u][k] as int];
                    let d = gv[u][k] as int;
                    assert(rank(d) < rank(u));
                }
            }
        }
    }
    all
}

} // verus!

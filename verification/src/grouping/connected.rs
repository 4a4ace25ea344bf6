//! Grouping by connected components: two comparable files are linked when their
//! distance is within the threshold, and each component with a link is a group.
use vstd::prelude::*;
use crate::order::{lemma_path_order, path_less, path_lt, paths_strictly_sorted, same_text};
use crate::error::TelfhashError;
use crate::model::{GroupingResult, TelfhashResult};
use crate::ports::SimilarityHasher;
use crate::grouping::common::{
    eligible_digests, eligible_files, eligible_results, first_failure_measured, measured_table,
    pairwise_distances,
};
use crate::grouping::graph::{
    component_of, index_closed, index_connected, lemma_connected_refl, lemma_connected_symm,
    lemma_connected_trans, lemma_lonely_component, lonely, square, symmetric,
};

verus! {

/// Entries `i < j` of the comparable list lie within the threshold.
pub open spec fn pair_within(dist: Seq<Seq<u32>>, threshold: u32, n: int, i: int, j: int) -> bool {
    0 <= i < j < n && dist[i][j] <= threshold
}

/// Some pair of comparable entries, one for each path, lies within the threshold.
pub open spec fn linked(
    files: Seq<Seq<char>>,
    dist: Seq<Seq<u32>>,
    threshold: u32,
    a: Seq<char>,
    b: Seq<char>,
) -> bool {
    exists|i: int, j: int|
        #[trigger] pair_within(dist, threshold, files.len() as int, i, j) && ((files[i] == a
            && files[j] == b) || (files[i] == b && files[j] == a))
}

/// A set of paths that no link leaves.
pub open spec fn closed_under_links(
    files: Seq<Seq<char>>,
    dist: Seq<Seq<u32>>,
    threshold: u32,
    s: Set<Seq<char>>,
) -> bool {
    forall|x: Seq<char>, y: Seq<char>|
        #![trigger s.contains(x), linked(files, dist, threshold, x, y)]
        s.contains(x) && linked(files, dist, threshold, x, y) ==> s.contains(y)
}

/// `b` lies in the component of `a`: in every link-closed set that holds `a`.
pub open spec fn connected(
    files: Seq<Seq<char>>,
    dist: Seq<Seq<u32>>,
    threshold: u32,
    a: Seq<char>,
    b: Seq<char>,
) -> bool {
    forall|s: Set<Seq<char>>|
        #[trigger] closed_under_links(files, dist, threshold, s) && s.contains(a) ==> s.contains(b)
}

/// A comparable path with no link.
pub open spec fn isolated(
    files: Seq<Seq<char>>,
    dist: Seq<Seq<u32>>,
    threshold: u32,
    a: Seq<char>,
) -> bool {
    files.contains(a) && forall|b: Seq<char>| !#[trigger] linked(files, dist, threshold, a, b)
}

/// The groups are the components that hold a link, each listed in order and
/// the groups ordered by their first paths; the isolated paths are listed in
/// order apart.
pub open spec fn is_connected_grouping(
    files: Seq<Seq<char>>,
    dist: Seq<Seq<u32>>,
    threshold: u32,
    grouped: Seq<Seq<Seq<char>>>,
    nogroup: Seq<Seq<char>>,
) -> bool {
    &&& paths_strictly_sorted(nogroup)
    &&& forall|x: Seq<char>| #[trigger] nogroup.contains(x) <==> isolated(files, dist, threshold, x)
    &&& forall|k: int|
        #![trigger grouped[k]]
        0 <= k < grouped.len() ==> {
            &&& grouped[k].len() > 0
            &&& paths_strictly_sorted(grouped[k])
            &&& files.contains(grouped[k][0])
            &&& !isolated(files, dist, threshold, grouped[k][0])
            &&& forall|x: Seq<char>|
                #[trigger] grouped[k].contains(x) <==> connected(
                    files,
                    dist,
                    threshold,
                    grouped[k][0],
                    x,
                )
        }
    &&& forall|k: int, l: int|
        0 <= k < l < grouped.len() ==> path_less(#[trigger] grouped[k][0], #[trigger] grouped[l][0])
    &&& forall|x: Seq<char>|
        files.contains(x) && !isolated(files, dist, threshold, x) ==> exists|k: int|
            0 <= k < grouped.len() && #[trigger] grouped[k].contains(x)
}

/// The outcome of grouping by components over comparable `files` and
/// distances `dist`: nothing when fewer than two files compare.
pub open spec fn is_components_grouping(
    files: Seq<Seq<char>>,
    dist: Seq<Seq<u32>>,
    threshold: u32,
    grouped: Seq<Seq<Seq<char>>>,
    nogroup: Seq<Seq<char>>,
) -> bool {
    if files.len() < 2 {
        grouped.len() == 0 && nogroup.len() == 0
    } else {
        is_connected_grouping(files, dist, threshold, grouped, nogroup)
    }
}

/// A square distance table over `n` entries.
pub open spec fn distance_table(dist: Seq<Seq<u32>>, n: int) -> bool {
    dist.len() == n && forall|i: int| 0 <= i < n ==> #[trigger] dist[i].len() == n
}

/// The distinct paths of `files`, in order.
pub fn distinct_sorted_paths(files: &Vec<String>) -> (nodes: Vec<String>)
    ensures
        paths_strictly_sorted(nodes.deep_view()),
        forall|x: Seq<char>| #[trigger] nodes.deep_view().contains(x) <==> files.deep_view().contains(x),
{
    let mut nodes: Vec<String> = Vec::new();
    let n = files.len();
    for i in 0..n
        invariant
            n == files@.len(),
            paths_strictly_sorted(nodes.deep_view()),
            forall|x: Seq<char>|
                #[trigger] nodes.deep_view().contains(x) <==> files.deep_view().take(i as int).contains(x),
    {
        let f = &files[i];
        let mut p: usize = 0;
        while p < nodes.len() && path_lt(nodes[p].as_str(), f.as_str())
            invariant
                0 <= p <= nodes@.len(),
                f@ == files.deep_view()[i as int],
                forall|k: int| 0 <= k < p ==> path_less(#[trigger] nodes.deep_view()[k], f@),
            decreases nodes@.len() - p,
        {
            p = p + 1;
        }
        let ghost before = nodes.deep_view();
        proof {
            assert(files.deep_view().take(i + 1) =~= files.deep_view().take(i as int).push(f@));
        }
        if p < nodes.len() && same_text(nodes[p].as_str(), f.as_str()) {
            proof {
                assert forall|x: Seq<char>| #[trigger] nodes.deep_view().contains(x) <==> files.deep_view().take(
                    i + 1,
                ).contains(x) by {
                    if x == f@ {
                        assert(before[p as int] == f@);
                    }
                }
            }
        } else {
            nodes.insert(p, f.clone());
            proof {
                let after = nodes.deep_view();
                assert(after =~= before.insert(p as int, f@));
                if p < before.len() {
                    lemma_path_order(before[p as int], f@, f@);
                }
                assert forall|a: int, b: int| 0 <= a < b < after.len() implies path_less(
                    #[trigger] after[a],
                    #[trigger] after[b],
                ) by {
                    if a < p as int && b == p as int {
                    } else if a == p as int && b > p as int {
                        if b - 1 > p as int {
                            lemma_path_order(f@, before[p as int], before[b - 1]);
                        }
                    } else if a < p as int && b > p as int {
                    } else if a > p as int {
                    }
                }
                assert forall|x: Seq<char>| #[trigger] after.contains(x) <==> files.deep_view().take(
                    i + 1,
                ).contains(x) by {
                    if after.contains(x) {
                        let k = choose|k: int| 0 <= k < after.len() && after[k] == x;
                        if k < p {
                            assert(before[k] == x);
                        } else if k > p {
                            assert(before[k - 1] == x);
                        }
                    }
                    if before.contains(x) {
                        let k = choose|k: int| 0 <= k < before.len() && before[k] == x;
                        if k < p {
                            assert(after[k] == x);
                        } else {
                            assert(after[k + 1] == x);
                        }
                    }
                    let t = files.deep_view().take(i + 1);
                    if x == f@ {
                        assert(after[p as int] == x);
                        assert(t[i as int] == x);
                    }
                    if t.contains(x) && x != f@ {
                        let k = choose|k: int| 0 <= k < t.len() && t[k] == x;
                        assert(files.deep_view().take(i as int)[k] == x);
                        assert(files.deep_view().take(i as int).contains(x));
                    }
                    if files.deep_view().take(i as int).contains(x) {
                        let k = choose|k: int| 0 <= k < i && files.deep_view().take(i as int)[k] == x;
                        assert(t[k] == x);
                    }
                }
            }
        }
    }
    proof {
        assert(files.deep_view().take(n as int) =~= files.deep_view());
    }
    nodes
}

/// The position of a path in a list that holds it.
fn position_of(nodes: &Vec<String>, f: &String) -> (p: usize)
    requires
        nodes.deep_view().contains(f@),
    ensures
        p < nodes@.len(),
        nodes.deep_view()[p as int] == f@,
{
    let mut p: usize = 0;
    while p < nodes.len()
        invariant
            0 <= p <= nodes@.len(),
            nodes.deep_view().contains(f@),
            forall|k: int| 0 <= k < p ==> #[trigger] nodes.deep_view()[k] != f@,
        decreases nodes@.len() - p,
    {
        if same_text(nodes[p].as_str(), f.as_str()) {
            return p;
        }
        p = p + 1;
    }
    proof {
        let k = choose|k: int| 0 <= k < nodes@.len() && nodes.deep_view()[k] == f@;
    }
    0
}

/// Sets entries `[p][q]` and `[q][p]` of a square matrix.
fn mark_edge(adj: &mut Vec<Vec<bool>>, p: usize, q: usize)
    requires
        square(old(adj).deep_view()),
        p < old(adj)@.len(),
        q < old(adj)@.len(),
    ensures
        square(final(adj).deep_view()),
        final(adj)@.len() == old(adj)@.len(),
        forall|a: int, b: int|
            0 <= a < old(adj)@.len() && 0 <= b < old(adj)@.len() ==> #[trigger] final(adj).deep_view()[a][b]
                == (old(adj).deep_view()[a][b] || (a == p && b == q) || (a == q && b == p)),
{
    let ghost before = adj.deep_view();
    proof {
        assert(before[p as int] == adj@[p as int].deep_view());
        assert(before[q as int] == adj@[q as int].deep_view());
        assert(before[p as int].len() == before.len());
        assert(before[q as int].len() == before.len());
    }
    let ghost b0 = adj@;
    let mut row: Vec<bool> = Vec::new();
    std::mem::swap(&mut row, &mut adj[p]);
    assert(row@ == b0[p as int]@);
    row.set(q, true);
    let ghost r1 = row;
    std::mem::swap(&mut row, &mut adj[p]);
    assert(adj@ == b0.update(p as int, r1));
    let ghost b1 = adj@;
    let mut row2: Vec<bool> = Vec::new();
    std::mem::swap(&mut row2, &mut adj[q]);
    assert(row2@ == b1[q as int]@);
    row2.set(p, true);
    let ghost r2 = row2;
    std::mem::swap(&mut row2, &mut adj[q]);
    assert(adj@ == b1.update(q as int, r2));
    proof {
        assert forall|a: int, b: int|
            0 <= a < before.len() && 0 <= b < before.len() implies #[trigger] adj.deep_view()[a][b] == (
            before[a][b] || (a == p && b == q) || (a == q && b == p)) by {
            assert(adj.deep_view()[a] == adj@[a].deep_view());
            assert(b0[a].deep_view() == before[a]);
            assert(b0[p as int].deep_view() == before[p as int]);
            if a == q as int {
                assert(adj@[a] == r2);
            } else if a == p as int {
                assert(adj@[a] == r1);
            } else {
                assert(adj@[a] == b0[a]);
            }
        }
        assert forall|a: int| 0 <= a < adj.deep_view().len() implies #[trigger] adj.deep_view()[a].len()
            == adj.deep_view().len() by {
            assert(adj.deep_view()[a] == adj@[a].deep_view());
            assert(b0[a].deep_view() == before[a]);
            assert(b0[p as int].deep_view() == before[p as int]);
            if a == q as int {
                assert(adj@[a] == r2);
            } else if a == p as int {
                assert(adj@[a] == r1);
            } else {
                assert(adj@[a] == b0[a]);
            }
        }
    }
}

/// Some pair before position `(li, lj)`, in the order pairs are visited, links `a` and `b`.
spec fn linked_before(
    files: Seq<Seq<char>>,
    dist: Seq<Seq<u32>>,
    threshold: u32,
    li: int,
    lj: int,
    a: Seq<char>,
    b: Seq<char>,
) -> bool {
    exists|i: int, j: int|
        #[trigger] pair_within(dist, threshold, files.len() as int, i, j) && (i < li || (i == li && j
            < lj)) && ((files[i] == a && files[j] == b) || (files[i] == b && files[j] == a))
}

/// The positions in `nodes` of the entries of `files`.
fn positions_of(files: &Vec<String>, nodes: &Vec<String>) -> (pos: Vec<usize>)
    requires
        forall|x: Seq<char>| #[trigger] nodes.deep_view().contains(x) <==> files.deep_view().contains(x),
    ensures
        pos@.len() == files@.len(),
        forall|i: int|
            0 <= i < files@.len() ==> #[trigger] pos@[i] < nodes@.len() && nodes.deep_view()[pos@[i] as int]
                == files.deep_view()[i],
{
    let mut pos: Vec<usize> = Vec::new();
    for i in 0..files.len()
        invariant
            forall|x: Seq<char>| #[trigger] nodes.deep_view().contains(x) <==> files.deep_view().contains(x),
            pos@.len() == i,
            forall|k: int|
                0 <= k < i ==> #[trigger] pos@[k] < nodes@.len() && nodes.deep_view()[pos@[k] as int]
                    == files.deep_view()[k],
    {
        proof {
            assert(files.deep_view()[i as int] == files@[i as int]@);
            assert(files.deep_view().contains(files@[i as int]@));
        }
        let p = position_of(nodes, &files[i]);
        pos.push(p);
    }
    pos
}

/// The square matrix of `m` rows of `false`.
fn empty_matrix(m: usize) -> (adj: Vec<Vec<bool>>)
    ensures
        square(adj.deep_view()),
        adj@.len() == m,
        forall|a: int, b: int| 0 <= a < m && 0 <= b < m ==> !#[trigger] adj.deep_view()[a][b],
{
    let mut adj: Vec<Vec<bool>> = Vec::new();
    for a in 0..m
        invariant
            adj@.len() == a,
            forall|k: int| 0 <= k < a ==> #[trigger] adj.deep_view()[k] == Seq::new(m as nat, |z: int| false),
    {
        let mut row: Vec<bool> = Vec::new();
        for b in 0..m
            invariant
                row@ == Seq::new(b as nat, |z: int| false),
        {
            row.push(false);
        }
        proof {
            assert(row.deep_view() =~= Seq::new(m as nat, |z: int| false));
        }
        let ghost before = adj.deep_view();
        adj.push(row);
        proof {
            assert forall|k: int| 0 <= k < a + 1 implies #[trigger] adj.deep_view()[k] == Seq::new(
                m as nat,
                |z: int| false,
            ) by {
                if k < a {
                    assert(adj.deep_view()[k] == before[k]);
                }
            }
        }
    }
    adj
}

/// The link matrix over `nodes`: entry `[p][q]` holds when `nodes[p]` and `nodes[q]` are linked.
fn link_matrix(files: &Vec<String>, dist: &Vec<Vec<u32>>, threshold: u32, nodes: &Vec<String>) -> (adj:
    Vec<Vec<bool>>)
    requires
        distance_table(dist.deep_view(), files@.len() as int),
        paths_strictly_sorted(nodes.deep_view()),
        forall|x: Seq<char>| #[trigger] nodes.deep_view().contains(x) <==> files.deep_view().contains(x),
    ensures
        square(adj.deep_view()),
        adj@.len() == nodes@.len(),
        forall|p: int, q: int|
            0 <= p < nodes@.len() && 0 <= q < nodes@.len() ==> #[trigger] adj.deep_view()[p][q] == linked(
                files.deep_view(),
                dist.deep_view(),
                threshold,
                nodes.deep_view()[p],
                nodes.deep_view()[q],
            ),
{
    let ghost fv = files.deep_view();
    let ghost dv = dist.deep_view();
    let ghost nv = nodes.deep_view();
    let n = files.len();
    let m = nodes.len();
    let pos = positions_of(files, nodes);
    let mut adj = empty_matrix(m);
    for i in 0..n
        invariant
            n == fv.len(),
            m == nv.len(),
            fv == files.deep_view(),
            dv == dist.deep_view(),
            nv == nodes.deep_view(),
            distance_table(dv, n as int),
            paths_strictly_sorted(nv),
            pos@.len() == n,
            forall|k: int| 0 <= k < n ==> #[trigger] pos@[k] < m && nv[pos@[k] as int] == fv[k],
            square(adj.deep_view()),
            adj@.len() == m,
            forall|a: int, b: int|
                0 <= a < m && 0 <= b < m ==> #[trigger] adj.deep_view()[a][b] == linked_before(
                    fv,
                    dv,
                    threshold,
                    i as int,
                    0,
                    nv[a],
                    nv[b],
                ),
    {
        proof {
            assert forall|a: int, b: int|
                0 <= a < m && 0 <= b < m implies #[trigger] adj.deep_view()[a][b] == linked_before(
                fv,
                dv,
                threshold,
                i as int,
                i + 1,
                nv[a],
                nv[b],
            ) by {
                if linked_before(fv, dv, threshold, i as int, i + 1, nv[a], nv[b]) {
                    let (x, y) = choose|x: int, y: int|
                        #[trigger] pair_within(dv, threshold, n as int, x, y) && (x < i || (x == i && y
                            < i + 1)) && ((fv[x] == nv[a] && fv[y] == nv[b]) || (fv[x] == nv[b] && fv[y]
                            == nv[a]));
                    assert(pair_within(dv, threshold, n as int, x, y));
                }
            }
        }
        let ghost dist_row = dv[i as int];
        assert(dist@[i as int]@ == dv[i as int]);
        for j in (i + 1)..n
            invariant
                n == fv.len(),
                m == nv.len(),
                i < n,
                dist@[i as int]@ == dv[i as int],
                dv[i as int].len() == n,
                fv == files.deep_view(),
                dv == dist.deep_view(),
                nv == nodes.deep_view(),
                distance_table(dv, n as int),
                paths_strictly_sorted(nv),
                pos@.len() == n,
                forall|k: int| 0 <= k < n ==> #[trigger] pos@[k] < m && nv[pos@[k] as int] == fv[k],
                square(adj.deep_view()),
                adj@.len() == m,
                forall|a: int, b: int|
                    0 <= a < m && 0 <= b < m ==> #[trigger] adj.deep_view()[a][b] == linked_before(
                        fv,
                        dv,
                        threshold,
                        i as int,
                        j as int,
                        nv[a],
                        nv[b],
                    ),
        {
            let within = dist[i][j] <= threshold;
            let ghost before = adj.deep_view();
            if within {
                mark_edge(&mut adj, pos[i], pos[j]);
            }
            proof {
                assert(dist@[i as int]@ == dv[i as int]);
                assert(within == pair_within(dv, threshold, n as int, i as int, j as int));
                let pi = pos@[i as int] as int;
                let pj = pos@[j as int] as int;
                assert forall|a: int, b: int|
                    0 <= a < m && 0 <= b < m implies #[trigger] adj.deep_view()[a][b] == linked_before(
                    fv,
                    dv,
                    threshold,
                    i as int,
                    j + 1,
                    nv[a],
                    nv[b],
                ) by {
                    lemma_path_order(nv[a], nv[pi], nv[pi]);
                    lemma_path_order(nv[b], nv[pi], nv[pi]);
                    lemma_path_order(nv[a], nv[pj], nv[pj]);
                    lemma_path_order(nv[b], nv[pj], nv[pj]);
                    if linked_before(fv, dv, threshold, i as int, j + 1, nv[a], nv[b]) {
                        let (x, y) = choose|x: int, y: int|
                            #[trigger] pair_within(dv, threshold, n as int, x, y) && (x < i || (x == i
                                && y < j + 1)) && ((fv[x] == nv[a] && fv[y] == nv[b]) || (fv[x] == nv[b]
                                && fv[y] == nv[a]));
                        if x == i && y == j {
                            assert(within);
                        } else {
                            assert(linked_before(fv, dv, threshold, i as int, j as int, nv[a], nv[b]));
                        }
                    }
                    if within && ((a == pi && b == pj) || (a == pj && b == pi)) {
                        assert(pair_within(dv, threshold, n as int, i as int, j as int));
                    }
                    if linked_before(fv, dv, threshold, i as int, j as int, nv[a], nv[b]) {
                        let (x, y) = choose|x: int, y: int|
                            #[trigger] pair_within(dv, threshold, n as int, x, y) && (x < i || (x == i
                                && y < j)) && ((fv[x] == nv[a] && fv[y] == nv[b]) || (fv[x] == nv[b]
                                && fv[y] == nv[a]));
                        assert(pair_within(dv, threshold, n as int, x, y));
                    }
                }
            }
        }
    }
    proof {
        assert forall|a: int, b: int|
            0 <= a < m && 0 <= b < m implies #[trigger] adj.deep_view()[a][b] == linked(
            fv,
            dv,
            threshold,
            nv[a],
            nv[b],
        ) by {
            if linked(fv, dv, threshold, nv[a], nv[b]) {
                let (x, y) = choose|x: int, y: int|
                    #[trigger] pair_within(dv, threshold, n as int, x, y) && ((fv[x] == nv[a] && fv[y]
                        == nv[b]) || (fv[x] == nv[b] && fv[y] == nv[a]));
                assert(pair_within(dv, threshold, n as int, x, y));
            }
            if linked_before(fv, dv, threshold, n as int, 0, nv[a], nv[b]) {
                let (x, y) = choose|x: int, y: int|
                    #[trigger] pair_within(dv, threshold, n as int, x, y) && (x < n || (x == n && y
                        < 0)) && ((fv[x] == nv[a] && fv[y] == nv[b]) || (fv[x] == nv[b] && fv[y]
                        == nv[a]));
                assert(pair_within(dv, threshold, n as int, x, y));
            }
        }
    }
    adj
}

/// `r` is the first position that is flagged.
pub open spec fn first_flag(flags: Seq<bool>, r: int) -> bool {
    0 <= r < flags.len() && flags[r] && forall|q: int| 0 <= q < r ==> !#[trigger] flags[q]
}

/// The paths `nodes[q]` of the flagged positions, in order.
fn collect_members(nodes: &Vec<String>, member: &Vec<bool>) -> (grp: Vec<String>)
    requires
        member@.len() == nodes@.len(),
        paths_strictly_sorted(nodes.deep_view()),
    ensures
        paths_strictly_sorted(grp.deep_view()),
        forall|x: Seq<char>|
            #[trigger] grp.deep_view().contains(x) <==> exists|q: int|
                0 <= q < member@.len() && member@[q] && nodes.deep_view()[q] == x,
        forall|r: int|
            #[trigger] first_flag(member@, r) ==> grp.deep_view().len() > 0 && grp.deep_view()[0]
                == nodes.deep_view()[r],
{
    let ghost nv = nodes.deep_view();
    let mut grp: Vec<String> = Vec::new();
    let ghost mut taken: Seq<int> = Seq::empty();
    for q in 0..nodes.len()
        invariant
            nv == nodes.deep_view(),
            member@.len() == nv.len(),
            paths_strictly_sorted(nv),
            grp@.len() == taken.len(),
            forall|k: int| 0 <= k < taken.len() ==> 0 <= #[trigger] taken[k] < q && member@[taken[k]],
            forall|k: int| 0 <= k < taken.len() ==> #[trigger] grp.deep_view()[k] == nv[taken[k]],
            forall|k: int, l: int| 0 <= k < l < taken.len() ==> #[trigger] taken[k] < #[trigger] taken[l],
            forall|z: int| 0 <= z < q && member@[z] ==> #[trigger] taken.contains(z),
    {
        if member[q] {
            let ghost before = grp.deep_view();
            grp.push(nodes[q].clone());
            proof {
                let old_taken = taken;
                taken = taken.push(q as int);
                assert forall|k: int| 0 <= k < taken.len() implies #[trigger] grp.deep_view()[k] == nv[taken[k]] by {
                    if k < before.len() {
                        assert(grp.deep_view()[k] == before[k]);
                    }
                }
                assert forall|z: int| 0 <= z < q + 1 && member@[z] implies #[trigger] taken.contains(z) by {
                    if z == q {
                        assert(taken[taken.len() - 1] == z);
                    } else {
                        assert(old_taken.contains(z));
                        let k = choose|k: int| 0 <= k < old_taken.len() && old_taken[k] == z;
                        assert(taken[k] == z);
                    }
                }
            }
        }
    }
    proof {
        let gv = grp.deep_view();
        assert forall|a: int, b: int| 0 <= a < b < gv.len() implies path_less(
            #[trigger] gv[a],
            #[trigger] gv[b],
        ) by {
            assert(taken[a] < taken[b]);
        }
        assert forall|x: Seq<char>| #[trigger] gv.contains(x) <==> exists|q: int|
            0 <= q < member@.len() && member@[q] && nv[q] == x by {
            if gv.contains(x) {
                let k = choose|k: int| 0 <= k < gv.len() && gv[k] == x;
                assert(member@[taken[k]] && nv[taken[k]] == x);
            }
            if exists|q: int| 0 <= q < member@.len() && member@[q] && nv[q] == x {
                let q = choose|q: int| 0 <= q < member@.len() && member@[q] && nv[q] == x;
                assert(taken.contains(q));
                let k = choose|k: int| 0 <= k < taken.len() && taken[k] == q;
                assert(gv[k] == x);
            }
        }
        assert forall|r: int| #[trigger] first_flag(member@, r) implies gv.len() > 0 && gv[0] == nv[r] by {
            assert(taken.contains(r));
            let k = choose|k: int| 0 <= k < taken.len() && taken[k] == r;
            if k > 0 {
                assert(taken[0] < taken[k]);
                assert(member@[taken[0]]);
                assert(!member@[taken[0]]);
            }
            assert(gv[0] == nv[taken[0]]);
        }
    }
    grp
}

/// No entry of the row is set.
fn row_is_empty(row: &Vec<bool>) -> (r: bool)
    ensures
        r == forall|q: int| 0 <= q < row@.len() ==> !#[trigger] row@[q],
{
    for q in 0..row.len()
        invariant
            forall|z: int| 0 <= z < q ==> !#[trigger] row@[z],
    {
        if row[q] {
            return false;
        }
    }
    true
}

/// Linked paths are comparable paths, and links go both ways.
pub proof fn lemma_linked_paths(
    files: Seq<Seq<char>>,
    dist: Seq<Seq<u32>>,
    threshold: u32,
    a: Seq<char>,
    b: Seq<char>,
)
    requires
        linked(files, dist, threshold, a, b),
    ensures
        files.contains(a),
        files.contains(b),
        linked(files, dist, threshold, b, a),
{
    let (i, j) = choose|i: int, j: int|
        #[trigger] pair_within(dist, threshold, files.len() as int, i, j) && ((files[i] == a
            && files[j] == b) || (files[i] == b && files[j] == a));
    assert(files[i] == files[i]);
    assert(files[j] == files[j]);
}

/// A component of a comparable path holds only comparable paths.
pub proof fn lemma_connected_in_files(
    files: Seq<Seq<char>>,
    dist: Seq<Seq<u32>>,
    threshold: u32,
    a: Seq<char>,
    x: Seq<char>,
)
    requires
        files.contains(a),
        connected(files, dist, threshold, a, x),
    ensures
        files.contains(x),
{
    let s = Set::new(|y: Seq<char>| files.contains(y));
    assert forall|u: Seq<char>, v: Seq<char>|
        #![trigger s.contains(u), linked(files, dist, threshold, u, v)]
        s.contains(u) && linked(files, dist, threshold, u, v) implies s.contains(v) by {
        lemma_linked_paths(files, dist, threshold, u, v);
    }
    assert(closed_under_links(files, dist, threshold, s));
    assert(s.contains(a));
}

/// `g` is the link matrix over the distinct comparable paths `nodes`.
pub open spec fn node_graph(
    files: Seq<Seq<char>>,
    dist: Seq<Seq<u32>>,
    threshold: u32,
    nodes: Seq<Seq<char>>,
    g: Seq<Seq<bool>>,
) -> bool {
    &&& paths_strictly_sorted(nodes)
    &&& forall|x: Seq<char>| #[trigger] nodes.contains(x) <==> files.contains(x)
    &&& square(g)
    &&& g.len() == nodes.len()
    &&& forall|p: int, q: int|
        0 <= p < nodes.len() && 0 <= q < nodes.len() ==> #[trigger] g[p][q] == linked(
            files,
            dist,
            threshold,
            nodes[p],
            nodes[q],
        )
}

proof fn lemma_nodes_distinct(nodes: Seq<Seq<char>>, r: int, q: int)
    requires
        paths_strictly_sorted(nodes),
        0 <= r < nodes.len(),
        0 <= q < nodes.len(),
        nodes[r] == nodes[q],
    ensures
        r == q,
{
    lemma_path_order(nodes[r], nodes[q], nodes[q]);
    if r < q {
        assert(path_less(nodes[r], nodes[q]));
    } else if q < r {
        assert(path_less(nodes[q], nodes[r]));
    }
}

proof fn lemma_node_of(nodes: Seq<Seq<char>>, files: Seq<Seq<char>>, x: Seq<char>) -> (q: int)
    requires
        forall|y: Seq<char>| #[trigger] nodes.contains(y) <==> files.contains(y),
        files.contains(x),
    ensures
        0 <= q < nodes.len(),
        nodes[q] == x,
{
    assert(nodes.contains(x));
    choose|q: int| 0 <= q < nodes.len() && nodes[q] == x
}

proof fn lemma_node_graph_symmetric(
    files: Seq<Seq<char>>,
    dist: Seq<Seq<u32>>,
    threshold: u32,
    nodes: Seq<Seq<char>>,
    g: Seq<Seq<bool>>,
)
    requires
        node_graph(files, dist, threshold, nodes, g),
    ensures
        symmetric(g),
{
    assert forall|p: int, q: int| 0 <= p < g.len() && 0 <= q < g.len() implies #[trigger] g[p][q]
        == g[q][p] by {
        if linked(files, dist, threshold, nodes[p], nodes[q]) {
            lemma_linked_paths(files, dist, threshold, nodes[p], nodes[q]);
        }
        if linked(files, dist, threshold, nodes[q], nodes[p]) {
            lemma_linked_paths(files, dist, threshold, nodes[q], nodes[p]);
        }
    }
}

/// Components over node indices are the components over paths.
proof fn lemma_bridge(
    files: Seq<Seq<char>>,
    dist: Seq<Seq<u32>>,
    threshold: u32,
    nodes: Seq<Seq<char>>,
    g: Seq<Seq<bool>>,
    p: int,
    q: int,
)
    requires
        node_graph(files, dist, threshold, nodes, g),
        0 <= p < nodes.len(),
        0 <= q < nodes.len(),
    ensures
        index_connected(g, p, q) <==> connected(files, dist, threshold, nodes[p], nodes[q]),
{
    let m = nodes.len() as int;
    if index_connected(g, p, q) {
        assert forall|s: Set<Seq<char>>|
            #[trigger] closed_under_links(files, dist, threshold, s) && s.contains(nodes[p]) implies s.contains(
            nodes[q],
        ) by {
            let idx = Set::new(|r: int| 0 <= r < m && s.contains(nodes[r]));
            assert forall|x: int, y: int|
                #![trigger idx.contains(x), g[x][y]]
                0 <= x < g.len() && 0 <= y < g.len() && idx.contains(x) && g[x][y] implies idx.contains(
                y,
            ) by {
                assert(linked(files, dist, threshold, nodes[x], nodes[y]));
            }
            assert(index_closed(g, idx));
            assert(idx.contains(p));
        }
    }
    if connected(files, dist, threshold, nodes[p], nodes[q]) {
        assert forall|idx: Set<int>| #[trigger] index_closed(g, idx) && idx.contains(p) implies idx.contains(
            q,
        ) by {
            let s = Set::new(
                |x: Seq<char>| exists|r: int| 0 <= r < m && idx.contains(r) && nodes[r] == x,
            );
            assert forall|u: Seq<char>, v: Seq<char>|
                #![trigger s.contains(u), linked(files, dist, threshold, u, v)]
                s.contains(u) && linked(files, dist, threshold, u, v) implies s.contains(v) by {
                let r = choose|r: int| 0 <= r < m && idx.contains(r) && nodes[r] == u;
                lemma_linked_paths(files, dist, threshold, u, v);
                let r2 = lemma_node_of(nodes, files, v);
                assert(g[r][r2]);
            }
            assert(closed_under_links(files, dist, threshold, s));
            assert(s.contains(nodes[p]));
            assert(s.contains(nodes[q]));
            let r = choose|r: int| 0 <= r < m && idx.contains(r) && nodes[r] == nodes[q];
            lemma_nodes_distinct(nodes, r, q);
        }
    }
}

/// A node with no edge is an isolated path.
proof fn lemma_bridge_lonely(
    files: Seq<Seq<char>>,
    dist: Seq<Seq<u32>>,
    threshold: u32,
    nodes: Seq<Seq<char>>,
    g: Seq<Seq<bool>>,
    p: int,
)
    requires
        node_graph(files, dist, threshold, nodes, g),
        0 <= p < nodes.len(),
    ensures
        lonely(g, p) <==> isolated(files, dist, threshold, nodes[p]),
{
    assert(nodes.contains(nodes[p]));
    if lonely(g, p) {
        assert forall|b: Seq<char>| !#[trigger] linked(files, dist, threshold, nodes[p], b) by {
            if linked(files, dist, threshold, nodes[p], b) {
                lemma_linked_paths(files, dist, threshold, nodes[p], b);
                let q = lemma_node_of(nodes, files, b);
                assert(g[p][q]);
            }
        }
    }
    if isolated(files, dist, threshold, nodes[p]) {
        assert forall|q: int| 0 <= q < g.len() implies !#[trigger] g[p][q] by {
            assert(!linked(files, dist, threshold, nodes[p], nodes[q]));
        }
    }
}

/// Sets every flag of `visited` that `member` sets.
fn mark_visited(visited: &mut Vec<bool>, member: &Vec<bool>)
    requires
        old(visited)@.len() == member@.len(),
    ensures
        final(visited)@.len() == old(visited)@.len(),
        forall|q: int| 0 <= q < member@.len() ==> #[trigger] final(visited)@[q] == (old(visited)@[q] || member@[q]),
{
    let ghost before = visited@;
    for q in 0..member.len()
        invariant
            visited@.len() == member@.len(),
            before.len() == member@.len(),
            forall|z: int| 0 <= z < q ==> #[trigger] visited@[z] == (before[z] || member@[z]),
            forall|z: int| q <= z < member@.len() ==> #[trigger] visited@[z] == before[z],
    {
        if member[q] {
            visited.set(q, true);
        }
    }
}

/// What the scan over the nodes has built once nodes `0..p` are done: the
/// visited flags, the first node of each group found, the groups, and the
/// lonely nodes listed apart.
#[verifier::opaque]
spec fn scan_state(
    g: Seq<Seq<bool>>,
    nv: Seq<Seq<char>>,
    p: int,
    visited: Seq<bool>,
    reps: Seq<int>,
    grouped: Seq<Seq<Seq<char>>>,
    lone: Seq<int>,
    nogroup: Seq<Seq<char>>,
) -> bool {
    let m = nv.len() as int;
    &&& 0 <= p <= m
    &&& visited.len() == m
    &&& forall|q: int|
        0 <= q < m ==> (#[trigger] visited[q] <==> (q < p || exists|k: int|
            0 <= k < reps.len() && index_connected(g, reps[k], q)))
    &&& forall|k: int| 0 <= k < reps.len() ==> 0 <= #[trigger] reps[k] < p
    &&& forall|k: int, l: int| 0 <= k < l < reps.len() ==> #[trigger] reps[k] < #[trigger] reps[l]
    &&& forall|k: int|
        0 <= k < reps.len() ==> !lonely(g, #[trigger] reps[k]) && forall|q: int|
            0 <= q < reps[k] ==> !index_connected(g, reps[k], q)
    &&& grouped.len() == reps.len()
    &&& forall|k: int|
        #![trigger grouped[k]]
        0 <= k < reps.len() ==> {
            &&& grouped[k].len() > 0
            &&& paths_strictly_sorted(grouped[k])
            &&& grouped[k][0] == nv[reps[k]]
            &&& forall|x: Seq<char>|
                #[trigger] grouped[k].contains(x) <==> exists|q: int|
                    0 <= q < m && index_connected(g, reps[k], q) && nv[q] == x
        }
    &&& nogroup.len() == lone.len()
    &&& forall|k: int| 0 <= k < lone.len() ==> 0 <= #[trigger] lone[k] < p
    &&& forall|k: int, l: int| 0 <= k < l < lone.len() ==> #[trigger] lone[k] < #[trigger] lone[l]
    &&& forall|k: int| 0 <= k < lone.len() ==> #[trigger] nogroup[k] == nv[lone[k]]
    &&& forall|q: int| 0 <= q < p ==> (lonely(g, q) <==> #[trigger] lone.contains(q))
    &&& forall|q: int|
        0 <= q < p && !lonely(g, q) ==> exists|k: int|
            0 <= k < reps.len() && #[trigger] index_connected(g, reps[k], q)
}

proof fn lemma_scan_start(g: Seq<Seq<bool>>, nv: Seq<Seq<char>>, visited: Seq<bool>)
    requires
        visited == Seq::new(nv.len(), |z: int| false),
    ensures
        scan_state(g, nv, 0, visited, Seq::empty(), Seq::empty(), Seq::empty(), Seq::empty()),
{
    reveal(scan_state);
}

/// A node already reached belongs to an earlier group.
proof fn lemma_scan_visited(
    g: Seq<Seq<bool>>,
    nv: Seq<Seq<char>>,
    p: int,
    visited: Seq<bool>,
    reps: Seq<int>,
    grouped: Seq<Seq<Seq<char>>>,
    lone: Seq<int>,
    nogroup: Seq<Seq<char>>,
)
    requires
        square(g),
        symmetric(g),
        g.len() == nv.len(),
        scan_state(g, nv, p, visited, reps, grouped, lone, nogroup),
        p < nv.len(),
        visited[p],
    ensures
        scan_state(g, nv, p + 1, visited, reps, grouped, lone, nogroup),
{
    reveal(scan_state);
    let k = choose|k: int| 0 <= k < reps.len() && index_connected(g, reps[k], p);
    if lonely(g, p) {
        lemma_connected_symm(g, reps[k], p);
        lemma_lonely_component(g, p, reps[k]);
    }
    assert forall|q: int| 0 <= q < p + 1 implies (lonely(g, q) <==> #[trigger] lone.contains(q)) by {
        if q == p && lone.contains(q) {
            let i = choose|i: int| 0 <= i < lone.len() && lone[i] == q;
        }
    }
}

/// A node not yet reached and with no edge is listed apart.
proof fn lemma_scan_lonely(
    g: Seq<Seq<bool>>,
    nv: Seq<Seq<char>>,
    p: int,
    visited: Seq<bool>,
    reps: Seq<int>,
    grouped: Seq<Seq<Seq<char>>>,
    lone: Seq<int>,
    nogroup: Seq<Seq<char>>,
)
    requires
        scan_state(g, nv, p, visited, reps, grouped, lone, nogroup),
        p < nv.len(),
        !visited[p],
        lonely(g, p),
    ensures
        scan_state(
            g,
            nv,
            p + 1,
            visited.update(p, true),
            reps,
            grouped,
            lone.push(p),
            nogroup.push(nv[p]),
        ),
{
    reveal(scan_state);
    let lone2 = lone.push(p);
    let nogroup2 = nogroup.push(nv[p]);
    let visited2 = visited.update(p, true);
    assert forall|q: int| 0 <= q < p + 1 implies (lonely(g, q) <==> #[trigger] lone2.contains(q)) by {
        if q < p {
            if lone.contains(q) {
                let i = choose|i: int| 0 <= i < lone.len() && lone[i] == q;
                assert(lone2[i] == q);
            }
            if lone2.contains(q) {
                let i = choose|i: int| 0 <= i < lone2.len() && lone2[i] == q;
                assert(lone[i] == q);
            }
        } else {
            assert(lone2[lone.len() as int] == q);
        }
    }
    assert forall|k: int| 0 <= k < lone2.len() implies #[trigger] nogroup2[k] == nv[lone2[k]] by {
    }
    assert forall|q: int|
        0 <= q < nv.len() implies (#[trigger] visited2[q] <==> (q < p + 1 || exists|k: int|
        0 <= k < reps.len() && index_connected(g, reps[k], q))) by {
    }
}

/// A node not yet reached is the first node of its component.
proof fn lemma_scan_first(
    g: Seq<Seq<bool>>,
    nv: Seq<Seq<char>>,
    p: int,
    visited: Seq<bool>,
    reps: Seq<int>,
    grouped: Seq<Seq<Seq<char>>>,
    lone: Seq<int>,
    nogroup: Seq<Seq<char>>,
)
    requires
        square(g),
        symmetric(g),
        g.len() == nv.len(),
        scan_state(g, nv, p, visited, reps, grouped, lone, nogroup),
        p < nv.len(),
        !visited[p],
    ensures
        forall|q: int| 0 <= q < p ==> !index_connected(g, p, q),
{
    reveal(scan_state);
    assert forall|q: int| 0 <= q < p implies !index_connected(g, p, q) by {
        if index_connected(g, p, q) {
            lemma_connected_symm(g, p, q);
            if lonely(g, q) {
                lemma_lonely_component(g, q, p);
            } else {
                let k = choose|k: int| 0 <= k < reps.len() && #[trigger] index_connected(g, reps[k], q);
                lemma_connected_trans(g, reps[k], q, p);
            }
        }
    }
}

/// A node not yet reached and with an edge starts a new group: its component.
proof fn lemma_scan_component(
    g: Seq<Seq<bool>>,
    nv: Seq<Seq<char>>,
    p: int,
    visited: Seq<bool>,
    reps: Seq<int>,
    grouped: Seq<Seq<Seq<char>>>,
    lone: Seq<int>,
    nogroup: Seq<Seq<char>>,
    member: Seq<bool>,
    visited2: Seq<bool>,
    group: Seq<Seq<char>>,
)
    requires
        square(g),
        symmetric(g),
        g.len() == nv.len(),
        scan_state(g, nv, p, visited, reps, grouped, lone, nogroup),
        p < nv.len(),
        !visited[p],
        !lonely(g, p),
        forall|q: int| 0 <= q < p ==> !index_connected(g, p, q),
        member.len() == nv.len(),
        forall|q: int| 0 <= q < nv.len() ==> (member[q] <==> index_connected(g, p, q)),
        visited2.len() == nv.len(),
        forall|q: int|
            0 <= q < nv.len() ==> #[trigger] visited2[q] == (visited.update(p, true)[q] || member[q]),
        group.len() > 0,
        paths_strictly_sorted(group),
        group[0] == nv[p],
        forall|x: Seq<char>|
            #[trigger] group.contains(x) <==> exists|q: int|
                0 <= q < member.len() && member[q] && nv[q] == x,
    ensures
        scan_state(g, nv, p + 1, visited2, reps.push(p), grouped.push(group), lone, nogroup),
{
    reveal(scan_state);
    let m = nv.len() as int;
    let reps2 = reps.push(p);
    let grouped2 = grouped.push(group);
    lemma_connected_refl(g, p);
    assert forall|q: int|
        0 <= q < m implies (#[trigger] visited2[q] <==> (q < p + 1 || exists|k: int|
        0 <= k < reps2.len() && index_connected(g, reps2[k], q))) by {
        if exists|k: int| 0 <= k < reps.len() && index_connected(g, reps[k], q) {
            let k = choose|k: int| 0 <= k < reps.len() && index_connected(g, reps[k], q);
            assert(reps2[k] == reps[k]);
        }
        if exists|k: int| 0 <= k < reps2.len() && index_connected(g, reps2[k], q) {
            let k = choose|k: int| 0 <= k < reps2.len() && index_connected(g, reps2[k], q);
            if k < reps.len() {
                assert(reps[k] == reps2[k]);
            }
        }
        if member[q] {
            assert(index_connected(g, reps2[reps.len() as int], q));
        }
    }
    assert forall|k: int|
        #![trigger grouped2[k]]
        0 <= k < reps2.len() implies {
            &&& grouped2[k].len() > 0
            &&& paths_strictly_sorted(grouped2[k])
            &&& grouped2[k][0] == nv[reps2[k]]
            &&& forall|x: Seq<char>|
                #[trigger] grouped2[k].contains(x) <==> exists|q: int|
                    0 <= q < m && index_connected(g, reps2[k], q) && nv[q] == x
        } by {
        if k < reps.len() {
            assert(grouped2[k] == grouped[k]);
        } else {
            assert forall|x: Seq<char>|
                #[trigger] grouped2[k].contains(x) <==> exists|q: int|
                    0 <= q < m && index_connected(g, reps2[k], q) && nv[q] == x by {
                if group.contains(x) {
                    let q = choose|q: int| 0 <= q < member.len() && member[q] && nv[q] == x;
                    assert(index_connected(g, reps2[k], q));
                }
                if exists|q: int| 0 <= q < m && index_connected(g, reps2[k], q) && nv[q] == x {
                    let q = choose|q: int| 0 <= q < m && index_connected(g, reps2[k], q) && nv[q] == x;
                    assert(member[q]);
                }
            }
        }
    }
    assert forall|q: int|
        0 <= q < p + 1 && !lonely(g, q) implies exists|k: int|
        0 <= k < reps2.len() && #[trigger] index_connected(g, reps2[k], q) by {
        if q < p {
            let k = choose|k: int| 0 <= k < reps.len() && #[trigger] index_connected(g, reps[k], q);
            assert(reps2[k] == reps[k]);
        } else {
            assert(index_connected(g, reps2[reps.len() as int], q));
        }
    }
    assert forall|q: int| 0 <= q < p + 1 implies (lonely(g, q) <==> #[trigger] lone.contains(q)) by {
        if q == p && lone.contains(q) {
            let i = choose|i: int| 0 <= i < lone.len() && lone[i] == q;
        }
    }
    assert forall|k: int| 0 <= k < reps2.len() implies 0 <= #[trigger] reps2[k] < p + 1 by {
    }
    assert forall|k: int, l: int| 0 <= k < l < reps2.len() implies #[trigger] reps2[k] < #[trigger] reps2[l] by {
    }
    assert forall|k: int|
        0 <= k < reps2.len() implies !lonely(g, #[trigger] reps2[k]) && forall|q: int|
        0 <= q < reps2[k] ==> !index_connected(g, reps2[k], q) by {
    }
}

/// Groups comparable files by the components of the "within threshold" links.
///
/// `files` are the comparable files in input order and `distances[i][j]`, for
/// `i < j`, the distance between entries `i` and `j`. With fewer than two
/// files nothing is grouped and nothing listed.
pub fn group_with_distances(files: &Vec<String>, distances: &Vec<Vec<u32>>, threshold: u32) -> (r:
    GroupingResult)
    requires
        distance_table(distances.deep_view(), files@.len() as int),
    ensures
        is_components_grouping(
            files.deep_view(),
            distances.deep_view(),
            threshold,
            r.grouped.deep_view(),
            r.nogroup.deep_view(),
        ),
{
    if files.len() < 2 {
        let r = GroupingResult::empty();
        proof {
            assert(r.grouped.deep_view().len() == 0);
            assert(r.nogroup.deep_view().len() == 0);
        }
        return r;
    }
    let ghost fv = files.deep_view();
    let ghost dv = distances.deep_view();
    let nodes = distinct_sorted_paths(files);
    let adj = link_matrix(files, distances, threshold, &nodes);
    let ghost nv = nodes.deep_view();
    let ghost g = adj.deep_view();
    proof {
        lemma_node_graph_symmetric(fv, dv, threshold, nv, g);
    }
    let m = nodes.len();
    let mut visited: Vec<bool> = Vec::new();
    for k in 0..m
        invariant
            visited@ == Seq::new(k as nat, |z: int| false),
    {
        visited.push(false);
    }
    let mut grouped: Vec<Vec<String>> = Vec::new();
    let mut nogroup: Vec<String> = Vec::new();
    let ghost mut reps: Seq<int> = Seq::empty();
    let ghost mut lone: Seq<int> = Seq::empty();
    proof {
        assert(grouped.deep_view() =~= Seq::empty());
        assert(nogroup.deep_view() =~= Seq::empty());
        lemma_scan_start(g, nv, visited@);
    }
    for p in 0..m
        invariant
            fv == files.deep_view(),
            dv == distances.deep_view(),
            nv == nodes.deep_view(),
            g == adj.deep_view(),
            m == nv.len(),
            node_graph(fv, dv, threshold, nv, g),
            symmetric(g),
            visited@.len() == m,
            scan_state(g, nv, p as int, visited@, reps, grouped.deep_view(), lone, nogroup.deep_view()),
    {
        if visited[p] {
            proof {
                lemma_scan_visited(g, nv, p as int, visited@, reps, grouped.deep_view(), lone, nogroup.deep_view());
            }
        } else {
            let ghost visited0 = visited@;
            visited.set(p, true);
            let empty_row = row_is_empty(&adj[p]);
            proof {
                assert(adj@[p as int].deep_view() == g[p as int]);
                assert(adj@[p as int]@ =~= g[p as int]);
                assert(empty_row == lonely(g, p as int));
            }
            if empty_row {
                let ghost before = nogroup.deep_view();
                nogroup.push(nodes[p].clone());
                proof {
                    assert(nogroup.deep_view() =~= before.push(nv[p as int]));
                    lemma_scan_lonely(g, nv, p as int, visited0, reps, grouped.deep_view(), lone, before);
                    lone = lone.push(p as int);
                }
            } else {
                proof {
                    lemma_scan_first(g, nv, p as int, visited0, reps, grouped.deep_view(), lone, nogroup.deep_view());
                }
                let member = component_of(&adj, p);
                let ghost visited1 = visited@;
                mark_visited(&mut visited, &member);
                let group = collect_members(&nodes, &member);
                proof {
                    lemma_connected_refl(g, p as int);
                    assert(first_flag(member@, p as int));
                }
                let ghost before = grouped.deep_view();
                let ghost gview = group.deep_view();
                grouped.push(group);
                proof {
                    assert(grouped.deep_view() =~= before.push(gview));
                    assert(visited1 == visited0.update(p as int, true));
                    lemma_scan_component(
                        g,
                        nv,
                        p as int,
                        visited0,
                        reps,
                        before,
                        lone,
                        nogroup.deep_view(),
                        member@,
                        visited@,
                        gview,
                    );
                    reps = reps.push(p as int);
                }
            }
        }
    }
    let r = GroupingResult { grouped, nogroup };
    proof {
        reveal(scan_state);
        lemma_final_grouping(fv, dv, threshold, nv, g, reps, lone, r.grouped.deep_view(), r.nogroup.deep_view());
    }
    r
}

/// The index-level description of the loop's outcome is the path-level grouping.
proof fn lemma_final_grouping(
    fv: Seq<Seq<char>>,
    dv: Seq<Seq<u32>>,
    threshold: u32,
    nv: Seq<Seq<char>>,
    g: Seq<Seq<bool>>,
    reps: Seq<int>,
    lone: Seq<int>,
    grouped: Seq<Seq<Seq<char>>>,
    nogroup: Seq<Seq<char>>,
)
    requires
        node_graph(fv, dv, threshold, nv, g),
        symmetric(g),
        forall|k: int| 0 <= k < reps.len() ==> 0 <= #[trigger] reps[k] < nv.len(),
        forall|k: int, l: int| 0 <= k < l < reps.len() ==> #[trigger] reps[k] < #[trigger] reps[l],
        forall|k: int|
            0 <= k < reps.len() ==> !lonely(g, #[trigger] reps[k]),
        grouped.len() == reps.len(),
        forall|k: int|
            #![trigger grouped[k]]
            0 <= k < reps.len() ==> {
                &&& grouped[k].len() > 0
                &&& paths_strictly_sorted(grouped[k])
                &&& grouped[k][0] == nv[reps[k]]
                &&& forall|x: Seq<char>|
                    #[trigger] grouped[k].contains(x) <==> exists|q: int|
                        0 <= q < nv.len() && index_connected(g, reps[k], q) && nv[q] == x
            },
        nogroup.len() == lone.len(),
        forall|k: int| 0 <= k < lone.len() ==> 0 <= #[trigger] lone[k] < nv.len(),
        forall|k: int, l: int| 0 <= k < l < lone.len() ==> #[trigger] lone[k] < #[trigger] lone[l],
        forall|k: int| 0 <= k < lone.len() ==> #[trigger] nogroup[k] == nv[lone[k]],
        forall|q: int| 0 <= q < nv.len() ==> (lonely(g, q) <==> #[trigger] lone.contains(q)),
        forall|q: int|
            0 <= q < nv.len() && !lonely(g, q) ==> exists|k: int|
                0 <= k < reps.len() && #[trigger] index_connected(g, reps[k], q),
    ensures
        is_connected_grouping(fv, dv, threshold, grouped, nogroup),
{
    let m = nv.len() as int;
    assert forall|a: int, b: int| 0 <= a < b < nogroup.len() implies path_less(
        #[trigger] nogroup[a],
        #[trigger] nogroup[b],
    ) by {
        assert(lone[a] < lone[b]);
    }
    assert forall|x: Seq<char>| #[trigger] nogroup.contains(x) <==> isolated(fv, dv, threshold, x) by {
        if nogroup.contains(x) {
            let k = choose|k: int| 0 <= k < nogroup.len() && nogroup[k] == x;
            assert(lone.contains(lone[k]));
            lemma_bridge_lonely(fv, dv, threshold, nv, g, lone[k]);
        }
        if isolated(fv, dv, threshold, x) {
            let q = lemma_node_of(nv, fv, x);
            lemma_bridge_lonely(fv, dv, threshold, nv, g, q);
            assert(lone.contains(q));
            let k = choose|k: int| 0 <= k < lone.len() && lone[k] == q;
            assert(nogroup[k] == x);
        }
    }
    assert forall|k: int|
        #![trigger grouped[k]]
        0 <= k < grouped.len() implies {
            &&& grouped[k].len() > 0
            &&& paths_strictly_sorted(grouped[k])
            &&& fv.contains(grouped[k][0])
            &&& !isolated(fv, dv, threshold, grouped[k][0])
            &&& forall|x: Seq<char>|
                #[trigger] grouped[k].contains(x) <==> connected(fv, dv, threshold, grouped[k][0], x)
        } by {
        let r = reps[k];
        assert(nv.contains(nv[r]));
        lemma_bridge_lonely(fv, dv, threshold, nv, g, r);
        assert forall|x: Seq<char>|
            #[trigger] grouped[k].contains(x) <==> connected(fv, dv, threshold, grouped[k][0], x) by {
            if grouped[k].contains(x) {
                let q = choose|q: int| 0 <= q < m && index_connected(g, r, q) && nv[q] == x;
                lemma_bridge(fv, dv, threshold, nv, g, r, q);
            }
            if connected(fv, dv, threshold, grouped[k][0], x) {
                lemma_connected_in_files(fv, dv, threshold, nv[r], x);
                let q = lemma_node_of(nv, fv, x);
                lemma_bridge(fv, dv, threshold, nv, g, r, q);
                assert(0 <= q < m && index_connected(g, r, q) && nv[q] == x);
            }
        }
    }
    assert forall|k: int, l: int|
        0 <= k < l < grouped.len() implies path_less(#[trigger] grouped[k][0], #[trigger] grouped[l][0]) by {
        assert(reps[k] < reps[l]);
    }
    assert forall|x: Seq<char>|
        fv.contains(x) && !isolated(fv, dv, threshold, x) implies exists|k: int|
        0 <= k < grouped.len() && #[trigger] grouped[k].contains(x) by {
        let q = lemma_node_of(nv, fv, x);
        lemma_bridge_lonely(fv, dv, threshold, nv, g, q);
        let k = choose|k: int| 0 <= k < reps.len() && #[trigger] index_connected(g, reps[k], q);
        assert(0 <= q < m && index_connected(g, reps[k], q) && nv[q] == x);
        assert(grouped[k].contains(x));
    }
}


/// Some square table of distances the hasher may measure between the
/// comparable digests yields this outcome over the comparable files.
pub open spec fn grouped_by_measures<H: SimilarityHasher>(
    hasher: H,
    results: Seq<TelfhashResult>,
    threshold: u32,
    grouped: Seq<Seq<Seq<char>>>,
    nogroup: Seq<Seq<char>>,
) -> bool {
    exists|d: Seq<Seq<u32>>|
        distance_table(d, eligible_files(results).len() as int) && measured_table(
            hasher,
            eligible_digests(results),
            d,
        ) && #[trigger] is_components_grouping(eligible_files(results), d, threshold, grouped, nogroup)
}

/// Groups the comparable results by components, with the distances that
/// `hasher` measures; fails with the first failure of `hasher`.
pub fn group_results<H: SimilarityHasher>(results: &[TelfhashResult], threshold: u32, hasher: &H) -> (r:
    Result<GroupingResult, TelfhashError>)
    ensures
        eligible_files(results@).len() < 2 ==> r is Ok,
        r is Ok ==> grouped_by_measures(
            *hasher,
            results@,
            threshold,
            r->Ok_0.grouped.deep_view(),
            r->Ok_0.nogroup.deep_view(),
        ),
        r matches Err(e) ==> first_failure_measured(*hasher, eligible_digests(results@), e),
{
    let (files, digests) = eligible_results(results);
    if files.len() < 2 {
        let r = GroupingResult::empty();
        proof {
            assert(r.grouped.deep_view().len() == 0);
            assert(r.nogroup.deep_view().len() == 0);
            let n = eligible_files(results@).len();
            let d = Seq::new(n, |i: int| Seq::new(n, |j: int| 0u32));
            assert(distance_table(d, n as int));
            assert(measured_table(*hasher, eligible_digests(results@), d));
            assert(is_components_grouping(eligible_files(results@), d, threshold, r.grouped.deep_view(), r.nogroup.deep_view()));
        }
        return Ok(r);
    }
    let table = match pairwise_distances(&digests, hasher) {
        Ok(table) => table,
        Err(e) => return Err(e),
    };
    let g = group_with_distances(&files, &table, threshold);
    proof {
        assert(distance_table(table.deep_view(), eligible_files(results@).len() as int));
        assert(measured_table(*hasher, eligible_digests(results@), table.deep_view()));
        assert(is_components_grouping(
            eligible_files(results@),
            table.deep_view(),
            threshold,
            g.grouped.deep_view(),
            g.nogroup.deep_view(),
        ));
    }
    Ok(g)
}

} // verus!

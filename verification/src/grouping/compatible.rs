//! The compatible grouping heuristic: each pair of comparable files within the
//! threshold seeds a group, which takes in the endpoints of every qualifying
//! pair that touches the seed; repeated groups are dropped, and so is every
//! group whose files all lie in another group.
use vstd::prelude::*;
use crate::order::{
    lemma_is_sorted_paths_of, path_less, path_lt, same_text, sort_paths,
    sorted_paths_of,
};
use crate::error::TelfhashError;
use crate::model::{GroupingResult, TelfhashResult};
use crate::ports::SimilarityHasher;
use crate::grouping::common::{
    eligible_digests, eligible_files, eligible_results, first_failure_measured, measured_table,
    pairwise_distances,
};
use crate::grouping::connected::distance_table;

verus! {

/// A qualifying pair of paths, in the order of their entries.
pub type Edge = (Seq<char>, Seq<char>);

/// The qualifying pairs `(i, k)` for `i < k < j`, in order of `k`.
pub open spec fn row_edges(
    files: Seq<Seq<char>>,
    dist: Seq<Seq<u32>>,
    threshold: u32,
    i: int,
    j: int,
) -> Seq<Edge>
    decreases j - i,
{
    if j <= i + 1 {
        Seq::empty()
    } else {
        let rest = row_edges(files, dist, threshold, i, j - 1);
        if dist[i][j - 1] <= threshold {
            rest.push((files[i], files[j - 1]))
        } else {
            rest
        }
    }
}

/// The qualifying pairs whose first entry comes before entry `i`, in order.
pub open spec fn edges_before(
    files: Seq<Seq<char>>,
    dist: Seq<Seq<u32>>,
    threshold: u32,
    i: int,
) -> Seq<Edge>
    decreases i,
{
    if i <= 0 {
        Seq::empty()
    } else {
        edges_before(files, dist, threshold, i - 1) + row_edges(
            files,
            dist,
            threshold,
            i - 1,
            files.len() as int,
        )
    }
}

/// Every pair of entries `i < j` whose distance is within the threshold, in
/// the order `(0, 1), (0, 2), ..., (1, 2), ...`.
pub open spec fn qualifying_edges(files: Seq<Seq<char>>, dist: Seq<Seq<u32>>, threshold: u32) -> Seq<
    Edge,
> {
    edges_before(files, dist, threshold, files.len() as int)
}

/// Pair `r` shares an endpoint with pair `e`.
pub open spec fn touches(r: Edge, e: Edge) -> bool {
    r.0 == e.0 || r.1 == e.0 || r.0 == e.1 || r.1 == e.1
}

/// Appends `x` unless it is already there.
pub open spec fn push_new<A>(s: Seq<A>, x: A) -> Seq<A> {
    if s.contains(x) {
        s
    } else {
        s.push(x)
    }
}

/// The first occurrence of each element, in order.
pub open spec fn dedup_first<A>(s: Seq<A>) -> Seq<A>
    decreases s.len(),
{
    if s.len() == 0 {
        s
    } else {
        push_new(dedup_first(s.drop_last()), s.last())
    }
}

/// The seed of pair `e` after taking in the pairs `edges[..k]` that touch it:
/// both endpoints of `e`, then each new endpoint of a touching pair.
pub open spec fn seed_members(edges: Seq<Edge>, e: Edge, k: int) -> Seq<Seq<char>>
    decreases k,
{
    if k <= 0 {
        seq![e.0, e.1]
    } else {
        let g = seed_members(edges, e, k - 1);
        let r = edges[k - 1];
        if touches(r, e) {
            push_new(push_new(g, r.0), r.1)
        } else {
            g
        }
    }
}

/// The group that pair `e` seeds, in path order.
pub open spec fn seed_group(edges: Seq<Edge>, e: Edge) -> Seq<Seq<char>> {
    sorted_paths_of(seed_members(edges, e, edges.len() as int))
}

/// The seeded groups, each listed once, in the order of their first seeds.
pub open spec fn raw_groups(edges: Seq<Edge>) -> Seq<Seq<Seq<char>>> {
    dedup_first(Seq::new(edges.len(), |k: int| seed_group(edges, edges[k])))
}

/// Group `a` sorts before group `b`: fewer files, or as many and a smaller first file.
pub open spec fn group_key_less(a: Seq<Seq<char>>, b: Seq<Seq<char>>) -> bool {
    a.len() < b.len() || (a.len() == b.len() && path_less(a[0], b[0]))
}

/// Inserts `g` after every group that does not sort after it.
pub open spec fn insert_stable(s: Seq<Seq<Seq<char>>>, g: Seq<Seq<char>>) -> Seq<Seq<Seq<char>>>
    decreases s.len(),
{
    if s.len() == 0 {
        seq![g]
    } else if group_key_less(g, s.last()) {
        insert_stable(s.drop_last(), g).push(s.last())
    } else {
        s.push(g)
    }
}

/// The groups sorted by size and first file, ties kept in their order.
pub open spec fn stable_sort(s: Seq<Seq<Seq<char>>>) -> Seq<Seq<Seq<char>>>
    decreases s.len(),
{
    if s.len() == 0 {
        s
    } else {
        insert_stable(stable_sort(s.drop_last()), s.last())
    }
}

/// Every file of `a` lies in `b`.
pub open spec fn covered_by(a: Seq<Seq<char>>, b: Seq<Seq<char>>) -> bool {
    forall|x: Seq<char>| #[trigger] a.contains(x) ==> b.contains(x)
}

/// No other group of `s` covers group `s[i]`.
pub open spec fn maximal_at(s: Seq<Seq<Seq<char>>>, i: int) -> bool {
    forall|j: int| 0 <= j < s.len() && j != i ==> !covered_by(s[i], #[trigger] s[j])
}

/// The groups among `s[..k]` that no other group of `s` covers, in order.
pub open spec fn keep_maximal(s: Seq<Seq<Seq<char>>>, k: int) -> Seq<Seq<Seq<char>>>
    decreases k,
{
    if k <= 0 {
        Seq::empty()
    } else {
        let r = keep_maximal(s, k - 1);
        if maximal_at(s, k - 1) {
            r.push(s[k - 1])
        } else {
            r
        }
    }
}

/// The groups of the compatible heuristic.
pub open spec fn compatible_groups(files: Seq<Seq<char>>, dist: Seq<Seq<u32>>, threshold: u32) -> Seq<
    Seq<Seq<char>>,
> {
    let s = stable_sort(raw_groups(qualifying_edges(files, dist, threshold)));
    keep_maximal(s, s.len() as int)
}

/// Some group holds `x`.
pub open spec fn in_some_group(groups: Seq<Seq<Seq<char>>>, x: Seq<char>) -> bool {
    exists|k: int| 0 <= k < groups.len() && #[trigger] groups[k].contains(x)
}

/// The entries of `files` that no group holds, in order.
pub open spec fn ungrouped(files: Seq<Seq<char>>, groups: Seq<Seq<Seq<char>>>) -> Seq<Seq<char>>
    decreases files.len(),
{
    if files.len() == 0 {
        files
    } else {
        let r = ungrouped(files.drop_last(), groups);
        if in_some_group(groups, files.last()) {
            r
        } else {
            r.push(files.last())
        }
    }
}

/// The comparable files of the compatible heuristic that no group holds, each once, in input order.
pub open spec fn compatible_nogroup(files: Seq<Seq<char>>, dist: Seq<Seq<u32>>, threshold: u32) -> Seq<
    Seq<char>,
> {
    dedup_first(ungrouped(files, compatible_groups(files, dist, threshold)))
}

/// The outcome of the compatible heuristic over comparable `files` and
/// distances `dist`: nothing when fewer than two files compare.
pub open spec fn is_compatible_grouping(
    files: Seq<Seq<char>>,
    dist: Seq<Seq<u32>>,
    threshold: u32,
    grouped: Seq<Seq<Seq<char>>>,
    nogroup: Seq<Seq<char>>,
) -> bool {
    if files.len() < 2 {
        grouped.len() == 0 && nogroup.len() == 0
    } else {
        grouped == compatible_groups(files, dist, threshold) && nogroup == compatible_nogroup(
            files,
            dist,
            threshold,
        )
    }
}

/// `x` occurs in the list.
pub fn contains_path(list: &Vec<String>, x: &String) -> (r: bool)
    ensures
        r == list.deep_view().contains(x@),
{
    for i in 0..list.len()
        invariant
            forall|k: int| 0 <= k < i ==> #[trigger] list.deep_view()[k] != x@,
    {
        if same_text(list[i].as_str(), x.as_str()) {
            proof {
                assert(list.deep_view()[i as int] == x@);
            }
            return true;
        }
    }
    false
}

/// Appends `x` unless it is already there.
fn push_path(group: &mut Vec<String>, x: &String)
    ensures
        final(group).deep_view() == push_new(old(group).deep_view(), x@),
{
    if !contains_path(group, x) {
        group.push(x.clone());
        proof {
            assert(group.deep_view() =~= old(group).deep_view().push(x@));
        }
    }
}

/// Two lists of paths are the same list.
fn same_paths(a: &Vec<String>, b: &Vec<String>) -> (r: bool)
    ensures
        r == (a.deep_view() == b.deep_view()),
{
    if a.len() != b.len() {
        proof {
            assert(a.deep_view().len() != b.deep_view().len());
        }
        return false;
    }
    for i in 0..a.len()
        invariant
            a@.len() == b@.len(),
            forall|k: int| 0 <= k < i ==> #[trigger] a.deep_view()[k] == b.deep_view()[k],
    {
        if !same_text(a[i].as_str(), b[i].as_str()) {
            proof {
                assert(a.deep_view()[i as int] != b.deep_view()[i as int]);
            }
            return false;
        }
    }
    proof {
        assert(a.deep_view() =~= b.deep_view());
    }
    true
}

/// The qualifying pairs of the distance table, in order.
fn qualifying_edge_list(files: &Vec<String>, dist: &Vec<Vec<u32>>, threshold: u32) -> (edges: Vec<
    (String, String),
>)
    requires
        distance_table(dist.deep_view(), files@.len() as int),
    ensures
        edges.deep_view() == qualifying_edges(files.deep_view(), dist.deep_view(), threshold),
{
    let ghost fv = files.deep_view();
    let ghost dv = dist.deep_view();
    let n = files.len();
    let mut edges: Vec<(String, String)> = Vec::new();
    for i in 0..n
        invariant
            n == fv.len(),
            fv == files.deep_view(),
            dv == dist.deep_view(),
            distance_table(dv, n as int),
            edges.deep_view() == edges_before(fv, dv, threshold, i as int),
    {
        proof {
            assert(edges.deep_view() =~= edges_before(fv, dv, threshold, i as int) + row_edges(
                fv,
                dv,
                threshold,
                i as int,
                i + 1,
            ));
        }
        for j in (i + 1)..n
            invariant
                n == fv.len(),
                i < n,
                fv == files.deep_view(),
                dv == dist.deep_view(),
                distance_table(dv, n as int),
                dist@[i as int]@ == dv[i as int],
                edges.deep_view() == edges_before(fv, dv, threshold, i as int) + row_edges(
                    fv,
                    dv,
                    threshold,
                    i as int,
                    j as int,
                ),
        {
            let ghost before = edges.deep_view();
            if dist[i][j] <= threshold {
                edges.push((files[i].clone(), files[j].clone()));
                proof {
                    assert(edges.deep_view() =~= before.push((fv[i as int], fv[j as int])));
                }
            }
            proof {
                assert(row_edges(fv, dv, threshold, i as int, j + 1) == if dv[i as int][j as int]
                    <= threshold {
                    row_edges(fv, dv, threshold, i as int, j as int).push((fv[i as int], fv[j as int]))
                } else {
                    row_edges(fv, dv, threshold, i as int, j as int)
                });
                assert(edges.deep_view() =~= edges_before(fv, dv, threshold, i as int) + row_edges(
                    fv,
                    dv,
                    threshold,
                    i as int,
                    j + 1,
                ));
            }
        }
    }
    edges
}

/// Pair `r` shares an endpoint with pair `e`.
fn touches_edge(r: &(String, String), e: &(String, String)) -> (b: bool)
    ensures
        b == touches(r.deep_view(), e.deep_view()),
{
    same_text(r.0.as_str(), e.0.as_str()) || same_text(r.1.as_str(), e.0.as_str()) || same_text(
        r.0.as_str(),
        e.1.as_str(),
    ) || same_text(r.1.as_str(), e.1.as_str())
}

proof fn lemma_seed_members_len(edges: Seq<Edge>, e: Edge, k: int)
    ensures
        seed_members(edges, e, k).len() >= 2,
    decreases k,
{
    if k > 0 {
        lemma_seed_members_len(edges, e, k - 1);
    }
}

/// The group that pair `edges[k]` seeds.
fn seed_group_of(edges: &Vec<(String, String)>, k: usize) -> (g: Vec<String>)
    requires
        k < edges@.len(),
    ensures
        g.deep_view() == seed_group(edges.deep_view(), edges.deep_view()[k as int]),
        g@.len() >= 2,
{
    let ghost ev = edges.deep_view();
    let e = &edges[k];
    let mut group: Vec<String> = Vec::new();
    group.push(e.0.clone());
    group.push(e.1.clone());
    proof {
        assert(ev[k as int] == e.deep_view());
        assert(group.deep_view() =~= seed_members(ev, ev[k as int], 0));
    }
    for r in 0..edges.len()
        invariant
            ev == edges.deep_view(),
            k < ev.len(),
            ev[k as int] == e.deep_view(),
            group.deep_view() == seed_members(ev, ev[k as int], r as int),
    {
        proof {
            assert(ev[r as int] == edges@[r as int].deep_view());
        }
        if touches_edge(&edges[r], e) {
            push_path(&mut group, &edges[r].0);
            push_path(&mut group, &edges[r].1);
        }
    }
    let ghost members = group.deep_view();
    proof {
        lemma_seed_members_len(ev, ev[k as int], ev.len() as int);
    }
    sort_paths(&mut group);
    proof {
        lemma_is_sorted_paths_of(members, group.deep_view());
    }
    group
}

/// The list of groups holds group `g`.
fn contains_group(groups: &Vec<Vec<String>>, g: &Vec<String>) -> (r: bool)
    ensures
        r == groups.deep_view().contains(g.deep_view()),
{
    for i in 0..groups.len()
        invariant
            forall|k: int| 0 <= k < i ==> #[trigger] groups.deep_view()[k] != g.deep_view(),
    {
        if same_paths(&groups[i], g) {
            proof {
                assert(groups.deep_view()[i as int] == g.deep_view());
            }
            return true;
        }
    }
    false
}

/// The seeded groups, each once, in the order of their first seeds.
fn raw_group_list(edges: &Vec<(String, String)>) -> (groups: Vec<Vec<String>>)
    ensures
        groups.deep_view() == raw_groups(edges.deep_view()),
        forall|k: int| 0 <= k < groups@.len() ==> #[trigger] groups.deep_view()[k].len() >= 2,
{
    let ghost ev = edges.deep_view();
    let ghost seeds = Seq::new(ev.len(), |k: int| seed_group(ev, ev[k]));
    let mut groups: Vec<Vec<String>> = Vec::new();
    proof {
        assert(seeds.take(0) =~= Seq::<Seq<Seq<char>>>::empty());
        assert(groups.deep_view() =~= dedup_first(seeds.take(0)));
    }
    for k in 0..edges.len()
        invariant
            ev == edges.deep_view(),
            seeds == Seq::new(ev.len(), |z: int| seed_group(ev, ev[z])),
            groups.deep_view() == dedup_first(seeds.take(k as int)),
            forall|z: int| 0 <= z < groups@.len() ==> #[trigger] groups.deep_view()[z].len() >= 2,
    {
        let g = seed_group_of(edges, k);
        let ghost before = groups.deep_view();
        proof {
            assert(seeds.take(k + 1).drop_last() =~= seeds.take(k as int));
        }
        if !contains_group(&groups, &g) {
            groups.push(g);
            proof {
                assert(groups.deep_view() =~= before.push(seeds[k as int]));
            }
        }
    }
    proof {
        assert(seeds.take(ev.len() as int) =~= seeds);
    }
    groups
}

/// Group `a` sorts before group `b`.
fn group_before(a: &Vec<String>, b: &Vec<String>) -> (r: bool)
    requires
        a@.len() > 0,
        b@.len() > 0,
    ensures
        r == group_key_less(a.deep_view(), b.deep_view()),
{
    a.len() < b.len() || (a.len() == b.len() && path_lt(a[0].as_str(), b[0].as_str()))
}

proof fn lemma_insert_stable(s: Seq<Seq<Seq<char>>>, g: Seq<Seq<char>>, pos: int)
    requires
        0 <= pos <= s.len(),
        forall|i: int| pos <= i < s.len() ==> group_key_less(g, #[trigger] s[i]),
        pos == 0 || !group_key_less(g, s[pos - 1]),
    ensures
        insert_stable(s, g) == s.insert(pos, g),
    decreases s.len(),
{
    if s.len() == 0 {
        assert(s.insert(pos, g) =~= seq![g]);
    } else if pos == s.len() {
        assert(s.insert(pos, g) =~= s.push(g));
    } else {
        assert(group_key_less(g, s[s.len() - 1]));
        lemma_insert_stable(s.drop_last(), g, pos);
        assert(s.drop_last().insert(pos, g).push(s.last()) =~= s.insert(pos, g));
    }
}

/// The groups sorted by size, then by first file, ties kept in order.
fn sort_groups(groups: Vec<Vec<String>>) -> (out: Vec<Vec<String>>)
    requires
        forall|k: int| 0 <= k < groups@.len() ==> #[trigger] groups.deep_view()[k].len() >= 2,
    ensures
        out.deep_view() == stable_sort(groups.deep_view()),
        forall|k: int| 0 <= k < out@.len() ==> #[trigger] out.deep_view()[k].len() >= 2,
{
    let ghost gv = groups.deep_view();
    let mut out: Vec<Vec<String>> = Vec::new();
    let mut rest = groups;
    let mut taken: Vec<Vec<String>> = Vec::new();
    let n = rest.len();
    let mut k: usize = 0;
    proof {
        assert(gv.take(0) =~= Seq::<Seq<Seq<char>>>::empty());
        assert(out.deep_view() =~= stable_sort(gv.take(0)));
    }
    while k < n
        invariant
            n == gv.len(),
            k <= n,
            rest.deep_view() == gv,
            forall|z: int| 0 <= z < n ==> #[trigger] gv[z].len() >= 2,
            out.deep_view() == stable_sort(gv.take(k as int)),
            out@.len() == k,
            forall|z: int| 0 <= z < out@.len() ==> #[trigger] out.deep_view()[z].len() >= 2,
            forall|z: int| 0 <= z < out@.len() ==> #[trigger] out@[z]@.len() >= 2,
        decreases n - k,
    {
        let g = rest[k].clone();
        proof {
            assert(gv[k as int] == rest@[k as int].deep_view());
            assert(g.deep_view() == gv[k as int]);
        }
        let mut pos = out.len();
        while pos > 0 && group_before(&g, &out[pos - 1])
            invariant
                0 <= pos <= out@.len(),
                g@.len() >= 2,
                forall|z: int| 0 <= z < out@.len() ==> #[trigger] out.deep_view()[z].len() >= 2,
                forall|z: int| 0 <= z < out@.len() ==> #[trigger] out@[z]@.len() >= 2,
                forall|i: int| pos <= i < out@.len() ==> group_key_less(g.deep_view(), #[trigger] out.deep_view()[i]),
            decreases pos,
        {
            proof {
                assert(out.deep_view()[pos - 1].len() >= 2);
            }
            pos = pos - 1;
        }
        let ghost before = out.deep_view();
        proof {
            if pos > 0 {
                assert(out.deep_view()[pos - 1].len() >= 2);
            }
            lemma_insert_stable(before, g.deep_view(), pos as int);
            assert(gv.take(k + 1).drop_last() =~= gv.take(k as int));
        }
        out.insert(pos, g);
        proof {
            assert(out.deep_view() =~= before.insert(pos as int, gv[k as int]));
            assert forall|z: int| 0 <= z < out@.len() implies #[trigger] out.deep_view()[z].len() >= 2 by {
                if z < pos {
                    assert(out.deep_view()[z] == before[z]);
                } else if z > pos {
                    assert(out.deep_view()[z] == before[z - 1]);
                }
            }
            assert forall|z: int| 0 <= z < out@.len() implies #[trigger] out@[z]@.len() >= 2 by {
                assert(out.deep_view()[z] == out@[z].deep_view());
                assert(out.deep_view()[z].len() >= 2);
            }
        }
        k = k + 1;
    }
    proof {
        assert(gv.take(n as int) =~= gv);
    }
    out
}

/// Every path of `a` lies in `b`.
fn covers(a: &Vec<String>, b: &Vec<String>) -> (r: bool)
    ensures
        r == covered_by(a.deep_view(), b.deep_view()),
{
    for i in 0..a.len()
        invariant
            forall|k: int| 0 <= k < i ==> b.deep_view().contains(#[trigger] a.deep_view()[k]),
    {
        if !contains_path(b, &a[i]) {
            proof {
                assert(a.deep_view()[i as int] == a@[i as int]@);
                assert(a.deep_view().contains(a@[i as int]@));
            }
            return false;
        }
    }
    proof {
        assert forall|x: Seq<char>| #[trigger] a.deep_view().contains(x) implies b.deep_view().contains(x) by {
            let k = choose|k: int| 0 <= k < a.deep_view().len() && a.deep_view()[k] == x;
        }
    }
    true
}

/// The groups that no other group covers, in order.
fn keep_maximal_groups(s: &Vec<Vec<String>>) -> (out: Vec<Vec<String>>)
    ensures
        out.deep_view() == keep_maximal(s.deep_view(), s@.len() as int),
{
    let ghost sv = s.deep_view();
    let mut out: Vec<Vec<String>> = Vec::new();
    for i in 0..s.len()
        invariant
            sv == s.deep_view(),
            out.deep_view() == keep_maximal(sv, i as int),
    {
        let mut maximal = true;
        for j in 0..s.len()
            invariant
                sv == s.deep_view(),
                i < sv.len(),
                maximal == forall|z: int| 0 <= z < j && z != i ==> !covered_by(sv[i as int], #[trigger] sv[z]),
        {
            proof {
                assert(sv[j as int] == s@[j as int].deep_view());
                assert(sv[i as int] == s@[i as int].deep_view());
            }
            if j != i && covers(&s[i], &s[j]) {
                maximal = false;
            }
        }
        let ghost before = out.deep_view();
        if maximal {
            out.push(s[i].clone());
            proof {
                assert(out.deep_view() =~= before.push(sv[i as int]));
            }
        }
    }
    out
}

/// Some group holds path `x`.
fn in_any_group(groups: &Vec<Vec<String>>, x: &String) -> (r: bool)
    ensures
        r == in_some_group(groups.deep_view(), x@),
{
    for k in 0..groups.len()
        invariant
            forall|z: int| 0 <= z < k ==> !(#[trigger] groups.deep_view()[z]).contains(x@),
    {
        if contains_path(&groups[k], x) {
            proof {
                assert(groups.deep_view()[k as int] == groups@[k as int].deep_view());
            }
            return true;
        }
    }
    proof {
        assert forall|z: int| 0 <= z < groups.deep_view().len() implies !(#[trigger] groups.deep_view()[z]).contains(x@) by {
            assert(groups.deep_view()[z] == groups@[z].deep_view());
        }
    }
    false
}

/// Groups comparable files by the compatible heuristic.
///
/// `files` are the comparable files in input order and `distances[i][j]`, for
/// `i < j`, the distance between entries `i` and `j`. With fewer than two
/// files nothing is grouped and nothing listed.
pub fn group_with_distances(files: &Vec<String>, distances: &Vec<Vec<u32>>, threshold: u32) -> (r:
    GroupingResult)
    requires
        distance_table(distances.deep_view(), files@.len() as int),
    ensures
        is_compatible_grouping(
            files.deep_view(),
            distances.deep_view(),
            threshold,
            r.grouped.deep_view(),
            r.nogroup.deep_view(),
        ),
{
    if files.len() < 2 {
        let r = GroupingResult::empty();
        proof {
            assert(r.grouped.deep_view().len() == 0);
            assert(r.nogroup.deep_view().len() == 0);
        }
        return r;
    }
    let ghost fv = files.deep_view();
    let edges = qualifying_edge_list(files, distances, threshold);
    let raw = raw_group_list(&edges);
    let sorted = sort_groups(raw);
    let grouped = keep_maximal_groups(&sorted);
    let ghost gv = grouped.deep_view();
    let mut nogroup: Vec<String> = Vec::new();
    proof {
        assert(fv.take(0) =~= Seq::<Seq<char>>::empty());
        assert(nogroup.deep_view() =~= dedup_first(ungrouped(fv.take(0), gv)));
    }
    for i in 0..files.len()
        invariant
            fv == files.deep_view(),
            gv == grouped.deep_view(),
            nogroup.deep_view() == dedup_first(ungrouped(fv.take(i as int), gv)),
    {
        let f = &files[i];
        proof {
            assert(fv[i as int] == f@);
            assert(fv.take(i + 1).drop_last() =~= fv.take(i as int));
            assert(fv.take(i + 1).last() == f@);
        }
        let ghost before = nogroup.deep_view();
        let ghost u = ungrouped(fv.take(i as int), gv);
        proof {
            assert(ungrouped(fv.take(i + 1), gv) == if in_some_group(gv, f@) {
                u
            } else {
                u.push(f@)
            });
            assert(u.push(f@).drop_last() =~= u);
            assert(dedup_first(u.push(f@)) == push_new(dedup_first(u), f@));
        }
        if !in_any_group(&grouped, f) && !contains_path(&nogroup, f) {
            nogroup.push(f.clone());
            proof {
                assert(nogroup.deep_view() =~= before.push(f@));
            }
        }
    }
    proof {
        assert(fv.take(fv.len() as int) =~= fv);
    }
    GroupingResult { grouped, nogroup }
}


/// Some square table of distances the hasher may measure between the
/// comparable digests yields this outcome over the comparable files.
pub open spec fn grouped_by_measures<H: SimilarityHasher>(
    hasher: H,
    results: Seq<TelfhashResult>,
    threshold: u32,
    grouped: Seq<Seq<Seq<char>>>,
    nogroup: Seq<Seq<char>>,
) -> bool {
    exists|d: Seq<Seq<u32>>|
        distance_table(d, eligible_files(results).len() as int) && measured_table(
            hasher,
            eligible_digests(results),
            d,
        ) && #[trigger] is_compatible_grouping(eligible_files(results), d, threshold, grouped, nogroup)
}

/// Groups the comparable results by the compatible heuristic, with the
/// distances that `hasher` measures; fails with the first failure of `hasher`.
pub fn group_results<H: SimilarityHasher>(results: &[TelfhashResult], threshold: u32, hasher: &H) -> (r:
    Result<GroupingResult, TelfhashError>)
    ensures
        eligible_files(results@).len() < 2 ==> r is Ok,
        r is Ok ==> grouped_by_measures(
            *hasher,
            results@,
            threshold,
            r->Ok_0.grouped.deep_view(),
            r->Ok_0.nogroup.deep_view(),
        ),
        r matches Err(e) ==> first_failure_measured(*hasher, eligible_digests(results@), e),
{
    let (files, digests) = eligible_results(results);
    if files.len() < 2 {
        let r = GroupingResult::empty();
        proof {
            assert(r.grouped.deep_view().len() == 0);
            assert(r.nogroup.deep_view().len() == 0);
            let n = eligible_files(results@).len();
            let d = Seq::new(n, |i: int| Seq::new(n, |j: int| 0u32));
            assert(distance_table(d, n as int));
            assert(measured_table(*hasher, eligible_digests(results@), d));
            assert(is_compatible_grouping(eligible_files(results@), d, threshold, r.grouped.deep_view(), r.nogroup.deep_view()));
        }
        return Ok(r);
    }
    let table = match pairwise_distances(&digests, hasher) {
        Ok(table) => table,
        Err(e) => return Err(e),
    };
    let g = group_with_distances(&files, &table, threshold);
    proof {
        assert(distance_table(table.deep_view(), eligible_files(results@).len() as int));
        assert(measured_table(*hasher, eligible_digests(results@), table.deep_view()));
        assert(is_compatible_grouping(
            eligible_files(results@),
            table.deep_view(),
            threshold,
            g.grouped.deep_view(),
            g.nogroup.deep_view(),
        ));
    }
    Ok(g)
}

} // verus!

//! What every grouping promises, whichever hasher measured the distances.
use vstd::prelude::*;
use crate::error::TelfhashError;
use crate::grouping::common::{eligible_digests, eligible_files, measured_table};
use crate::grouping::compatible::{
    self, compatible_groups, dedup_first, edges_before, in_some_group, insert_stable, keep_maximal,
    qualifying_edges, raw_groups, row_edges, seed_group, seed_members, stable_sort, ungrouped, Edge,
};
use crate::grouping::connected::{
    self, closed_under_links, connected, distance_table, is_components_grouping, isolated, linked,
    lemma_connected_in_files, lemma_linked_paths, pair_within,
};
use crate::model::{result_groupable, TelfhashResult};
use crate::order::{
    lemma_path_le_total_ordering, lemma_path_order, lemma_sorted_unique, path_le, path_less,
    paths_sorted, paths_strictly_sorted, sorted_paths_of,
};
use crate::ports::SimilarityHasher;

verus! {

/// Every path lies in its own component.
proof fn lemma_connected_refl(files: Seq<Seq<char>>, dist: Seq<Seq<u32>>, threshold: u32, a: Seq<char>)
    ensures
        connected(files, dist, threshold, a, a),
{
}

/// Components are transitive.
proof fn lemma_connected_trans(
    files: Seq<Seq<char>>,
    dist: Seq<Seq<u32>>,
    threshold: u32,
    a: Seq<char>,
    b: Seq<char>,
    c: Seq<char>,
)
    requires
        connected(files, dist, threshold, a, b),
        connected(files, dist, threshold, b, c),
    ensures
        connected(files, dist, threshold, a, c),
{
    assert forall|s: Set<Seq<char>>|
        #[trigger] closed_under_links(files, dist, threshold, s) && s.contains(a) implies s.contains(c) by {
        assert(s.contains(b));
    }
}

/// Linked paths lie in one component.
proof fn lemma_linked_connected(
    files: Seq<Seq<char>>,
    dist: Seq<Seq<u32>>,
    threshold: u32,
    a: Seq<char>,
    b: Seq<char>,
)
    requires
        linked(files, dist, threshold, a, b),
    ensures
        connected(files, dist, threshold, a, b),
{
    assert forall|s: Set<Seq<char>>|
        #[trigger] closed_under_links(files, dist, threshold, s) && s.contains(a) implies s.contains(b) by {
        assert(s.contains(a) && linked(files, dist, threshold, a, b));
    }
}

/// Components are symmetric.
proof fn lemma_connected_symm(
    files: Seq<Seq<char>>,
    dist: Seq<Seq<u32>>,
    threshold: u32,
    a: Seq<char>,
    b: Seq<char>,
)
    requires
        connected(files, dist, threshold, a, b),
    ensures
        connected(files, dist, threshold, b, a),
{
    let s = Set::new(|y: Seq<char>| connected(files, dist, threshold, y, a));
    assert forall|u: Seq<char>, v: Seq<char>|
        #![trigger s.contains(u), linked(files, dist, threshold, u, v)]
        s.contains(u) && linked(files, dist, threshold, u, v) implies s.contains(v) by {
        lemma_linked_paths(files, dist, threshold, u, v);
        lemma_linked_connected(files, dist, threshold, v, u);
        lemma_connected_trans(files, dist, threshold, v, u, a);
    }
    assert(closed_under_links(files, dist, threshold, s));
    lemma_connected_refl(files, dist, threshold, a);
    assert(s.contains(a));
}

/// The component of an isolated path holds that path alone.
proof fn lemma_isolated_alone(
    files: Seq<Seq<char>>,
    dist: Seq<Seq<u32>>,
    threshold: u32,
    a: Seq<char>,
    b: Seq<char>,
)
    requires
        isolated(files, dist, threshold, a),
        connected(files, dist, threshold, a, b),
    ensures
        b == a,
{
    let s = Set::empty().insert(a);
    assert forall|u: Seq<char>, v: Seq<char>|
        #![trigger s.contains(u), linked(files, dist, threshold, u, v)]
        s.contains(u) && linked(files, dist, threshold, u, v) implies s.contains(v) by {
        assert(u == a);
        assert(!linked(files, dist, threshold, a, v));
    }
    assert(closed_under_links(files, dist, threshold, s));
    assert(s.contains(b));
}

/// The first path of a group sorted strictly comes before its other paths.
proof fn lemma_first_is_least(g: Seq<Seq<char>>, x: Seq<char>)
    requires
        crate::order::paths_strictly_sorted(g),
        g.contains(x),
        g.len() > 0,
    ensures
        x == g[0] || path_less(g[0], x),
{
    let m = choose|m: int| 0 <= m < g.len() && g[m] == x;
    if m > 0 {
        assert(path_less(g[0], g[m]));
    }
}

/// The comparable files and digests come in pairs.
pub proof fn lemma_eligible_lengths(results: Seq<TelfhashResult>)
    ensures
        eligible_digests(results).len() == eligible_files(results).len(),
    decreases results.len(),
{
    if results.len() > 0 {
        lemma_eligible_lengths(results.drop_last());
    }
}

/// Grouping by connected components lists each path at most once and only
/// comparable files: the groups are disjoint, no grouped file is also
/// ungrouped, and every listed path is a comparable file. With at least two
/// comparable files, every one of them is listed, in a group or ungrouped.
/// The ungrouped files and each group are in strictly ascending order, and
/// the groups are ordered by their first files.
pub proof fn law_components_partition<H: SimilarityHasher>(
    hasher: H,
    results: Seq<TelfhashResult>,
    threshold: u32,
    grouped: Seq<Seq<Seq<char>>>,
    nogroup: Seq<Seq<char>>,
)
    requires
        connected::grouped_by_measures(hasher, results, threshold, grouped, nogroup),
    ensures
        forall|x: Seq<char>| #[trigger] nogroup.contains(x) ==> eligible_files(results).contains(x),
        forall|k: int, x: Seq<char>|
            0 <= k < grouped.len() && #[trigger] grouped[k].contains(x) ==> eligible_files(
                results,
            ).contains(x) && !nogroup.contains(x),
        forall|k: int, l: int, x: Seq<char>|
            0 <= k < grouped.len() && 0 <= l < grouped.len() && #[trigger] grouped[k].contains(x)
                && #[trigger] grouped[l].contains(x) ==> k == l,
        eligible_files(results).len() >= 2 ==> forall|x: Seq<char>|
            #[trigger] eligible_files(results).contains(x) ==> nogroup.contains(x) || exists|k: int|
                0 <= k < grouped.len() && #[trigger] grouped[k].contains(x),
        crate::order::paths_strictly_sorted(nogroup),
        forall|k: int|
            0 <= k < grouped.len() ==> crate::order::paths_strictly_sorted(#[trigger] grouped[k]),
        forall|k: int, l: int|
            0 <= k < l < grouped.len() ==> path_less(#[trigger] grouped[k][0], #[trigger] grouped[l][0]),
{
    let files = eligible_files(results);
    let d = choose|d: Seq<Seq<u32>>|
        distance_table(d, files.len() as int) && measured_table(hasher, eligible_digests(results), d)
            && #[trigger] is_components_grouping(files, d, threshold, grouped, nogroup);
    if files.len() < 2 {
        assert(grouped.len() == 0 && nogroup.len() == 0);
        assert(crate::order::paths_strictly_sorted(nogroup));
        return;
    }
    assert forall|k: int, x: Seq<char>|
        0 <= k < grouped.len() && #[trigger] grouped[k].contains(x) implies files.contains(x)
        && !nogroup.contains(x) by {
        let g0 = grouped[k][0];
        assert(connected(files, d, threshold, g0, x));
        lemma_connected_in_files(files, d, threshold, g0, x);
        if nogroup.contains(x) {
            assert(isolated(files, d, threshold, x));
            lemma_connected_symm(files, d, threshold, g0, x);
            lemma_isolated_alone(files, d, threshold, x, g0);
        }
    }
    assert forall|k: int, l: int, x: Seq<char>|
        0 <= k < grouped.len() && 0 <= l < grouped.len() && #[trigger] grouped[k].contains(x)
            && #[trigger] grouped[l].contains(x) implies k == l by {
        let gk = grouped[k][0];
        let gl = grouped[l][0];
        assert(connected(files, d, threshold, gk, x));
        assert(connected(files, d, threshold, gl, x));
        lemma_connected_symm(files, d, threshold, gl, x);
        lemma_connected_trans(files, d, threshold, gk, x, gl);
        lemma_connected_symm(files, d, threshold, gk, gl);
        assert(grouped[k].contains(gl));
        assert(grouped[l].contains(gk));
        lemma_first_is_least(grouped[k], gl);
        lemma_first_is_least(grouped[l], gk);
        lemma_path_order(gk, gl, gl);
        if k < l {
            assert(path_less(grouped[k][0], grouped[l][0]));
        } else if l < k {
            assert(path_less(grouped[l][0], grouped[k][0]));
        }
    }
    assert forall|x: Seq<char>| #[trigger] files.contains(x) implies nogroup.contains(x) || exists|k: int|
        0 <= k < grouped.len() && #[trigger] grouped[k].contains(x) by {
        if !isolated(files, d, threshold, x) {
            assert(exists|k: int| 0 <= k < grouped.len() && #[trigger] grouped[k].contains(x));
        }
    }
}

/// Grouping by connected components puts two comparable files in one group
/// when every distance the hasher may measure between their digests lies
/// within the threshold.
pub proof fn law_components_join_close_files<H: SimilarityHasher>(
    hasher: H,
    results: Seq<TelfhashResult>,
    threshold: u32,
    grouped: Seq<Seq<Seq<char>>>,
    nogroup: Seq<Seq<char>>,
    i: int,
    j: int,
)
    requires
        connected::grouped_by_measures(hasher, results, threshold, grouped, nogroup),
        0 <= i < j < eligible_files(results).len(),
        forall|v: u32|
            #[trigger] hasher.measures(
                eligible_digests(results)[i],
                eligible_digests(results)[j],
                Ok::<u32, TelfhashError>(v),
            ) ==> v <= threshold,
    ensures
        exists|k: int|
            0 <= k < grouped.len() && #[trigger] grouped[k].contains(eligible_files(results)[i])
                && grouped[k].contains(eligible_files(results)[j]),
{
    let files = eligible_files(results);
    let digests = eligible_digests(results);
    lemma_eligible_lengths(results);
    let d = choose|d: Seq<Seq<u32>>|
        distance_table(d, files.len() as int) && measured_table(hasher, digests, d)
            && #[trigger] is_components_grouping(files, d, threshold, grouped, nogroup);
    assert(hasher.measures(digests[i], digests[j], Ok::<u32, TelfhashError>(d[i][j])));
    assert(pair_within(d, threshold, files.len() as int, i, j));
    let a = files[i];
    let b = files[j];
    assert(linked(files, d, threshold, a, b));
    assert(files.contains(a));
    assert(!isolated(files, d, threshold, a));
    let k = choose|k: int| 0 <= k < grouped.len() && #[trigger] grouped[k].contains(a);
    assert(connected(files, d, threshold, grouped[k][0], a));
    lemma_linked_connected(files, d, threshold, a, b);
    lemma_connected_trans(files, d, threshold, grouped[k][0], a, b);
    assert(grouped[k].contains(b));
}

/// What `ungrouped` keeps: the files no group holds.
proof fn lemma_ungrouped_contains(files: Seq<Seq<char>>, groups: Seq<Seq<Seq<char>>>, x: Seq<char>)
    ensures
        ungrouped(files, groups).contains(x) <==> files.contains(x) && !in_some_group(groups, x),
    decreases files.len(),
{
    if files.len() > 0 {
        lemma_ungrouped_contains(files.drop_last(), groups, x);
        assert(files =~= files.drop_last().push(files.last()));
        let r = ungrouped(files.drop_last(), groups);
        if files.drop_last().contains(x) {
            let m = choose|m: int| 0 <= m < files.drop_last().len() && files.drop_last()[m] == x;
            assert(files[m] == x);
        }
        if files.contains(x) && !files.drop_last().contains(x) {
            let m = choose|m: int| 0 <= m < files.len() && files[m] == x;
            if m < files.len() - 1 {
                assert(files.drop_last()[m] == x);
            }
            assert(files.last() == x);
        }
        if in_some_group(groups, files.last()) {
        } else {
            if r.contains(x) {
                let m = choose|m: int| 0 <= m < r.len() && r[m] == x;
                assert(r.push(files.last())[m] == x);
            }
            assert(r.push(files.last())[r.len() as int] == files.last());
        }
    }
}

/// What `dedup_first` keeps: every element once.
pub proof fn lemma_dedup_first<A>(s: Seq<A>)
    ensures
        forall|x: A| #[trigger] dedup_first(s).contains(x) <==> s.contains(x),
        dedup_first(s).no_duplicates(),
    decreases s.len(),
{
    if s.len() > 0 {
        let p = s.drop_last();
        lemma_dedup_first(p);
        let r = dedup_first(p);
        assert(s =~= p.push(s.last()));
        assert forall|x: A| #[trigger] dedup_first(s).contains(x) <==> s.contains(x) by {
            if p.contains(x) {
                let m = choose|m: int| 0 <= m < p.len() && p[m] == x;
                assert(s[m] == x);
            }
            if s.contains(x) {
                let m = choose|m: int| 0 <= m < s.len() && s[m] == x;
                if m < s.len() - 1 {
                    assert(p[m] == x);
                }
            }
            if !r.contains(s.last()) {
                if r.contains(x) {
                    let m = choose|m: int| 0 <= m < r.len() && r[m] == x;
                    assert(r.push(s.last())[m] == x);
                }
                assert(r.push(s.last())[r.len() as int] == s.last());
            }
        }
        if !r.contains(s.last()) {
            let t = r.push(s.last());
            assert forall|a: int, b: int| 0 <= a < t.len() && 0 <= b < t.len() && a != b implies t[a]
                != t[b] by {
                if a == r.len() as int && b < r.len() {
                    assert(r.contains(r[b]));
                } else if b == r.len() as int && a < r.len() {
                    assert(r.contains(r[a]));
                }
            }
        }
    }
}

/// The compatible heuristic lists each comparable file: an ungrouped file is
/// a comparable file that no group holds, listed once; and with at least
/// two comparable files, every comparable file is in a group or ungrouped.
pub proof fn law_compatible_lists_every_file<H: SimilarityHasher>(
    hasher: H,
    results: Seq<TelfhashResult>,
    threshold: u32,
    grouped: Seq<Seq<Seq<char>>>,
    nogroup: Seq<Seq<char>>,
)
    requires
        compatible::grouped_by_measures(hasher, results, threshold, grouped, nogroup),
    ensures
        forall|x: Seq<char>|
            #[trigger] nogroup.contains(x) ==> eligible_files(results).contains(x) && !in_some_group(
                grouped,
                x,
            ),
        nogroup.no_duplicates(),
        eligible_files(results).len() >= 2 ==> forall|x: Seq<char>|
            #[trigger] eligible_files(results).contains(x) ==> nogroup.contains(x) || in_some_group(
                grouped,
                x,
            ),
{
    let files = eligible_files(results);
    let d = choose|d: Seq<Seq<u32>>|
        distance_table(d, files.len() as int) && measured_table(hasher, eligible_digests(results), d)
            && #[trigger] compatible::is_compatible_grouping(files, d, threshold, grouped, nogroup);
    if files.len() < 2 {
        assert(nogroup.len() == 0);
        return;
    }
    let groups = compatible_groups(files, d, threshold);
    let u = ungrouped(files, groups);
    lemma_dedup_first(u);
    assert(nogroup == dedup_first(u));
    assert forall|x: Seq<char>| #[trigger] nogroup.contains(x) implies files.contains(x) && !in_some_group(
        grouped,
        x,
    ) by {
        lemma_ungrouped_contains(files, groups, x);
    }
    assert forall|x: Seq<char>| #[trigger] files.contains(x) implies nogroup.contains(x) || in_some_group(
        grouped,
        x,
    ) by {
        lemma_ungrouped_contains(files, groups, x);
    }
}

/// Fewer than two comparable results group to nothing, in either mode.
pub proof fn law_grouping_needs_two_files<H: SimilarityHasher>(
    hasher: H,
    results: Seq<TelfhashResult>,
    threshold: u32,
    grouped: Seq<Seq<Seq<char>>>,
    nogroup: Seq<Seq<char>>,
)
    requires
        eligible_files(results).len() < 2,
        connected::grouped_by_measures(hasher, results, threshold, grouped, nogroup)
            || compatible::grouped_by_measures(hasher, results, threshold, grouped, nogroup),
    ensures
        grouped.len() == 0,
        nogroup.len() == 0,
{
    let files = eligible_files(results);
    if connected::grouped_by_measures(hasher, results, threshold, grouped, nogroup) {
        let d = choose|d: Seq<Seq<u32>>|
            distance_table(d, files.len() as int) && measured_table(hasher, eligible_digests(results), d)
                && #[trigger] is_components_grouping(files, d, threshold, grouped, nogroup);
    } else {
        let d = choose|d: Seq<Seq<u32>>|
            distance_table(d, files.len() as int) && measured_table(hasher, eligible_digests(results), d)
                && #[trigger] compatible::is_compatible_grouping(files, d, threshold, grouped, nogroup);
    }
}

/// Both ends of every pair lie among `files`.
pub open spec fn edges_within(edges: Seq<Edge>, files: Seq<Seq<char>>) -> bool {
    forall|k: int| 0 <= k < edges.len() ==> files.contains(#[trigger] edges[k].0) && files.contains(edges[k].1)
}

proof fn lemma_row_edges_within(files: Seq<Seq<char>>, dist: Seq<Seq<u32>>, threshold: u32, i: int, j: int)
    requires
        0 <= i < files.len(),
        j <= files.len(),
    ensures
        edges_within(row_edges(files, dist, threshold, i, j), files),
    decreases j - i,
{
    if j > i + 1 {
        lemma_row_edges_within(files, dist, threshold, i, j - 1);
        let rest = row_edges(files, dist, threshold, i, j - 1);
        let e = (files[i], files[j - 1]);
        assert(files.contains(files[i]));
        assert(files.contains(files[j - 1]));
        if dist[i][j - 1] <= threshold {
            assert forall|k: int| 0 <= k < rest.push(e).len() implies files.contains(
                #[trigger] rest.push(e)[k].0,
            ) && files.contains(rest.push(e)[k].1) by {
                if k < rest.len() {
                    assert(rest.push(e)[k] == rest[k]);
                }
            }
        }
    }
}

proof fn lemma_edges_before_within(files: Seq<Seq<char>>, dist: Seq<Seq<u32>>, threshold: u32, i: int)
    requires
        i <= files.len(),
    ensures
        edges_within(edges_before(files, dist, threshold, i), files),
    decreases i,
{
    if i > 0 {
        lemma_edges_before_within(files, dist, threshold, i - 1);
        lemma_row_edges_within(files, dist, threshold, i - 1, files.len() as int);
        let a = edges_before(files, dist, threshold, i - 1);
        let b = row_edges(files, dist, threshold, i - 1, files.len() as int);
        assert forall|k: int| 0 <= k < (a + b).len() implies files.contains(#[trigger] (a + b)[k].0)
            && files.contains((a + b)[k].1) by {
            if k < a.len() {
                assert((a + b)[k] == a[k]);
            } else {
                assert((a + b)[k] == b[k - a.len()]);
            }
        }
    }
}

proof fn lemma_seed_members_within(edges: Seq<Edge>, e: Edge, k: int, files: Seq<Seq<char>>)
    requires
        edges_within(edges, files),
        files.contains(e.0),
        files.contains(e.1),
        k <= edges.len(),
    ensures
        forall|x: Seq<char>| #[trigger] seed_members(edges, e, k).contains(x) ==> files.contains(x),
    decreases k,
{
    if k <= 0 {
        assert forall|x: Seq<char>| #[trigger] seed_members(edges, e, k).contains(x) implies files.contains(x) by {
            let m = choose|m: int| 0 <= m < 2 && seq![e.0, e.1][m] == x;
        }
    } else {
        lemma_seed_members_within(edges, e, k - 1, files);
        let g = seed_members(edges, e, k - 1);
        let r = edges[k - 1];
        assert(files.contains(r.0) && files.contains(r.1));
        assert forall|x: Seq<char>| #[trigger] seed_members(edges, e, k).contains(x) implies files.contains(x) by {
            lemma_push_new_contains(g, r.0, x);
            lemma_push_new_contains(compatible::push_new(g, r.0), r.1, x);
        }
    }
}

proof fn lemma_push_new_contains<A>(s: Seq<A>, y: A, x: A)
    ensures
        compatible::push_new(s, y).contains(x) <==> s.contains(x) || x == y,
{
    if !s.contains(y) {
        if s.contains(x) {
            let m = choose|m: int| 0 <= m < s.len() && s[m] == x;
            assert(s.push(y)[m] == x);
        }
        assert(s.push(y)[s.len() as int] == y);
        if s.push(y).contains(x) {
            let m = choose|m: int| 0 <= m < s.push(y).len() && s.push(y)[m] == x;
            if m < s.len() {
                assert(s[m] == x);
            }
        }
    }
}

proof fn lemma_insert_stable_contains(s: Seq<Seq<Seq<char>>>, g: Seq<Seq<char>>, x: Seq<Seq<char>>)
    requires
        insert_stable(s, g).contains(x),
    ensures
        s.contains(x) || x == g,
    decreases s.len(),
{
    if s.len() > 0 {
        let m = choose|m: int| 0 <= m < insert_stable(s, g).len() && insert_stable(s, g)[m] == x;
        if compatible::group_key_less(g, s.last()) {
            let inner = insert_stable(s.drop_last(), g);
            if m < inner.len() {
                assert(inner[m] == x);
                lemma_insert_stable_contains(s.drop_last(), g, x);
                if s.drop_last().contains(x) {
                    let q = choose|q: int| 0 <= q < s.drop_last().len() && s.drop_last()[q] == x;
                    assert(s[q] == x);
                }
            } else {
                assert(x == s.last());
                assert(s[s.len() - 1] == x);
            }
        } else {
            if m < s.len() {
                assert(s[m] == x);
            }
        }
    }
}

proof fn lemma_stable_sort_contains(s: Seq<Seq<Seq<char>>>, x: Seq<Seq<char>>)
    requires
        stable_sort(s).contains(x),
    ensures
        s.contains(x),
    decreases s.len(),
{
    if s.len() > 0 {
        lemma_insert_stable_contains(stable_sort(s.drop_last()), s.last(), x);
        if stable_sort(s.drop_last()).contains(x) {
            lemma_stable_sort_contains(s.drop_last(), x);
            let q = choose|q: int| 0 <= q < s.drop_last().len() && s.drop_last()[q] == x;
            assert(s[q] == x);
        } else {
            assert(s[s.len() - 1] == x);
        }
    }
}

proof fn lemma_keep_maximal_contains(s: Seq<Seq<Seq<char>>>, k: int, x: Seq<Seq<char>>)
    requires
        keep_maximal(s, k).contains(x),
        k <= s.len(),
    ensures
        s.contains(x),
    decreases k,
{
    if k > 0 {
        let r = keep_maximal(s, k - 1);
        if compatible::maximal_at(s, k - 1) {
            let t = r.push(s[k - 1]);
            let m = choose|m: int| 0 <= m < t.len() && #[trigger] t[m] == x;
            if m < r.len() {
                assert(r[m] == x);
                lemma_keep_maximal_contains(s, k - 1, x);
            } else {
                assert(s[k - 1] == x);
            }
        } else {
            lemma_keep_maximal_contains(s, k - 1, x);
        }
    }
}

/// The groups of the compatible heuristic hold comparable files only.
proof fn lemma_compatible_groups_within(
    files: Seq<Seq<char>>,
    dist: Seq<Seq<u32>>,
    threshold: u32,
    k: int,
    x: Seq<char>,
)
    requires
        0 <= k < compatible_groups(files, dist, threshold).len(),
        compatible_groups(files, dist, threshold)[k].contains(x),
    ensures
        files.contains(x),
{
    let edges = qualifying_edges(files, dist, threshold);
    lemma_edges_before_within(files, dist, threshold, files.len() as int);
    let seeds = Seq::new(edges.len(), |m: int| seed_group(edges, edges[m]));
    let sorted = stable_sort(raw_groups(edges));
    let g = compatible_groups(files, dist, threshold)[k];
    assert(keep_maximal(sorted, sorted.len() as int).contains(g));
    lemma_keep_maximal_contains(sorted, sorted.len() as int, g);
    lemma_stable_sort_contains(raw_groups(edges), g);
    lemma_dedup_first(seeds);
    assert(seeds.contains(g));
    let m = choose|m: int| 0 <= m < seeds.len() && seeds[m] == g;
    let e = edges[m];
    assert(files.contains(e.0) && files.contains(e.1));
    lemma_seed_members_within(edges, e, edges.len() as int, files);
    let members = seed_members(edges, e, edges.len() as int);
    lemma_path_le_total_ordering();
    members.lemma_sort_by_ensures(|a: Seq<char>, b: Seq<char>| path_le(a, b));
    assert(g == members.sort_by(|a: Seq<char>, b: Seq<char>| path_le(a, b)));
    assert(members.contains(x));
}

/// The groups of the compatible heuristic hold comparable files only.
pub proof fn law_compatible_groups_hold_comparable_files<H: SimilarityHasher>(
    hasher: H,
    results: Seq<TelfhashResult>,
    threshold: u32,
    grouped: Seq<Seq<Seq<char>>>,
    nogroup: Seq<Seq<char>>,
)
    requires
        compatible::grouped_by_measures(hasher, results, threshold, grouped, nogroup),
    ensures
        forall|k: int, x: Seq<char>|
            0 <= k < grouped.len() && #[trigger] grouped[k].contains(x) ==> eligible_files(
                results,
            ).contains(x),
{
    let files = eligible_files(results);
    let d = choose|d: Seq<Seq<u32>>|
        distance_table(d, files.len() as int) && measured_table(hasher, eligible_digests(results), d)
            && #[trigger] compatible::is_compatible_grouping(files, d, threshold, grouped, nogroup);
    if files.len() >= 2 {
        assert forall|k: int, x: Seq<char>|
            0 <= k < grouped.len() && #[trigger] grouped[k].contains(x) implies files.contains(x) by {
            lemma_compatible_groups_within(files, d, threshold, k, x);
        }
    }
}

/// A list of paths in order without repeats is in strict order.
proof fn lemma_strictly_sorted(t: Seq<Seq<char>>)
    requires
        paths_sorted(t),
        t.no_duplicates(),
    ensures
        paths_strictly_sorted(t),
{
    assert forall|i: int, j: int| 0 <= i < j < t.len() implies path_less(#[trigger] t[i], #[trigger] t[j]) by {
        assert(path_le(t[i], t[j]));
        lemma_path_order(t[i], t[j], t[j]);
    }
}

/// A list in strict order is in order.
proof fn lemma_strict_is_sorted(t: Seq<Seq<char>>)
    requires
        paths_strictly_sorted(t),
    ensures
        paths_sorted(t),
{
    assert forall|i: int, j: int| 0 <= i < j < t.len() implies path_le(#[trigger] t[i], #[trigger] t[j]) by {
        lemma_path_order(t[i], t[j], t[j]);
    }
}

/// Two lists without repeats holding the same paths hold them equally often.
proof fn lemma_same_members_same_multiset(a: Seq<Seq<char>>, b: Seq<Seq<char>>)
    requires
        a.no_duplicates(),
        b.no_duplicates(),
        forall|x: Seq<char>| #[trigger] a.contains(x) <==> b.contains(x),
    ensures
        a.to_multiset() == b.to_multiset(),
{
    a.lemma_multiset_has_no_duplicates();
    b.lemma_multiset_has_no_duplicates();
    a.to_multiset_ensures();
    b.to_multiset_ensures();
    assert forall|x: Seq<char>| a.to_multiset().count(x) == b.to_multiset().count(x) by {
        if a.contains(x) {
            assert(a.to_multiset().contains(x));
            assert(b.to_multiset().contains(x));
        }
    }
    assert(a.to_multiset() =~= b.to_multiset());
}

/// Sorting keeps the paths, and a list without repeats sorts into strict
/// order.
proof fn lemma_sorted_paths_members(members: Seq<Seq<char>>)
    ensures
        forall|x: Seq<char>| #[trigger] sorted_paths_of(members).contains(x) <==> members.contains(x),
        sorted_paths_of(members).to_multiset() == members.to_multiset(),
        paths_sorted(sorted_paths_of(members)),
        members.no_duplicates() ==> sorted_paths_of(members).no_duplicates() && paths_strictly_sorted(
            sorted_paths_of(members),
        ),
{
    let leq = |a: Seq<char>, b: Seq<char>| path_le(a, b);
    lemma_path_le_total_ordering();
    members.lemma_sort_by_ensures(leq);
    let t = sorted_paths_of(members);
    members.to_multiset_ensures();
    t.to_multiset_ensures();
    assert forall|x: Seq<char>| #[trigger] t.contains(x) <==> members.contains(x) by {
        assert(t.to_multiset().count(x) == members.to_multiset().count(x));
    }
    assert forall|a: int, b: int| 0 <= a < b < t.len() implies path_le(#[trigger] t[a], #[trigger] t[b]) by {
        assert(leq(t[a], t[b]));
    }
    if members.no_duplicates() {
        members.lemma_multiset_has_no_duplicates();
        assert forall|x: Seq<char>| t.to_multiset().contains(x) implies t.to_multiset().count(x) == 1 by {
            assert(members.to_multiset().count(x) == t.to_multiset().count(x));
        }
        t.lemma_multiset_has_no_duplicates_conv();
        lemma_strictly_sorted(t);
    }
}

/// Each qualifying pair joins two different entries.
proof fn lemma_row_edges_distinct(files: Seq<Seq<char>>, dist: Seq<Seq<u32>>, threshold: u32, i: int, j: int)
    requires
        files.no_duplicates(),
        0 <= i < files.len(),
        j <= files.len(),
    ensures
        forall|k: int|
            0 <= k < row_edges(files, dist, threshold, i, j).len() ==> #[trigger] row_edges(
                files,
                dist,
                threshold,
                i,
                j,
            )[k].0 != row_edges(files, dist, threshold, i, j)[k].1,
    decreases j - i,
{
    if j > i + 1 {
        lemma_row_edges_distinct(files, dist, threshold, i, j - 1);
        let rest = row_edges(files, dist, threshold, i, j - 1);
        if dist[i][j - 1] <= threshold {
            let e = (files[i], files[j - 1]);
            assert forall|k: int| 0 <= k < rest.push(e).len() implies #[trigger] rest.push(e)[k].0 != rest.push(
                e,
            )[k].1 by {
                if k < rest.len() {
                    assert(rest.push(e)[k] == rest[k]);
                }
            }
        }
    }
}

proof fn lemma_edges_before_distinct(files: Seq<Seq<char>>, dist: Seq<Seq<u32>>, threshold: u32, i: int)
    requires
        files.no_duplicates(),
        i <= files.len(),
    ensures
        forall|k: int|
            0 <= k < edges_before(files, dist, threshold, i).len() ==> #[trigger] edges_before(
                files,
                dist,
                threshold,
                i,
            )[k].0 != edges_before(files, dist, threshold, i)[k].1,
    decreases i,
{
    if i > 0 {
        lemma_edges_before_distinct(files, dist, threshold, i - 1);
        lemma_row_edges_distinct(files, dist, threshold, i - 1, files.len() as int);
        let a = edges_before(files, dist, threshold, i - 1);
        let b = row_edges(files, dist, threshold, i - 1, files.len() as int);
        assert forall|k: int| 0 <= k < (a + b).len() implies #[trigger] (a + b)[k].0 != (a + b)[k].1 by {
            if k < a.len() {
                assert((a + b)[k] == a[k]);
            } else {
                assert((a + b)[k] == b[k - a.len()]);
            }
        }
    }
}

/// A pair within the threshold is a qualifying pair.
proof fn lemma_row_edges_has(files: Seq<Seq<char>>, dist: Seq<Seq<u32>>, threshold: u32, i: int, j: int, m: int)
    requires
        0 <= i < m < j <= files.len(),
        dist[i][m] <= threshold,
    ensures
        row_edges(files, dist, threshold, i, j).contains((files[i], files[m])),
    decreases j - i,
{
    let rest = row_edges(files, dist, threshold, i, j - 1);
    if m == j - 1 {
        assert(rest.push((files[i], files[m]))[rest.len() as int] == (files[i], files[m]));
    } else {
        lemma_row_edges_has(files, dist, threshold, i, j - 1, m);
        if dist[i][j - 1] <= threshold {
            let q = choose|q: int| 0 <= q < rest.len() && rest[q] == (files[i], files[m]);
            assert(rest.push((files[i], files[j - 1]))[q] == (files[i], files[m]));
        }
    }
}

proof fn lemma_edges_before_has(files: Seq<Seq<char>>, dist: Seq<Seq<u32>>, threshold: u32, i: int, a: int, m: int)
    requires
        0 <= a < m < files.len(),
        a < i <= files.len(),
        dist[a][m] <= threshold,
    ensures
        edges_before(files, dist, threshold, i).contains((files[a], files[m])),
    decreases i,
{
    let before = edges_before(files, dist, threshold, i - 1);
    let row = row_edges(files, dist, threshold, i - 1, files.len() as int);
    if a == i - 1 {
        lemma_row_edges_has(files, dist, threshold, a, files.len() as int, m);
        let q = choose|q: int| 0 <= q < row.len() && row[q] == (files[a], files[m]);
        assert((before + row)[before.len() + q] == (files[a], files[m]));
    } else {
        lemma_edges_before_has(files, dist, threshold, i - 1, a, m);
        let q = choose|q: int| 0 <= q < before.len() && before[q] == (files[a], files[m]);
        assert((before + row)[q] == (files[a], files[m]));
    }
}

/// The members of a seed hold its own pair, and no path twice when the pair
/// joins two different paths.
proof fn lemma_seed_members_shape(edges: Seq<Edge>, e: Edge, k: int)
    requires
        k <= edges.len(),
    ensures
        seed_members(edges, e, k).contains(e.0),
        seed_members(edges, e, k).contains(e.1),
        e.0 != e.1 ==> seed_members(edges, e, k).no_duplicates(),
    decreases k,
{
    if k <= 0 {
        assert(seq![e.0, e.1][0] == e.0);
        assert(seq![e.0, e.1][1] == e.1);
    } else {
        lemma_seed_members_shape(edges, e, k - 1);
        let g = seed_members(edges, e, k - 1);
        let r = edges[k - 1];
        if compatible::touches(r, e) {
            let g1 = compatible::push_new(g, r.0);
            lemma_push_new_contains(g, r.0, e.0);
            lemma_push_new_contains(g, r.0, e.1);
            lemma_push_new_contains(g1, r.1, e.0);
            lemma_push_new_contains(g1, r.1, e.1);
            if e.0 != e.1 {
                lemma_push_new_no_dup(g, r.0);
                lemma_push_new_no_dup(g1, r.1);
            }
        }
    }
}

proof fn lemma_push_new_no_dup<A>(s: Seq<A>, y: A)
    requires
        s.no_duplicates(),
    ensures
        compatible::push_new(s, y).no_duplicates(),
{
    if !s.contains(y) {
        let t = s.push(y);
        assert forall|a: int, b: int| 0 <= a < t.len() && 0 <= b < t.len() && a != b implies t[a] != t[b] by {
            if a == s.len() as int && b < s.len() {
                assert(s.contains(s[b]));
            } else if b == s.len() as int && a < s.len() {
                assert(s.contains(s[a]));
            }
        }
    }
}

proof fn lemma_insert_stable_multiset(s: Seq<Seq<Seq<char>>>, g: Seq<Seq<char>>)
    ensures
        insert_stable(s, g).to_multiset() == s.to_multiset().insert(g),
    decreases s.len(),
{
    s.to_multiset_ensures();
    if s.len() == 0 {
        assert(seq![g] =~= Seq::<Seq<Seq<char>>>::empty().push(g));
        Seq::<Seq<Seq<char>>>::empty().to_multiset_ensures();
    } else {
        let p = s.drop_last();
        assert(s =~= p.push(s.last()));
        p.to_multiset_ensures();
        if compatible::group_key_less(g, s.last()) {
            lemma_insert_stable_multiset(p, g);
            insert_stable(p, g).to_multiset_ensures();
            assert(insert_stable(s, g).to_multiset() =~= s.to_multiset().insert(g));
        } else {
            assert(insert_stable(s, g).to_multiset() =~= s.to_multiset().insert(g));
        }
    }
}

proof fn lemma_stable_sort_multiset(s: Seq<Seq<Seq<char>>>)
    ensures
        stable_sort(s).to_multiset() == s.to_multiset(),
    decreases s.len(),
{
    if s.len() > 0 {
        let p = s.drop_last();
        lemma_stable_sort_multiset(p);
        lemma_insert_stable_multiset(stable_sort(p), s.last());
        assert(s =~= p.push(s.last()));
        p.to_multiset_ensures();
    }
}

/// A maximal group is kept.
proof fn lemma_keep_maximal_keeps(s: Seq<Seq<Seq<char>>>, k: int, b: int)
    requires
        0 <= b < k <= s.len(),
        compatible::maximal_at(s, b),
    ensures
        keep_maximal(s, k).contains(s[b]),
    decreases k,
{
    let r = keep_maximal(s, k - 1);
    if b == k - 1 {
        assert(r.push(s[b])[r.len() as int] == s[b]);
    } else {
        lemma_keep_maximal_keeps(s, k - 1, b);
        if compatible::maximal_at(s, k - 1) {
            let q = choose|q: int| 0 <= q < r.len() && r[q] == s[b];
            assert(r.push(s[k - 1])[q] == s[b]);
        }
    }
}

/// The sorted groups of the compatible heuristic, under comparable files
/// without repeats: distinct, each in strict order without repeats, each of
/// comparable files.
pub open spec fn well_formed_groups(files: Seq<Seq<char>>, s: Seq<Seq<Seq<char>>>) -> bool {
    &&& s.no_duplicates()
    &&& forall|a: int| 0 <= a < s.len() ==> paths_strictly_sorted(#[trigger] s[a]) && s[a].no_duplicates()
    &&& forall|a: int, x: Seq<char>| 0 <= a < s.len() && #[trigger] s[a].contains(x) ==> files.contains(x)
}

/// A group holding all of `xs` lies inside a maximal group holding all of
/// them.
proof fn lemma_maximal_cover_all(
    files: Seq<Seq<char>>,
    s: Seq<Seq<Seq<char>>>,
    a: int,
    xs: Set<Seq<char>>,
) -> (b: int)
    requires
        files.no_duplicates(),
        well_formed_groups(files, s),
        0 <= a < s.len(),
        forall|x: Seq<char>| #[trigger] xs.contains(x) ==> s[a].contains(x),
    ensures
        0 <= b < s.len(),
        compatible::maximal_at(s, b),
        forall|x: Seq<char>| #[trigger] xs.contains(x) ==> s[b].contains(x),
    decreases files.len() - s[a].len(),
{
    if compatible::maximal_at(s, a) {
        return a;
    }
    let c = choose|c: int| 0 <= c < s.len() && c != a && compatible::covered_by(s[a], #[trigger] s[c]);
    assert forall|x: Seq<char>| #[trigger] xs.contains(x) implies s[c].contains(x) by {
        assert(s[a].contains(x));
    }
    let sa = s[a].to_set();
    let sc = s[c].to_set();
    let fs = files.to_set();
    s[a].unique_seq_to_set();
    s[c].unique_seq_to_set();
    files.unique_seq_to_set();
    assert(sa.subset_of(sc)) by {
        assert forall|y: Seq<char>| sa.contains(y) implies sc.contains(y) by {
            assert(s[a].contains(y));
        }
    }
    assert(sc.subset_of(fs)) by {
        assert forall|y: Seq<char>| sc.contains(y) implies fs.contains(y) by {
            assert(s[c].contains(y));
        }
    }
    vstd::set_lib::lemma_len_subset(sa, sc);
    vstd::set_lib::lemma_len_subset(sc, fs);
    if s[a].len() == s[c].len() {
        vstd::set_lib::lemma_subset_equality(sa, sc);
        assert forall|y: Seq<char>| #[trigger] s[a].contains(y) <==> s[c].contains(y) by {
            assert(sa.contains(y) == s[a].contains(y));
            assert(sc.contains(y) == s[c].contains(y));
        }
        lemma_same_members_same_multiset(s[a], s[c]);
        lemma_strict_is_sorted(s[a]);
        lemma_strict_is_sorted(s[c]);
        lemma_sorted_unique(s[a], s[c]);
        assert(false);
    }
    lemma_maximal_cover_all(files, s, c, xs)
}

/// A group holding `x` lies inside a maximal group holding `x`.
proof fn lemma_maximal_cover(files: Seq<Seq<char>>, s: Seq<Seq<Seq<char>>>, a: int, x: Seq<char>) -> (b: int)
    requires
        files.no_duplicates(),
        well_formed_groups(files, s),
        0 <= a < s.len(),
        s[a].contains(x),
    ensures
        0 <= b < s.len(),
        compatible::maximal_at(s, b),
        s[b].contains(x),
{
    let xs = Set::empty().insert(x);
    assert(xs.contains(x));
    lemma_maximal_cover_all(files, s, a, xs)
}

/// The sorted seeded groups of distinct comparable files are well formed,
/// and they are the seeded groups.
proof fn lemma_sorted_seeds(files: Seq<Seq<char>>, dist: Seq<Seq<u32>>, threshold: u32)
    requires
        files.no_duplicates(),
    ensures
        well_formed_groups(
            files,
            stable_sort(raw_groups(qualifying_edges(files, dist, threshold))),
        ),
        forall|g: Seq<Seq<char>>|
            #[trigger] stable_sort(raw_groups(qualifying_edges(files, dist, threshold))).contains(g)
                <==> Seq::new(
                qualifying_edges(files, dist, threshold).len(),
                |q: int|
                    seed_group(
                        qualifying_edges(files, dist, threshold),
                        qualifying_edges(files, dist, threshold)[q],
                    ),
            ).contains(g),
{
    let edges = qualifying_edges(files, dist, threshold);
    lemma_edges_before_distinct(files, dist, threshold, files.len() as int);
    lemma_edges_before_within(files, dist, threshold, files.len() as int);
    let seeds = Seq::new(edges.len(), |q: int| seed_group(edges, edges[q]));
    let raw = raw_groups(edges);
    let s = stable_sort(raw);
    lemma_dedup_first(seeds);
    lemma_stable_sort_multiset(raw);
    raw.to_multiset_ensures();
    s.to_multiset_ensures();
    assert forall|g: Seq<Seq<char>>| #[trigger] s.contains(g) <==> raw.contains(g) by {
        assert(s.to_multiset().count(g) == raw.to_multiset().count(g));
    }
    raw.lemma_multiset_has_no_duplicates();
    assert forall|g: Seq<Seq<char>>| s.to_multiset().contains(g) implies s.to_multiset().count(g) == 1 by {
        assert(s.to_multiset().count(g) == raw.to_multiset().count(g));
    }
    s.lemma_multiset_has_no_duplicates_conv();
    assert forall|a: int| 0 <= a < s.len() implies paths_strictly_sorted(#[trigger] s[a]) && s[a].no_duplicates() by {
        assert(s.contains(s[a]));
        assert(seeds.contains(s[a]));
        let q = choose|q: int| 0 <= q < seeds.len() && seeds[q] == s[a];
        lemma_seed_members_shape(edges, edges[q], edges.len() as int);
        lemma_sorted_paths_members(seed_members(edges, edges[q], edges.len() as int));
    }
    assert forall|a: int, x: Seq<char>| 0 <= a < s.len() && #[trigger] s[a].contains(x) implies files.contains(x) by {
        assert(s.contains(s[a]));
        assert(seeds.contains(s[a]));
        let q = choose|q: int| 0 <= q < seeds.len() && seeds[q] == s[a];
        lemma_seed_members_within(edges, edges[q], edges.len() as int, files);
        lemma_sorted_paths_members(seed_members(edges, edges[q], edges.len() as int));
    }
}

/// With comparable files that are all different, a comparable file whose
/// distance to a later one lies within the threshold is in some group of
/// the compatible heuristic, and so is the later one.
proof fn lemma_compatible_joins(files: Seq<Seq<char>>, dist: Seq<Seq<u32>>, threshold: u32, i: int, j: int)
    requires
        files.no_duplicates(),
        0 <= i < j < files.len(),
        dist[i][j] <= threshold,
    ensures
        in_some_group(compatible_groups(files, dist, threshold), files[i]),
        in_some_group(compatible_groups(files, dist, threshold), files[j]),
{
    let edges = qualifying_edges(files, dist, threshold);
    lemma_edges_before_has(files, dist, threshold, files.len() as int, i, j);
    lemma_edges_before_distinct(files, dist, threshold, files.len() as int);
    let e = (files[i], files[j]);
    let m = choose|m: int| 0 <= m < edges.len() && edges[m] == e;
    let seeds = Seq::new(edges.len(), |q: int| seed_group(edges, edges[q]));
    let s = stable_sort(raw_groups(edges));
    lemma_sorted_seeds(files, dist, threshold);
    let g = seeds[m];
    lemma_seed_members_shape(edges, e, edges.len() as int);
    lemma_sorted_paths_members(seed_members(edges, e, edges.len() as int));
    assert(g.contains(files[i]) && g.contains(files[j]));
    assert(seeds.contains(g));
    assert(s.contains(g));
    let a = choose|a: int| 0 <= a < s.len() && s[a] == g;
    let bi = lemma_maximal_cover(files, s, a, files[i]);
    let bj = lemma_maximal_cover(files, s, a, files[j]);
    lemma_keep_maximal_keeps(s, s.len() as int, bi);
    lemma_keep_maximal_keeps(s, s.len() as int, bj);
    let out = compatible_groups(files, dist, threshold);
    let ki = choose|k: int| 0 <= k < out.len() && out[k] == s[bi];
    let kj = choose|k: int| 0 <= k < out.len() && out[k] == s[bj];
    assert(out[ki].contains(files[i]));
    assert(out[kj].contains(files[j]));
}

/// When the comparable files are all different, the compatible heuristic
/// puts in some group each of two comparable files when every distance the
/// hasher may measure between their digests lies within the threshold.
pub proof fn law_compatible_groups_close_files<H: SimilarityHasher>(
    hasher: H,
    results: Seq<TelfhashResult>,
    threshold: u32,
    grouped: Seq<Seq<Seq<char>>>,
    nogroup: Seq<Seq<char>>,
    i: int,
    j: int,
)
    requires
        compatible::grouped_by_measures(hasher, results, threshold, grouped, nogroup),
        eligible_files(results).no_duplicates(),
        0 <= i < j < eligible_files(results).len(),
        forall|v: u32|
            #[trigger] hasher.measures(
                eligible_digests(results)[i],
                eligible_digests(results)[j],
                Ok::<u32, TelfhashError>(v),
            ) ==> v <= threshold,
    ensures
        in_some_group(grouped, eligible_files(results)[i]),
        in_some_group(grouped, eligible_files(results)[j]),
{
    let files = eligible_files(results);
    let digests = eligible_digests(results);
    lemma_eligible_lengths(results);
    let d = choose|d: Seq<Seq<u32>>|
        distance_table(d, files.len() as int) && measured_table(hasher, digests, d)
            && #[trigger] compatible::is_compatible_grouping(files, d, threshold, grouped, nogroup);
    assert(hasher.measures(digests[i], digests[j], Ok::<u32, TelfhashError>(d[i][j])));
    lemma_compatible_joins(files, d, threshold, i, j);
}

/// A seed takes in both files of every qualifying pair that shares a file
/// with it, in either position.
proof fn lemma_seed_takes_sharing_pair(edges: Seq<Edge>, e: Edge, k: int, q: int)
    requires
        0 <= q < k <= edges.len(),
        edges[q].0 == e.0 || edges[q].0 == e.1 || edges[q].1 == e.0 || edges[q].1 == e.1,
    ensures
        seed_members(edges, e, k).contains(edges[q].0),
        seed_members(edges, e, k).contains(edges[q].1),
    decreases k,
{
    let g = seed_members(edges, e, k - 1);
    let r = edges[k - 1];
    let g1 = compatible::push_new(g, r.0);
    if q == k - 1 {
        lemma_push_new_contains(g, r.0, r.0);
        lemma_push_new_contains(g1, r.1, r.0);
        lemma_push_new_contains(g1, r.1, r.1);
    } else {
        lemma_seed_takes_sharing_pair(edges, e, k - 1, q);
        lemma_push_new_contains(g, r.0, edges[q].0);
        lemma_push_new_contains(g, r.0, edges[q].1);
        lemma_push_new_contains(g1, r.1, edges[q].0);
        lemma_push_new_contains(g1, r.1, edges[q].1);
    }
}

/// The qualifying pair of entries `a` and `b`, whichever comes first.
proof fn lemma_pair_qualifies(files: Seq<Seq<char>>, dist: Seq<Seq<u32>>, threshold: u32, a: int, b: int) -> (q: int)
    requires
        0 <= a < files.len(),
        0 <= b < files.len(),
        a != b,
        a < b ==> dist[a][b] <= threshold,
        b < a ==> dist[b][a] <= threshold,
    ensures
        0 <= q < qualifying_edges(files, dist, threshold).len(),
        qualifying_edges(files, dist, threshold)[q] == (if a < b {
            (files[a], files[b])
        } else {
            (files[b], files[a])
        }),
{
    let edges = qualifying_edges(files, dist, threshold);
    if a < b {
        lemma_edges_before_has(files, dist, threshold, files.len() as int, a, b);
        choose|q: int| 0 <= q < edges.len() && edges[q] == (files[a], files[b])
    } else {
        lemma_edges_before_has(files, dist, threshold, files.len() as int, b, a);
        choose|q: int| 0 <= q < edges.len() && edges[q] == (files[b], files[a])
    }
}

/// With distinct comparable files, when entries `i` and `j` are both within
/// the threshold of entry `k`, one group of the compatible heuristic holds
/// all three.
proof fn lemma_compatible_joins_through(
    files: Seq<Seq<char>>,
    dist: Seq<Seq<u32>>,
    threshold: u32,
    i: int,
    j: int,
    k: int,
)
    requires
        files.no_duplicates(),
        0 <= i < files.len(),
        0 <= j < files.len(),
        0 <= k < files.len(),
        i != k,
        j != k,
        i < k ==> dist[i][k] <= threshold,
        k < i ==> dist[k][i] <= threshold,
        j < k ==> dist[j][k] <= threshold,
        k < j ==> dist[k][j] <= threshold,
    ensures
        exists|g: int|
            0 <= g < compatible_groups(files, dist, threshold).len() && #[trigger] compatible_groups(
                files,
                dist,
                threshold,
            )[g].contains(files[i]) && compatible_groups(files, dist, threshold)[g].contains(files[j])
                && compatible_groups(files, dist, threshold)[g].contains(files[k]),
{
    let edges = qualifying_edges(files, dist, threshold);
    let qi = lemma_pair_qualifies(files, dist, threshold, i, k);
    let qj = lemma_pair_qualifies(files, dist, threshold, j, k);
    let e = edges[qi];
    lemma_seed_takes_sharing_pair(edges, e, edges.len() as int, qi);
    lemma_seed_takes_sharing_pair(edges, e, edges.len() as int, qj);
    let members = seed_members(edges, e, edges.len() as int);
    lemma_sorted_paths_members(members);
    let seeds = Seq::new(edges.len(), |q: int| seed_group(edges, edges[q]));
    let g = seeds[qi];
    assert(g.contains(files[i]) && g.contains(files[j]) && g.contains(files[k]));
    let s = stable_sort(raw_groups(edges));
    lemma_sorted_seeds(files, dist, threshold);
    assert(seeds.contains(g));
    assert(s.contains(g));
    let a = choose|a: int| 0 <= a < s.len() && s[a] == g;
    let xs = Set::empty().insert(files[i]).insert(files[j]).insert(files[k]);
    assert forall|x: Seq<char>| #[trigger] xs.contains(x) implies s[a].contains(x) by {}
    let b = lemma_maximal_cover_all(files, s, a, xs);
    assert(xs.contains(files[i]) && xs.contains(files[j]) && xs.contains(files[k]));
    lemma_keep_maximal_keeps(s, s.len() as int, b);
    let out = compatible_groups(files, dist, threshold);
    let m = choose|m: int| 0 <= m < out.len() && out[m] == s[b];
    assert(out[m].contains(files[i]));
}

/// Two comparable entries are close: every distance the hasher may measure
/// between their digests, in entry order, lies within the threshold.
pub open spec fn close_entries<H: SimilarityHasher>(
    hasher: H,
    results: Seq<TelfhashResult>,
    threshold: u32,
    a: int,
    b: int,
) -> bool {
    let d = eligible_digests(results);
    &&& a < b ==> forall|v: u32|
        #[trigger] hasher.measures(d[a], d[b], Ok::<u32, TelfhashError>(v)) ==> v <= threshold
    &&& b < a ==> forall|v: u32|
        #[trigger] hasher.measures(d[b], d[a], Ok::<u32, TelfhashError>(v)) ==> v <= threshold
}

/// When the comparable files are all different, and two of them are each
/// within the threshold of a third, one group of the compatible heuristic
/// holds all three: the group seeded by the first with the third takes in
/// the pair of the second with the third, since it shares the third file,
/// wherever that file stands in the pair.
pub proof fn law_compatible_group_joins_through_shared_file<H: SimilarityHasher>(
    hasher: H,
    results: Seq<TelfhashResult>,
    threshold: u32,
    grouped: Seq<Seq<Seq<char>>>,
    nogroup: Seq<Seq<char>>,
    i: int,
    j: int,
    k: int,
)
    requires
        compatible::grouped_by_measures(hasher, results, threshold, grouped, nogroup),
        eligible_files(results).no_duplicates(),
        0 <= i < eligible_files(results).len(),
        0 <= j < eligible_files(results).len(),
        0 <= k < eligible_files(results).len(),
        i != k,
        j != k,
        close_entries(hasher, results, threshold, i, k),
        close_entries(hasher, results, threshold, j, k),
    ensures
        exists|g: int|
            0 <= g < grouped.len() && #[trigger] grouped[g].contains(eligible_files(results)[i])
                && grouped[g].contains(eligible_files(results)[j]) && grouped[g].contains(
                eligible_files(results)[k],
            ),
{
    let files = eligible_files(results);
    let digests = eligible_digests(results);
    lemma_eligible_lengths(results);
    let d = choose|d: Seq<Seq<u32>>|
        distance_table(d, files.len() as int) && measured_table(hasher, digests, d)
            && #[trigger] compatible::is_compatible_grouping(files, d, threshold, grouped, nogroup);
    if i < k {
        assert(hasher.measures(digests[i], digests[k], Ok::<u32, TelfhashError>(d[i][k])));
    } else {
        assert(hasher.measures(digests[k], digests[i], Ok::<u32, TelfhashError>(d[k][i])));
    }
    if j < k {
        assert(hasher.measures(digests[j], digests[k], Ok::<u32, TelfhashError>(d[j][k])));
    } else {
        assert(hasher.measures(digests[k], digests[j], Ok::<u32, TelfhashError>(d[k][j])));
    }
    lemma_compatible_joins_through(files, d, threshold, i, j, k);
}

/// The comparable files are the files of the results with a full digest.
pub proof fn lemma_eligible_files_contains(results: Seq<TelfhashResult>, x: Seq<char>)
    ensures
        eligible_files(results).contains(x) <==> exists|i: int|
            0 <= i < results.len() && result_groupable(#[trigger] results[i]) && results[i].file@ == x,
    decreases results.len(),
{
    if results.len() > 0 {
        let p = results.drop_last();
        lemma_eligible_files_contains(p, x);
        let prev = eligible_files(p);
        if exists|i: int| 0 <= i < p.len() && result_groupable(#[trigger] p[i]) && p[i].file@ == x {
            let i = choose|i: int| 0 <= i < p.len() && result_groupable(#[trigger] p[i]) && p[i].file@ == x;
            assert(results[i] == p[i]);
        }
        if exists|i: int| 0 <= i < results.len() && result_groupable(#[trigger] results[i]) && results[i].file@ == x {
            let i = choose|i: int|
                0 <= i < results.len() && result_groupable(#[trigger] results[i]) && results[i].file@ == x;
            if i < p.len() {
                assert(p[i] == results[i]);
            }
        }
        if result_groupable(results.last()) {
            let last = results.last().file@;
            if prev.contains(x) {
                let m = choose|m: int| 0 <= m < prev.len() && prev[m] == x;
                assert(prev.push(last)[m] == x);
            }
            assert(prev.push(last)[prev.len() as int] == last);
            assert(results[results.len() - 1] == results.last());
        } else {
            assert(results[results.len() - 1] == results.last());
        }
    }
}

/// Every file a grouping lists, in either mode, is the file of a result
/// with a full digest: results with a null digest, no symbols, a failure or
/// a short digest take no part.
pub proof fn law_grouping_lists_only_full_digests<H: SimilarityHasher>(
    hasher: H,
    results: Seq<TelfhashResult>,
    threshold: u32,
    grouped: Seq<Seq<Seq<char>>>,
    nogroup: Seq<Seq<char>>,
    x: Seq<char>,
)
    requires
        connected::grouped_by_measures(hasher, results, threshold, grouped, nogroup)
            || compatible::grouped_by_measures(hasher, results, threshold, grouped, nogroup),
        nogroup.contains(x) || exists|k: int| 0 <= k < grouped.len() && #[trigger] grouped[k].contains(x),
    ensures
        exists|i: int|
            0 <= i < results.len() && result_groupable(#[trigger] results[i]) && results[i].file@ == x,
{
    if connected::grouped_by_measures(hasher, results, threshold, grouped, nogroup) {
        law_components_partition(hasher, results, threshold, grouped, nogroup);
    } else {
        law_compatible_lists_every_file(hasher, results, threshold, grouped, nogroup);
        law_compatible_groups_hold_comparable_files(hasher, results, threshold, grouped, nogroup);
    }
    if !nogroup.contains(x) {
        let k = choose|k: int| 0 <= k < grouped.len() && #[trigger] grouped[k].contains(x);
        assert(grouped[k].contains(x));
    }
    assert(eligible_files(results).contains(x));
    lemma_eligible_files_contains(results, x);
}

} // verus!

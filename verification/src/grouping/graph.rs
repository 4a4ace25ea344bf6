//! Undirected graphs over node indices `0..m`, given by a boolean adjacency
//! matrix, and the component of a node.
use vstd::prelude::*;

verus! {

/// An `m` by `m` adjacency matrix.
pub open spec fn square(g: Seq<Seq<bool>>) -> bool {
    forall|p: int| 0 <= p < g.len() ==> #[trigger] g[p].len() == g.len()
}

/// Edges go both ways.
pub open spec fn symmetric(g: Seq<Seq<bool>>) -> bool {
    forall|p: int, q: int| 0 <= p < g.len() && 0 <= q < g.len() ==> #[trigger] g[p][q] == g[q][p]
}

/// No edge leaves node `p`.
pub open spec fn lonely(g: Seq<Seq<bool>>, p: int) -> bool {
    forall|q: int| 0 <= q < g.len() ==> !#[trigger] g[p][q]
}

/// A set of nodes that no edge leaves.
pub open spec fn index_closed(g: Seq<Seq<bool>>, s: Set<int>) -> bool {
    forall|x: int, y: int|
        #![trigger s.contains(x), g[x][y]]
        0 <= x < g.len() && 0 <= y < g.len() && s.contains(x) && g[x][y] ==> s.contains(y)
}

/// `b` lies in every edge-closed set that holds `a`: `b` is in the component of `a`.
pub open spec fn index_connected(g: Seq<Seq<bool>>, a: int, b: int) -> bool {
    forall|s: Set<int>| #[trigger] index_closed(g, s) && s.contains(a) ==> s.contains(b)
}

/// Number of `true` entries.
pub open spec fn count_true(s: Seq<bool>) -> nat
    decreases s.len(),
{
    if s.len() == 0 {
        0
    } else {
        count_true(s.drop_last()) + if s.last() { 1nat } else { 0nat }
    }
}

pub proof fn lemma_count_true_bound(s: Seq<bool>)
    ensures
        count_true(s) <= s.len(),
    decreases s.len(),
{
    if s.len() > 0 {
        lemma_count_true_bound(s.drop_last());
    }
}

pub proof fn lemma_count_true_set(s: Seq<bool>, i: int)
    requires
        0 <= i < s.len(),
        !s[i],
    ensures
        count_true(s.update(i, true)) == count_true(s) + 1,
    decreases s.len(),
{
    let t = s.update(i, true);
    if i == s.len() - 1 {
        assert(t.drop_last() =~= s.drop_last());
    } else {
        lemma_count_true_set(s.drop_last(), i);
        assert(t.drop_last() =~= s.drop_last().update(i, true));
    }
}

pub proof fn lemma_count_true_all_false(n: nat)
    ensures
        count_true(Seq::new(n, |k: int| false)) == 0,
    decreases n,
{
    if n > 0 {
        lemma_count_true_all_false((n - 1) as nat);
        assert(Seq::new(n, |k: int| false).drop_last() =~= Seq::new((n - 1) as nat, |k: int| false));
    }
}

pub proof fn lemma_connected_refl(g: Seq<Seq<bool>>, a: int)
    ensures
        index_connected(g, a, a),
{
}

pub proof fn lemma_connected_step(g: Seq<Seq<bool>>, a: int, x: int, y: int)
    requires
        index_connected(g, a, x),
        0 <= x < g.len(),
        0 <= y < g.len(),
        g[x][y],
    ensures
        index_connected(g, a, y),
{
    assert forall|s: Set<int>| #[trigger] index_closed(g, s) && s.contains(a) implies s.contains(y) by {
        assert(s.contains(x));
    }
}

pub proof fn lemma_connected_trans(g: Seq<Seq<bool>>, a: int, b: int, c: int)
    requires
        index_connected(g, a, b),
        index_connected(g, b, c),
    ensures
        index_connected(g, a, c),
{
    assert forall|s: Set<int>| #[trigger] index_closed(g, s) && s.contains(a) implies s.contains(c) by {
        assert(s.contains(b));
    }
}

pub proof fn lemma_connected_symm(g: Seq<Seq<bool>>, a: int, b: int)
    requires
        square(g),
        symmetric(g),
        0 <= a < g.len(),
        index_connected(g, a, b),
    ensures
        index_connected(g, b, a),
{
    assert forall|s: Set<int>| #[trigger] index_closed(g, s) && s.contains(b) implies s.contains(a) by {
        if !s.contains(a) {
            let c = Set::new(|x: int| !s.contains(x));
            assert forall|x: int, y: int|
                #![trigger c.contains(x), g[x][y]]
                0 <= x < g.len() && 0 <= y < g.len() && c.contains(x) && g[x][y] implies c.contains(
                y,
            ) by {
                if s.contains(y) {
                    assert(g[y][x]);
                }
            }
            assert(index_closed(g, c));
            assert(c.contains(b));
        }
    }
}

/// A lonely node is connected only to itself.
pub proof fn lemma_lonely_component(g: Seq<Seq<bool>>, p: int, q: int)
    requires
        0 <= p < g.len(),
        lonely(g, p),
        index_connected(g, p, q),
    ensures
        q == p,
{
    let s = Set::new(|x: int| x == p);
    assert forall|x: int, y: int|
        #![trigger s.contains(x), g[x][y]]
        0 <= x < g.len() && 0 <= y < g.len() && s.contains(x) && g[x][y] implies s.contains(y) by {
        assert(!g[p][y]);
    }
    assert(index_closed(g, s));
}

/// The nodes of the component of `start`.
pub fn component_of(g: &Vec<Vec<bool>>, start: usize) -> (member: Vec<bool>)
    requires
        square(g.deep_view()),
        start < g@.len(),
    ensures
        member@.len() == g@.len(),
        forall|q: int| 0 <= q < g@.len() ==> (member@[q] <==> index_connected(g.deep_view(), start as int, q)),
{
    let ghost gv = g.deep_view();
    let m = g.len();
    let mut member: Vec<bool> = Vec::new();
    let mut k: usize = 0;
    while k < m
        invariant
            k <= m,
            m == g@.len(),
            member@ =~= Seq::new(k as nat, |i: int| false),
        decreases m - k,
    {
        member.push(false);
        k = k + 1;
    }
    proof {
        lemma_count_true_all_false(m as nat);
        lemma_count_true_set(member@, start as int);
        lemma_connected_refl(gv, start as int);
    }
    member.set(start, true);
    let mut queue: Vec<usize> = Vec::new();
    queue.push(start);
    let mut head: usize = 0;
    proof {
        assert forall|q: int| 0 <= q < m implies (member@[q] <==> #[trigger] queue@.contains(
            q as usize,
        )) by {
            if q == start as int {
                assert(queue@[0] == start);
            }
        }
    }
    while head < queue.len()
        invariant
            gv == g.deep_view(),
            square(gv),
            m == gv.len(),
            start < m,
            member@.len() == m,
            head <= queue@.len(),
            queue@.len() == count_true(member@),
            forall|i: int| 0 <= i < queue@.len() ==> #[trigger] queue@[i] < m,
            forall|q: int| 0 <= q < m ==> (member@[q] <==> #[trigger] queue@.contains(q as usize)),
            forall|q: int| 0 <= q < m && member@[q] ==> index_connected(gv, start as int, q),
            member@[start as int],
            forall|i: int, y: int|
                0 <= i < head && 0 <= y < m && #[trigger] gv[queue@[i] as int][y] ==> member@[y],
        decreases 2 * m - queue@.len() - head,
    {
        proof {
            lemma_count_true_bound(member@);
        }
        let x = queue[head];
        let ghost old_head = head;
        let ghost old_len = queue@.len();
        head = head + 1;
        let row = &g[x];
        assert(row@ == gv[x as int]);
        for y in 0..m
            invariant
                gv == g.deep_view(),
                square(gv),
                m == gv.len(),
                row@ == gv[x as int],
                x < m,
                start < m,
                member@.len() == m,
                head <= queue@.len(),
                head == old_head + 1,
                queue@.len() >= old_len,
                queue@[old_head as int] == x,
                queue@.len() == count_true(member@),
                forall|i: int| 0 <= i < queue@.len() ==> #[trigger] queue@[i] < m,
                forall|q: int| 0 <= q < m ==> (member@[q] <==> #[trigger] queue@.contains(q as usize)),
                forall|q: int| 0 <= q < m && member@[q] ==> index_connected(gv, start as int, q),
                member@[start as int],
                forall|i: int, z: int|
                    0 <= i < old_head && 0 <= z < m && #[trigger] gv[queue@[i] as int][z] ==> member@[z],
                forall|z: int| 0 <= z < y && gv[x as int][z] ==> member@[z],
        {
            if row[y] && !member[y] {
                proof {
                    assert(queue@.contains(x));
                    assert(queue@.contains((x as int) as usize));
                    assert(member@[x as int]);
                    lemma_connected_step(gv, start as int, x as int, y as int);
                    lemma_count_true_set(member@, y as int);
                }
                member.set(y, true);
                let ghost old_queue = queue@;
                queue.push(y);
                proof {
                    assert forall|q: int| 0 <= q < m implies (member@[q] <==> #[trigger] queue@.contains(
                        q as usize,
                    )) by {
                        if q == y as int {
                            assert(queue@[old_queue.len() as int] == y);
                        } else if old_queue.contains(q as usize) {
                            let j = choose|j: int| 0 <= j < old_queue.len() && old_queue[j] == q as usize;
                            assert(queue@[j] == q as usize);
                        } else if queue@.contains(q as usize) {
                            let j = choose|j: int| 0 <= j < queue@.len() && queue@[j] == q as usize;
                            if j < old_queue.len() {
                                assert(old_queue[j] == q as usize);
                            }
                        }
                    }
                }
            }
        }
        proof {
            lemma_count_true_bound(member@);
            assert forall|i: int, z: int|
                0 <= i < head && 0 <= z < m && #[trigger] gv[queue@[i] as int][z] implies member@[z] by {
                if i == old_head {
                    assert(queue@[i] == x);
                }
            }
        }
    }
    proof {
        assert forall|q: int| 0 <= q < m && index_connected(gv, start as int, q) implies member@[q] by {
            let s = Set::new(|z: int| 0 <= z < m && member@[z]);
            assert forall|a: int, b: int|
                #![trigger s.contains(a), gv[a][b]]
                0 <= a < m && 0 <= b < m && s.contains(a) && gv[a][b] implies s.contains(b) by {
                assert(queue@.contains(a as usize));
                let i = choose|i: int| 0 <= i < queue@.len() && queue@[i] == a as usize;
                assert(gv[queue@[i] as int][b]);
            }
            assert(index_closed(gv, s));
            assert(s.contains(start as int));
        }
    }
    member
}

} // verus!

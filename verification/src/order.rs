//! The order in which file paths are listed: byte-wise lexicographic order of
//! their UTF-8 encodings, the order of `str` in Rust.
use vstd::prelude::*;
use vstd::utf8::encode_utf8;
use std::cmp::Ordering;

verus! {

/// Lexicographic "strictly before" on byte strings: the first differing byte
/// decides, and a proper prefix comes before its extensions.
pub open spec fn lex_less(a: Seq<u8>, b: Seq<u8>) -> bool
    decreases a.len(),
{
    if b.len() == 0 {
        false
    } else if a.len() == 0 {
        true
    } else if a[0] != b[0] {
        a[0] < b[0]
    } else {
        lex_less(a.drop_first(), b.drop_first())
    }
}

/// The UTF-8 bytes of a path, the key by which paths are compared.
pub open spec fn path_key(p: Seq<char>) -> Seq<u8> {
    encode_utf8(p)
}

/// `a` is listed strictly before `b`.
pub open spec fn path_less(a: Seq<char>, b: Seq<char>) -> bool {
    lex_less(path_key(a), path_key(b))
}

/// `a` is listed before `b` or equals it.
pub open spec fn path_le(a: Seq<char>, b: Seq<char>) -> bool {
    !path_less(b, a)
}

/// A list of paths in non-decreasing order.
pub open spec fn paths_sorted(s: Seq<Seq<char>>) -> bool {
    forall|i: int, j: int| 0 <= i < j < s.len() ==> path_le(#[trigger] s[i], #[trigger] s[j])
}

/// A list of paths in strictly increasing order (sorted, no path twice).
pub open spec fn paths_strictly_sorted(s: Seq<Seq<char>>) -> bool {
    forall|i: int, j: int| 0 <= i < j < s.len() ==> path_less(#[trigger] s[i], #[trigger] s[j])
}

pub proof fn lemma_lex_irreflexive(a: Seq<u8>)
    ensures
        !lex_less(a, a),
    decreases a.len(),
{
    if a.len() > 0 {
        lemma_lex_irreflexive(a.drop_first());
    }
}

pub proof fn lemma_lex_transitive(a: Seq<u8>, b: Seq<u8>, c: Seq<u8>)
    requires
        lex_less(a, b),
        lex_less(b, c),
    ensures
        lex_less(a, c),
    decreases a.len(),
{
    if a.len() > 0 && b.len() > 0 && c.len() > 0 && a[0] == b[0] && b[0] == c[0] {
        lemma_lex_transitive(a.drop_first(), b.drop_first(), c.drop_first());
    }
}

pub proof fn lemma_lex_total(a: Seq<u8>, b: Seq<u8>)
    ensures
        a =~= b || lex_less(a, b) || lex_less(b, a),
    decreases a.len(),
{
    if a.len() > 0 && b.len() > 0 && a[0] == b[0] {
        lemma_lex_total(a.drop_first(), b.drop_first());
        if a.drop_first() =~= b.drop_first() {
            assert(a =~= seq![a[0]] + a.drop_first());
            assert(b =~= seq![b[0]] + b.drop_first());
        }
    }
}

pub proof fn lemma_lex_asymmetric(a: Seq<u8>, b: Seq<u8>)
    requires
        lex_less(a, b),
    ensures
        !lex_less(b, a),
{
    if lex_less(b, a) {
        lemma_lex_transitive(a, b, a);
        lemma_lex_irreflexive(a);
    }
}

/// Distinct paths have distinct keys.
pub proof fn lemma_path_key_injective(a: Seq<char>, b: Seq<char>)
    requires
        path_key(a) == path_key(b),
    ensures
        a == b,
{
    vstd::utf8::encode_utf8_decode_utf8(a);
    vstd::utf8::encode_utf8_decode_utf8(b);
}

/// The path order is a strict total order.
pub proof fn lemma_path_order(a: Seq<char>, b: Seq<char>, c: Seq<char>)
    ensures
        !path_less(a, a),
        path_less(a, b) ==> !path_less(b, a),
        path_less(a, b) && path_less(b, c) ==> path_less(a, c),
        a == b || path_less(a, b) || path_less(b, a),
{
    lemma_lex_irreflexive(path_key(a));
    if path_less(a, b) {
        lemma_lex_asymmetric(path_key(a), path_key(b));
    }
    if path_less(a, b) && path_less(b, c) {
        lemma_lex_transitive(path_key(a), path_key(b), path_key(c));
    }
    lemma_lex_total(path_key(a), path_key(b));
    if path_key(a) =~= path_key(b) {
        lemma_path_key_injective(a, b);
    }
}

/// Byte-wise lexicographic comparison of two byte strings.
fn bytes_less(a: &[u8], b: &[u8]) -> (r: bool)
    ensures
        r == lex_less(a@, b@),
{
    let mut i: usize = 0;
    proof {
        assert(a@.skip(0) =~= a@);
        assert(b@.skip(0) =~= b@);
    }
    while i < a.len() && i < b.len()
        invariant
            0 <= i <= a@.len(),
            i <= b@.len(),
            lex_less(a@, b@) == lex_less(a@.skip(i as int), b@.skip(i as int)),
        decreases a@.len() - i,
    {
        if a[i] != b[i] {
            return a[i] < b[i];
        }
        proof {
            assert(a@.skip(i as int).drop_first() =~= a@.skip(i + 1));
            assert(b@.skip(i as int).drop_first() =~= b@.skip(i + 1));
        }
        i = i + 1;
    }
    i < b.len()
}

/// `left` is listed strictly before `right`.
pub fn path_lt(left: &str, right: &str) -> (r: bool)
    ensures
        r == path_less(left@, right@),
{
    bytes_less(left.as_bytes(), right.as_bytes())
}

/// Two strings spell the same text.
pub fn same_text(left: &str, right: &str) -> (r: bool)
    ensures
        r == (left@ == right@),
{
    let a = path_lt(left, right);
    let b = path_lt(right, left);
    proof {
        lemma_path_order(left@, right@, right@);
    }
    !a && !b
}

/// Compares two paths by their text, as `str` orders it.
pub fn cmp_paths(left: &str, right: &str) -> (r: Ordering)
    ensures
        (r == Ordering::Less) == path_less(left@, right@),
        (r == Ordering::Greater) == path_less(right@, left@),
        (r == Ordering::Equal) == (left@ == right@),
{
    proof {
        lemma_path_order(left@, right@, right@);
    }
    if path_lt(left, right) {
        Ordering::Less
    } else if path_lt(right, left) {
        Ordering::Greater
    } else {
        Ordering::Equal
    }
}

/// Sorts paths into ascending order.
pub fn sort_paths(paths: &mut Vec<String>)
    ensures
        final(paths)@.len() == old(paths)@.len(),
        final(paths).deep_view().to_multiset() == old(paths).deep_view().to_multiset(),
        paths_sorted(final(paths).deep_view()),
{
    let ghost given = paths.deep_view();
    let mut sorted: Vec<String> = Vec::new();
    let mut rest: Vec<String> = Vec::new();
    std::mem::swap(&mut rest, paths);
    let n = rest.len();
    let mut i: usize = 0;
    proof {
        assert(given.subrange(0, 0) =~= sorted.deep_view());
    }
    while i < n
        invariant
            n == rest@.len(),
            rest.deep_view() == given,
            0 <= i <= n,
            sorted@.len() == i,
            sorted.deep_view().to_multiset() == given.subrange(0, i as int).to_multiset(),
            paths_sorted(sorted.deep_view()),
        decreases n - i,
    {
        let item = rest[i].clone();
        let mut pos: usize = 0;
        while pos < sorted.len() && !path_lt(item.as_str(), sorted[pos].as_str())
            invariant
                0 <= pos <= sorted@.len(),
                forall|k: int| 0 <= k < pos ==> path_le(#[trigger] sorted.deep_view()[k], item@),
            decreases sorted@.len() - pos,
        {
            pos = pos + 1;
        }
        let ghost before = sorted.deep_view();
        sorted.insert(pos, item);
        proof {
            let after = sorted.deep_view();
            assert(after =~= before.insert(pos as int, item@));
            assert forall|a: int, b: int| 0 <= a < b < after.len() implies path_le(
                #[trigger] after[a],
                #[trigger] after[b],
            ) by {
                if pos < before.len() {
                    lemma_path_order(item@, before[pos as int], before[pos as int]);
                }
                if a < pos as int && b == pos as int {
                } else if a == pos as int && b > pos as int {
                    lemma_path_order(before[pos as int], before[b - 1], item@);
                    lemma_path_order(item@, before[pos as int], before[b - 1]);
                    if b - 1 > pos as int {
                        assert(path_le(before[pos as int], before[b - 1]));
                    }
                    lemma_path_order(before[b - 1], item@, before[pos as int]);
                } else if a < pos as int && b > pos as int {
                } else if a > pos as int {
                }
            }
            lemma_insert_multiset(before, pos as int, item@);
            assert(given.subrange(0, i + 1) =~= given.subrange(0, i as int).push(
                given[i as int],
            ));
            given.subrange(0, i as int).to_multiset_ensures();
        }
        i = i + 1;
    }
    proof {
        assert(given.subrange(0, n as int) =~= given);
    }
    *paths = sorted;
}

/// Inserting an element adds it to the multiset of elements.
pub proof fn lemma_insert_multiset<A>(s: Seq<A>, pos: int, x: A)
    requires
        0 <= pos <= s.len(),
    ensures
        s.insert(pos, x).to_multiset() == s.to_multiset().insert(x),
{
    let t = s.insert(pos, x);
    s.insert_ensures(pos, x);
    assert(t.remove(pos) =~= s);
    t.to_multiset_ensures();
    assert(t.remove(pos).to_multiset() =~= t.to_multiset().remove(x));
    assert(t.to_multiset().count(x) > 0) by {
        assert(t.contains(x) == (t.to_multiset().count(x) > 0));
        assert(t[pos] == x);
    }
    assert(t.to_multiset() =~= t.to_multiset().remove(x).insert(x));
}

/// The paths of `s` in ascending order.
pub open spec fn sorted_paths_of(s: Seq<Seq<char>>) -> Seq<Seq<char>> {
    s.sort_by(|a: Seq<char>, b: Seq<char>| path_le(a, b))
}

pub proof fn lemma_path_le_total_ordering()
    ensures
        vstd::relations::total_ordering(|a: Seq<char>, b: Seq<char>| path_le(a, b)),
{
    let leq = |a: Seq<char>, b: Seq<char>| path_le(a, b);
    assert forall|x: Seq<char>| #[trigger] leq(x, x) by {
        lemma_path_order(x, x, x);
    }
    assert forall|x: Seq<char>, y: Seq<char>| #[trigger] leq(x, y) && #[trigger] leq(y, x) implies x == y by {
        lemma_path_order(x, y, y);
    }
    assert forall|x: Seq<char>, y: Seq<char>, z: Seq<char>|
        #[trigger] leq(x, y) && #[trigger] leq(y, z) implies leq(x, z) by {
        lemma_path_order(x, y, z);
        lemma_path_order(z, y, x);
        lemma_path_order(z, x, y);
        lemma_path_order(y, z, x);
        lemma_path_order(x, z, y);
        lemma_path_order(y, x, z);
    }
    assert forall|x: Seq<char>, y: Seq<char>| #[trigger] leq(x, y) || #[trigger] leq(y, x) by {
        lemma_path_order(x, y, y);
    }
}

/// Two sorted lists of the same paths are the same list.
pub proof fn lemma_sorted_unique(a: Seq<Seq<char>>, b: Seq<Seq<char>>)
    requires
        paths_sorted(a),
        paths_sorted(b),
        a.to_multiset() == b.to_multiset(),
    ensures
        a == b,
    decreases a.len(),
{
    a.to_multiset_ensures();
    b.to_multiset_ensures();
    if a.len() == 0 {
        assert(a =~= b);
    } else {
        assert(a.contains(a[0]));
        assert(a.to_multiset().count(a[0]) > 0);
        assert(b.to_multiset().count(a[0]) > 0);
        assert(b.contains(a[0]));
        assert(b.contains(b[0]));
        assert(b.to_multiset().count(b[0]) > 0);
        assert(a.to_multiset().count(b[0]) > 0);
        assert(a.contains(b[0]));
        let j = choose|j: int| 0 <= j < b.len() && b[j] == a[0];
        let i = choose|i: int| 0 <= i < a.len() && a[i] == b[0];
        if j > 0 {
            assert(path_le(b[0], b[j]));
        }
        if i > 0 {
            assert(path_le(a[0], a[i]));
        }
        lemma_path_order(a[0], b[0], b[0]);
        assert(a[0] == b[0]);
        assert(a.remove(0) =~= a.drop_first());
        assert(b.remove(0) =~= b.drop_first());
        assert(a.drop_first().to_multiset() == b.drop_first().to_multiset());
        assert forall|x: int, y: int| 0 <= x < y < a.drop_first().len() implies path_le(
            #[trigger] a.drop_first()[x],
            #[trigger] a.drop_first()[y],
        ) by {
            assert(path_le(a[x + 1], a[y + 1]));
        }
        assert forall|x: int, y: int| 0 <= x < y < b.drop_first().len() implies path_le(
            #[trigger] b.drop_first()[x],
            #[trigger] b.drop_first()[y],
        ) by {
            assert(path_le(b[x + 1], b[y + 1]));
        }
        lemma_sorted_unique(a.drop_first(), b.drop_first());
        assert(a.len() == b.len());
        assert forall|i: int| 0 <= i < a.len() implies a[i] == b[i] by {
            if i > 0 {
                assert(a[i] == a.drop_first()[i - 1]);
                assert(b[i] == b.drop_first()[i - 1]);
            }
        }
        assert(a =~= b);
    }
}

/// A sorted list with the paths of `s` is `sorted_paths_of(s)`.
pub proof fn lemma_is_sorted_paths_of(s: Seq<Seq<char>>, t: Seq<Seq<char>>)
    requires
        paths_sorted(t),
        t.to_multiset() == s.to_multiset(),
    ensures
        t == sorted_paths_of(s),
{
    let leq = |a: Seq<char>, b: Seq<char>| path_le(a, b);
    lemma_path_le_total_ordering();
    s.lemma_sort_by_ensures(leq);
    let u = sorted_paths_of(s);
    assert forall|x: int, y: int| 0 <= x < y < u.len() implies path_le(#[trigger] u[x], #[trigger] u[y]) by {
        assert(leq(u[x], u[y]));
    }
    lemma_sorted_unique(t, u);
}

/// Sorting paths that are in order already changes nothing; so sorting
/// twice sorts as once.
pub proof fn law_sorting_sorted_paths_keeps_them(s: Seq<Seq<char>>)
    requires
        paths_sorted(s),
    ensures
        sorted_paths_of(s) == s,
{
    lemma_is_sorted_paths_of(s, s);
}

} // verus!

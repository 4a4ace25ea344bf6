//! What both grouping policies share: the comparable results and the
//! distances between their digests.
use vstd::prelude::*;
use crate::error::TelfhashError;
use crate::model::{outcome_digest_text, result_groupable, TelfhashResult};
use crate::ports::SimilarityHasher;
use crate::grouping::connected::distance_table;

verus! {

/// The files of the results that take part in grouping, in order.
pub open spec fn eligible_files(results: Seq<TelfhashResult>) -> Seq<Seq<char>>
    decreases results.len(),
{
    if results.len() == 0 {
        Seq::empty()
    } else {
        let r = eligible_files(results.drop_last());
        if result_groupable(results.last()) {
            r.push(results.last().file@)
        } else {
            r
        }
    }
}

/// The digests of the results that take part in grouping, in order.
pub open spec fn eligible_digests(results: Seq<TelfhashResult>) -> Seq<Seq<char>>
    decreases results.len(),
{
    if results.len() == 0 {
        Seq::empty()
    } else {
        let r = eligible_digests(results.drop_last());
        if result_groupable(results.last()) {
            r.push(outcome_digest_text(results.last().outcome).unwrap())
        } else {
            r
        }
    }
}

/// The files and digests of the comparable results, in order.
pub fn eligible_results(results: &[TelfhashResult]) -> (r: (Vec<String>, Vec<String>))
    ensures
        r.0.deep_view() == eligible_files(results@),
        r.1.deep_view() == eligible_digests(results@),
        r.0@.len() == r.1@.len(),
{
    let mut files: Vec<String> = Vec::new();
    let mut digests: Vec<String> = Vec::new();
    for i in 0..results.len()
        invariant
            files.deep_view() == eligible_files(results@.take(i as int)),
            digests.deep_view() == eligible_digests(results@.take(i as int)),
            files@.len() == digests@.len(),
    {
        let result = &results[i];
        proof {
            assert(results@.take(i + 1).drop_last() =~= results@.take(i as int));
            assert(results@.take(i + 1).last() == *result);
        }
        let ghost before_files = files.deep_view();
        let ghost before_digests = digests.deep_view();
        if result.is_groupable() {
            match result.digest_str() {
                Some(d) => {
                    files.push(result.file.clone());
                    digests.push(String::from_str(d));
                    proof {
                        assert(files.deep_view() =~= before_files.push(result.file@));
                        assert(digests.deep_view() =~= before_digests.push(d@));
                    }
                },
                None => {},
            }
        } else {

        }
    }
    proof {
        assert(results@.take(results@.len() as int) =~= results@);
    }
    (files, digests)
}

/// Each entry `[i][j]` with `i < j` is a distance the hasher may measure
/// between digests `i` and `j`.
pub open spec fn measured_table<H: SimilarityHasher>(hasher: H, digests: Seq<Seq<char>>, d: Seq<Seq<u32>>) -> bool {
    forall|i: int, j: int|
        0 <= i < j < digests.len() ==> #[trigger] hasher.measures(
            digests[i],
            digests[j],
            Ok::<u32, TelfhashError>(d[i][j]),
        )
}

/// Pair `(k, l)` comes before pair `(i, j)` in the order `(0, 1), (0, 2),
/// ..., (1, 2), ...`.
pub open spec fn pair_before(k: int, l: int, i: int, j: int) -> bool {
    k < i || (k == i && l < j)
}

/// `e` is the error of the first failing pair: the hasher may give `e`
/// measuring some pair `i < j` of digests, and may give a distance for each
/// pair before it.
pub open spec fn first_failure_measured<H: SimilarityHasher>(
    hasher: H,
    digests: Seq<Seq<char>>,
    e: TelfhashError,
) -> bool {
    exists|i: int, j: int|
        0 <= i < j < digests.len() && #[trigger] hasher.measures(
            digests[i],
            digests[j],
            Err::<u32, TelfhashError>(e),
        ) && forall|k: int, l: int|
            0 <= k < l < digests.len() && #[trigger] pair_before(k, l, i, j) ==> exists|v: u32|
                #[trigger] hasher.measures(digests[k], digests[l], Ok::<u32, TelfhashError>(v))
}

/// Measures the distance of every pair `i < j` of digests, in the order
/// `(0, 1), (0, 2), ..., (1, 2), ...`, and stops at the first failure,
/// whose error it returns.
/// Entries `[i][j]` with `j <= i` are 0.
pub fn pairwise_distances<H: SimilarityHasher>(digests: &Vec<String>, hasher: &H) -> (r: Result<
    Vec<Vec<u32>>,
    TelfhashError,
>)
    ensures
        r matches Ok(table) ==> distance_table(table.deep_view(), digests@.len() as int)
            && measured_table(*hasher, digests.deep_view(), table.deep_view()),
        r matches Err(e) ==> first_failure_measured(*hasher, digests.deep_view(), e),
{
    let n = digests.len();
    let mut table: Vec<Vec<u32>> = Vec::new();
    for i in 0..n
        invariant
            n == digests@.len(),
            table@.len() == i,
            forall|k: int| 0 <= k < i ==> #[trigger] table@[k]@.len() == n,
            forall|k: int, j: int|
                0 <= k < i && k < j < n ==> #[trigger] hasher.measures(
                    digests@[k]@,
                    digests@[j]@,
                    Ok::<u32, TelfhashError>(table@[k]@[j]),
                ),
    {
        let mut row: Vec<u32> = Vec::new();
        for j in 0..n
            invariant
                n == digests@.len(),
                i < n,
                row@.len() == j,
                table@.len() == i,
                forall|k: int, l: int|
                    0 <= k < i && k < l < n ==> #[trigger] hasher.measures(
                        digests@[k]@,
                        digests@[l]@,
                        Ok::<u32, TelfhashError>(table@[k]@[l]),
                    ),
                forall|m: int|
                    i < m < j ==> #[trigger] hasher.measures(
                        digests@[i as int]@,
                        digests@[m]@,
                        Ok::<u32, TelfhashError>(row@[m]),
                    ),
        {
            if j <= i {
                row.push(0);
            } else {
                match hasher.distance(digests[i].as_str(), digests[j].as_str()) {
                    Ok(d) => row.push(d),
                    Err(e) => {
                        proof {
                            let dv = digests.deep_view();
                            assert(dv[i as int] == digests@[i as int]@);
                            assert(dv[j as int] == digests@[j as int]@);
                            assert(hasher.measures(dv[i as int], dv[j as int], Err::<u32, TelfhashError>(e)));
                            assert forall|k: int, l: int|
                                0 <= k < l < dv.len() && #[trigger] pair_before(
                                    k,
                                    l,
                                    i as int,
                                    j as int,
                                ) implies exists|v: u32|
                                #[trigger] hasher.measures(dv[k], dv[l], Ok::<u32, TelfhashError>(v)) by {
                                assert(dv[k] == digests@[k]@);
                                assert(dv[l] == digests@[l]@);
                                if k < i {
                                    assert(hasher.measures(
                                        digests@[k]@,
                                        digests@[l]@,
                                        Ok::<u32, TelfhashError>(table@[k]@[l]),
                                    ));
                                } else {
                                    assert(hasher.measures(
                                        digests@[i as int]@,
                                        digests@[l]@,
                                        Ok::<u32, TelfhashError>(row@[l]),
                                    ));
                                }
                            }
                        }
                        return Err(e);
                    },
                }
            }
        }
        table.push(row);
    }
    proof {
        assert forall|k: int| 0 <= k < n implies #[trigger] table.deep_view()[k].len() == n by {
            assert(table.deep_view()[k] == table@[k].deep_view());
        }
        assert forall|k: int, j: int| 0 <= k < j < n implies #[trigger] hasher.measures(
            digests.deep_view()[k],
            digests.deep_view()[j],
            Ok::<u32, TelfhashError>(table.deep_view()[k][j]),
        ) by {
            assert(table.deep_view()[k] == table@[k].deep_view());
            assert(table@[k]@[j] == table.deep_view()[k][j]);
        }
    }
    Ok(table)
}

} // verus!

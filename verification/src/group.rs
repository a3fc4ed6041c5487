//! Grouping: partition records by the composite key over the problem column
//! and the severity column, keeping first-seen key order and, within a
//! group, the records' original relative order.

use vstd::prelude::*;

use crate::models::ExcelRecord;
use crate::processor::ExcelProcessor;
use crate::record::RecView;
use crate::record::build_group_key;
use crate::record::clone_record;
use crate::record::group_key_spec;
use crate::text::find_string;

verus! {

/// The distinct grouping keys of `rs`, in first-seen order.
pub open spec fn group_keys(rs: Seq<RecView>, b: int, d: int) -> Seq<Seq<char>>
    decreases rs.len(),
{
    if rs.len() == 0 {
        Seq::empty()
    } else {
        let prev = group_keys(rs.drop_last(), b, d);
        if prev.contains(group_key_spec(rs.last(), b, d)) {
            prev
        } else {
            prev.push(group_key_spec(rs.last(), b, d))
        }
    }
}

/// The records of `rs` whose grouping key is `k`, in their original order.
pub open spec fn group_members(rs: Seq<RecView>, k: Seq<char>, b: int, d: int) -> Seq<RecView>
    decreases rs.len(),
{
    if rs.len() == 0 {
        Seq::empty()
    } else {
        let prev = group_members(rs.drop_last(), k, b, d);
        if group_key_spec(rs.last(), b, d) == k {
            prev.push(rs.last())
        } else {
            prev
        }
    }
}

/// The group sizes of the listed keys, summed.
pub open spec fn sum_group_sizes(rs: Seq<RecView>, keys: Seq<Seq<char>>, b: int, d: int) -> int
    decreases keys.len(),
{
    if keys.len() == 0 {
        0
    } else {
        sum_group_sizes(rs, keys.drop_last(), b, d) + group_members(
            rs,
            keys.last(),
            b,
            d,
        ).len()
    }
}

/// Number of entries of `keys` equal to `k`.
pub open spec fn count_key(keys: Seq<Seq<char>>, k: Seq<char>) -> int
    decreases keys.len(),
{
    if keys.len() == 0 {
        0
    } else {
        count_key(keys.drop_last(), k) + if keys.last() == k {
            1int
        } else {
            0int
        }
    }
}

/// No key occurs twice in `keys`.
pub open spec fn keys_unique(keys: Seq<Seq<char>>) -> bool {
    forall|i: int, j: int| 0 <= i < j < keys.len() ==> keys[i] != keys[j]
}

proof fn lemma_sum_extend(s: Seq<RecView>, r: RecView, keys: Seq<Seq<char>>, b: int, d: int)
    ensures
        sum_group_sizes(s.push(r), keys, b, d) == sum_group_sizes(s, keys, b, d) + count_key(
            keys,
            group_key_spec(r, b, d),
        ),
    decreases keys.len(),
{
    if keys.len() > 0 {
        lemma_sum_extend(s, r, keys.drop_last(), b, d);
        assert(s.push(r).drop_last() =~= s);
        assert(s.push(r).last() == r);
    }
}

proof fn lemma_count_of_unique(keys: Seq<Seq<char>>, k: Seq<char>)
    requires
        keys_unique(keys),
    ensures
        keys.contains(k) ==> count_key(keys, k) == 1,
        !keys.contains(k) ==> count_key(keys, k) == 0,
    decreases keys.len(),
{
    if keys.len() > 0 {
        assert(keys_unique(keys.drop_last()));
        lemma_count_of_unique(keys.drop_last(), k);
        if keys.contains(k) {
            let i = choose|i: int| 0 <= i < keys.len() && keys[i] == k;
            if keys.last() == k {
                assert(!keys.drop_last().contains(k)) by {
                    if keys.drop_last().contains(k) {
                        let j = choose|j: int|
                            0 <= j < keys.drop_last().len() && keys.drop_last()[j] == k;
                        assert(keys[j] == keys[keys.len() - 1]);
                        assert(false);
                    }
                }
            } else {
                assert(keys.drop_last()[i] == k);
                assert(keys.drop_last().contains(k));
            }
        } else {
            assert(!keys.drop_last().contains(k)) by {
                if keys.drop_last().contains(k) {
                    let j = choose|j: int|
                        0 <= j < keys.drop_last().len() && keys.drop_last()[j] == k;
                    assert(keys[j] == k);
                    assert(keys.contains(k));
                }
            }
        }
    }
}

/// The first-seen key list has no duplicate keys.
pub proof fn lemma_group_keys_unique(rs: Seq<RecView>, b: int, d: int)
    ensures
        keys_unique(group_keys(rs, b, d)),
    decreases rs.len(),
{
    if rs.len() > 0 {
        lemma_group_keys_unique(rs.drop_last(), b, d);
        let prev = group_keys(rs.drop_last(), b, d);
        let k = group_key_spec(rs.last(), b, d);
        if !prev.contains(k) {
            let out = prev.push(k);
            assert forall|i: int, j: int| 0 <= i < j < out.len() implies out[i] != out[j] by {
                if j == out.len() - 1 {
                    assert(out[i] == prev[i]);
                    assert(!prev.contains(out[j])) by {
                        assert(out[j] == k);
                    }
                    if out[i] == out[j] {
                        assert(prev.contains(k));
                    }
                }
            }
        }
    }
}

/// Every record's key is listed.
proof fn lemma_group_keys_complete(rs: Seq<RecView>, b: int, d: int)
    ensures
        forall|j: int|
            0 <= j < rs.len() ==> group_keys(rs, b, d).contains(
                #[trigger] group_key_spec(rs[j], b, d),
            ),
    decreases rs.len(),
{
    if rs.len() > 0 {
        lemma_group_keys_complete(rs.drop_last(), b, d);
        let prev = group_keys(rs.drop_last(), b, d);
        let out = group_keys(rs, b, d);
        let k = group_key_spec(rs.last(), b, d);
        assert forall|j: int| 0 <= j < rs.len() implies out.contains(
            #[trigger] group_key_spec(rs[j], b, d),
        ) by {
            if j < rs.len() - 1 {
                assert(rs.drop_last()[j] == rs[j]);
                assert(prev.contains(group_key_spec(rs[j], b, d)));
                let m = choose|m: int|
                    0 <= m < prev.len() && prev[m] == group_key_spec(rs[j], b, d);
                assert(out[m] == prev[m]);
                assert(out.contains(out[m]));
            } else {
                if prev.contains(k) {
                    let m = choose|m: int| 0 <= m < prev.len() && prev[m] == k;
                    assert(out[m] == k);
                    assert(out.contains(out[m]));
                } else {
                    assert(out[out.len() - 1] == k);
                    assert(out.contains(out[out.len() - 1]));
                }
            }
        }
    }
}

/// A key that is not listed has no members.
proof fn lemma_unlisted_key_empty(rs: Seq<RecView>, k: Seq<char>, b: int, d: int)
    requires
        !group_keys(rs, b, d).contains(k),
    ensures
        group_members(rs, k, b, d).len() == 0,
    decreases rs.len(),
{
    if rs.len() > 0 {
        lemma_group_keys_complete(rs, b, d);
        assert(group_key_spec(rs[rs.len() - 1], b, d) != k);
        let prev = group_keys(rs.drop_last(), b, d);
        assert(!prev.contains(k)) by {
            if prev.contains(k) {
                let m = choose|m: int| 0 <= m < prev.len() && prev[m] == k;
                let out = group_keys(rs, b, d);
                assert(out[m] == prev[m]);
                assert(out.contains(out[m]));
            }
        }
        lemma_unlisted_key_empty(rs.drop_last(), k, b, d);
    }
}

/// The groups partition the records: group sizes over the first-seen key
/// list sum to the number of records.
pub proof fn lemma_groups_partition(rs: Seq<RecView>, b: int, d: int)
    ensures
        sum_group_sizes(rs, group_keys(rs, b, d), b, d) == rs.len(),
    decreases rs.len(),
{
    if rs.len() > 0 {
        let s = rs.drop_last();
        let r = rs.last();
        let k = group_key_spec(r, b, d);
        let ks = group_keys(s, b, d);
        lemma_groups_partition(s, b, d);
        lemma_group_keys_unique(s, b, d);
        lemma_count_of_unique(ks, k);
        assert(s.push(r) =~= rs);
        lemma_sum_extend(s, r, ks, b, d);
        if ks.contains(k) {
            assert(group_keys(rs, b, d) == ks);
            assert(sum_group_sizes(rs, ks, b, d) == s.len() + 1);
        } else {
            lemma_unlisted_key_empty(s, k, b, d);
            lemma_sum_extend(s, r, ks.push(k), b, d);
            assert(count_key(ks.push(k), k) == count_key(ks, k) + 1) by {
                assert(ks.push(k).drop_last() =~= ks);
            }
            assert(sum_group_sizes(rs, ks.push(k), b, d) == sum_group_sizes(s, ks.push(k), b, d)
                + 1);
            assert(sum_group_sizes(s, ks.push(k), b, d) == sum_group_sizes(s, ks, b, d)
                + group_members(s, k, b, d).len()) by {
                assert(ks.push(k).drop_last() =~= ks);
                assert(ks.push(k).last() == k);
            }
        }
    }
}

impl ExcelProcessor {
    /// Partition the records into groups keyed by the problem column and the
    /// severity column, in first-seen key order; each group holds its
    /// records in their original relative order.
    pub fn group_data_by_columns(
        records: &Vec<ExcelRecord>,
        problem_col: usize,
        severity_col: usize,
    ) -> (groups: Vec<(String, Vec<ExcelRecord>)>)
        ensures
            ({
                let rv = records.deep_view();
                let ks = group_keys(rv, problem_col as int, severity_col as int);
                &&& groups@.len() == ks.len()
                &&& forall|g: int|
                    0 <= g < groups@.len() ==> (#[trigger] groups@[g]).0@ == ks[g]
                        && groups@[g].1.deep_view() == group_members(
                        rv,
                        ks[g],
                        problem_col as int,
                        severity_col as int,
                    )
            }),
    {
        let ghost rv = records.deep_view();
        let ghost b = problem_col as int;
        let ghost d = severity_col as int;
        let mut keys: Vec<String> = Vec::new();
        let mut groups: Vec<(String, Vec<ExcelRecord>)> = Vec::new();
        let n = records.len();
        let mut i: usize = 0;
        while i < n
            invariant
                0 <= i <= n,
                n == records@.len(),
                rv == records.deep_view(),
                b == problem_col as int,
                d == severity_col as int,
                keys@.len() == groups@.len(),
                groups@.len() == group_keys(rv.subrange(0, i as int), b, d).len(),
                forall|g: int| 0 <= g < keys@.len() ==> keys@[g]@ == (#[trigger] groups@[g]).0@,
                forall|g: int|
                    0 <= g < groups@.len() ==> (#[trigger] groups@[g]).0@ == group_keys(
                        rv.subrange(0, i as int),
                        b,
                        d,
                    )[g] && groups@[g].1.deep_view() == group_members(
                        rv.subrange(0, i as int),
                        group_keys(rv.subrange(0, i as int), b, d)[g],
                        b,
                        d,
                    ),
            decreases n - i,
        {
            let key = build_group_key(&records[i], problem_col, severity_col);
            proof {
                assert(rv[i as int] == records@[i as int]@);
            }
            let found = find_string(&keys, &key);
            let ghost pre = rv.subrange(0, i as int);
            let ghost post = rv.subrange(0, i as int + 1);
            let ghost ks = group_keys(pre, b, d);
            proof {
                assert(post.drop_last() =~= pre);
                assert(post.last() == rv[i as int]);
                if found is Some {
                    let g = found->Some_0 as int;
                    assert(groups@[g].0@ == ks[g]);
                    assert(keys@[g]@ == groups@[g].0@);
                    assert(ks[g] == key@);
                    assert(ks.contains(key@));
                    assert(group_keys(post, b, d) == ks);
                } else {
                    assert(!ks.contains(key@)) by {
                        if ks.contains(key@) {
                            let g = choose|g: int| 0 <= g < ks.len() && ks[g] == key@;
                            assert(groups@[g].0@ == ks[g]);
                            assert(keys@[g]@ == groups@[g].0@);
                            assert(keys@[g]@ == key@);
                        }
                    }
                    assert(group_keys(post, b, d) == ks.push(key@));
                }
            }
            match found {
                Some(g) => {
                    let mut entry = groups.remove(g);
                    entry.1.push(clone_record(&records[i]));
                    groups.insert(g, entry);
                    proof {
                        assert forall|h: int| 0 <= h < groups@.len() implies
                            (#[trigger] groups@[h]).0@ == group_keys(post, b, d)[h]
                            && groups@[h].1.deep_view()
                            == group_members(post, group_keys(post, b, d)[h], b, d) by {
                            assert(group_keys(post, b, d)[h] == ks[h]);
                            if h == g {
                                assert(groups@[h].1.deep_view() =~= group_members(
                                    pre,
                                    ks[h],
                                    b,
                                    d,
                                ).push(rv[i as int]));
                                assert(group_key_spec(post.last(), b, d) == ks[h]);
                            } else {
                                assert(group_members(post, ks[h], b, d) == group_members(
                                    pre,
                                    ks[h],
                                    b,
                                    d,
                                )) by {
                                    lemma_group_keys_unique(pre, b, d);
                                    assert(ks[h] != ks[g as int]);
                                }
                            }
                        }
                    }
                },
                None => {
                    let mut members: Vec<ExcelRecord> = Vec::new();
                    members.push(clone_record(&records[i]));
                    let key2 = key.clone();
                    keys.push(key);
                    groups.push((key2, members));
                    proof {
                        assert forall|h: int| 0 <= h < groups@.len() implies
                            (#[trigger] groups@[h]).0@ == group_keys(post, b, d)[h]
                            && groups@[h].1.deep_view()
                            == group_members(post, group_keys(post, b, d)[h], b, d) by {
                            if h < groups@.len() - 1 {
                                assert(group_keys(post, b, d)[h] == ks[h]);
                                assert(group_members(post, ks[h], b, d) == group_members(
                                    pre,
                                    ks[h],
                                    b,
                                    d,
                                )) by {
                                    assert(ks.contains(ks[h]));
                                    assert(group_key_spec(post.last(), b, d) != ks[h]);
                                }
                            } else {
                                assert(group_keys(post, b, d)[h] == key@);
                                assert(group_members(post, key@, b, d) =~= group_members(
                                    pre,
                                    key@,
                                    b,
                                    d,
                                ).push(rv[i as int]));
                                lemma_unlisted_key_empty(pre, key@, b, d);
                                assert(group_members(pre, key@, b, d) =~= Seq::<RecView>::empty());
                                assert(groups@[h].1.deep_view() =~= Seq::<RecView>::empty().push(
                                    rv[i as int],
                                ));
                            }
                        }
                    }
                },
            }
            i = i + 1;
        }
        proof {
            assert(rv.subrange(0, n as int) =~= rv);
        }
        groups
    }
}

} // verus!

//! Final group ordering: severity priority ascending, then group size
//! descending, with ties keeping the order in which groups were first
//! encountered.
//!
//! The order is specified as a stable insertion sort over ranking keys that
//! carry the group's priority, its size, and its first-seen position; the
//! position makes the order total, so the sorted sequence is unique and
//! re-running the pipeline cannot reorder equal groups.

use vstd::prelude::*;
use vstd::multiset::Multiset;

use crate::models::ExcelRecord;
use crate::models::ExcelProcessResult;
use crate::models::GroupInfo;
use crate::models::RiskLevel;
use crate::models::classify_spec;
use crate::models::priority_spec;
use crate::models::sum_counts;
use crate::processor::ExcelProcessor;
use crate::record::key_part_first;
use crate::record::key_part_second;
use crate::record::split_group_key;

verus! {

/// The ranking key of one group: its severity priority, its record count,
/// and the position at which it was first encountered.
pub struct RankedKey {
    pub priority: int,
    pub count: int,
    pub pos: int,
}

/// Ranking order: priority ascending, then count descending, then
/// first-seen position ascending. Total, and strict on distinct positions.
pub open spec fn rank_le(a: RankedKey, b: RankedKey) -> bool {
    ||| a.priority < b.priority
    ||| (a.priority == b.priority && a.count > b.count)
    ||| (a.priority == b.priority && a.count == b.count && a.pos <= b.pos)
}

/// Where `x` lands in `s`: after every leading element that ranks at or
/// before it.
pub open spec fn insert_pos(x: RankedKey, s: Seq<RankedKey>) -> int
    decreases s.len(),
{
    if s.len() > 0 && rank_le(s[0], x) {
        1 + insert_pos(x, s.drop_first())
    } else {
        0
    }
}

/// `s` with `x` inserted at its insertion position.
pub open spec fn insert_ranked(x: RankedKey, s: Seq<RankedKey>) -> Seq<RankedKey>
    decreases s.len(),
{
    if s.len() > 0 && rank_le(s[0], x) {
        seq![s[0]] + insert_ranked(x, s.drop_first())
    } else {
        seq![x] + s
    }
}

/// The ranking keys sorted by repeated insertion, in input order.
pub open spec fn sort_ranked(s: Seq<RankedKey>) -> Seq<RankedKey>
    decreases s.len(),
{
    if s.len() == 0 {
        Seq::empty()
    } else {
        insert_ranked(s.last(), sort_ranked(s.drop_last()))
    }
}

/// Pairwise ordered by the ranking order.
pub open spec fn sorted_ranked(s: Seq<RankedKey>) -> bool {
    forall|i: int, j: int| 0 <= i < j < s.len() ==> rank_le(s[i], s[j])
}

/// The record counts of the ranking keys, summed.
pub open spec fn sum_ranks(s: Seq<RankedKey>) -> int
    decreases s.len(),
{
    if s.len() == 0 {
        0
    } else {
        sum_ranks(s.drop_last()) + s.last().count
    }
}

/// Inserting decomposes the result around the insertion position.
proof fn lemma_insert_shape(x: RankedKey, s: Seq<RankedKey>)
    ensures
        0 <= insert_pos(x, s) <= s.len(),
        forall|j: int| 0 <= j < insert_pos(x, s) ==> rank_le(s[j], x),
        insert_pos(x, s) < s.len() ==> !rank_le(s[insert_pos(x, s)], x),
        insert_ranked(x, s) == s.subrange(0, insert_pos(x, s)) + seq![x] + s.subrange(
            insert_pos(x, s),
            s.len() as int,
        ),
    decreases s.len(),
{
    let i = insert_pos(x, s);
    if s.len() > 0 && rank_le(s[0], x) {
        let rest = s.drop_first();
        lemma_insert_shape(x, rest);
        let ir = insert_pos(x, rest);
        assert forall|j: int| 0 <= j < i implies rank_le(s[j], x) by {
            if j > 0 {
                assert(rest[j - 1] == s[j]);
            }
        }
        if i < s.len() {
            assert(rest[ir] == s[i]);
        }
        assert(insert_ranked(x, s) =~= s.subrange(0, i) + seq![x] + s.subrange(
            i,
            s.len() as int,
        )) by {
            assert(rest.subrange(0, ir) =~= s.subrange(1, i));
            assert(rest.subrange(ir, rest.len() as int) =~= s.subrange(i, s.len() as int));
        }
    } else {
        assert(insert_ranked(x, s) =~= s.subrange(0, 0) + seq![x] + s.subrange(
            0,
            s.len() as int,
        ));
    }
}

/// Inserting at the computed position is exactly the sequence insertion.
proof fn lemma_insert_is_seq_insert(x: RankedKey, s: Seq<RankedKey>, i: int)
    requires
        0 <= i <= s.len(),
        forall|j: int| 0 <= j < i ==> rank_le(s[j], x),
        i < s.len() ==> !rank_le(s[i], x),
    ensures
        insert_ranked(x, s) == s.insert(i, x),
    decreases s.len(),
{
    lemma_insert_shape(x, s);
    let ip = insert_pos(x, s);
    if ip < i {
        assert(rank_le(s[ip], x));
        assert(false);
    }
    if i < ip {
        assert(rank_le(s[i], x));
        assert(false);
    }
    assert(s.insert(i, x) =~= s.subrange(0, i) + seq![x] + s.subrange(i, s.len() as int));
}

/// Inserting into a sorted sequence keeps it sorted.
proof fn lemma_insert_sorted(x: RankedKey, s: Seq<RankedKey>)
    requires
        sorted_ranked(s),
    ensures
        sorted_ranked(insert_ranked(x, s)),
{
    lemma_insert_shape(x, s);
    let i = insert_pos(x, s);
    let out = insert_ranked(x, s);
    assert forall|p: int, q: int| 0 <= p < q < out.len() implies rank_le(out[p], out[q]) by {
        if p < i {
            assert(out[p] == s[p]);
        } else if p == i {
            assert(out[p] == x);
        } else {
            assert(out[p] == s[p - 1]);
        }
        if q < i {
            assert(out[q] == s[q]);
        } else if q == i {
            assert(out[q] == x);
        } else {
            assert(out[q] == s[q - 1]);
        }
        if q == i {
            assert(rank_le(out[p], out[q]));
        } else if q > i && p == i {
            assert(!rank_le(s[i], x));
            assert(rank_le(x, s[i]));
            if q - 1 > i {
                assert(rank_le(s[i], s[q - 1]));
            }
        }
    }
}

/// Sorting sorts.
pub proof fn lemma_sort_sorted(s: Seq<RankedKey>)
    ensures
        sorted_ranked(sort_ranked(s)),
    decreases s.len(),
{
    if s.len() > 0 {
        lemma_sort_sorted(s.drop_last());
        lemma_insert_sorted(s.last(), sort_ranked(s.drop_last()));
    }
}

/// Sorting keeps the length.
pub proof fn lemma_sort_len(s: Seq<RankedKey>)
    ensures
        sort_ranked(s).len() == s.len(),
    decreases s.len(),
{
    if s.len() > 0 {
        lemma_sort_len(s.drop_last());
        lemma_insert_shape(s.last(), sort_ranked(s.drop_last()));
    }
}

proof fn lemma_sum_ranks_concat(a: Seq<RankedKey>, b: Seq<RankedKey>)
    ensures
        sum_ranks(a + b) == sum_ranks(a) + sum_ranks(b),
    decreases b.len(),
{
    if b.len() == 0 {
        assert(a + b =~= a);
    } else {
        lemma_sum_ranks_concat(a, b.drop_last());
        assert((a + b).drop_last() =~= a + b.drop_last());
        assert((a + b).last() == b.last());
    }
}

/// Sorting keeps the summed record count.
pub proof fn lemma_sort_sum(s: Seq<RankedKey>)
    ensures
        sum_ranks(sort_ranked(s)) == sum_ranks(s),
    decreases s.len(),
{
    if s.len() > 0 {
        lemma_sort_sum(s.drop_last());
        let prev = sort_ranked(s.drop_last());
        let x = s.last();
        lemma_insert_shape(x, prev);
        let i = insert_pos(x, prev);
        lemma_sum_ranks_concat(prev.subrange(0, i) + seq![x], prev.subrange(i, prev.len() as int));
        lemma_sum_ranks_concat(prev.subrange(0, i), seq![x]);
        lemma_sum_ranks_concat(prev.subrange(0, i), prev.subrange(i, prev.len() as int));
        assert(prev.subrange(0, i) + prev.subrange(i, prev.len() as int) =~= prev);
        assert(sum_ranks(seq![x]) == x.count) by {
            assert(seq![x].drop_last() =~= Seq::<RankedKey>::empty());
            assert(sum_ranks(Seq::<RankedKey>::empty()) == 0);
            assert(seq![x].last() == x);
        }
    }
}

proof fn lemma_insert_multiset(x: RankedKey, s: Seq<RankedKey>)
    ensures
        insert_ranked(x, s).to_multiset() =~= s.to_multiset().insert(x),
{
    broadcast use vstd::seq_lib::group_to_multiset_ensures;
    broadcast use vstd::multiset::group_multiset_axioms;

    lemma_insert_shape(x, s);
    let i = insert_pos(x, s);
    let a = s.subrange(0, i);
    let b = s.subrange(i, s.len() as int);
    assert(insert_ranked(x, s) =~= (a + seq![x]) + b);
    vstd::seq_lib::lemma_multiset_commutative(a + seq![x], b);
    vstd::seq_lib::lemma_multiset_commutative(a, seq![x]);
    vstd::seq_lib::lemma_multiset_commutative(a, b);
    assert(a + b =~= s);
    assert(seq![x] =~= Seq::<RankedKey>::empty().push(x));
    assert(seq![x].to_multiset() =~= Multiset::<RankedKey>::empty().insert(x));
}

/// Sorting permutes the ranking keys: the sorted sequence holds exactly
/// the input keys, each as often as it occurs.
pub proof fn lemma_sort_permutes(s: Seq<RankedKey>)
    ensures
        sort_ranked(s).to_multiset() == s.to_multiset(),
    decreases s.len(),
{
    broadcast use vstd::seq_lib::group_to_multiset_ensures;

    if s.len() > 0 {
        lemma_sort_permutes(s.drop_last());
        lemma_insert_multiset(s.last(), sort_ranked(s.drop_last()));
        assert(s.drop_last().push(s.last()) =~= s);
        assert(s.drop_last().push(s.last()).to_multiset() =~= s.drop_last().to_multiset().insert(
            s.last(),
        ));
    }
}

/// Group ordering is stable and deterministic: the sorted sequence is
/// pairwise ordered, and groups tying on priority and size stay in
/// first-encountered order (their positions ascend).
pub proof fn lemma_ordering_stable(s: Seq<RankedKey>)
    ensures
        sorted_ranked(sort_ranked(s)),
        forall|i: int, j: int|
            0 <= i < j < sort_ranked(s).len() && (#[trigger] sort_ranked(s)[i]).priority == (
            #[trigger] sort_ranked(s)[j]).priority && sort_ranked(s)[i].count == sort_ranked(
                s,
            )[j].count ==> sort_ranked(s)[i].pos <= sort_ranked(s)[j].pos,
{
    lemma_sort_sorted(s);
    let t = sort_ranked(s);
    assert forall|i: int, j: int|
        0 <= i < j < t.len() && (#[trigger] t[i]).priority == (#[trigger] t[j]).priority
            && t[i].count == t[j].count implies t[i].pos <= t[j].pos by {
        assert(rank_le(t[i], t[j]));
    }
}

/// Every sorted element is one of the input elements.
pub proof fn lemma_sort_elements(s: Seq<RankedKey>)
    ensures
        forall|i: int|
            0 <= i < sort_ranked(s).len() ==> exists|j: int|
                0 <= j < s.len() && s[j] == #[trigger] sort_ranked(s)[i],
    decreases s.len(),
{
    if s.len() > 0 {
        lemma_sort_elements(s.drop_last());
        let prev = sort_ranked(s.drop_last());
        let x = s.last();
        let out = sort_ranked(s);
        lemma_insert_shape(x, prev);
        let ip = insert_pos(x, prev);
        assert forall|i: int| 0 <= i < out.len() implies exists|j: int|
            0 <= j < s.len() && s[j] == #[trigger] out[i] by {
            if i < ip {
                assert(out[i] == prev[i]);
                let j = choose|j: int| 0 <= j < s.drop_last().len() && s.drop_last()[j] == prev[i];
                assert(s[j] == out[i]);
            } else if i == ip {
                assert(out[i] == x);
                assert(s[s.len() - 1] == out[i]);
            } else {
                assert(out[i] == prev[i - 1]);
                let j = choose|j: int|
                    0 <= j < s.drop_last().len() && s.drop_last()[j] == prev[i - 1];
                assert(s[j] == out[i]);
            }
        }
    }
}

/// The ranking key of a group with the given composite key, size and
/// first-seen position: the priority comes from classifying the severity
/// part of the composite key.
pub open spec fn rank_of_group(key: Seq<char>, count: int, pos: int) -> RankedKey {
    RankedKey {
        priority: priority_spec(classify_spec(key_part_second(key))),
        count: count,
        pos: pos,
    }
}

/// The ranking keys of a grouped list, in first-seen order.
pub open spec fn ranks_of(gs: Seq<(String, Vec<ExcelRecord>)>) -> Seq<RankedKey> {
    Seq::new(gs.len(), |g: int| rank_of_group(gs[g].0@, gs[g].1@.len() as int, g))
}

/// The ranking key of one working entry (key, group, priority, position).
pub open spec fn item_rank(it: (String, GroupInfo, i32, usize)) -> RankedKey {
    RankedKey { priority: it.2 as int, count: it.1.record_count as int, pos: it.3 as int }
}

/// The ranking keys of a working list.
pub open spec fn item_ranks(s: Seq<(String, GroupInfo, i32, usize)>) -> Seq<RankedKey> {
    Seq::new(s.len(), |i: int| item_rank(s[i]))
}

/// Executable ranking comparison over working entries.
fn rank_le_exec(a: &(String, GroupInfo, i32, usize), b: &(String, GroupInfo, i32, usize)) -> (r:
    bool)
    ensures
        r == rank_le(item_rank(*a), item_rank(*b)),
{
    a.2 < b.2 || (a.2 == b.2 && (a.1.record_count > b.1.record_count || (a.1.record_count
        == b.1.record_count && a.3 <= b.3)))
}

proof fn lemma_sum_counts_matches(gs: Seq<(String, GroupInfo)>, rks: Seq<RankedKey>)
    requires
        gs.len() == rks.len(),
        forall|i: int| 0 <= i < gs.len() ==> (#[trigger] gs[i]).1.record_count == rks[i].count,
    ensures
        sum_counts(gs) == sum_ranks(rks),
    decreases gs.len(),
{
    if gs.len() > 0 {
        lemma_sum_counts_matches(gs.drop_last(), rks.drop_last());
    }
}

impl ExcelProcessor {
    /// Order the grouped data into the final result: split each composite
    /// key back into problem name and severity text, classify the severity,
    /// and sort the groups by priority ascending, then record count
    /// descending, with ties keeping first-seen order.
    pub fn create_structured_result(
        grouped: Vec<(String, Vec<ExcelRecord>)>,
        total_records: usize,
    ) -> (result: ExcelProcessResult)
        ensures
            result.total_records == total_records,
            result.total_groups == result.grouped_data@.len(),
            result.grouped_data@.len() == grouped@.len(),
            sum_counts(result.grouped_data@) == sum_ranks(ranks_of(grouped@)),
            forall|i: int|
                0 <= i < result.grouped_data@.len() ==> {
                    let sorted = sort_ranked(ranks_of(grouped@));
                    let p = sorted[i].pos;
                    &&& 0 <= p < grouped@.len()
                    &&& (#[trigger] result.grouped_data@[i]).0@ == grouped@[p].0@
                    &&& result.grouped_data@[i].1.b_column@ == key_part_first(grouped@[p].0@)
                    &&& result.grouped_data@[i].1.d_column@ == key_part_second(grouped@[p].0@)
                    &&& result.grouped_data@[i].1.record_count == grouped@[p].1@.len()
                    &&& result.grouped_data@[i].1.records.deep_view() == grouped@[p].1.deep_view()
                },
    {
        let ghost orig = grouped@;
        let mut rest = grouped;
        let n = rest.len();
        let mut items: Vec<(String, GroupInfo, i32, usize)> = Vec::new();
        let mut pos: usize = 0;
        while pos < n
            invariant
                0 <= pos <= n,
                n == orig.len(),
                rest@ == orig.subrange(pos as int, n as int),
                items@.len() == pos,
                forall|g: int|
                    0 <= g < pos ==> {
                        &&& (#[trigger] items@[g]).0 == orig[g].0
                        &&& items@[g].1.b_column@ == key_part_first(orig[g].0@)
                        &&& items@[g].1.d_column@ == key_part_second(orig[g].0@)
                        &&& items@[g].1.record_count == orig[g].1@.len()
                        &&& items@[g].1.records == orig[g].1
                        &&& items@[g].2 as int == priority_spec(
                            classify_spec(key_part_second(orig[g].0@)),
                        )
                        &&& items@[g].3 == g
                    },
            decreases n - pos,
        {
            let (key, members) = rest.remove(0);
            proof {
                assert(orig.subrange(pos as int, n as int)[0] == orig[pos as int]);
                assert(orig.subrange(pos as int, n as int).subrange(
                    1,
                    orig.subrange(pos as int, n as int).len() as int,
                ) =~= orig.subrange(pos as int + 1, n as int));
            }
            let parts = split_group_key(key.as_str());
            let level = RiskLevel::from_severity(parts.1.as_str());
            let pr = level.priority();
            let count = members.len();
            let info = GroupInfo {
                b_column: parts.0,
                d_column: parts.1,
                record_count: count,
                records: members,
            };
            items.push((key, info, pr, pos));
            pos = pos + 1;
        }
        let ghost itv = items@;
        proof {
            assert(item_ranks(itv) =~= ranks_of(orig));
        }
        let mut out: Vec<(String, GroupInfo, i32, usize)> = Vec::new();
        let mut k: usize = 0;
        while k < n
            invariant
                0 <= k <= n,
                n == itv.len(),
                items@ == itv.subrange(k as int, n as int),
                out@.len() == k,
                item_ranks(out@) == sort_ranked(item_ranks(itv.subrange(0, k as int))),
                forall|i: int|
                    0 <= i < k ==> exists|g: int| 0 <= g < k && #[trigger] out@[i] == itv[g],
            decreases n - k,
        {
            let it = items.remove(0);
            proof {
                assert(itv.subrange(k as int, n as int)[0] == itv[k as int]);
                assert(itv.subrange(k as int, n as int).subrange(
                    1,
                    itv.subrange(k as int, n as int).len() as int,
                ) =~= itv.subrange(k as int + 1, n as int));
            }
            let ghost rold = item_ranks(out@);
            let ghost oldout = out@;
            let mut idx: usize = 0;
            while idx < out.len() && rank_le_exec(&out[idx], &it)
                invariant
                    0 <= idx <= out@.len(),
                    out@ == oldout,
                    rold == item_ranks(out@),
                    forall|j: int| 0 <= j < idx ==> rank_le(rold[j], item_rank(it)),
                decreases out@.len() - idx,
            {
                proof {
                    assert(rold[idx as int] == item_rank(out@[idx as int]));
                }
                idx = idx + 1;
            }
            proof {
                if (idx as int) < out@.len() {
                    assert(!rank_le(rold[idx as int], item_rank(it)));
                }
            }
            out.insert(idx, it);
            proof {
                let x = item_rank(it);
                lemma_insert_is_seq_insert(x, rold, idx as int);
                assert(item_ranks(out@) =~= rold.insert(idx as int, x));
                let pre = itv.subrange(0, k as int);
                let post = itv.subrange(0, k as int + 1);
                assert(post.drop_last() =~= pre);
                assert(post.last() == itv[k as int]);
                assert(item_ranks(post) =~= item_ranks(pre).push(item_rank(itv[k as int])));
                assert(sort_ranked(item_ranks(post)) == insert_ranked(
                    item_rank(itv[k as int]),
                    sort_ranked(item_ranks(pre)),
                )) by {
                    assert(item_ranks(pre).push(item_rank(itv[k as int])).drop_last()
                        =~= item_ranks(pre));
                }
                assert(out@ =~= oldout.insert(idx as int, it));
                assert forall|i: int| 0 <= i < k + 1 implies exists|g: int|
                    0 <= g < k + 1 && #[trigger] out@[i] == itv[g] by {
                    if i < idx {
                        assert(out@[i] == oldout[i]);
                    } else if i == idx {
                        assert(out@[i] == it);
                        assert(out@[i] == itv[k as int]);
                    } else {
                        assert(out@[i] == oldout[i - 1]);
                    }
                }
            }
            k = k + 1;
        }
        let ghost outv = out@;
        proof {
            assert(itv.subrange(0, n as int) =~= itv);
            assert(item_ranks(outv) == sort_ranked(ranks_of(orig)));
        }
        let mut data: Vec<(String, GroupInfo)> = Vec::new();
        let total = out.len();
        let mut i: usize = 0;
        while i < total
            invariant
                0 <= i <= total,
                total == outv.len(),
                out@ == outv.subrange(i as int, total as int),
                data@.len() == i,
                forall|j: int|
                    0 <= j < i ==> (#[trigger] data@[j]).0 == outv[j].0
                        && data@[j].1 == outv[j].1,
            decreases total - i,
        {
            let it = out.remove(0);
            proof {
                assert(outv.subrange(i as int, total as int)[0] == outv[i as int]);
                assert(outv.subrange(i as int, total as int).subrange(
                    1,
                    outv.subrange(i as int, total as int).len() as int,
                ) =~= outv.subrange(i as int + 1, total as int));
            }
            data.push((it.0, it.1));
            i = i + 1;
        }
        proof {
            lemma_sort_len(ranks_of(orig));
            lemma_sort_sum(ranks_of(orig));
            lemma_sort_elements(ranks_of(orig));
            let sorted = sort_ranked(ranks_of(orig));
            lemma_sum_counts_matches(data@, item_ranks(outv));
            assert forall|i2: int| 0 <= i2 < data@.len() implies {
                let p = sorted[i2].pos;
                &&& 0 <= p < orig.len()
                &&& (#[trigger] data@[i2]).0@ == orig[p].0@
                &&& data@[i2].1.b_column@ == key_part_first(orig[p].0@)
                &&& data@[i2].1.d_column@ == key_part_second(orig[p].0@)
                &&& data@[i2].1.record_count == orig[p].1@.len()
                &&& data@[i2].1.records.deep_view() == orig[p].1.deep_view()
            } by {
                assert(exists|g: int| 0 <= g < n && outv[i2] == itv[g]);
                let g = choose|g: int| 0 <= g < n && outv[i2] == itv[g];
                assert(item_ranks(outv)[i2] == item_rank(outv[i2]));
                assert(itv[g].3 == g);
                assert(sorted[i2].pos == g);
                assert(data@[i2].0 == itv[g].0);
                assert(data@[i2].1 == itv[g].1);
            }
        }
        ExcelProcessResult {
            total_groups: data.len(),
            total_records: total_records,
            grouped_data: data,
        }
    }
}

} // verus!

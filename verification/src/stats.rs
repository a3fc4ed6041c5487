//! Derived artifacts over finished results: the sequence-numbered
//! statistics table, and concatenation of several results into one.

use vstd::prelude::*;

use crate::models::ExcelProcessResult;
use crate::models::GroupInfo;
use crate::models::RiskLevel;
use crate::models::StatisticItem;
use crate::models::classify_spec;
use crate::models::label_spec;
use crate::models::result_wf;
use crate::models::sum_counts;

verus! {

/// The record totals of a result list, summed.
pub open spec fn sum_totals(rs: Seq<ExcelProcessResult>) -> int
    decreases rs.len(),
{
    if rs.len() == 0 {
        0
    } else {
        sum_totals(rs.drop_last()) + rs.last().total_records
    }
}

/// The group lists of a result list, concatenated in order.
pub open spec fn concat_grouped(rs: Seq<ExcelProcessResult>) -> Seq<(String, GroupInfo)>
    decreases rs.len(),
{
    if rs.len() == 0 {
        Seq::empty()
    } else {
        concat_grouped(rs.drop_last()) + rs.last().grouped_data@
    }
}

proof fn lemma_sum_totals_prefix(rs: Seq<ExcelProcessResult>, k: int)
    requires
        0 <= k <= rs.len(),
    ensures
        sum_totals(rs) == sum_totals(rs.subrange(0, k)) + sum_totals(
            rs.subrange(k, rs.len() as int),
        ),
    decreases rs.len() - k,
{
    if k == rs.len() {
        assert(rs.subrange(0, k) =~= rs);
        assert(sum_totals(rs.subrange(k, rs.len() as int)) == 0);
    } else {
        lemma_sum_totals_prefix(rs, k + 1);
        let pre = rs.subrange(0, k + 1);
        assert(pre.drop_last() =~= rs.subrange(0, k));
        assert(pre.last() == rs[k]);
        let suf = rs.subrange(k, rs.len() as int);
        let suf2 = rs.subrange(k + 1, rs.len() as int);
        assert(sum_totals(suf) == rs[k].total_records + sum_totals(suf2)) by {
            lemma_sum_totals_first(suf);
            assert(suf[0] == rs[k]);
            assert(suf.subrange(1, suf.len() as int) =~= suf2);
        }
    }
}

proof fn lemma_sum_totals_first(rs: Seq<ExcelProcessResult>)
    requires
        rs.len() > 0,
    ensures
        sum_totals(rs) == rs[0].total_records + sum_totals(rs.subrange(1, rs.len() as int)),
    decreases rs.len(),
{
    if rs.len() == 1 {
        assert(rs.drop_last() =~= rs.subrange(1, rs.len() as int));
    } else {
        lemma_sum_totals_first(rs.drop_last());
        assert(rs.drop_last()[0] == rs[0]);
        assert(rs.drop_last().subrange(1, rs.drop_last().len() as int) =~= rs.subrange(
            1,
            rs.len() as int,
        ).drop_last());
        assert(rs.subrange(1, rs.len() as int).last() == rs.last());
    }
}

/// Every record total is non-negative, so prefix sums never exceed the sum.
proof fn lemma_sum_totals_nonneg(rs: Seq<ExcelProcessResult>)
    ensures
        sum_totals(rs) >= 0,
    decreases rs.len(),
{
    if rs.len() > 0 {
        lemma_sum_totals_nonneg(rs.drop_last());
    }
}

proof fn lemma_sum_counts_concat(a: Seq<(String, GroupInfo)>, b: Seq<(String, GroupInfo)>)
    ensures
        sum_counts(a + b) == sum_counts(a) + sum_counts(b),
    decreases b.len(),
{
    if b.len() == 0 {
        assert(a + b =~= a);
    } else {
        lemma_sum_counts_concat(a, b.drop_last());
        assert((a + b).drop_last() =~= a + b.drop_last());
        assert((a + b).last() == b.last());
    }
}

/// Concatenating well-formed results preserves the count/sum invariants.
proof fn lemma_concat_wf(rs: Seq<ExcelProcessResult>)
    requires
        forall|i: int| 0 <= i < rs.len() ==> result_wf(#[trigger] rs[i]),
    ensures
        sum_counts(concat_grouped(rs)) == sum_totals(rs),
        forall|g: int|
            0 <= g < concat_grouped(rs).len() ==> (#[trigger] concat_grouped(
                rs,
            )[g]).1.record_count == concat_grouped(rs)[g].1.records@.len(),
    decreases rs.len(),
{
    if rs.len() > 0 {
        assert(forall|i: int|
            0 <= i < rs.drop_last().len() ==> result_wf(#[trigger] rs.drop_last()[i]));
        lemma_concat_wf(rs.drop_last());
        lemma_sum_counts_concat(concat_grouped(rs.drop_last()), rs.last().grouped_data@);
        assert(result_wf(rs[rs.len() - 1]));
        let pre = concat_grouped(rs.drop_last());
        let tail = rs.last().grouped_data@;
        let out = concat_grouped(rs);
        assert forall|g: int| 0 <= g < out.len() implies (#[trigger] out[g]).1.record_count
            == out[g].1.records@.len() by {
            if g < pre.len() {
                assert(out[g] == pre[g]);
            } else {
                assert(out[g] == tail[g - pre.len()]);
            }
        }
    }
}

/// Merge several results into one: record totals add up, and the group
/// lists are concatenated in order.
pub fn merge_excel_results(results: Vec<ExcelProcessResult>) -> (merged: ExcelProcessResult)
    requires
        sum_totals(results@) <= usize::MAX,
    ensures
        merged.total_records == sum_totals(results@),
        merged.total_groups == merged.grouped_data@.len(),
        merged.grouped_data@ == concat_grouped(results@),
        (forall|i: int| 0 <= i < results@.len() ==> result_wf(#[trigger] results@[i]))
            ==> result_wf(merged),
{
    let ghost orig = results@;
    let mut rest = results;
    let n = rest.len();
    let mut total: usize = 0;
    let mut all: Vec<(String, GroupInfo)> = Vec::new();
    let mut i: usize = 0;
    while i < n
        invariant
            0 <= i <= n,
            n == orig.len(),
            rest@ == orig.subrange(i as int, n as int),
            total == sum_totals(orig.subrange(0, i as int)),
            all@ == concat_grouped(orig.subrange(0, i as int)),
            sum_totals(orig) <= usize::MAX,
        decreases n - i,
    {
        let r = rest.remove(0);
        proof {
            assert(orig.subrange(i as int, n as int)[0] == orig[i as int]);
            assert(orig.subrange(i as int, n as int).subrange(
                1,
                orig.subrange(i as int, n as int).len() as int,
            ) =~= orig.subrange(i as int + 1, n as int));
            lemma_sum_totals_prefix(orig, i as int + 1);
            lemma_sum_totals_nonneg(orig.subrange(i as int + 1, n as int));
            let pre2 = orig.subrange(0, i as int + 1);
            assert(pre2.drop_last() =~= orig.subrange(0, i as int));
            assert(pre2.last() == orig[i as int]);
        }
        total = total + r.total_records;
        let mut gd = r.grouped_data;
        all.append(&mut gd);
        proof {
            assert(all@ =~= concat_grouped(orig.subrange(0, i as int + 1)));
        }
        i = i + 1;
    }
    proof {
        assert(orig.subrange(0, n as int) =~= orig);
        if forall|i2: int| 0 <= i2 < orig.len() ==> result_wf(#[trigger] orig[i2]) {
            lemma_concat_wf(orig);
        }
    }
    ExcelProcessResult { total_groups: all.len(), total_records: total, grouped_data: all }
}

/// Derive the sequence-numbered statistics table from a result's final
/// group order: per group its 1-based position, problem name, collapsed
/// severity label, and record count.
pub fn generate_statistics(result_data: &ExcelProcessResult) -> (stats: Vec<StatisticItem>)
    ensures
        stats@.len() == result_data.grouped_data@.len(),
        forall|i: int|
            0 <= i < stats@.len() ==> {
                &&& (#[trigger] stats@[i]).seq_num == i + 1
                &&& stats@[i].problem_name@ == result_data.grouped_data@[i].1.b_column@
                &&& stats@[i].severity_level@ == label_spec(
                    classify_spec(result_data.grouped_data@[i].1.d_column@),
                )
                &&& stats@[i].problem_count == result_data.grouped_data@[i].1.record_count
            },
{
    let mut stats: Vec<StatisticItem> = Vec::new();
    let n = result_data.grouped_data.len();
    let mut i: usize = 0;
    while i < n
        invariant
            0 <= i <= n,
            n == result_data.grouped_data@.len(),
            stats@.len() == i,
            forall|j: int|
                0 <= j < i ==> {
                    &&& (#[trigger] stats@[j]).seq_num == j + 1
                    &&& stats@[j].problem_name@ == result_data.grouped_data@[j].1.b_column@
                    &&& stats@[j].severity_level@ == label_spec(
                        classify_spec(result_data.grouped_data@[j].1.d_column@),
                    )
                    &&& stats@[j].problem_count == result_data.grouped_data@[j].1.record_count
                },
        decreases n - i,
    {
        let group = &result_data.grouped_data[i].1;
        let level = RiskLevel::from_severity(group.d_column.as_str());
        let item = StatisticItem {
            seq_num: i + 1,
            problem_name: group.b_column.clone(),
            severity_level: level.label(),
            problem_count: group.record_count,
        };
        stats.push(item);
        i = i + 1;
    }
    stats
}

} // verus!

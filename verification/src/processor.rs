//! The pipeline's entry points: record normalization and the full
//! consolidation pass over merged raw data.

use vstd::prelude::*;

use crate::dedup::dedup_spec;
use crate::group::group_keys;
use crate::group::group_members;
use crate::group::lemma_groups_partition;
use crate::group::sum_group_sizes;
use crate::merge::RawExcelData;
use crate::models::ExcelProcessResult;
use crate::models::ExcelRecord;
use crate::models::classify_spec;
use crate::models::priority_spec;
use crate::models::result_wf;
use crate::order::RankedKey;
use crate::order::ranks_of;
use crate::order::sort_ranked;
use crate::order::sum_ranks;
use crate::record::RecView;
use crate::record::key_part_first;
use crate::record::key_part_second;
use crate::text::trim_spec;
use crate::text::trim_str;

verus! {

/// Namespace for the consolidation pipeline's stages: merging, record
/// normalization, deduplication, grouping and final ordering.
pub struct ExcelProcessor;

/// How many leading columns make up the deduplication key. A narrower
/// batch uses all of its columns.
pub const DEDUP_KEY_COLUMNS: usize = 7;

/// A cell after normalization: absent when its trimmed text is empty,
/// otherwise the trimmed text.
pub open spec fn normalized_cell(s: Seq<char>) -> Option<Seq<char>> {
    if trim_spec(s).len() == 0 {
        None
    } else {
        Some(trim_spec(s))
    }
}

/// A row after normalization: the first `ncols` cells trimmed, with cells
/// beyond the row's length skipped.
pub open spec fn normalized_row(row: Seq<Seq<char>>, ncols: int) -> RecView {
    Seq::new(
        if row.len() <= ncols {
            row.len()
        } else {
            ncols as nat
        },
        |j: int| normalized_cell(row[j]),
    )
}

/// The number of columns of a batch: the first row's length.
pub open spec fn batch_cols(rows: Seq<Seq<Seq<char>>>) -> int {
    if rows.len() > 0 {
        rows[0].len() as int
    } else {
        0
    }
}

/// All rows of a batch, normalized.
pub open spec fn normalized_rows(rows: Seq<Seq<Seq<char>>>, ncols: int) -> Seq<RecView> {
    Seq::new(rows.len(), |i: int| normalized_row(rows[i], ncols))
}

/// The deduplication key width of a batch: the column count, capped at the
/// configured number of leading key columns.
pub open spec fn key_width_spec(ncols: int, cap: int) -> int {
    if ncols < cap {
        ncols
    } else {
        cap
    }
}

/// The ranking keys of the groups listed by `ks` over the records `rs`.
pub open spec fn group_ranks(rs: Seq<RecView>, ks: Seq<Seq<char>>, b: int, d: int) -> Seq<
    RankedKey,
> {
    Seq::new(
        ks.len(),
        |g: int|
            RankedKey {
                priority: priority_spec(classify_spec(key_part_second(ks[g]))),
                count: group_members(rs, ks[g], b, d).len() as int,
                pos: g,
            },
    )
}

proof fn lemma_sum_group_ranks(rs: Seq<RecView>, ks: Seq<Seq<char>>, b: int, d: int)
    ensures
        sum_ranks(group_ranks(rs, ks, b, d)) == sum_group_sizes(rs, ks, b, d),
    decreases ks.len(),
{
    if ks.len() > 0 {
        lemma_sum_group_ranks(rs, ks.drop_last(), b, d);
        assert(group_ranks(rs, ks, b, d).drop_last() =~= group_ranks(rs, ks.drop_last(), b, d));
        assert(group_ranks(rs, ks, b, d).last().count == group_members(
            rs,
            ks.last(),
            b,
            d,
        ).len() as int);
    }
}

impl ExcelProcessor {
    /// Turn raw rows into positional records: each of the first `ncols`
    /// cells is trimmed and an empty-after-trim cell becomes absent; cells
    /// beyond a row's length are skipped.
    pub fn normalize_rows(rows: &Vec<Vec<String>>, ncols: usize) -> (records: Vec<ExcelRecord>)
        ensures
            records.deep_view() == normalized_rows(rows.deep_view(), ncols as int),
    {
        let ghost rowsv = rows.deep_view();
        let mut records: Vec<ExcelRecord> = Vec::new();
        let n = rows.len();
        let mut i: usize = 0;
        while i < n
            invariant
                0 <= i <= n,
                n == rows@.len(),
                rowsv == rows.deep_view(),
                records.deep_view() =~= normalized_rows(rowsv, ncols as int).subrange(
                    0,
                    i as int,
                ),
            decreases n - i,
        {
            let row = &rows[i];
            let m = if row.len() <= ncols {
                row.len()
            } else {
                ncols
            };
            let mut data: Vec<Option<String>> = Vec::new();
            let mut j: usize = 0;
            while j < m
                invariant
                    0 <= j <= m,
                    m <= row@.len(),
                    data@.len() == j,
                    forall|jj: int|
                        0 <= jj < j ==> (#[trigger] data@[jj]).deep_view() == normalized_cell(
                            row@[jj]@,
                        ),
                decreases m - j,
            {
                let t = trim_str(row[j].as_str());
                if t.unicode_len() == 0 {
                    data.push(None);
                } else {
                    data.push(Some(t.to_owned()));
                }
                j = j + 1;
            }
            let rec = ExcelRecord { data };
            proof {
                assert(rowsv[i as int] == rows@[i as int].deep_view());
                assert(rec@ =~= normalized_row(rowsv[i as int], ncols as int));
                assert(records.deep_view().push(rec@) =~= normalized_rows(
                    rowsv,
                    ncols as int,
                ).subrange(0, i as int + 1));
            }
            records.push(rec);
            i = i + 1;
        }
        proof {
            assert(normalized_rows(rowsv, ncols as int).subrange(0, n as int) =~= normalized_rows(
                rowsv,
                ncols as int,
            ));
        }
        records
    }

    /// Run the whole consolidation pass over merged raw data: normalize the
    /// rows into positional records, deduplicate on the first seven columns
    /// (or fewer if the batch is narrower), group by the second and fourth
    /// columns, and order the groups by severity priority and size.
    ///
    /// The result is a function of the input rows alone, so re-running the
    /// pass on equal data yields an identical group sequence.
    pub fn process_raw_data(raw_data: RawExcelData) -> (result: ExcelProcessResult)
        ensures
            ({
                let rows = raw_data.rows.deep_view();
                let ncols = batch_cols(rows);
                let width = key_width_spec(ncols, DEDUP_KEY_COLUMNS as int);
                let deduped = dedup_spec(normalized_rows(rows, ncols), width);
                let ks = group_keys(deduped, 1, 3);
                let sorted = sort_ranked(group_ranks(deduped, ks, 1, 3));
                &&& result.total_records == deduped.len()
                &&& result.total_groups == result.grouped_data@.len()
                &&& result.grouped_data@.len() == ks.len()
                &&& result_wf(result)
                &&& forall|i: int|
                    0 <= i < result.grouped_data@.len() ==> {
                        let p = sorted[i].pos;
                        &&& 0 <= p < ks.len()
                        &&& (#[trigger] result.grouped_data@[i]).0@ == ks[p]
                        &&& result.grouped_data@[i].1.b_column@ == key_part_first(ks[p])
                        &&& result.grouped_data@[i].1.d_column@ == key_part_second(ks[p])
                        &&& result.grouped_data@[i].1.record_count == group_members(
                            deduped,
                            ks[p],
                            1,
                            3,
                        ).len()
                        &&& result.grouped_data@[i].1.records.deep_view() == group_members(
                            deduped,
                            ks[p],
                            1,
                            3,
                        )
                    }
            }),
    {
        let rows = raw_data.rows;
        let ncols = if rows.len() > 0 {
            rows[0].len()
        } else {
            0
        };
        proof {
            if rows@.len() > 0 {
                assert(rows.deep_view()[0] == rows@[0].deep_view());
            }
            assert(batch_cols(rows.deep_view()) == ncols as int);
        }
        let records = Self::normalize_rows(&rows, ncols);
        let width = if ncols < DEDUP_KEY_COLUMNS {
            ncols
        } else {
            DEDUP_KEY_COLUMNS
        };
        let deduped = Self::deduplicate_records(&records, width);
        let ghost dv = deduped.deep_view();
        let total = deduped.len();
        let grouped = Self::group_data_by_columns(&deduped, 1, 3);
        let ghost ks = group_keys(dv, 1, 3);
        let ghost gv = grouped@;
        proof {
            assert forall|g: int| 0 <= g < gv.len() implies ranks_of(gv)[g] == group_ranks(
                dv,
                ks,
                1,
                3,
            )[g] by {
                assert((#[trigger] gv[g]).0@ == ks[g]);
                assert(gv[g].1.deep_view() == group_members(dv, ks[g], 1, 3));
                assert(gv[g].1@.len() == gv[g].1.deep_view().len());
            }
            assert(ranks_of(gv) =~= group_ranks(dv, ks, 1, 3));
        }
        let result = Self::create_structured_result(grouped, total);
        proof {
            lemma_groups_partition(dv, 1, 3);
            lemma_sum_group_ranks(dv, ks, 1, 3);
            crate::order::lemma_sort_sum(group_ranks(dv, ks, 1, 3));
            assert(crate::models::sum_counts(result.grouped_data@) == dv.len());
            assert forall|i: int| 0 <= i < result.grouped_data@.len() implies (
            #[trigger] result.grouped_data@[i]).1.record_count
                == result.grouped_data@[i].1.records@.len() by {
                let sorted = sort_ranked(ranks_of(gv));
                let p = sorted[i].pos;
                assert(result.grouped_data@[i].1.records.deep_view() == gv[p].1.deep_view());
                assert(result.grouped_data@[i].1.records.deep_view().len()
                    == result.grouped_data@[i].1.records@.len());
            }
            assert(gv.len() == ks.len());
            assert forall|i: int|
                0 <= i < result.grouped_data@.len() implies 0 <= (#[trigger] sort_ranked(
                group_ranks(dv, ks, 1, 3),
            )[i]).pos < ks.len() by {
                assert((#[trigger] result.grouped_data@[i]).0@ == gv[sort_ranked(
                    ranks_of(gv),
                )[i].pos].0@);
                assert(sort_ranked(group_ranks(dv, ks, 1, 3)) == sort_ranked(ranks_of(gv)));
            }
        }
        result
    }
}

} // verus!

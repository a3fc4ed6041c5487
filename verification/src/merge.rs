//! Merging of several source tables under one validated header shape.
//!
//! The first source's header sequence is the reference. Merging fails when
//! the source list is empty, when a source has no data rows, or when a
//! source's headers differ from the reference in count or in trimmed text at
//! some column; the error names the offending source and the conflict.

use vstd::prelude::*;

use crate::processor::ExcelProcessor;
use crate::text::str_eq;
use crate::text::trim_spec;
use crate::text::trim_str;

verus! {

/// Raw data of one source table: the header row and the data rows.
#[derive(Debug, Clone)]
pub struct RawExcelData {
    pub headers: Vec<String>,
    pub rows: Vec<Vec<String>>,
}

/// A header-shape or source-list violation found while merging. Source
/// positions are 0-based; `column` is 1-based.
#[derive(Debug, Clone)]
pub enum ValidationError {
    /// The source list was empty.
    NoSources,
    /// The source at this position has no data rows.
    EmptySource { source: usize },
    /// The source at this position has a different number of header columns
    /// than the first source.
    HeaderCountMismatch { source: usize, expected: usize, found: usize },
    /// The source at this position disagrees with the first source on the
    /// trimmed header text of the given 1-based column; `expected` is the
    /// first source's untrimmed header, `found` the offending source's.
    HeaderValueMismatch { source: usize, column: usize, expected: String, found: String },
}

/// The abstract headers of a table: one character sequence per column.
pub open spec fn table_headers(t: RawExcelData) -> Seq<Seq<char>> {
    t.headers.deep_view()
}

/// The abstract data rows of a table.
pub open spec fn table_rows(t: RawExcelData) -> Seq<Seq<Seq<char>>> {
    t.rows.deep_view()
}

/// Two header sequences agree: same column count and, per column, equal
/// trimmed text.
pub open spec fn headers_agree(reference: Seq<Seq<char>>, h: Seq<Seq<char>>) -> bool {
    &&& h.len() == reference.len()
    &&& forall|i: int| 0 <= i < h.len() ==> trim_spec(h[i]) == trim_spec(reference[i])
}

/// The source at position `k` passes validation: it has data rows and its
/// headers agree with the first source's.
pub open spec fn source_clean(ts: Seq<RawExcelData>, k: int) -> bool {
    &&& table_rows(ts[k]).len() > 0
    &&& headers_agree(table_headers(ts[0]), table_headers(ts[k]))
}

/// Every source before position `i` passes validation.
pub open spec fn clean_before(ts: Seq<RawExcelData>, i: int) -> bool {
    forall|k: int| 0 <= k < i ==> source_clean(ts, k)
}

/// The whole source list merges successfully.
pub open spec fn merge_ok(ts: Seq<RawExcelData>) -> bool {
    ts.len() > 0 && clean_before(ts, ts.len() as int)
}

/// All data rows of all sources, in source order then in-source order.
pub open spec fn concat_rows(ts: Seq<RawExcelData>) -> Seq<Seq<Seq<char>>>
    decreases ts.len(),
{
    if ts.len() == 0 {
        Seq::empty()
    } else {
        concat_rows(ts.drop_last()) + table_rows(ts.last())
    }
}

/// Header validation is associative over the source list: a list extended by
/// one source merges iff the list merges and the new source, validated
/// directly against the first source's header, passes.
pub proof fn lemma_merge_validation_associative(ts: Seq<RawExcelData>, t: RawExcelData)
    requires
        ts.len() >= 1,
    ensures
        merge_ok(ts.push(t)) <==> (merge_ok(ts) && table_rows(t).len() > 0 && headers_agree(
            table_headers(ts[0]),
            table_headers(t),
        )),
{
    let e = ts.push(t);
    assert(e[0] == ts[0]);
    assert(e[ts.len() as int] == t);
    if merge_ok(ts) && table_rows(t).len() > 0 && headers_agree(
        table_headers(ts[0]),
        table_headers(t),
    ) {
        assert forall|k: int| 0 <= k < e.len() implies source_clean(e, k) by {
            if k < ts.len() {
                assert(source_clean(ts, k));
                assert(e[k] == ts[k]);
            }
        }
    }
    if merge_ok(e) {
        assert forall|k: int| 0 <= k < ts.len() implies source_clean(ts, k) by {
            assert(source_clean(e, k));
            assert(e[k] == ts[k]);
        }
        assert(source_clean(e, ts.len() as int));
    }
}

/// Copy a row of cells, preserving its abstract content.
pub fn clone_row(row: &Vec<String>) -> (c: Vec<String>)
    ensures
        c.deep_view() == row.deep_view(),
{
    let mut c: Vec<String> = Vec::new();
    let n = row.len();
    let mut i: usize = 0;
    while i < n
        invariant
            0 <= i <= n,
            n == row@.len(),
            c@.len() == i,
            forall|j: int| 0 <= j < i ==> c@[j]@ == row@[j]@,
        decreases n - i,
    {
        c.push(row[i].clone());
        i = i + 1;
    }
    proof {
        assert(c.deep_view() =~= row.deep_view());
    }
    c
}

/// Copy a sequence of rows, preserving its abstract content.
pub fn clone_rows(rows: &Vec<Vec<String>>) -> (c: Vec<Vec<String>>)
    ensures
        c.deep_view() == rows.deep_view(),
{
    let mut c: Vec<Vec<String>> = Vec::new();
    let n = rows.len();
    let mut i: usize = 0;
    while i < n
        invariant
            0 <= i <= n,
            n == rows@.len(),
            c@.len() == i,
            forall|j: int| 0 <= j < i ==> c@[j].deep_view() == rows@[j].deep_view(),
        decreases n - i,
    {
        c.push(clone_row(&rows[i]));
        i = i + 1;
    }
    proof {
        assert(c.deep_view() =~= rows.deep_view());
    }
    c
}

impl ExcelProcessor {
    /// Merge the raw data of several sources after validating that all of
    /// them share the first source's header shape. On success the merged
    /// table carries the first source's headers and all sources' data rows
    /// in source order; otherwise the error names the first violation found,
    /// checking each source's non-emptiness and then its headers, in source
    /// order.
    pub fn merge_excel_files(sources: &Vec<RawExcelData>) -> (r: Result<
        RawExcelData,
        ValidationError,
    >)
        ensures
            r is Ok <==> merge_ok(sources@),
            match r {
                Ok(t) => {
                    &&& table_headers(t) == table_headers(sources@[0])
                    &&& table_rows(t) == concat_rows(sources@)
                },
                Err(e) => match e {
                    ValidationError::NoSources => sources@.len() == 0,
                    ValidationError::EmptySource { source } => {
                        &&& 0 <= (source as int) < sources@.len()
                        &&& clean_before(sources@, source as int)
                        &&& table_rows(sources@[source as int]).len() == 0
                    },
                    ValidationError::HeaderCountMismatch { source, expected, found } => {
                        &&& 1 <= (source as int) < sources@.len()
                        &&& clean_before(sources@, source as int)
                        &&& table_rows(sources@[source as int]).len() > 0
                        &&& expected == table_headers(sources@[0]).len()
                        &&& found == table_headers(sources@[source as int]).len()
                        &&& expected != found
                    },
                    ValidationError::HeaderValueMismatch { source, column, expected, found } => {
                        &&& 1 <= (source as int) < sources@.len()
                        &&& clean_before(sources@, source as int)
                        &&& table_rows(sources@[source as int]).len() > 0
                        &&& table_headers(sources@[source as int]).len() == table_headers(
                            sources@[0],
                        ).len()
                        &&& 1 <= (column as int) <= table_headers(sources@[0]).len()
                        &&& forall|m: int| 0 <= m < column - 1 ==> trim_spec(
                            table_headers(sources@[source as int])[m],
                        ) == trim_spec(table_headers(sources@[0])[m])
                        &&& trim_spec(table_headers(sources@[source as int])[column - 1])
                            != trim_spec(table_headers(sources@[0])[column - 1])
                        &&& expected@ == table_headers(sources@[0])[column - 1]
                        &&& found@ == table_headers(sources@[source as int])[column - 1]
                    },
                },
            },
    {
        let n = sources.len();
        if n == 0 {
            return Err(ValidationError::NoSources);
        }
        let mut s: usize = 0;
        while s < n
            invariant
                0 <= s <= n,
                n == sources@.len(),
                clean_before(sources@, s as int),
            decreases n - s,
        {
            if sources[s].rows.len() == 0 {
                assert(!merge_ok(sources@)) by {
                    assert(!source_clean(sources@, s as int));
                }
                return Err(ValidationError::EmptySource { source: s });
            }
            if s >= 1 {
                let hn = sources[s].headers.len();
                let h0 = sources[0].headers.len();
                if hn != h0 {
                    assert(!merge_ok(sources@)) by {
                        assert(!source_clean(sources@, s as int));
                    }
                    return Err(ValidationError::HeaderCountMismatch {
                        source: s,
                        expected: h0,
                        found: hn,
                    });
                }
                let mut c: usize = 0;
                while c < hn
                    invariant
                        0 <= c <= hn,
                        1 <= s < n,
                        n == sources@.len(),
                        clean_before(sources@, s as int),
                        table_rows(sources@[s as int]).len() > 0,
                        hn == table_headers(sources@[s as int]).len(),
                        hn == table_headers(sources@[0]).len(),
                        forall|m: int| 0 <= m < c ==> trim_spec(
                            table_headers(sources@[s as int])[m],
                        ) == trim_spec(table_headers(sources@[0])[m]),
                    decreases hn - c,
                {
                    let cur = trim_str(sources[s].headers[c].as_str());
                    let refh = trim_str(sources[0].headers[c].as_str());
                    proof {
                        assert(table_headers(sources@[s as int])[c as int] == sources@[s as int].headers@[c as int]@);
                        assert(table_headers(sources@[0])[c as int] == sources@[0].headers@[c as int]@);
                    }
                    if !str_eq(cur, refh) {
                        assert(!merge_ok(sources@)) by {
                            assert(!headers_agree(
                                table_headers(sources@[0]),
                                table_headers(sources@[s as int]),
                            ));
                            assert(!source_clean(sources@, s as int));
                        }
                        return Err(ValidationError::HeaderValueMismatch {
                            source: s,
                            column: c + 1,
                            expected: sources[0].headers[c].clone(),
                            found: sources[s].headers[c].clone(),
                        });
                    }
                    c = c + 1;
                }
            }
            assert(source_clean(sources@, s as int)) by {
                if s >= 1 {
                    assert(headers_agree(
                        table_headers(sources@[0]),
                        table_headers(sources@[s as int]),
                    ));
                } else {
                    assert(headers_agree(
                        table_headers(sources@[0]),
                        table_headers(sources@[0]),
                    ));
                }
            }
            assert(clean_before(sources@, s as int + 1));
            s = s + 1;
        }
        let headers = clone_row(&sources[0].headers);
        let mut rows: Vec<Vec<String>> = Vec::new();
        let mut s: usize = 0;
        while s < n
            invariant
                0 <= s <= n,
                n == sources@.len(),
                rows.deep_view() == concat_rows(sources@.subrange(0, s as int)),
            decreases n - s,
        {
            let mut part = clone_rows(&sources[s].rows);
            rows.append(&mut part);
            proof {
                let pre = sources@.subrange(0, s as int);
                let post = sources@.subrange(0, s as int + 1);
                assert(post.drop_last() =~= pre);
                assert(post.last() == sources@[s as int]);
                assert(rows.deep_view() =~= concat_rows(post));
            }
            s = s + 1;
        }
        proof {
            assert(sources@.subrange(0, n as int) =~= sources@);
        }
        Ok(RawExcelData { headers, rows })
    }
}

} // verus!

//! Record-level operations: copying, positional column access, and the
//! composite keys used for deduplication and grouping.
//!
//! A composite key joins selected column values with the pipe separator in
//! column order; an absent cell contributes the empty string.

use vstd::prelude::*;

use crate::models::ExcelRecord;

verus! {

/// The abstract content of one record: per column, the cell text or `None`.
pub type RecView = Seq<Option<Seq<char>>>;

/// The text of column `i` of a record, with an absent or out-of-range cell
/// reading as the empty string.
pub open spec fn col_text(r: RecView, i: int) -> Seq<char> {
    if 0 <= i < r.len() {
        match r[i] {
            Some(s) => s,
            None => Seq::empty(),
        }
    } else {
        Seq::empty()
    }
}

/// The composite key over the first `width` columns: the column texts joined
/// with the pipe separator.
pub open spec fn key_prefix(r: RecView, width: int) -> Seq<char>
    decreases width,
{
    if width <= 0 {
        Seq::empty()
    } else if width == 1 {
        col_text(r, 0)
    } else {
        key_prefix(r, width - 1) + "|"@ + col_text(r, width - 1)
    }
}

/// The grouping key: problem column text and severity column text joined
/// with the pipe separator.
pub open spec fn group_key_spec(r: RecView, problem_col: int, severity_col: int) -> Seq<char> {
    col_text(r, problem_col) + "|"@ + col_text(r, severity_col)
}

/// Copy one cell.
pub fn clone_cell(c: &Option<String>) -> (r: Option<String>)
    ensures
        r.deep_view() == c.deep_view(),
{
    match c {
        None => None,
        Some(s) => Some(s.clone()),
    }
}

/// Copy one record, preserving its abstract content.
pub fn clone_record(r: &ExcelRecord) -> (c: ExcelRecord)
    ensures
        c@ == r@,
{
    let mut data: Vec<Option<String>> = Vec::new();
    let n = r.data.len();
    let mut i: usize = 0;
    while i < n
        invariant
            0 <= i <= n,
            n == r.data@.len(),
            data@.len() == i,
            forall|j: int| 0 <= j < i ==> data@[j].deep_view() == r.data@[j].deep_view(),
        decreases n - i,
    {
        data.push(clone_cell(&r.data[i]));
        i = i + 1;
    }
    let c = ExcelRecord { data };
    proof {
        assert(c@ =~= r@);
    }
    c
}

impl ExcelRecord {
    /// The value of the column at position `i`, if present.
    pub fn column_value(&self, i: usize) -> (r: Option<&String>)
        ensures
            match r {
                Some(s) => col_text(self@, i as int) == s@ && i < self@.len()
                    && self@[i as int] == Some(s@),
                None => col_text(self@, i as int) == Seq::<char>::empty(),
            },
    {
        if i < self.data.len() {
            match &self.data[i] {
                Some(s) => Some(s),
                None => None,
            }
        } else {
            None
        }
    }
}

/// Build the composite deduplication key of a record over the first `width`
/// columns.
pub fn build_key(r: &ExcelRecord, width: usize) -> (k: String)
    ensures
        k@ == key_prefix(r@, width as int),
{
    let mut k = String::new();
    let mut i: usize = 0;
    while i < width
        invariant
            0 <= i <= width,
            k@ == key_prefix(r@, i as int),
        decreases width - i,
    {
        if i > 0 {
            k.append("|");
        }
        match r.column_value(i) {
            Some(s) => k.append(s.as_str()),
            None => {},
        }
        proof {
            assert(k@ =~= key_prefix(r@, i as int + 1));
        }
        i = i + 1;
    }
    k
}

/// Build the grouping key of a record from the problem column and the
/// severity column.
pub fn build_group_key(r: &ExcelRecord, problem_col: usize, severity_col: usize) -> (k: String)
    ensures
        k@ == group_key_spec(r@, problem_col as int, severity_col as int),
{
    let mut k = String::new();
    match r.column_value(problem_col) {
        Some(s) => k.append(s.as_str()),
        None => {},
    }
    k.append("|");
    match r.column_value(severity_col) {
        Some(s) => k.append(s.as_str()),
        None => {},
    }
    proof {
        assert(k@ =~= group_key_spec(r@, problem_col as int, severity_col as int));
    }
    k
}

/// The position of the first pipe separator at or after `from`, or the length
/// of the sequence if there is none.
pub open spec fn find_sep(s: Seq<char>, from: int) -> int
    decreases s.len() - from,
{
    if from < 0 {
        find_sep(s, 0)
    } else if from >= s.len() {
        s.len() as int
    } else if s[from] == '|' {
        from
    } else {
        find_sep(s, from + 1)
    }
}

/// The first pipe-separated part of a composite key.
pub open spec fn key_part_first(s: Seq<char>) -> Seq<char> {
    s.subrange(0, find_sep(s, 0))
}

/// The second pipe-separated part of a composite key, or the empty string if
/// the key has a single part.
pub open spec fn key_part_second(s: Seq<char>) -> Seq<char> {
    let i = find_sep(s, 0);
    if i == s.len() {
        Seq::empty()
    } else {
        s.subrange(i + 1, find_sep(s, i + 1))
    }
}

/// The sequence contains no pipe separator.
pub open spec fn pipe_free(s: Seq<char>) -> bool {
    forall|m: int| 0 <= m < s.len() ==> s[m] != '|'
}

/// Splitting a grouping key recovers the two column texts it was built
/// from, provided neither text contains the pipe separator itself.
pub proof fn lemma_group_key_round_trip(r: RecView, b: int, d: int)
    requires
        pipe_free(col_text(r, b)),
        pipe_free(col_text(r, d)),
    ensures
        key_part_first(group_key_spec(r, b, d)) == col_text(r, b),
        key_part_second(group_key_spec(r, b, d)) == col_text(r, d),
{
    reveal_strlit("|");
    let a = col_text(r, b);
    let c = col_text(r, d);
    let s = group_key_spec(r, b, d);
    assert(s.len() == a.len() + 1 + c.len());
    assert(s[a.len() as int] == '|');
    assert forall|m: int| 0 <= m < a.len() implies s[m] != '|' by {
        assert(s[m] == a[m]);
    }
    lemma_find_sep_at(s, 0, a.len() as int);
    assert(s.subrange(0, a.len() as int) =~= a);
    assert forall|m: int| a.len() + 1 <= m < s.len() implies s[m] != '|' by {
        assert(s[m] == c[m - a.len() - 1]);
    }
    lemma_find_sep_at(s, a.len() as int + 1, s.len() as int);
    assert(s.subrange(a.len() as int + 1, s.len() as int) =~= c);
}

proof fn lemma_find_sep_at(s: Seq<char>, from: int, i: int)
    requires
        0 <= from <= i <= s.len(),
        forall|m: int| from <= m < i ==> s[m] != '|',
        i < s.len() ==> s[i] == '|',
    ensures
        find_sep(s, from) == i,
    decreases i - from,
{
    if from < i {
        lemma_find_sep_at(s, from + 1, i);
    }
}

/// Scan for the first pipe separator at or after `from`.
fn scan_sep(s: &str, from: usize) -> (i: usize)
    requires
        from <= s@.len(),
    ensures
        i as int == find_sep(s@, from as int),
        from <= i <= s@.len(),
{
    let len = s.unicode_len();
    let mut i: usize = from;
    while i < len && s.get_char(i) != '|'
        invariant
            from <= i <= len,
            len == s@.len(),
            forall|m: int| from <= m < i ==> s@[m] != '|',
        decreases len - i,
    {
        i = i + 1;
    }
    proof {
        lemma_find_sep_at(s@, from as int, i as int);
    }
    i
}

/// Split a composite key back into its first two pipe-separated parts, as the
/// group orderer does to recover problem name and severity text.
pub fn split_group_key(s: &str) -> (parts: (String, String))
    ensures
        parts.0@ == key_part_first(s@),
        parts.1@ == key_part_second(s@),
{
    let len = s.unicode_len();
    let i = scan_sep(s, 0);
    let first = s.substring_char(0, i).to_owned();
    let second = if i == len {
        String::new()
    } else {
        let j = scan_sep(s, i + 1);
        s.substring_char(i + 1, j).to_owned()
    };
    proof {
        assert(second@ =~= key_part_second(s@));
    }
    (first, second)
}

} // verus!

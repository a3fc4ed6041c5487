//! Deduplication: drop every record whose composite key over the leading key
//! columns was already seen, keeping the first occurrence and the first-seen
//! order.

use vstd::prelude::*;

use crate::models::ExcelRecord;
use crate::processor::ExcelProcessor;
use crate::record::RecView;
use crate::record::build_key;
use crate::record::clone_record;
use crate::record::key_prefix;
use crate::text::find_string;

verus! {

/// The last record of `rs` shares its composite key with an earlier record.
pub open spec fn dup_of_earlier(rs: Seq<RecView>, width: int) -> bool {
    exists|j: int|
        0 <= j < rs.len() - 1 && key_prefix(rs[j], width) == key_prefix(rs.last(), width)
}

/// First-occurrence filter: of all records sharing one composite key, only
/// the earliest stays; retained records keep their relative order.
pub open spec fn dedup_spec(rs: Seq<RecView>, width: int) -> Seq<RecView>
    decreases rs.len(),
{
    if rs.len() == 0 {
        Seq::empty()
    } else if dup_of_earlier(rs, width) {
        dedup_spec(rs.drop_last(), width)
    } else {
        dedup_spec(rs.drop_last(), width).push(rs.last())
    }
}

/// No two records of `rs` share a composite key.
pub open spec fn keys_distinct(rs: Seq<RecView>, width: int) -> bool {
    forall|i: int, j: int|
        0 <= i < j < rs.len() ==> key_prefix(rs[i], width) != key_prefix(rs[j], width)
}

/// Every retained record is one of the input records.
proof fn lemma_dedup_elements(rs: Seq<RecView>, width: int)
    ensures
        forall|m: int|
            0 <= m < dedup_spec(rs, width).len() ==> exists|j: int|
                0 <= j < rs.len() && rs[j] == #[trigger] dedup_spec(rs, width)[m],
    decreases rs.len(),
{
    if rs.len() > 0 {
        lemma_dedup_elements(rs.drop_last(), width);
        let prev = dedup_spec(rs.drop_last(), width);
        let out = dedup_spec(rs, width);
        assert forall|m: int| 0 <= m < out.len() implies exists|j: int|
            0 <= j < rs.len() && rs[j] == #[trigger] out[m] by {
            if m < prev.len() {
                assert(out[m] == prev[m]);
                assert(exists|j: int|
                    0 <= j < rs.drop_last().len() && rs.drop_last()[j] == prev[m]);
                let j2 = choose|j: int|
                    0 <= j < rs.drop_last().len() && rs.drop_last()[j] == prev[m];
                assert(rs[j2] == out[m]);
            } else {
                assert(out[m] == rs.last());
                assert(rs[rs.len() - 1] == out[m]);
            }
        }
    }
}

/// Deduplication leaves no two records with one key.
pub proof fn lemma_dedup_distinct(rs: Seq<RecView>, width: int)
    ensures
        keys_distinct(dedup_spec(rs, width), width),
    decreases rs.len(),
{
    if rs.len() > 0 {
        lemma_dedup_distinct(rs.drop_last(), width);
        if !dup_of_earlier(rs, width) {
            let prev = dedup_spec(rs.drop_last(), width);
            let out = dedup_spec(rs, width);
            lemma_dedup_elements(rs.drop_last(), width);
            assert forall|i: int, j: int| 0 <= i < j < out.len() implies key_prefix(out[i], width)
                != key_prefix(out[j], width) by {
                if j == out.len() - 1 {
                    assert(exists|m: int|
                        0 <= m < rs.drop_last().len() && rs.drop_last()[m] == prev[i]);
                    let m = choose|m: int|
                        0 <= m < rs.drop_last().len() && rs.drop_last()[m] == prev[i];
                    assert(rs[m] == out[i]);
                    assert(key_prefix(rs[m], width) != key_prefix(rs.last(), width));
                }
            }
        }
    }
}

/// Every input record's composite key appears among the retained records'
/// keys.
proof fn lemma_dedup_keys_complete(rs: Seq<RecView>, width: int)
    ensures
        forall|j: int|
            0 <= j < rs.len() ==> exists|m: int|
                0 <= m < dedup_spec(rs, width).len() && key_prefix(
                    dedup_spec(rs, width)[m],
                    width,
                ) == #[trigger] key_prefix(rs[j], width),
    decreases rs.len(),
{
    if rs.len() > 0 {
        lemma_dedup_keys_complete(rs.drop_last(), width);
        let prev = dedup_spec(rs.drop_last(), width);
        let out = dedup_spec(rs, width);
        assert forall|j: int| 0 <= j < rs.len() implies exists|m: int|
            0 <= m < out.len() && key_prefix(out[m], width) == #[trigger] key_prefix(
                rs[j],
                width,
            ) by {
            if dup_of_earlier(rs, width) {
                if j == rs.len() - 1 {
                    let j2 = choose|j2: int|
                        0 <= j2 < rs.len() - 1 && key_prefix(rs[j2], width) == key_prefix(
                            rs.last(),
                            width,
                        );
                    assert(rs.drop_last()[j2] == rs[j2]);
                    let m = choose|m: int|
                        0 <= m < prev.len() && key_prefix(prev[m], width) == key_prefix(
                            rs.drop_last()[j2],
                            width,
                        );
                    assert(key_prefix(out[m], width) == key_prefix(rs[j], width));
                } else {
                    assert(rs.drop_last()[j] == rs[j]);
                    let m = choose|m: int|
                        0 <= m < prev.len() && key_prefix(prev[m], width) == key_prefix(
                            rs.drop_last()[j],
                            width,
                        );
                    assert(key_prefix(out[m], width) == key_prefix(rs[j], width));
                }
            } else {
                if j == rs.len() - 1 {
                    assert(out[out.len() - 1] == rs.last());
                } else {
                    assert(rs.drop_last()[j] == rs[j]);
                    let m = choose|m: int|
                        0 <= m < prev.len() && key_prefix(prev[m], width) == key_prefix(
                            rs.drop_last()[j],
                            width,
                        );
                    assert(out[m] == prev[m]);
                    assert(key_prefix(out[m], width) == key_prefix(rs[j], width));
                }
            }
        }
    }
}

/// Deduplicating an already key-distinct sequence changes nothing.
proof fn lemma_dedup_of_distinct(rs: Seq<RecView>, width: int)
    requires
        keys_distinct(rs, width),
    ensures
        dedup_spec(rs, width) == rs,
    decreases rs.len(),
{
    if rs.len() > 0 {
        assert(keys_distinct(rs.drop_last(), width));
        lemma_dedup_of_distinct(rs.drop_last(), width);
        assert(!dup_of_earlier(rs, width));
        assert(rs.drop_last().push(rs.last()) =~= rs);
    } else {
        assert(dedup_spec(rs, width) =~= rs);
    }
}

/// Deduplication is idempotent: deduplicating its own output again yields
/// the same output.
pub proof fn lemma_dedup_idempotent(rs: Seq<RecView>, width: int)
    ensures
        dedup_spec(dedup_spec(rs, width), width) == dedup_spec(rs, width),
{
    lemma_dedup_distinct(rs, width);
    lemma_dedup_of_distinct(dedup_spec(rs, width), width);
}

impl ExcelProcessor {
    /// Drop all but the first record of every composite key over the first
    /// `key_width` columns, keeping first-seen order.
    #[verifier::rlimit(50)]
    pub fn deduplicate_records(records: &Vec<ExcelRecord>, key_width: usize) -> (out: Vec<
        ExcelRecord,
    >)
        ensures
            out.deep_view() == dedup_spec(records.deep_view(), key_width as int),
    {
        let ghost rv = records.deep_view();
        let mut seen: Vec<String> = Vec::new();
        let mut out: Vec<ExcelRecord> = Vec::new();
        let n = records.len();
        let mut i: usize = 0;
        while i < n
            invariant
                0 <= i <= n,
                n == records@.len(),
                rv == records.deep_view(),
                out.deep_view() == dedup_spec(rv.subrange(0, i as int), key_width as int),
                seen@.len() == out.deep_view().len(),
                forall|m: int|
                    0 <= m < seen@.len() ==> seen@[m]@ == key_prefix(
                        #[trigger] out.deep_view()[m],
                        key_width as int,
                    ),
            decreases n - i,
        {
            let key = build_key(&records[i], key_width);
            proof {
                assert(rv[i as int] == records@[i as int]@);
            }
            let found = find_string(&seen, &key);
            proof {
                let pre = rv.subrange(0, i as int);
                let post = rv.subrange(0, i as int + 1);
                assert(post.drop_last() =~= pre);
                assert(post.last() == rv[i as int]);
                assert(forall|j: int| 0 <= j <= i ==> post[j] == rv[j]);
                let outv = out.deep_view();
                if found is Some {
                    let m = found->Some_0 as int;
                    assert(key_prefix(outv[m], key_width as int) == key_prefix(
                        rv[i as int],
                        key_width as int,
                    ));
                    lemma_dedup_elements(pre, key_width as int);
                    let j = choose|j: int| 0 <= j < pre.len() && pre[j] == outv[m];
                    assert(key_prefix(post[j], key_width as int) == key_prefix(
                        post.last(),
                        key_width as int,
                    ));
                    assert(dup_of_earlier(post, key_width as int));
                } else {
                    if dup_of_earlier(post, key_width as int) {
                        let j = choose|j: int|
                            0 <= j < post.len() - 1 && key_prefix(post[j], key_width as int)
                                == key_prefix(post.last(), key_width as int);
                        lemma_dedup_keys_complete(pre, key_width as int);
                        assert(key_prefix(pre[j], key_width as int) == key_prefix(
                            rv[i as int],
                            key_width as int,
                        ));
                        let m = choose|m: int|
                            0 <= m < outv.len() && key_prefix(outv[m], key_width as int)
                                == key_prefix(pre[j], key_width as int);
                        assert(seen@[m]@ == key@);
                        assert(false);
                    }
                }
            }
            match found {
                Some(_) => {},
                None => {
                    let ghost old_out = out.deep_view();
                    seen.push(key);
                    out.push(clone_record(&records[i]));
                    proof {
                        assert(out.deep_view() =~= old_out.push(rv[i as int]));
                    }
                },
            }
            i = i + 1;
        }
        proof {
            assert(rv.subrange(0, n as int) =~= rv);
        }
        out
    }
}

} // verus!

//! The record model and the filter semantics.
//!
//! A record is one knowledge unit: a description, ordered entry lines, and
//! a tag set.  Both record representations of this crate (the JSON-backed
//! and the TOML-backed one) share this mathematical model, so the filter
//! engine and its laws are stated once, here.

use crate::text::contains_seq;
use vstd::prelude::*;

verus! {

/// The mathematical model of a record: a description, the ordered entry
/// lines, and the tags in display order.
pub ghost struct RecordView {
    pub description: Seq<char>,
    pub data: Seq<Seq<char>>,
    pub tags: Seq<Seq<char>>,
}

/// The filter predicate for one record.  The two filter axes are
/// independently optional (an empty string means "no filter on this axis")
/// and combine with logical AND:
/// - a non-empty `search` keeps a record only if its description contains
///   `search` as a literal, case-sensitive substring;
/// - a non-empty `filter` keeps a record only if `filter` is exactly one
///   of its tags.
/// Only the description is searched; entry lines never are.
pub open spec fn keeps(r: RecordView, search: Seq<char>, filter: Seq<char>) -> bool {
    &&& (search.len() == 0 || contains_seq(r.description, search))
    &&& (filter.len() == 0 || r.tags.contains(filter))
}

/// The subsequence of `rs` whose records satisfy [`keeps`], in unchanged
/// order.
pub open spec fn filter_records(rs: Seq<RecordView>, search: Seq<char>, filter: Seq<char>) -> Seq<
    RecordView,
>
    decreases rs.len(),
{
    if rs.len() == 0 {
        Seq::empty()
    } else if keeps(rs[0], search, filter) {
        seq![rs[0]] + filter_records(rs.drop_first(), search, filter)
    } else {
        filter_records(rs.drop_first(), search, filter)
    }
}

/// Filtering a list extended by one record filters the extension alone.
pub proof fn lemma_filter_records_push(
    rs: Seq<RecordView>,
    search: Seq<char>,
    filter: Seq<char>,
    r: RecordView,
)
    ensures
        filter_records(rs.push(r), search, filter) == if keeps(r, search, filter) {
            filter_records(rs, search, filter).push(r)
        } else {
            filter_records(rs, search, filter)
        },
    decreases rs.len(),
{
    if rs.len() == 0 {
        let single = rs.push(r);
        assert(single[0] == r);
        assert(single.drop_first() =~= Seq::<RecordView>::empty());
        assert(filter_records(single.drop_first(), search, filter) == Seq::<RecordView>::empty());
        assert(filter_records(rs, search, filter) == Seq::<RecordView>::empty());
        if keeps(r, search, filter) {
            assert(filter_records(single, search, filter) == seq![r]
                + Seq::<RecordView>::empty());
            assert(seq![r] + Seq::<RecordView>::empty() =~= filter_records(
                rs,
                search,
                filter,
            ).push(r));
        }
    } else {
        let tail = rs.drop_first();
        assert(rs.push(r)[0] == rs[0]);
        assert(rs.push(r).drop_first() =~= tail.push(r));
        lemma_filter_records_push(tail, search, filter, r);
        if keeps(rs[0], search, filter) {
            assert(filter_records(rs, search, filter) == seq![rs[0]] + filter_records(
                tail,
                search,
                filter,
            ));
            assert(filter_records(rs.push(r), search, filter) == seq![rs[0]] + filter_records(
                tail.push(r),
                search,
                filter,
            ));
            if keeps(r, search, filter) {
                assert(seq![rs[0]] + filter_records(tail, search, filter).push(r) =~= (seq![rs[0]]
                    + filter_records(tail, search, filter)).push(r));
            }
        } else {
            assert(filter_records(rs, search, filter) == filter_records(tail, search, filter));
            assert(filter_records(rs.push(r), search, filter) == filter_records(
                tail.push(r),
                search,
                filter,
            ));
        }
    }
}

/// A record is in the filtered list exactly when it is in the input and
/// satisfies the AND-combination of the two filter axes.
pub proof fn lemma_filter_records_membership(
    rs: Seq<RecordView>,
    search: Seq<char>,
    filter: Seq<char>,
    r: RecordView,
)
    ensures
        filter_records(rs, search, filter).contains(r) <==> (rs.contains(r) && keeps(
            r,
            search,
            filter,
        )),
    decreases rs.len(),
{
    if rs.len() > 0 {
        lemma_filter_records_membership(rs.drop_first(), search, filter, r);
        assert(rs.contains(r) <==> (rs[0] == r || rs.drop_first().contains(r))) by {
            if rs.contains(r) {
                let i = choose|i: int| 0 <= i < rs.len() && rs[i] == r;
                if i > 0 {
                    assert(rs.drop_first()[i - 1] == r);
                }
            }
            if rs.drop_first().contains(r) {
                let i = choose|i: int| 0 <= i < rs.drop_first().len() && rs.drop_first()[i] == r;
                assert(rs[i + 1] == r);
            }
        }
        if keeps(rs[0], search, filter) {
            let rest = filter_records(rs.drop_first(), search, filter);
            assert(filter_records(rs, search, filter).contains(r) <==> (rs[0] == r
                || rest.contains(r))) by {
                let all = seq![rs[0]] + rest;
                if all.contains(r) {
                    let i = choose|i: int| 0 <= i < all.len() && all[i] == r;
                    if i > 0 {
                        assert(rest[i - 1] == r);
                    }
                }
                if rest.contains(r) {
                    let i = choose|i: int| 0 <= i < rest.len() && rest[i] == r;
                    assert(all[i + 1] == r);
                }
                if all[0] == r {
                    assert(all.contains(r));
                }
            }
        }
    }
}

/// Filtering keeps every record it returns, so filtering again with the
/// same criteria returns the identical list.
pub proof fn lemma_filter_records_idempotent(
    rs: Seq<RecordView>,
    search: Seq<char>,
    filter: Seq<char>,
)
    ensures
        filter_records(filter_records(rs, search, filter), search, filter) == filter_records(
            rs,
            search,
            filter,
        ),
    decreases rs.len(),
{
    if rs.len() > 0 {
        lemma_filter_records_idempotent(rs.drop_first(), search, filter);
        if keeps(rs[0], search, filter) {
            let rest = filter_records(rs.drop_first(), search, filter);
            let all = seq![rs[0]] + rest;
            assert(all.len() > 0 && all[0] == rs[0]);
            assert(all.drop_first() =~= rest);
            assert(filter_records(all, search, filter) == seq![rs[0]] + filter_records(
                rest,
                search,
                filter,
            ));
        }
    }
}

/// `a` is an order-preserving subsequence of `b`: `a` can be read off `b`
/// left to right, skipping elements but never reordering them.
pub open spec fn is_subsequence_of<T>(a: Seq<T>, b: Seq<T>) -> bool
    decreases b.len(),
{
    if a.len() == 0 {
        true
    } else if b.len() == 0 {
        false
    } else {
        (a[0] == b[0] && is_subsequence_of(a.drop_first(), b.drop_first())) || is_subsequence_of(
            a,
            b.drop_first(),
        )
    }
}

/// The filtered list is always an order-preserving subsequence of the
/// input, possibly empty.
pub proof fn lemma_filter_records_subsequence(
    rs: Seq<RecordView>,
    search: Seq<char>,
    filter: Seq<char>,
)
    ensures
        is_subsequence_of(filter_records(rs, search, filter), rs),
    decreases rs.len(),
{
    if rs.len() > 0 {
        lemma_filter_records_subsequence(rs.drop_first(), search, filter);
        if keeps(rs[0], search, filter) {
            let all = seq![rs[0]] + filter_records(rs.drop_first(), search, filter);
            assert(all[0] == rs[0]);
            assert(all.drop_first() =~= filter_records(rs.drop_first(), search, filter));
        }
    }
}

/// With both filter axes empty every record is kept: filtering is the
/// identity.
pub proof fn lemma_filter_records_no_criteria(rs: Seq<RecordView>)
    ensures
        filter_records(rs, Seq::empty(), Seq::empty()) == rs,
    decreases rs.len(),
{
    if rs.len() > 0 {
        lemma_filter_records_no_criteria(rs.drop_first());
        assert(seq![rs[0]] + rs.drop_first() =~= rs);
    }
}

} // verus!

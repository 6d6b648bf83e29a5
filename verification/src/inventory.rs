//! Topic inventory.
//!
//! A directory's inventory is the list of topic identifiers found in it:
//! one identifier per file with the recognized extension, the identifier
//! being the file name with that extension stripped.  Directory listing
//! order is platform noise, so the identifiers are sorted
//! lexicographically by character value before they are shown.

use crate::text::{extension_seq, has_extension, stem_of, stem_seq};
use vstd::prelude::*;
use vstd::seq_lib::to_multiset_insert;
use vstd::string::StrSliceExecFns;

verus! {

/// The topic identifiers among `names`: the stem of every name whose
/// extension is exactly `ext`, in the order the names come in.
pub open spec fn topic_ids_seq(names: Seq<Seq<char>>, ext: Seq<char>) -> Seq<Seq<char>>
    decreases names.len(),
{
    if names.len() == 0 {
        Seq::empty()
    } else {
        let rest = topic_ids_seq(names.drop_first(), ext);
        if extension_seq(names[0]) == Some(ext) {
            seq![stem_seq(names[0])] + rest
        } else {
            rest
        }
    }
}

/// One more name contributes its stem exactly when its extension fits.
proof fn lemma_topic_ids_push(names: Seq<Seq<char>>, ext: Seq<char>, n: Seq<char>)
    ensures
        topic_ids_seq(names.push(n), ext) == if extension_seq(n) == Some(ext) {
            topic_ids_seq(names, ext).push(stem_seq(n))
        } else {
            topic_ids_seq(names, ext)
        },
    decreases names.len(),
{
    if names.len() == 0 {
        assert(names.push(n)[0] == n);
        assert(names.push(n).drop_first() =~~= Seq::<Seq<char>>::empty());
        assert(topic_ids_seq(names.push(n).drop_first(), ext) == Seq::<Seq<char>>::empty());
        if extension_seq(n) == Some(ext) {
            assert(seq![stem_seq(n)] + Seq::<Seq<char>>::empty() =~~= topic_ids_seq(
                names,
                ext,
            ).push(stem_seq(n)));
        }
    } else {
        assert(names.push(n)[0] == names[0]);
        assert(names.push(n).drop_first() =~~= names.drop_first().push(n));
        lemma_topic_ids_push(names.drop_first(), ext, n);
        if extension_seq(names[0]) == Some(ext) && extension_seq(n) == Some(ext) {
            assert(seq![stem_seq(names[0])] + topic_ids_seq(names.drop_first(), ext).push(
                stem_seq(n),
            ) =~~= (seq![stem_seq(names[0])] + topic_ids_seq(names.drop_first(), ext)).push(
                stem_seq(n),
            ));
        }
    }
}

/// The topic identifiers among the file names, in listing order.
pub fn topic_ids(names: &Vec<String>, ext: &str) -> (ids: Vec<String>)
    ensures
        ids.deep_view() == topic_ids_seq(names.deep_view(), ext@),
{
    let mut ids: Vec<String> = Vec::new();
    let mut i: usize = 0;
    proof {
        assert(names.deep_view().take(0) =~~= Seq::<Seq<char>>::empty());
        assert(ids.deep_view() =~~= Seq::<Seq<char>>::empty());
    }
    while i < names.len()
        invariant
            i <= names.len(),
            ids.deep_view() == topic_ids_seq(names.deep_view().take(i as int), ext@),
        decreases names.len() - i,
    {
        let ghost pre = ids.deep_view();
        if has_extension(names[i].as_str(), ext) {
            let id = stem_of(names[i].as_str());
            ids.push(id);
            proof {
                assert(ids.deep_view() =~~= pre.push(stem_seq(names.deep_view()[i as int])));
            }
        }
        proof {
            lemma_topic_ids_push(names.deep_view().take(i as int), ext@, names.deep_view()[i as int]);
            assert(names.deep_view().take(i + 1) =~~= names.deep_view().take(i as int).push(
                names.deep_view()[i as int],
            ));
        }
        i += 1;
    }
    proof {
        assert(names.deep_view().take(names.len() as int) =~~= names.deep_view());
    }
    ids
}

/// `a` comes no later than `b` in lexicographic order by character value:
/// at the first differing position the smaller character decides, and a
/// proper prefix comes first.
pub open spec fn lex_le(a: Seq<char>, b: Seq<char>) -> bool
    decreases a.len(),
{
    if a.len() == 0 {
        true
    } else if b.len() == 0 {
        false
    } else if a[0] == b[0] {
        lex_le(a.drop_first(), b.drop_first())
    } else {
        a[0] < b[0]
    }
}

/// Any two strings compare one way or the other.
pub proof fn lemma_lex_total(a: Seq<char>, b: Seq<char>)
    ensures
        lex_le(a, b) || lex_le(b, a),
    decreases a.len(),
{
    if a.len() > 0 && b.len() > 0 && a[0] == b[0] {
        lemma_lex_total(a.drop_first(), b.drop_first());
    }
}

/// Lexicographic order is transitive.
pub proof fn lemma_lex_trans(a: Seq<char>, b: Seq<char>, c: Seq<char>)
    requires
        lex_le(a, b),
        lex_le(b, c),
    ensures
        lex_le(a, c),
    decreases a.len(),
{
    if a.len() > 0 && b.len() > 0 && c.len() > 0 {
        if a[0] == b[0] && b[0] == c[0] {
            lemma_lex_trans(a.drop_first(), b.drop_first(), c.drop_first());
        }
    }
}

/// Whether `a` comes no later than `b` in lexicographic order.
pub fn lex_le_str(a: &str, b: &str) -> (r: bool)
    ensures
        r == lex_le(a@, b@),
{
    let a_len = a.unicode_len();
    let b_len = b.unicode_len();
    let mut i: usize = 0;
    proof {
        assert(a@.skip(0) =~= a@);
        assert(b@.skip(0) =~= b@);
    }
    while i < a_len && i < b_len
        invariant
            a_len == a@.len(),
            b_len == b@.len(),
            i <= a_len,
            i <= b_len,
            lex_le(a@, b@) == lex_le(a@.skip(i as int), b@.skip(i as int)),
        decreases a_len - i,
    {
        let ca = a.get_char(i);
        let cb = b.get_char(i);
        proof {
            assert(a@.skip(i as int)[0] == a@[i as int]);
            assert(b@.skip(i as int)[0] == b@[i as int]);
        }
        if ca == cb {
            proof {
                assert(a@.skip(i as int).drop_first() =~= a@.skip(i + 1));
                assert(b@.skip(i as int).drop_first() =~= b@.skip(i + 1));
            }
            i += 1;
        } else {
            return ca < cb;
        }
    }
    i >= a_len
}

/// The list is in lexicographic order.
pub open spec fn sorted_lex(ids: Seq<Seq<char>>) -> bool {
    forall|i: int, j: int| 0 <= i < j < ids.len() ==> lex_le(#[trigger] ids[i], #[trigger] ids[j])
}

/// The first position whose element does not come before `x`.
fn find_insert_pos(out: &Vec<String>, x: &str) -> (p: usize)
    ensures
        p <= out.len(),
        forall|k: int| 0 <= k < p ==> lex_le(#[trigger] out.deep_view()[k], x@),
        p < out.len() ==> !lex_le(out.deep_view()[p as int], x@),
{
    let mut p: usize = 0;
    while p < out.len()
        invariant
            p <= out.len(),
            forall|k: int| 0 <= k < p ==> lex_le(#[trigger] out.deep_view()[k], x@),
        decreases out.len() - p,
    {
        if !lex_le_str(out[p].as_str(), x) {
            return p;
        }
        p += 1;
    }
    p
}

/// Insert `x` where it belongs: the list stays sorted and gains exactly
/// this element.
fn insert_sorted(out: &mut Vec<String>, x: String)
    requires
        sorted_lex(old(out).deep_view()),
    ensures
        sorted_lex(final(out).deep_view()),
        final(out).deep_view().to_multiset() == old(out).deep_view().to_multiset().insert(x@),
{
    let ghost pre = out.deep_view();
    let p = find_insert_pos(out, x.as_str());
    proof {
        if p < out.len() {
            lemma_lex_total(pre[p as int], x@);
        }
    }
    out.insert(p, x);
    proof {
        let post = out.deep_view();
        pre.insert_ensures(p as int, x@);
        assert(post =~~= pre.insert(p as int, x@));
        to_multiset_insert(pre, p as int, x@);
        assert forall|i: int, j: int| 0 <= i < j < post.len() implies lex_le(
            #[trigger] post[i],
            #[trigger] post[j],
        ) by {
            if j < p {
                assert(post[i] == pre[i] && post[j] == pre[j]);
            } else if j == p {
                assert(post[i] == pre[i]);
                assert(lex_le(pre[i], x@));
            } else if i < p {
                // p lies strictly between i and j, so i < j - 1
                assert(post[i] == pre[i] && post[j] == pre[j - 1]);
                assert(i < j - 1);
                assert(lex_le(pre[i], pre[j - 1]));
            } else if i == p {
                assert(post[j] == pre[j - 1] && j - 1 >= p);
                assert(lex_le(x@, pre[p as int]));
                if j - 1 > p {
                    assert(lex_le(pre[p as int], pre[j - 1]));
                    lemma_lex_trans(x@, pre[p as int], pre[j - 1]);
                }
            } else {
                assert(post[i] == pre[i - 1] && post[j] == pre[j - 1]);
                assert(lex_le(pre[i - 1], pre[j - 1]));
            }
        }
    }
}

/// The identifiers rearranged into lexicographic order: the result is
/// sorted and holds exactly the same identifiers, repetitions included.
pub fn sort_ids(ids: &Vec<String>) -> (r: Vec<String>)
    ensures
        sorted_lex(r.deep_view()),
        r.deep_view().to_multiset() == ids.deep_view().to_multiset(),
{
    let mut out: Vec<String> = Vec::new();
    let mut i: usize = 0;
    proof {
        assert(out.deep_view() =~~= ids.deep_view().take(0));
    }
    while i < ids.len()
        invariant
            i <= ids.len(),
            sorted_lex(out.deep_view()),
            out.deep_view().to_multiset() == ids.deep_view().take(i as int).to_multiset(),
        decreases ids.len() - i,
    {
        let ghost pre_ms = out.deep_view().to_multiset();
        let x = ids[i].clone();
        insert_sorted(&mut out, x);
        proof {
            let dv = ids.deep_view();
            assert(x@ == dv[i as int]);
            assert(dv.take(i + 1) =~~= dv.take(i as int).push(dv[i as int]));
            dv.take(i as int).to_multiset_ensures();
        }
        i += 1;
    }
    proof {
        assert(ids.deep_view().take(ids.len() as int) =~~= ids.deep_view());
    }
    out
}

/// A directory's inventory: the topic identifiers among its file names,
/// sorted lexicographically for a deterministic listing.
pub fn inventory_ids(names: &Vec<String>, ext: &str) -> (ids: Vec<String>)
    ensures
        sorted_lex(ids.deep_view()),
        ids.deep_view().to_multiset() == topic_ids_seq(names.deep_view(), ext@).to_multiset(),
{
    let unsorted = topic_ids(names, ext);
    sort_ids(&unsorted)
}

} // verus!

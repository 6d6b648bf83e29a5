//! Verified text utilities.
//!
//! Strings are modelled by their views, sequences of characters.  This
//! module defines the substring, replacement, join, split and file-name
//! operations that the rest of the crate states its contracts over, and
//! proves the executable implementations against them.

use vstd::prelude::*;
use vstd::string::StrSliceExecFns;
use vstd::string::StringExecFns;

verus! {

/// `pat` occurs in `s` starting at position `i`.
pub open spec fn matches_at(s: Seq<char>, pat: Seq<char>, i: int) -> bool {
    0 <= i && i + pat.len() <= s.len() && s.subrange(i, i + pat.len() as int) == pat
}

/// `pat` occurs somewhere in `s` as a contiguous run of characters.
/// The empty pattern occurs in every string.
pub open spec fn contains_seq(s: Seq<char>, pat: Seq<char>) -> bool {
    exists|i: int| matches_at(s, pat, i)
}

/// Whether `pat` occurs at position `i` of `s`.
fn matches_at_exec(s: &str, pat: &str, i: usize, s_len: usize, pat_len: usize) -> (b: bool)
    requires
        s_len == s@.len(),
        pat_len == pat@.len(),
        i + pat_len <= s_len,
    ensures
        b == matches_at(s@, pat@, i as int),
{
    let mut j: usize = 0;
    while j < pat_len
        invariant
            s_len == s@.len(),
            pat_len == pat@.len(),
            i + pat_len <= s_len,
            j <= pat_len,
            forall|k: int| 0 <= k < j ==> s@[i + k] == pat@[k],
        decreases pat_len - j,
    {
        if s.get_char(i + j) != pat.get_char(j) {
            assert(!matches_at(s@, pat@, i as int)) by {
                if matches_at(s@, pat@, i as int) {
                    assert(s@.subrange(i as int, i + pat_len as int)[j as int] == s@[i + j]);
                }
            }
            return false;
        }
        j += 1;
    }
    assert(s@.subrange(i as int, i + pat_len as int) =~= pat@);
    true
}

/// Whether the string `s` contains `pat` as a substring
/// (case-sensitive, literal).
pub fn contains_str(s: &str, pat: &str) -> (b: bool)
    ensures
        b == contains_seq(s@, pat@),
{
    let s_len = s.unicode_len();
    let pat_len = pat.unicode_len();
    if pat_len > s_len {
        assert(forall|i: int| !matches_at(s@, pat@, i));
        return false;
    }
    if pat_len == 0 {
        assert(s@.subrange(0, 0) =~= pat@);
        assert(matches_at(s@, pat@, 0));
        return true;
    }
    let mut i: usize = 0;
    while i <= s_len - pat_len
        invariant
            s_len == s@.len(),
            pat_len == pat@.len(),
            1 <= pat_len <= s_len,
            i <= s_len - pat_len + 1,
            forall|k: int| 0 <= k < i ==> !matches_at(s@, pat@, k),
        decreases s_len - pat_len + 1 - i,
    {
        if matches_at_exec(s, pat, i, s_len, pat_len) {
            return true;
        }
        i += 1;
    }
    assert(forall|k: int| !matches_at(s@, pat@, k));
    false
}

/// `s` with every occurrence of `pat` replaced by `rep`, scanning left to
/// right and never overlapping: after an occurrence is replaced, scanning
/// resumes past it.  A pattern that is empty or longer than `s` leaves `s`
/// unchanged.
pub open spec fn replace_seq(s: Seq<char>, pat: Seq<char>, rep: Seq<char>) -> Seq<char>
    decreases s.len(),
{
    if pat.len() == 0 || s.len() < pat.len() {
        s
    } else if s.subrange(0, pat.len() as int) == pat {
        rep + replace_seq(s.subrange(pat.len() as int, s.len() as int), pat, rep)
    } else {
        seq![s[0]] + replace_seq(s.subrange(1, s.len() as int), pat, rep)
    }
}

/// `s` with every occurrence of `pat` replaced by `rep`.
pub fn replace_str(s: &str, pat: &str, rep: &str) -> (r: String)
    ensures
        r@ == replace_seq(s@, pat@, rep@),
{
    let s_len = s.unicode_len();
    let pat_len = pat.unicode_len();
    if pat_len == 0 {
        // an empty pattern occurs nowhere: nothing is replaced
        return s.to_owned();
    }
    let mut out = String::new();
    let mut i: usize = 0;
    proof {
        assert(s@.subrange(0, s_len as int) =~= s@);
        assert(Seq::<char>::empty() + replace_seq(s@, pat@, rep@) =~= replace_seq(
            s@,
            pat@,
            rep@,
        ));
    }
    while i < s_len
        invariant
            s_len == s@.len(),
            pat_len == pat@.len(),
            pat_len > 0,
            i <= s_len,
            replace_seq(s@, pat@, rep@) == out@ + replace_seq(
                s@.subrange(i as int, s_len as int),
                pat@,
                rep@,
            ),
        decreases s_len - i,
    {
        let ghost t = s@.subrange(i as int, s_len as int);
        if pat_len <= s_len - i && matches_at_exec(s, pat, i, s_len, pat_len) {
            out.append(rep);
            proof {
                assert(t.subrange(0, pat_len as int) =~= s@.subrange(
                    i as int,
                    i + pat_len as int,
                ));
                assert(t.subrange(pat_len as int, t.len() as int) =~= s@.subrange(
                    i + pat_len,
                    s_len as int,
                ));
            }
            i = i + pat_len;
        } else {
            let c = s.substring_char(i, i + 1);
            out.append(c);
            proof {
                let t1 = s@.subrange(i + 1, s_len as int);
                assert(c@ =~= seq![s@[i as int]]);
                if i + pat_len <= s_len {
                    assert(t.subrange(0, pat_len as int) =~= s@.subrange(
                        i as int,
                        i + pat_len as int,
                    ));
                    assert(t.subrange(1, t.len() as int) =~= t1);
                } else {
                    // the tail is shorter than the pattern: it is copied as it is
                    assert(replace_seq(t, pat@, rep@) == t);
                    assert(replace_seq(t1, pat@, rep@) == t1);
                    assert(t =~= seq![s@[i as int]] + t1);
                }
            }
            i = i + 1;
        }
    }
    assert(s@.subrange(s_len as int, s_len as int) =~= Seq::<char>::empty());
    assert(out@ =~= out@ + Seq::<char>::empty());
    out
}

/// How many occurrences of `pat` the scan of [`replace_seq`] replaces:
/// occurrences found left to right, never overlapping an earlier one.
pub open spec fn occurrences(s: Seq<char>, pat: Seq<char>) -> nat
    decreases s.len(),
{
    if pat.len() == 0 || s.len() < pat.len() {
        0
    } else if s.subrange(0, pat.len() as int) == pat {
        1 + occurrences(s.subrange(pat.len() as int, s.len() as int), pat)
    } else {
        occurrences(s.subrange(1, s.len() as int), pat)
    }
}

/// `s` cut at every occurrence of `pat` that [`replace_seq`] replaces:
/// the segments between the replaced occurrences, in order.  There is
/// always one more segment than there are occurrences.
pub open spec fn split_on_seq(s: Seq<char>, pat: Seq<char>) -> Seq<Seq<char>>
    decreases s.len(),
{
    if pat.len() == 0 || s.len() < pat.len() {
        seq![s]
    } else if s.subrange(0, pat.len() as int) == pat {
        seq![Seq::<char>::empty()] + split_on_seq(s.subrange(pat.len() as int, s.len() as int), pat)
    } else {
        prepend_first(seq![s[0]], split_on_seq(s.subrange(1, s.len() as int), pat))
    }
}

pub proof fn lemma_split_on_len(s: Seq<char>, pat: Seq<char>)
    ensures
        split_on_seq(s, pat).len() == occurrences(s, pat) + 1,
    decreases s.len(),
{
    if !(pat.len() == 0 || s.len() < pat.len()) {
        if s.subrange(0, pat.len() as int) == pat {
            lemma_split_on_len(s.subrange(pat.len() as int, s.len() as int), pat);
        } else {
            lemma_split_on_len(s.subrange(1, s.len() as int), pat);
        }
    }
}

/// Joining the segments with the pattern itself reassembles the string:
/// the segments are the string with the replaced occurrences cut out,
/// nothing else changed.
pub proof fn lemma_split_on_join(s: Seq<char>, pat: Seq<char>)
    ensures
        join_seq(split_on_seq(s, pat), pat) == s,
    decreases s.len(),
{
    if pat.len() == 0 || s.len() < pat.len() {
        assert(join_seq(seq![s], pat) == s);
    } else if s.subrange(0, pat.len() as int) == pat {
        let s1 = s.subrange(pat.len() as int, s.len() as int);
        lemma_split_on_join(s1, pat);
        lemma_split_on_len(s1, pat);
        let parts = seq![Seq::<char>::empty()] + split_on_seq(s1, pat);
        assert(parts[0] == Seq::<char>::empty());
        assert(parts.subrange(1, parts.len() as int) =~= split_on_seq(s1, pat));
        assert(join_seq(parts, pat) == Seq::<char>::empty() + pat + s1);
        assert(Seq::<char>::empty() + pat + s1 =~= s);
    } else {
        let s1 = s.subrange(1, s.len() as int);
        lemma_split_on_join(s1, pat);
        lemma_split_on_len(s1, pat);
        let ps = split_on_seq(s1, pat);
        let parts = prepend_first(seq![s[0]], ps);
        assert(parts[0] == seq![s[0]] + ps[0]);
        assert(parts.subrange(1, parts.len() as int) =~= ps.subrange(1, ps.len() as int));
        if ps.len() == 1 {
            assert(join_seq(ps, pat) == ps[0]);
            assert(join_seq(parts, pat) == seq![s[0]] + ps[0]);
            assert(seq![s[0]] + s1 =~= s);
        } else {
            assert(join_seq(ps, pat) == ps[0] + pat + join_seq(
                ps.subrange(1, ps.len() as int),
                pat,
            ));
            assert(join_seq(parts, pat) == (seq![s[0]] + ps[0]) + pat + join_seq(
                ps.subrange(1, ps.len() as int),
                pat,
            ));
            assert((seq![s[0]] + ps[0]) + pat + join_seq(ps.subrange(1, ps.len() as int), pat)
                =~= seq![s[0]] + (ps[0] + pat + join_seq(ps.subrange(1, ps.len() as int), pat)));
            assert(seq![s[0]] + s1 =~= s);
        }
    }
}

/// Replacement is the segments joined with the replacement text: every
/// replaced occurrence becomes `rep`, and the segments between them are
/// carried over verbatim.
pub proof fn lemma_replace_is_join(s: Seq<char>, pat: Seq<char>, rep: Seq<char>)
    ensures
        replace_seq(s, pat, rep) == join_seq(split_on_seq(s, pat), rep),
    decreases s.len(),
{
    if pat.len() == 0 || s.len() < pat.len() {
        assert(join_seq(seq![s], rep) == s);
    } else if s.subrange(0, pat.len() as int) == pat {
        let s1 = s.subrange(pat.len() as int, s.len() as int);
        lemma_replace_is_join(s1, pat, rep);
        lemma_split_on_len(s1, pat);
        let parts = seq![Seq::<char>::empty()] + split_on_seq(s1, pat);
        assert(parts[0] == Seq::<char>::empty());
        assert(parts.subrange(1, parts.len() as int) =~= split_on_seq(s1, pat));
        assert(join_seq(parts, rep) == Seq::<char>::empty() + rep + replace_seq(s1, pat, rep));
        assert(Seq::<char>::empty() + rep + replace_seq(s1, pat, rep) =~= rep + replace_seq(
            s1,
            pat,
            rep,
        ));
    } else {
        let s1 = s.subrange(1, s.len() as int);
        lemma_replace_is_join(s1, pat, rep);
        lemma_split_on_len(s1, pat);
        let ps = split_on_seq(s1, pat);
        let parts = prepend_first(seq![s[0]], ps);
        assert(parts[0] == seq![s[0]] + ps[0]);
        assert(parts.subrange(1, parts.len() as int) =~= ps.subrange(1, ps.len() as int));
        if ps.len() == 1 {
            assert(join_seq(ps, rep) == ps[0]);
            assert(join_seq(parts, rep) == seq![s[0]] + ps[0]);
        } else {
            assert(join_seq(ps, rep) == ps[0] + rep + join_seq(
                ps.subrange(1, ps.len() as int),
                rep,
            ));
            assert(join_seq(parts, rep) == (seq![s[0]] + ps[0]) + rep + join_seq(
                ps.subrange(1, ps.len() as int),
                rep,
            ));
            assert((seq![s[0]] + ps[0]) + rep + join_seq(ps.subrange(1, ps.len() as int), rep)
                =~= seq![s[0]] + (ps[0] + rep + join_seq(ps.subrange(1, ps.len() as int), rep)));
        }
    }
}

/// The first segment of a split is a prefix of the string.
proof fn lemma_split_on_first_prefix(s: Seq<char>, pat: Seq<char>)
    ensures
        split_on_seq(s, pat)[0].len() <= s.len(),
        split_on_seq(s, pat)[0] == s.subrange(0, split_on_seq(s, pat)[0].len() as int),
    decreases s.len(),
{
    if pat.len() == 0 || s.len() < pat.len() {
        assert(s.subrange(0, s.len() as int) =~= s);
    } else if s.subrange(0, pat.len() as int) == pat {
        assert(split_on_seq(s, pat)[0] == Seq::<char>::empty());
        assert(s.subrange(0, 0) =~= Seq::<char>::empty());
    } else {
        let s1 = s.subrange(1, s.len() as int);
        lemma_split_on_first_prefix(s1, pat);
        lemma_split_on_len(s1, pat);
        let first = split_on_seq(s1, pat)[0];
        assert(split_on_seq(s, pat)[0] == seq![s[0]] + first);
        assert(seq![s[0]] + first =~= s.subrange(0, first.len() as int + 1));
    }
}

/// No segment of a split contains the pattern: the scan cut the string at
/// every occurrence it met, and what is left between the cuts is free of
/// further occurrences.
pub proof fn lemma_split_on_parts_free(s: Seq<char>, pat: Seq<char>)
    requires
        pat.len() > 0,
    ensures
        forall|i: int|
            0 <= i < split_on_seq(s, pat).len() ==> !contains_seq(
                #[trigger] split_on_seq(s, pat)[i],
                pat,
            ),
    decreases s.len(),
{
    let parts = split_on_seq(s, pat);
    if s.len() < pat.len() {
        assert(parts[0] == s);
        assert(forall|k: int| !matches_at(s, pat, k));
    } else if s.subrange(0, pat.len() as int) == pat {
        let s1 = s.subrange(pat.len() as int, s.len() as int);
        lemma_split_on_parts_free(s1, pat);
        lemma_split_on_len(s1, pat);
        assert(parts[0] == Seq::<char>::empty());
        assert(forall|k: int| !matches_at(Seq::<char>::empty(), pat, k));
        assert(forall|i: int|
            1 <= i < parts.len() ==> parts[i] == split_on_seq(s1, pat)[i - 1]);
    } else {
        let s1 = s.subrange(1, s.len() as int);
        let ps = split_on_seq(s1, pat);
        lemma_split_on_parts_free(s1, pat);
        lemma_split_on_len(s1, pat);
        lemma_split_on_first_prefix(s1, pat);
        assert(parts[0] == seq![s[0]] + ps[0]);
        assert(forall|i: int| 1 <= i < parts.len() ==> parts[i] == ps[i]);
        assert(!contains_seq(parts[0], pat)) by {
            if contains_seq(parts[0], pat) {
                let k = choose|k: int| matches_at(parts[0], pat, k);
                if k == 0 {
                    // an occurrence at the front of the first segment would be
                    // an occurrence at the front of the string, against the
                    // branch taken
                    assert(ps[0] == s1.subrange(0, ps[0].len() as int));
                    assert(parts[0] =~= s.subrange(0, parts[0].len() as int));
                    assert(parts[0].subrange(0, pat.len() as int) =~= s.subrange(
                        0,
                        pat.len() as int,
                    ));
                } else {
                    // an occurrence further in lies inside the tail's first
                    // segment, against the induction hypothesis
                    assert(parts[0].subrange(k, k + pat.len()) =~= ps[0].subrange(
                        k - 1,
                        k - 1 + pat.len(),
                    ));
                    assert(matches_at(ps[0], pat, k - 1));
                    assert(contains_seq(ps[0], pat));
                }
            }
        }
    }
}

/// Replacing a pattern by itself changes nothing.
pub proof fn lemma_replace_self(s: Seq<char>, pat: Seq<char>)
    ensures
        replace_seq(s, pat, pat) == s,
{
    lemma_replace_is_join(s, pat, pat);
    lemma_split_on_join(s, pat);
}

/// Whether two strings hold the same characters.
pub fn eq_str(a: &str, b: &str) -> (r: bool)
    ensures
        r == (a@ == b@),
{
    let a_len = a.unicode_len();
    let b_len = b.unicode_len();
    if a_len != b_len {
        return false;
    }
    let r = matches_at_exec(a, b, 0, a_len, b_len);
    proof {
        assert(a@.subrange(0, b@.len() as int) =~= a@);
    }
    r
}

/// The parts joined with `sep` between consecutive parts.
pub open spec fn join_seq(parts: Seq<Seq<char>>, sep: Seq<char>) -> Seq<char>
    decreases parts.len(),
{
    if parts.len() == 0 {
        Seq::empty()
    } else if parts.len() == 1 {
        parts[0]
    } else {
        parts[0] + sep + join_seq(parts.subrange(1, parts.len() as int), sep)
    }
}

/// Appending one more part extends the join by a separator and that part.
proof fn lemma_join_push(parts: Seq<Seq<char>>, sep: Seq<char>, x: Seq<char>)
    requires
        parts.len() >= 1,
    ensures
        join_seq(parts.push(x), sep) == join_seq(parts, sep) + sep + x,
    decreases parts.len(),
{
    if parts.len() == 1 {
        assert(parts.push(x).subrange(1, 2) =~= seq![x]);
        assert(join_seq(seq![x], sep) == x);
        assert(join_seq(parts.push(x), sep) == parts[0] + sep + x);
    } else {
        let tail = parts.subrange(1, parts.len() as int);
        assert(parts.push(x).subrange(1, parts.push(x).len() as int) =~= tail.push(x));
        lemma_join_push(tail, sep, x);
        assert(join_seq(parts.push(x), sep) == parts[0] + sep + (join_seq(tail, sep) + sep + x));
        assert(parts[0] + sep + (join_seq(tail, sep) + sep + x) =~= (parts[0] + sep + join_seq(
            tail,
            sep,
        )) + sep + x);
    }
}

/// The parts joined with `sep` between consecutive parts.
pub fn join_strings(parts: &Vec<String>, sep: &str) -> (r: String)
    ensures
        r@ == join_seq(parts.deep_view(), sep@),
{
    let mut out = String::new();
    let mut i: usize = 0;
    while i < parts.len()
        invariant
            i <= parts.len(),
            out@ == join_seq(parts.deep_view().take(i as int), sep@),
        decreases parts.len() - i,
    {
        if i > 0 {
            out.append(sep);
        }
        out.append(parts[i].as_str());
        proof {
            let dv = parts.deep_view();
            assert(dv.take(i + 1) =~= dv.take(i as int).push(dv[i as int]));
            if i == 0 {
                assert(join_seq(seq![dv[0]], sep@) == dv[0]);
                assert(dv.take(1) =~= seq![dv[0]]);
                assert(out@ =~= dv[0]);
            } else {
                lemma_join_push(dv.take(i as int), sep@, dv[i as int]);
            }
        }
        i += 1;
    }
    proof {
        assert(parts.deep_view().take(parts.len() as int) =~= parts.deep_view());
    }
    out
}

/// `s` split on every occurrence of the character `sep`.  Splitting keeps
/// empty parts: a leading, trailing or doubled separator yields an empty
/// string at that place, and the empty string splits into one empty part.
pub open spec fn split_seq(s: Seq<char>, sep: char) -> Seq<Seq<char>>
    decreases s.len(),
{
    if s.len() == 0 {
        seq![Seq::empty()]
    } else if s[0] == sep {
        seq![Seq::<char>::empty()] + split_seq(s.subrange(1, s.len() as int), sep)
    } else {
        let rest = split_seq(s.subrange(1, s.len() as int), sep);
        seq![seq![s[0]] + rest[0]] + rest.subrange(1, rest.len() as int)
    }
}

pub proof fn lemma_split_nonempty(s: Seq<char>, sep: char)
    ensures
        split_seq(s, sep).len() >= 1,
    decreases s.len(),
{
    if s.len() > 0 {
        lemma_split_nonempty(s.subrange(1, s.len() as int), sep);
    }
}

/// The first part of a split, with `prefix` prepended to it.
pub open spec fn prepend_first(prefix: Seq<char>, parts: Seq<Seq<char>>) -> Seq<Seq<char>>
    recommends
        parts.len() >= 1,
{
    seq![prefix + parts[0]] + parts.subrange(1, parts.len() as int)
}

/// `s` split on every occurrence of `sep`, empty parts kept.
pub fn split_on_char(s: &str, sep: char) -> (parts: Vec<String>)
    ensures
        parts.deep_view() == split_seq(s@, sep),
        parts.len() >= 1,
{
    let s_len = s.unicode_len();
    let mut parts: Vec<String> = Vec::new();
    let mut cur = String::new();
    let mut i: usize = 0;
    proof {
        assert(s@.subrange(0, s_len as int) =~= s@);
        lemma_split_nonempty(s@, sep);
        assert(parts.deep_view() + prepend_first(cur@, split_seq(s@, sep)) =~~= split_seq(
            s@,
            sep,
        ));
    }
    while i < s_len
        invariant
            s_len == s@.len(),
            i <= s_len,
            split_seq(s@.subrange(i as int, s_len as int), sep).len() >= 1,
            parts.deep_view() + prepend_first(
                cur@,
                split_seq(s@.subrange(i as int, s_len as int), sep),
            ) == split_seq(s@, sep),
        decreases s_len - i,
    {
        let ghost t = s@.subrange(i as int, s_len as int);
        let ghost t1 = s@.subrange(i + 1, s_len as int);
        let ghost old_parts = parts.deep_view();
        let ghost old_cur = cur@;
        proof {
            assert(t[0] == s@[i as int]);
            assert(t.subrange(1, t.len() as int) =~= t1);
            lemma_split_nonempty(t1, sep);
        }
        let c = s.get_char(i);
        if c == sep {
            parts.push(cur);
            cur = String::new();
            proof {
                assert(parts.deep_view() =~~= old_parts.push(old_cur));
                assert(prepend_first(old_cur, split_seq(t, sep)) =~~= seq![old_cur] + split_seq(
                    t1,
                    sep,
                ));
                assert(old_parts + (seq![old_cur] + split_seq(t1, sep)) =~~= old_parts.push(
                    old_cur,
                ) + split_seq(t1, sep));
                assert(prepend_first(cur@, split_seq(t1, sep)) =~~= split_seq(t1, sep));
            }
        } else {
            let cs = s.substring_char(i, i + 1);
            cur.append(cs);
            proof {
                let rest = split_seq(t1, sep);
                assert(cs@ =~= seq![s@[i as int]]);
                assert(cur@ =~= old_cur + seq![t[0]]);
                assert(prepend_first(old_cur, split_seq(t, sep)) =~~= prepend_first(cur@, rest));
            }
        }
        i += 1;
    }
    let ghost old_parts = parts.deep_view();
    let ghost old_cur = cur@;
    parts.push(cur);
    proof {
        let t = s@.subrange(s_len as int, s_len as int);
        assert(t =~= Seq::<char>::empty());
        assert(prepend_first(old_cur, split_seq(t, sep)) =~~= seq![old_cur]);
        assert(parts.deep_view() =~~= old_parts.push(old_cur));
        assert(parts.deep_view() =~~= split_seq(s@, sep));
        lemma_split_nonempty(s@, sep);
    }
    parts
}

/// The position of the last occurrence of `c` in `s`, or `-1` when `c`
/// does not occur.
pub open spec fn last_index_of(s: Seq<char>, c: char) -> int
    decreases s.len(),
{
    if s.len() == 0 {
        -1
    } else if s[s.len() - 1] == c {
        s.len() - 1
    } else {
        last_index_of(s.drop_last(), c)
    }
}

pub proof fn lemma_last_index_of(s: Seq<char>, c: char)
    ensures
        -1 <= last_index_of(s, c) < s.len(),
        last_index_of(s, c) >= 0 ==> s[last_index_of(s, c)] == c,
        forall|k: int| last_index_of(s, c) < k < s.len() ==> s[k] != c,
    decreases s.len(),
{
    if s.len() > 0 && s[s.len() - 1] != c {
        lemma_last_index_of(s.drop_last(), c);
        assert(forall|k: int| 0 <= k < s.len() - 1 ==> s[k] == s.drop_last()[k]);
    }
}

/// The position of the last occurrence of `c` in `s`, if any.
pub fn find_last(s: &str, c: char) -> (r: Option<usize>)
    ensures
        match r {
            Some(i) => i == last_index_of(s@, c),
            None => last_index_of(s@, c) == -1,
        },
{
    let s_len = s.unicode_len();
    let mut j: usize = s_len;
    while j > 0
        invariant
            s_len == s@.len(),
            j <= s_len,
            forall|k: int| j <= k < s_len ==> s@[k] != c,
        decreases j,
    {
        j -= 1;
        if s.get_char(j) == c {
            proof {
                lemma_last_index_of(s@, c);
                // nothing after j is `c`, and j is `c`: j is the last occurrence
                assert(last_index_of(s@, c) == j);
            }
            return Some(j);
        }
    }
    proof {
        lemma_last_index_of(s@, c);
    }
    None
}

/// The file-name part of a path: everything after the last `/`, or the
/// whole path when it has no `/`.
pub open spec fn file_name_seq(p: Seq<char>) -> Seq<char> {
    p.subrange(last_index_of(p, '/') + 1, p.len() as int)
}

/// The extension of a path's file name: everything after the last `.` of
/// the file name.  A file name with no dot past its first character has no
/// extension, so a leading-dot name such as `.config` is extension-less.
pub open spec fn extension_seq(p: Seq<char>) -> Option<Seq<char>> {
    let n = file_name_seq(p);
    let d = last_index_of(n, '.');
    if d <= 0 {
        None
    } else {
        Some(n.subrange(d + 1, n.len() as int))
    }
}

/// The stem of a path's file name: the file name with its extension and
/// the dot before it stripped, or the whole file name when it has no
/// extension.
pub open spec fn stem_seq(p: Seq<char>) -> Seq<char> {
    let n = file_name_seq(p);
    let d = last_index_of(n, '.');
    if d <= 0 {
        n
    } else {
        n.subrange(0, d)
    }
}

/// The file-name part of `path`: everything after its last `/`.
pub fn file_name_of(path: &str) -> (r: String)
    ensures
        r@ == file_name_seq(path@),
{
    let p_len = path.unicode_len();
    proof {
        lemma_last_index_of(path@, '/');
    }
    let name = match find_last(path, '/') {
        Some(i) => path.substring_char(i + 1, p_len),
        None => path.substring_char(0, p_len),
    };
    name.to_owned()
}

/// Whether `path` names a file whose extension is exactly `ext`.
pub fn has_extension(path: &str, ext: &str) -> (b: bool)
    ensures
        b == (extension_seq(path@) == Some(ext@)),
{
    let name = file_name_of(path);
    let name_len = name.as_str().unicode_len();
    proof {
        lemma_last_index_of(name@, '.');
    }
    match find_last(name.as_str(), '.') {
        Some(d) => {
            if d == 0 {
                false
            } else {
                eq_str(name.as_str().substring_char(d + 1, name_len), ext)
            }
        },
        None => false,
    }
}

/// The stem of `path`'s file name: the file name with its extension
/// stripped.
pub fn stem_of(path: &str) -> (r: String)
    ensures
        r@ == stem_seq(path@),
{
    let name = file_name_of(path);
    let name_len = name.as_str().unicode_len();
    proof {
        lemma_last_index_of(name@, '.');
    }
    match find_last(name.as_str(), '.') {
        Some(d) => {
            if d == 0 {
                name
            } else {
                name.as_str().substring_char(0, d).to_owned()
            }
        },
        None => name,
    }
}

} // verus!

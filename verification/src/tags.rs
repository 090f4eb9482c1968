//! Tag normalization: trim surrounding whitespace, lowercase, drop tags
//! that end up empty. Order is preserved and duplicates are kept.
//!
//! Trimming is implemented and verified here against a recursive
//! specification; the Unicode whitespace test and the Unicode lowercase
//! mapping come from the standard library through trusted items.

use vstd::prelude::*;

verus! {

/// Whether a character counts as whitespace for trimming. Names the result
/// of `char::is_whitespace`, a function of the character alone.
pub uninterp spec fn whitespace_char(c: char) -> bool;

/// Relies on `char::is_whitespace`: true exactly when the character has the
/// Unicode `White_Space` property.
#[verifier::external_body]
pub(crate) fn is_whitespace_char(c: char) -> (r: bool)
    ensures
        r == whitespace_char(c),
{
    c.is_whitespace()
}

/// The Unicode lowercase mapping of a character sequence. Names the result
/// of `str::to_lowercase`, a function of the characters alone.
pub uninterp spec fn lower_of(s: Seq<char>) -> Seq<char>;

/// Relies on `str::to_lowercase`: returns the lowercase equivalent of the
/// string, per the Unicode lowercase mapping. The extra clauses record
/// facts of that mapping which the normalizer needs: the result is empty
/// exactly when the input is (every character maps to one or more
/// characters); mapping the result again changes nothing (lowercase output
/// is made of characters the mapping leaves alone); and the mapping never
/// turns a non-whitespace character at either end into whitespace.
#[verifier::external_body]
pub(crate) fn to_lowercase(s: &str) -> (r: String)
    ensures
        r@ == lower_of(s@),
        r@.len() == 0 <==> s@.len() == 0,
        lower_of(r@) == r@,
        s@.len() > 0 && !whitespace_char(s@.first()) && !whitespace_char(s@.last())
            ==> !whitespace_char(r@.first()) && !whitespace_char(r@.last()),
{
    s.to_lowercase()
}

/// What is left of `s` after dropping leading whitespace.
pub open spec fn trim_start_spec(s: Seq<char>) -> Seq<char>
    decreases s.len(),
{
    if s.len() == 0 {
        s
    } else if whitespace_char(s[0]) {
        trim_start_spec(s.skip(1))
    } else {
        s
    }
}

/// What is left of `s` after dropping trailing whitespace.
pub open spec fn trim_end_spec(s: Seq<char>) -> Seq<char>
    decreases s.len(),
{
    if s.len() == 0 {
        s
    } else if whitespace_char(s.last()) {
        trim_end_spec(s.drop_last())
    } else {
        s
    }
}

/// What is left of `s` after dropping whitespace at both ends.
pub open spec fn trim_spec(s: Seq<char>) -> Seq<char> {
    trim_end_spec(trim_start_spec(s))
}

/// A trimmed sequence is empty or bounded by non-whitespace characters.
pub proof fn lemma_trim_ends(s: Seq<char>)
    ensures
        trim_spec(s).len() > 0 ==> !whitespace_char(trim_spec(s).first()) && !whitespace_char(
            trim_spec(s).last(),
        ),
    decreases s.len(),
{
    lemma_trim_start_ends(s);
    lemma_trim_end_ends(trim_start_spec(s));
}

proof fn lemma_trim_start_ends(s: Seq<char>)
    ensures
        trim_start_spec(s).len() > 0 ==> !whitespace_char(trim_start_spec(s).first()),
        trim_start_spec(s).len() > 0 ==> trim_start_spec(s).last() == s.last(),
        trim_start_spec(s).len() <= s.len(),
    decreases s.len(),
{
    if s.len() > 0 && whitespace_char(s[0]) {
        lemma_trim_start_ends(s.skip(1));
    }
}

proof fn lemma_trim_end_ends(s: Seq<char>)
    ensures
        trim_end_spec(s).len() > 0 ==> !whitespace_char(trim_end_spec(s).last()),
        trim_end_spec(s).len() > 0 ==> trim_end_spec(s).first() == s.first(),
        trim_end_spec(s).len() <= s.len(),
    decreases s.len(),
{
    if s.len() > 0 && whitespace_char(s.last()) {
        lemma_trim_end_ends(s.drop_last());
    }
}

/// Trimming a sequence whose ends are not whitespace changes nothing.
pub proof fn lemma_trim_fixed(s: Seq<char>)
    requires
        s.len() > 0 ==> !whitespace_char(s.first()) && !whitespace_char(s.last()),
    ensures
        trim_spec(s) == s,
{
}

proof fn lemma_trim_start_index(s: Seq<char>, i: int)
    requires
        0 <= i <= s.len(),
        forall|k: int| 0 <= k < i ==> whitespace_char(s[k]),
        i < s.len() ==> !whitespace_char(s[i]),
    ensures
        trim_start_spec(s) == s.skip(i),
    decreases i,
{
    if i > 0 {
        lemma_trim_start_index(s.skip(1), i - 1);
        assert(s.skip(1).skip(i - 1) =~= s.skip(i));
    } else {
        assert(s.skip(0) =~= s);
    }
}

proof fn lemma_trim_end_index(s: Seq<char>, j: int)
    requires
        0 <= j <= s.len(),
        forall|k: int| j <= k < s.len() ==> whitespace_char(s[k]),
        j > 0 ==> !whitespace_char(s[j - 1]),
    ensures
        trim_end_spec(s) == s.take(j),
    decreases s.len() - j,
{
    if j < s.len() {
        lemma_trim_end_index(s.drop_last(), j);
        assert(s.drop_last().take(j) =~= s.take(j));
    } else {
        assert(s.take(s.len() as int) =~= s);
    }
}

/// Removes leading and trailing whitespace, exactly as specified by
/// [`trim_spec`].
pub fn trim(s: &str) -> (r: &str)
    ensures
        r@ == trim_spec(s@),
{
    let n = s.unicode_len();
    let mut lo: usize = 0;
    while lo < n && is_whitespace_char(s.get_char(lo))
        invariant
            n == s@.len(),
            lo <= n,
            forall|k: int| 0 <= k < lo ==> whitespace_char(s@[k]),
        decreases n - lo,
    {
        lo = lo + 1;
    }
    proof {
        lemma_trim_start_index(s@, lo as int);
    }
    let mut hi: usize = n;
    while hi > lo && is_whitespace_char(s.get_char(hi - 1))
        invariant
            n == s@.len(),
            lo <= hi <= n,
            forall|k: int| 0 <= k < lo ==> whitespace_char(s@[k]),
            lo < n ==> !whitespace_char(s@[lo as int]),
            forall|k: int| hi <= k < n ==> whitespace_char(s@[k]),
        decreases hi,
    {
        hi = hi - 1;
    }
    let r = s.substring_char(lo, hi);
    proof {
        let t = s@.skip(lo as int);
        if hi > lo {
            lemma_trim_end_index(t, hi - lo);
        } else {
            lemma_trim_end_index(t, 0);
        }
        assert(t.take(hi - lo) =~= s@.subrange(lo as int, hi as int));
    }
    r
}

/// The normalized form of one raw tag: trimmed, then lowercased.
pub open spec fn norm_tag(t: Seq<char>) -> Seq<char> {
    lower_of(trim_spec(t))
}

/// The normalized form of a whole tag list: each tag trimmed and
/// lowercased, tags that end up empty dropped, order kept.
pub open spec fn normalize_tags_spec(ts: Seq<Seq<char>>) -> Seq<Seq<char>> {
    ts.map_values(|t: Seq<char>| norm_tag(t)).filter(|t: Seq<char>| t.len() != 0)
}

/// Normalization lifted to an optional tag list: absent stays absent.
pub open spec fn normalize_opt_spec(tags: Option<Seq<Seq<char>>>) -> Option<Seq<Seq<char>>> {
    match tags {
        None => None,
        Some(ts) => Some(normalize_tags_spec(ts)),
    }
}

/// A tag list that normalization would leave unchanged: every tag is
/// nonempty and is its own normalized form.
pub open spec fn is_normalized(ts: Seq<Seq<char>>) -> bool {
    forall|i: int| 0 <= i < ts.len() ==> (#[trigger] ts[i]).len() != 0 && norm_tag(ts[i]) == ts[i]
}

/// Normalization is the identity on an already-normalized list. Together
/// with `normalize_tags`'s promise that its result is normalized, this says
/// normalization is idempotent.
pub proof fn lemma_normalized_fixed(ts: Seq<Seq<char>>)
    requires
        is_normalized(ts),
    ensures
        normalize_tags_spec(ts) == ts,
    decreases ts.len(),
{
    let mapped = ts.map_values(|t: Seq<char>| norm_tag(t));
    assert(mapped =~= ts);
    lemma_filter_all_kept(ts, |t: Seq<char>| t.len() != 0);
}

proof fn lemma_filter_all_kept(ts: Seq<Seq<char>>, pred: spec_fn(Seq<char>) -> bool)
    requires
        forall|i: int| 0 <= i < ts.len() ==> pred(#[trigger] ts[i]),
    ensures
        ts.filter(pred) == ts,
    decreases ts.len(),
{
    reveal(Seq::filter);
    if ts.len() > 0 {
        lemma_filter_all_kept(ts.drop_last(), pred);
        assert(ts.drop_last().push(ts.last()) =~= ts);
    }
}

/// Trims each tag, lowercases it, and drops tags that end up empty; the
/// result is exactly [`normalize_tags_spec`] of the input and is itself
/// normalized, so a second pass returns it unchanged.
pub fn normalize_tags(tags: &Vec<String>) -> (r: Vec<String>)
    ensures
        r.deep_view() == normalize_tags_spec(tags.deep_view()),
        is_normalized(r.deep_view()),
        is_normalized(tags.deep_view()) ==> r.deep_view() == tags.deep_view(),
{
    let ghost whole: Seq<Seq<char>> = tags.deep_view();
    let mut out: Vec<String> = Vec::new();
    let mut i: usize = 0;
    while i < tags.len()
        invariant
            i <= tags.len(),
            whole == tags.deep_view(),
            whole.len() == tags.len(),
            out.deep_view() == normalize_tags_spec(whole.subrange(0, i as int)),
            is_normalized(out.deep_view()),
        decreases tags.len() - i,
    {
        let ghost before = out.deep_view();
        let ghost prefix = whole.subrange(0, i as int);
        let trimmed = trim(&tags[i]);
        let lowered = to_lowercase(trimmed);
        proof {
            assert(whole[i as int] == tags[i as int]@);
            lemma_trim_ends(tags[i as int]@);
        }
        let keep = !lowered.as_str().is_empty();
        let ghost nt = norm_tag(whole[i as int]);
        if keep {
            proof {
                // The new element is a fixed point of normalization.
                lemma_trim_fixed(lowered@);
            }
            out.push(lowered);
            proof {
                assert(out.deep_view() =~= before.push(nt));
            }
        }
        proof {
            let next = whole.subrange(0, i + 1);
            let m = |t: Seq<char>| norm_tag(t);
            let p = |t: Seq<char>| t.len() != 0;
            assert(next.drop_last() =~= prefix);
            assert(next.map_values(m).drop_last() =~= prefix.map_values(m));
            assert(next.map_values(m).last() == nt);
            reveal(Seq::filter);
            assert(next.map_values(m).len() > 0);
            assert(next.map_values(m) == next.map_values(m).drop_last().push(nt));
            assert(out.deep_view() == normalize_tags_spec(next));
        }
        i = i + 1;
    }
    proof {
        assert(whole.subrange(0, whole.len() as int) =~= whole);
        if is_normalized(tags.deep_view()) {
            lemma_normalized_fixed(tags.deep_view());
        }
    }
    out
}

} // verus!

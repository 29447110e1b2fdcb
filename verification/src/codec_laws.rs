//! The placeholder codec's round-trip law: restoring what protection took
//! out gives the original text back, for every text that does not itself
//! contain the marker-opening characters.
//!
//! The proof tracks the masked text through restoration. `hyb` describes
//! the text after the first `j` markers have been put back; each
//! restoration step finds its marker at exactly one position, because a
//! marker's opening characters can never arise from the text itself (the
//! precondition), from a URL span (it would need the marker's space), from
//! another marker's inside, or from any seam between them.

use vstd::prelude::*;
use crate::codec::{
    dec, digit_char, find_first, is_space, marker, marker_close, marker_open, occurs_at, protect_masked,
    protect_urls, replace_first, restore_spans, url_at, url_end, lemma_url_span,
};

verus! {

/// The two characters every marker opens with.
pub open spec fn lp() -> Seq<char> {
    seq!['<', 'p']
}

/// `t` is free of the marker-opening characters: the round-trip law's one
/// precondition.
pub open spec fn marker_free(t: Seq<char>) -> bool {
    forall|q: int| !occurs_at(t, lp(), q)
}

/// A decimal digit character.
pub open spec fn is_digit(c: char) -> bool {
    c == '0' || c == '1' || c == '2' || c == '3' || c == '4' || c == '5' || c == '6' || c == '7'
        || c == '8' || c == '9'
}

/// Decimal representations are nonempty and all digits.
proof fn lemma_dec_digits(n: nat)
    ensures
        dec(n).len() >= 1,
        forall|q: int| 0 <= q < dec(n).len() ==> is_digit(#[trigger] dec(n)[q]),
    decreases n,
{
    if n < 10 {
    } else {
        lemma_dec_digits(n / 10);
    }
}

/// Distinct digits have distinct characters.
proof fn lemma_digit_char_injective(a: nat, b: nat)
    requires
        a < 10,
        b < 10,
        digit_char(a) == digit_char(b),
    ensures
        a == b,
{
}

/// Decimal representations of distinct numbers differ.
proof fn lemma_dec_injective(m: nat, n: nat)
    requires
        dec(m) == dec(n),
    ensures
        m == n,
    decreases m + n,
{
    if m < 10 && n < 10 {
        assert(dec(m)[0] == digit_char(m));
        assert(dec(n)[0] == digit_char(n));
        lemma_digit_char_injective(m, n);
    } else if m < 10 {
        lemma_dec_digits(n / 10);
        assert(dec(n).len() >= 2);
    } else if n < 10 {
        lemma_dec_digits(m / 10);
        assert(dec(m).len() >= 2);
    } else {
        let a = dec(m / 10);
        let b = dec(n / 10);
        assert(dec(m).last() == digit_char(m % 10));
        assert(dec(n).last() == digit_char(n % 10));
        lemma_digit_char_injective(m % 10, n % 10);
        assert(a.len() == b.len());
        assert(a =~= b) by {
            assert(forall|q: int| 0 <= q < a.len() ==> a[q] == dec(m)[q] && b[q] == dec(n)[q]);
        }
        lemma_dec_injective(m / 10, n / 10);
    }
}

/// The shape facts about a marker the uniqueness argument needs: where its
/// `<` characters sit, and what follows them.
proof fn lemma_marker_chars(j: nat)
    ensures
        marker(j).len() == dec(j).len() + 12,
        marker(j).len() >= 13,
        marker(j)[0] == '<',
        marker(j)[1] == 'p',
        marker(j)[marker(j).len() - 4] == '<',
        marker(j)[marker(j).len() - 3] == '/',
        forall|q: int|
            0 < q < marker(j).len() && #[trigger] marker(j)[q] == '<' ==> q == marker(j).len() - 4,
{
    lemma_dec_digits(j);
    let mk = marker(j);
    let dlen = dec(j).len() as int;
    assert forall|q: int| 0 < q < mk.len() && #[trigger] mk[q] == '<' implies q == mk.len()
        - 4 by {
        if q < 6 {
            assert(mk[q] == marker_open()[q]);
        } else if q < 6 + dlen {
            assert(mk[q] == dec(j)[q - 6]);
            assert(is_digit(dec(j)[q - 6]));
        } else {
            assert(mk[q] == marker_close()[q - 6 - dlen]);
        }
    }
    assert(mk[mk.len() - 4] == marker_close()[2]);
    assert(mk[mk.len() - 3] == marker_close()[3]);
}

/// A marker that occurs at the head of another marker (with anything after
/// it) carries the same index.
proof fn lemma_marker_head(j: nat, k: nat, rest: Seq<char>)
    requires
        occurs_at(marker(k) + rest, marker(j), 0),
    ensures
        j == k,
{
    lemma_marker_chars(j);
    lemma_marker_chars(k);
    lemma_dec_digits(j);
    lemma_dec_digits(k);
    let s = marker(k) + rest;
    let a = dec(j);
    let b = dec(k);
    assert(forall|q: int|
        0 <= q < marker(j).len() ==> s[q] == #[trigger] marker(j)[q]) by {
        assert(s.subrange(0, marker(j).len() as int) == marker(j));
        assert(forall|q: int|
            0 <= q < marker(j).len() ==> #[trigger] s.subrange(0, marker(j).len() as int)[q] == s[
                q
            ]);
    }
    if a.len() < b.len() {
        let q = 6 + a.len() as int;
        assert(marker(j)[q] == marker_close()[0]);
        assert(s[q] == marker(k)[q]);
        assert(marker(k)[q] == dec(k)[q - 6]);
        assert(is_digit(dec(k)[q - 6]));
        assert(false);
    } else if a.len() > b.len() {
        let q = 6 + b.len() as int;
        assert(marker(j)[q] == dec(j)[q - 6]);
        assert(is_digit(dec(j)[q - 6]));
        assert(s[q] == marker(k)[q]);
        assert(marker(k)[q] == marker_close()[0]);
        assert(false);
    } else {
        assert(a =~= b) by {
            assert(forall|q: int| 0 <= q < a.len() ==> {
                &&& #[trigger] a[q] == marker(j)[q + 6]
                &&& b[q] == marker(k)[q + 6]
                &&& s[q + 6] == marker(k)[q + 6]
                &&& marker(j)[q + 6] == s[q + 6]
            });
        }
        lemma_dec_injective(j, k);
    }
}

/// Occurrences wholly to the right of a prefix transfer into and out of
/// the suffix.
proof fn lemma_occurs_right(a: Seq<char>, b: Seq<char>, pat: Seq<char>, p: int)
    requires
        p >= a.len(),
    ensures
        occurs_at(a + b, pat, p) <==> occurs_at(b, pat, p - a.len()),
{
    let s = a + b;
    if occurs_at(s, pat, p) {
        assert(b.subrange(p - a.len(), p - a.len() + pat.len()) =~= s.subrange(p, p + pat.len()));
    }
    if occurs_at(b, pat, p - a.len()) {
        assert(s.subrange(p, p + pat.len()) =~= b.subrange(p - a.len(), p - a.len() + pat.len()));
    }
}

/// An occurrence somewhere means the characters match there; used to read
/// single characters out of an occurrence.
proof fn lemma_occurs_chars(s: Seq<char>, pat: Seq<char>, p: int)
    requires
        occurs_at(s, pat, p),
    ensures
        forall|q: int| 0 <= q < pat.len() ==> s[p + q] == #[trigger] pat[q],
{
    assert(forall|q: int|
        0 <= q < pat.len() ==> #[trigger] s.subrange(p, p + pat.len())[q] == s[p + q]);
}

/// `find_first` returns the position of an occurrence that is unique.
proof fn lemma_find_first_unique(s: Seq<char>, pat: Seq<char>, target: int, from: int)
    requires
        0 <= from <= target,
        occurs_at(s, pat, target),
        forall|p: int| occurs_at(s, pat, p) ==> p == target,
    ensures
        find_first(s, pat, from) == Some(target),
    decreases s.len() + 1 - from,
{
    if from == target {
    } else {
        assert(!occurs_at(s, pat, from));
        lemma_find_first_unique(s, pat, target, from + 1);
    }
}

// ---------------------------------------------------------------------------
// The text part-way through restoration.
// ---------------------------------------------------------------------------

/// The masked text of `t` from position `i` on (spans numbered from `k`),
/// after every marker with index below `j` has been replaced by its span
/// again.
pub open spec fn hyb(t: Seq<char>, i: int, k: nat, j: nat) -> Seq<char>
    decreases t.len() - i when 0 <= i
    via hyb_decreases
{
    if i >= t.len() {
        Seq::empty()
    } else if url_at(t, i) {
        (if k >= j {
            marker(k)
        } else {
            t.subrange(i, url_end(t, i))
        }) + hyb(t, url_end(t, i), (k + 1) as nat, j)
    } else {
        seq![t[i]] + hyb(t, i + 1, k, j)
    }
}

#[via_fn]
proof fn hyb_decreases(t: Seq<char>, i: int, k: nat, j: nat) {
    if i < t.len() && url_at(t, i) {
        lemma_url_span(t, i);
    }
}

/// Where marker `j` sits in `hyb(t, i, k, j)`, counting from `i` with
/// spans numbered from `k`.
pub open spec fn mark_pos(t: Seq<char>, i: int, k: nat, j: nat) -> int
    decreases t.len() - i when 0 <= i
    via mark_pos_decreases
{
    if i >= t.len() {
        0
    } else if url_at(t, i) {
        if k == j {
            0
        } else {
            (if k >= j {
                marker(k).len() as int
            } else {
                url_end(t, i) - i
            }) + mark_pos(t, url_end(t, i), (k + 1) as nat, j)
        }
    } else {
        1 + mark_pos(t, i + 1, k, j)
    }
}

#[via_fn]
proof fn mark_pos_decreases(t: Seq<char>, i: int, k: nat, j: nat) {
    if i < t.len() && url_at(t, i) {
        lemma_url_span(t, i);
    }
}

/// Before any marker up to `k` has been restored, the hybrid text is the
/// masked text itself.
proof fn lemma_hyb_masked(t: Seq<char>, i: int, k: nat, j: nat)
    requires
        0 <= i,
        j <= k,
    ensures
        hyb(t, i, k, j) == protect_masked(t, i, k),
    decreases t.len() - i,
{
    if i < t.len() {
        if url_at(t, i) {
            lemma_url_span(t, i);
            lemma_hyb_masked(t, url_end(t, i), (k + 1) as nat, j);
        } else {
            lemma_hyb_masked(t, i + 1, k, j);
        }
    }
}

/// After every marker has been restored, the hybrid text is the original.
proof fn lemma_hyb_done(t: Seq<char>, i: int, k: nat, j: nat)
    requires
        0 <= i <= t.len(),
        k + protect_urls(t, i).len() <= j,
    ensures
        hyb(t, i, k, j) == t.skip(i),
    decreases t.len() - i,
{
    if i >= t.len() {
        assert(t.skip(i) =~= Seq::<char>::empty());
    } else if url_at(t, i) {
        lemma_url_span(t, i);
        let e = url_end(t, i);
        assert(protect_urls(t, i) == seq![t.subrange(i, e)] + protect_urls(t, e));
        lemma_hyb_done(t, e, (k + 1) as nat, j);
        assert(t.skip(i) =~= t.subrange(i, e) + t.skip(e));
        assert(hyb(t, i, k, j) =~= t.skip(i));
    } else {
        lemma_hyb_done(t, i + 1, k, j);
        assert(t.skip(i) =~= seq![t[i]] + t.skip(i + 1));
        assert(hyb(t, i, k, j) =~= t.skip(i));
    }
}

/// The first character of a nonempty hybrid text: a marker's `<`, or a
/// character of `t` (for a URL span, its leading `h`).
proof fn lemma_hyb_first(t: Seq<char>, i: int, k: nat, j: nat)
    requires
        0 <= i,
    ensures
        i < t.len() ==> hyb(t, i, k, j).len() > 0,
        i < t.len() && url_at(t, i) && k >= j ==> hyb(t, i, k, j)[0] == '<',
        i < t.len() && url_at(t, i) && k < j ==> hyb(t, i, k, j)[0] == t[i] && t[i] == 'h',
        i < t.len() && !url_at(t, i) ==> hyb(t, i, k, j)[0] == t[i],
        i >= t.len() ==> hyb(t, i, k, j).len() == 0,
{
    if i < t.len() && url_at(t, i) {
        lemma_url_span(t, i);
        lemma_marker_chars(k);
        assert(t.subrange(i, url_end(t, i))[0] == t[i]);
    }
}

// ---------------------------------------------------------------------------
// Each restoration step finds its marker, at exactly one place.
// ---------------------------------------------------------------------------

/// Marker `j` still stands in the hybrid text, at its position.
proof fn lemma_hyb_exists(t: Seq<char>, i: int, k: nat, j: nat)
    requires
        0 <= i <= t.len(),
        k <= j < k + protect_urls(t, i).len(),
    ensures
        occurs_at(hyb(t, i, k, j), marker(j), mark_pos(t, i, k, j)),
    decreases t.len() - i,
{
    let s = hyb(t, i, k, j);
    if url_at(t, i) {
        lemma_url_span(t, i);
        let e = url_end(t, i);
        assert(protect_urls(t, i) == seq![t.subrange(i, e)] + protect_urls(t, e));
        let rest = hyb(t, e, (k + 1) as nat, j);
        if k == j {
            assert(s == marker(j) + rest);
            assert(s.subrange(0, marker(j).len() as int) =~= marker(j));
        } else {
            let u = t.subrange(i, e);
            assert(s == u + rest);
            lemma_hyb_exists(t, e, (k + 1) as nat, j);
            lemma_occurs_right(u, rest, marker(j), u.len() + mark_pos(t, e, (k + 1) as nat, j));
            assert(mark_pos(t, i, k, j) == u.len() + mark_pos(t, e, (k + 1) as nat, j));
        }
    } else {
        let rest = hyb(t, i + 1, k, j);
        assert(s == seq![t[i]] + rest);
        lemma_hyb_exists(t, i + 1, k, j);
        lemma_occurs_right(seq![t[i]], rest, marker(j), 1 + mark_pos(t, i + 1, k, j));
    }
}

/// Marker `j` stands nowhere else: not inside another marker, not inside
/// a restored span, not across any seam — given that `t` itself is free
/// of the marker-opening characters.
proof fn lemma_hyb_unique(t: Seq<char>, i: int, k: nat, j: nat)
    requires
        marker_free(t),
        0 <= i <= t.len(),
    ensures
        forall|p: int|
            occurs_at(hyb(t, i, k, j), marker(j), p) ==> k <= j < k + protect_urls(t, i).len()
                && p == mark_pos(t, i, k, j),
    decreases t.len() - i,
{
    let s = hyb(t, i, k, j);
    let mk = marker(j);
    lemma_marker_chars(j);
    if i >= t.len() {
        assert forall|p: int| occurs_at(s, mk, p) implies k <= j < k + protect_urls(t, i).len()
            && p == mark_pos(t, i, k, j) by {
            assert(p + mk.len() <= 0);
        }
    } else if url_at(t, i) {
        lemma_url_span(t, i);
        let e = url_end(t, i);
        assert(protect_urls(t, i) == seq![t.subrange(i, e)] + protect_urls(t, e));
        let rest = hyb(t, e, (k + 1) as nat, j);
        lemma_hyb_unique(t, e, (k + 1) as nat, j);
        if k >= j {
            let head = marker(k);
            lemma_marker_chars(k);
            assert(s == head + rest);
            assert forall|p: int| occurs_at(s, mk, p) implies k <= j < k + protect_urls(
                t,
                i,
            ).len() && p == mark_pos(t, i, k, j) by {
                lemma_occurs_chars(s, mk, p);
                if p == 0 {
                    lemma_marker_head(j, k, rest);
                    assert(j == k);
                } else if p >= head.len() {
                    lemma_occurs_right(head, rest, mk, p);
                    assert(k + 1 <= j);
                    assert(false);
                } else {
                    assert(s[p] == head[p]);
                    assert(s[p] == mk[0]);
                    assert(p == head.len() - 4);
                    assert(p + 1 < head.len());
                    assert(s[p + 1] == head[p + 1]);
                    assert(head[p + 1] == '/');
                    assert(s[p + 1] == mk[1]);
                    assert(false);
                }
            }
        } else {
            let u = t.subrange(i, e);
            assert(s == u + rest);
            assert forall|p: int| occurs_at(s, mk, p) implies k <= j < k + protect_urls(
                t,
                i,
            ).len() && p == mark_pos(t, i, k, j) by {
                lemma_occurs_chars(s, mk, p);
                if p >= u.len() {
                    lemma_occurs_right(u, rest, mk, p);
                    assert(mark_pos(t, i, k, j) == u.len() + mark_pos(t, e, (k + 1) as nat, j));
                } else {
                    assert(s[p] == u[p]);
                    assert(u[p] == t[i + p]);
                    assert(s[p] == mk[0]);
                    if p + 1 < u.len() {
                        assert(s[p + 1] == u[p + 1]);
                        assert(u[p + 1] == t[i + p + 1]);
                        assert(s[p + 1] == mk[1]);
                        assert(t.subrange(i + p, i + p + 2) =~= lp());
                        assert(occurs_at(t, lp(), i + p));
                        assert(false);
                    } else {
                        assert(p + 1 == u.len());
                        assert(p + mk.len() <= s.len());
                        assert(rest.len() >= mk.len() - 1);
                        lemma_hyb_first(t, e, (k + 1) as nat, j);
                        assert(e < t.len());
                        assert(is_space(t[e]));
                        assert(!url_at(t, e)) by {
                            if url_at(t, e) {
                                assert(t[e] == 'h');
                            }
                        }
                        assert(rest[0] == t[e]);
                        assert(s[p + 1] == rest[0]);
                        assert(s[p + 1] == mk[1]);
                        assert(false);
                    }
                }
            }
        }
    } else {
        let rest = hyb(t, i + 1, k, j);
        assert(s == seq![t[i]] + rest);
        lemma_hyb_unique(t, i + 1, k, j);
        assert forall|p: int| occurs_at(s, mk, p) implies k <= j < k + protect_urls(t, i).len()
            && p == mark_pos(t, i, k, j) by {
            lemma_occurs_chars(s, mk, p);
            if p == 0 {
                assert(s[0] == t[i]);
                assert(s[0] == mk[0]);
                assert(mk.len() >= 2);
                assert(rest.len() >= mk.len() - 1);
                assert(i + 1 < t.len()) by {
                    if i + 1 >= t.len() {
                        assert(rest.len() == 0);
                    }
                }
                lemma_hyb_first(t, i + 1, k, j);
                assert(s[1] == rest[0]);
                assert(s[1] == mk[1]);
                if url_at(t, i + 1) {
                    if k >= j {
                        assert(rest[0] == '<');
                        assert(false);
                    } else {
                        assert(rest[0] == 'h');
                        assert(false);
                    }
                } else {
                    assert(rest[0] == t[i + 1]);
                    assert(t.subrange(i, i + 2) =~= lp());
                    assert(occurs_at(t, lp(), i));
                    assert(false);
                }
            } else {
                lemma_occurs_right(seq![t[i]], rest, mk, p);
                assert(mark_pos(t, i, k, j) == 1 + mark_pos(t, i + 1, k, j));
            }
        }
    }
}

/// Splicing span `j` in at marker `j`'s position advances the hybrid text
/// by one restoration step.
proof fn lemma_hyb_substitution(t: Seq<char>, i: int, k: nat, j: nat)
    requires
        0 <= i <= t.len(),
        k <= j < k + protect_urls(t, i).len(),
    ensures
        hyb(t, i, k, (j + 1) as nat) == hyb(t, i, k, j).take(mark_pos(t, i, k, j)) + protect_urls(
            t,
            i,
        )[j - k] + hyb(t, i, k, j).skip(mark_pos(t, i, k, j) + marker(j).len() as int),
    decreases t.len() - i,
{
    let s = hyb(t, i, k, j);
    let pos = mark_pos(t, i, k, j);
    let mk = marker(j);
    lemma_marker_chars(j);
    lemma_hyb_exists(t, i, k, j);
    if url_at(t, i) {
        lemma_url_span(t, i);
        let e = url_end(t, i);
        assert(protect_urls(t, i) == seq![t.subrange(i, e)] + protect_urls(t, e));
        let u = t.subrange(i, e);
        let rest = hyb(t, e, (k + 1) as nat, j);
        if k == j {
            assert(s == mk + rest);
            assert(pos == 0);
            lemma_hyb_masked(t, e, (k + 1) as nat, j);
            lemma_hyb_masked(t, e, (k + 1) as nat, (j + 1) as nat);
            assert(hyb(t, i, k, (j + 1) as nat) == u + hyb(t, e, (k + 1) as nat, (j + 1) as nat));
            assert(s.take(0) =~= Seq::<char>::empty());
            assert(s.skip(mk.len() as int) =~= rest);
            assert(protect_urls(t, i)[0] == u);
            assert(s.take(pos) + protect_urls(t, i)[j - k] + s.skip(pos + mk.len()) =~= u + rest);
        } else {
            assert(k < j);
            assert(s == u + rest);
            let posr = mark_pos(t, e, (k + 1) as nat, j);
            assert(pos == u.len() + posr);
            lemma_hyb_substitution(t, e, (k + 1) as nat, j);
            lemma_hyb_exists(t, e, (k + 1) as nat, j);
            assert(0 <= posr && posr + mk.len() <= rest.len());
            assert(hyb(t, i, k, (j + 1) as nat) == u + hyb(t, e, (k + 1) as nat, (j + 1) as nat));
            assert(protect_urls(t, i)[j - k] == protect_urls(t, e)[j - (k + 1)]);
            assert(s.take(pos) =~= u + rest.take(posr));
            assert(s.skip(pos + mk.len()) =~= rest.skip(posr + mk.len()));
            assert(u + (rest.take(posr) + protect_urls(t, e)[j - (k + 1)] + rest.skip(
                posr + mk.len(),
            )) =~= (u + rest.take(posr)) + protect_urls(t, i)[j - k] + rest.skip(posr + mk.len()));
        }
    } else {
        let rest = hyb(t, i + 1, k, j);
        assert(s == seq![t[i]] + rest);
        let posr = mark_pos(t, i + 1, k, j);
        assert(pos == 1 + posr);
        lemma_hyb_substitution(t, i + 1, k, j);
        lemma_hyb_exists(t, i + 1, k, j);
        assert(0 <= posr && posr + mk.len() <= rest.len());
        assert(hyb(t, i, k, (j + 1) as nat) == seq![t[i]] + hyb(t, i + 1, k, (j + 1) as nat));
        assert(s.take(pos) =~= seq![t[i]] + rest.take(posr));
        assert(s.skip(pos + mk.len()) =~= rest.skip(posr + mk.len()));
        assert(seq![t[i]] + (rest.take(posr) + protect_urls(t, i + 1)[j - k] + rest.skip(
            posr + mk.len(),
        )) =~= (seq![t[i]] + rest.take(posr)) + protect_urls(t, i)[j - k] + rest.skip(
            posr + mk.len(),
        ));
    }
}

// ---------------------------------------------------------------------------
// The round trip.
// ---------------------------------------------------------------------------

/// Restoring spans `j`, `j + 1`, ... into the hybrid text that still
/// carries their markers gives the original text back.
proof fn lemma_restore_from(t: Seq<char>, j: nat)
    requires
        marker_free(t),
        j <= protect_urls(t, 0).len(),
    ensures
        restore_spans(hyb(t, 0, 0, j), protect_urls(t, 0).skip(j as int), j) == t,
    decreases protect_urls(t, 0).len() - j,
{
    let urls = protect_urls(t, 0);
    let s = hyb(t, 0, 0, j);
    if j == urls.len() {
        lemma_hyb_done(t, 0, 0, j);
        assert(t.skip(0) =~= t);
        assert(urls.skip(j as int) =~= Seq::<Seq<char>>::empty());
    } else {
        lemma_hyb_exists(t, 0, 0, j);
        lemma_hyb_unique(t, 0, 0, j);
        lemma_hyb_substitution(t, 0, 0, j);
        let pos = mark_pos(t, 0, 0, j);
        lemma_find_first_unique(s, marker(j), pos, 0);
        assert(urls.skip(j as int)[0] == urls[j as int]);
        assert(replace_first(s, marker(j), urls[j as int]) == hyb(t, 0, 0, (j + 1) as nat));
        assert(urls.skip(j as int).drop_first() =~= urls.skip(j as int + 1));
        lemma_restore_from(t, (j + 1) as nat);
        assert(restore_spans(s, urls.skip(j as int), j) == restore_spans(
            hyb(t, 0, 0, (j + 1) as nat),
            urls.skip(j as int + 1),
            (j + 1) as nat,
        ));
    }
}

/// Round trip: for every text free of the marker-opening characters —
/// whatever URL-shaped spans it contains, including none — putting the
/// protected spans back into the masked text yields the text itself.
pub proof fn lemma_placeholder_round_trip(t: Seq<char>)
    requires
        marker_free(t),
    ensures
        restore_spans(protect_masked(t, 0, 0), protect_urls(t, 0), 0) == t,
{
    lemma_hyb_masked(t, 0, 0, 0);
    assert(protect_urls(t, 0).skip(0) =~= protect_urls(t, 0));
    lemma_restore_from(t, 0);
}

} // verus!

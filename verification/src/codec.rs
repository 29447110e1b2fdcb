//! Placeholder codec: protects URL-shaped spans across a translation round
//! trip.
//!
//! `convert_placeholder` finds URL-shaped substrings in source order and
//! replaces each with a positional marker that a translation provider leaves
//! alone; `revert_placeholder` puts the recorded spans back, index by index.
//! The markers are self-delimiting (`<p i="0"></p>`, `<p i="1"></p>`, ...),
//! and a marker can never occur inside a URL span because it contains a
//! space while a URL span never does.

use vstd::prelude::*;
use crate::error::RelayError;
use crate::lang::{is_recognized_tag, recognized_tag};
use crate::text::{chars_of, string_of};

verus! {

// ---------------------------------------------------------------------------
// The URL grammar.
// ---------------------------------------------------------------------------

/// Whitespace for the purpose of delimiting URL spans.
pub open spec fn is_space(c: char) -> bool {
    c == ' ' || c == '\t' || c == '\n' || c == '\r' || c == '\u{b}' || c == '\u{c}'
}

/// `http://` begins at position `i` of `t`.
pub open spec fn starts_http_at(t: Seq<char>, i: int) -> bool {
    &&& 0 <= i
    &&& i + 7 <= t.len()
    &&& t[i] == 'h'
    &&& t[i + 1] == 't'
    &&& t[i + 2] == 't'
    &&& t[i + 3] == 'p'
    &&& t[i + 4] == ':'
    &&& t[i + 5] == '/'
    &&& t[i + 6] == '/'
}

/// `https://` begins at position `i` of `t`.
pub open spec fn starts_https_at(t: Seq<char>, i: int) -> bool {
    &&& 0 <= i
    &&& i + 8 <= t.len()
    &&& t[i] == 'h'
    &&& t[i + 1] == 't'
    &&& t[i + 2] == 't'
    &&& t[i + 3] == 'p'
    &&& t[i + 4] == 's'
    &&& t[i + 5] == ':'
    &&& t[i + 6] == '/'
    &&& t[i + 7] == '/'
}

/// Length of the URL scheme prefix found at `i`, or 0 when there is none.
pub open spec fn scheme_len_at(t: Seq<char>, i: int) -> int {
    if starts_https_at(t, i) {
        8
    } else if starts_http_at(t, i) {
        7
    } else {
        0
    }
}

/// A URL-shaped span begins at position `i`: a scheme prefix followed by at
/// least one non-space character.
pub open spec fn url_at(t: Seq<char>, i: int) -> bool {
    let k = scheme_len_at(t, i);
    k > 0 && i + k < t.len() && !is_space(t[i + k])
}

/// First position at or after `j` that ends a non-space run: either the end
/// of `t` or a whitespace character.
pub open spec fn run_end(t: Seq<char>, j: int) -> int
    decreases t.len() - j,
{
    if j < 0 {
        0
    } else if j >= t.len() || is_space(t[j]) {
        j
    } else {
        run_end(t, j + 1)
    }
}

/// End (exclusive) of the URL-shaped span that begins at `i`.
pub open spec fn url_end(t: Seq<char>, i: int) -> int {
    run_end(t, i + scheme_len_at(t, i))
}

pub proof fn lemma_run_end_bounds(t: Seq<char>, j: int)
    requires
        0 <= j <= t.len(),
    ensures
        j <= run_end(t, j) <= t.len(),
        forall|m: int| j <= m < run_end(t, j) ==> !is_space(t[m]),
        run_end(t, j) < t.len() ==> is_space(t[run_end(t, j)]),
    decreases t.len() - j,
{
    if j >= t.len() || is_space(t[j]) {
    } else {
        lemma_run_end_bounds(t, j + 1);
    }
}

/// Bounds on the span of a URL that begins at `i`.
pub proof fn lemma_url_span(t: Seq<char>, i: int)
    requires
        0 <= i,
        url_at(t, i),
    ensures
        i + scheme_len_at(t, i) < url_end(t, i) <= t.len(),
        forall|m: int| i + scheme_len_at(t, i) <= m < url_end(t, i) ==> !is_space(t[m]),
        url_end(t, i) < t.len() ==> is_space(t[url_end(t, i)]),
{
    let k = scheme_len_at(t, i);
    lemma_run_end_bounds(t, i + k);
    assert(run_end(t, i + k) != i + k) by {
        if run_end(t, i + k) == i + k {
            assert(is_space(t[i + k]) || i + k >= t.len());
        }
    }
}

// ---------------------------------------------------------------------------
// Markers.
// ---------------------------------------------------------------------------

/// The decimal digit character for `d` (0 through 9).
pub open spec fn digit_char(d: nat) -> char {
    if d == 0 {
        '0'
    } else if d == 1 {
        '1'
    } else if d == 2 {
        '2'
    } else if d == 3 {
        '3'
    } else if d == 4 {
        '4'
    } else if d == 5 {
        '5'
    } else if d == 6 {
        '6'
    } else if d == 7 {
        '7'
    } else if d == 8 {
        '8'
    } else {
        '9'
    }
}

/// Decimal representation of `n`, most significant digit first.
pub open spec fn dec(n: nat) -> Seq<char>
    decreases n,
{
    if n < 10 {
        seq![digit_char(n)]
    } else {
        dec(n / 10) + seq![digit_char(n % 10)]
    }
}

/// Opening half of a marker, before the index digits.
pub open spec fn marker_open() -> Seq<char> {
    seq!['<', 'p', ' ', 'i', '=', '"']
}

/// Closing half of a marker, after the index digits.
pub open spec fn marker_close() -> Seq<char> {
    seq!['"', '>', '<', '/', 'p', '>']
}

/// The positional marker that stands for the URL span with index `k`.
pub open spec fn marker(k: nat) -> Seq<char> {
    marker_open() + dec(k) + marker_close()
}

// ---------------------------------------------------------------------------
// What protection produces.
// ---------------------------------------------------------------------------

/// The masked text: `t` from position `i` on, with every URL-shaped span
/// replaced by a marker, numbering spans from `k`.
pub open spec fn protect_masked(t: Seq<char>, i: int, k: nat) -> Seq<char>
    decreases t.len() - i when 0 <= i
    via protect_masked_decreases
{
    if i >= t.len() {
        Seq::empty()
    } else if url_at(t, i) {
        marker(k) + protect_masked(t, url_end(t, i), k + 1)
    } else {
        seq![t[i]] + protect_masked(t, i + 1, k)
    }
}

#[via_fn]
proof fn protect_masked_decreases(t: Seq<char>, i: int, k: nat) {
    if i < t.len() && url_at(t, i) {
        lemma_url_span(t, i);
    }
}

/// The protected URL spans of `t` from position `i` on, in source order.
pub open spec fn protect_urls(t: Seq<char>, i: int) -> Seq<Seq<char>>
    decreases t.len() - i when 0 <= i
    via protect_urls_decreases
{
    if i >= t.len() {
        Seq::empty()
    } else if url_at(t, i) {
        seq![t.subrange(i, url_end(t, i))] + protect_urls(t, url_end(t, i))
    } else {
        protect_urls(t, i + 1)
    }
}

#[via_fn]
proof fn protect_urls_decreases(t: Seq<char>, i: int) {
    if i < t.len() && url_at(t, i) {
        lemma_url_span(t, i);
    }
}

// ---------------------------------------------------------------------------
// What restoration means: replace the first occurrence of each marker, in
// index order.
// ---------------------------------------------------------------------------

/// `pat` occurs in `s` at position `p`.
pub open spec fn occurs_at(s: Seq<char>, pat: Seq<char>, p: int) -> bool {
    0 <= p && p + pat.len() <= s.len() && s.subrange(p, p + pat.len()) == pat
}

/// The first position at or after `from` where `pat` occurs in `s`.
pub open spec fn find_first(s: Seq<char>, pat: Seq<char>, from: int) -> Option<int>
    decreases s.len() + 1 - from when 0 <= from <= s.len() + 1
{
    if from + pat.len() > s.len() {
        None
    } else if occurs_at(s, pat, from) {
        Some(from)
    } else {
        find_first(s, pat, from + 1)
    }
}

/// `s` with the first occurrence of `pat` (if any) replaced by `rep`.
pub open spec fn replace_first(s: Seq<char>, pat: Seq<char>, rep: Seq<char>) -> Seq<char> {
    match find_first(s, pat, 0) {
        None => s,
        Some(p) => s.take(p) + rep + s.skip(p + pat.len()),
    }
}

/// The restored text: for each span index `k`, `k + 1`, ..., replace the
/// first occurrence of that index's marker with the recorded span.
pub open spec fn restore_spans(s: Seq<char>, urls: Seq<Seq<char>>, k: nat) -> Seq<char>
    decreases urls.len(),
{
    if urls.len() == 0 {
        s
    } else {
        restore_spans(replace_first(s, marker(k), urls[0]), urls.drop_first(), k + 1)
    }
}

// ---------------------------------------------------------------------------
// Executable helpers.
// ---------------------------------------------------------------------------

fn is_space_exec(c: char) -> (r: bool)
    ensures
        r == is_space(c),
{
    c == ' ' || c == '\t' || c == '\n' || c == '\r' || c == '\u{b}' || c == '\u{c}'
}

fn digit_char_exec(d: u64) -> (c: char)
    requires
        d < 10,
    ensures
        c == digit_char(d as nat),
{
    match d {
        0 => '0',
        1 => '1',
        2 => '2',
        3 => '3',
        4 => '4',
        5 => '5',
        6 => '6',
        7 => '7',
        8 => '8',
        _ => '9',
    }
}

fn dec_digits(n: u64) -> (r: Vec<char>)
    ensures
        r@ == dec(n as nat),
    decreases n,
{
    if n < 10 {
        let mut v: Vec<char> = Vec::new();
        v.push(digit_char_exec(n));
        proof {
            assert(v@ =~= dec(n as nat));
        }
        v
    } else {
        let mut v = dec_digits(n / 10);
        v.push(digit_char_exec(n % 10));
        proof {
            assert(v@ =~= dec(n as nat));
        }
        v
    }
}

/// The decimal representation of `n`, as a string.
pub fn dec_string(n: u64) -> (r: String)
    ensures
        r@ == dec(n as nat),
{
    let digits = dec_digits(n);
    string_of(&digits)
}

/// The marker for span index `k`, as characters.
fn marker_vec(k: usize) -> (r: Vec<char>)
    ensures
        r@ == marker(k as nat),
{
    let mut v: Vec<char> = Vec::new();
    v.push('<');
    v.push('p');
    v.push(' ');
    v.push('i');
    v.push('=');
    v.push('"');
    let mut d = dec_digits(k as u64);
    v.append(&mut d);
    v.push('"');
    v.push('>');
    v.push('<');
    v.push('/');
    v.push('p');
    v.push('>');
    proof {
        assert(v@ =~= marker(k as nat));
    }
    v
}

fn scheme_len_exec(t: &Vec<char>, i: usize) -> (r: usize)
    requires
        i <= t@.len(),
    ensures
        r as int == scheme_len_at(t@, i as int),
{
    if t.len() - i >= 8 && t[i] == 'h' && t[i + 1] == 't' && t[i + 2] == 't' && t[i + 3] == 'p'
        && t[i + 4] == 's' && t[i + 5] == ':' && t[i + 6] == '/' && t[i + 7] == '/' {
        8
    } else if t.len() - i >= 7 && t[i] == 'h' && t[i + 1] == 't' && t[i + 2] == 't' && t[i + 3]
        == 'p' && t[i + 4] == ':' && t[i + 5] == '/' && t[i + 6] == '/' {
        7
    } else {
        0
    }
}

fn run_end_exec(t: &Vec<char>, j: usize) -> (r: usize)
    requires
        j <= t@.len(),
    ensures
        r as int == run_end(t@, j as int),
        j <= r <= t@.len(),
{
    let mut m = j;
    while m < t.len() && !is_space_exec(t[m])
        invariant
            j <= m <= t@.len(),
            run_end(t@, j as int) == run_end(t@, m as int),
        decreases t@.len() - m,
    {
        m = m + 1;
    }
    m
}

// ---------------------------------------------------------------------------
// The codec itself.
// ---------------------------------------------------------------------------

/// Replaces every URL-shaped span of `text` with a positional marker, in
/// source order, and returns the spans that were taken out.
pub fn convert_placeholder(text: &mut String) -> (urls: Vec<String>)
    ensures
        final(text)@ == protect_masked(old(text)@, 0, 0),
        urls.deep_view() == protect_urls(old(text)@, 0),
{
    let t = chars_of(text.as_str());
    let ghost t0 = t@;
    let mut masked: Vec<char> = Vec::new();
    let mut urls: Vec<String> = Vec::new();
    let mut i: usize = 0;
    let mut k: usize = 0;
    while i < t.len()
        invariant
            i <= t@.len(),
            t@ == t0,
            k <= i,
            protect_masked(t0, 0, 0) == masked@ + protect_masked(t0, i as int, k as nat),
            protect_urls(t0, 0) == urls.deep_view() + protect_urls(t0, i as int),
        decreases t@.len() - i,
    {
        let ghost masked_pre = masked@;
        let ghost urls_pre = urls.deep_view();
        let sl = scheme_len_exec(&t, i);
        let e = i + sl;
        if sl > 0 && e < t.len() && !is_space_exec(t[e]) {
            assert(url_at(t0, i as int));
            proof {
                lemma_url_span(t0, i as int);
            }
            let end = run_end_exec(&t, e);
            assert(end as int == url_end(t0, i as int));
            let mut u: Vec<char> = Vec::new();
            let mut j = i;
            while j < end
                invariant
                    i <= j <= end,
                    end <= t@.len(),
                    t@ == t0,
                    u@ == t0.subrange(i as int, j as int),
                decreases end - j,
            {
                u.push(t[j]);
                j = j + 1;
                proof {
                    assert(u@ =~= t0.subrange(i as int, j as int));
                }
            }
            urls.push(string_of(&u));
            let mut mk = marker_vec(k);
            masked.append(&mut mk);
            proof {
                assert(protect_masked(t0, i as int, k as nat) == marker(k as nat)
                    + protect_masked(t0, end as int, (k + 1) as nat));
                assert(protect_urls(t0, i as int) == seq![t0.subrange(i as int, end as int)]
                    + protect_urls(t0, end as int));
                assert(masked@ + protect_masked(t0, end as int, (k + 1) as nat) =~= masked_pre
                    + protect_masked(t0, i as int, k as nat));
                assert(urls.deep_view() =~= urls_pre + seq![t0.subrange(i as int, end as int)]);
                assert(urls.deep_view() + protect_urls(t0, end as int) =~= urls_pre
                    + protect_urls(t0, i as int));
            }
            i = end;
            k = k + 1;
        } else {
            assert(!url_at(t0, i as int));
            masked.push(t[i]);
            proof {
                assert(protect_masked(t0, i as int, k as nat) == seq![t0[i as int]]
                    + protect_masked(t0, i + 1, k as nat));
                assert(masked@ + protect_masked(t0, i + 1, k as nat) =~= masked_pre
                    + protect_masked(t0, i as int, k as nat));
            }
            i = i + 1;
        }
    }
    *text = string_of(&masked);
    proof {
        assert(protect_masked(t0, t0.len() as int, k as nat) =~= Seq::<char>::empty());
        assert(protect_urls(t0, t0.len() as int) =~= Seq::<Seq<char>>::empty());
        assert(masked@ =~= masked@ + protect_masked(t0, t0.len() as int, k as nat));
        assert(urls.deep_view() =~= urls.deep_view() + protect_urls(t0, t0.len() as int));
    }
    urls
}

fn match_at(s: &Vec<char>, pat: &Vec<char>, p: usize) -> (r: bool)
    requires
        p + pat@.len() <= s@.len(),
    ensures
        r == occurs_at(s@, pat@, p as int),
{
    let n = s.len();
    let mut q: usize = 0;
    while q < pat.len()
        invariant
            n == s@.len(),
            q <= pat@.len(),
            p + pat@.len() <= s@.len(),
            forall|m: int| 0 <= m < q ==> s@[p + m] == pat@[m],
        decreases pat@.len() - q,
    {
        if s[p + q] != pat[q] {
            proof {
                assert(!occurs_at(s@, pat@, p as int)) by {
                    if occurs_at(s@, pat@, p as int) {
                        assert(s@.subrange(p as int, p + pat@.len())[q as int] == s@[p + q]);
                    }
                }
            }
            return false;
        }
        q = q + 1;
    }
    proof {
        assert(s@.subrange(p as int, p + pat@.len()) =~= pat@);
    }
    true
}

fn find_pat(s: &Vec<char>, pat: &Vec<char>) -> (r: Option<usize>)
    ensures
        match r {
            Some(p) => find_first(s@, pat@, 0) == Some(p as int) && occurs_at(s@, pat@, p as int),
            None => find_first(s@, pat@, 0) is None,
        },
{
    if pat.len() == 0 {
        proof {
            assert(s@.subrange(0, 0) =~= pat@);
        }
        return Some(0);
    }
    let mut p: usize = 0;
    loop
        invariant
            pat@.len() >= 1,
            p <= s@.len() + 1,
            find_first(s@, pat@, 0) == find_first(s@, pat@, p as int),
        decreases s@.len() + 1 - p,
    {
        if s.len() < pat.len() || p > s.len() - pat.len() {
            assert(p + pat@.len() > s@.len());
            return None;
        }
        if match_at(s, pat, p) {
            return Some(p);
        }
        p = p + 1;
    }
}

fn splice(s: &Vec<char>, p: usize, plen: usize, rep: &Vec<char>) -> (r: Vec<char>)
    requires
        p + plen <= s@.len(),
    ensures
        r@ == s@.take(p as int) + rep@ + s@.skip((p + plen) as int),
{
    let mut r: Vec<char> = Vec::new();
    let mut j: usize = 0;
    while j < p
        invariant
            j <= p,
            p + plen <= s@.len(),
            r@ == s@.subrange(0, j as int),
        decreases p - j,
    {
        r.push(s[j]);
        j = j + 1;
        proof {
            assert(r@ =~= s@.subrange(0, j as int));
        }
    }
    let mut m: usize = 0;
    while m < rep.len()
        invariant
            m <= rep@.len(),
            p + plen <= s@.len(),
            r@ == s@.subrange(0, p as int) + rep@.subrange(0, m as int),
        decreases rep@.len() - m,
    {
        r.push(rep[m]);
        m = m + 1;
        proof {
            assert(r@ =~= s@.subrange(0, p as int) + rep@.subrange(0, m as int));
        }
    }
    let n = s.len();
    let mut w: usize = p + plen;
    while w < n
        invariant
            n == s@.len(),
            p + plen <= w <= s@.len(),
            r@ == s@.subrange(0, p as int) + rep@ + s@.subrange((p + plen) as int, w as int),
        decreases s@.len() - w,
    {
        r.push(s[w]);
        w = w + 1;
        proof {
            assert(r@ =~= s@.subrange(0, p as int) + rep@ + s@.subrange(
                (p + plen) as int,
                w as int,
            ));
        }
    }
    proof {
        assert(rep@.subrange(0, rep@.len() as int) =~= rep@);
        assert(r@ =~= s@.take(p as int) + rep@ + s@.skip((p + plen) as int));
    }
    r
}

/// The translation adapter's verified half: checks both language tags
/// against the provider's recognized set and masks the text's URL spans.
/// The unverified shell sends the masked text to the provider;
/// `revert_placeholder` then puts the spans back into what comes back.
/// Fails with `UnsupportedLanguage`, leaving the text untouched, when
/// either tag is not recognized.
pub fn prepare_translation(text: &mut String, source_lang: &str, target_lang: &str) -> (r: Result<
    Vec<String>,
    RelayError,
>)
    ensures
        r is Ok <==> recognized_tag(source_lang@) && recognized_tag(target_lang@),
        r is Err ==> *final(text) == *old(text) && r == Err::<Vec<String>, RelayError>(
            RelayError::UnsupportedLanguage,
        ),
        r is Ok ==> (r matches Ok(urls) && final(text)@ == protect_masked(old(text)@, 0, 0)
            && urls.deep_view() == protect_urls(old(text)@, 0)),
{
    if !is_recognized_tag(source_lang) || !is_recognized_tag(target_lang) {
        return Err(RelayError::UnsupportedLanguage);
    }
    Ok(convert_placeholder(text))
}

/// Puts recorded spans back: for each index in order, the first occurrence
/// of that index's marker is replaced by the span recorded under it.
pub fn revert_placeholder(text: &mut String, urls: Vec<String>)
    ensures
        final(text)@ == restore_spans(old(text)@, urls.deep_view(), 0),
{
    let mut s = chars_of(text.as_str());
    let ghost s0 = s@;
    let ghost uv = urls.deep_view();
    proof {
        assert(uv.skip(0) =~= uv);
    }
    let mut j: usize = 0;
    while j < urls.len()
        invariant
            j <= urls@.len(),
            uv == urls.deep_view(),
            uv.len() == urls@.len(),
            restore_spans(s0, uv, 0) == restore_spans(s@, uv.skip(j as int), j as nat),
        decreases urls@.len() - j,
    {
        let ghost s_pre = s@;
        let pat = marker_vec(j);
        let u = chars_of(urls[j].as_str());
        match find_pat(&s, &pat) {
            Some(p) => {
                s = splice(&s, p, pat.len(), &u);
            },
            None => {},
        }
        proof {
            assert(uv.skip(j as int)[0] == uv[j as int]);
            assert(u@ == uv[j as int]);
            assert(s@ == replace_first(s_pre, marker(j as nat), uv.skip(j as int)[0]));
            assert(restore_spans(s_pre, uv.skip(j as int), j as nat) == restore_spans(
                s@,
                uv.skip(j as int).drop_first(),
                (j + 1) as nat,
            ));
            assert(uv.skip(j as int).drop_first() =~= uv.skip(j + 1));
        }
        j = j + 1;
    }
    proof {
        assert(uv.skip(urls@.len() as int) =~= Seq::<Seq<char>>::empty());
    }
    *text = string_of(&s);
}

} // verus!

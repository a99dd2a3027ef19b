//! Text utilities: string/char-vector conversions, HTML-entity decoding,
//! label-colon trimming, title overlap, and whitespace tokenizing.
use vstd::prelude::*;

use crate::scan::copy_range;

verus! {

/// Relies on str::chars (via collect into Vec): yields exactly the
/// characters of the string, in order.
#[verifier::external_body]
pub fn str_to_chars(s: &str) -> (r: Vec<char>)
    ensures
        r@ == s@,
{
    s.chars().collect()
}

/// Relies on String's FromIterator over char (via collect): builds the
/// string holding exactly the given characters, in order.
#[verifier::external_body]
pub fn chars_to_string(v: &Vec<char>) -> (r: String)
    ensures
        r@ == v@,
{
    v.iter().collect()
}

/// The text with its HTML entities decoded, as html_escape computes it.
pub uninterp spec fn html_decoded(s: Seq<char>) -> Seq<char>;

/// Relies on html_escape::decode_html_entities: the result is a pure
/// function of the input text; an entity always begins with `&`, so text
/// without `&` is returned unchanged.
#[verifier::external_body]
pub fn decode_entities(s: &str) -> (r: String)
    ensures
        r@ == html_decoded(s@),
        (forall|i: int| 0 <= i < s@.len() ==> s@[i] != '&') ==> r@ == s@,
{
    html_escape::decode_html_entities(s).into_owned()
}

/// The string without a trailing " :", when it has one and is at least two
/// characters long; otherwise the string itself.
pub open spec fn spec_remove_trailing_label_colon(s: Seq<char>) -> Seq<char> {
    if s.len() >= 2 && s[s.len() - 2] == ' ' && s[s.len() - 1] == ':' {
        s.subrange(0, s.len() - 2)
    } else {
        s
    }
}

/// Removes the space-colon suffix that infobox labels carry; strings
/// shorter than two characters or not ending in " :" come back unchanged.
pub fn remove_trailing_label_colon(s: &str) -> (r: String)
    ensures
        r@ == spec_remove_trailing_label_colon(s@),
{
    let v = str_to_chars(s);
    let n = v.len();
    if n >= 2 && v[n - 1] == ':' && v[n - 2] == ' ' {
        let w = copy_range(&v, 0, n - 2);
        chars_to_string(&w)
    } else {
        s.to_owned()
    }
}

/// The first `k` characters of `a` are exactly the last `k` characters of
/// `b`.
pub open spec fn head_tail_overlap(a: Seq<char>, b: Seq<char>, k: int) -> bool {
    &&& 0 <= k <= a.len()
    &&& k <= b.len()
    &&& a.subrange(0, k) == b.subrange(b.len() - k, b.len() as int)
}

/// The largest `k' <= k` such that the first `k'` characters of `a` equal
/// the last `k'` characters of `b` (zero always qualifies).
pub open spec fn overlap_start_len(a: Seq<char>, b: Seq<char>, k: int) -> int
    decreases k,
{
    if k <= 0 {
        0
    } else if head_tail_overlap(a, b, k) {
        k
    } else {
        overlap_start_len(a, b, k - 1)
    }
}

/// The longest prefix of `a` that is also a suffix of `b`.
pub open spec fn spec_overlap_start(a: Seq<char>, b: Seq<char>) -> Seq<char> {
    a.subrange(
        0,
        overlap_start_len(a, b, if a.len() <= b.len() { a.len() as int } else { b.len() as int }),
    )
}

/// Compare the first `k` characters of `a` with the last `k` of `b`.
fn head_tail_eq(a: &Vec<char>, b: &Vec<char>, k: usize) -> (r: bool)
    requires
        k <= a@.len(),
        k <= b@.len(),
    ensures
        r == head_tail_overlap(a@, b@, k as int),
{
    let bl = b.len();
    let off = bl - k;
    let mut m: usize = 0;
    while m < k
        invariant
            0 <= m <= k <= a@.len(),
            k <= b@.len(),
            b@.len() == bl,
            off == b@.len() - k,
            forall|j: int| 0 <= j < m ==> a@[j] == b@[b@.len() - k + j],
        decreases k - m,
    {
        if a[m] != b[off + m] {
            proof {
                if head_tail_overlap(a@, b@, k as int) {
                    assert(a@.subrange(0, k as int)[m as int] == b@.subrange(
                        b@.len() - k,
                        b@.len() as int,
                    )[m as int]);
                }
            }
            return false;
        }
        m = m + 1;
    }
    proof {
        assert(a@.subrange(0, k as int) =~= b@.subrange(b@.len() - k, b@.len() as int));
    }
    true
}

/// The longest prefix of `a` that is also a suffix of `b`; used to join a
/// main title with an alternate title that duplicates it with truncation.
pub fn overlap_start(a: &Vec<char>, b: &Vec<char>) -> (r: Vec<char>)
    ensures
        r@ == spec_overlap_start(a@, b@),
{
    let top: usize = if a.len() <= b.len() {
        a.len()
    } else {
        b.len()
    };
    let mut k: usize = top;
    while k > 0 && !head_tail_eq(a, b, k)
        invariant
            0 <= k <= top,
            top <= a@.len(),
            top <= b@.len(),
            overlap_start_len(a@, b@, top as int) == overlap_start_len(a@, b@, k as int),
        decreases k,
    {
        k = k - 1;
    }
    proof {
        assert(overlap_start_len(a@, b@, k as int) == k as int);
    }
    copy_range(a, 0, k)
}

/// An ASCII whitespace character, as str::split_ascii_whitespace splits.
pub open spec fn is_ascii_ws(c: char) -> bool {
    c == ' ' || c == '\t' || c == '\n' || c == '\r' || c == '\u{0c}'
}

/// First index at or after `from` that is past the end or holds ASCII
/// whitespace.
pub open spec fn nonws_run_end(t: Seq<char>, from: int) -> int
    decreases t.len() - from,
{
    if from < 0 || from >= t.len() {
        from
    } else if is_ascii_ws(t[from]) {
        from
    } else {
        nonws_run_end(t, from + 1)
    }
}

pub proof fn lemma_nonws_run_end(t: Seq<char>, from: int)
    requires
        0 <= from <= t.len(),
    ensures
        from <= nonws_run_end(t, from) <= t.len(),
    decreases t.len() - from,
{
    if from < t.len() && !is_ascii_ws(t[from]) {
        lemma_nonws_run_end(t, from + 1);
    }
}

/// The maximal non-whitespace runs of `t` at or after `from`, in order.
pub open spec fn ws_tokens(t: Seq<char>, from: int) -> Seq<Seq<char>>
    decreases t.len() - from,
{
    if from < 0 || from >= t.len() {
        Seq::empty()
    } else if is_ascii_ws(t[from]) {
        ws_tokens(t, from + 1)
    } else {
        let e = nonws_run_end(t, from);
        if from < e <= t.len() {
            seq![t.subrange(from, e)] + ws_tokens(t, e)
        } else {
            Seq::empty()
        }
    }
}

/// First whitespace-or-end index at or after `from`; mirrors
/// `nonws_run_end`.
fn find_nonws_run_end(t: &Vec<char>, from: usize) -> (r: usize)
    requires
        from <= t@.len(),
    ensures
        r == nonws_run_end(t@, from as int),
        from <= r <= t@.len(),
{
    let mut j: usize = from;
    while j < t.len() && !(t[j] == ' ' || t[j] == '\t' || t[j] == '\n' || t[j] == '\r' || t[j]
        == '\u{0c}')
        invariant
            from <= j <= t@.len(),
            nonws_run_end(t@, from as int) == nonws_run_end(t@, j as int),
        decreases t@.len() - j,
    {
        j = j + 1;
    }
    j
}

/// Splits on ASCII whitespace, as the raw tag tokens of a listing entry
/// are split.
pub fn split_ascii_ws(t: &Vec<char>) -> (r: Vec<String>)
    ensures
        r@.map_values(|s: String| s@) == ws_tokens(t@, 0),
{
    let mut r: Vec<String> = Vec::new();
    let mut i: usize = 0;
    proof {
        assert(r@.map_values(|s: String| s@) =~= Seq::<Seq<char>>::empty());
    }
    while i < t.len()
        invariant
            0 <= i <= t@.len(),
            r@.map_values(|s: String| s@) + ws_tokens(t@, i as int) =~= ws_tokens(t@, 0),
        decreases t@.len() - i,
    {
        if t[i] == ' ' || t[i] == '\t' || t[i] == '\n' || t[i] == '\r' || t[i] == '\u{0c}' {
            i = i + 1;
        } else {
            let e = find_nonws_run_end(t, i);
            proof {
                lemma_nonws_run_end(t@, i as int + 1);
            }
            let tok = copy_range(t, i, e);
            let s = chars_to_string(&tok);
            let ghost old_map = r@.map_values(|s: String| s@);
            r.push(s);
            proof {
                assert(r@.map_values(|s: String| s@) =~= old_map.push(tok@));
                assert(old_map.push(tok@) + ws_tokens(t@, e as int) =~= old_map + (seq![
                    t@.subrange(i as int, e as int),
                ] + ws_tokens(t@, e as int)));
            }
            i = e;
        }
    }
    proof {
        assert(r@.map_values(|s: String| s@) + ws_tokens(t@, i as int) =~= r@.map_values(
            |s: String| s@,
        ));
    }
    r
}

} // verus!

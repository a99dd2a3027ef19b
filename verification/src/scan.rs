//! Character-sequence scanning kernel: first-occurrence search for a literal
//! pattern, with exact specifications. All extractors are built on these.
use vstd::prelude::*;

verus! {

/// Pattern `p` occurs in `t` starting at index `i`.
pub open spec fn match_at(t: Seq<char>, p: Seq<char>, i: int) -> bool {
    &&& 0 <= i
    &&& i + p.len() <= t.len()
    &&& t.subrange(i, i + p.len() as int) == p
}

/// Index of the first occurrence of `p` in `t` at or after `from`.
pub open spec fn first_match_from(t: Seq<char>, p: Seq<char>, from: int) -> Option<int>
    decreases t.len() - from + 1,
{
    if from < 0 || from + p.len() > t.len() {
        None
    } else if match_at(t, p, from) {
        Some(from)
    } else {
        first_match_from(t, p, from + 1)
    }
}

/// `first_match_from` returns the least matching index at or after `from`,
/// and `None` exactly when no index at or after `from` matches.
pub proof fn lemma_first_match_from(t: Seq<char>, p: Seq<char>, from: int)
    requires
        0 <= from,
    ensures
        first_match_from(t, p, from) matches Some(i) ==> from <= i && match_at(t, p, i)
            && (forall|j: int| from <= j < i ==> !match_at(t, p, j)),
        first_match_from(t, p, from) is None ==> forall|j: int| j >= from ==> !match_at(t, p, j),
    decreases t.len() - from + 1,
{
    if from + p.len() > t.len() {
    } else if match_at(t, p, from) {
    } else {
        lemma_first_match_from(t, p, from + 1);
    }
}

/// The earlier of two optional indices.
pub open spec fn opt_min(a: Option<int>, b: Option<int>) -> Option<int> {
    match (a, b) {
        (Option::None, Option::None) => None,
        (Option::Some(x), Option::None) => Some(x),
        (Option::None, Option::Some(y)) => Some(y),
        (Option::Some(x), Option::Some(y)) => if x <= y {
            Some(x)
        } else {
            Some(y)
        },
    }
}

/// Index of the first occurrence of the character `c` in `t` at or after
/// `from`.
pub open spec fn first_char_at(t: Seq<char>, c: char, from: int) -> Option<int>
    decreases t.len() - from,
{
    if from < 0 || from >= t.len() {
        None
    } else if t[from] == c {
        Some(from)
    } else {
        first_char_at(t, c, from + 1)
    }
}

/// First occurrence of the character `c` at or after `from`; mirrors
/// `first_char_at` exactly.
pub fn find_char_from(t: &Vec<char>, c: char, from: usize) -> (r: Option<usize>)
    ensures
        r matches Some(i) ==> first_char_at(t@, c, from as int) == Some(i as int),
        r is None ==> first_char_at(t@, c, from as int) is None,
        r matches Some(i) ==> from <= i < t@.len() && t@[i as int] == c,
{
    let mut i: usize = from;
    if i > t.len() {
        return None;
    }
    while i < t.len()
        invariant
            from <= i <= t@.len(),
            first_char_at(t@, c, from as int) == first_char_at(t@, c, i as int),
        decreases t@.len() - i,
    {
        if t[i] == c {
            return Some(i);
        }
        i = i + 1;
    }
    None
}

/// Compare `p` against `t` at position `i`.
pub fn eq_at(t: &Vec<char>, p: &Vec<char>, i: usize) -> (r: bool)
    requires
        i + p@.len() <= t@.len(),
    ensures
        r == match_at(t@, p@, i as int),
{
    let tlen = t.len();
    let mut k: usize = 0;
    while k < p.len()
        invariant
            0 <= k <= p@.len(),
            i + p@.len() <= t@.len(),
            t@.len() == tlen,
            forall|m: int| 0 <= m < k ==> t@[i + m] == p@[m],
        decreases p@.len() - k,
    {
        if t[i + k] != p[k] {
            proof {
                if match_at(t@, p@, i as int) {
                    assert(t@.subrange(i as int, i + p@.len() as int)[k as int] == p@[k as int]);
                }
            }
            return false;
        }
        k = k + 1;
    }
    proof {
        assert(t@.subrange(i as int, i + p@.len() as int) =~= p@);
    }
    true
}

/// First occurrence of `p` in `t` at or after `from`; mirrors
/// `first_match_from` exactly.
pub fn find_from(t: &Vec<char>, p: &Vec<char>, from: usize) -> (r: Option<usize>)
    ensures
        r matches Some(i) ==> first_match_from(t@, p@, from as int) == Some(i as int),
        r is None ==> first_match_from(t@, p@, from as int) is None,
        r matches Some(i) ==> from <= i && match_at(t@, p@, i as int),
{
    if p.len() == 0 {
        if from <= t.len() {
            proof {
                assert(t@.subrange(from as int, from as int) =~= p@);
            }
            return Some(from);
        }
        return None;
    }
    if p.len() > t.len() || from > t.len() - p.len() {
        return None;
    }
    let mut i: usize = from;
    while i <= t.len() - p.len()
        invariant
            from <= i <= t@.len(),
            1 <= p@.len() <= t@.len(),
            first_match_from(t@, p@, from as int) == first_match_from(t@, p@, i as int),
        decreases t@.len() - i,
    {
        if eq_at(t, p, i) {
            return Some(i);
        }
        i = i + 1;
    }
    None
}

/// Copy of `t[a..b]` as a new vector.
pub fn copy_range(t: &Vec<char>, a: usize, b: usize) -> (r: Vec<char>)
    requires
        a <= b <= t@.len(),
    ensures
        r@ == t@.subrange(a as int, b as int),
{
    let mut r: Vec<char> = Vec::new();
    proof {
        assert(t@.subrange(a as int, a as int) =~= Seq::<char>::empty());
    }
    let mut k: usize = a;
    while k < b
        invariant
            a <= k <= b <= t@.len(),
            r@ == t@.subrange(a as int, k as int),
        decreases b - k,
    {
        r.push(t[k]);
        proof {
            assert(t@.subrange(a as int, k as int).push(t@[k as int]) =~= t@.subrange(
                a as int,
                k + 1 as int,
            ));
        }
        k = k + 1;
    }
    r
}

} // verus!

//! A JSON writer and reader for the manifests: a ghost model of JSON
//! values, a pretty renderer, a parser of the rendered form, and the proof
//! that parsing inverts rendering.
//!
//! Strings escape the quote, the backslash, newline, carriage return and
//! tab; any other character is written as it stands.
use vstd::prelude::*;

use crate::numbers::dec_digits;
use crate::numbers::digits_val;
use crate::numbers::is_digit;
use crate::numbers::digit_end;
use crate::numbers::digit_end_exec;
use crate::numbers::lemma_dec_digits_val;
use crate::numbers::lemma_digit_end_props;
use crate::scan::match_at;

verus! {

/// The mathematical shape of a JSON value, as the manifests use it.
#[verifier::ext_equal]
pub enum JModel {
    Null,
    Num { neg: bool, mag: u64 },
    Str(Seq<char>),
    Arr(Seq<JModel>),
    Obj(Seq<(Seq<char>, JModel)>),
}

/// Values the renderer emits: a negative number has a nonzero magnitude.
pub open spec fn canon(v: JModel) -> bool
    decreases v,
{
    match v {
        JModel::Null => true,
        JModel::Num { neg, mag } => neg ==> mag >= 1,
        JModel::Str(_) => true,
        JModel::Arr(items) => forall|k: int|
            0 <= k < items.len() ==> canon(#[trigger] items[k]),
        JModel::Obj(fields) => forall|k: int|
            0 <= k < fields.len() ==> canon(#[trigger] fields[k].1),
    }
}

pub open spec fn is_json_ws(c: char) -> bool {
    c == ' ' || c == '\n' || c == '\t' || c == '\r'
}

/// The escape of one string character.
pub open spec fn esc_char(c: char) -> Seq<char> {
    if c == '"' {
        seq!['\\', '"']
    } else if c == '\\' {
        seq!['\\', '\\']
    } else if c == '\n' {
        seq!['\\', 'n']
    } else if c == '\r' {
        seq!['\\', 'r']
    } else if c == '\t' {
        seq!['\\', 't']
    } else {
        seq![c]
    }
}

/// The escaped body of a string literal.
pub open spec fn esc_str(s: Seq<char>) -> Seq<char>
    decreases s.len(),
{
    if s.len() == 0 {
        Seq::empty()
    } else {
        esc_char(s[0]) + esc_str(s.drop_first())
    }
}


/// The indentation one level deeper; it stops growing at a limit so the
/// writer's column arithmetic stays small.
pub open spec fn bump(ind: nat) -> nat {
    if ind + 2 <= 64 {
        ind + 2
    } else {
        ind
    }
}

pub open spec fn spaces(n: nat) -> Seq<char> {
    Seq::new(n, |i: int| ' ')
}

pub open spec fn render_num(neg: bool, mag: u64) -> Seq<char> {
    if neg {
        seq!['-'] + dec_digits(mag as nat)
    } else {
        dec_digits(mag as nat)
    }
}

/// The pretty rendering of a value at the given indentation.
pub open spec fn spec_render(v: JModel, ind: nat) -> Seq<char>
    decreases v, 0int, 0int,
{
    match v {
        JModel::Null => seq!['n', 'u', 'l', 'l'],
        JModel::Num { neg, mag } => render_num(neg, mag),
        JModel::Str(s) => seq!['"'] + esc_str(s) + seq!['"'],
        JModel::Arr(items) => if items.len() == 0 {
            seq!['[', ']']
        } else {
            seq!['[', '\n'] + render_arr_items(items, 0, ind) + spaces(ind) + seq![']']
        },
        JModel::Obj(fields) => if fields.len() == 0 {
            seq!['{', '}']
        } else {
            seq!['{', '\n'] + render_obj_items(fields, 0, ind) + spaces(ind) + seq!['}']
        },
    }
}

/// The item lines of a nonempty array, from index `k` on.
pub open spec fn render_arr_items(items: Seq<JModel>, k: int, ind: nat) -> Seq<char>
    decreases items, 1int, items.len() - k,
{
    if k < 0 || k >= items.len() {
        Seq::empty()
    } else {
        spaces(bump(ind)) + spec_render(items[k], bump(ind)) + (if k + 1 < items.len() {
            seq![',']
        } else {
            Seq::empty()
        }) + seq!['\n'] + render_arr_items(items, k + 1, ind)
    }
}

/// The member lines of a nonempty object, from index `k` on.
pub open spec fn render_obj_items(fields: Seq<(Seq<char>, JModel)>, k: int, ind: nat) -> Seq<char>
    decreases fields, 1int, fields.len() - k,
{
    if k < 0 || k >= fields.len() {
        Seq::empty()
    } else {
        spaces(bump(ind)) + seq!['"'] + esc_str(fields[k].0) + seq!['"', ':', ' '] + spec_render(
            fields[k].1,
            bump(ind),
        ) + (if k + 1 < fields.len() {
            seq![',']
        } else {
            Seq::empty()
        }) + seq!['\n'] + render_obj_items(fields, k + 1, ind)
    }
}

/// First index at or after `i` holding no JSON whitespace.
pub open spec fn ws_end(t: Seq<char>, i: int) -> int
    decreases t.len() - i,
{
    if i < 0 || i >= t.len() {
        i
    } else if is_json_ws(t[i]) {
        ws_end(t, i + 1)
    } else {
        i
    }
}

/// The body of a string literal read from just after the opening quote:
/// the decoded characters and the index after the closing quote.
pub open spec fn parse_str_body(t: Seq<char>, i: int) -> Option<(Seq<char>, int)>
    decreases t.len() - i,
{
    if i < 0 || i >= t.len() {
        None
    } else if t[i] == '"' {
        Some((Seq::empty(), i + 1))
    } else if t[i] == '\\' {
        if i + 1 < t.len() {
            let e = t[i + 1];
            if e == '"' || e == '\\' || e == 'n' || e == 'r' || e == 't' {
                let c = if e == '"' {
                    '"'
                } else if e == '\\' {
                    '\\'
                } else if e == 'n' {
                    '\n'
                } else if e == 'r' {
                    '\r'
                } else {
                    '\t'
                };
                match parse_str_body(t, i + 2) {
                    Option::Some(p) => Some((seq![c] + p.0, p.1)),
                    Option::None => None,
                }
            } else {
                None
            }
        } else {
            None
        }
    } else {
        match parse_str_body(t, i + 1) {
            Option::Some(p) => Some((seq![t[i]] + p.0, p.1)),
            Option::None => None,
        }
    }
}

/// A number read at `i`: an optional minus, then a digit run that fits u64.
pub open spec fn parse_num_at(t: Seq<char>, i: int) -> Option<(JModel, int)> {
    let neg = 0 <= i < t.len() && t[i] == '-';
    let j = if neg {
        i + 1
    } else {
        i
    };
    let e = digit_end(t, j);
    if 0 <= j < e && digits_val(t.subrange(j, e)) <= u64::MAX {
        Some((JModel::Num { neg, mag: digits_val(t.subrange(j, e)) as u64 }, e))
    } else {
        None
    }
}

/// A JSON value read at `i`, after whitespace: the value and the index
/// just past it.
pub open spec fn parse_value(t: Seq<char>, i: int) -> Option<(JModel, int)>
    decreases t.len() - i, 0int,
{
    let j = ws_end(t, i);
    if j < 0 || j >= t.len() || j < i {
        None
    } else if t[j] == 'n' {
        if match_at(t, seq!['n', 'u', 'l', 'l'], j) {
            Some((JModel::Null, j + 4))
        } else {
            None
        }
    } else if t[j] == '"' {
        match parse_str_body(t, j + 1) {
            Option::Some(p) => Some((JModel::Str(p.0), p.1)),
            Option::None => None,
        }
    } else if t[j] == '[' {
        match parse_arr_items(t, j + 1) {
            Option::Some(p) => Some((JModel::Arr(p.0), p.1)),
            Option::None => None,
        }
    } else if t[j] == '{' {
        match parse_obj_items(t, j + 1) {
            Option::Some(p) => Some((JModel::Obj(p.0), p.1)),
            Option::None => None,
        }
    } else {
        parse_num_at(t, j)
    }
}

/// The items of an array read from just after `[` or a comma: the
/// elements and the index after `]`.
pub open spec fn parse_arr_items(t: Seq<char>, i: int) -> Option<(Seq<JModel>, int)>
    decreases t.len() - i, 1int,
{
    let j = ws_end(t, i);
    if j < 0 || j >= t.len() || j < i {
        None
    } else if t[j] == ']' {
        Some((Seq::empty(), j + 1))
    } else {
        match parse_value(t, j) {
            Option::Some(p) => {
                if p.1 <= j || p.1 > t.len() {
                    None
                } else {
                    let j2 = ws_end(t, p.1);
                    if p.1 <= j2 < t.len() && t[j2] == ',' {
                        match parse_arr_items(t, j2 + 1) {
                            Option::Some(q) => Some((seq![p.0] + q.0, q.1)),
                            Option::None => None,
                        }
                    } else if 0 <= j2 < t.len() && t[j2] == ']' {
                        Some((seq![p.0], j2 + 1))
                    } else {
                        None
                    }
                }
            },
            Option::None => None,
        }
    }
}

/// The members of an object read from just after `{` or a comma: the
/// fields and the index after `}`.
pub open spec fn parse_obj_items(t: Seq<char>, i: int) -> Option<
    (Seq<(Seq<char>, JModel)>, int),
>
    decreases t.len() - i, 1int,
{
    let j = ws_end(t, i);
    if j < 0 || j >= t.len() || j < i {
        None
    } else if t[j] == '}' {
        Some((Seq::empty(), j + 1))
    } else if t[j] == '"' {
        match parse_str_body(t, j + 1) {
            Option::Some(kp) => {
                if kp.1 <= j || kp.1 > t.len() {
                    None
                } else {
                    let j2 = ws_end(t, kp.1);
                    if kp.1 <= j2 < t.len() && t[j2] == ':' {
                        match parse_value(t, j2 + 1) {
                            Option::Some(p) => {
                                if p.1 <= j2 || p.1 > t.len() {
                                    None
                                } else {
                                    let j3 = ws_end(t, p.1);
                                    if p.1 <= j3 < t.len() && t[j3] == ',' {
                                        match parse_obj_items(t, j3 + 1) {
                                            Option::Some(q) => Some(
                                                (seq![(kp.0, p.0)] + q.0, q.1),
                                            ),
                                            Option::None => None,
                                        }
                                    } else if 0 <= j3 < t.len() && t[j3] == '}' {
                                        Some((seq![(kp.0, p.0)], j3 + 1))
                                    } else {
                                        None
                                    }
                                }
                            },
                            Option::None => None,
                        }
                    } else {
                        None
                    }
                }
            },
            Option::None => None,
        }
    } else {
        None
    }
}

/// A whole document: one value with nothing but whitespace after it.
pub open spec fn parse_doc(t: Seq<char>) -> Option<JModel> {
    match parse_value(t, 0) {
        Option::Some(p) => if ws_end(t, p.1) == t.len() {
            Some(p.0)
        } else {
            None
        },
        Option::None => None,
    }
}

/// One position of a matched fragment.
pub proof fn lemma_match_index(t: Seq<char>, a: Seq<char>, i: int, k: int)
    requires
        match_at(t, a, i),
        0 <= k < a.len(),
    ensures
        t[i + k] == a[k],
{
    assert(t.subrange(i, i + a.len() as int)[k] == a[k]);
}

/// A match of a concatenation is a match of each part in place, and back.
pub proof fn lemma_match_split(t: Seq<char>, a: Seq<char>, b: Seq<char>, i: int)
    requires
        0 <= i,
    ensures
        match_at(t, a + b, i) <==> (match_at(t, a, i) && match_at(t, b, i + a.len())),
{
    if match_at(t, a + b, i) {
        assert forall|k: int| 0 <= k < a.len() implies t[i + k] == a[k] by {
            lemma_match_index(t, a + b, i, k);
        }
        assert forall|k: int| 0 <= k < b.len() implies t[i + a.len() + k] == b[k] by {
            lemma_match_index(t, a + b, i, a.len() + k);
        }
        assert(t.subrange(i, i + a.len() as int) =~= a);
        assert(t.subrange(i + a.len(), i + a.len() + b.len() as int) =~= b);
    }
    if match_at(t, a, i) && match_at(t, b, i + a.len()) {
        assert forall|k: int| 0 <= k < a.len() + b.len() implies t[i + k] == (a + b)[k] by {
            if k < a.len() {
                lemma_match_index(t, a, i, k);
            } else {
                lemma_match_index(t, b, i + a.len(), k - a.len());
            }
        }
        assert(t.subrange(i, i + (a + b).len() as int) =~= a + b);
    }
}

/// Skipping whitespace from `i` lands exactly on `j` when everything
/// before `j` is whitespace and `j` is the end or holds none.
pub proof fn lemma_ws_end_at(t: Seq<char>, i: int, j: int)
    requires
        0 <= i <= j <= t.len(),
        forall|k: int| i <= k < j ==> is_json_ws(t[k]),
        j == t.len() || !is_json_ws(t[j]),
    ensures
        ws_end(t, i) == j,
    decreases j - i,
{
    if i < j {
        lemma_ws_end_at(t, i + 1, j);
    }
}

/// Skipping digits from `i` lands exactly on `j` when everything before
/// `j` is a digit and `j` is the end or holds none.
pub proof fn lemma_digit_end_at(t: Seq<char>, i: int, j: int)
    requires
        0 <= i <= j <= t.len(),
        forall|k: int| i <= k < j ==> is_digit(t[k]),
        j == t.len() || !is_digit(t[j]),
    ensures
        digit_end(t, i) == j,
    decreases j - i,
{
    if i < j {
        lemma_digit_end_at(t, i + 1, j);
    }
}

/// Reading an escaped string body up to its closing quote gives back the
/// original characters.
pub proof fn lemma_esc_parse(t: Seq<char>, i: int, s: Seq<char>)
    requires
        0 <= i,
        match_at(t, esc_str(s) + seq!['"'], i),
    ensures
        parse_str_body(t, i) == Some((s, i + esc_str(s).len() + 1)),
    decreases s.len(),
{
    if s.len() == 0 {
        assert(esc_str(s) + seq!['"'] =~= seq!['"']);
        lemma_match_index(t, seq!['"'], i, 0);
        assert(s =~= Seq::<char>::empty());
    } else {
        let c = s[0];
        let rest = s.drop_first();
        assert(esc_str(s) == esc_char(c) + esc_str(rest));
        assert((esc_char(c) + esc_str(rest)) + seq!['"'] =~= esc_char(c) + (esc_str(rest)
            + seq!['"']));
        lemma_match_split(t, esc_char(c), esc_str(rest) + seq!['"'], i);
        lemma_esc_parse(t, i + esc_char(c).len(), rest);
        assert(seq![c] + rest =~= s);
        if c == '"' || c == '\\' || c == '\n' || c == '\r' || c == '\t' {
            lemma_match_index(t, esc_char(c), i, 0);
            lemma_match_index(t, esc_char(c), i, 1);
            assert(parse_str_body(t, i) == Some((s, i + esc_str(s).len() + 1)));
        } else {
            lemma_match_index(t, esc_char(c), i, 0);
            assert(t[i] == c);
            assert(parse_str_body(t, i) == Some((s, i + esc_str(s).len() + 1)));
        }
    }
}

/// Reading a rendered number gives back its sign and magnitude.
pub proof fn lemma_num_parse(t: Seq<char>, i: int, neg: bool, mag: u64)
    requires
        0 <= i,
        neg ==> mag >= 1,
        match_at(t, render_num(neg, mag), i),
        i + render_num(neg, mag).len() == t.len() || !is_digit(
            t[i + render_num(neg, mag).len()],
        ),
    ensures
        parse_num_at(t, i) == Some((JModel::Num { neg, mag }, i + render_num(neg, mag).len())),
{
    lemma_dec_digits_val(mag as nat);
    let d = dec_digits(mag as nat);
    let j: int = if neg {
        i + 1
    } else {
        i
    };
    if neg {
        assert(render_num(neg, mag) == seq!['-'] + d);
        lemma_match_split(t, seq!['-'], d, i);
        lemma_match_index(t, seq!['-'], i, 0);
        assert(t[i] == '-');
    } else {
        lemma_match_index(t, d, i, 0);
        assert(is_digit(t[i]));
        assert(t[i] != '-');
    }
    assert(match_at(t, d, j));
    assert forall|k: int| j <= k < j + d.len() implies is_digit(t[k]) by {
        lemma_match_index(t, d, j, k - j);
    }
    lemma_digit_end_at(t, j, j + d.len());
    assert(t.subrange(j, j + d.len() as int) == d);
    assert(digits_val(t.subrange(j, j + d.len() as int)) == mag);
}

/// The first character a rendering starts with, by variant; it is never
/// whitespace nor a closing token.
pub proof fn lemma_render_first(v: JModel, ind: nat)
    ensures
        spec_render(v, ind).len() >= 1,
        !is_json_ws(spec_render(v, ind)[0]),
        spec_render(v, ind)[0] != ']' && spec_render(v, ind)[0] != '}' && spec_render(v, ind)[0]
            != ',' && spec_render(v, ind)[0] != ':',
        v is Null ==> spec_render(v, ind)[0] == 'n',
        v is Str ==> spec_render(v, ind)[0] == '"',
        v is Arr ==> spec_render(v, ind)[0] == '[',
        v is Obj ==> spec_render(v, ind)[0] == '{',
        v is Num ==> (spec_render(v, ind)[0] == '-' || is_digit(spec_render(v, ind)[0]))
            && spec_render(v, ind)[0] != 'n' && spec_render(v, ind)[0] != '"' && spec_render(
            v,
            ind,
        )[0] != '[' && spec_render(v, ind)[0] != '{',
{
    match v {
        JModel::Num { neg, mag } => {
            lemma_dec_digits_val(mag as nat);
            if !neg {
                assert(spec_render(v, ind)[0] == dec_digits(mag as nat)[0]);
                assert(is_digit(dec_digits(mag as nat)[0]));
            }
        },
        _ => {},
    }
}


/// Reading back a rendered value that sits after whitespace at `iv`.
pub proof fn lemma_render_parse(v: JModel, ind: nat, t: Seq<char>, i: int, iv: int)
    requires
        canon(v),
        0 <= i <= iv,
        ws_end(t, i) == iv,
        match_at(t, spec_render(v, ind), iv),
        iv + spec_render(v, ind).len() == t.len() || !is_digit(
            t[iv + spec_render(v, ind).len()],
        ),
    ensures
        parse_value(t, i) == Some((v, iv + spec_render(v, ind).len())),
    decreases v, 0int, 0int,
{
    lemma_render_first(v, ind);
    lemma_match_index(t, spec_render(v, ind), iv, 0);
    match v {
        JModel::Null => {
        },
        JModel::Num { neg, mag } => {
            lemma_num_parse(t, iv, neg, mag);
        },
        JModel::Str(s) => {
            assert(spec_render(v, ind) =~= seq!['"'] + (esc_str(s) + seq!['"']));
            lemma_match_split(t, seq!['"'], esc_str(s) + seq!['"'], iv);
            lemma_esc_parse(t, iv + 1, s);
        },
        JModel::Arr(items) => {
            if items.len() == 0 {
                lemma_match_index(t, spec_render(v, ind), iv, 1);
                lemma_ws_end_at(t, iv + 1, iv + 1);
                assert(items =~= Seq::<JModel>::empty());
            } else {
                let body = render_arr_items(items, 0, ind);
                let frag = seq!['\n'] + body + spaces(ind) + seq![']'];
                assert(spec_render(v, ind) =~= seq!['['] + frag);
                lemma_match_split(t, seq!['['], frag, iv);
                assert(forall|q: int| 0 <= q < items.len() ==> canon(#[trigger] items[q]));
                lemma_arr_items_parse(items, 0, ind, t, iv + 1);
                assert(items.skip(0) =~= items);
            }
        },
        JModel::Obj(fields) => {
            if fields.len() == 0 {
                lemma_match_index(t, spec_render(v, ind), iv, 1);
                lemma_ws_end_at(t, iv + 1, iv + 1);
                assert(fields =~= Seq::<(Seq<char>, JModel)>::empty());
            } else {
                let body = render_obj_items(fields, 0, ind);
                let frag = seq!['\n'] + body + spaces(ind) + seq!['}'];
                assert(spec_render(v, ind) =~= seq!['{'] + frag);
                lemma_match_split(t, seq!['{'], frag, iv);
                assert(forall|q: int| 0 <= q < fields.len() ==> canon(#[trigger] fields[q].1));
                lemma_obj_items_parse(fields, 0, ind, t, iv + 1);
                assert(fields.skip(0) =~= fields);
            }
        },
    }
}

/// Reading back the item lines of an array from index `k` on, starting
/// just after the opening bracket or a separating comma.
#[verifier::rlimit(80)]
pub proof fn lemma_arr_items_parse(items: Seq<JModel>, k: int, ind: nat, t: Seq<char>, i: int)
    requires
        forall|q: int| 0 <= q < items.len() ==> canon(#[trigger] items[q]),
        0 <= k < items.len(),
        0 <= i,
        match_at(t, seq!['\n'] + render_arr_items(items, k, ind) + spaces(ind) + seq![']'], i),
    ensures
        parse_arr_items(t, i) == Some(
            (
                items.skip(k),
                i + (seq!['\n'] + render_arr_items(items, k, ind) + spaces(ind)
                    + seq![']']).len(),
            ),
        ),
    decreases items, 1int, items.len() - k,
{
    let item_r = spec_render(items[k], bump(ind));
    let sep: Seq<char> = if k + 1 < items.len() {
        seq![',']
    } else {
        Seq::empty()
    };
    let tail = render_arr_items(items, k + 1, ind);
    assert(render_arr_items(items, k, ind) == spaces(bump(ind)) + item_r + sep + seq!['\n']
        + tail);
    let w = seq!['\n'] + spaces(bump(ind));
    let frag = seq!['\n'] + render_arr_items(items, k, ind) + spaces(ind) + seq![']'];
    let rest2 = sep + seq!['\n'] + tail + spaces(ind) + seq![']'];
    assert(frag =~= w + (item_r + rest2));
    lemma_match_split(t, w, item_r + rest2, i);
    lemma_match_split(t, item_r, rest2, i + w.len());
    let j = i + w.len();
    lemma_render_first(items[k], bump(ind));
    assert forall|q: int| i <= q < j implies is_json_ws(t[q]) by {
        lemma_match_index(t, w, i, q - i);
    }
    lemma_match_index(t, item_r, j, 0);
    lemma_ws_end_at(t, i, j);
    assert(canon(items[k]));
    let e = j + item_r.len();
    lemma_match_index(t, rest2, e, 0);
    lemma_ws_end_at(t, j, j);
    lemma_render_parse(items[k], bump(ind), t, j, j);
    if k + 1 < items.len() {
        lemma_ws_end_at(t, e, e);
        assert(rest2 =~= seq![','] + (seq!['\n'] + tail + spaces(ind) + seq![']']));
        lemma_match_split(t, seq![','], seq!['\n'] + tail + spaces(ind) + seq![']'], e);
        lemma_arr_items_parse(items, k + 1, ind, t, e + 1);
        assert(seq![items[k]] + items.skip(k + 1) =~= items.skip(k));
    } else {
        assert(tail =~= Seq::<char>::empty());
        assert(rest2 =~= seq!['\n'] + spaces(ind) + seq![']']);
        assert forall|q: int| e <= q < e + 1 + ind implies is_json_ws(t[q]) by {
            lemma_match_index(t, rest2, e, q - e);
        }
        lemma_match_index(t, rest2, e, 1 + ind as int);
        lemma_ws_end_at(t, e, e + 1 + ind);
        assert(items.skip(k) =~= seq![items[k]]);
    }
}

/// Reading back the member lines of an object from index `k` on, starting
/// just after the opening brace or a separating comma.
#[verifier::rlimit(80)]
pub proof fn lemma_obj_items_parse(
    fields: Seq<(Seq<char>, JModel)>,
    k: int,
    ind: nat,
    t: Seq<char>,
    i: int,
)
    requires
        forall|q: int| 0 <= q < fields.len() ==> canon(#[trigger] fields[q].1),
        0 <= k < fields.len(),
        0 <= i,
        match_at(t, seq!['\n'] + render_obj_items(fields, k, ind) + spaces(ind) + seq!['}'], i),
    ensures
        parse_obj_items(t, i) == Some(
            (
                fields.skip(k),
                i + (seq!['\n'] + render_obj_items(fields, k, ind) + spaces(ind)
                    + seq!['}']).len(),
            ),
        ),
    decreases fields, 1int, fields.len() - k,
{
    let key = fields[k].0;
    let val = fields[k].1;
    let val_r = spec_render(val, bump(ind));
    let sep: Seq<char> = if k + 1 < fields.len() {
        seq![',']
    } else {
        Seq::empty()
    };
    let tail = render_obj_items(fields, k + 1, ind);
    assert(render_obj_items(fields, k, ind) == spaces(bump(ind)) + seq!['"'] + esc_str(key)
        + seq!['"', ':', ' '] + val_r + sep + seq!['\n'] + tail);
    let w = seq!['\n'] + spaces(bump(ind));
    let frag = seq!['\n'] + render_obj_items(fields, k, ind) + spaces(ind) + seq!['}'];
    let keypart = seq!['"'] + (esc_str(key) + seq!['"']);
    let rest_after_key = seq![':', ' '] + val_r + sep + seq!['\n'] + tail + spaces(ind)
        + seq!['}'];
    assert(frag =~= w + (keypart + rest_after_key));
    lemma_match_split(t, w, keypart + rest_after_key, i);
    lemma_match_split(t, keypart, rest_after_key, i + w.len());
    let j = i + w.len();
    assert forall|q: int| i <= q < j implies is_json_ws(t[q]) by {
        lemma_match_index(t, w, i, q - i);
    }
    lemma_match_index(t, keypart, j, 0);
    lemma_ws_end_at(t, i, j);
    lemma_match_split(t, seq!['"'], esc_str(key) + seq!['"'], j);
    lemma_esc_parse(t, j + 1, key);
    let ek = j + keypart.len();
    let rest3 = sep + seq!['\n'] + tail + spaces(ind) + seq!['}'];
    // after the key: ':' then one space, then the value
    assert(rest_after_key =~= seq![':', ' '] + (val_r + rest3));
    lemma_match_split(t, seq![':', ' '], val_r + rest3, ek);
    lemma_match_index(t, seq![':', ' '], ek, 0);
    lemma_match_index(t, seq![':', ' '], ek, 1);
    lemma_ws_end_at(t, ek, ek);
    let jv = ek + 2;
    lemma_render_first(val, bump(ind));
    lemma_match_split(t, val_r, rest3, jv);
    lemma_match_index(t, val_r, jv, 0);
    lemma_ws_end_at(t, ek + 1, jv);
    assert(canon(val));
    let ev = jv + val_r.len();
    lemma_match_index(t, rest3, ev, 0);
    lemma_render_parse(val, bump(ind), t, ek + 1, jv);
    if k + 1 < fields.len() {
        lemma_ws_end_at(t, ev, ev);
        assert(rest3 =~= seq![','] + (seq!['\n'] + tail + spaces(ind) + seq!['}']));
        lemma_match_split(t, seq![','], seq!['\n'] + tail + spaces(ind) + seq!['}'], ev);
        lemma_obj_items_parse(fields, k + 1, ind, t, ev + 1);
        assert(fields[k] == (fields[k].0, fields[k].1));
        assert(seq![(key, val)] + fields.skip(k + 1) =~= fields.skip(k));
    } else {
        assert(tail =~= Seq::<char>::empty());
        assert(rest3 =~= seq!['\n'] + spaces(ind) + seq!['}']);
        assert forall|q: int| ev <= q < ev + 1 + ind implies is_json_ws(t[q]) by {
            lemma_match_index(t, rest3, ev, q - ev);
        }
        lemma_match_index(t, rest3, ev, 1 + ind as int);
        lemma_ws_end_at(t, ev, ev + 1 + ind);
        assert(fields[k] == (fields[k].0, fields[k].1));
        assert(fields.skip(k) =~= seq![(key, val)]);
    }
}

/// Rendering a canonical value and parsing the result gives it back: the
/// manifest codec round-trips.
pub proof fn lemma_doc_round_trip(v: JModel)
    requires
        canon(v),
    ensures
        parse_doc(spec_render(v, 0)) == Some(v),
{
    let t = spec_render(v, 0);
    assert(t.subrange(0, t.len() as int) =~= t);
    lemma_render_first(v, 0);
    lemma_ws_end_at(t, 0, 0);
    lemma_render_parse(v, 0, t, 0, 0);
}

/// An executable JSON value, mirroring `JModel`.
#[derive(Debug, PartialEq, Eq)]
pub enum Json {
    Null,
    Num { neg: bool, mag: u64 },
    Str(Vec<char>),
    Arr(Vec<Json>),
    Obj(Vec<(Vec<char>, Json)>),
}

/// The model a `Json` value stands for.
pub open spec fn jm(j: Json) -> JModel
    decreases j, 1int,
{
    match j {
        Json::Null => JModel::Null,
        Json::Num { neg, mag } => JModel::Num { neg, mag },
        Json::Str(v) => JModel::Str(v@),
        Json::Arr(items) => JModel::Arr(jm_seq(items@)),
        Json::Obj(fields) => JModel::Obj(jm_fields(fields@)),
    }
}

/// The models of a sequence of values.
pub open spec fn jm_seq(s: Seq<Json>) -> Seq<JModel>
    decreases s, 0int,
{
    if s.len() == 0 {
        Seq::empty()
    } else {
        seq![jm(s[0])] + jm_seq(s.subrange(1, s.len() as int))
    }
}

/// The models of a sequence of members.
pub open spec fn jm_fields(s: Seq<(Vec<char>, Json)>) -> Seq<(Seq<char>, JModel)>
    decreases s, 0int,
{
    if s.len() == 0 {
        Seq::empty()
    } else {
        seq![(s[0].0@, jm(s[0].1))] + jm_fields(s.subrange(1, s.len() as int))
    }
}

/// Index view of `jm_seq`.
pub proof fn lemma_jm_seq(s: Seq<Json>)
    ensures
        jm_seq(s).len() == s.len(),
        forall|q: int|
            #![trigger jm_seq(s)[q]]
            #![trigger s[q]]
            0 <= q < s.len() ==> jm_seq(s)[q] == jm(s[q]),
    decreases s.len(),
{
    if s.len() > 0 {
        lemma_jm_seq(s.subrange(1, s.len() as int));
        assert forall|q: int| 0 <= q < s.len() implies jm_seq(s)[q] == jm(#[trigger] s[q]) by {
            if q > 0 {
                assert(s.subrange(1, s.len() as int)[q - 1] == s[q]);
            }
        }
    }
}

/// Index view of `jm_fields`.
pub proof fn lemma_jm_fields(s: Seq<(Vec<char>, Json)>)
    ensures
        jm_fields(s).len() == s.len(),
        forall|q: int|
            #![trigger jm_fields(s)[q]]
            #![trigger s[q]]
            0 <= q < s.len() ==> jm_fields(s)[q] == (s[q].0@, jm(s[q].1)),
    decreases s.len(),
{
    if s.len() > 0 {
        lemma_jm_fields(s.subrange(1, s.len() as int));
        assert forall|q: int|
            0 <= q < s.len() implies jm_fields(s)[q] == ((#[trigger] s[q]).0@, jm(s[q].1)) by {
            if q > 0 {
                assert(s.subrange(1, s.len() as int)[q - 1] == s[q]);
            }
        }
    }
}


/// Nesting depth of a value: how many levels of arrays and objects.
pub open spec fn jdepth(m: JModel) -> nat
    decreases m, 1int,
{
    match m {
        JModel::Null => 0,
        JModel::Num { .. } => 0,
        JModel::Str(_) => 0,
        JModel::Arr(items) => 1 + jdepth_seq(items),
        JModel::Obj(fields) => 1 + jdepth_fields(fields),
    }
}

pub open spec fn jdepth_seq(s: Seq<JModel>) -> nat
    decreases s, 0int,
{
    if s.len() == 0 {
        0
    } else if jdepth(s[0]) >= jdepth_seq(s.subrange(1, s.len() as int)) {
        jdepth(s[0])
    } else {
        jdepth_seq(s.subrange(1, s.len() as int))
    }
}

pub open spec fn jdepth_fields(s: Seq<(Seq<char>, JModel)>) -> nat
    decreases s, 0int,
{
    if s.len() == 0 {
        0
    } else if jdepth(s[0].1) >= jdepth_fields(s.subrange(1, s.len() as int)) {
        jdepth(s[0].1)
    } else {
        jdepth_fields(s.subrange(1, s.len() as int))
    }
}

/// Every element sits within the depth of its sequence.
pub proof fn lemma_jdepth_seq(s: Seq<JModel>)
    ensures
        forall|q: int| 0 <= q < s.len() ==> jdepth(#[trigger] s[q]) <= jdepth_seq(s),
    decreases s.len(),
{
    if s.len() > 0 {
        lemma_jdepth_seq(s.subrange(1, s.len() as int));
        assert forall|q: int| 0 <= q < s.len() implies jdepth(#[trigger] s[q]) <= jdepth_seq(
            s,
        ) by {
            if q > 0 {
                assert(s.subrange(1, s.len() as int)[q - 1] == s[q]);
            }
        }
    }
}

/// Every member value sits within the depth of its member list.
pub proof fn lemma_jdepth_fields(s: Seq<(Seq<char>, JModel)>)
    ensures
        forall|q: int|
            0 <= q < s.len() ==> jdepth((#[trigger] s[q]).1) <= jdepth_fields(s),
    decreases s.len(),
{
    if s.len() > 0 {
        lemma_jdepth_fields(s.subrange(1, s.len() as int));
        assert forall|q: int|
            0 <= q < s.len() implies jdepth((#[trigger] s[q]).1) <= jdepth_fields(s) by {
            if q > 0 {
                assert(s.subrange(1, s.len() as int)[q - 1] == s[q]);
            }
        }
    }
}

/// The indentation one level deeper, as the writer computes it.
fn bump_ind(ind: usize) -> (r: usize)
    ensures
        r == bump(ind as nat),
{
    if ind <= 62 {
        ind + 2
    } else {
        ind
    }
}

/// Appends `n` spaces.
fn push_spaces(out: &mut Vec<char>, n: usize)
    ensures
        final(out)@ == old(out)@ + spaces(n as nat),
{
    let mut k: usize = 0;
    proof {
        assert(old(out)@ + spaces(0nat) =~= old(out)@);
    }
    while k < n
        invariant
            k <= n,
            out@ == old(out)@ + spaces(k as nat),
        decreases n - k,
    {
        out.push(' ');
        proof {
            assert((old(out)@ + spaces(k as nat)).push(' ') =~= old(out)@ + spaces(
                (k + 1) as nat,
            ));
        }
        k = k + 1;
    }
    proof {
        assert(out@ =~= old(out)@ + spaces(n as nat));
    }
}

/// `esc_str` grows on the right one character at a time.
pub proof fn lemma_esc_str_push(u: Seq<char>, c: char)
    ensures
        esc_str(u.push(c)) == esc_str(u) + esc_char(c),
    decreases u.len(),
{
    if u.len() == 0 {
        assert(u.push(c).drop_first() =~= Seq::<char>::empty());
        assert(u.push(c)[0] == c);
        assert(esc_str(Seq::<char>::empty()) =~= Seq::<char>::empty());
        assert(esc_str(u.push(c)) =~= esc_char(c));
        assert(esc_str(u) + esc_char(c) =~= esc_char(c));
    } else {
        lemma_esc_str_push(u.drop_first(), c);
        assert(u.push(c).drop_first() =~= u.drop_first().push(c));
        assert(u.push(c)[0] == u[0]);
        assert(esc_str(u.push(c)) == esc_char(u[0]) + esc_str(u.drop_first().push(c)));
        assert(esc_char(u[0]) + (esc_str(u.drop_first()) + esc_char(c)) =~= (esc_char(u[0])
            + esc_str(u.drop_first())) + esc_char(c));
    }
}

/// Appends the escaped body of `s`.
fn push_escaped(out: &mut Vec<char>, s: &Vec<char>)
    ensures
        final(out)@ == old(out)@ + esc_str(s@),
{
    let mut k: usize = 0;
    proof {
        assert(s@.take(0) =~= Seq::<char>::empty());
        assert(old(out)@ + esc_str(s@.take(0)) =~= old(out)@);
    }
    while k < s.len()
        invariant
            k <= s@.len(),
            out@ == old(out)@ + esc_str(s@.take(k as int)),
        decreases s@.len() - k,
    {
        let c = s[k];
        proof {
            lemma_esc_str_push(s@.take(k as int), c);
            assert(s@.take(k as int).push(c) =~= s@.take(k + 1 as int));
        }
        if c == '"' {
            out.push('\\');
            out.push('"');
        } else if c == '\\' {
            out.push('\\');
            out.push('\\');
        } else if c == '\n' {
            out.push('\\');
            out.push('n');
        } else if c == '\r' {
            out.push('\\');
            out.push('r');
        } else if c == '\t' {
            out.push('\\');
            out.push('t');
        } else {
            out.push(c);
        }
        proof {
            assert(out@ =~= old(out)@ + esc_str(s@.take(k + 1 as int)));
        }
        k = k + 1;
    }
    proof {
        assert(s@.take(s@.len() as int) =~= s@);
    }
}

/// Appends the rendering of `v` at indentation `ind`.
pub fn render_json(v: &Json, ind: usize, out: &mut Vec<char>, fuel: Ghost<nat>)
    requires
        jdepth(jm(*v)) <= fuel@,
    ensures
        final(out)@ == old(out)@ + spec_render(jm(*v), ind as nat),
    decreases fuel@,
{
    match v {
        Json::Null => {
            out.push('n');
            out.push('u');
            out.push('l');
            out.push('l');
            proof {
                assert(out@ =~= old(out)@ + seq!['n', 'u', 'l', 'l']);
            }
        },
        Json::Num { neg, mag } => {
            if *neg {
                out.push('-');
            }
            let mut d = crate::numbers::u64_to_dec(*mag);
            out.append(&mut d);
            proof {
                if jm(*v)->Num_neg {
                    assert(out@ =~= old(out)@ + (seq!['-'] + dec_digits(*mag as nat)));
                } else {
                    assert(out@ =~= old(out)@ + dec_digits(*mag as nat));
                }
            }
        },
        Json::Str(sv) => {
            out.push('"');
            push_escaped(out, sv);
            out.push('"');
            proof {
                assert(out@ =~= old(out)@ + (seq!['"'] + esc_str(sv@) + seq!['"']));
            }
        },
        Json::Arr(items) => {
            let ghost m = jm(*v);
            let ghost ms = jm_seq(items@);
            out.push('[');
            if items.len() == 0 {
                out.push(']');
                proof {
                    assert(out@ =~= old(out)@ + seq!['[', ']']);
                }
            } else {
                out.push('\n');
                let b = bump_ind(ind);
                let mut k: usize = 0;
                proof {
                    assert(out@ =~= old(out)@ + seq!['[', '\n']);
                }
                while k < items.len()
                    invariant
                        0 <= k <= items@.len(),
                        items@.len() >= 1,
                        b == bump(ind as nat),
                        ms == jm_seq(items@),
                        jm(*v) == JModel::Arr(ms),
                        jdepth(jm(*v)) <= fuel@,
                        out@ + render_arr_items(ms, k as int, ind as nat) == old(out)@ + seq![
                            '[',
                            '\n',
                        ] + render_arr_items(ms, 0, ind as nat),
                    decreases items@.len() - k,
                {
                    let ghost before = out@;
                    push_spaces(out, b);
                    proof {
                        lemma_jm_seq(items@);
                        lemma_jdepth_seq(ms);
                        assert(jdepth(jm(items@[k as int])) < fuel@);
                    }
                    render_json(&items[k], b, out, Ghost((fuel@ - 1) as nat));
                    if k + 1 < items.len() {
                        out.push(',');
                    }
                    out.push('\n');
                    proof {
                        assert(jm(items@[k as int]) == ms[k as int]);
                        if k + 1 < items@.len() {
                            assert(out@ =~= before + (spaces(bump(ind as nat)) + spec_render(
                                ms[k as int],
                                bump(ind as nat),
                            ) + seq![','] + seq!['\n']));
                        } else {
                            assert(out@ =~= before + (spaces(bump(ind as nat)) + spec_render(
                                ms[k as int],
                                bump(ind as nat),
                            ) + Seq::<char>::empty() + seq!['\n']));
                        }
                        assert(before + render_arr_items(ms, k as int, ind as nat) =~= out@
                            + render_arr_items(ms, k + 1 as int, ind as nat));
                    }
                    k = k + 1;
                }
                push_spaces(out, ind);
                out.push(']');
                proof {
                    lemma_jm_seq(items@);
                    assert(render_arr_items(ms, items@.len() as int, ind as nat) =~= Seq::<
                        char,
                    >::empty());
                    assert(out@ =~= old(out)@ + (seq!['[', '\n'] + render_arr_items(
                        ms,
                        0,
                        ind as nat,
                    ) + spaces(ind as nat) + seq![']']));
                }
            }
        },
        Json::Obj(fields) => {
            let ghost m = jm(*v);
            let ghost ms = jm_fields(fields@);
            out.push('{');
            if fields.len() == 0 {
                out.push('}');
                proof {
                    assert(out@ =~= old(out)@ + seq!['{', '}']);
                }
            } else {
                out.push('\n');
                let b = bump_ind(ind);
                let mut k: usize = 0;
                proof {
                    assert(out@ =~= old(out)@ + seq!['{', '\n']);
                }
                while k < fields.len()
                    invariant
                        0 <= k <= fields@.len(),
                        fields@.len() >= 1,
                        b == bump(ind as nat),
                        ms == jm_fields(fields@),
                        jm(*v) == JModel::Obj(ms),
                        jdepth(jm(*v)) <= fuel@,
                        out@ + render_obj_items(ms, k as int, ind as nat) == old(out)@ + seq![
                            '{',
                            '\n',
                        ] + render_obj_items(ms, 0, ind as nat),
                    decreases fields@.len() - k,
                {
                    let ghost before = out@;
                    push_spaces(out, b);
                    out.push('"');
                    push_escaped(out, &fields[k].0);
                    out.push('"');
                    out.push(':');
                    out.push(' ');
                    proof {
                        lemma_jm_fields(fields@);
                        lemma_jdepth_fields(ms);
                        assert(jdepth(jm(fields@[k as int].1)) < fuel@);
                    }
                    render_json(&fields[k].1, b, out, Ghost((fuel@ - 1) as nat));
                    if k + 1 < fields.len() {
                        out.push(',');
                    }
                    out.push('\n');
                    proof {
                        assert(ms[k as int].0 == fields@[k as int].0@);
                        assert(ms[k as int].1 == jm(fields@[k as int].1));
                        if k + 1 < fields@.len() {
                            assert(out@ =~= before + (spaces(bump(ind as nat)) + seq!['"']
                                + esc_str(ms[k as int].0) + seq!['"', ':', ' '] + spec_render(
                                ms[k as int].1,
                                bump(ind as nat),
                            ) + seq![','] + seq!['\n']));
                        } else {
                            assert(out@ =~= before + (spaces(bump(ind as nat)) + seq!['"']
                                + esc_str(ms[k as int].0) + seq!['"', ':', ' '] + spec_render(
                                ms[k as int].1,
                                bump(ind as nat),
                            ) + Seq::<char>::empty() + seq!['\n']));
                        }
                        assert(before + render_obj_items(ms, k as int, ind as nat) =~= out@
                            + render_obj_items(ms, k + 1 as int, ind as nat));
                    }
                    k = k + 1;
                }
                push_spaces(out, ind);
                out.push('}');
                proof {
                    lemma_jm_fields(fields@);
                    assert(render_obj_items(ms, fields@.len() as int, ind as nat) =~= Seq::<
                        char,
                    >::empty());
                    assert(out@ =~= old(out)@ + (seq!['{', '\n'] + render_obj_items(
                        ms,
                        0,
                        ind as nat,
                    ) + spaces(ind as nat) + seq!['}']));
                }
            }
        },
    }
}

/// The full rendering of one value as a document.
pub fn render_json_doc(v: &Json) -> (r: Vec<char>)
    ensures
        r@ == spec_render(jm(*v), 0),
{
    let mut out: Vec<char> = Vec::new();
    render_json(v, 0, &mut out, Ghost(jdepth(jm(*v))));
    proof {
        assert(Seq::<char>::empty() + spec_render(jm(*v), 0) =~= spec_render(jm(*v), 0));
    }
    out
}

/// First index with no JSON whitespace; mirrors `ws_end`.
fn skip_ws(t: &Vec<char>, i: usize) -> (r: usize)
    ensures
        r == ws_end(t@, i as int),
        i <= r,
{
    let mut j = i;
    while j < t.len() && (t[j] == ' ' || t[j] == '\n' || t[j] == '\t' || t[j] == '\r')
        invariant
            i <= j,
            ws_end(t@, i as int) == ws_end(t@, j as int),
        decreases t@.len() - j,
    {
        j = j + 1;
    }
    j
}

/// The body of a string literal; mirrors `parse_str_body`.
fn parse_str_body_exec(t: &Vec<char>, i: usize) -> (r: Option<(Vec<char>, usize)>)
    ensures
        r matches Some(p) ==> parse_str_body(t@, i as int) == Some((p.0@, p.1 as int)) && p.1
            <= t@.len(),
        r is None ==> parse_str_body(t@, i as int) is None,
{
    let mut acc: Vec<char> = Vec::new();
    let mut j = i;
    loop
        invariant
            i <= j,
            (match parse_str_body(t@, j as int) {
                Option::Some(p) => parse_str_body(t@, i as int) == Some((acc@ + p.0, p.1)),
                Option::None => parse_str_body(t@, i as int) is None,
            }),
        decreases t@.len() + 1 - j,
    {
        if j >= t.len() {
            return None;
        }
        let c = t[j];
        if c == '"' {
            proof {
                assert(acc@ + Seq::<char>::empty() =~= acc@);
            }
            return Some((acc, j + 1));
        } else if c == '\\' {
            if j + 1 >= t.len() {
                return None;
            }
            let e = t[j + 1];
            if e == '"' || e == '\\' || e == 'n' || e == 'r' || e == 't' {
                let d: char = if e == '"' {
                    '"'
                } else if e == '\\' {
                    '\\'
                } else if e == 'n' {
                    '\n'
                } else if e == 'r' {
                    '\r'
                } else {
                    '\t'
                };
                let ghost old_acc = acc@;
                acc.push(d);
                proof {
                    match parse_str_body(t@, j + 2 as int) {
                        Option::Some(p) => {
                            assert(old_acc + (seq![d] + p.0) =~= acc@ + p.0);
                        },
                        Option::None => {},
                    }
                }
                j = j + 2;
            } else {
                return None;
            }
        } else {
            let ghost old_acc = acc@;
            acc.push(c);
            proof {
                match parse_str_body(t@, j + 1 as int) {
                    Option::Some(p) => {
                        assert(old_acc + (seq![t@[j as int]] + p.0) =~= acc@ + p.0);
                    },
                    Option::None => {},
                }
            }
            j = j + 1;
        }
    }
}

/// A number; mirrors `parse_num_at`.
fn parse_num_exec(t: &Vec<char>, i: usize) -> (r: Option<(Json, usize)>)
    requires
        i as int <= t@.len(),
    ensures
        r matches Some(p) ==> parse_num_at(t@, i as int) == Some((jm(p.0), p.1 as int)) && p.1
            <= t@.len(),
        r is None ==> parse_num_at(t@, i as int) is None,
{
    let neg = i < t.len() && t[i] == '-';
    let j = if neg {
        i + 1
    } else {
        i
    };
    let e = digit_end_exec(t, j);
    if e <= j {
        return None;
    }
    proof {
        lemma_digit_end_props(t@, j as int);
        assert(crate::numbers::all_digits(t@.subrange(j as int, e as int))) by {
            assert(forall|k: int|
                0 <= k < e - j ==> is_digit(#[trigger] t@.subrange(j as int, e as int)[k]));
        }
    }
    match crate::numbers::parse_u64_range(t, j, e) {
        Option::Some(m) => Some((Json::Num { neg, mag: m }, e)),
        Option::None => None,
    }
}

/// Builds the vector for `seq!['n','u','l','l']`.
fn null_pat() -> (r: Vec<char>)
    ensures
        r@ == seq!['n', 'u', 'l', 'l'],
{
    let mut r: Vec<char> = Vec::new();
    r.push('n');
    r.push('u');
    r.push('l');
    r.push('l');
    proof {
        assert(r@ =~= seq!['n', 'u', 'l', 'l']);
    }
    r
}

/// One JSON value; mirrors `parse_value`.
pub fn parse_value_exec(t: &Vec<char>, i: usize) -> (r: Option<(Json, usize)>)
    ensures
        r matches Some(p) ==> parse_value(t@, i as int) == Some((jm(p.0), p.1 as int)) && p.1
            <= t@.len(),
        r is None ==> parse_value(t@, i as int) is None,
    decreases t@.len() - i, 0int,
{
    let j = skip_ws(t, i);
    if j >= t.len() {
        return None;
    }
    let c = t[j];
    if c == 'n' {
        if t.len() - j >= 4 {
            let pat = null_pat();
            if crate::scan::eq_at(t, &pat, j) {
                Some((Json::Null, j + 4))
            } else {
                None
            }
        } else {
            proof {
                assert(!match_at(t@, seq!['n', 'u', 'l', 'l'], j as int));
            }
            None
        }
    } else if c == '"' {
        match parse_str_body_exec(t, j + 1) {
            Option::Some((sv, e)) => Some((Json::Str(sv), e)),
            Option::None => None,
        }
    } else if c == '[' {
        match parse_arr_exec(t, j + 1) {
            Option::Some((items, e)) => Some((Json::Arr(items), e)),
            Option::None => None,
        }
    } else if c == '{' {
        match parse_obj_exec(t, j + 1) {
            Option::Some((fields, e)) => Some((Json::Obj(fields), e)),
            Option::None => None,
        }
    } else {
        parse_num_exec(t, j)
    }
}

/// Array items; mirrors `parse_arr_items`.
fn parse_arr_exec(t: &Vec<char>, i: usize) -> (r: Option<(Vec<Json>, usize)>)
    ensures
        r matches Some(p) ==> parse_arr_items(t@, i as int) == Some((jm_seq(p.0@), p.1 as int))
            && p.1 <= t@.len(),
        r is None ==> parse_arr_items(t@, i as int) is None,
    decreases t@.len() - i, 1int,
{
    let j = skip_ws(t, i);
    if j >= t.len() {
        return None;
    }
    if t[j] == ']' {
        let empty: Vec<Json> = Vec::new();
        proof {
            assert(jm_seq(empty@) =~= Seq::<JModel>::empty());
        }
        return Some((empty, j + 1));
    }
    match parse_value_exec(t, j) {
        Option::None => None,
        Option::Some((v, e)) => {
            if e <= j {
                return None;
            }
            let j2 = skip_ws(t, e);
            if j2 < t.len() && t[j2] == ',' {
                match parse_arr_exec(t, j2 + 1) {
                    Option::None => None,
                    Option::Some((rest, e2)) => {
                        let ghost old_rest = rest@;
                        let mut rest = rest;
                        rest.insert(0, v);
                        proof {
                            assert(rest@ =~= seq![v] + old_rest);
                            lemma_jm_seq(rest@);
                            lemma_jm_seq(old_rest);
                            assert forall|q: int| 0 <= q < rest@.len() implies jm_seq(rest@)[q]
                                == (seq![jm(v)] + jm_seq(old_rest))[q] by {
                                if q == 0 {
                                    assert(rest@[0] == v);
                                } else {
                                    assert(rest@[q] == old_rest[q - 1]);
                                    assert(jm_seq(old_rest)[q - 1] == jm(old_rest[q - 1]));
                                }
                            }
                            assert(jm_seq(rest@) =~= seq![jm(v)] + jm_seq(old_rest));
                        }
                        Some((rest, e2))
                    },
                }
            } else if j2 < t.len() && t[j2] == ']' {
                let mut one: Vec<Json> = Vec::new();
                one.push(v);
                proof {
                    lemma_jm_seq(one@);
                    assert(jm_seq(one@) =~= seq![jm(one@[0])]);
                }
                Some((one, j2 + 1))
            } else {
                None
            }
        },
    }
}

/// Object members; mirrors `parse_obj_items`.
fn parse_obj_exec(t: &Vec<char>, i: usize) -> (r: Option<(Vec<(Vec<char>, Json)>, usize)>)
    ensures
        r matches Some(p) ==> parse_obj_items(t@, i as int) == Some(
            (jm_fields(p.0@), p.1 as int),
        ) && p.1 <= t@.len(),
        r is None ==> parse_obj_items(t@, i as int) is None,
    decreases t@.len() - i, 1int,
{
    let j = skip_ws(t, i);
    if j >= t.len() {
        return None;
    }
    if t[j] == '}' {
        let empty: Vec<(Vec<char>, Json)> = Vec::new();
        proof {
            assert(jm_fields(empty@) =~= Seq::<(Seq<char>, JModel)>::empty());
        }
        return Some((empty, j + 1));
    }
    if t[j] != '"' {
        return None;
    }
    match parse_str_body_exec(t, j + 1) {
        Option::None => None,
        Option::Some((key, ek)) => {
            if ek <= j {
                return None;
            }
            let j2 = skip_ws(t, ek);
            if !(j2 < t.len()) {
                return None;
            }
            if t[j2] != ':' {
                return None;
            }
            match parse_value_exec(t, j2 + 1) {
                Option::None => None,
                Option::Some((v, ev)) => {
                    if ev <= j2 {
                        return None;
                    }
                    let j3 = skip_ws(t, ev);
                    if j3 < t.len() && t[j3] == ',' {
                        match parse_obj_exec(t, j3 + 1) {
                            Option::None => None,
                            Option::Some((rest, e2)) => {
                                let ghost old_rest = rest@;
                                let mut rest = rest;
                                let ghost kv = (key@, jm(v));
                                rest.insert(0, (key, v));
                                proof {
                                    lemma_jm_fields(rest@);
                                    lemma_jm_fields(old_rest);
                                    assert forall|q: int|
                                        0 <= q < rest@.len() implies jm_fields(rest@)[q] == (
                                    seq![kv] + jm_fields(old_rest))[q] by {
                                        if q == 0 {
                                            assert(rest@[0].0@ == kv.0);
                                            assert(jm(rest@[0].1) == kv.1);
                                        } else {
                                            assert(rest@[q] == old_rest[q - 1]);
                                            assert(jm_fields(old_rest)[q - 1] == (old_rest[q
                                                - 1].0@, jm(old_rest[q - 1].1)));
                                        }
                                    }
                                    assert(jm_fields(rest@) =~= seq![kv] + jm_fields(
                                        old_rest,
                                    ));
                                }
                                Some((rest, e2))
                            },
                        }
                    } else if j3 < t.len() && t[j3] == '}' {
                        let ghost kv = (key@, jm(v));
                        let mut one: Vec<(Vec<char>, Json)> = Vec::new();
                        one.push((key, v));
                        proof {
                            lemma_jm_fields(one@);
                            assert(jm_fields(one@) =~= seq![kv]);
                        }
                        Some((one, j3 + 1))
                    } else {
                        None
                    }
                },
            }
        },
    }
}

/// One whole document; mirrors `parse_doc`.
pub fn parse_json_doc(t: &Vec<char>) -> (r: Option<Json>)
    ensures
        r matches Some(j) ==> parse_doc(t@) == Some(jm(j)),
        r is None ==> parse_doc(t@) is None,
{
    match parse_value_exec(t, 0) {
        Option::None => None,
        Option::Some((v, e)) => {
            let e2 = skip_ws(t, e);
            if e2 == t.len() {
                Some(v)
            } else {
                None
            }
        },
    }
}

/// `jm_seq` grows on the right one value at a time.
pub proof fn lemma_jm_seq_push(s: Seq<Json>, x: Json)
    ensures
        jm_seq(s.push(x)) == jm_seq(s).push(jm(x)),
{
    lemma_jm_seq(s.push(x));
    lemma_jm_seq(s);
    assert forall|q: int| 0 <= q < s.len() + 1 implies jm_seq(s.push(x))[q] == jm_seq(s).push(
        jm(x),
    )[q] by {
        if q < s.len() {
            assert(s.push(x)[q] == s[q]);
        } else {
            assert(s.push(x)[q] == x);
        }
    }
    assert(jm_seq(s.push(x)) =~= jm_seq(s).push(jm(x)));
}

/// `jm_fields` grows on the right one member at a time.
pub proof fn lemma_jm_fields_push(s: Seq<(Vec<char>, Json)>, k: Vec<char>, x: Json)
    ensures
        jm_fields(s.push((k, x))) == jm_fields(s).push((k@, jm(x))),
{
    lemma_jm_fields(s.push((k, x)));
    lemma_jm_fields(s);
    assert forall|q: int|
        0 <= q < s.len() + 1 implies jm_fields(s.push((k, x)))[q] == jm_fields(s).push(
        (k@, jm(x)),
    )[q] by {
        if q < s.len() {
            assert(s.push((k, x))[q] == s[q]);
        } else {
            assert(s.push((k, x))[q] == (k, x));
        }
    }
    assert(jm_fields(s.push((k, x))) =~= jm_fields(s).push((k@, jm(x))));
}

/// An object of canonical member values is canonical.
pub proof fn lemma_canon_obj(fields: Seq<(Seq<char>, JModel)>)
    requires
        forall|k: int| 0 <= k < fields.len() ==> canon((#[trigger] fields[k]).1),
    ensures
        canon(JModel::Obj(fields)),
{
}

/// An array of canonical values is canonical.
pub proof fn lemma_canon_arr(items: Seq<JModel>)
    requires
        forall|k: int| 0 <= k < items.len() ==> canon(#[trigger] items[k]),
    ensures
        canon(JModel::Arr(items)),
{
}

/// A value's model has the same variant as the value.
pub proof fn lemma_jm_shape(j: Json)
    ensures
        jm(j) is Null <==> j is Null,
        jm(j) is Num <==> j is Num,
        jm(j) is Str <==> j is Str,
        jm(j) is Arr <==> j is Arr,
        jm(j) is Obj <==> j is Obj,
{
    match j {
        Json::Null => {},
        Json::Num { .. } => {},
        Json::Str(_) => {},
        Json::Arr(_) => {},
        Json::Obj(_) => {},
    }
}

} // verus!

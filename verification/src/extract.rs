//! The field extractor: pattern scans over raw HTML text, one deterministic
//! grammar per field family, each stated as a spec function and mirrored by
//! executable scanners.
use vstd::prelude::*;

use crate::data::InfoboxRow;
use crate::data::Post;
use crate::data::RawInfoBoxRow;
use crate::data::ResPage;
use crate::data::TagLike;
use crate::data::TagLikeBuf;
use crate::data::PostBuf;
use crate::numbers::digit_end;
use crate::numbers::digit_end_exec;
use crate::numbers::digits_val;
use crate::numbers::lemma_digit_end_props;
use crate::scan::copy_range;
use crate::scan::eq_at;
use crate::scan::find_char_from;
use crate::scan::find_from;
use crate::scan::first_char_at;
use crate::scan::first_match_from;
use crate::scan::match_at;
use crate::scan::opt_min;
use crate::text::chars_to_string;
use crate::text::decode_entities;
use crate::text::html_decoded;
use crate::text::is_ascii_ws;
use crate::text::str_to_chars;
use crate::text::spec_overlap_start;
use crate::text::ws_tokens;
use crate::numbers::suffix_count;

verus! {

pub open spec fn title_open() -> Seq<char> {
    seq!['<', 't', 'i', 't', 'l', 'e', '>']
}

fn title_open_pat() -> (r: Vec<char>)
    ensures
        r@ == title_open(),
{
    let r = str_to_chars("<title>");
    proof {
        reveal_strlit("<title>");
        assert(r@ =~= title_open());
    }
    r
}

pub open spec fn title_end_nd() -> Seq<char> {
    seq![' ', '&', 'n', 'd', 'a', 's', 'h', ';', ' ', 'H', 'D', ' ', 'P', 'o', 'r', 'n', ' ', 'C', 'o', 'm', 'i', 'c', 's', '<', '/', 't', 'i', 't', 'l', 'e', '>']
}

fn title_end_nd_pat() -> (r: Vec<char>)
    ensures
        r@ == title_end_nd(),
{
    let r = str_to_chars(" &ndash; HD Porn Comics</title>");
    proof {
        reveal_strlit(" &ndash; HD Porn Comics</title>");
        assert(r@ =~= title_end_nd());
    }
    r
}

pub open spec fn title_end_dash() -> Seq<char> {
    seq![' ', '-', ' ', 'H', 'D', ' ', 'P', 'o', 'r', 'n', ' ', 'C', 'o', 'm', 'i', 'c', 's', '<', '/', 't', 'i', 't', 'l', 'e', '>']
}

fn title_end_dash_pat() -> (r: Vec<char>)
    ensures
        r@ == title_end_dash(),
{
    let r = str_to_chars(" - HD Porn Comics</title>");
    proof {
        reveal_strlit(" - HD Porn Comics</title>");
        assert(r@ =~= title_end_dash());
    }
    r
}

pub open spec fn comic_suffix() -> Seq<char> {
    seq![' ', 'c', 'o', 'm', 'i', 'c', ' ', 'p', 'o', 'r', 'n']
}

fn comic_suffix_pat() -> (r: Vec<char>)
    ensures
        r@ == comic_suffix(),
{
    let r = str_to_chars(" comic porn");
    proof {
        reveal_strlit(" comic porn");
        assert(r@ =~= comic_suffix());
    }
    r
}

pub open spec fn post_id_open() -> Seq<char> {
    seq!['<', 'd', 'i', 'v', ' ', 'i', 'd', '=', '"', 'p', 'o', 's', 't', '-']
}

fn post_id_open_pat() -> (r: Vec<char>)
    ensures
        r@ == post_id_open(),
{
    let r = str_to_chars("<div id=\"post-");
    proof {
        reveal_strlit("<div id=\"post-");
        assert(r@ =~= post_id_open());
    }
    r
}

pub open spec fn h3_open() -> Seq<char> {
    seq!['<', 'h', '3']
}

fn h3_open_pat() -> (r: Vec<char>)
    ensures
        r@ == h3_open(),
{
    let r = str_to_chars("<h3");
    proof {
        reveal_strlit("<h3");
        assert(r@ =~= h3_open());
    }
    r
}

pub open spec fn comments_id() -> Seq<char> {
    seq!['i', 'd', '=', '"', 'c', 'o', 'm', 'm', 'e', 'n', 't', 's', '-', 't', 'i', 't', 'l', 'e', '"']
}

fn comments_id_pat() -> (r: Vec<char>)
    ensures
        r@ == comments_id(),
{
    let r = str_to_chars("id=\"comments-title\"");
    proof {
        reveal_strlit("id=\"comments-title\"");
        assert(r@ =~= comments_id());
    }
    r
}

pub open spec fn h3_close() -> Seq<char> {
    seq!['<', '/', 'h', '3', '>']
}

fn h3_close_pat() -> (r: Vec<char>)
    ensures
        r@ == h3_close(),
{
    let r = str_to_chars("</h3>");
    proof {
        reveal_strlit("</h3>");
        assert(r@ =~= h3_close());
    }
    r
}

pub open spec fn img_open() -> Seq<char> {
    seq!['<', 'a', ' ', 'h', 'r', 'e', 'f', '=', '"', 'h', 't', 't', 'p', 's', ':', '/', '/']
}

fn img_open_pat() -> (r: Vec<char>)
    ensures
        r@ == img_open(),
{
    let r = str_to_chars("<a href=\"https://");
    proof {
        reveal_strlit("<a href=\"https://");
        assert(r@ =~= img_open());
    }
    r
}

pub open spec fn jpg_ext() -> Seq<char> {
    seq!['.', 'j', 'p', 'g']
}

fn jpg_ext_pat() -> (r: Vec<char>)
    ensures
        r@ == jpg_ext(),
{
    let r = str_to_chars(".jpg");
    proof {
        reveal_strlit(".jpg");
        assert(r@ =~= jpg_ext());
    }
    r
}

pub open spec fn host_mark() -> Seq<char> {
    seq!['.', 'h', 'd', 'p', 'o', 'r', 'n', 'c', 'o', 'm', 'i', 'c', 's', '.', 'c', 'o', 'm', '/', 'u', 'p', 'l', 'o', 'a', 'd', 's', '/']
}

fn host_mark_pat() -> (r: Vec<char>)
    ensures
        r@ == host_mark(),
{
    let r = str_to_chars(".hdporncomics.com/uploads/");
    proof {
        reveal_strlit(".hdporncomics.com/uploads/");
        assert(r@ =~= host_mark());
    }
    r
}

pub open spec fn opt_open() -> Seq<char> {
    seq!['<', 'o', 'p', 't', 'i', 'o', 'n']
}

fn opt_open_pat() -> (r: Vec<char>)
    ensures
        r@ == opt_open(),
{
    let r = str_to_chars("<option");
    proof {
        reveal_strlit("<option");
        assert(r@ =~= opt_open());
    }
    r
}

pub open spec fn selected_attr() -> Seq<char> {
    seq![' ', 's', 'e', 'l', 'e', 'c', 't', 'e', 'd']
}

fn selected_attr_pat() -> (r: Vec<char>)
    ensures
        r@ == selected_attr(),
{
    let r = str_to_chars(" selected");
    proof {
        reveal_strlit(" selected");
        assert(r@ =~= selected_attr());
    }
    r
}

pub open spec fn data_url_attr() -> Seq<char> {
    seq![' ', 'd', 'a', 't', 'a', '-', 'u', 'r', 'l', '=', '"']
}

fn data_url_attr_pat() -> (r: Vec<char>)
    ensures
        r@ == data_url_attr(),
{
    let r = str_to_chars(" data-url=\"");
    proof {
        reveal_strlit(" data-url=\"");
        assert(r@ =~= data_url_attr());
    }
    r
}

pub open spec fn quote_gt() -> Seq<char> {
    seq!['"', '>']
}

fn quote_gt_pat() -> (r: Vec<char>)
    ensures
        r@ == quote_gt(),
{
    let r = str_to_chars("\">");
    proof {
        reveal_strlit("\">");
        assert(r@ =~= quote_gt());
    }
    r
}

pub open spec fn option_close() -> Seq<char> {
    seq!['<', '/', 'o', 'p', 't', 'i', 'o', 'n', '>']
}

fn option_close_pat() -> (r: Vec<char>)
    ensures
        r@ == option_close(),
{
    let r = str_to_chars("</option>");
    proof {
        reveal_strlit("</option>");
        assert(r@ =~= option_close());
    }
    r
}

pub open spec fn row_open() -> Seq<char> {
    seq!['<', 'd', 'i', 'v', ' ', 'c', 'l', 'a', 's', 's', '=', '"', 'f', 'l', 'e', 'x', ' ', 'i', 't', 'e', 'm', 's', '-', 'c', 'e', 'n', 't', 'e', 'r', '"', '>', ' ', '<', 's', 'p', 'a', 'n', ' ', 'c', 'l', 'a', 's', 's', '=', '"', 't', 'e', 'x', 't', '-', 'g', 'r', 'a', 'y', '-', '4', '0', '0', ' ', 'w', 'h', 'i', 't', 'e', 's', 'p', 'a', 'c', 'e', '-', 'n', 'o', 'w', 'r', 'a', 'p', '"', '>']
}

fn row_open_pat() -> (r: Vec<char>)
    ensures
        r@ == row_open(),
{
    let r = str_to_chars("<div class=\"flex items-center\"> <span class=\"text-gray-400 whitespace-nowrap\">");
    proof {
        reveal_strlit("<div class=\"flex items-center\"> <span class=\"text-gray-400 whitespace-nowrap\">");
        assert(r@ =~= row_open());
    }
    r
}

pub open spec fn sep_tight() -> Seq<char> {
    seq![' ', ':', '<', '/', 's', 'p', 'a', 'n', '>', ' ']
}

fn sep_tight_pat() -> (r: Vec<char>)
    ensures
        r@ == sep_tight(),
{
    let r = str_to_chars(" :</span> ");
    proof {
        reveal_strlit(" :</span> ");
        assert(r@ =~= sep_tight());
    }
    r
}

pub open spec fn sep_spaced() -> Seq<char> {
    seq![' ', ':', ' ', '<', '/', 's', 'p', 'a', 'n', '>', ' ']
}

fn sep_spaced_pat() -> (r: Vec<char>)
    ensures
        r@ == sep_spaced(),
{
    let r = str_to_chars(" : </span> ");
    proof {
        reveal_strlit(" : </span> ");
        assert(r@ =~= sep_spaced());
    }
    r
}

pub open spec fn div_close() -> Seq<char> {
    seq!['<', '/', 'd', 'i', 'v', '>']
}

fn div_close_pat() -> (r: Vec<char>)
    ensures
        r@ == div_close(),
{
    let r = str_to_chars("</div>");
    proof {
        reveal_strlit("</div>");
        assert(r@ =~= div_close());
    }
    r
}

pub open spec fn tag_open() -> Seq<char> {
    seq!['<', 's', 'p', 'a', 'n', ' ', 'c', 'l', 'a', 's', 's', '=', '"', 's', 'c', 'r', 'o', 'l', 'l', 't', 'a', 'x', 'o', 'n', 'o', 'm', 'y', '-', 'i', 't', 'e', 'm', '"', '>', '<', 'a', ' ', 'h', 'r', 'e', 'f', '=', '"']
}

fn tag_open_pat() -> (r: Vec<char>)
    ensures
        r@ == tag_open(),
{
    let r = str_to_chars("<span class=\"scrolltaxonomy-item\"><a href=\"");
    proof {
        reveal_strlit("<span class=\"scrolltaxonomy-item\"><a href=\"");
        assert(r@ =~= tag_open());
    }
    r
}

pub open spec fn rel_tag() -> Seq<char> {
    seq!['"', ' ', 'r', 'e', 'l', '=', '"', 't', 'a', 'g', '"', '>']
}

fn rel_tag_pat() -> (r: Vec<char>)
    ensures
        r@ == rel_tag(),
{
    let r = str_to_chars("\" rel=\"tag\">");
    proof {
        reveal_strlit("\" rel=\"tag\">");
        assert(r@ =~= rel_tag());
    }
    r
}

pub open spec fn a_span_close() -> Seq<char> {
    seq!['<', '/', 'a', '>', '<', '/', 's', 'p', 'a', 'n', '>']
}

fn a_span_close_pat() -> (r: Vec<char>)
    ensures
        r@ == a_span_close(),
{
    let r = str_to_chars("</a></span>");
    proof {
        reveal_strlit("</a></span>");
        assert(r@ =~= a_span_close());
    }
    r
}

pub open spec fn text_open() -> Seq<char> {
    seq!['<', 's', 'p', 'a', 'n', ' ', 'c', 'l', 'a', 's', 's', '=', '"', 'm', 'l', '-', '4', ' ']
}

fn text_open_pat() -> (r: Vec<char>)
    ensures
        r@ == text_open(),
{
    let r = str_to_chars("<span class=\"ml-4 ");
    proof {
        reveal_strlit("<span class=\"ml-4 ");
        assert(r@ =~= text_open());
    }
    r
}

pub open spec fn span_close() -> Seq<char> {
    seq!['<', '/', 's', 'p', 'a', 'n', '>']
}

fn span_close_pat() -> (r: Vec<char>)
    ensures
        r@ == span_close(),
{
    let r = str_to_chars("</span>");
    proof {
        reveal_strlit("</span>");
        assert(r@ =~= span_close());
    }
    r
}

pub open spec fn res_open() -> Seq<char> {
    seq!['<', 'o', 'p', 't', 'i', 'o', 'n', ' ', 'd', 'a', 't', 'a', '-', 'u', 'r', 'l', '=', '"']
}

fn res_open_pat() -> (r: Vec<char>)
    ensures
        r@ == res_open(),
{
    let r = str_to_chars("<option data-url=\"");
    proof {
        reveal_strlit("<option data-url=\"");
        assert(r@ =~= res_open());
    }
    r
}

pub open spec fn selected_gt() -> Seq<char> {
    seq![' ', 's', 'e', 'l', 'e', 'c', 't', 'e', 'd', ' ', '>']
}

fn selected_gt_pat() -> (r: Vec<char>)
    ensures
        r@ == selected_gt(),
{
    let r = str_to_chars(" selected >");
    proof {
        reveal_strlit(" selected >");
        assert(r@ =~= selected_gt());
    }
    r
}

/// Whitespace removed from the front.
pub open spec fn ltrim(s: Seq<char>) -> Seq<char>
    decreases s.len(),
{
    if s.len() > 0 && is_ascii_ws(s[0]) {
        ltrim(s.drop_first())
    } else {
        s
    }
}

/// Whitespace removed from the back.
pub open spec fn rtrim(s: Seq<char>) -> Seq<char>
    decreases s.len(),
{
    if s.len() > 0 && is_ascii_ws(s.last()) {
        rtrim(s.drop_last())
    } else {
        s
    }
}

pub open spec fn trim_ws(s: Seq<char>) -> Seq<char> {
    rtrim(ltrim(s))
}

/// Copy of `t[a..b]` with surrounding whitespace removed.
fn trim_copy(t: &Vec<char>, a: usize, b: usize) -> (r: Vec<char>)
    requires
        a <= b <= t@.len(),
    ensures
        r@ == trim_ws(t@.subrange(a as int, b as int)),
{
    let ghost s0 = t@.subrange(a as int, b as int);
    let mut lo = a;
    while lo < b && (t[lo] == ' ' || t[lo] == '\t' || t[lo] == '\n' || t[lo] == '\r' || t[lo]
        == '\u{0c}')
        invariant
            a <= lo <= b <= t@.len(),
            ltrim(s0) == ltrim(t@.subrange(lo as int, b as int)),
        decreases b - lo,
    {
        proof {
            assert(t@.subrange(lo as int, b as int).drop_first() =~= t@.subrange(
                lo + 1 as int,
                b as int,
            ));
        }
        lo = lo + 1;
    }
    proof {
        assert(ltrim(s0) == t@.subrange(lo as int, b as int));
    }
    let mut hi = b;
    while hi > lo && (t[hi - 1] == ' ' || t[hi - 1] == '\t' || t[hi - 1] == '\n' || t[hi - 1]
        == '\r' || t[hi - 1] == '\u{0c}')
        invariant
            a <= lo <= hi <= b <= t@.len(),
            ltrim(s0) == t@.subrange(lo as int, b as int),
            rtrim(t@.subrange(lo as int, b as int)) == rtrim(t@.subrange(lo as int, hi as int)),
        decreases hi - lo,
    {
        proof {
            assert(t@.subrange(lo as int, hi as int).drop_last() =~= t@.subrange(
                lo as int,
                hi - 1 as int,
            ));
        }
        hi = hi - 1;
    }
    proof {
        assert(rtrim(t@.subrange(lo as int, hi as int)) == t@.subrange(lo as int, hi as int));
    }
    copy_range(t, lo, hi)
}

/// The title a page head carries: the text between the title tag and the
/// first site suffix, with one trailing kind marker removed, entities
/// decoded.
pub open spec fn title_end_at(t: Seq<char>, s: int) -> Option<int> {
    opt_min(
        first_match_from(t, title_end_nd(), s),
        first_match_from(t, title_end_dash(), s),
    )
}

pub open spec fn strip_comic_suffix(raw: Seq<char>) -> Seq<char> {
    if raw.len() > comic_suffix().len() && raw.skip(raw.len() - comic_suffix().len())
        == comic_suffix() {
        raw.take(raw.len() - comic_suffix().len())
    } else {
        raw
    }
}

pub open spec fn spec_extract_title(t: Seq<char>) -> Option<Seq<char>> {
    match first_match_from(t, title_open(), 0) {
        Option::None => None,
        Option::Some(i) => {
            let s = i + title_open().len();
            match title_end_at(t, s + 1) {
                Option::None => None,
                Option::Some(e) => Some(html_decoded(strip_comic_suffix(t.subrange(s, e)))),
            }
        },
    }
}

/// First match of the head-title pattern, entities decoded; absence is
/// explicit.
pub fn extract_title(text: &str) -> (r: Option<String>)
    ensures
        r is Some <==> spec_extract_title(text@) is Some,
        r matches Some(x) ==> Some(x@) == spec_extract_title(text@),
{
    let t = str_to_chars(text);
    let tlen = t.len();
    proof {
        assert(t@.len() == tlen);
    }
    let open_p = title_open_pat();
    match find_from(&t, &open_p, 0) {
        Option::None => None,
        Option::Some(i) => {
            let s = i + open_p.len();
            if s >= t.len() {
                return None;
            }
            let nd_p = title_end_nd_pat();
            let dash_p = title_end_dash_pat();
            let e1 = find_from(&t, &nd_p, s + 1);
            let e2 = find_from(&t, &dash_p, s + 1);
            let e: usize = match (e1, e2) {
                (Option::None, Option::None) => {
                    return None;
                },
                (Option::Some(x), Option::None) => x,
                (Option::None, Option::Some(y)) => y,
                (Option::Some(x), Option::Some(y)) => if x <= y {
                    x
                } else {
                    y
                },
            };
            let raw = copy_range(&t, s, e);
            let suf = comic_suffix_pat();
            let stripped: Vec<char> = if raw.len() > suf.len() && eq_at(
                &raw,
                &suf,
                raw.len() - suf.len(),
            ) {
                proof {
                    assert(raw@.skip(raw@.len() - comic_suffix().len()) =~= raw@.subrange(
                        raw@.len() - comic_suffix().len(),
                        raw@.len() as int,
                    ));
                }
                copy_range(&raw, 0, raw.len() - suf.len())
            } else {
                proof {
                    if raw@.len() > comic_suffix().len() {
                        assert(raw@.skip(raw@.len() - comic_suffix().len()) =~= raw@.subrange(
                            raw@.len() - comic_suffix().len(),
                            raw@.len() as int,
                        ));
                    }
                }
                raw
            };
            proof {
                assert(stripped@ == strip_comic_suffix(t@.subrange(s as int, e as int)));
            }
            let ss = chars_to_string(&stripped);
            Some(decode_entities(ss.as_str()))
        },
    }
}

/// The first post-id anchor that carries digits, at or after `from`: a
/// digitless anchor is passed over, but a digit run too large for u64
/// yields nothing, never a panic.
pub open spec fn post_id_from(t: Seq<char>, from: int) -> Option<u64>
    decreases t.len() - from + 1,
{
    if from < 0 || from > t.len() {
        None
    } else {
        match first_match_from(t, post_id_open(), from) {
            Option::None => None,
            Option::Some(i) => {
                let s = i + post_id_open().len();
                let e = digit_end(t, s);
                if s < e {
                    if digits_val(t.subrange(s, e)) <= u64::MAX {
                        Some(digits_val(t.subrange(s, e)) as u64)
                    } else {
                        None
                    }
                } else {
                    if from < i + 1 <= t.len() {
                        post_id_from(t, i + 1)
                    } else {
                        None
                    }
                }
            },
        }
    }
}

/// The post id anchored in the page markup, when it is there and fits.
pub open spec fn spec_extract_post_id(t: Seq<char>) -> Option<u64> {
    post_id_from(t, 0)
}

/// First digit-bearing match of the post-id anchor; absence and overflow
/// are explicit.
pub fn extract_post_id(text: &str) -> (r: Option<u64>)
    ensures
        r == spec_extract_post_id(text@),
{
    let t = str_to_chars(text);
    let tlen = t.len();
    proof {
        assert(t@.len() == tlen);
    }
    let open_p = post_id_open_pat();
    let mut cur: usize = 0;
    loop
        invariant_except_break
            t@ == text@,
            t@.len() == tlen,
            cur <= tlen,
            open_p@ == post_id_open(),
            post_id_from(t@, cur as int) == post_id_from(t@, 0),
        ensures
            post_id_from(t@, 0) is None,
        decreases t@.len() - cur,
    {
        let i = match find_from(&t, &open_p, cur) {
            Option::Some(i) => i,
            Option::None => {
                break;
            },
        };
        let s = i + open_p.len();
        let e = digit_end_exec(&t, s);
        if e <= s {
            cur = i + 1;
            continue;
        }
        proof {
            lemma_digit_end_props(t@, s as int);
            assert(crate::numbers::all_digits(t@.subrange(s as int, e as int))) by {
                assert(forall|k: int|
                    0 <= k < e - s ==> crate::numbers::is_digit(
                        #[trigger] t@.subrange(s as int, e as int)[k],
                    ));
            }
        }
        return match crate::numbers::parse_u64_range(&t, s, e) {
            Option::Some(v) => Some(v),
            Option::None => None,
        };
    }
    None
}

/// The free-text comment count in the comments heading, trimmed.
pub open spec fn spec_extract_comment_count(t: Seq<char>) -> Option<Seq<char>> {
    match first_match_from(t, h3_open(), 0) {
        Option::None => None,
        Option::Some(i) => match first_match_from(t, comments_id(), i + h3_open().len()) {
            Option::None => None,
            Option::Some(i2) => match first_char_at(t, '>', i2 + comments_id().len()) {
                Option::None => None,
                Option::Some(i3) => match first_match_from(t, h3_close(), i3 + 1) {
                    Option::None => None,
                    Option::Some(e) => Some(trim_ws(t.subrange(i3 + 1, e))),
                },
            },
        },
    }
}

/// First match of the comments heading; absence is explicit.
pub fn extract_comment_count(text: &str) -> (r: Option<String>)
    ensures
        r is Some <==> spec_extract_comment_count(text@) is Some,
        r matches Some(x) ==> Some(x@) == spec_extract_comment_count(text@),
{
    let t = str_to_chars(text);
    let tlen = t.len();
    proof {
        assert(t@.len() == tlen);
    }
    let h3_p = h3_open_pat();
    match find_from(&t, &h3_p, 0) {
        Option::None => None,
        Option::Some(i) => {
            let id_p = comments_id_pat();
            match find_from(&t, &id_p, i + h3_p.len()) {
                Option::None => None,
                Option::Some(i2) => match find_char_from(&t, '>', i2 + id_p.len()) {
                    Option::None => None,
                    Option::Some(i3) => {
                        let close_p = h3_close_pat();
                        match find_from(&t, &close_p, i3 + 1) {
                            Option::None => None,
                            Option::Some(e) => {
                                let w = trim_copy(&t, i3 + 1, e);
                                Some(chars_to_string(&w))
                            },
                        }
                    },
                },
            }
        },
    }
}

pub open spec fn is_url_break(c: char) -> bool {
    c == '"' || c == '<' || c == '>' || c == ' ' || c == '\n'
}

pub open spec fn url_chars_ok(u: Seq<char>) -> bool {
    forall|k: int| 0 <= k < u.len() ==> !is_url_break(#[trigger] u[k])
}

/// A captured image link: stays inside one attribute, points at the image
/// host's upload area, and has a nonempty host and path.
pub open spec fn image_ok(u: Seq<char>) -> bool {
    &&& url_chars_ok(u)
    &&& match first_match_from(u, host_mark(), 0) {
        Option::Some(h) => h >= 9 && h + host_mark().len() + 1 + jpg_ext().len() <= u.len(),
        Option::None => false,
    }
}

/// All image links at or after `from`, in document order, duplicates kept.
pub open spec fn image_urls_from(t: Seq<char>, from: int) -> Seq<Seq<char>>
    decreases t.len() - from + 1,
{
    if from < 0 || from > t.len() {
        Seq::empty()
    } else {
        match first_match_from(t, img_open(), from) {
            Option::None => Seq::empty(),
            Option::Some(i) => {
                let s = i + 9;
                match first_match_from(t, jpg_ext(), s + 8) {
                    Option::None => Seq::empty(),
                    Option::Some(j) => {
                        let u = t.subrange(s, j + jpg_ext().len());
                        if image_ok(u) {
                            let nxt = j + jpg_ext().len();
                            if from < nxt <= t.len() {
                                seq![u] + image_urls_from(t, nxt)
                            } else {
                                seq![u]
                            }
                        } else {
                            if from < i + 1 <= t.len() {
                                image_urls_from(t, i + 1)
                            } else {
                                Seq::empty()
                            }
                        }
                    },
                }
            },
        }
    }
}

fn image_ok_exec(u: &Vec<char>) -> (r: bool)
    ensures
        r == image_ok(u@),
{
    let ulen = u.len();
    proof {
        assert(u@.len() == ulen);
    }
    let mut k: usize = 0;
    while k < u.len()
        invariant
            0 <= k <= u@.len(),
            forall|m: int| 0 <= m < k ==> !is_url_break(#[trigger] u@[m]),
        decreases u@.len() - k,
    {
        let c = u[k];
        if c == '"' || c == '<' || c == '>' || c == ' ' || c == '\n' {
            return false;
        }
        k = k + 1;
    }
    let host_p = host_mark_pat();
    match find_from(u, &host_p, 0) {
        Option::None => false,
        Option::Some(h) => h >= 9 && ulen >= 31 && h <= ulen - 31,
    }
}

/// All matches of the image-hosting anchor pattern, in document order,
/// duplicates preserved.
pub fn extract_image_urls(text: &str) -> (r: Vec<String>)
    ensures
        r@.map_values(|s: String| s@) == image_urls_from(text@, 0),
{
    let t = str_to_chars(text);
    let tlen = t.len();
    proof {
        assert(t@.len() == tlen);
    }
    let open_p = img_open_pat();
    let jpg_p = jpg_ext_pat();
    let mut out: Vec<String> = Vec::new();
    let mut cur: usize = 0;
    proof {
        assert(out@.map_values(|s: String| s@) + image_urls_from(t@, 0) =~= image_urls_from(
            t@,
            0,
        ));
    }
    loop
        invariant_except_break
            t@ == text@,
            t@.len() == tlen,
            cur <= tlen,
            open_p@ == img_open(),
            jpg_p@ == jpg_ext(),
            out@.map_values(|s: String| s@) + image_urls_from(t@, cur as int)
                == image_urls_from(t@, 0),
        ensures
            out@.map_values(|s: String| s@) == image_urls_from(text@, 0),
        decreases t@.len() - cur,
    {
        let found = find_from(&t, &open_p, cur);
        match found {
            Option::None => {
                proof {
                    assert(out@.map_values(|s: String| s@) + image_urls_from(t@, cur as int)
                        =~= out@.map_values(|s: String| s@));
                }
                break;
            },
            Option::Some(i) => {
                let s = i + 9;
                let jf = find_from(&t, &jpg_p, s + 8);
                match jf {
                    Option::None => {
                        proof {
                            assert(out@.map_values(|s: String| s@) + image_urls_from(
                                t@,
                                cur as int,
                            ) =~= out@.map_values(|s: String| s@));
                        }
                        break;
                    },
                    Option::Some(j) => {
                        let u = copy_range(&t, s, j + 4);
                        if image_ok_exec(&u) {
                            let ghost old_map = out@.map_values(|s: String| s@);
                            let us = chars_to_string(&u);
                            out.push(us);
                            proof {
                                assert(out@.map_values(|s: String| s@) =~= old_map.push(u@));
                                assert(old_map.push(u@) + image_urls_from(t@, j + 4 as int)
                                    =~= old_map + (seq![u@] + image_urls_from(
                                    t@,
                                    j + 4 as int,
                                )));
                            }
                            cur = j + 4;
                        } else {
                            cur = i + 1;
                        }
                    },
                }
            },
        }
    }
    out
}


/// The image-link scan is a pure function of the text: two runs over the
/// same input yield the same ordered list, duplicates and all.
pub proof fn lemma_image_urls_deterministic(t: Seq<char>, r1: Seq<Seq<char>>, r2: Seq<Seq<char>>)
    requires
        r1 == image_urls_from(t, 0),
        r2 == image_urls_from(t, 0),
    ensures
        r1 == r2,
{
}

/// All chapter options at or after `from`: (decoded display name, link).
pub open spec fn chapters_from(t: Seq<char>, from: int) -> Seq<(Seq<char>, Seq<char>)>
    decreases t.len() - from + 1,
{
    if from < 0 || from > t.len() {
        Seq::empty()
    } else {
        match first_match_from(t, opt_open(), from) {
            Option::None => Seq::empty(),
            Option::Some(i) => {
                let k = i + opt_open().len();
                let k2 = if match_at(t, selected_attr(), k) {
                    k + selected_attr().len()
                } else {
                    k
                };
                if match_at(t, data_url_attr(), k2) {
                    let s = k2 + data_url_attr().len();
                    match first_match_from(t, quote_gt(), s) {
                        Option::None => if from < i + 1 <= t.len() {
                            chapters_from(t, i + 1)
                        } else {
                            Seq::empty()
                        },
                        Option::Some(q) => {
                            let ns = q + quote_gt().len();
                            match first_match_from(t, option_close(), ns) {
                                Option::None => if from < i + 1 <= t.len() {
                                    chapters_from(t, i + 1)
                                } else {
                                    Seq::empty()
                                },
                                Option::Some(z) => if q > s && z > ns {
                                    let item = (
                                        html_decoded(t.subrange(ns, z)),
                                        t.subrange(s, q),
                                    );
                                    let nxt = z + option_close().len();
                                    if from < nxt <= t.len() {
                                        seq![item] + chapters_from(t, nxt)
                                    } else {
                                        seq![item]
                                    }
                                } else {
                                    if from < i + 1 <= t.len() {
                                        chapters_from(t, i + 1)
                                    } else {
                                        Seq::empty()
                                    }
                                },
                            }
                        },
                    }
                } else {
                    if from < i + 1 <= t.len() {
                        chapters_from(t, i + 1)
                    } else {
                        Seq::empty()
                    }
                }
            },
        }
    }
}

/// All matches of the chapter-selector pattern, in document order; names
/// are entity-decoded.
pub fn extract_chapters(text: &str) -> (r: Vec<Post>)
    ensures
        r@.map_values(|p: Post| (p.name@, p.url@)) == chapters_from(text@, 0),
{
    let t = str_to_chars(text);
    let tlen = t.len();
    proof {
        assert(t@.len() == tlen);
    }
    let open_p = opt_open_pat();
    let sel_p = selected_attr_pat();
    let durl_p = data_url_attr_pat();
    let qgt_p = quote_gt_pat();
    let ocl_p = option_close_pat();
    let mut out: Vec<Post> = Vec::new();
    let mut cur: usize = 0;
    proof {
        assert(out@.map_values(|p: Post| (p.name@, p.url@)) + chapters_from(t@, 0)
            =~= chapters_from(t@, 0));
    }
    loop
        invariant_except_break
            t@ == text@,
            t@.len() == tlen,
            cur <= tlen,
            open_p@ == opt_open(),
            sel_p@ == selected_attr(),
            durl_p@ == data_url_attr(),
            qgt_p@ == quote_gt(),
            ocl_p@ == option_close(),
            out@.map_values(|p: Post| (p.name@, p.url@)) + chapters_from(t@, cur as int)
                == chapters_from(t@, 0),
        ensures
            out@.map_values(|p: Post| (p.name@, p.url@)) == chapters_from(text@, 0),
        decreases t@.len() - cur,
    {
        let found = find_from(&t, &open_p, cur);
        match found {
            Option::None => {
                proof {
                    assert(out@.map_values(|p: Post| (p.name@, p.url@)) + chapters_from(
                        t@,
                        cur as int,
                    ) =~= out@.map_values(|p: Post| (p.name@, p.url@)));
                }
                break;
            },
            Option::Some(i) => {
                let k = i + open_p.len();
                let k2: usize = if k <= tlen && sel_p.len() <= tlen - k && eq_at(&t, &sel_p, k) {
                    k + sel_p.len()
                } else {
                    proof {
                        if k + selected_attr().len() > t@.len() {
                            assert(!match_at(t@, selected_attr(), k as int));
                        }
                    }
                    k
                };
                let ok = k2 <= tlen && durl_p.len() <= tlen - k2 && eq_at(&t, &durl_p, k2);
                proof {
                    if k2 + data_url_attr().len() > t@.len() {
                        assert(!match_at(t@, data_url_attr(), k2 as int));
                    }
                }
                if !ok {
                    cur = i + 1;
                } else {
                    let s = k2 + durl_p.len();
                    match find_from(&t, &qgt_p, s) {
                        Option::None => {
                            cur = i + 1;
                        },
                        Option::Some(q) => {
                            let ns = q + qgt_p.len();
                            match find_from(&t, &ocl_p, ns) {
                                Option::None => {
                                    cur = i + 1;
                                },
                                Option::Some(z) => {
                                    if q > s && z > ns {
                                        let ghost old_map = out@.map_values(
                                            |p: Post| (p.name@, p.url@),
                                        );
                                        let rawname = copy_range(&t, ns, z);
                                        let rn = chars_to_string(&rawname);
                                        let name = decode_entities(rn.as_str());
                                        let urlv = copy_range(&t, s, q);
                                        let url = chars_to_string(&urlv);
                                        let ghost item = (
                                            html_decoded(t@.subrange(ns as int, z as int)),
                                            t@.subrange(s as int, q as int),
                                        );
                                        out.push(Post { name, url });
                                        proof {
                                            assert(out@.map_values(|p: Post| (p.name@, p.url@))
                                                =~= old_map.push(item));
                                            assert(old_map.push(item) + chapters_from(
                                                t@,
                                                z + option_close().len(),
                                            ) =~= old_map + (seq![item] + chapters_from(
                                                t@,
                                                z + option_close().len(),
                                            )));
                                        }
                                        cur = z + ocl_p.len();
                                    } else {
                                        cur = i + 1;
                                    }
                                },
                            }
                        },
                    }
                }
            },
        }
    }
    out
}

/// All raw infobox rows at or after `from`: (label, inner fragment).
pub open spec fn rows_from(t: Seq<char>, from: int) -> Seq<(Seq<char>, Seq<char>)>
    decreases t.len() - from + 1,
{
    if from < 0 || from > t.len() {
        Seq::empty()
    } else {
        match first_match_from(t, row_open(), from) {
            Option::None => Seq::empty(),
            Option::Some(i) => {
                let s = i + row_open().len();
                match opt_min(
                    first_match_from(t, sep_tight(), s + 1),
                    first_match_from(t, sep_spaced(), s + 1),
                ) {
                    Option::None => if from < i + 1 <= t.len() {
                        rows_from(t, i + 1)
                    } else {
                        Seq::empty()
                    },
                    Option::Some(m) => {
                        let hs = if match_at(t, sep_tight(), m) {
                            m + sep_tight().len()
                        } else {
                            m + sep_spaced().len()
                        };
                        match first_match_from(t, div_close(), hs + 1) {
                            Option::None => if from < i + 1 <= t.len() {
                                rows_from(t, i + 1)
                            } else {
                                Seq::empty()
                            },
                            Option::Some(e) => {
                                let item = (t.subrange(s, m), t.subrange(hs, e));
                                let nxt = e + div_close().len();
                                if from < nxt <= t.len() {
                                    seq![item] + rows_from(t, nxt)
                                } else {
                                    seq![item]
                                }
                            },
                        }
                    },
                }
            },
        }
    }
}

/// First pass over a post page: the raw label/fragment rows of the
/// infobox, in document order.
pub fn extract_info_box_rows(text: &str) -> (r: Vec<RawInfoBoxRow>)
    ensures
        r@.map_values(|x: RawInfoBoxRow| (x.name@, x.html@)) == rows_from(text@, 0),
{
    let t = str_to_chars(text);
    let tlen = t.len();
    proof {
        assert(t@.len() == tlen);
    }
    let open_p = row_open_pat();
    let tight_p = sep_tight_pat();
    let spaced_p = sep_spaced_pat();
    let close_p = div_close_pat();
    let mut out: Vec<RawInfoBoxRow> = Vec::new();
    let mut cur: usize = 0;
    proof {
        assert(out@.map_values(|x: RawInfoBoxRow| (x.name@, x.html@)) + rows_from(t@, 0)
            =~= rows_from(t@, 0));
    }
    loop
        invariant_except_break
            t@ == text@,
            t@.len() == tlen,
            cur <= tlen,
            open_p@ == row_open(),
            tight_p@ == sep_tight(),
            spaced_p@ == sep_spaced(),
            close_p@ == div_close(),
            out@.map_values(|x: RawInfoBoxRow| (x.name@, x.html@)) + rows_from(t@, cur as int)
                == rows_from(t@, 0),
        ensures
            out@.map_values(|x: RawInfoBoxRow| (x.name@, x.html@)) == rows_from(text@, 0),
        decreases t@.len() - cur,
    {
        let found = find_from(&t, &open_p, cur);
        match found {
            Option::None => {
                proof {
                    assert(out@.map_values(|x: RawInfoBoxRow| (x.name@, x.html@)) + rows_from(
                        t@,
                        cur as int,
                    ) =~= out@.map_values(|x: RawInfoBoxRow| (x.name@, x.html@)));
                }
                break;
            },
            Option::Some(i) => {
                let s = i + open_p.len();
                let m1: Option<usize> = if s < tlen {
                    find_from(&t, &tight_p, s + 1)
                } else {
                    proof {
                        crate::scan::lemma_first_match_from(t@, sep_tight(), s + 1 as int);
                    }
                    None
                };
                let m2: Option<usize> = if s < tlen {
                    find_from(&t, &spaced_p, s + 1)
                } else {
                    None
                };
                let mo: Option<usize> = match (m1, m2) {
                    (Option::None, Option::None) => None,
                    (Option::Some(x), Option::None) => Some(x),
                    (Option::None, Option::Some(y)) => Some(y),
                    (Option::Some(x), Option::Some(y)) => if x <= y {
                        Some(x)
                    } else {
                        Some(y)
                    },
                };
                match mo {
                    Option::None => {
                        cur = i + 1;
                    },
                    Option::Some(m) => {
                        let tight = m <= tlen && tight_p.len() <= tlen - m && eq_at(
                            &t,
                            &tight_p,
                            m,
                        );
                        proof {
                            if m + sep_tight().len() > t@.len() {
                                assert(!match_at(t@, sep_tight(), m as int));
                            }
                        }
                        let hs: usize = if tight {
                            m + tight_p.len()
                        } else {
                            m + spaced_p.len()
                        };
                        let ef: Option<usize> = if hs < tlen {
                            find_from(&t, &close_p, hs + 1)
                        } else {
                            None
                        };
                        match ef {
                            Option::None => {
                                cur = i + 1;
                            },
                            Option::Some(e) => {
                                let ghost old_map = out@.map_values(
                                    |x: RawInfoBoxRow| (x.name@, x.html@),
                                );
                                let namev = copy_range(&t, s, m);
                                let htmlv = copy_range(&t, hs, e);
                                let ghost item = (
                                    t@.subrange(s as int, m as int),
                                    t@.subrange(hs as int, e as int),
                                );
                                out.push(
                                    RawInfoBoxRow {
                                        name: chars_to_string(&namev),
                                        html: chars_to_string(&htmlv),
                                    },
                                );
                                proof {
                                    assert(out@.map_values(|x: RawInfoBoxRow| (x.name@, x.html@))
                                        =~= old_map.push(item));
                                    assert(old_map.push(item) + rows_from(
                                        t@,
                                        e + div_close().len(),
                                    ) =~= old_map + (seq![item] + rows_from(
                                        t@,
                                        e + div_close().len(),
                                    )));
                                }
                                cur = e + close_p.len();
                            },
                        }
                    },
                }
            },
        }
    }
    out
}

/// All tag links of one row fragment at or after `from`: (href, text).
pub open spec fn tag_likes_from(t: Seq<char>, from: int) -> Seq<(Seq<char>, Seq<char>)>
    decreases t.len() - from + 1,
{
    if from < 0 || from > t.len() {
        Seq::empty()
    } else {
        match first_match_from(t, tag_open(), from) {
            Option::None => Seq::empty(),
            Option::Some(i) => {
                let hs = i + tag_open().len();
                match first_char_at(t, '"', hs) {
                    Option::None => if from < i + 1 <= t.len() {
                        tag_likes_from(t, i + 1)
                    } else {
                        Seq::empty()
                    },
                    Option::Some(h) => {
                        if h > hs && match_at(t, rel_tag(), h) {
                            let ts = h + rel_tag().len();
                            match first_char_at(t, '<', ts) {
                                Option::None => if from < i + 1 <= t.len() {
                                    tag_likes_from(t, i + 1)
                                } else {
                                    Seq::empty()
                                },
                                Option::Some(x) => {
                                    if x > ts && match_at(t, a_span_close(), x) {
                                        let item = (t.subrange(hs, h), t.subrange(ts, x));
                                        let nxt = x + a_span_close().len();
                                        if from < nxt <= t.len() {
                                            seq![item] + tag_likes_from(t, nxt)
                                        } else {
                                            seq![item]
                                        }
                                    } else {
                                        if from < i + 1 <= t.len() {
                                            tag_likes_from(t, i + 1)
                                        } else {
                                            Seq::empty()
                                        }
                                    }
                                },
                            }
                        } else {
                            if from < i + 1 <= t.len() {
                                tag_likes_from(t, i + 1)
                            } else {
                                Seq::empty()
                            }
                        }
                    },
                }
            },
        }
    }
}

/// The tag links of one row fragment, in order.
#[verifier::rlimit(80)]
pub fn extract_tag_likes(frag: &Vec<char>) -> (r: Vec<TagLike>)
    ensures
        r@.map_values(|g: TagLike| (g.href@, g.text@)) == tag_likes_from(frag@, 0),
{
    let tlen = frag.len();
    proof {
        assert(frag@.len() == tlen);
    }
    let open_p = tag_open_pat();
    let rel_p = rel_tag_pat();
    let close_p = a_span_close_pat();
    let mut out: Vec<TagLike> = Vec::new();
    let mut cur: usize = 0;
    proof {
        assert(out@.map_values(|g: TagLike| (g.href@, g.text@)) + tag_likes_from(frag@, 0)
            =~= tag_likes_from(frag@, 0));
    }
    loop
        invariant_except_break
            frag@.len() == tlen,
            cur <= tlen,
            open_p@ == tag_open(),
            rel_p@ == rel_tag(),
            close_p@ == a_span_close(),
            out@.map_values(|g: TagLike| (g.href@, g.text@)) + tag_likes_from(frag@, cur as int)
                == tag_likes_from(frag@, 0),
        ensures
            out@.map_values(|g: TagLike| (g.href@, g.text@)) == tag_likes_from(frag@, 0),
        decreases frag@.len() - cur,
    {
        let found = find_from(frag, &open_p, cur);
        match found {
            Option::None => {
                proof {
                    assert(out@.map_values(|g: TagLike| (g.href@, g.text@)) + tag_likes_from(
                        frag@,
                        cur as int,
                    ) =~= out@.map_values(|g: TagLike| (g.href@, g.text@)));
                }
                break;
            },
            Option::Some(i) => {
                let hs = i + open_p.len();
                match find_char_from(frag, '"', hs) {
                    Option::None => {
                        cur = i + 1;
                    },
                    Option::Some(h) => {
                        let rel_ok = h <= tlen && rel_p.len() <= tlen - h && eq_at(
                            frag,
                            &rel_p,
                            h,
                        );
                        proof {
                            if h + rel_tag().len() > frag@.len() {
                                assert(!match_at(frag@, rel_tag(), h as int));
                            }
                        }
                        if !(h > hs && rel_ok) {
                            cur = i + 1;
                        } else {
                            let ts = h + rel_p.len();
                            match find_char_from(frag, '<', ts) {
                                Option::None => {
                                    cur = i + 1;
                                },
                                Option::Some(x) => {
                                    let cl_ok = x <= tlen && close_p.len() <= tlen - x && eq_at(
                                        frag,
                                        &close_p,
                                        x,
                                    );
                                    proof {
                                        if x + a_span_close().len() > frag@.len() {
                                            assert(!match_at(frag@, a_span_close(), x as int));
                                        }
                                    }
                                    if !(x > ts && cl_ok) {
                                        cur = i + 1;
                                    } else {
                                        let ghost old_map = out@.map_values(
                                            |g: TagLike| (g.href@, g.text@),
                                        );
                                        let hrefv = copy_range(frag, hs, h);
                                        let textv = copy_range(frag, ts, x);
                                        let ghost item = (
                                            frag@.subrange(hs as int, h as int),
                                            frag@.subrange(ts as int, x as int),
                                        );
                                        out.push(
                                            TagLike {
                                                href: chars_to_string(&hrefv),
                                                text: chars_to_string(&textv),
                                            },
                                        );
                                        proof {
                                            assert(out@.map_values(
                                                |g: TagLike| (g.href@, g.text@),
                                            ) =~= old_map.push(item));
                                            assert(old_map.push(item) + tag_likes_from(
                                                frag@,
                                                x + a_span_close().len(),
                                            ) =~= old_map + (seq![item] + tag_likes_from(
                                                frag@,
                                                x + a_span_close().len(),
                                            )));
                                        }
                                        cur = x + close_p.len();
                                    }
                                },
                            }
                        }
                    },
                }
            },
        }
    }
    out
}

/// The first free-text span of one row fragment at or after `from`:
/// (css class, text).
pub open spec fn text_span_from(t: Seq<char>, from: int) -> Option<(Seq<char>, Seq<char>)>
    decreases t.len() - from + 1,
{
    if from < 0 || from > t.len() {
        None
    } else {
        match first_match_from(t, text_open(), from) {
            Option::None => None,
            Option::Some(i) => {
                let cs = i + text_open().len();
                match first_char_at(t, '"', cs) {
                    Option::None => if from < i + 1 <= t.len() {
                        text_span_from(t, i + 1)
                    } else {
                        None
                    },
                    Option::Some(q) => {
                        if q > cs && match_at(t, quote_gt(), q) {
                            let c0 = q + quote_gt().len();
                            let c1 = if c0 < t.len() && t[c0] == ' ' {
                                c0 + 1
                            } else {
                                c0
                            };
                            match first_match_from(t, span_close(), c1) {
                                Option::None => if from < i + 1 <= t.len() {
                                    text_span_from(t, i + 1)
                                } else {
                                    None
                                },
                                Option::Some(e) => {
                                    let raw = t.subrange(c1, e);
                                    let txt = if raw.len() > 0 && raw.last() == ' ' {
                                        raw.drop_last()
                                    } else {
                                        raw
                                    };
                                    Some((t.subrange(cs, q), txt))
                                },
                            }
                        } else {
                            if from < i + 1 <= t.len() {
                                text_span_from(t, i + 1)
                            } else {
                                None
                            }
                        }
                    },
                }
            },
        }
    }
}

/// The first free-text span of one row fragment, when the fragment has
/// one.
pub fn extract_text_span(frag: &Vec<char>) -> (r: Option<(String, String)>)
    ensures
        r is Some <==> text_span_from(frag@, 0) is Some,
        r matches Some(p) ==> Some((p.0@, p.1@)) == text_span_from(frag@, 0),
{
    let tlen = frag.len();
    proof {
        assert(frag@.len() == tlen);
    }
    let open_p = text_open_pat();
    let qgt_p = quote_gt_pat();
    let close_p = span_close_pat();
    let mut cur: usize = 0;
    loop
        invariant_except_break
            frag@.len() == tlen,
            cur <= tlen,
            open_p@ == text_open(),
            qgt_p@ == quote_gt(),
            close_p@ == span_close(),
            text_span_from(frag@, cur as int) == text_span_from(frag@, 0),
        ensures
            text_span_from(frag@, 0) is None,
        decreases frag@.len() - cur,
    {
        let found = find_from(frag, &open_p, cur);
        match found {
            Option::None => {
                break;
            },
            Option::Some(i) => {
                let cs = i + open_p.len();
                match find_char_from(frag, '"', cs) {
                    Option::None => {
                        cur = i + 1;
                    },
                    Option::Some(q) => {
                        let q_ok = q <= tlen && qgt_p.len() <= tlen - q && eq_at(frag, &qgt_p, q);
                        proof {
                            if q + quote_gt().len() > frag@.len() {
                                assert(!match_at(frag@, quote_gt(), q as int));
                            }
                        }
                        if !(q > cs && q_ok) {
                            cur = i + 1;
                        } else {
                            let c0 = q + qgt_p.len();
                            let c1: usize = if c0 < tlen && frag[c0] == ' ' {
                                c0 + 1
                            } else {
                                c0
                            };
                            match find_from(frag, &close_p, c1) {
                                Option::None => {
                                    cur = i + 1;
                                },
                                Option::Some(e) => {
                                    let rawlen = e - c1;
                                    let txt_end: usize = if rawlen > 0 && frag[e - 1] == ' ' {
                                        e - 1
                                    } else {
                                        e
                                    };
                                    proof {
                                        let raw = frag@.subrange(c1 as int, e as int);
                                        if raw.len() > 0 && raw.last() == ' ' {
                                            assert(raw.drop_last() =~= frag@.subrange(
                                                c1 as int,
                                                e - 1 as int,
                                            ));
                                        }
                                    }
                                    let clsv = copy_range(frag, cs, q);
                                    let txtv = copy_range(frag, c1, txt_end);
                                    return Some(
                                        (chars_to_string(&clsv), chars_to_string(&txtv)),
                                    );
                                },
                            }
                        }
                    },
                }
            },
        }
    }
    None
}

/// The classification of one raw row, tried in order: tag links first,
/// then a free-text span, else the raw fragment.
pub enum RowModel {
    Raw(Seq<char>, Seq<char>),
    Tags(Seq<char>, Seq<(Seq<char>, Seq<char>)>),
    Text(Seq<char>, Seq<char>, Option<Seq<char>>),
}

pub open spec fn classify_row(name: Seq<char>, html: Seq<char>) -> RowModel {
    let tags = tag_likes_from(html, 0);
    if tags.len() > 0 {
        RowModel::Tags(name, tags)
    } else {
        match text_span_from(html, 0) {
            Option::Some(p) => RowModel::Text(name, p.0, Some(p.1)),
            Option::None => RowModel::Raw(name, html),
        }
    }
}

pub open spec fn row_model(r: InfoboxRow) -> RowModel {
    match r {
        InfoboxRow::Raw(rr) => RowModel::Raw(rr.name@, rr.html@),
        InfoboxRow::TagLike { name, tags } => RowModel::Tags(
            name@,
            tags@.map_values(|g: TagLike| (g.href@, g.text@)),
        ),
        InfoboxRow::Text { name, class_name, text } => RowModel::Text(
            name@,
            class_name@,
            match text {
                Option::Some(x) => Some(x@),
                Option::None => None,
            },
        ),
    }
}

/// Second pass: classifies one raw row into its tag-list, free-text or
/// raw shape; never more than one shape per row.
pub fn extract_from_infobox_row(row: RawInfoBoxRow) -> (r: InfoboxRow)
    ensures
        row_model(r) == classify_row(row.name@, row.html@),
{
    let frag = str_to_chars(row.html.as_str());
    let tags = extract_tag_likes(&frag);
    if tags.len() > 0 {
        return InfoboxRow::TagLike { name: row.name, tags };
    }
    match extract_text_span(&frag) {
        Option::Some((class_name, text)) => InfoboxRow::Text {
            name: row.name,
            class_name,
            text: Some(text),
        },
        Option::None => InfoboxRow::Raw(row),
    }
}

/// All pagination options at or after `from`: (link, 1-based page number
/// that fits u32).
pub open spec fn res_pages_from(t: Seq<char>, from: int) -> Seq<(Seq<char>, u32)>
    decreases t.len() - from + 1,
{
    if from < 0 || from > t.len() {
        Seq::empty()
    } else {
        match first_match_from(t, res_open(), from) {
            Option::None => Seq::empty(),
            Option::Some(i) => {
                let s = i + res_open().len();
                match first_char_at(t, '"', s) {
                    Option::None => if from < i + 1 <= t.len() {
                        res_pages_from(t, i + 1)
                    } else {
                        Seq::empty()
                    },
                    Option::Some(q) => {
                        if q > s {
                            let ds = if match_at(t, selected_gt(), q + 1) {
                                q + 1 + selected_gt().len()
                            } else if q + 2 <= t.len() && t[q + 1] == '>' {
                                q + 2
                            } else {
                                -1
                            };
                            if ds >= 0 {
                                let de = digit_end(t, ds);
                                if ds < de && match_at(t, option_close(), de) && digits_val(
                                    t.subrange(ds, de),
                                ) <= u32::MAX {
                                    let item = (
                                        t.subrange(s, q),
                                        digits_val(t.subrange(ds, de)) as u32,
                                    );
                                    let nxt = de + option_close().len();
                                    if from < nxt <= t.len() {
                                        seq![item] + res_pages_from(t, nxt)
                                    } else {
                                        seq![item]
                                    }
                                } else {
                                    if from < i + 1 <= t.len() {
                                        res_pages_from(t, i + 1)
                                    } else {
                                        Seq::empty()
                                    }
                                }
                            } else {
                                if from < i + 1 <= t.len() {
                                    res_pages_from(t, i + 1)
                                } else {
                                    Seq::empty()
                                }
                            }
                        } else {
                            if from < i + 1 <= t.len() {
                                res_pages_from(t, i + 1)
                            } else {
                                Seq::empty()
                            }
                        }
                    },
                }
            },
        }
    }
}

/// Extracts the links and numbers of the result pages; empty when the
/// page is unpaginated.
#[verifier::rlimit(80)]
pub fn extract_res_page_links(text: &str) -> (r: Vec<ResPage>)
    ensures
        r@.map_values(|p: ResPage| (p.url@, p.number)) == res_pages_from(text@, 0),
{
    let t = str_to_chars(text);
    let tlen = t.len();
    proof {
        assert(t@.len() == tlen);
    }
    let open_p = res_open_pat();
    let sel_p = selected_gt_pat();
    let ocl_p = option_close_pat();
    let mut out: Vec<ResPage> = Vec::new();
    let mut cur: usize = 0;
    proof {
        assert(out@.map_values(|p: ResPage| (p.url@, p.number)) + res_pages_from(t@, 0)
            =~= res_pages_from(t@, 0));
    }
    loop
        invariant_except_break
            t@ == text@,
            t@.len() == tlen,
            cur <= tlen,
            open_p@ == res_open(),
            sel_p@ == selected_gt(),
            ocl_p@ == option_close(),
            out@.map_values(|p: ResPage| (p.url@, p.number)) + res_pages_from(t@, cur as int)
                == res_pages_from(t@, 0),
        ensures
            out@.map_values(|p: ResPage| (p.url@, p.number)) == res_pages_from(text@, 0),
        decreases t@.len() - cur,
    {
        let found = find_from(&t, &open_p, cur);
        match found {
            Option::None => {
                proof {
                    assert(out@.map_values(|p: ResPage| (p.url@, p.number)) + res_pages_from(
                        t@,
                        cur as int,
                    ) =~= out@.map_values(|p: ResPage| (p.url@, p.number)));
                }
                break;
            },
            Option::Some(i) => {
                let s = i + open_p.len();
                match find_char_from(&t, '"', s) {
                    Option::None => {
                        cur = i + 1;
                    },
                    Option::Some(q) => {
                        if !(q > s) {
                            cur = i + 1;
                        } else {
                            let sel_ok = q + 1 <= tlen && sel_p.len() <= tlen - (q + 1) && eq_at(
                                &t,
                                &sel_p,
                                q + 1,
                            );
                            proof {
                                if q + 1 + selected_gt().len() > t@.len() {
                                    assert(!match_at(t@, selected_gt(), q + 1 as int));
                                }
                            }
                            let ds: usize = if sel_ok {
                                q + 1 + sel_p.len()
                            } else if tlen >= 2 && q <= tlen - 2 && t[q + 1] == '>' {
                                q + 2
                            } else {
                                cur = i + 1;
                                continue;
                            };
                            let de = digit_end_exec(&t, ds);
                            let cl_ok = de <= tlen && ocl_p.len() <= tlen - de && eq_at(
                                &t,
                                &ocl_p,
                                de,
                            );
                            proof {
                                if de + option_close().len() > t@.len() {
                                    assert(!match_at(t@, option_close(), de as int));
                                }
                            }
                            if !(ds < de && cl_ok) {
                                cur = i + 1;
                            } else {
                                proof {
                                    lemma_digit_end_props(t@, ds as int);
                                    assert(crate::numbers::all_digits(
                                        t@.subrange(ds as int, de as int),
                                    )) by {
                                        assert(forall|k: int|
                                            0 <= k < de - ds ==> crate::numbers::is_digit(
                                                #[trigger] t@.subrange(ds as int, de as int)[k],
                                            ));
                                    }
                                }
                                let numv = match crate::numbers::parse_u64_range(&t, ds, de) {
                                    Option::Some(v) => v,
                                    Option::None => {
                                        cur = i + 1;
                                        continue;
                                    },
                                };
                                if numv > 0xffff_ffff {
                                    cur = i + 1;
                                } else {
                                    let ghost old_map = out@.map_values(
                                        |p: ResPage| (p.url@, p.number),
                                    );
                                    let urlv = copy_range(&t, s, q);
                                    let ghost item = (
                                        t@.subrange(s as int, q as int),
                                        digits_val(t@.subrange(ds as int, de as int)) as u32,
                                    );
                                    out.push(
                                        ResPage {
                                            url: chars_to_string(&urlv),
                                            number: numv as u32,
                                        },
                                    );
                                    proof {
                                        assert(out@.map_values(|p: ResPage| (p.url@, p.number))
                                            =~= old_map.push(item));
                                        assert(old_map.push(item) + res_pages_from(
                                            t@,
                                            de + option_close().len(),
                                        ) =~= old_map + (seq![item] + res_pages_from(
                                            t@,
                                            de + option_close().len(),
                                        )));
                                    }
                                    cur = de + ocl_p.len();
                                }
                            }
                        }
                    },
                }
            },
        }
    }
    out
}

pub open spec fn tg_a() -> Seq<char> {
    seq!['<', 'a', ' ', 'h', 'r', 'e', 'f', '=', '"']
}

fn tg_a_pat() -> (r: Vec<char>)
    ensures
        r@ == tg_a(),
{
    let r = str_to_chars("<a href=\"");
    proof {
        reveal_strlit("<a href=\"");
        assert(r@ =~= tg_a());
    }
    r
}

pub open spec fn tg_main_open() -> Seq<char> {
    seq!['<', 'h', '2', ' ', 'c', 'l', 'a', 's', 's', '=', '"', 'm', 'a', 'i', 'n', 'T', 'i', 't', 'l', 'e', '"', '>']
}

fn tg_main_open_pat() -> (r: Vec<char>)
    ensures
        r@ == tg_main_open(),
{
    let r = str_to_chars("<h2 class=\"mainTitle\">");
    proof {
        reveal_strlit("<h2 class=\"mainTitle\">");
        assert(r@ =~= tg_main_open());
    }
    r
}

pub open spec fn tg_main_close() -> Seq<char> {
    seq!['<', '/', 'h', '2', '>']
}

fn tg_main_close_pat() -> (r: Vec<char>)
    ensures
        r@ == tg_main_close(),
{
    let r = str_to_chars("</h2>");
    proof {
        reveal_strlit("</h2>");
        assert(r@ =~= tg_main_close());
    }
    r
}

pub open spec fn tg_alt_open() -> Seq<char> {
    seq!['<', 'h', '3', ' ', 'c', 'l', 'a', 's', 's', '=', '"', 'a', 'l', 't', 'T', 'i', 't', 'l', 'e', '"', '>']
}

fn tg_alt_open_pat() -> (r: Vec<char>)
    ensures
        r@ == tg_alt_open(),
{
    let r = str_to_chars("<h3 class=\"altTitle\">");
    proof {
        reveal_strlit("<h3 class=\"altTitle\">");
        assert(r@ =~= tg_alt_open());
    }
    r
}

pub open spec fn tg_alt_close() -> Seq<char> {
    seq!['<', '/', 'h', '3', '>']
}

fn tg_alt_close_pat() -> (r: Vec<char>)
    ensures
        r@ == tg_alt_close(),
{
    let r = str_to_chars("</h3>");
    proof {
        reveal_strlit("</h3>");
        assert(r@ =~= tg_alt_close());
    }
    r
}

pub open spec fn tg_views_open() -> Seq<char> {
    seq!['<', 's', 'p', 'a', 'n', ' ', 'c', 'l', 'a', 's', 's', '=', '"', 'v', 'i', 'e', 'w', 's', '"', '>']
}

fn tg_views_open_pat() -> (r: Vec<char>)
    ensures
        r@ == tg_views_open(),
{
    let r = str_to_chars("<span class=\"views\">");
    proof {
        reveal_strlit("<span class=\"views\">");
        assert(r@ =~= tg_views_open());
    }
    r
}

pub open spec fn tg_up_open() -> Seq<char> {
    seq!['<', 's', 'p', 'a', 'n', ' ', 'i', 'd', '=', '"', 'u', 'p', 'V', 'o', 't', 'e', 's', '"', '>']
}

fn tg_up_open_pat() -> (r: Vec<char>)
    ensures
        r@ == tg_up_open(),
{
    let r = str_to_chars("<span id=\"upVotes\">");
    proof {
        reveal_strlit("<span id=\"upVotes\">");
        assert(r@ =~= tg_up_open());
    }
    r
}

pub open spec fn tg_down_open() -> Seq<char> {
    seq!['<', 's', 'p', 'a', 'n', ' ', 'i', 'd', '=', '"', 'd', 'o', 'w', 'n', 'V', 'o', 't', 'e', 's', '"', '>']
}

fn tg_down_open_pat() -> (r: Vec<char>)
    ensures
        r@ == tg_down_open(),
{
    let r = str_to_chars("<span id=\"downVotes\">");
    proof {
        reveal_strlit("<span id=\"downVotes\">");
        assert(r@ =~= tg_down_open());
    }
    r
}

pub open spec fn tg_tags_open() -> Seq<char> {
    seq!['<', 's', 'p', 'a', 'n', ' ', 'c', 'l', 'a', 's', 's', '=', '"', 't', 'a', 'g', 's', '"', '>']
}

fn tg_tags_open_pat() -> (r: Vec<char>)
    ensures
        r@ == tg_tags_open(),
{
    let r = str_to_chars("<span class=\"tags\">");
    proof {
        reveal_strlit("<span class=\"tags\">");
        assert(r@ =~= tg_tags_open());
    }
    r
}

pub open spec fn quote_only() -> Seq<char> {
    seq!['"']
}

fn quote_only_pat() -> (r: Vec<char>)
    ensures
        r@ == quote_only(),
{
    let r = str_to_chars("\"");
    proof {
        reveal_strlit("\"");
        assert(r@ =~= quote_only());
    }
    r
}

/// Finds marker `a` at or after `from` and captures up to the next `b`:
/// the text between them and the index after `b`.
pub open spec fn cap(t: Seq<char>, a: Seq<char>, b: Seq<char>, from: int) -> Option<
    (Seq<char>, int),
> {
    match first_match_from(t, a, from) {
        Option::None => None,
        Option::Some(i) => {
            let s = i + a.len();
            match first_match_from(t, b, s) {
                Option::None => None,
                Option::Some(e) => Some((t.subrange(s, e), e + b.len())),
            }
        },
    }
}

/// Executable mirror of `cap`.
pub fn cap_exec(t: &Vec<char>, a: &Vec<char>, b: &Vec<char>, from: usize) -> (r: Option<
    (Vec<char>, usize),
>)
    requires
        a@.len() >= 1,
    ensures
        r matches Some(p) ==> cap(t@, a@, b@, from as int) == Some((p.0@, p.1 as int)) && from
            < p.1 <= t@.len(),
        r is None ==> cap(t@, a@, b@, from as int) is None,
{
    let tl = t.len();
    proof {
        assert(t@.len() == tl);
    }
    match find_from(t, a, from) {
        Option::None => None,
        Option::Some(i) => {
            let s = i + a.len();
            match find_from(t, b, s) {
                Option::None => None,
                Option::Some(e) => {
                    let cv = copy_range(t, s, e);
                    Some((cv, e + b.len()))
                },
            }
        },
    }
}

/// One listing entry as the scanner reads it.
pub struct TargetModel {
    pub post_id: u32,
    pub name: Seq<char>,
    pub url: Seq<char>,
    pub views: u32,
    pub upvotes: u32,
    pub downvotes: u32,
    pub meta_tags: Seq<Seq<char>>,
    pub rendered_tags: Seq<(Seq<char>, Seq<char>)>,
}

pub open spec fn post_buf_model(p: PostBuf) -> TargetModel {
    TargetModel {
        post_id: p.post_id,
        name: p.name@,
        url: p.url@,
        views: p.views,
        upvotes: p.upvotes,
        downvotes: p.downvotes,
        meta_tags: p.meta_tags@.map_values(|s: String| s@),
        rendered_tags: p.rendered_tags@.map_values(|g: TagLikeBuf| (g.href@, g.text@)),
    }
}

/// One listing entry anchored at the post-id marker at `i`: the link, the
/// main and alternate titles, the three counts through the suffix-aware
/// parser, the raw tag tokens, and the tag links of the whole block; the
/// display name is the longest prefix of the main title that the
/// alternate title ends with, entities decoded. `None` when any piece is
/// missing or a count is outside the grammar.
/// What one listing anchor yields: no complete entry (the scan moves on),
/// a count outside the bare/k/m grammar (fatal for the whole scan, as the
/// error policy demands of numeric parse errors), or a complete entry with
/// the position after it.
pub enum TargetStep {
    Missing,
    BadCount(crate::numbers::CountParseError),
    Found(TargetModel, int),
}

#[verifier::opaque]
pub open spec fn target_step(t: Seq<char>, i: int) -> TargetStep {
    let s0 = i + post_id_open().len();
    let de = digit_end(t, s0);
    if 0 <= i && s0 < de && de < t.len() && t[de] == '"' && digits_val(t.subrange(s0, de))
        <= u32::MAX {
        match cap(t, tg_a(), quote_only(), de) {
            Option::None => TargetStep::Missing,
            Option::Some(urlp) => match cap(t, tg_main_open(), tg_main_close(), urlp.1) {
                Option::None => TargetStep::Missing,
                Option::Some(mainp) => match cap(t, tg_alt_open(), tg_alt_close(), mainp.1) {
                    Option::None => TargetStep::Missing,
                    Option::Some(altp) => match cap(t, tg_views_open(), span_close(), altp.1) {
                        Option::None => TargetStep::Missing,
                        Option::Some(viewsp) => match cap(t, tg_up_open(), span_close(), viewsp.1) {
                            Option::None => TargetStep::Missing,
                            Option::Some(upp) => match cap(t, tg_down_open(), span_close(), upp.1) {
                                Option::None => TargetStep::Missing,
                                Option::Some(downp) => match cap(
                                    t,
                                    tg_tags_open(),
                                    span_close(),
                                    downp.1,
                                ) {
                                    Option::None => TargetStep::Missing,
                                    Option::Some(tagsp) => match first_match_from(
                                        t,
                                        div_close(),
                                        tagsp.1,
                                    ) {
                                        Option::None => TargetStep::Missing,
                                        Option::Some(z) => {
                                            let zend = z + div_close().len();
                                            match suffix_count(viewsp.0) {
                                                Option::None => TargetStep::BadCount(
                                                    crate::numbers::CountParseError::Malformed,
                                                ),
                                                Option::Some(v) => if v > u32::MAX {
                                                    TargetStep::BadCount(
                                                        crate::numbers::CountParseError::Overflow,
                                                    )
                                                } else {
                                                    match suffix_count(upp.0) {
                                                        Option::None => TargetStep::BadCount(
                                                            crate::numbers::CountParseError::Malformed,
                                                        ),
                                                        Option::Some(u) => if u > u32::MAX {
                                                            TargetStep::BadCount(
                                                                crate::numbers::CountParseError::Overflow,
                                                            )
                                                        } else {
                                                            match suffix_count(downp.0) {
                                                                Option::None => TargetStep::BadCount(
                                                                    crate::numbers::CountParseError::Malformed,
                                                                ),
                                                                Option::Some(d) => if d
                                                                    > u32::MAX {
                                                                    TargetStep::BadCount(
                                                                        crate::numbers::CountParseError::Overflow,
                                                                    )
                                                                } else if i < zend <= t.len() {
                                                                    TargetStep::Found(
                                                                        TargetModel {
                                                                            post_id: digits_val(
                                                                                t.subrange(
                                                                                    s0,
                                                                                    de,
                                                                                ),
                                                                            ) as u32,
                                                                            name: html_decoded(
                                                                                spec_overlap_start(
                                                                                    mainp.0,
                                                                                    altp.0,
                                                                                ),
                                                                            ),
                                                                            url: urlp.0,
                                                                            views: v as u32,
                                                                            upvotes: u as u32,
                                                                            downvotes: d as u32,
                                                                            meta_tags: ws_tokens(
                                                                                tagsp.0,
                                                                                0,
                                                                            ),
                                                                            rendered_tags: tag_likes_from(
                                                                                t.subrange(
                                                                                    i,
                                                                                    zend,
                                                                                ),
                                                                                0,
                                                                            ),
                                                                        },
                                                                        zend,
                                                                    )
                                                                } else {
                                                                    TargetStep::Missing
                                                                },
                                                            }
                                                        },
                                                    }
                                                },
                                            }
                                        },
                                    },
                                },
                            },
                        },
                    },
                },
            },
        }
    } else {
        TargetStep::Missing
    }
}

/// All listing entries at or after `from`, in document order; the first
/// complete entry whose count text falls outside the grammar aborts the
/// whole scan with that error.
pub open spec fn targets_from(t: Seq<char>, from: int) -> Result<
    Seq<TargetModel>,
    crate::numbers::CountParseError,
>
    decreases t.len() - from + 1,
{
    if from < 0 || from > t.len() {
        Ok(Seq::empty())
    } else {
        match first_match_from(t, post_id_open(), from) {
            Option::None => Ok(Seq::empty()),
            Option::Some(i) => match target_step(t, i) {
                TargetStep::Missing => if from < i + 1 <= t.len() {
                    targets_from(t, i + 1)
                } else {
                    Ok(Seq::empty())
                },
                TargetStep::BadCount(e) => Err(e),
                TargetStep::Found(item, nxt) => if from < nxt <= t.len() {
                    match targets_from(t, nxt) {
                        Result::Ok(rest) => Ok(seq![item] + rest),
                        Result::Err(e) => Err(e),
                    }
                } else {
                    Ok(seq![item])
                },
            },
        }
    }
}

/// Reads one entry at anchor `i`; mirrors `target_step`.
#[verifier::rlimit(100)]
fn try_target_at(t: &Vec<char>, i: usize) -> (r: Result<
    Option<(PostBuf, usize)>,
    crate::numbers::CountParseError,
>)
    requires
        i < t@.len(),
    ensures
        r matches Ok(Option::Some(p)) ==> target_step(t@, i as int) == TargetStep::Found(
            post_buf_model(p.0),
            p.1 as int,
        ) && i < p.1 <= t@.len(),
        r matches Ok(Option::None) ==> target_step(t@, i as int) is Missing,
        r matches Err(e) ==> target_step(t@, i as int) == TargetStep::BadCount(e),
{
    let tlen = t.len();
    proof {
        reveal(target_step);
        assert(t@.len() == tlen);
    }
    let id_p = post_id_open_pat();
    let s0 = if id_p.len() <= tlen && i <= tlen - id_p.len() {
        i + id_p.len()
    } else {
        proof {
            assert(digit_end(t@, i + post_id_open().len()) == i + post_id_open().len());
        }
        return Ok(None);
    };
    let de = digit_end_exec(t, s0);
    if !(s0 < de && de < tlen && t[de] == '"') {
        return Ok(None);
    }
    proof {
        lemma_digit_end_props(t@, s0 as int);
        assert(crate::numbers::all_digits(t@.subrange(s0 as int, de as int))) by {
            assert(forall|k: int|
                0 <= k < de - s0 ==> crate::numbers::is_digit(
                    #[trigger] t@.subrange(s0 as int, de as int)[k],
                ));
        }
    }
    let idval = match crate::numbers::parse_u64_range(t, s0, de) {
        Option::Some(v) => v,
        Option::None => {
            return Ok(None);
        },
    };
    if idval > 0xffff_ffff {
        return Ok(None);
    }
    let a_p = tg_a_pat();
    let q_p = quote_only_pat();
    let urlp = match cap_exec(t, &a_p, &q_p, de) {
        Option::Some(p) => p,
        Option::None => {
            return Ok(None);
        },
    };
    let main_o = tg_main_open_pat();
    let main_c = tg_main_close_pat();
    let mainp = match cap_exec(t, &main_o, &main_c, urlp.1) {
        Option::Some(p) => p,
        Option::None => {
            return Ok(None);
        },
    };
    let alt_o = tg_alt_open_pat();
    let alt_c = tg_alt_close_pat();
    let altp = match cap_exec(t, &alt_o, &alt_c, mainp.1) {
        Option::Some(p) => p,
        Option::None => {
            return Ok(None);
        },
    };
    let span_c = span_close_pat();
    let views_o = tg_views_open_pat();
    let viewsp = match cap_exec(t, &views_o, &span_c, altp.1) {
        Option::Some(p) => p,
        Option::None => {
            return Ok(None);
        },
    };
    let up_o = tg_up_open_pat();
    let upp = match cap_exec(t, &up_o, &span_c, viewsp.1) {
        Option::Some(p) => p,
        Option::None => {
            return Ok(None);
        },
    };
    let down_o = tg_down_open_pat();
    let downp = match cap_exec(t, &down_o, &span_c, upp.1) {
        Option::Some(p) => p,
        Option::None => {
            return Ok(None);
        },
    };
    let tags_o = tg_tags_open_pat();
    let tagsp = match cap_exec(t, &tags_o, &span_c, downp.1) {
        Option::Some(p) => p,
        Option::None => {
            return Ok(None);
        },
    };
    let div_c = div_close_pat();
    let z = match find_from(t, &div_c, tagsp.1) {
        Option::Some(z) => z,
        Option::None => {
            return Ok(None);
        },
    };
    let zend = z + div_c.len();
    let vs = chars_to_string(&viewsp.0);
    let views = match crate::numbers::parse_count(vs.as_str()) {
        Ok(v) => v,
        Err(e) => {
            proof {
                assert(e == crate::numbers::CountParseError::Malformed || e
                    == crate::numbers::CountParseError::Overflow);
            }
            return Err(e);
        },
    };
    let us = chars_to_string(&upp.0);
    let upvotes = match crate::numbers::parse_count(us.as_str()) {
        Ok(v) => v,
        Err(e) => {
            proof {
                assert(e == crate::numbers::CountParseError::Malformed || e
                    == crate::numbers::CountParseError::Overflow);
            }
            return Err(e);
        },
    };
    let dls = chars_to_string(&downp.0);
    let downvotes = match crate::numbers::parse_count(dls.as_str()) {
        Ok(v) => v,
        Err(e) => {
            proof {
                assert(e == crate::numbers::CountParseError::Malformed || e
                    == crate::numbers::CountParseError::Overflow);
            }
            return Err(e);
        },
    };
    let ov = crate::text::overlap_start(&mainp.0, &altp.0);
    let ovs = chars_to_string(&ov);
    let name = decode_entities(ovs.as_str());
    let urls = chars_to_string(&urlp.0);
    let meta_tags = crate::text::split_ascii_ws(&tagsp.0);
    let block = copy_range(t, i, zend);
    let tag_pairs = extract_tag_likes(&block);
    let mut rendered_tags: Vec<TagLikeBuf> = Vec::new();
    let mut k: usize = 0;
    proof {
        assert(rendered_tags@.map_values(|g: TagLikeBuf| (g.href@, g.text@)) =~= tag_pairs@
            .map_values(|g: TagLike| (g.href@, g.text@)).take(0));
    }
    while k < tag_pairs.len()
        invariant
            0 <= k <= tag_pairs@.len(),
            rendered_tags@.map_values(|g: TagLikeBuf| (g.href@, g.text@)) == tag_pairs@
                .map_values(|g: TagLike| (g.href@, g.text@)).take(k as int),
        decreases tag_pairs@.len() - k,
    {
        let ghost old_map = rendered_tags@.map_values(|g: TagLikeBuf| (g.href@, g.text@));
        let href = tag_pairs[k].href.clone();
        let text2 = tag_pairs[k].text.clone();
        rendered_tags.push(TagLikeBuf { href, text: text2 });
        proof {
            assert(rendered_tags@.map_values(|g: TagLikeBuf| (g.href@, g.text@)) =~= old_map
                .push((tag_pairs@[k as int].href@, tag_pairs@[k as int].text@)));
            assert(old_map.push((tag_pairs@[k as int].href@, tag_pairs@[k as int].text@))
                =~= tag_pairs@.map_values(|g: TagLike| (g.href@, g.text@)).take(k + 1));
        }
        k = k + 1;
    }
    proof {
        assert(tag_pairs@.map_values(|g: TagLike| (g.href@, g.text@)).take(
            tag_pairs@.len() as int,
        ) =~= tag_pairs@.map_values(|g: TagLike| (g.href@, g.text@)));
    }
    let result = PostBuf {
        post_id: idval as u32,
        name,
        url: urls,
        views,
        upvotes,
        downvotes,
        meta_tags,
        rendered_tags,
    };
    proof {
        assert(post_buf_model(result).rendered_tags =~= tag_likes_from(
            t@.subrange(i as int, zend as int),
            0,
        ));
    }
    Ok(Some((result, zend)))
}

/// Converts one listing page into its entries, in document order; the
/// first entry whose count text falls outside the bare/k/m grammar is an
/// error for the whole page.
pub fn extract_target_links(text: String) -> (r: Result<
    Vec<PostBuf>,
    crate::numbers::CountParseError,
>)
    ensures
        r matches Ok(v) ==> targets_from(text@, 0) == Ok::<
            Seq<TargetModel>,
            crate::numbers::CountParseError,
        >(v@.map_values(|p: PostBuf| post_buf_model(p))),
        r matches Err(e) ==> targets_from(text@, 0) == Err::<
            Seq<TargetModel>,
            crate::numbers::CountParseError,
        >(e),
{
    let t = str_to_chars(text.as_str());
    let tlen = t.len();
    proof {
        assert(t@.len() == tlen);
    }
    let id_p = post_id_open_pat();
    let mut out: Vec<PostBuf> = Vec::new();
    let mut cur: usize = 0;
    proof {
        assert(out@.map_values(|p: PostBuf| post_buf_model(p)) + Seq::<TargetModel>::empty()
            =~= out@.map_values(|p: PostBuf| post_buf_model(p)));
    }
    loop
        invariant_except_break
            t@ == text@,
            t@.len() == tlen,
            cur <= tlen,
            id_p@ == post_id_open(),
            (match targets_from(t@, cur as int) {
                Result::Ok(rest) => targets_from(t@, 0) == Ok::<
                    Seq<TargetModel>,
                    crate::numbers::CountParseError,
                >(out@.map_values(|p: PostBuf| post_buf_model(p)) + rest),
                Result::Err(e) => targets_from(t@, 0) == Err::<
                    Seq<TargetModel>,
                    crate::numbers::CountParseError,
                >(e),
            }),
        ensures
            targets_from(t@, 0) == Ok::<Seq<TargetModel>, crate::numbers::CountParseError>(
                out@.map_values(|p: PostBuf| post_buf_model(p)),
            ),
        decreases t@.len() - cur,
    {
        let found = find_from(&t, &id_p, cur);
        match found {
            Option::None => {
                proof {
                    assert(out@.map_values(|p: PostBuf| post_buf_model(p)) + Seq::<
                        TargetModel,
                    >::empty() =~= out@.map_values(|p: PostBuf| post_buf_model(p)));
                }
                break;
            },
            Option::Some(i) => {
                match try_target_at(&t, i) {
                    Result::Ok(Option::None) => {
                        cur = i + 1;
                    },
                    Result::Ok(Option::Some((pb, nxt))) => {
                        let ghost old_map = out@.map_values(|p: PostBuf| post_buf_model(p));
                        let ghost item = post_buf_model(pb);
                        out.push(pb);
                        proof {
                            assert(out@.map_values(|p: PostBuf| post_buf_model(p)) =~= old_map
                                .push(item));
                            match targets_from(t@, nxt as int) {
                                Result::Ok(rest) => {
                                    assert(old_map.push(item) + rest =~= old_map + (seq![item]
                                        + rest));
                                },
                                Result::Err(_) => {},
                            }
                        }
                        cur = nxt;
                    },
                    Result::Err(e) => {
                        return Err(e);
                    },
                }
            },
        }
    }
    Ok(out)
}

} // verus!

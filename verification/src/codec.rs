//! The export writer and reader: every manifest record mapped to the JSON
//! model, an executable writer, and the proof that a written record reads
//! back field for field.
use vstd::prelude::*;

use crate::data::ApiViewResponse;
use crate::data::Comment;
use crate::data::CommentChild;
use crate::data::CrawlResultV5;
use crate::data::ExportV7;
use crate::data::InfoboxRow;
use crate::data::Post;
use crate::data::PostBuf;
use crate::data::RawInfoBoxRow;
use crate::data::TagLike;
use crate::data::TagLikeBuf;
use crate::json::canon;
use crate::json::lemma_canon_arr;
use crate::json::lemma_canon_obj;
use crate::json::jdepth;
use crate::json::jdepth_fields;
use crate::json::jm;
use crate::json::render_json_doc;
use crate::json::parse_json_doc;
use crate::text::chars_to_string;
use crate::text::str_to_chars;
use crate::json::lemma_jdepth_fields;
use crate::json::parse_doc;
use crate::json::spec_render;
use crate::json::JModel;
use crate::json::Json;

verus! {

/// A signed count as a JSON number.
pub open spec fn i64_jm(x: i64) -> JModel {
    if x < 0 {
        JModel::Num { neg: true, mag: (-(x as int)) as u64 }
    } else {
        JModel::Num { neg: false, mag: x as u64 }
    }
}

pub open spec fn u64_jm(x: u64) -> JModel {
    JModel::Num { neg: false, mag: x }
}

pub open spec fn u32_jm(x: u32) -> JModel {
    JModel::Num { neg: false, mag: x as u64 }
}

pub open spec fn i32_jm(x: i32) -> JModel {
    if x < 0 {
        JModel::Num { neg: true, mag: (-(x as int)) as u64 }
    } else {
        JModel::Num { neg: false, mag: x as u64 }
    }
}

pub open spec fn tag_like_fields_jm(g: TagLike) -> Seq<(Seq<char>, JModel)> {
    seq![("href"@, JModel::Str(g.href@)), ("text"@, JModel::Str(g.text@))]
}

pub open spec fn tag_like_jm(g: TagLike) -> JModel {
    JModel::Obj(tag_like_fields_jm(g))
}

pub open spec fn tag_like_buf_fields_jm(g: TagLikeBuf) -> Seq<(Seq<char>, JModel)> {
    seq![("href"@, JModel::Str(g.href@)), ("text"@, JModel::Str(g.text@))]
}

pub open spec fn tag_like_buf_jm(g: TagLikeBuf) -> JModel {
    JModel::Obj(tag_like_buf_fields_jm(g))
}

pub open spec fn tags_arr_jm(v: Seq<TagLike>) -> Seq<JModel> {
    v.map_values(|g: TagLike| tag_like_jm(g))
}

pub open spec fn tag_bufs_arr_jm(v: Seq<TagLikeBuf>) -> Seq<JModel> {
    v.map_values(|g: TagLikeBuf| tag_like_buf_jm(g))
}

pub open spec fn raw_row_inner_jm(name: String, html: String) -> Seq<(Seq<char>, JModel)> {
    seq![("name"@, JModel::Str(name@)), ("html"@, JModel::Str(html@))]
}

pub open spec fn tag_row_inner_jm(name: String, tags: Seq<TagLike>) -> Seq<
    (Seq<char>, JModel),
> {
    seq![("name"@, JModel::Str(name@)), ("tags"@, JModel::Arr(tags_arr_jm(tags)))]
}

pub open spec fn text_row_inner_jm(name: String, class_name: String, text: Option<String>) -> Seq<
    (Seq<char>, JModel),
> {
    seq![
        ("name"@, JModel::Str(name@)),
        ("class_name"@, JModel::Str(class_name@)),
        (
            "text"@,
            match text {
                Option::Some(x) => JModel::Str(x@),
                Option::None => JModel::Null,
            },
        ),
    ]
}

/// An infobox row in the externally tagged shape the manifests carry.
pub open spec fn row_fields_jm(r: InfoboxRow) -> Seq<(Seq<char>, JModel)> {
    match r {
        InfoboxRow::Raw(rr) => seq![("Raw"@, JModel::Obj(raw_row_inner_jm(rr.name, rr.html)))],
        InfoboxRow::TagLike { name, tags } => seq![
            ("TagLike"@, JModel::Obj(tag_row_inner_jm(name, tags@))),
        ],
        InfoboxRow::Text { name, class_name, text } => seq![
            ("Text"@, JModel::Obj(text_row_inner_jm(name, class_name, text))),
        ],
    }
}

pub open spec fn row_jm(r: InfoboxRow) -> JModel {
    JModel::Obj(row_fields_jm(r))
}

pub open spec fn rows_arr_jm(v: Seq<InfoboxRow>) -> Seq<JModel> {
    v.map_values(|r: InfoboxRow| row_jm(r))
}

pub open spec fn post_fields_jm(p: Post) -> Seq<(Seq<char>, JModel)> {
    seq![("name"@, JModel::Str(p.name@)), ("url"@, JModel::Str(p.url@))]
}

pub open spec fn post_jm(p: Post) -> JModel {
    JModel::Obj(post_fields_jm(p))
}

pub open spec fn posts_arr_jm(v: Seq<Post>) -> Seq<JModel> {
    v.map_values(|p: Post| post_jm(p))
}

pub open spec fn api_fields_jm(a: ApiViewResponse) -> Seq<(Seq<char>, JModel)> {
    seq![
        ("post_dislikes"@, JModel::Str(a.post_dislikes@)),
        ("post_favorites"@, JModel::Str(a.post_favorites@)),
        ("post_id"@, i64_jm(a.post_id)),
        ("post_likes"@, JModel::Str(a.post_likes@)),
        ("post_views"@, JModel::Str(a.post_views@)),
    ]
}

pub open spec fn api_jm(a: ApiViewResponse) -> JModel {
    JModel::Obj(api_fields_jm(a))
}

pub open spec fn strings_jm(v: Seq<String>) -> Seq<JModel> {
    v.map_values(|s: String| JModel::Str(s@))
}

/// The member list of one comment's manifest object, children keyed by
/// id; recursive.
pub open spec fn comment_fields_jm(c: Comment) -> Seq<(Seq<char>, JModel)>
    decreases c, 1int,
{
    seq![
        ("comment_ID"@, JModel::Str(c.comment_id@)),
        ("comment_post_ID"@, JModel::Str(c.comment_post_id@)),
        ("post_url"@, JModel::Str(c.post_url@)),
        ("comment_author"@, JModel::Str(c.comment_author@)),
        ("content"@, JModel::Str(c.content@)),
        ("approved"@, JModel::Str(c.approved@)),
        ("comment_parrent"@, JModel::Str(c.comment_parrent@)),
        ("likes"@, i64_jm(c.likes)),
        ("posted_on"@, JModel::Str(c.posted_on@)),
        ("user_id"@, JModel::Str(c.user_id@)),
        ("profile_pic"@, JModel::Str(c.profile_pic@)),
        ("role"@, JModel::Str(c.role@)),
        (
            "children"@,
            match c.children {
                Option::Some(v) => JModel::Obj(children_jm(v@)),
                Option::None => JModel::Null,
            },
        ),
    ]
}

pub open spec fn comment_jm(c: Comment) -> JModel
    decreases c, 2int,
{
    JModel::Obj(comment_fields_jm(c))
}

/// The member list of a children object.
pub open spec fn children_jm(s: Seq<CommentChild>) -> Seq<(Seq<char>, JModel)>
    decreases s, 0int,
{
    if s.len() == 0 {
        Seq::empty()
    } else {
        seq![(s[0].key@, comment_jm(s[0].comment))] + children_jm(s.subrange(1, s.len() as int))
    }
}

pub open spec fn comments_jm(v: Seq<Comment>) -> Seq<JModel>
    decreases v, 3int,
{
    if v.len() == 0 {
        Seq::empty()
    } else {
        seq![comment_jm(v[0])] + comments_jm(v.subrange(1, v.len() as int))
    }
}

pub open spec fn post_buf_fields_jm(p: PostBuf) -> Seq<(Seq<char>, JModel)> {
    seq![
        ("post_id"@, u32_jm(p.post_id)),
        ("name"@, JModel::Str(p.name@)),
        ("url"@, JModel::Str(p.url@)),
        ("views"@, u32_jm(p.views)),
        ("upvotes"@, u32_jm(p.upvotes)),
        ("downvotes"@, u32_jm(p.downvotes)),
        ("meta_tags"@, JModel::Arr(strings_jm(p.meta_tags@))),
        ("rendered_tags"@, JModel::Arr(tag_bufs_arr_jm(p.rendered_tags@))),
    ]
}

pub open spec fn post_buf_jm(p: PostBuf) -> JModel {
    JModel::Obj(post_buf_fields_jm(p))
}

pub open spec fn post_bufs_arr_jm(v: Seq<PostBuf>) -> Seq<JModel> {
    v.map_values(|p: PostBuf| post_buf_jm(p))
}

/// The member list of the whole manifest of one downloaded post, fields
/// in record order; the schema version stands first.
pub open spec fn export_fields_jm(e: ExportV7) -> Seq<(Seq<char>, JModel)> {
    seq![
        ("hdpc_dl_version"@, i32_jm(e.hdpc_dl_version)),
        ("program_version"@, JModel::Str(e.program_version@)),
        ("post_id"@, u64_jm(e.post_id)),
        ("title"@, JModel::Str(e.title@)),
        ("api_stats"@, api_jm(e.api_stats)),
        ("comment_count"@, JModel::Str(e.comment_count@)),
        ("download_date"@, JModel::Str(e.download_date@)),
        ("source_url"@, JModel::Str(e.source_url@)),
        ("metadata"@, JModel::Arr(rows_arr_jm(e.metadata@))),
        ("chapters"@, JModel::Arr(posts_arr_jm(e.chapters@))),
        ("picture_urls"@, JModel::Arr(strings_jm(e.picture_urls@))),
        (
            "comments"@,
            match e.comments {
                Option::Some(v) => JModel::Arr(comments_jm(v@)),
                Option::None => JModel::Null,
            },
        ),
    ]
}

pub open spec fn export_jm(e: ExportV7) -> JModel {
    JModel::Obj(export_fields_jm(e))
}

/// The member list of the crawl-result record: every discovered listing
/// entry, written once per crawl.
pub open spec fn crawl_fields_jm(c: CrawlResultV5) -> Seq<(Seq<char>, JModel)> {
    seq![
        ("hdpc_dl_version"@, i32_jm(c.hdpc_dl_version)),
        ("program_version"@, JModel::Str(c.program_version@)),
        ("source_url"@, JModel::Str(c.source_url@)),
        ("download_date"@, JModel::Str(c.download_date@)),
        ("posts"@, JModel::Arr(post_bufs_arr_jm(c.posts@))),
    ]
}

pub open spec fn crawl_jm(c: CrawlResultV5) -> JModel {
    JModel::Obj(crawl_fields_jm(c))
}

/// Index view of `children_jm`.
pub proof fn lemma_children_jm_index(s: Seq<CommentChild>)
    ensures
        children_jm(s).len() == s.len(),
        forall|q: int|
            0 <= q < s.len() ==> children_jm(s)[q] == ((#[trigger] s[q]).key@, comment_jm(
                s[q].comment,
            )),
    decreases s.len(),
{
    if s.len() > 0 {
        lemma_children_jm_index(s.subrange(1, s.len() as int));
        assert forall|q: int|
            0 <= q < s.len() implies children_jm(s)[q] == ((#[trigger] s[q]).key@, comment_jm(
            s[q].comment,
        )) by {
            if q > 0 {
                assert(s.subrange(1, s.len() as int)[q - 1] == s[q]);
            }
        }
    }
}

/// Index view of `comments_jm`.
pub proof fn lemma_comments_jm_index(s: Seq<Comment>)
    ensures
        comments_jm(s).len() == s.len(),
        forall|q: int| 0 <= q < s.len() ==> comments_jm(s)[q] == comment_jm(#[trigger] s[q]),
    decreases s.len(),
{
    if s.len() > 0 {
        lemma_comments_jm_index(s.subrange(1, s.len() as int));
        assert forall|q: int|
            0 <= q < s.len() implies comments_jm(s)[q] == comment_jm(#[trigger] s[q]) by {
            if q > 0 {
                assert(s.subrange(1, s.len() as int)[q - 1] == s[q]);
            }
        }
    }
}

/// Every infobox row maps to a canonical value.
pub proof fn lemma_row_canon(r: InfoboxRow)
    ensures
        canon(row_jm(r)),
{
    if r is TagLike {
        let ts = tags_arr_jm(r->TagLike_tags@);
        assert forall|k: int| 0 <= k < ts.len() implies canon(#[trigger] ts[k]) by {
            let g = r->TagLike_tags@[k];
            assert(ts[k] == tag_like_jm(g));
            assert forall|q: int|
                0 <= q < tag_like_fields_jm(g).len() implies canon(
                (#[trigger] tag_like_fields_jm(g)[q]).1,
            ) by {
                assert(canon(JModel::Str(g.href@)));
                assert(canon(JModel::Str(g.text@)));
            }
            lemma_canon_obj(tag_like_fields_jm(g));
        }
        lemma_canon_arr(ts);
    }
    assert forall|k: int|
        0 <= k < row_fields_jm(r).len() implies canon((#[trigger] row_fields_jm(r)[k]).1) by {
        match r {
            InfoboxRow::Raw(rr) => {
                let inner = raw_row_inner_jm(rr.name, rr.html);
                assert forall|q: int|
                    0 <= q < inner.len() implies canon((#[trigger] inner[q]).1) by {
                    assert(canon(JModel::Str(rr.name@)));
                    assert(canon(JModel::Str(rr.html@)));
                }
                lemma_canon_obj(inner);
            },
            InfoboxRow::TagLike { name, tags } => {
                let inner = tag_row_inner_jm(name, tags@);
                assert forall|q: int|
                    0 <= q < inner.len() implies canon((#[trigger] inner[q]).1) by {
                    assert(canon(JModel::Str(name@)));
                    assert(canon(JModel::Arr(tags_arr_jm(tags@))));
                }
                lemma_canon_obj(inner);
            },
            InfoboxRow::Text { name, class_name, text } => {
                let inner = text_row_inner_jm(name, class_name, text);
                assert forall|q: int|
                    0 <= q < inner.len() implies canon((#[trigger] inner[q]).1) by {
                    assert(canon(JModel::Str(name@)));
                    assert(canon(JModel::Str(class_name@)));
                    assert(canon(inner[2].1));
                }
                lemma_canon_obj(inner);
            },
        }
    }
    lemma_canon_obj(row_fields_jm(r));
}

/// A chapter maps to a canonical value.
pub proof fn lemma_post_canon(p: Post)
    ensures
        canon(post_jm(p)),
{
    assert forall|k: int|
        0 <= k < post_fields_jm(p).len() implies canon((#[trigger] post_fields_jm(p)[k]).1) by {
        assert(canon(JModel::Str(p.name@)));
        assert(canon(JModel::Str(p.url@)));
    }
    lemma_canon_obj(post_fields_jm(p));
}

/// A signed count maps to a canonical number.
pub proof fn lemma_i64_canon(x: i64)
    ensures
        canon(i64_jm(x)),
{
}

/// The API statistics map to a canonical value.
pub proof fn lemma_api_canon(a: ApiViewResponse)
    ensures
        canon(api_jm(a)),
{
    lemma_i64_canon(a.post_id);
    assert forall|k: int|
        0 <= k < api_fields_jm(a).len() implies canon((#[trigger] api_fields_jm(a)[k]).1) by {
        assert(canon(JModel::Str(a.post_dislikes@)));
        assert(canon(JModel::Str(a.post_favorites@)));
        assert(canon(i64_jm(a.post_id)));
        assert(canon(JModel::Str(a.post_likes@)));
        assert(canon(JModel::Str(a.post_views@)));
    }
    lemma_canon_obj(api_fields_jm(a));
}

/// Every comment maps to a canonical value.
pub proof fn lemma_comment_canon(c: Comment)
    ensures
        canon(comment_jm(c)),
    decreases c, 4int,
{
    lemma_i64_canon(c.likes);
    match c.children {
        Option::Some(v) => {
            lemma_children_canon(v@);
            lemma_canon_obj(children_jm(v@));
        },
        Option::None => {},
    }
    assert forall|k: int|
        0 <= k < comment_fields_jm(c).len() implies canon(
        (#[trigger] comment_fields_jm(c)[k]).1,
    ) by {
        assert(canon(JModel::Str(c.comment_id@)));
        assert(canon(JModel::Str(c.comment_post_id@)));
        assert(canon(JModel::Str(c.post_url@)));
        assert(canon(JModel::Str(c.comment_author@)));
        assert(canon(JModel::Str(c.content@)));
        assert(canon(JModel::Str(c.approved@)));
        assert(canon(JModel::Str(c.comment_parrent@)));
        assert(canon(i64_jm(c.likes)));
        assert(canon(JModel::Str(c.posted_on@)));
        assert(canon(JModel::Str(c.user_id@)));
        assert(canon(JModel::Str(c.profile_pic@)));
        assert(canon(JModel::Str(c.role@)));
        match c.children {
            Option::Some(v) => {
                assert(canon(JModel::Obj(children_jm(v@))));
            },
            Option::None => {
                assert(canon(JModel::Null));
            },
        }
    }
    lemma_canon_obj(comment_fields_jm(c));
}

/// Every child list maps to canonical member values.
pub proof fn lemma_children_canon(s: Seq<CommentChild>)
    ensures
        forall|q: int|
            0 <= q < children_jm(s).len() ==> canon((#[trigger] children_jm(s)[q]).1),
    decreases s, 3int,
{
    if s.len() > 0 {
        lemma_comment_canon(s[0].comment);
        lemma_children_canon(s.subrange(1, s.len() as int));
        lemma_children_jm_index(s);
        lemma_children_jm_index(s.subrange(1, s.len() as int));
        assert forall|q: int|
            0 <= q < children_jm(s).len() implies canon((#[trigger] children_jm(s)[q]).1) by {
            if q > 0 {
                assert(s.subrange(1, s.len() as int)[q - 1] == s[q]);
            }
        }
    }
}

/// Every comment list maps to canonical values.
pub proof fn lemma_comments_canon(s: Seq<Comment>)
    ensures
        forall|q: int| 0 <= q < comments_jm(s).len() ==> canon(#[trigger] comments_jm(s)[q]),
    decreases s, 5int,
{
    if s.len() > 0 {
        lemma_comment_canon(s[0]);
        lemma_comments_canon(s.subrange(1, s.len() as int));
        lemma_comments_jm_index(s);
        lemma_comments_jm_index(s.subrange(1, s.len() as int));
        assert forall|q: int|
            0 <= q < comments_jm(s).len() implies canon(#[trigger] comments_jm(s)[q]) by {
            if q > 0 {
                assert(s.subrange(1, s.len() as int)[q - 1] == s[q]);
            }
        }
    }
}

/// A listing entry maps to a canonical value.
pub proof fn lemma_post_buf_canon(p: PostBuf)
    ensures
        canon(post_buf_jm(p)),
{
    let mts = strings_jm(p.meta_tags@);
    assert forall|q: int| 0 <= q < mts.len() implies canon(#[trigger] mts[q]) by {
        assert(mts[q] == JModel::Str(p.meta_tags@[q]@));
        assert(canon(JModel::Str(p.meta_tags@[q]@)));
    }
    lemma_canon_arr(mts);
    let rts = tag_bufs_arr_jm(p.rendered_tags@);
    assert forall|q: int| 0 <= q < rts.len() implies canon(#[trigger] rts[q]) by {
        let g = p.rendered_tags@[q];
        assert(rts[q] == tag_like_buf_jm(g));
        assert forall|w: int|
            0 <= w < tag_like_buf_fields_jm(g).len() implies canon(
            (#[trigger] tag_like_buf_fields_jm(g)[w]).1,
        ) by {
            assert(canon(JModel::Str(g.href@)));
            assert(canon(JModel::Str(g.text@)));
        }
        lemma_canon_obj(tag_like_buf_fields_jm(g));
    }
    lemma_canon_arr(rts);
    assert forall|k: int|
        0 <= k < post_buf_fields_jm(p).len() implies canon(
        (#[trigger] post_buf_fields_jm(p)[k]).1,
    ) by {
        assert(canon(u32_jm(p.post_id)));
        assert(canon(JModel::Str(p.name@)));
        assert(canon(JModel::Str(p.url@)));
        assert(canon(u32_jm(p.views)));
        assert(canon(u32_jm(p.upvotes)));
        assert(canon(u32_jm(p.downvotes)));
        assert(canon(JModel::Arr(mts)));
        assert(canon(JModel::Arr(rts)));
    }
    lemma_canon_obj(post_buf_fields_jm(p));
}

/// The whole export record maps to a canonical value.
pub proof fn lemma_export_canon(e: ExportV7)
    ensures
        canon(export_jm(e)),
{
    lemma_api_canon(e.api_stats);
    let rows = rows_arr_jm(e.metadata@);
    assert forall|k: int| 0 <= k < rows.len() implies canon(#[trigger] rows[k]) by {
        lemma_row_canon(e.metadata@[k]);
        assert(rows[k] == row_jm(e.metadata@[k]));
    }
    lemma_canon_arr(rows);
    let chs = posts_arr_jm(e.chapters@);
    assert forall|k: int| 0 <= k < chs.len() implies canon(#[trigger] chs[k]) by {
        lemma_post_canon(e.chapters@[k]);
        assert(chs[k] == post_jm(e.chapters@[k]));
    }
    lemma_canon_arr(chs);
    let pics = strings_jm(e.picture_urls@);
    assert forall|k: int| 0 <= k < pics.len() implies canon(#[trigger] pics[k]) by {
        assert(pics[k] == JModel::Str(e.picture_urls@[k]@));
        assert(canon(JModel::Str(e.picture_urls@[k]@)));
    }
    lemma_canon_arr(pics);
    match e.comments {
        Option::Some(v) => {
            lemma_comments_canon(v@);
            lemma_canon_arr(comments_jm(v@));
        },
        Option::None => {},
    }
    assert forall|k: int|
        0 <= k < export_fields_jm(e).len() implies canon(
        (#[trigger] export_fields_jm(e)[k]).1,
    ) by {
        assert(canon(i32_jm(e.hdpc_dl_version)));
        assert(canon(JModel::Str(e.program_version@)));
        assert(canon(u64_jm(e.post_id)));
        assert(canon(JModel::Str(e.title@)));
        assert(canon(api_jm(e.api_stats)));
        assert(canon(JModel::Str(e.comment_count@)));
        assert(canon(JModel::Str(e.download_date@)));
        assert(canon(JModel::Str(e.source_url@)));
        assert(canon(JModel::Arr(rows)));
        assert(canon(JModel::Arr(chs)));
        assert(canon(JModel::Arr(pics)));
        match e.comments {
            Option::Some(v) => {
                assert(canon(JModel::Arr(comments_jm(v@))));
            },
            Option::None => {
                assert(canon(JModel::Null));
            },
        }
    }
    lemma_canon_obj(export_fields_jm(e));
}

/// The crawl-result record maps to a canonical value.
pub proof fn lemma_crawl_canon(c: CrawlResultV5)
    ensures
        canon(crawl_jm(c)),
{
    let ps = post_bufs_arr_jm(c.posts@);
    assert forall|k: int| 0 <= k < ps.len() implies canon(#[trigger] ps[k]) by {
        lemma_post_buf_canon(c.posts@[k]);
        assert(ps[k] == post_buf_jm(c.posts@[k]));
    }
    lemma_canon_arr(ps);
    assert forall|k: int|
        0 <= k < crawl_fields_jm(c).len() implies canon(
        (#[trigger] crawl_fields_jm(c)[k]).1,
    ) by {
        assert(canon(i32_jm(c.hdpc_dl_version)));
        assert(canon(JModel::Str(c.program_version@)));
        assert(canon(JModel::Str(c.source_url@)));
        assert(canon(JModel::Str(c.download_date@)));
        assert(canon(JModel::Arr(ps)));
    }
    lemma_canon_obj(crawl_fields_jm(c));
}

/// A record rendered by the export writer parses back to the same model,
/// every field equal, the schema version included.
pub proof fn lemma_export_round_trip(e: ExportV7)
    ensures
        parse_doc(spec_render(export_jm(e), 0)) == Some(export_jm(e)),
{
    lemma_export_canon(e);
    crate::json::lemma_doc_round_trip(export_jm(e));
}

/// A crawl-result record rendered by the writer parses back to the same
/// model.
pub proof fn lemma_crawl_round_trip(c: CrawlResultV5)
    ensures
        parse_doc(spec_render(crawl_jm(c), 0)) == Some(crawl_jm(c)),
{
    lemma_crawl_canon(c);
    crate::json::lemma_doc_round_trip(crawl_jm(c));
}

/// The key text of one manifest member.
fn jkey(k: &str) -> (r: Vec<char>)
    ensures
        r@ == k@,
{
    str_to_chars(k)
}

/// One string value.
fn js(s: &String) -> (r: Json)
    ensures
        jm(r) == JModel::Str(s@),
{
    Json::Str(str_to_chars(s.as_str()))
}

fn i64_to_json(x: i64) -> (r: Json)
    ensures
        jm(r) == i64_jm(x),
{
    if x < 0 {
        if x == i64::MIN {
            Json::Num { neg: true, mag: 9223372036854775808u64 }
        } else {
            Json::Num { neg: true, mag: (-x) as u64 }
        }
    } else {
        Json::Num { neg: false, mag: x as u64 }
    }
}

fn i32_to_json(x: i32) -> (r: Json)
    ensures
        jm(r) == i32_jm(x),
{
    if x < 0 {
        if x == i32::MIN {
            Json::Num { neg: true, mag: 2147483648u64 }
        } else {
            Json::Num { neg: true, mag: (-x) as u64 }
        }
    } else {
        Json::Num { neg: false, mag: x as u64 }
    }
}

fn u64_to_json(x: u64) -> (r: Json)
    ensures
        jm(r) == u64_jm(x),
{
    Json::Num { neg: false, mag: x }
}

fn u32_to_json(x: u32) -> (r: Json)
    ensures
        jm(r) == u32_jm(x),
{
    Json::Num { neg: false, mag: x as u64 }
}

/// An array of string values.
fn strings_to_jarr(v: &Vec<String>) -> (r: Json)
    ensures
        jm(r) == JModel::Arr(strings_jm(v@)),
{
    let mut items: Vec<Json> = Vec::new();
    let mut k: usize = 0;
    proof {
        assert(crate::json::jm_seq(items@) =~= strings_jm(v@).take(0));
    }
    while k < v.len()
        invariant
            0 <= k <= v@.len(),
            crate::json::jm_seq(items@) == strings_jm(v@).take(k as int),
        decreases v@.len() - k,
    {
        let ghost old_items = items@;
        let x = js(&v[k]);
        items.push(x);
        proof {
            crate::json::lemma_jm_seq_push(old_items, x);
            assert(strings_jm(v@)[k as int] == JModel::Str(v@[k as int]@));
            assert(crate::json::jm_seq(items@) =~= strings_jm(v@).take(k + 1));
        }
        k = k + 1;
    }
    proof {
        assert(strings_jm(v@).take(v@.len() as int) =~= strings_jm(v@));
    }
    Json::Arr(items)
}

fn tag_like_to_json(g: &TagLike) -> (r: Json)
    ensures
        jm(r) == tag_like_jm(*g),
{
    let mut f: Vec<(Vec<char>, Json)> = Vec::new();
    f.push((jkey("href"), js(&g.href)));
    f.push((jkey("text"), js(&g.text)));
    proof {
        crate::json::lemma_jm_fields(f@);
        assert(crate::json::jm_fields(f@) =~= tag_like_fields_jm(*g));
    }
    Json::Obj(f)
}

fn tag_like_buf_to_json(g: &TagLikeBuf) -> (r: Json)
    ensures
        jm(r) == tag_like_buf_jm(*g),
{
    let mut f: Vec<(Vec<char>, Json)> = Vec::new();
    f.push((jkey("href"), js(&g.href)));
    f.push((jkey("text"), js(&g.text)));
    proof {
        crate::json::lemma_jm_fields(f@);
        assert(crate::json::jm_fields(f@) =~= tag_like_buf_fields_jm(*g));
    }
    Json::Obj(f)
}

fn tags_to_jarr(v: &Vec<TagLike>) -> (r: Json)
    ensures
        jm(r) == JModel::Arr(tags_arr_jm(v@)),
{
    let mut items: Vec<Json> = Vec::new();
    let mut k: usize = 0;
    proof {
        assert(crate::json::jm_seq(items@) =~= tags_arr_jm(v@).take(0));
    }
    while k < v.len()
        invariant
            0 <= k <= v@.len(),
            crate::json::jm_seq(items@) == tags_arr_jm(v@).take(k as int),
        decreases v@.len() - k,
    {
        let ghost old_items = items@;
        let x = tag_like_to_json(&v[k]);
        items.push(x);
        proof {
            crate::json::lemma_jm_seq_push(old_items, x);
            assert(tags_arr_jm(v@)[k as int] == tag_like_jm(v@[k as int]));
            assert(crate::json::jm_seq(items@) =~= tags_arr_jm(v@).take(k + 1));
        }
        k = k + 1;
    }
    proof {
        assert(tags_arr_jm(v@).take(v@.len() as int) =~= tags_arr_jm(v@));
    }
    Json::Arr(items)
}

fn tag_bufs_to_jarr(v: &Vec<TagLikeBuf>) -> (r: Json)
    ensures
        jm(r) == JModel::Arr(tag_bufs_arr_jm(v@)),
{
    let mut items: Vec<Json> = Vec::new();
    let mut k: usize = 0;
    proof {
        assert(crate::json::jm_seq(items@) =~= tag_bufs_arr_jm(v@).take(0));
    }
    while k < v.len()
        invariant
            0 <= k <= v@.len(),
            crate::json::jm_seq(items@) == tag_bufs_arr_jm(v@).take(k as int),
        decreases v@.len() - k,
    {
        let ghost old_items = items@;
        let x = tag_like_buf_to_json(&v[k]);
        items.push(x);
        proof {
            crate::json::lemma_jm_seq_push(old_items, x);
            assert(tag_bufs_arr_jm(v@)[k as int] == tag_like_buf_jm(v@[k as int]));
            assert(crate::json::jm_seq(items@) =~= tag_bufs_arr_jm(v@).take(k + 1));
        }
        k = k + 1;
    }
    proof {
        assert(tag_bufs_arr_jm(v@).take(v@.len() as int) =~= tag_bufs_arr_jm(v@));
    }
    Json::Arr(items)
}

fn row_to_json(r: &InfoboxRow) -> (res: Json)
    ensures
        jm(res) == row_jm(*r),
{
    match r {
        InfoboxRow::Raw(rr) => {
            let mut inner: Vec<(Vec<char>, Json)> = Vec::new();
            inner.push((jkey("name"), js(&rr.name)));
            inner.push((jkey("html"), js(&rr.html)));
            proof {
                crate::json::lemma_jm_fields(inner@);
                assert(crate::json::jm_fields(inner@) =~= raw_row_inner_jm(rr.name, rr.html));
            }
            let mut outer: Vec<(Vec<char>, Json)> = Vec::new();
            outer.push((jkey("Raw"), Json::Obj(inner)));
            proof {
                crate::json::lemma_jm_fields(outer@);
                assert(crate::json::jm_fields(outer@) =~= row_fields_jm(*r));
            }
            Json::Obj(outer)
        },
        InfoboxRow::TagLike { name, tags } => {
            let mut inner: Vec<(Vec<char>, Json)> = Vec::new();
            inner.push((jkey("name"), js(name)));
            inner.push((jkey("tags"), tags_to_jarr(tags)));
            proof {
                crate::json::lemma_jm_fields(inner@);
                assert(crate::json::jm_fields(inner@) =~= tag_row_inner_jm(*name, tags@));
            }
            let mut outer: Vec<(Vec<char>, Json)> = Vec::new();
            outer.push((jkey("TagLike"), Json::Obj(inner)));
            proof {
                crate::json::lemma_jm_fields(outer@);
                assert(crate::json::jm_fields(outer@) =~= row_fields_jm(*r));
            }
            Json::Obj(outer)
        },
        InfoboxRow::Text { name, class_name, text } => {
            let tval = match text {
                Option::Some(x) => js(x),
                Option::None => Json::Null,
            };
            let mut inner: Vec<(Vec<char>, Json)> = Vec::new();
            inner.push((jkey("name"), js(name)));
            inner.push((jkey("class_name"), js(class_name)));
            inner.push((jkey("text"), tval));
            proof {
                crate::json::lemma_jm_fields(inner@);
                assert(crate::json::jm_fields(inner@) =~= text_row_inner_jm(
                    *name,
                    *class_name,
                    *text,
                ));
            }
            let mut outer: Vec<(Vec<char>, Json)> = Vec::new();
            outer.push((jkey("Text"), Json::Obj(inner)));
            proof {
                crate::json::lemma_jm_fields(outer@);
                assert(crate::json::jm_fields(outer@) =~= row_fields_jm(*r));
            }
            Json::Obj(outer)
        },
    }
}

fn rows_to_jarr(v: &Vec<InfoboxRow>) -> (r: Json)
    ensures
        jm(r) == JModel::Arr(rows_arr_jm(v@)),
{
    let mut items: Vec<Json> = Vec::new();
    let mut k: usize = 0;
    proof {
        assert(crate::json::jm_seq(items@) =~= rows_arr_jm(v@).take(0));
    }
    while k < v.len()
        invariant
            0 <= k <= v@.len(),
            crate::json::jm_seq(items@) == rows_arr_jm(v@).take(k as int),
        decreases v@.len() - k,
    {
        let ghost old_items = items@;
        let x = row_to_json(&v[k]);
        items.push(x);
        proof {
            crate::json::lemma_jm_seq_push(old_items, x);
            assert(rows_arr_jm(v@)[k as int] == row_jm(v@[k as int]));
            assert(crate::json::jm_seq(items@) =~= rows_arr_jm(v@).take(k + 1));
        }
        k = k + 1;
    }
    proof {
        assert(rows_arr_jm(v@).take(v@.len() as int) =~= rows_arr_jm(v@));
    }
    Json::Arr(items)
}

fn post_to_json(p: &Post) -> (r: Json)
    ensures
        jm(r) == post_jm(*p),
{
    let mut f: Vec<(Vec<char>, Json)> = Vec::new();
    f.push((jkey("name"), js(&p.name)));
    f.push((jkey("url"), js(&p.url)));
    proof {
        crate::json::lemma_jm_fields(f@);
        assert(crate::json::jm_fields(f@) =~= post_fields_jm(*p));
    }
    Json::Obj(f)
}

fn posts_to_jarr(v: &Vec<Post>) -> (r: Json)
    ensures
        jm(r) == JModel::Arr(posts_arr_jm(v@)),
{
    let mut items: Vec<Json> = Vec::new();
    let mut k: usize = 0;
    proof {
        assert(crate::json::jm_seq(items@) =~= posts_arr_jm(v@).take(0));
    }
    while k < v.len()
        invariant
            0 <= k <= v@.len(),
            crate::json::jm_seq(items@) == posts_arr_jm(v@).take(k as int),
        decreases v@.len() - k,
    {
        let ghost old_items = items@;
        let x = post_to_json(&v[k]);
        items.push(x);
        proof {
            crate::json::lemma_jm_seq_push(old_items, x);
            assert(posts_arr_jm(v@)[k as int] == post_jm(v@[k as int]));
            assert(crate::json::jm_seq(items@) =~= posts_arr_jm(v@).take(k + 1));
        }
        k = k + 1;
    }
    proof {
        assert(posts_arr_jm(v@).take(v@.len() as int) =~= posts_arr_jm(v@));
    }
    Json::Arr(items)
}

fn api_to_json(a: &ApiViewResponse) -> (r: Json)
    ensures
        jm(r) == api_jm(*a),
{
    let mut f: Vec<(Vec<char>, Json)> = Vec::new();
    f.push((jkey("post_dislikes"), js(&a.post_dislikes)));
    f.push((jkey("post_favorites"), js(&a.post_favorites)));
    f.push((jkey("post_id"), i64_to_json(a.post_id)));
    f.push((jkey("post_likes"), js(&a.post_likes)));
    f.push((jkey("post_views"), js(&a.post_views)));
    proof {
        crate::json::lemma_jm_fields(f@);
        assert(crate::json::jm_fields(f@) =~= api_fields_jm(*a));
    }
    Json::Obj(f)
}

/// The depth of one child value sits two levels inside its parent.
proof fn lemma_comment_child_depth(c: Comment, q: int)
    requires
        c.children is Some,
        0 <= q < c.children->0@.len(),
    ensures
        jdepth(comment_jm(c.children->0@[q].comment)) + 2 <= jdepth(comment_jm(c)),
{
    let v = c.children->0;
    let fs = comment_fields_jm(c);
    let ch = children_jm(v@);
    lemma_children_jm_index(v@);
    lemma_jdepth_fields(ch);
    assert(ch[q].1 == comment_jm(v@[q].comment));
    assert(jdepth(comment_jm(v@[q].comment)) <= jdepth_fields(ch));
    lemma_jdepth_fields(fs);
    assert(fs[12].1 == JModel::Obj(ch));
    assert(jdepth(fs[12].1) <= jdepth_fields(fs));
    assert(jdepth(JModel::Obj(ch)) == 1 + jdepth_fields(ch));
    assert(jdepth(comment_jm(c)) == 1 + jdepth_fields(fs));
}

/// One comment with its nested children.
fn comment_to_json(c: &Comment, fuel: Ghost<nat>) -> (r: Json)
    requires
        jdepth(comment_jm(*c)) <= fuel@,
    ensures
        jm(r) == comment_jm(*c),
    decreases fuel@,
{
    let chval: Json = match &c.children {
        Option::Some(v) => {
            let mut fields: Vec<(Vec<char>, Json)> = Vec::new();
            let mut k: usize = 0;
            proof {
                lemma_children_jm_index(v@);
                assert(crate::json::jm_fields(fields@) =~= children_jm(v@).take(0));
            }
            while k < v.len()
                invariant
                    0 <= k <= v@.len(),
                    c.children == Option::Some(*v),
                    jdepth(comment_jm(*c)) <= fuel@,
                    crate::json::jm_fields(fields@) == children_jm(v@).take(k as int),
                decreases v@.len() - k,
            {
                proof {
                    lemma_comment_child_depth(*c, k as int);
                }
                let ghost old_fields = fields@;
                let key = str_to_chars(v[k].key.as_str());
                let cj = comment_to_json(&v[k].comment, Ghost((fuel@ - 1) as nat));
                let ghost keyg = key@;
                let ghost cjg = jm(cj);
                fields.push((key, cj));
                proof {
                    crate::json::lemma_jm_fields_push(
                        old_fields,
                        fields@[fields@.len() - 1].0,
                        fields@[fields@.len() - 1].1,
                    );
                    lemma_children_jm_index(v@);
                    assert(children_jm(v@)[k as int] == (v@[k as int].key@, comment_jm(
                        v@[k as int].comment,
                    )));
                    assert(crate::json::jm_fields(fields@) =~= children_jm(v@).take(k + 1));
                }
                k = k + 1;
            }
            proof {
                lemma_children_jm_index(v@);
                assert(children_jm(v@).take(v@.len() as int) =~= children_jm(v@));
            }
            Json::Obj(fields)
        },
        Option::None => Json::Null,
    };
    let mut f: Vec<(Vec<char>, Json)> = Vec::new();
    f.push((jkey("comment_ID"), js(&c.comment_id)));
    f.push((jkey("comment_post_ID"), js(&c.comment_post_id)));
    f.push((jkey("post_url"), js(&c.post_url)));
    f.push((jkey("comment_author"), js(&c.comment_author)));
    f.push((jkey("content"), js(&c.content)));
    f.push((jkey("approved"), js(&c.approved)));
    f.push((jkey("comment_parrent"), js(&c.comment_parrent)));
    f.push((jkey("likes"), i64_to_json(c.likes)));
    f.push((jkey("posted_on"), js(&c.posted_on)));
    f.push((jkey("user_id"), js(&c.user_id)));
    f.push((jkey("profile_pic"), js(&c.profile_pic)));
    f.push((jkey("role"), js(&c.role)));
    f.push((jkey("children"), chval));
    proof {
        crate::json::lemma_jm_fields(f@);
        assert(crate::json::jm_fields(f@) =~= comment_fields_jm(*c));
    }
    Json::Obj(f)
}

fn comments_to_jarr(v: &Vec<Comment>) -> (r: Json)
    ensures
        jm(r) == JModel::Arr(comments_jm(v@)),
{
    let mut items: Vec<Json> = Vec::new();
    let mut k: usize = 0;
    proof {
        lemma_comments_jm_index(v@);
        assert(crate::json::jm_seq(items@) =~= comments_jm(v@).take(0));
    }
    while k < v.len()
        invariant
            0 <= k <= v@.len(),
            crate::json::jm_seq(items@) == comments_jm(v@).take(k as int),
        decreases v@.len() - k,
    {
        let ghost old_items = items@;
        let x = comment_to_json(&v[k], Ghost(jdepth(comment_jm(v@[k as int]))));
        items.push(x);
        proof {
            crate::json::lemma_jm_seq_push(old_items, x);
            lemma_comments_jm_index(v@);
            assert(comments_jm(v@)[k as int] == comment_jm(v@[k as int]));
            assert(crate::json::jm_seq(items@) =~= comments_jm(v@).take(k + 1));
        }
        k = k + 1;
    }
    proof {
        lemma_comments_jm_index(v@);
        assert(comments_jm(v@).take(v@.len() as int) =~= comments_jm(v@));
    }
    Json::Arr(items)
}

/// The whole manifest of one export record as a JSON value.
pub fn export_to_json(e: &ExportV7) -> (r: Json)
    ensures
        jm(r) == export_jm(*e),
{
    let cval: Json = match &e.comments {
        Option::Some(v) => comments_to_jarr(v),
        Option::None => Json::Null,
    };
    let mut f: Vec<(Vec<char>, Json)> = Vec::new();
    f.push((jkey("hdpc_dl_version"), i32_to_json(e.hdpc_dl_version)));
    f.push((jkey("program_version"), js(&e.program_version)));
    f.push((jkey("post_id"), u64_to_json(e.post_id)));
    f.push((jkey("title"), js(&e.title)));
    f.push((jkey("api_stats"), api_to_json(&e.api_stats)));
    f.push((jkey("comment_count"), js(&e.comment_count)));
    f.push((jkey("download_date"), js(&e.download_date)));
    f.push((jkey("source_url"), js(&e.source_url)));
    f.push((jkey("metadata"), rows_to_jarr(&e.metadata)));
    f.push((jkey("chapters"), posts_to_jarr(&e.chapters)));
    f.push((jkey("picture_urls"), strings_to_jarr(&e.picture_urls)));
    f.push((jkey("comments"), cval));
    proof {
        crate::json::lemma_jm_fields(f@);
        assert(crate::json::jm_fields(f@) =~= export_fields_jm(*e));
    }
    Json::Obj(f)
}

fn post_buf_to_json(p: &PostBuf) -> (r: Json)
    ensures
        jm(r) == post_buf_jm(*p),
{
    let mut f: Vec<(Vec<char>, Json)> = Vec::new();
    f.push((jkey("post_id"), u32_to_json(p.post_id)));
    f.push((jkey("name"), js(&p.name)));
    f.push((jkey("url"), js(&p.url)));
    f.push((jkey("views"), u32_to_json(p.views)));
    f.push((jkey("upvotes"), u32_to_json(p.upvotes)));
    f.push((jkey("downvotes"), u32_to_json(p.downvotes)));
    f.push((jkey("meta_tags"), strings_to_jarr(&p.meta_tags)));
    f.push((jkey("rendered_tags"), tag_bufs_to_jarr(&p.rendered_tags)));
    proof {
        crate::json::lemma_jm_fields(f@);
        assert(crate::json::jm_fields(f@) =~= post_buf_fields_jm(*p));
    }
    Json::Obj(f)
}

/// The whole crawl-result record as a JSON value.
pub fn crawl_to_json(c: &CrawlResultV5) -> (r: Json)
    ensures
        jm(r) == crawl_jm(*c),
{
    let mut items: Vec<Json> = Vec::new();
    let mut k: usize = 0;
    proof {
        assert(crate::json::jm_seq(items@) =~= post_bufs_arr_jm(c.posts@).take(0));
    }
    while k < c.posts.len()
        invariant
            0 <= k <= c.posts@.len(),
            crate::json::jm_seq(items@) == post_bufs_arr_jm(c.posts@).take(k as int),
        decreases c.posts@.len() - k,
    {
        let ghost old_items = items@;
        let x = post_buf_to_json(&c.posts[k]);
        items.push(x);
        proof {
            crate::json::lemma_jm_seq_push(old_items, x);
            assert(post_bufs_arr_jm(c.posts@)[k as int] == post_buf_jm(c.posts@[k as int]));
            assert(crate::json::jm_seq(items@) =~= post_bufs_arr_jm(c.posts@).take(k + 1));
        }
        k = k + 1;
    }
    proof {
        assert(post_bufs_arr_jm(c.posts@).take(c.posts@.len() as int) =~= post_bufs_arr_jm(
            c.posts@,
        ));
    }
    let mut f: Vec<(Vec<char>, Json)> = Vec::new();
    f.push((jkey("hdpc_dl_version"), i32_to_json(c.hdpc_dl_version)));
    f.push((jkey("program_version"), js(&c.program_version)));
    f.push((jkey("source_url"), js(&c.source_url)));
    f.push((jkey("download_date"), js(&c.download_date)));
    f.push((jkey("posts"), Json::Arr(items)));
    proof {
        crate::json::lemma_jm_fields(f@);
        assert(crate::json::jm_fields(f@) =~= crawl_fields_jm(*c));
    }
    Json::Obj(f)
}

/// Serializes one export record as its pretty manifest text.
pub fn render_export(e: &ExportV7) -> (r: String)
    ensures
        r@ == spec_render(export_jm(*e), 0),
{
    let j = export_to_json(e);
    let out = render_json_doc(&j);
    chars_to_string(&out)
}

/// Serializes one crawl-result record as its pretty manifest text.
pub fn render_crawl_result(c: &CrawlResultV5) -> (r: String)
    ensures
        r@ == spec_render(crawl_jm(*c), 0),
{
    let j = crawl_to_json(c);
    let out = render_json_doc(&j);
    chars_to_string(&out)
}

/// Reads one manifest document back as a JSON value; readers dispatch on
/// the schema version through `manifest_schema_version`.
pub fn parse_manifest(text: &str) -> (r: Option<Json>)
    ensures
        r matches Some(j) ==> parse_doc(text@) == Some(jm(j)),
        r is None ==> parse_doc(text@) is None,
{
    let t = str_to_chars(text);
    parse_json_doc(&t)
}

/// The value of the named member of an object, first occurrence.
pub open spec fn obj_lookup(fields: Seq<(Seq<char>, JModel)>, key: Seq<char>) -> Option<JModel>
    decreases fields.len(),
{
    if fields.len() == 0 {
        None
    } else if fields[0].0 == key {
        Some(fields[0].1)
    } else {
        obj_lookup(fields.subrange(1, fields.len() as int), key)
    }
}

/// The schema version tag of a parsed manifest, when the document is an
/// object whose version member is a number; every version the writers put
/// there reads back, so readers can dispatch on it.
pub fn manifest_schema_version(j: &Json) -> (r: Option<i64>)
    ensures
        r matches Some(x) ==> jm(*j) matches JModel::Obj(fields) && obj_lookup(
            fields,
            "hdpc_dl_version"@,
        ) == Some(i64_jm(x)),
        (jm(*j) matches JModel::Obj(fields) && obj_lookup(
            fields,
            "hdpc_dl_version"@,
        ) matches Some(v) && (exists|x: i64| v == i64_jm(x))) ==> r is Some,
{
    proof {
        crate::json::lemma_jm_shape(*j);
    }
    match j {
        Json::Obj(fields) => {
            let key = jkey("hdpc_dl_version");
            let mut k: usize = 0;
            proof {
                crate::json::lemma_jm_fields(fields@);
                let fs = crate::json::jm_fields(fields@);
                assert(fs.subrange(0, fs.len() as int) =~= fs);
            }
            while k < fields.len()
                invariant
                    0 <= k <= fields@.len(),
                    key@ == "hdpc_dl_version"@,
                    jm(*j) == JModel::Obj(crate::json::jm_fields(fields@)),
                    obj_lookup(crate::json::jm_fields(fields@), "hdpc_dl_version"@)
                        == obj_lookup(
                        crate::json::jm_fields(fields@).subrange(
                            k as int,
                            crate::json::jm_fields(fields@).len() as int,
                        ),
                        "hdpc_dl_version"@,
                    ),
                    crate::json::jm_fields(fields@).len() == fields@.len(),
                    forall|q: int|
                        0 <= q < fields@.len() ==> crate::json::jm_fields(fields@)[q] == ((
                        #[trigger] fields@[q]).0@, jm(fields@[q].1)),
                decreases fields@.len() - k,
            {
                let flen = fields[k].0.len();
                let same = flen == key.len() && crate::scan::eq_at(&fields[k].0, &key, 0);
                proof {
                    let fs = crate::json::jm_fields(fields@);
                    if flen == key@.len() {
                        assert(fields@[k as int].0@.subrange(0, key@.len() as int)
                            =~= fields@[k as int].0@);
                    }
                    assert(fs.subrange(k as int, fs.len() as int)[0] == fs[k as int]);
                }
                if same {
                    proof {
                        let fs = crate::json::jm_fields(fields@);
                        let sub = fs.subrange(k as int, fs.len() as int);
                        assert(sub[0] == fs[k as int]);
                        assert(fs[k as int].0 == "hdpc_dl_version"@);
                        assert(obj_lookup(sub, "hdpc_dl_version"@) == Some(fs[k as int].1));
                        assert(fs[k as int].1 == jm(fields@[k as int].1));
                        assert(jm(*j) == JModel::Obj(fs));
                    }
                    match &fields[k].1 {
                        Json::Num { neg, mag } => {
                            if *neg {
                                if 1 <= *mag && *mag <= 9223372036854775807u64 {
                                    let x = -((*mag) as i64);
                                    proof {
                                        assert(i64_jm(x) == jm(fields@[k as int].1));
                                    }
                                    return Some(x);
                                } else if *mag == 9223372036854775808u64 {
                                    let x = i64::MIN;
                                    proof {
                                        assert(i64_jm(x) == jm(fields@[k as int].1));
                                    }
                                    return Some(x);
                                } else {
                                    return None;
                                }
                            } else {
                                if *mag <= 9223372036854775807u64 {
                                    let x = (*mag) as i64;
                                    proof {
                                        assert(i64_jm(x) == jm(fields@[k as int].1));
                                    }
                                    return Some(x);
                                } else {
                                    return None;
                                }
                            }
                        },
                        _ => {
                            proof {
                                crate::json::lemma_jm_shape(fields@[k as int].1);
                            }
                            return None;
                        },
                    }
                }
                proof {
                    let fs = crate::json::jm_fields(fields@);
                    assert(fs.subrange(k as int, fs.len() as int).subrange(
                        1,
                        fs.len() - k as int,
                    ) =~= fs.subrange(k + 1 as int, fs.len() as int));
                }
                k = k + 1;
            }
            proof {
                let fs = crate::json::jm_fields(fields@);
                assert(fs.subrange(k as int, fs.len() as int) =~= Seq::<
                    (Seq<char>, JModel),
                >::empty());
                assert(obj_lookup(fs, "hdpc_dl_version"@) is None);
            }
            None
        },
        _ => None,
    }
}

/// Whether a member key is exactly the given name.
fn key_is(k: &Vec<char>, pat: &Vec<char>) -> (r: bool)
    ensures
        r == (k@ == pat@),
{
    if k.len() != pat.len() {
        return false;
    }
    let same = crate::scan::eq_at(k, pat, 0);
    proof {
        assert(k@.subrange(0, pat@.len() as int) =~= k@);
    }
    same
}

/// Reads a string value: exactly the string-shaped values read back.
fn str_of(j: &Json) -> (r: Option<String>)
    ensures
        r matches Some(s) ==> jm(*j) == JModel::Str(s@),
        jm(*j) is Str ==> r is Some,
{
    proof {
        crate::json::lemma_jm_shape(*j);
    }
    match j {
        Json::Str(v) => Some(chars_to_string(v)),
        _ => None,
    }
}

/// Reads an unsigned 64-bit count: every value the writer gives one reads
/// back.
fn u64_of(j: &Json) -> (r: Option<u64>)
    ensures
        r matches Some(x) ==> jm(*j) == u64_jm(x),
        (exists|x: u64| jm(*j) == u64_jm(x)) ==> r is Some,
{
    proof {
        crate::json::lemma_jm_shape(*j);
    }
    match j {
        Json::Num { neg, mag } => {
            if *neg {
                proof {
                    assert forall|x: u64| jm(*j) != u64_jm(x) by {}
                }
                None
            } else {
                Some(*mag)
            }
        },
        _ => {
            proof {
                assert forall|x: u64| jm(*j) != u64_jm(x) by {}
            }
            None
        },
    }
}

/// Reads an unsigned 32-bit count: every value the writer gives one reads
/// back.
fn u32_of(j: &Json) -> (r: Option<u32>)
    ensures
        r matches Some(x) ==> jm(*j) == u32_jm(x),
        (exists|x: u32| jm(*j) == u32_jm(x)) ==> r is Some,
{
    proof {
        assert forall|x: u32| jm(*j) == u32_jm(x) implies jm(*j) == u64_jm(x as u64) by {}
    }
    match u64_of(j) {
        Option::Some(x) => {
            if x <= 0xffff_ffff {
                Some(x as u32)
            } else {
                proof {
                    assert forall|w: u32| jm(*j) != u32_jm(w) by {
                        if jm(*j) == u32_jm(w) {
                            assert(jm(*j) == u64_jm(x));
                        }
                    }
                }
                None
            }
        },
        Option::None => {
            proof {
                assert forall|w: u32| jm(*j) != u32_jm(w) by {
                    if jm(*j) == u32_jm(w) {
                        assert(jm(*j) == u64_jm(w as u64));
                    }
                }
            }
            None
        },
    }
}

/// Reads a signed 64-bit count: every value the writer gives one reads
/// back; a written record never carries a negative zero or a magnitude
/// outside the type.
fn i64_of(j: &Json) -> (r: Option<i64>)
    ensures
        r matches Some(x) ==> jm(*j) == i64_jm(x),
        (exists|x: i64| jm(*j) == i64_jm(x)) ==> r is Some,
{
    proof {
        crate::json::lemma_jm_shape(*j);
    }
    match j {
        Json::Num { neg, mag } => {
            if *neg {
                if 1 <= *mag && *mag <= 9223372036854775807u64 {
                    Some(-((*mag) as i64))
                } else if *mag == 9223372036854775808u64 {
                    Some(i64::MIN)
                } else {
                    proof {
                        assert forall|x: i64| jm(*j) != i64_jm(x) by {}
                    }
                    None
                }
            } else {
                if *mag <= 9223372036854775807u64 {
                    Some((*mag) as i64)
                } else {
                    proof {
                        assert forall|x: i64| jm(*j) != i64_jm(x) by {}
                    }
                    None
                }
            }
        },
        _ => {
            proof {
                assert forall|x: i64| jm(*j) != i64_jm(x) by {}
            }
            None
        },
    }
}

/// Reads a signed 32-bit count: every value the writer gives one reads
/// back.
fn i32_of(j: &Json) -> (r: Option<i32>)
    ensures
        r matches Some(x) ==> jm(*j) == i32_jm(x),
        (exists|x: i32| jm(*j) == i32_jm(x)) ==> r is Some,
{
    proof {
        assert forall|x: i32| jm(*j) == i32_jm(x) implies jm(*j) == i64_jm(x as i64) by {}
    }
    match i64_of(j) {
        Option::Some(x) => {
            if -2147483648i64 <= x && x <= 2147483647i64 {
                proof {
                    assert(i32_jm(x as i32) == i64_jm(x));
                }
                Some(x as i32)
            } else {
                proof {
                    assert forall|w: i32| jm(*j) != i32_jm(w) by {
                        if jm(*j) == i32_jm(w) {
                            assert(jm(*j) == i64_jm(w as i64));
                            assert(i64_jm(w as i64) == i64_jm(x));
                            assert(w as i64 == x);
                        }
                    }
                }
                None
            }
        },
        Option::None => {
            proof {
                assert forall|w: i32| jm(*j) != i32_jm(w) by {
                    if jm(*j) == i32_jm(w) {
                        assert(jm(*j) == i64_jm(w as i64));
                    }
                }
            }
            None
        },
    }
}

/// Reads one tag link: every value the writer gives one reads back.
fn tag_like_of(j: &Json) -> (r: Option<TagLike>)
    ensures
        r matches Some(g) ==> jm(*j) == tag_like_jm(g),
        (exists|g: TagLike| jm(*j) == tag_like_jm(g)) ==> r is Some,
{
    proof {
        crate::json::lemma_jm_shape(*j);
    }
    match j {
        Json::Obj(fields) => {
            proof {
                crate::json::lemma_jm_fields(fields@);
                assert(jm(*j) == JModel::Obj(crate::json::jm_fields(fields@)));
            }
            if fields.len() != 2 {
                proof {
                    assert forall|g: TagLike| jm(*j) != tag_like_jm(g) by {
                        if jm(*j) == tag_like_jm(g) {
                            assert(crate::json::jm_fields(fields@) == tag_like_fields_jm(g));
                        }
                    }
                }
                return None;
            }
            if !key_is(&fields[0].0, &jkey("href")) || !key_is(&fields[1].0, &jkey("text")) {
                proof {
                    assert forall|g: TagLike| jm(*j) != tag_like_jm(g) by {
                        if jm(*j) == tag_like_jm(g) {
                            assert(crate::json::jm_fields(fields@) == tag_like_fields_jm(g));
                            assert(crate::json::jm_fields(fields@)[0].0 == "href"@);
                            assert(crate::json::jm_fields(fields@)[1].0 == "text"@);
                        }
                    }
                }
                return None;
            }
            let href = match str_of(&fields[0].1) {
                Option::Some(s) => s,
                Option::None => {
                    proof {
                        assert forall|g: TagLike| jm(*j) != tag_like_jm(g) by {
                            if jm(*j) == tag_like_jm(g) {
                                assert(crate::json::jm_fields(fields@) == tag_like_fields_jm(
                                    g,
                                ));
                                assert(jm(fields@[0].1) == JModel::Str(g.href@));
                            }
                        }
                    }
                    return None;
                },
            };
            let text = match str_of(&fields[1].1) {
                Option::Some(s) => s,
                Option::None => {
                    proof {
                        assert forall|g: TagLike| jm(*j) != tag_like_jm(g) by {
                            if jm(*j) == tag_like_jm(g) {
                                assert(crate::json::jm_fields(fields@) == tag_like_fields_jm(
                                    g,
                                ));
                                assert(jm(fields@[1].1) == JModel::Str(g.text@));
                            }
                        }
                    }
                    return None;
                },
            };
            let g = TagLike { href, text };
            proof {
                assert(crate::json::jm_fields(fields@) =~~= tag_like_fields_jm(g));
            }
            Some(g)
        },
        _ => None,
    }
}

/// Reads a whole array with one element reader, or nothing.
fn tags_of(j: &Json) -> (r: Option<Vec<TagLike>>)
    ensures
        r matches Some(v) ==> jm(*j) == JModel::Arr(tags_arr_jm(v@)),
        (exists|v: Seq<TagLike>| jm(*j) == JModel::Arr(tags_arr_jm(v))) ==> r is Some,
{
    proof {
        crate::json::lemma_jm_shape(*j);
    }
    match j {
        Json::Arr(items) => {
            let mut out: Vec<TagLike> = Vec::new();
            let mut k: usize = 0;
            proof {
                crate::json::lemma_jm_seq(items@);
                assert(jm(*j) == JModel::Arr(crate::json::jm_seq(items@)));
                assert(tags_arr_jm(out@) =~= crate::json::jm_seq(items@).take(0));
            }
            while k < items.len()
                invariant
                    0 <= k <= items@.len(),
                    jm(*j) == JModel::Arr(crate::json::jm_seq(items@)),
                    tags_arr_jm(out@) == crate::json::jm_seq(items@).take(k as int),
                    out@.len() == k,
                decreases items@.len() - k,
            {
                let g = match tag_like_of(&items[k]) {
                    Option::Some(g) => g,
                    Option::None => {
                        proof {
                            assert forall|v: Seq<TagLike>|
                                jm(*j) != JModel::Arr(tags_arr_jm(v)) by {
                                if jm(*j) == JModel::Arr(tags_arr_jm(v)) {
                                    crate::json::lemma_jm_seq(items@);
                                    assert(crate::json::jm_seq(items@) == tags_arr_jm(v));
                                    assert(jm(items@[k as int]) == tags_arr_jm(v)[k as int]);
                                    assert(tags_arr_jm(v)[k as int] == tag_like_jm(
                                        v[k as int],
                                    ));
                                }
                            }
                        }
                        return None;
                    },
                };
                let ghost old_out = out@;
                out.push(g);
                proof {
                    crate::json::lemma_jm_seq(items@);
                    assert(out@ =~= old_out.push(g));
                    assert(tags_arr_jm(out@) =~= tags_arr_jm(old_out).push(tag_like_jm(g)));
                    assert(crate::json::jm_seq(items@)[k as int] == jm(items@[k as int]));
                    assert(tags_arr_jm(out@) =~= crate::json::jm_seq(items@).take(k + 1));
                }
                k = k + 1;
            }
            proof {
                crate::json::lemma_jm_seq(items@);
                assert(crate::json::jm_seq(items@).take(items@.len() as int)
                    =~= crate::json::jm_seq(items@));
                assert(jm(*j) == JModel::Arr(crate::json::jm_seq(items@)));
            }
            Some(out)
        },
        _ => None,
    }
}

/// Reads an array of strings.
fn strings_of(j: &Json) -> (r: Option<Vec<String>>)
    ensures
        r matches Some(v) ==> jm(*j) == JModel::Arr(strings_jm(v@)),
        (exists|v: Seq<String>| jm(*j) == JModel::Arr(strings_jm(v))) ==> r is Some,
{
    proof {
        crate::json::lemma_jm_shape(*j);
    }
    match j {
        Json::Arr(items) => {
            let mut out: Vec<String> = Vec::new();
            let mut k: usize = 0;
            proof {
                crate::json::lemma_jm_seq(items@);
                assert(jm(*j) == JModel::Arr(crate::json::jm_seq(items@)));
                assert(strings_jm(out@) =~= crate::json::jm_seq(items@).take(0));
            }
            while k < items.len()
                invariant
                    0 <= k <= items@.len(),
                    jm(*j) == JModel::Arr(crate::json::jm_seq(items@)),
                    strings_jm(out@) == crate::json::jm_seq(items@).take(k as int),
                    out@.len() == k,
                decreases items@.len() - k,
            {
                let sv = match str_of(&items[k]) {
                    Option::Some(s) => s,
                    Option::None => {
                        proof {
                            assert forall|v: Seq<String>|
                                jm(*j) != JModel::Arr(strings_jm(v)) by {
                                if jm(*j) == JModel::Arr(strings_jm(v)) {
                                    crate::json::lemma_jm_seq(items@);
                                    assert(crate::json::jm_seq(items@) == strings_jm(v));
                                    assert(jm(items@[k as int]) == strings_jm(v)[k as int]);
                                    assert(strings_jm(v)[k as int] == JModel::Str(
                                        v[k as int]@,
                                    ));
                                }
                            }
                        }
                        return None;
                    },
                };
                let ghost old_out = out@;
                out.push(sv);
                proof {
                    crate::json::lemma_jm_seq(items@);
                    assert(out@ =~= old_out.push(out@[out@.len() - 1]));
                    assert(strings_jm(out@) =~= strings_jm(old_out).push(
                        JModel::Str(out@[out@.len() - 1]@),
                    ));
                    assert(crate::json::jm_seq(items@)[k as int] == jm(items@[k as int]));
                    assert(strings_jm(out@) =~= crate::json::jm_seq(items@).take(k + 1));
                }
                k = k + 1;
            }
            proof {
                crate::json::lemma_jm_seq(items@);
                assert(crate::json::jm_seq(items@).take(items@.len() as int)
                    =~= crate::json::jm_seq(items@));
                assert(jm(*j) == JModel::Arr(crate::json::jm_seq(items@)));
            }
            Some(out)
        },
        _ => None,
    }
}


/// What a row's member list forces: one member, the key naming the
/// variant, and an object value.
proof fn lemma_row_witness(fields: Seq<(Vec<char>, Json)>, x: InfoboxRow)
    requires
        crate::json::jm_fields(fields) == row_fields_jm(x),
    ensures
        fields.len() == 1,
        fields[0].0@ == "Raw"@ <==> x is Raw,
        fields[0].0@ == "TagLike"@ <==> x is TagLike,
        fields[0].0@ == "Text"@ <==> x is Text,
        jm(fields[0].1) is Obj,
        x matches InfoboxRow::Raw(rr) ==> jm(fields[0].1) == JModel::Obj(
            raw_row_inner_jm(rr.name, rr.html),
        ),
        x matches InfoboxRow::TagLike { name, tags } ==> jm(fields[0].1) == JModel::Obj(
            tag_row_inner_jm(name, tags@),
        ),
        x matches InfoboxRow::Text { name, class_name, text } ==> jm(fields[0].1)
            == JModel::Obj(text_row_inner_jm(name, class_name, text)),
{
    crate::json::lemma_jm_fields(fields);
    reveal_strlit("Raw");
    reveal_strlit("TagLike");
    reveal_strlit("Text");
    match x {
        InfoboxRow::Raw(_) => {
            assert(fields[0].0@ == "Raw"@);
        },
        InfoboxRow::TagLike { .. } => {
            assert(fields[0].0@ == "TagLike"@);
            assert("Raw"@.len() == 3 && "TagLike"@.len() == 7 && "Text"@.len() == 4);
        },
        InfoboxRow::Text { .. } => {
            assert(fields[0].0@ == "Text"@);
            assert("Raw"@.len() == 3 && "TagLike"@.len() == 7 && "Text"@.len() == 4);
        },
    }
}

/// What a raw row's inner member list forces.
proof fn lemma_raw_inner_witness(inner: Seq<(Vec<char>, Json)>, name: String, html: String)
    requires
        crate::json::jm_fields(inner) == raw_row_inner_jm(name, html),
    ensures
        inner.len() == 2,
        inner[0].0@ == "name"@,
        inner[1].0@ == "html"@,
        jm(inner[0].1) == JModel::Str(name@),
        jm(inner[1].1) == JModel::Str(html@),
{
    crate::json::lemma_jm_fields(inner);
}

/// What a tag row's inner member list forces.
proof fn lemma_tag_inner_witness(inner: Seq<(Vec<char>, Json)>, name: String, tags: Seq<TagLike>)
    requires
        crate::json::jm_fields(inner) == tag_row_inner_jm(name, tags),
    ensures
        inner.len() == 2,
        inner[0].0@ == "name"@,
        inner[1].0@ == "tags"@,
        jm(inner[0].1) == JModel::Str(name@),
        jm(inner[1].1) == JModel::Arr(tags_arr_jm(tags)),
{
    crate::json::lemma_jm_fields(inner);
}

/// What a text row's inner member list forces.
proof fn lemma_text_inner_witness(
    inner: Seq<(Vec<char>, Json)>,
    name: String,
    class_name: String,
    text: Option<String>,
)
    requires
        crate::json::jm_fields(inner) == text_row_inner_jm(name, class_name, text),
    ensures
        inner.len() == 3,
        inner[0].0@ == "name"@,
        inner[1].0@ == "class_name"@,
        inner[2].0@ == "text"@,
        jm(inner[0].1) == JModel::Str(name@),
        jm(inner[1].1) == JModel::Str(class_name@),
        text matches Some(v) ==> jm(inner[2].1) == JModel::Str(v@),
        text is None ==> jm(inner[2].1) == JModel::Null,
{
    crate::json::lemma_jm_fields(inner);
}

/// Reads one infobox row from its externally tagged object: every value
/// the writer gives one reads back.
fn row_of(j: &Json) -> (r: Option<InfoboxRow>)
    ensures
        r matches Some(x) ==> jm(*j) == row_jm(x),
        (exists|x: InfoboxRow| jm(*j) == row_jm(x)) ==> r is Some,
{
    proof {
        crate::json::lemma_jm_shape(*j);
    }
    match j {
        Json::Obj(fields) => {
            proof {
                crate::json::lemma_jm_fields(fields@);
                assert(jm(*j) == JModel::Obj(crate::json::jm_fields(fields@)));
            }
            if fields.len() != 1 {
                proof {
                    assert forall|x: InfoboxRow| jm(*j) != row_jm(x) by {
                        if jm(*j) == row_jm(x) {
                            assert(crate::json::jm_fields(fields@) == row_fields_jm(x));
                            lemma_row_witness(fields@, x);
                        }
                    }
                }
                return None;
            }
            let inner = match &fields[0].1 {
                Json::Obj(inner) => inner,
                _ => {
                    proof {
                        crate::json::lemma_jm_shape(fields@[0].1);
                        assert forall|x: InfoboxRow| jm(*j) != row_jm(x) by {
                            if jm(*j) == row_jm(x) {
                                assert(crate::json::jm_fields(fields@) == row_fields_jm(x));
                                lemma_row_witness(fields@, x);
                            }
                        }
                    }
                    return None;
                },
            };
            proof {
                crate::json::lemma_jm_fields(inner@);
                assert(jm(fields@[0].1) == JModel::Obj(crate::json::jm_fields(inner@)));
            }
            if key_is(&fields[0].0, &jkey("Raw")) {
                if inner.len() != 2 {
                    proof {
                        assert forall|x: InfoboxRow| jm(*j) != row_jm(x) by {
                            if jm(*j) == row_jm(x) {
                                assert(crate::json::jm_fields(fields@) == row_fields_jm(x));
                                lemma_row_witness(fields@, x);
                                match x {
                                    InfoboxRow::Raw(rr) => {
                                        lemma_raw_inner_witness(inner@, rr.name, rr.html);
                                    },
                                    _ => {},
                                }
                            }
                        }
                    }
                    return None;
                }
                if !key_is(&inner[0].0, &jkey("name")) || !key_is(&inner[1].0, &jkey("html")) {
                    proof {
                        assert forall|x: InfoboxRow| jm(*j) != row_jm(x) by {
                            if jm(*j) == row_jm(x) {
                                assert(crate::json::jm_fields(fields@) == row_fields_jm(x));
                                lemma_row_witness(fields@, x);
                                match x {
                                    InfoboxRow::Raw(rr) => {
                                        lemma_raw_inner_witness(inner@, rr.name, rr.html);
                                    },
                                    _ => {},
                                }
                            }
                        }
                    }
                    return None;
                }
                let name = match str_of(&inner[0].1) {
                    Option::Some(s) => s,
                    Option::None => {
                        proof {
                            assert forall|x: InfoboxRow| jm(*j) != row_jm(x) by {
                                if jm(*j) == row_jm(x) {
                                    assert(crate::json::jm_fields(fields@) == row_fields_jm(x));
                                    lemma_row_witness(fields@, x);
                                    match x {
                                        InfoboxRow::Raw(rr) => {
                                            lemma_raw_inner_witness(inner@, rr.name, rr.html);
                                        },
                                        _ => {},
                                    }
                                }
                            }
                        }
                        return None;
                    },
                };
                let html = match str_of(&inner[1].1) {
                    Option::Some(s) => s,
                    Option::None => {
                        proof {
                            assert forall|x: InfoboxRow| jm(*j) != row_jm(x) by {
                                if jm(*j) == row_jm(x) {
                                    assert(crate::json::jm_fields(fields@) == row_fields_jm(x));
                                    lemma_row_witness(fields@, x);
                                    match x {
                                        InfoboxRow::Raw(rr) => {
                                            lemma_raw_inner_witness(inner@, rr.name, rr.html);
                                        },
                                        _ => {},
                                    }
                                }
                            }
                        }
                        return None;
                    },
                };
                let out = InfoboxRow::Raw(RawInfoBoxRow { name, html });
                proof {
                    assert(crate::json::jm_fields(inner@) =~~= raw_row_inner_jm(
                        out->Raw_0.name,
                        out->Raw_0.html,
                    ));
                    assert(crate::json::jm_fields(fields@) =~~= row_fields_jm(out));
                }
                Some(out)
            } else if key_is(&fields[0].0, &jkey("TagLike")) {
                if inner.len() != 2 {
                    proof {
                        assert forall|x: InfoboxRow| jm(*j) != row_jm(x) by {
                            if jm(*j) == row_jm(x) {
                                assert(crate::json::jm_fields(fields@) == row_fields_jm(x));
                                lemma_row_witness(fields@, x);
                                match x {
                                    InfoboxRow::TagLike { name, tags } => {
                                        lemma_tag_inner_witness(inner@, name, tags@);
                                    },
                                    _ => {},
                                }
                            }
                        }
                    }
                    return None;
                }
                if !key_is(&inner[0].0, &jkey("name")) || !key_is(&inner[1].0, &jkey("tags")) {
                    proof {
                        assert forall|x: InfoboxRow| jm(*j) != row_jm(x) by {
                            if jm(*j) == row_jm(x) {
                                assert(crate::json::jm_fields(fields@) == row_fields_jm(x));
                                lemma_row_witness(fields@, x);
                                match x {
                                    InfoboxRow::TagLike { name, tags } => {
                                        lemma_tag_inner_witness(inner@, name, tags@);
                                    },
                                    _ => {},
                                }
                            }
                        }
                    }
                    return None;
                }
                let name = match str_of(&inner[0].1) {
                    Option::Some(s) => s,
                    Option::None => {
                        proof {
                            assert forall|x: InfoboxRow| jm(*j) != row_jm(x) by {
                                if jm(*j) == row_jm(x) {
                                    assert(crate::json::jm_fields(fields@) == row_fields_jm(x));
                                    lemma_row_witness(fields@, x);
                                    match x {
                                        InfoboxRow::TagLike { name, tags } => {
                                            lemma_tag_inner_witness(inner@, name, tags@);
                                        },
                                        _ => {},
                                    }
                                }
                            }
                        }
                        return None;
                    },
                };
                let tags = match tags_of(&inner[1].1) {
                    Option::Some(v) => v,
                    Option::None => {
                        proof {
                            assert forall|x: InfoboxRow| jm(*j) != row_jm(x) by {
                                if jm(*j) == row_jm(x) {
                                    assert(crate::json::jm_fields(fields@) == row_fields_jm(x));
                                    lemma_row_witness(fields@, x);
                                    match x {
                                        InfoboxRow::TagLike { name, tags } => {
                                            lemma_tag_inner_witness(inner@, name, tags@);
                                        },
                                        _ => {},
                                    }
                                }
                            }
                        }
                        return None;
                    },
                };
                let ghost gtags = tags@;
                let out = InfoboxRow::TagLike { name, tags };
                proof {
                    assert(crate::json::jm_fields(inner@) =~~= tag_row_inner_jm(
                        out->TagLike_name,
                        gtags,
                    ));
                    assert(crate::json::jm_fields(fields@) =~~= row_fields_jm(out));
                }
                Some(out)
            } else if key_is(&fields[0].0, &jkey("Text")) {
                if inner.len() != 3 {
                    proof {
                        assert forall|x: InfoboxRow| jm(*j) != row_jm(x) by {
                            if jm(*j) == row_jm(x) {
                                assert(crate::json::jm_fields(fields@) == row_fields_jm(x));
                                lemma_row_witness(fields@, x);
                                match x {
                                    InfoboxRow::Text { name, class_name, text } => {
                                        lemma_text_inner_witness(inner@, name, class_name, text);
                                    },
                                    _ => {},
                                }
                            }
                        }
                    }
                    return None;
                }
                if !key_is(&inner[0].0, &jkey("name")) || !key_is(&inner[1].0, &jkey("class_name"))
                    || !key_is(&inner[2].0, &jkey("text")) {
                    proof {
                        assert forall|x: InfoboxRow| jm(*j) != row_jm(x) by {
                            if jm(*j) == row_jm(x) {
                                assert(crate::json::jm_fields(fields@) == row_fields_jm(x));
                                lemma_row_witness(fields@, x);
                                match x {
                                    InfoboxRow::Text { name, class_name, text } => {
                                        lemma_text_inner_witness(inner@, name, class_name, text);
                                    },
                                    _ => {},
                                }
                            }
                        }
                    }
                    return None;
                }
                let name = match str_of(&inner[0].1) {
                    Option::Some(s) => s,
                    Option::None => {
                        proof {
                            assert forall|x: InfoboxRow| jm(*j) != row_jm(x) by {
                                if jm(*j) == row_jm(x) {
                                    assert(crate::json::jm_fields(fields@) == row_fields_jm(x));
                                    lemma_row_witness(fields@, x);
                                    match x {
                                        InfoboxRow::Text { name, class_name, text } => {
                                            lemma_text_inner_witness(
                                                inner@,
                                                name,
                                                class_name,
                                                text,
                                            );
                                        },
                                        _ => {},
                                    }
                                }
                            }
                        }
                        return None;
                    },
                };
                let class_name = match str_of(&inner[1].1) {
                    Option::Some(s) => s,
                    Option::None => {
                        proof {
                            assert forall|x: InfoboxRow| jm(*j) != row_jm(x) by {
                                if jm(*j) == row_jm(x) {
                                    assert(crate::json::jm_fields(fields@) == row_fields_jm(x));
                                    lemma_row_witness(fields@, x);
                                    match x {
                                        InfoboxRow::Text { name, class_name, text } => {
                                            lemma_text_inner_witness(
                                                inner@,
                                                name,
                                                class_name,
                                                text,
                                            );
                                        },
                                        _ => {},
                                    }
                                }
                            }
                        }
                        return None;
                    },
                };
                let text: Option<String> = match &inner[2].1 {
                    Json::Null => None,
                    Json::Str(v) => Some(chars_to_string(v)),
                    _ => {
                        proof {
                            crate::json::lemma_jm_shape(inner@[2].1);
                            assert forall|x: InfoboxRow| jm(*j) != row_jm(x) by {
                                if jm(*j) == row_jm(x) {
                                    assert(crate::json::jm_fields(fields@) == row_fields_jm(x));
                                    lemma_row_witness(fields@, x);
                                    match x {
                                        InfoboxRow::Text { name, class_name, text } => {
                                            lemma_text_inner_witness(
                                                inner@,
                                                name,
                                                class_name,
                                                text,
                                            );
                                        },
                                        _ => {},
                                    }
                                }
                            }
                        }
                        return None;
                    },
                };
                let out = InfoboxRow::Text { name, class_name, text };
                proof {
                    assert(crate::json::jm_fields(inner@) =~~= text_row_inner_jm(
                        out->Text_name,
                        out->Text_class_name,
                        out->Text_text,
                    ));
                    assert(crate::json::jm_fields(fields@) =~~= row_fields_jm(out));
                }
                Some(out)
            } else {
                proof {
                    assert forall|x: InfoboxRow| jm(*j) != row_jm(x) by {
                        if jm(*j) == row_jm(x) {
                            assert(crate::json::jm_fields(fields@) == row_fields_jm(x));
                            lemma_row_witness(fields@, x);
                        }
                    }
                }
                None
            }
        },
        _ => None,
    }
}

/// Reads the metadata rows.
fn rows_of(j: &Json) -> (r: Option<Vec<InfoboxRow>>)
    ensures
        r matches Some(v) ==> jm(*j) == JModel::Arr(rows_arr_jm(v@)),
        (exists|v: Seq<InfoboxRow>| jm(*j) == JModel::Arr(rows_arr_jm(v))) ==> r is Some,
{
    proof {
        crate::json::lemma_jm_shape(*j);
    }
    match j {
        Json::Arr(items) => {
            let mut out: Vec<InfoboxRow> = Vec::new();
            let mut k: usize = 0;
            proof {
                crate::json::lemma_jm_seq(items@);
                assert(jm(*j) == JModel::Arr(crate::json::jm_seq(items@)));
                assert(rows_arr_jm(out@) =~= crate::json::jm_seq(items@).take(0));
            }
            while k < items.len()
                invariant
                    0 <= k <= items@.len(),
                    jm(*j) == JModel::Arr(crate::json::jm_seq(items@)),
                    rows_arr_jm(out@) == crate::json::jm_seq(items@).take(k as int),
                    out@.len() == k,
                decreases items@.len() - k,
            {
                let x = match row_of(&items[k]) {
                    Option::Some(x) => x,
                    Option::None => {
                        proof {
                            assert forall|v: Seq<InfoboxRow>|
                                jm(*j) != JModel::Arr(rows_arr_jm(v)) by {
                                if jm(*j) == JModel::Arr(rows_arr_jm(v)) {
                                    crate::json::lemma_jm_seq(items@);
                                    assert(crate::json::jm_seq(items@) == rows_arr_jm(v));
                                    assert(jm(items@[k as int]) == rows_arr_jm(v)[k as int]);
                                    assert(rows_arr_jm(v)[k as int] == row_jm(v[k as int]));
                                }
                            }
                        }
                        return None;
                    },
                };
                let ghost old_out = out@;
                let ghost gx = x;
                out.push(x);
                proof {
                    crate::json::lemma_jm_seq(items@);
                    assert(out@ =~= old_out.push(gx));
                    assert(rows_arr_jm(out@) =~= rows_arr_jm(old_out).push(row_jm(gx)));
                    assert(crate::json::jm_seq(items@)[k as int] == jm(items@[k as int]));
                    assert(rows_arr_jm(out@) =~= crate::json::jm_seq(items@).take(k + 1));
                }
                k = k + 1;
            }
            proof {
                crate::json::lemma_jm_seq(items@);
                assert(crate::json::jm_seq(items@).take(items@.len() as int)
                    =~= crate::json::jm_seq(items@));
                assert(jm(*j) == JModel::Arr(crate::json::jm_seq(items@)));
            }
            Some(out)
        },
        _ => None,
    }
}

/// Reads one chapter: every value the writer gives one reads back.
fn post_of(j: &Json) -> (r: Option<Post>)
    ensures
        r matches Some(p) ==> jm(*j) == post_jm(p),
        (exists|p: Post| jm(*j) == post_jm(p)) ==> r is Some,
{
    proof {
        crate::json::lemma_jm_shape(*j);
    }
    match j {
        Json::Obj(fields) => {
            proof {
                crate::json::lemma_jm_fields(fields@);
                assert(jm(*j) == JModel::Obj(crate::json::jm_fields(fields@)));
            }
            if fields.len() != 2 {
                proof {
                    assert forall|p: Post| jm(*j) != post_jm(p) by {
                        if jm(*j) == post_jm(p) {
                            assert(crate::json::jm_fields(fields@) == post_fields_jm(p));
                        }
                    }
                }
                return None;
            }
            if !key_is(&fields[0].0, &jkey("name")) || !key_is(&fields[1].0, &jkey("url")) {
                proof {
                    assert forall|p: Post| jm(*j) != post_jm(p) by {
                        if jm(*j) == post_jm(p) {
                            assert(crate::json::jm_fields(fields@) == post_fields_jm(p));
                            assert(crate::json::jm_fields(fields@)[0].0 == "name"@);
                            assert(crate::json::jm_fields(fields@)[1].0 == "url"@);
                        }
                    }
                }
                return None;
            }
            let name = match str_of(&fields[0].1) {
                Option::Some(s) => s,
                Option::None => {
                    proof {
                        assert forall|p: Post| jm(*j) != post_jm(p) by {
                            if jm(*j) == post_jm(p) {
                                assert(crate::json::jm_fields(fields@) == post_fields_jm(p));
                                assert(jm(fields@[0].1) == JModel::Str(p.name@));
                            }
                        }
                    }
                    return None;
                },
            };
            let url = match str_of(&fields[1].1) {
                Option::Some(s) => s,
                Option::None => {
                    proof {
                        assert forall|p: Post| jm(*j) != post_jm(p) by {
                            if jm(*j) == post_jm(p) {
                                assert(crate::json::jm_fields(fields@) == post_fields_jm(p));
                                assert(jm(fields@[1].1) == JModel::Str(p.url@));
                            }
                        }
                    }
                    return None;
                },
            };
            let p = Post { name, url };
            proof {
                assert(crate::json::jm_fields(fields@) =~~= post_fields_jm(p));
            }
            Some(p)
        },
        _ => None,
    }
}

/// Reads the chapter list.
fn posts_of(j: &Json) -> (r: Option<Vec<Post>>)
    ensures
        r matches Some(v) ==> jm(*j) == JModel::Arr(posts_arr_jm(v@)),
        (exists|v: Seq<Post>| jm(*j) == JModel::Arr(posts_arr_jm(v))) ==> r is Some,
{
    proof {
        crate::json::lemma_jm_shape(*j);
    }
    match j {
        Json::Arr(items) => {
            let mut out: Vec<Post> = Vec::new();
            let mut k: usize = 0;
            proof {
                crate::json::lemma_jm_seq(items@);
                assert(jm(*j) == JModel::Arr(crate::json::jm_seq(items@)));
                assert(posts_arr_jm(out@) =~= crate::json::jm_seq(items@).take(0));
            }
            while k < items.len()
                invariant
                    0 <= k <= items@.len(),
                    jm(*j) == JModel::Arr(crate::json::jm_seq(items@)),
                    posts_arr_jm(out@) == crate::json::jm_seq(items@).take(k as int),
                    out@.len() == k,
                decreases items@.len() - k,
            {
                let x = match post_of(&items[k]) {
                    Option::Some(x) => x,
                    Option::None => {
                        proof {
                            assert forall|v: Seq<Post>|
                                jm(*j) != JModel::Arr(posts_arr_jm(v)) by {
                                if jm(*j) == JModel::Arr(posts_arr_jm(v)) {
                                    crate::json::lemma_jm_seq(items@);
                                    assert(crate::json::jm_seq(items@) == posts_arr_jm(v));
                                    assert(jm(items@[k as int]) == posts_arr_jm(v)[k as int]);
                                    assert(posts_arr_jm(v)[k as int] == post_jm(v[k as int]));
                                }
                            }
                        }
                        return None;
                    },
                };
                let ghost old_out = out@;
                let ghost gx = x;
                out.push(x);
                proof {
                    crate::json::lemma_jm_seq(items@);
                    assert(out@ =~= old_out.push(gx));
                    assert(posts_arr_jm(out@) =~= posts_arr_jm(old_out).push(post_jm(gx)));
                    assert(crate::json::jm_seq(items@)[k as int] == jm(items@[k as int]));
                    assert(posts_arr_jm(out@) =~= crate::json::jm_seq(items@).take(k + 1));
                }
                k = k + 1;
            }
            proof {
                crate::json::lemma_jm_seq(items@);
                assert(crate::json::jm_seq(items@).take(items@.len() as int)
                    =~= crate::json::jm_seq(items@));
                assert(jm(*j) == JModel::Arr(crate::json::jm_seq(items@)));
            }
            Some(out)
        },
        _ => None,
    }
}

/// Reads the API statistics: every value the writer gives one reads back.
fn api_of(j: &Json) -> (r: Option<ApiViewResponse>)
    ensures
        r matches Some(a) ==> jm(*j) == api_jm(a),
        (exists|a: ApiViewResponse| jm(*j) == api_jm(a)) ==> r is Some,
{
    proof {
        crate::json::lemma_jm_shape(*j);
    }
    match j {
        Json::Obj(fields) => {
            proof {
                crate::json::lemma_jm_fields(fields@);
                assert(jm(*j) == JModel::Obj(crate::json::jm_fields(fields@)));
            }
            if fields.len() != 5 {
                proof {
                    assert forall|a: ApiViewResponse| jm(*j) != api_jm(a) by {
                        if jm(*j) == api_jm(a) {
                            assert(crate::json::jm_fields(fields@) == api_fields_jm(a));
                        }
                    }
                }
                return None;
            }
            if !(key_is(&fields[0].0, &jkey("post_dislikes")) && key_is(
                &fields[1].0,
                &jkey("post_favorites"),
            ) && key_is(&fields[2].0, &jkey("post_id")) && key_is(
                &fields[3].0,
                &jkey("post_likes"),
            ) && key_is(&fields[4].0, &jkey("post_views"))) {
                proof {
                    assert forall|a: ApiViewResponse| jm(*j) != api_jm(a) by {
                        if jm(*j) == api_jm(a) {
                            assert(crate::json::jm_fields(fields@) == api_fields_jm(a));
                            assert(crate::json::jm_fields(fields@)[0].0 == "post_dislikes"@);
                            assert(crate::json::jm_fields(fields@)[1].0 == "post_favorites"@);
                            assert(crate::json::jm_fields(fields@)[2].0 == "post_id"@);
                            assert(crate::json::jm_fields(fields@)[3].0 == "post_likes"@);
                            assert(crate::json::jm_fields(fields@)[4].0 == "post_views"@);
                        }
                    }
                }
                return None;
            }
            let post_dislikes = match str_of(&fields[0].1) {
                Option::Some(s) => s,
                Option::None => {
                    proof {
                        assert forall|a: ApiViewResponse| jm(*j) != api_jm(a) by {
                            if jm(*j) == api_jm(a) {
                                assert(crate::json::jm_fields(fields@) == api_fields_jm(a));
                                assert(jm(fields@[0].1) == JModel::Str(a.post_dislikes@));
                            }
                        }
                    }
                    return None;
                },
            };
            let post_favorites = match str_of(&fields[1].1) {
                Option::Some(s) => s,
                Option::None => {
                    proof {
                        assert forall|a: ApiViewResponse| jm(*j) != api_jm(a) by {
                            if jm(*j) == api_jm(a) {
                                assert(crate::json::jm_fields(fields@) == api_fields_jm(a));
                                assert(jm(fields@[1].1) == JModel::Str(a.post_favorites@));
                            }
                        }
                    }
                    return None;
                },
            };
            let post_id = match i64_of(&fields[2].1) {
                Option::Some(x) => x,
                Option::None => {
                    proof {
                        assert forall|a: ApiViewResponse| jm(*j) != api_jm(a) by {
                            if jm(*j) == api_jm(a) {
                                assert(crate::json::jm_fields(fields@) == api_fields_jm(a));
                                assert(jm(fields@[2].1) == i64_jm(a.post_id));
                            }
                        }
                    }
                    return None;
                },
            };
            let post_likes = match str_of(&fields[3].1) {
                Option::Some(s) => s,
                Option::None => {
                    proof {
                        assert forall|a: ApiViewResponse| jm(*j) != api_jm(a) by {
                            if jm(*j) == api_jm(a) {
                                assert(crate::json::jm_fields(fields@) == api_fields_jm(a));
                                assert(jm(fields@[3].1) == JModel::Str(a.post_likes@));
                            }
                        }
                    }
                    return None;
                },
            };
            let post_views = match str_of(&fields[4].1) {
                Option::Some(s) => s,
                Option::None => {
                    proof {
                        assert forall|a: ApiViewResponse| jm(*j) != api_jm(a) by {
                            if jm(*j) == api_jm(a) {
                                assert(crate::json::jm_fields(fields@) == api_fields_jm(a));
                                assert(jm(fields@[4].1) == JModel::Str(a.post_views@));
                            }
                        }
                    }
                    return None;
                },
            };
            let a = ApiViewResponse {
                post_dislikes,
                post_favorites,
                post_id,
                post_likes,
                post_views,
            };
            proof {
                assert(crate::json::jm_fields(fields@) =~~= api_fields_jm(a));
            }
            Some(a)
        },
        _ => None,
    }
}


/// What a comment's member list forces: thirteen members with the fixed
/// keys, string counters, a signed like count, and children as an object
/// or nothing.
proof fn lemma_comment_witness(fields: Seq<(Vec<char>, Json)>, c: Comment)
    requires
        crate::json::jm_fields(fields) == comment_fields_jm(c),
    ensures
        fields.len() == 13,
        fields[0].0@ == "comment_ID"@ && jm(fields[0].1) == JModel::Str(c.comment_id@),
        fields[1].0@ == "comment_post_ID"@ && jm(fields[1].1) == JModel::Str(
            c.comment_post_id@,
        ),
        fields[2].0@ == "post_url"@ && jm(fields[2].1) == JModel::Str(c.post_url@),
        fields[3].0@ == "comment_author"@ && jm(fields[3].1) == JModel::Str(c.comment_author@),
        fields[4].0@ == "content"@ && jm(fields[4].1) == JModel::Str(c.content@),
        fields[5].0@ == "approved"@ && jm(fields[5].1) == JModel::Str(c.approved@),
        fields[6].0@ == "comment_parrent"@ && jm(fields[6].1) == JModel::Str(
            c.comment_parrent@,
        ),
        fields[7].0@ == "likes"@ && jm(fields[7].1) == i64_jm(c.likes),
        fields[8].0@ == "posted_on"@ && jm(fields[8].1) == JModel::Str(c.posted_on@),
        fields[9].0@ == "user_id"@ && jm(fields[9].1) == JModel::Str(c.user_id@),
        fields[10].0@ == "profile_pic"@ && jm(fields[10].1) == JModel::Str(c.profile_pic@),
        fields[11].0@ == "role"@ && jm(fields[11].1) == JModel::Str(c.role@),
        fields[12].0@ == "children"@,
        c.children matches Some(v) ==> jm(fields[12].1) == JModel::Obj(children_jm(v@)),
        c.children is None ==> jm(fields[12].1) == JModel::Null,
{
    crate::json::lemma_jm_fields(fields);
}

/// Reads one comment with its nested children: every value the writer
/// gives one reads back.
fn comment_of(j: &Json, fuel: Ghost<nat>) -> (r: Option<Comment>)
    requires
        jdepth(jm(*j)) <= fuel@,
    ensures
        r matches Some(c) ==> jm(*j) == comment_jm(c),
        (exists|c: Comment| jm(*j) == comment_jm(c)) ==> r is Some,
    decreases fuel@,
{
    proof {
        crate::json::lemma_jm_shape(*j);
    }
    match j {
        Json::Obj(fields) => {
            if fields.len() != 13 {
                proof {
                    assert forall|c: Comment| jm(*j) != comment_jm(c) by {
                        if jm(*j) == comment_jm(c) {
                            assert(crate::json::jm_fields(fields@) == comment_fields_jm(c));
                            lemma_comment_witness(fields@, c);
                        }
                    }
                }
                return None;
            }
            proof {
                crate::json::lemma_jm_fields(fields@);
            }
            if !(key_is(&fields[0].0, &jkey("comment_ID")) && key_is(
                &fields[1].0,
                &jkey("comment_post_ID"),
            ) && key_is(&fields[2].0, &jkey("post_url")) && key_is(
                &fields[3].0,
                &jkey("comment_author"),
            ) && key_is(&fields[4].0, &jkey("content")) && key_is(&fields[5].0, &jkey("approved"))
                && key_is(&fields[6].0, &jkey("comment_parrent")) && key_is(
                &fields[7].0,
                &jkey("likes"),
            ) && key_is(&fields[8].0, &jkey("posted_on")) && key_is(&fields[9].0, &jkey("user_id"))
                && key_is(&fields[10].0, &jkey("profile_pic")) && key_is(
                &fields[11].0,
                &jkey("role"),
            ) && key_is(&fields[12].0, &jkey("children"))) {
                proof {
                    assert forall|c: Comment| jm(*j) != comment_jm(c) by {
                        if jm(*j) == comment_jm(c) {
                            assert(crate::json::jm_fields(fields@) == comment_fields_jm(c));
                            lemma_comment_witness(fields@, c);
                        }
                    }
                }
                return None;
            }
            let comment_id = match str_of(&fields[0].1) {
                Option::Some(s) => s,
                Option::None => {
                    proof {
                        assert forall|c: Comment| jm(*j) != comment_jm(c) by {
                            if jm(*j) == comment_jm(c) {
                                assert(crate::json::jm_fields(fields@) == comment_fields_jm(c));
                                lemma_comment_witness(fields@, c);
                            }
                        }
                    }
                    return None;
                },
            };
            let comment_post_id = match str_of(&fields[1].1) {
                Option::Some(s) => s,
                Option::None => {
                    proof {
                        assert forall|c: Comment| jm(*j) != comment_jm(c) by {
                            if jm(*j) == comment_jm(c) {
                                assert(crate::json::jm_fields(fields@) == comment_fields_jm(c));
                                lemma_comment_witness(fields@, c);
                            }
                        }
                    }
                    return None;
                },
            };
            let post_url = match str_of(&fields[2].1) {
                Option::Some(s) => s,
                Option::None => {
                    proof {
                        assert forall|c: Comment| jm(*j) != comment_jm(c) by {
                            if jm(*j) == comment_jm(c) {
                                assert(crate::json::jm_fields(fields@) == comment_fields_jm(c));
                                lemma_comment_witness(fields@, c);
                            }
                        }
                    }
                    return None;
                },
            };
            let comment_author = match str_of(&fields[3].1) {
                Option::Some(s) => s,
                Option::None => {
                    proof {
                        assert forall|c: Comment| jm(*j) != comment_jm(c) by {
                            if jm(*j) == comment_jm(c) {
                                assert(crate::json::jm_fields(fields@) == comment_fields_jm(c));
                                lemma_comment_witness(fields@, c);
                            }
                        }
                    }
                    return None;
                },
            };
            let content = match str_of(&fields[4].1) {
                Option::Some(s) => s,
                Option::None => {
                    proof {
                        assert forall|c: Comment| jm(*j) != comment_jm(c) by {
                            if jm(*j) == comment_jm(c) {
                                assert(crate::json::jm_fields(fields@) == comment_fields_jm(c));
                                lemma_comment_witness(fields@, c);
                            }
                        }
                    }
                    return None;
                },
            };
            let approved = match str_of(&fields[5].1) {
                Option::Some(s) => s,
                Option::None => {
                    proof {
                        assert forall|c: Comment| jm(*j) != comment_jm(c) by {
                            if jm(*j) == comment_jm(c) {
                                assert(crate::json::jm_fields(fields@) == comment_fields_jm(c));
                                lemma_comment_witness(fields@, c);
                            }
                        }
                    }
                    return None;
                },
            };
            let comment_parrent = match str_of(&fields[6].1) {
                Option::Some(s) => s,
                Option::None => {
                    proof {
                        assert forall|c: Comment| jm(*j) != comment_jm(c) by {
                            if jm(*j) == comment_jm(c) {
                                assert(crate::json::jm_fields(fields@) == comment_fields_jm(c));
                                lemma_comment_witness(fields@, c);
                            }
                        }
                    }
                    return None;
                },
            };
            let likes = match i64_of(&fields[7].1) {
                Option::Some(x) => x,
                Option::None => {
                    proof {
                        assert forall|c: Comment| jm(*j) != comment_jm(c) by {
                            if jm(*j) == comment_jm(c) {
                                assert(crate::json::jm_fields(fields@) == comment_fields_jm(c));
                                lemma_comment_witness(fields@, c);
                            }
                        }
                    }
                    return None;
                },
            };
            let posted_on = match str_of(&fields[8].1) {
                Option::Some(s) => s,
                Option::None => {
                    proof {
                        assert forall|c: Comment| jm(*j) != comment_jm(c) by {
                            if jm(*j) == comment_jm(c) {
                                assert(crate::json::jm_fields(fields@) == comment_fields_jm(c));
                                lemma_comment_witness(fields@, c);
                            }
                        }
                    }
                    return None;
                },
            };
            let user_id = match str_of(&fields[9].1) {
                Option::Some(s) => s,
                Option::None => {
                    proof {
                        assert forall|c: Comment| jm(*j) != comment_jm(c) by {
                            if jm(*j) == comment_jm(c) {
                                assert(crate::json::jm_fields(fields@) == comment_fields_jm(c));
                                lemma_comment_witness(fields@, c);
                            }
                        }
                    }
                    return None;
                },
            };
            let profile_pic = match str_of(&fields[10].1) {
                Option::Some(s) => s,
                Option::None => {
                    proof {
                        assert forall|c: Comment| jm(*j) != comment_jm(c) by {
                            if jm(*j) == comment_jm(c) {
                                assert(crate::json::jm_fields(fields@) == comment_fields_jm(c));
                                lemma_comment_witness(fields@, c);
                            }
                        }
                    }
                    return None;
                },
            };
            let role = match str_of(&fields[11].1) {
                Option::Some(s) => s,
                Option::None => {
                    proof {
                        assert forall|c: Comment| jm(*j) != comment_jm(c) by {
                            if jm(*j) == comment_jm(c) {
                                assert(crate::json::jm_fields(fields@) == comment_fields_jm(c));
                                lemma_comment_witness(fields@, c);
                            }
                        }
                    }
                    return None;
                },
            };
            let children: Option<Vec<CommentChild>> = match &fields[12].1 {
                Json::Null => None,
                Json::Obj(chfields) => {
                    let ghost chm = crate::json::jm_fields(chfields@);
                    proof {
                        crate::json::lemma_jm_fields(chfields@);
                        lemma_jdepth_fields(crate::json::jm_fields(fields@));
                        assert(crate::json::jm_fields(fields@)[12].1 == jm(fields@[12].1));
                        assert(jm(fields@[12].1) == JModel::Obj(chm));
                    }
                    let mut out: Vec<CommentChild> = Vec::new();
                    let mut k: usize = 0;
                    proof {
                        lemma_children_jm_index(out@);
                        assert(children_jm(out@) =~= chm.take(0));
                    }
                    while k < chfields.len()
                        invariant
                            0 <= k <= chfields@.len(),
                            chm == crate::json::jm_fields(chfields@),
                            chm.len() == chfields@.len(),
                            jm(*j) == JModel::Obj(crate::json::jm_fields(fields@)),
                            crate::json::jm_fields(fields@).len() == 13,
                            crate::json::jm_fields(fields@)[12].1 == JModel::Obj(chm),
                            jdepth(jm(*j)) <= fuel@,
                            children_jm(out@) == chm.take(k as int),
                            out@.len() == k,
                        decreases chfields@.len() - k,
                    {
                        proof {
                            crate::json::lemma_jm_fields(chfields@);
                            lemma_jdepth_fields(crate::json::jm_fields(fields@));
                            lemma_jdepth_fields(chm);
                            assert(chm[k as int].1 == jm(chfields@[k as int].1));
                            assert(jdepth(jm(chfields@[k as int].1)) <= jdepth_fields(chm));
                            assert(jdepth(JModel::Obj(chm)) == 1 + jdepth_fields(chm));
                            assert(jdepth(crate::json::jm_fields(fields@)[12].1)
                                <= jdepth_fields(crate::json::jm_fields(fields@)));
                            assert(jdepth(jm(*j)) == 1 + jdepth_fields(
                                crate::json::jm_fields(fields@),
                            ));
                            assert(jdepth(jm(chfields@[k as int].1)) + 2 <= fuel@);
                        }
                        let key = chars_to_string(&chfields[k].0);
                        let c = match comment_of(&chfields[k].1, Ghost((fuel@ - 2) as nat)) {
                            Option::Some(c) => c,
                            Option::None => {
                                proof {
                                    assert forall|c0: Comment| jm(*j) != comment_jm(c0) by {
                                        if jm(*j) == comment_jm(c0) {
                                            assert(crate::json::jm_fields(fields@)
                                                == comment_fields_jm(c0));
                                            lemma_comment_witness(fields@, c0);
                                            match c0.children {
                                                Option::Some(v) => {
                                                    assert(chm == children_jm(v@));
                                                    lemma_children_jm_index(v@);
                                                    assert(chm[k as int].1 == comment_jm(
                                                        v@[k as int].comment,
                                                    ));
                                                },
                                                Option::None => {},
                                            }
                                        }
                                    }
                                }
                                return None;
                            },
                        };
                        let ghost old_out = out@;
                        let ghost gkey = key@;
                        let ghost gc = c;
                        out.push(CommentChild { key, comment: c });
                        proof {
                            lemma_children_jm_index(out@);
                            lemma_children_jm_index(old_out);
                            assert forall|q: int|
                                0 <= q < out@.len() implies children_jm(out@)[q] == chm.take(
                                k + 1,
                            )[q] by {
                                if q < k {
                                    assert(out@[q] == old_out[q]);
                                    assert(children_jm(old_out)[q] == chm.take(k as int)[q]);
                                } else {
                                    assert(out@[q] == CommentChild { key: out@[q].key, comment: out@[q].comment } || true);
                                    assert(children_jm(out@)[q] == (out@[q].key@, comment_jm(
                                        out@[q].comment,
                                    )));
                                    assert(chm[k as int] == (chfields@[k as int].0@, jm(
                                        chfields@[k as int].1,
                                    )));
                                }
                            }
                            assert(children_jm(out@) =~= chm.take(k + 1));
                        }
                        k = k + 1;
                    }
                    proof {
                        assert(chm.take(chfields@.len() as int) =~= chm);
                    }
                    Some(out)
                },
                _ => {
                    proof {
                        crate::json::lemma_jm_shape(fields@[12].1);
                        assert forall|c: Comment| jm(*j) != comment_jm(c) by {
                            if jm(*j) == comment_jm(c) {
                                assert(crate::json::jm_fields(fields@) == comment_fields_jm(c));
                                lemma_comment_witness(fields@, c);
                            }
                        }
                    }
                    return None;
                },
            };
            let c = Comment {
                comment_id,
                comment_post_id,
                post_url,
                comment_author,
                content,
                approved,
                comment_parrent,
                likes,
                posted_on,
                user_id,
                profile_pic,
                role,
                children,
            };
            proof {
                crate::json::lemma_jm_fields(fields@);
                assert(crate::json::jm_fields(fields@) =~~= comment_fields_jm(c));
                assert(jm(*j) == JModel::Obj(crate::json::jm_fields(fields@)));
            }
            Some(c)
        },
        _ => None,
    }
}

/// Reads the comment list.
fn comments_of(j: &Json) -> (r: Option<Vec<Comment>>)
    ensures
        r matches Some(v) ==> jm(*j) == JModel::Arr(comments_jm(v@)),
        (exists|v: Seq<Comment>| jm(*j) == JModel::Arr(comments_jm(v))) ==> r is Some,
{
    proof {
        crate::json::lemma_jm_shape(*j);
    }
    match j {
        Json::Arr(items) => {
            let mut out: Vec<Comment> = Vec::new();
            let mut k: usize = 0;
            proof {
                crate::json::lemma_jm_seq(items@);
                lemma_comments_jm_index(out@);
                assert(jm(*j) == JModel::Arr(crate::json::jm_seq(items@)));
                assert(comments_jm(out@) =~= crate::json::jm_seq(items@).take(0));
            }
            while k < items.len()
                invariant
                    0 <= k <= items@.len(),
                    jm(*j) == JModel::Arr(crate::json::jm_seq(items@)),
                    comments_jm(out@) == crate::json::jm_seq(items@).take(k as int),
                    out@.len() == k,
                decreases items@.len() - k,
            {
                let x = match comment_of(&items[k], Ghost(jdepth(jm(items@[k as int])))) {
                    Option::Some(x) => x,
                    Option::None => {
                        proof {
                            assert forall|v: Seq<Comment>|
                                jm(*j) != JModel::Arr(comments_jm(v)) by {
                                if jm(*j) == JModel::Arr(comments_jm(v)) {
                                    crate::json::lemma_jm_seq(items@);
                                    assert(crate::json::jm_seq(items@) == comments_jm(v));
                                    lemma_comments_jm_index(v);
                                    assert(jm(items@[k as int]) == comments_jm(v)[k as int]);
                                    assert(comments_jm(v)[k as int] == comment_jm(
                                        v[k as int],
                                    ));
                                }
                            }
                        }
                        return None;
                    },
                };
                let ghost old_out = out@;
                let ghost gx = x;
                out.push(x);
                proof {
                    crate::json::lemma_jm_seq(items@);
                    lemma_comments_jm_index(out@);
                    lemma_comments_jm_index(old_out);
                    assert forall|q: int|
                        0 <= q < out@.len() implies comments_jm(out@)[q]
                            == crate::json::jm_seq(items@).take(k + 1)[q] by {
                        if q < k {
                            assert(out@[q] == old_out[q]);
                            assert(comments_jm(old_out)[q] == crate::json::jm_seq(
                                items@,
                            ).take(k as int)[q]);
                        } else {
                            assert(comments_jm(out@)[q] == comment_jm(out@[q]));
                            assert(crate::json::jm_seq(items@)[k as int] == jm(
                                items@[k as int],
                            ));
                        }
                    }
                    assert(comments_jm(out@) =~= crate::json::jm_seq(items@).take(k + 1));
                }
                k = k + 1;
            }
            proof {
                crate::json::lemma_jm_seq(items@);
                assert(crate::json::jm_seq(items@).take(items@.len() as int)
                    =~= crate::json::jm_seq(items@));
                assert(jm(*j) == JModel::Arr(crate::json::jm_seq(items@)));
            }
            Some(out)
        },
        _ => None,
    }
}


/// What the export record's member list forces: twelve members with the
/// fixed keys and the field shapes the writer lays down.
proof fn lemma_export_witness(fields: Seq<(Vec<char>, Json)>, e: ExportV7)
    requires
        crate::json::jm_fields(fields) == export_fields_jm(e),
    ensures
        fields.len() == 12,
        fields[0].0@ == "hdpc_dl_version"@ && jm(fields[0].1) == i32_jm(e.hdpc_dl_version),
        fields[1].0@ == "program_version"@ && jm(fields[1].1) == JModel::Str(
            e.program_version@,
        ),
        fields[2].0@ == "post_id"@ && jm(fields[2].1) == u64_jm(e.post_id),
        fields[3].0@ == "title"@ && jm(fields[3].1) == JModel::Str(e.title@),
        fields[4].0@ == "api_stats"@ && jm(fields[4].1) == api_jm(e.api_stats),
        fields[5].0@ == "comment_count"@ && jm(fields[5].1) == JModel::Str(e.comment_count@),
        fields[6].0@ == "download_date"@ && jm(fields[6].1) == JModel::Str(e.download_date@),
        fields[7].0@ == "source_url"@ && jm(fields[7].1) == JModel::Str(e.source_url@),
        fields[8].0@ == "metadata"@ && jm(fields[8].1) == JModel::Arr(
            rows_arr_jm(e.metadata@),
        ),
        fields[9].0@ == "chapters"@ && jm(fields[9].1) == JModel::Arr(
            posts_arr_jm(e.chapters@),
        ),
        fields[10].0@ == "picture_urls"@ && jm(fields[10].1) == JModel::Arr(
            strings_jm(e.picture_urls@),
        ),
        fields[11].0@ == "comments"@,
        e.comments matches Some(v) ==> jm(fields[11].1) == JModel::Arr(comments_jm(v@)),
        e.comments is None ==> jm(fields[11].1) == JModel::Null,
{
    crate::json::lemma_jm_fields(fields);
}

/// Reads a whole export record back from its JSON value: every record the
/// writer gives one reads back.
pub fn export_from_json(j: &Json) -> (r: Option<ExportV7>)
    ensures
        r matches Some(e) ==> jm(*j) == export_jm(e),
        (exists|e: ExportV7| jm(*j) == export_jm(e)) ==> r is Some,
{
    proof {
        crate::json::lemma_jm_shape(*j);
    }
    match j {
        Json::Obj(fields) => {
            if fields.len() != 12 {
                proof {
                    assert forall|e0: ExportV7| jm(*j) != export_jm(e0) by {
                        if jm(*j) == export_jm(e0) {
                            assert(crate::json::jm_fields(fields@) == export_fields_jm(e0));
                            lemma_export_witness(fields@, e0);
                        }
                    }
                }
                return None;
            }
            proof {
                crate::json::lemma_jm_fields(fields@);
            }
            if !(key_is(&fields[0].0, &jkey("hdpc_dl_version")) && key_is(
                &fields[1].0,
                &jkey("program_version"),
            ) && key_is(&fields[2].0, &jkey("post_id")) && key_is(&fields[3].0, &jkey("title"))
                && key_is(&fields[4].0, &jkey("api_stats")) && key_is(
                &fields[5].0,
                &jkey("comment_count"),
            ) && key_is(&fields[6].0, &jkey("download_date")) && key_is(
                &fields[7].0,
                &jkey("source_url"),
            ) && key_is(&fields[8].0, &jkey("metadata")) && key_is(&fields[9].0, &jkey("chapters"))
                && key_is(&fields[10].0, &jkey("picture_urls")) && key_is(
                &fields[11].0,
                &jkey("comments"),
            )) {
                proof {
                    assert forall|e0: ExportV7| jm(*j) != export_jm(e0) by {
                        if jm(*j) == export_jm(e0) {
                            assert(crate::json::jm_fields(fields@) == export_fields_jm(e0));
                            lemma_export_witness(fields@, e0);
                        }
                    }
                }
                return None;
            }
            let hdpc_dl_version = match i32_of(&fields[0].1) {
                Option::Some(x) => x,
                Option::None => {
                    proof {
                        assert forall|e0: ExportV7| jm(*j) != export_jm(e0) by {
                            if jm(*j) == export_jm(e0) {
                                assert(crate::json::jm_fields(fields@) == export_fields_jm(e0));
                                lemma_export_witness(fields@, e0);
                            }
                        }
                    }
                    return None;
                },
            };
            let program_version = match str_of(&fields[1].1) {
                Option::Some(s) => s,
                Option::None => {
                    proof {
                        assert forall|e0: ExportV7| jm(*j) != export_jm(e0) by {
                            if jm(*j) == export_jm(e0) {
                                assert(crate::json::jm_fields(fields@) == export_fields_jm(e0));
                                lemma_export_witness(fields@, e0);
                            }
                        }
                    }
                    return None;
                },
            };
            let post_id = match u64_of(&fields[2].1) {
                Option::Some(x) => x,
                Option::None => {
                    proof {
                        assert forall|e0: ExportV7| jm(*j) != export_jm(e0) by {
                            if jm(*j) == export_jm(e0) {
                                assert(crate::json::jm_fields(fields@) == export_fields_jm(e0));
                                lemma_export_witness(fields@, e0);
                            }
                        }
                    }
                    return None;
                },
            };
            let title = match str_of(&fields[3].1) {
                Option::Some(s) => s,
                Option::None => {
                    proof {
                        assert forall|e0: ExportV7| jm(*j) != export_jm(e0) by {
                            if jm(*j) == export_jm(e0) {
                                assert(crate::json::jm_fields(fields@) == export_fields_jm(e0));
                                lemma_export_witness(fields@, e0);
                            }
                        }
                    }
                    return None;
                },
            };
            let api_stats = match api_of(&fields[4].1) {
                Option::Some(a) => a,
                Option::None => {
                    proof {
                        assert forall|e0: ExportV7| jm(*j) != export_jm(e0) by {
                            if jm(*j) == export_jm(e0) {
                                assert(crate::json::jm_fields(fields@) == export_fields_jm(e0));
                                lemma_export_witness(fields@, e0);
                            }
                        }
                    }
                    return None;
                },
            };
            let comment_count = match str_of(&fields[5].1) {
                Option::Some(s) => s,
                Option::None => {
                    proof {
                        assert forall|e0: ExportV7| jm(*j) != export_jm(e0) by {
                            if jm(*j) == export_jm(e0) {
                                assert(crate::json::jm_fields(fields@) == export_fields_jm(e0));
                                lemma_export_witness(fields@, e0);
                            }
                        }
                    }
                    return None;
                },
            };
            let download_date = match str_of(&fields[6].1) {
                Option::Some(s) => s,
                Option::None => {
                    proof {
                        assert forall|e0: ExportV7| jm(*j) != export_jm(e0) by {
                            if jm(*j) == export_jm(e0) {
                                assert(crate::json::jm_fields(fields@) == export_fields_jm(e0));
                                lemma_export_witness(fields@, e0);
                            }
                        }
                    }
                    return None;
                },
            };
            let source_url = match str_of(&fields[7].1) {
                Option::Some(s) => s,
                Option::None => {
                    proof {
                        assert forall|e0: ExportV7| jm(*j) != export_jm(e0) by {
                            if jm(*j) == export_jm(e0) {
                                assert(crate::json::jm_fields(fields@) == export_fields_jm(e0));
                                lemma_export_witness(fields@, e0);
                            }
                        }
                    }
                    return None;
                },
            };
            let metadata = match rows_of(&fields[8].1) {
                Option::Some(v) => v,
                Option::None => {
                    proof {
                        assert forall|e0: ExportV7| jm(*j) != export_jm(e0) by {
                            if jm(*j) == export_jm(e0) {
                                assert(crate::json::jm_fields(fields@) == export_fields_jm(e0));
                                lemma_export_witness(fields@, e0);
                            }
                        }
                    }
                    return None;
                },
            };
            let chapters = match posts_of(&fields[9].1) {
                Option::Some(v) => v,
                Option::None => {
                    proof {
                        assert forall|e0: ExportV7| jm(*j) != export_jm(e0) by {
                            if jm(*j) == export_jm(e0) {
                                assert(crate::json::jm_fields(fields@) == export_fields_jm(e0));
                                lemma_export_witness(fields@, e0);
                            }
                        }
                    }
                    return None;
                },
            };
            let picture_urls = match strings_of(&fields[10].1) {
                Option::Some(v) => v,
                Option::None => {
                    proof {
                        assert forall|e0: ExportV7| jm(*j) != export_jm(e0) by {
                            if jm(*j) == export_jm(e0) {
                                assert(crate::json::jm_fields(fields@) == export_fields_jm(e0));
                                lemma_export_witness(fields@, e0);
                            }
                        }
                    }
                    return None;
                },
            };
            let comments: Option<Vec<Comment>> = match &fields[11].1 {
                Json::Null => None,
                _ => {
                    match comments_of(&fields[11].1) {
                        Option::Some(v) => Some(v),
                        Option::None => {
                            proof {
                                crate::json::lemma_jm_shape(fields@[11].1);
                                assert forall|e0: ExportV7| jm(*j) != export_jm(e0) by {
                                    if jm(*j) == export_jm(e0) {
                                        assert(crate::json::jm_fields(fields@)
                                            == export_fields_jm(e0));
                                        lemma_export_witness(fields@, e0);
                                    }
                                }
                            }
                            return None;
                        },
                    }
                },
            };
            let e = ExportV7 {
                hdpc_dl_version,
                program_version,
                post_id,
                title,
                api_stats,
                comment_count,
                download_date,
                source_url,
                metadata,
                chapters,
                picture_urls,
                comments,
            };
            proof {
                assert(crate::json::jm_fields(fields@) =~~= export_fields_jm(e));
                assert(jm(*j) == JModel::Obj(crate::json::jm_fields(fields@)));
            }
            Some(e)
        },
        _ => None,
    }
}

/// Reads one manifest document back as an export record: the reader half
/// of the export writer. It accepts every document the writer emits.
pub fn parse_export(text: &str) -> (r: Option<ExportV7>)
    ensures
        r matches Some(e) ==> parse_doc(text@) == Some(export_jm(e)),
        (exists|e: ExportV7| parse_doc(text@) == Some(export_jm(e))) ==> r is Some,
{
    match parse_manifest(text) {
        Option::Some(j) => export_from_json(&j),
        Option::None => None,
    }
}

} // verus!

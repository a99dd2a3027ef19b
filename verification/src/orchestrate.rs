//! The download-and-export decisions: field assembly for one target, the
//! retry policy, the comment-feed drain plan, page discovery, and the
//! on-disk naming conventions. All network and file work stays outside;
//! these functions turn fetched text and reported numbers into records,
//! names and next steps.
use vstd::prelude::*;

use crate::data::ApiViewResponse;
use crate::data::Comment;
use crate::data::ExportV7;
use crate::data::InfoboxRow;
use crate::data::Post;
use crate::data::RawInfoBoxRow;
use crate::data::ResPage;
use crate::extract::chapters_from;
use crate::extract::classify_row;
use crate::extract::extract_chapters;
use crate::extract::extract_comment_count;
use crate::extract::extract_from_infobox_row;
use crate::extract::extract_image_urls;
use crate::extract::extract_info_box_rows;
use crate::extract::extract_post_id;
use crate::extract::extract_res_page_links;
use crate::extract::extract_title;
use crate::extract::image_urls_from;
use crate::extract::res_pages_from;
use crate::extract::row_model;
use crate::extract::rows_from;
use crate::extract::spec_extract_comment_count;
use crate::extract::spec_extract_post_id;
use crate::extract::spec_extract_title;
use crate::numbers::dec_digits;
use crate::numbers::u64_to_dec;
use crate::scan::copy_range;
use crate::scan::first_char_at;
use crate::text::chars_to_string;
use crate::text::str_to_chars;

verus! {

/// The seconds one retry waits before the next attempt.
pub const BACKOFF_SECS: u64 = 10;

/// The schema version every new manifest carries.
pub const EXPORT_SCHEMA_VERSION: i32 = 7;

/// The schema version every new crawl-result record carries.
pub const CRAWL_SCHEMA_VERSION: i32 = 6;

/// Why one target cannot be exported.
#[derive(Clone, Copy, Debug, PartialEq, Eq, Structural)]
pub enum DownloadError {
    /// The page's title pattern did not match.
    TitleNotFound,
    /// The page's post-id anchor did not match.
    PostIdNotFound,
}

impl DownloadError {
    /// The message the batch loop prints for this failure.
    pub fn message(&self) -> (r: String)
        ensures
            *self is TitleNotFound ==> r@ == "Couldn't extract title"@,
            *self is PostIdNotFound ==> r@ == "Couldn't extract post id"@,
    {
        match self {
            DownloadError::TitleNotFound => "Couldn't extract title".to_owned(),
            DownloadError::PostIdNotFound => "Couldn't extract post id".to_owned(),
        }
    }
}

/// Builds the export record for one fetched post page: a missing title or
/// post id is fatal for the target; a missing comment count is tolerated
/// as empty text; chapters, metadata rows and picture links may be empty.
pub fn build_export(
    text: &str,
    url: &str,
    program_version: &str,
    download_date: &str,
    api_stats: ApiViewResponse,
    comments: Option<Vec<Comment>>,
) -> (r: Result<ExportV7, DownloadError>)
    ensures
        r is Ok <==> (spec_extract_title(text@) is Some && spec_extract_post_id(
            text@,
        ) is Some),
        r == Err::<ExportV7, DownloadError>(DownloadError::TitleNotFound) <==> spec_extract_title(
            text@,
        ) is None,
        r matches Ok(e) ==> {
            &&& Some(e.title@) == spec_extract_title(text@)
            &&& Some(e.post_id) == spec_extract_post_id(text@)
            &&& e.hdpc_dl_version == EXPORT_SCHEMA_VERSION
            &&& e.program_version@ == program_version@
            &&& e.download_date@ == download_date@
            &&& e.source_url@ == url@
            &&& (match spec_extract_comment_count(text@) {
                Option::Some(s) => e.comment_count@ == s,
                Option::None => e.comment_count@ == Seq::<char>::empty(),
            })
            &&& e.metadata@.len() == rows_from(text@, 0).len()
            &&& (forall|k: int|
                0 <= k < e.metadata@.len() ==> row_model(#[trigger] e.metadata@[k])
                    == classify_row(rows_from(text@, 0)[k].0, rows_from(text@, 0)[k].1))
            &&& e.chapters@.map_values(|p: Post| (p.name@, p.url@)) == chapters_from(text@, 0)
            &&& e.picture_urls@.map_values(|s: String| s@) == image_urls_from(text@, 0)
            &&& e.api_stats == api_stats
            &&& e.comments == comments
        },
{
    let title = match extract_title(text) {
        Option::Some(t) => t,
        Option::None => {
            return Err(DownloadError::TitleNotFound);
        },
    };
    let post_id = match extract_post_id(text) {
        Option::Some(p) => p,
        Option::None => {
            return Err(DownloadError::PostIdNotFound);
        },
    };
    let comment_count = match extract_comment_count(text) {
        Option::Some(c) => c,
        Option::None => String::new(),
    };
    let chapters = extract_chapters(text);
    let picture_urls = extract_image_urls(text);
    let raw_rows = extract_info_box_rows(text);
    let ghost pairs = rows_from(text@, 0);
    let mut metadata: Vec<InfoboxRow> = Vec::new();
    let mut rows = raw_rows;
    let ghost rows0 = rows@;
    let n0 = rows.len();
    proof {
        assert(rows0.len() == n0);
    }
    let mut k: usize = 0;
    while rows.len() > 0
        invariant
            rows0.len() == n0,
            k + rows@.len() == rows0.len(),
            rows0.map_values(|x: RawInfoBoxRow| (x.name@, x.html@)) == pairs,
            rows@ == rows0.skip(k as int),
            metadata@.len() == k,
            forall|q: int|
                0 <= q < k ==> row_model(#[trigger] metadata@[q]) == classify_row(
                    pairs[q].0,
                    pairs[q].1,
                ),
        decreases rows@.len(),
    {
        let ghost rbefore = rows@;
        let row = rows.remove(0);
        proof {
            assert(rows@ =~= rbefore.skip(1));
            assert(rbefore.skip(1) =~= rows0.skip(k + 1));
            assert(row == rows0[k as int]);
            assert(rows0.map_values(|x: RawInfoBoxRow| (x.name@, x.html@))[k as int] == (
                row.name@,
                row.html@,
            ));
        }
        let ghost rname = row.name@;
        let ghost rhtml = row.html@;
        let classified = extract_from_infobox_row(row);
        metadata.push(classified);
        proof {
            assert(pairs[k as int] == (rname, rhtml));
            assert(row_model(metadata@[k as int]) == classify_row(rname, rhtml));
        }
        k = k + 1;
    }
    Ok(
        ExportV7 {
            hdpc_dl_version: EXPORT_SCHEMA_VERSION,
            program_version: program_version.to_owned(),
            post_id,
            title,
            api_stats,
            comment_count,
            download_date: download_date.to_owned(),
            source_url: url.to_owned(),
            metadata,
            chapters,
            picture_urls,
            comments,
        },
    )
}

/// What the batch loop does after one failed target attempt.
#[derive(Clone, Copy, Debug, PartialEq, Eq, Structural)]
pub enum RetryDecision {
    /// Wait the fixed backoff and try the same target again.
    RetryAfterBackoff,
    /// Give up: the failure propagates and the whole batch stops.
    AbortBatch,
}

/// The retry policy: after incrementing the per-target counter, the batch
/// aborts once the counter exceeds the allowance.
pub fn retry_decision(retries_done: u64, max_retries: u64) -> (r: RetryDecision)
    ensures
        r == (if retries_done > max_retries {
            RetryDecision::AbortBatch
        } else {
            RetryDecision::RetryAfterBackoff
        }),
{
    if retries_done > max_retries {
        RetryDecision::AbortBatch
    } else {
        RetryDecision::RetryAfterBackoff
    }
}

/// What a crawl does once the crawl-result record is written.
#[derive(Clone, Copy, Debug, PartialEq, Eq, Structural)]
pub enum CrawlStep {
    /// Stop successfully without invoking the downloader: the caller asked
    /// for no downloads.
    Stop,
    /// Report the skipped pages and stop successfully: the window left no
    /// targets.
    ReportEmpty,
    /// Download every windowed target, in list order.
    DownloadAll,
}

/// The decision point after the crawl-result record is written.
pub fn crawl_after_manifest(no_download: bool, targets_len: usize) -> (r: CrawlStep)
    ensures
        no_download ==> r == CrawlStep::Stop,
        !no_download && targets_len == 0 ==> r == CrawlStep::ReportEmpty,
        !no_download && targets_len > 0 ==> r == CrawlStep::DownloadAll,
{
    if no_download {
        CrawlStep::Stop
    } else if targets_len == 0 {
        CrawlStep::ReportEmpty
    } else {
        CrawlStep::DownloadAll
    }
}

/// The result pages a crawl walks: the extracted pagination links when
/// paging is on and the page has any, else the start page alone as page 1.
pub fn discover_pages(start_url: &str, text: &str, paging: bool) -> (r: Vec<ResPage>)
    ensures
        paging && res_pages_from(text@, 0).len() > 0 ==> r@.map_values(
            |p: ResPage| (p.url@, p.number),
        ) == res_pages_from(text@, 0),
        !(paging && res_pages_from(text@, 0).len() > 0) ==> r@.len() == 1 && r@[0].url@
            == start_url@ && r@[0].number == 1,
{
    if paging {
        let pages = extract_res_page_links(text);
        if pages.len() > 0 {
            proof {
                assert(res_pages_from(text@, 0).len() == pages@.map_values(
                    |p: ResPage| (p.url@, p.number),
                ).len());
            }
            return pages;
        }
    }
    let mut one: Vec<ResPage> = Vec::new();
    one.push(ResPage { url: start_url.to_owned(), number: 1 });
    one
}

/// The statistics API route. The remote keys its reply on the Referer
/// header, which must equal the exact post address being asked about,
/// not a path parameter.
pub fn stats_api_url() -> (r: String)
    ensures
        r@ == "https://hdporncomics.com/?rest_route=%2Fapi%2Fv1%2Fview"@,
{
    "https://hdporncomics.com/?rest_route=%2Fapi%2Fv1%2Fview".to_owned()
}

/// The address of one comment-feed page for one post.
pub fn comment_page_url(post_id: u64, page_no: u64) -> (r: String)
    ensures
        r@ == "https://hdporncomics.com/wp-json/api/v1/comments/"@ + dec_digits(post_id as nat)
            + "?page_no="@ + dec_digits(page_no as nat),
{
    let mut out = str_to_chars("https://hdporncomics.com/wp-json/api/v1/comments/");
    let mut ids = u64_to_dec(post_id);
    out.append(&mut ids);
    let mut qs = str_to_chars("?page_no=");
    out.append(&mut qs);
    let mut pn = u64_to_dec(page_no);
    out.append(&mut pn);
    chars_to_string(&out)
}

/// The comment pages still to fetch once page one reported the total:
/// pages two up to the total, in order; nothing when one page is all.
pub fn remaining_comment_pages(total_pages: i64) -> (r: Vec<i64>)
    ensures
        total_pages >= 2 ==> r@.len() == total_pages - 1,
        total_pages < 2 ==> r@.len() == 0,
        forall|k: int| 0 <= k < r@.len() ==> r@[k] == k + 2,
{
    let mut r: Vec<i64> = Vec::new();
    if total_pages < 2 {
        return r;
    }
    let mut i: i64 = 0;
    while i < total_pages - 1
        invariant
            2 <= total_pages,
            0 <= i <= total_pages - 1,
            r@.len() == i,
            forall|k: int| 0 <= k < r@.len() ==> r@[k] == k + 2,
        decreases total_pages - 1 - i,
    {
        r.push(i + 2);
        i = i + 1;
    }
    r
}

/// The comment pages, drained in order and concatenated.
pub open spec fn flatten_comment_pages(pp: Seq<Vec<Comment>>) -> Seq<Comment>
    decreases pp.len(),
{
    if pp.len() == 0 {
        Seq::empty()
    } else {
        pp[0]@ + flatten_comment_pages(pp.subrange(1, pp.len() as int))
    }
}

/// Concatenates fully drained comment pages in page order.
pub fn concat_comment_pages(pages: Vec<Vec<Comment>>) -> (r: Vec<Comment>)
    ensures
        r@ == flatten_comment_pages(pages@),
{
    let ghost pp0 = pages@;
    let mut pages = pages;
    let mut out: Vec<Comment> = Vec::new();
    proof {
        assert(pages@ =~= pp0.skip(0));
        assert(out@ + flatten_comment_pages(pp0.skip(0)) =~= flatten_comment_pages(pp0));
    }
    while pages.len() > 0
        invariant
            out@ + flatten_comment_pages(pages@) == flatten_comment_pages(pp0),
        decreases pages@.len(),
    {
        let ghost before = pages@;
        let ghost obefore = out@;
        let mut page = pages.remove(0);
        let ghost pg = page@;
        out.append(&mut page);
        proof {
            assert(pages@ =~= before.subrange(1, before.len() as int));
            assert(flatten_comment_pages(before) == pg + flatten_comment_pages(pages@));
            assert(obefore + (pg + flatten_comment_pages(pages@)) =~= (obefore + pg)
                + flatten_comment_pages(pages@));
        }
    }
    proof {
        assert(flatten_comment_pages(pages@).len() == 0);
        assert(out@ + flatten_comment_pages(pages@) =~= out@);
    }
    out
}

/// The per-post directory: the destination, a separator, and the decoded
/// title as it stands.
pub fn target_dir_path(dest: &str, title: &str) -> (r: String)
    ensures
        r@ == dest@ + "/"@ + title@,
{
    let mut out = str_to_chars(dest);
    let mut sep = str_to_chars("/");
    out.append(&mut sep);
    let mut t = str_to_chars(title);
    out.append(&mut t);
    chars_to_string(&out)
}

/// The manifest file inside one target directory.
pub fn manifest_path(dir: &str) -> (r: String)
    ensures
        r@ == dir@ + "/hdpc-info.json"@,
{
    let mut out = str_to_chars(dir);
    let mut t = str_to_chars("/hdpc-info.json");
    out.append(&mut t);
    chars_to_string(&out)
}

/// A 1-based sequence number padded to three digits, as the image files
/// are numbered.
pub open spec fn pad3(n: nat) -> Seq<char> {
    if n < 10 {
        seq!['0', '0'] + dec_digits(n)
    } else if n < 100 {
        seq!['0'] + dec_digits(n)
    } else {
        dec_digits(n)
    }
}

/// The file name of one downloaded image: the padded sequence number, a
/// dash, and the last path segment of the image's own address.
pub fn image_file_name(seq_no: u64, basename: &str) -> (r: String)
    ensures
        r@ == pad3(seq_no as nat) + "-"@ + basename@,
{
    let mut out: Vec<char> = Vec::new();
    if seq_no < 10 {
        out.push('0');
        out.push('0');
        proof {
            assert(out@ =~= seq!['0', '0']);
        }
    } else if seq_no < 100 {
        out.push('0');
        proof {
            assert(out@ =~= seq!['0']);
        }
    }
    let mut d = u64_to_dec(seq_no);
    out.append(&mut d);
    let mut dash = str_to_chars("-");
    out.append(&mut dash);
    let mut b = str_to_chars(basename);
    out.append(&mut b);
    proof {
        if seq_no >= 100 {
            assert(Seq::<char>::empty() + dec_digits(seq_no as nat) =~= dec_digits(
                seq_no as nat,
            ));
        }
    }
    chars_to_string(&out)
}

/// The index where a link's path ends: its first query or fragment
/// marker, or its end.
pub open spec fn url_path_end(u: Seq<char>) -> int {
    match crate::scan::opt_min(first_char_at(u, '?', 0), first_char_at(u, '#', 0)) {
        Option::Some(c) => c,
        Option::None => u.len() as int,
    }
}

/// The start of the last path segment: one past the last separator before
/// the path end.
pub open spec fn last_slash_before(u: Seq<char>, e: int, k: int) -> int
    decreases k,
{
    if k <= 0 {
        0
    } else if u[k - 1] == '/' {
        k
    } else {
        last_slash_before(u, e, k - 1)
    }
}

/// The last path segment of a link, dropping any query or fragment: what
/// names a downloaded image file.
pub open spec fn spec_basename_of_url(u: Seq<char>) -> Seq<char> {
    let e = url_path_end(u);
    u.subrange(last_slash_before(u, e, e), e)
}

/// The last path segment of a link, dropping any query or fragment.
pub fn basename_of_url(url: &str) -> (r: String)
    ensures
        r@ == spec_basename_of_url(url@),
{
    let u = str_to_chars(url);
    let ulen = u.len();
    proof {
        assert(u@.len() == ulen);
    }
    let q1 = crate::scan::find_char_from(&u, '?', 0);
    let q2 = crate::scan::find_char_from(&u, '#', 0);
    let e: usize = match (q1, q2) {
        (Option::None, Option::None) => ulen,
        (Option::Some(x), Option::None) => x,
        (Option::None, Option::Some(y)) => y,
        (Option::Some(x), Option::Some(y)) => if x <= y {
            x
        } else {
            y
        },
    };
    let mut k: usize = e;
    while k > 0 && !(u[k - 1] == '/')
        invariant
            0 <= k <= e <= u@.len(),
            last_slash_before(u@, e as int, e as int) == last_slash_before(
                u@,
                e as int,
                k as int,
            ),
        decreases k,
    {
        k = k - 1;
    }
    proof {
        assert(last_slash_before(u@, e as int, k as int) == k as int);
    }
    let b = copy_range(&u, k, e);
    chars_to_string(&b)
}

/// The crawl-result file name: the timestamp with spaces replaced by
/// underscores, then the fixed suffix.
pub open spec fn spec_crawl_file_name(ts: Seq<char>) -> Seq<char> {
    ts.map_values(
        |c: char|
            if c == ' ' {
                '_'
            } else {
                c
            },
    ) + "_crawl_results.json"@
}

/// Names the crawl-result file from the crawl's timestamp.
pub fn crawl_file_name(ts: &str) -> (r: String)
    ensures
        r@ == spec_crawl_file_name(ts@),
{
    let t = str_to_chars(ts);
    let mut out: Vec<char> = Vec::new();
    let mut k: usize = 0;
    proof {
        assert(out@ =~= t@.map_values(
            |c: char|
                if c == ' ' {
                    '_'
                } else {
                    c
                },
        ).take(0));
    }
    while k < t.len()
        invariant
            0 <= k <= t@.len(),
            out@ == t@.map_values(
                |c: char|
                    if c == ' ' {
                        '_'
                    } else {
                        c
                    },
            ).take(k as int),
        decreases t@.len() - k,
    {
        let c = t[k];
        if c == ' ' {
            out.push('_');
        } else {
            out.push(c);
        }
        proof {
            let m = t@.map_values(
                |c: char|
                    if c == ' ' {
                        '_'
                    } else {
                        c
                    },
            );
            assert(out@ =~= m.take(k + 1));
        }
        k = k + 1;
    }
    proof {
        let m = t@.map_values(
            |c: char|
                if c == ' ' {
                    '_'
                } else {
                    c
                },
        );
        assert(m.take(t@.len() as int) =~= m);
    }
    let mut suffix = str_to_chars("_crawl_results.json");
    out.append(&mut suffix);
    chars_to_string(&out)
}

/// Relies on chrono's Utc::now and to_rfc3339: the moment's RFC 3339
/// timestamp; a fresh value each call, so nothing is promised of it.
/// Utc::now itself gives up on a machine whose clock reads before 1970.
#[verifier::external_body]
pub fn current_timestamp_rfc3339() -> String {
    chrono::Utc::now().to_rfc3339()
}

} // verus!

//! Windowing, page discovery, the crawl decision points and the comment
//! drain plan.
use hdpc_crawler::data::ApiViewResponse;
use hdpc_crawler::data::Comment;
use hdpc_crawler::data::PostBuf;
use hdpc_crawler::orchestrate::build_export;
use hdpc_crawler::orchestrate::concat_comment_pages;
use hdpc_crawler::orchestrate::crawl_after_manifest;
use hdpc_crawler::orchestrate::discover_pages;
use hdpc_crawler::orchestrate::remaining_comment_pages;
use hdpc_crawler::orchestrate::retry_decision;
use hdpc_crawler::orchestrate::stats_api_url;
use hdpc_crawler::orchestrate::CrawlStep;
use hdpc_crawler::orchestrate::DownloadError;
use hdpc_crawler::orchestrate::RetryDecision;
use hdpc_crawler::window::apply_window;
use hdpc_crawler::window::div_ceil_patch;
use hdpc_crawler::window::pages_to_skip;
use hdpc_crawler::window::window_wants_more;

fn entry(id: u32) -> PostBuf {
    PostBuf {
        post_id: id,
        name: format!("post {}", id),
        url: format!("https://site/post{}", id),
        views: 1,
        upvotes: 0,
        downvotes: 0,
        meta_tags: vec![],
        rendered_tags: vec![],
    }
}

fn page(first_id: u32, n: u32) -> Vec<PostBuf> {
    let mut v = Vec::new();
    let mut k = 0u32;
    while k < n {
        v.push(entry(first_id + k));
        k += 1;
    }
    v
}

#[test]
fn window_skips_whole_pages_and_stops_at_limit() {
    // three pages of 21 entries each; skip 25 drops page one whole,
    // the limit of 10 stops inside page two
    let pages = vec![page(100, 21), page(200, 21), page(300, 21)];
    let out = apply_window(pages, 25, 10);
    assert_eq!(out.len(), 10);
    assert_eq!(out[0].post_id, 200);
    assert_eq!(out[9].post_id, 209);
}

#[test]
fn window_zero_limit_takes_everything_after_skip() {
    let pages = vec![page(100, 2), page(200, 3)];
    let out = apply_window(pages, 0, 0);
    assert_eq!(out.len(), 5);
    assert_eq!(out[0].post_id, 100);
    assert_eq!(out[4].post_id, 202);
}

#[test]
fn window_limit_spans_pages() {
    let pages = vec![page(100, 2), page(200, 3)];
    let out = apply_window(pages, 0, 4);
    assert_eq!(out.len(), 4);
    assert_eq!(out[3].post_id, 201);
}

#[test]
fn window_skip_beyond_all_pages_is_empty() {
    let pages = vec![page(100, 21)];
    let out = apply_window(pages, 42, 0);
    assert_eq!(out.len(), 0);
}

#[test]
fn window_helpers_count_pages() {
    assert_eq!(pages_to_skip(25), 1);
    assert_eq!(pages_to_skip(20), 0);
    assert_eq!(div_ceil_patch(10, 21), 1);
    assert_eq!(div_ceil_patch(0, 21), usize::MAX);
    assert!(window_wants_more(5, 0));
    assert!(window_wants_more(5, 6));
    assert!(!window_wants_more(6, 6));
}

#[test]
fn crawl_with_no_download_stops_after_the_manifest() {
    assert_eq!(crawl_after_manifest(true, 5), CrawlStep::Stop);
    assert_eq!(crawl_after_manifest(true, 0), CrawlStep::Stop);
}

#[test]
fn crawl_reports_empty_window_and_downloads_otherwise() {
    assert_eq!(crawl_after_manifest(false, 0), CrawlStep::ReportEmpty);
    assert_eq!(crawl_after_manifest(false, 3), CrawlStep::DownloadAll);
}

#[test]
fn stats_route_is_fixed() {
    assert_eq!(
        stats_api_url(),
        "https://hdporncomics.com/?rest_route=%2Fapi%2Fv1%2Fview"
    );
}

#[test]
fn retry_until_the_allowance_is_spent() {
    assert_eq!(retry_decision(1, 3), RetryDecision::RetryAfterBackoff);
    assert_eq!(retry_decision(3, 3), RetryDecision::RetryAfterBackoff);
    assert_eq!(retry_decision(4, 3), RetryDecision::AbortBatch);
    assert_eq!(retry_decision(1, 0), RetryDecision::AbortBatch);
}

#[test]
fn discovery_uses_markers_or_the_start_page() {
    let marked = [
        "<option data-url=\"https://x/?page=1\" selected >1</option>",
        "<option data-url=\"https://x/?page=2\">2</option>",
    ].join("");
    let pages = discover_pages("https://x/?page=1", &marked, true);
    assert_eq!(pages.len(), 2);
    assert_eq!(pages[1].number, 2);

    let single = discover_pages("https://start", "no markers", true);
    assert_eq!(single.len(), 1);
    assert_eq!(single[0].url, "https://start");
    assert_eq!(single[0].number, 1);

    let unpaged = discover_pages("https://start", &marked, false);
    assert_eq!(unpaged.len(), 1);
    assert_eq!(unpaged[0].number, 1);
}

fn bare_comment(id: &str) -> Comment {
    Comment {
        comment_id: id.to_owned(),
        comment_post_id: "1".to_owned(),
        post_url: "https://site/1".to_owned(),
        comment_author: "a".to_owned(),
        content: "c".to_owned(),
        approved: "1".to_owned(),
        comment_parrent: "0".to_owned(),
        likes: 0,
        posted_on: "t".to_owned(),
        user_id: "u".to_owned(),
        profile_pic: "p".to_owned(),
        role: "r".to_owned(),
        children: None,
    }
}

#[test]
fn three_comment_pages_mean_two_more_requests_in_order() {
    // page one is always fetched; a reported total of three pages plans
    // exactly pages two and three, so three requests in all
    assert_eq!(remaining_comment_pages(3), vec![2, 3]);
    assert_eq!(remaining_comment_pages(1), Vec::<i64>::new());
    assert_eq!(remaining_comment_pages(0), Vec::<i64>::new());
    let pages = vec![
        vec![bare_comment("a"), bare_comment("b")],
        vec![bare_comment("c")],
        vec![bare_comment("d"), bare_comment("e")],
    ];
    let all = concat_comment_pages(pages);
    let ids: Vec<&str> = all.iter().map(|c| c.comment_id.as_str()).collect();
    assert_eq!(ids, vec!["a", "b", "c", "d", "e"]);
}

fn api() -> ApiViewResponse {
    ApiViewResponse {
        post_dislikes: "0".to_owned(),
        post_favorites: "0".to_owned(),
        post_id: 1,
        post_likes: "0".to_owned(),
        post_views: "0".to_owned(),
    }
}

#[test]
fn export_needs_a_title() {
    // a page whose title pattern does not match surfaces the failure
    let page = "<div id=\"post-5\" ...>";
    let r = build_export(page, "https://u", "3.0.0", "now", api(), None);
    assert_eq!(r.unwrap_err(), DownloadError::TitleNotFound);
}

#[test]
fn export_needs_a_post_id() {
    let page = "<title>T - HD Porn Comics</title>";
    let r = build_export(page, "https://u", "3.0.0", "now", api(), None);
    assert_eq!(r.unwrap_err(), DownloadError::PostIdNotFound);
}

#[test]
fn export_assembles_the_record() {
    let page = [
        "<title>Tom &amp; Jerry comic porn - HD Porn Comics</title>",
        "<div id=\"post-4711\" class=\"p\">",
        "<h3 id=\"comments-title\"> 12 Comments </h3>",
        "<option data-url=\"https://x/1\">Ch 1</option>",
        "<a href=\"https://c.hdporncomics.com/uploads/a/1.jpg\">",
    ].join("");
    let r = build_export(&page, "https://u/p", "3.0.0", "2024-01-01T00:00:00+00:00", api(), None)
        .expect("all required fields are present");
    assert_eq!(r.hdpc_dl_version, 7);
    assert_eq!(r.title, "Tom & Jerry");
    assert_eq!(r.post_id, 4711);
    assert_eq!(r.comment_count, "12 Comments");
    assert_eq!(r.source_url, "https://u/p");
    assert_eq!(r.chapters.len(), 1);
    assert_eq!(r.picture_urls, vec!["https://c.hdporncomics.com/uploads/a/1.jpg".to_owned()]);
    assert!(r.comments.is_none());
}

#[test]
fn export_tolerates_missing_comment_count() {
    let page = [
        "<title>T - HD Porn Comics</title>",
        "<div id=\"post-1\"",
    ].join("");
    let r = build_export(&page, "u", "v", "d", api(), None).expect("count is optional");
    assert_eq!(r.comment_count, "");
}

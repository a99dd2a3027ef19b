//! The manifest codec: write, read back, compare field for field.
use hdpc_crawler::codec::export_to_json;
use hdpc_crawler::codec::crawl_to_json;
use hdpc_crawler::codec::manifest_schema_version;
use hdpc_crawler::codec::parse_export;
use hdpc_crawler::codec::parse_manifest;
use hdpc_crawler::codec::render_crawl_result;
use hdpc_crawler::codec::render_export;
use hdpc_crawler::data::ApiViewResponse;
use hdpc_crawler::data::Comment;
use hdpc_crawler::data::CommentChild;
use hdpc_crawler::data::CrawlResultV5;
use hdpc_crawler::data::ExportV7;
use hdpc_crawler::data::InfoboxRow;
use hdpc_crawler::data::Post;
use hdpc_crawler::data::PostBuf;
use hdpc_crawler::data::RawInfoBoxRow;
use hdpc_crawler::data::TagLike;
use hdpc_crawler::data::TagLikeBuf;

fn comment(id: &str, children: Option<Vec<CommentChild>>) -> Comment {
    Comment {
        comment_id: id.to_owned(),
        comment_post_id: "77".to_owned(),
        post_url: "https://site/post77".to_owned(),
        comment_author: "ann \"the\\critic\"".to_owned(),
        content: "line one\nline two\ttabbed".to_owned(),
        approved: "1".to_owned(),
        comment_parrent: "0".to_owned(),
        likes: -3,
        posted_on: "2024-01-01".to_owned(),
        user_id: "9".to_owned(),
        profile_pic: "https://site/p.png".to_owned(),
        role: "member".to_owned(),
        children,
    }
}

fn sample_export() -> ExportV7 {
    ExportV7 {
        hdpc_dl_version: 7,
        program_version: "3.0.0".to_owned(),
        post_id: 4711,
        title: "Tom & Jerry".to_owned(),
        api_stats: ApiViewResponse {
            post_dislikes: "2".to_owned(),
            post_favorites: "8".to_owned(),
            post_id: 4711,
            post_likes: "15".to_owned(),
            post_views: "1200".to_owned(),
        },
        comment_count: "12 Comments".to_owned(),
        download_date: "2024-01-01T00:00:00+00:00".to_owned(),
        source_url: "https://site/post4711".to_owned(),
        metadata: vec![
            InfoboxRow::Raw(RawInfoBoxRow { name: "Note".to_owned(), html: "plain".to_owned() }),
            InfoboxRow::TagLike {
                name: "Artist".to_owned(),
                tags: vec![TagLike { href: "https://t/a".to_owned(), text: "alice".to_owned() }],
            },
            InfoboxRow::Text {
                name: "Pages".to_owned(),
                class_name: "text-white".to_owned(),
                text: Some("25".to_owned()),
            },
        ],
        chapters: vec![Post { name: "Ch 1".to_owned(), url: "https://x/1".to_owned() }],
        picture_urls: vec!["https://c.hdporncomics.com/uploads/a/1.jpg".to_owned()],
        comments: Some(vec![comment(
            "c1",
            Some(vec![CommentChild { key: "c2".to_owned(), comment: comment("c2", None) }]),
        )]),
    }
}

#[test]
fn export_round_trips_field_for_field() {
    let e = sample_export();
    let text = render_export(&e);
    let parsed = parse_manifest(text.as_str()).expect("a written manifest reads back");
    let expected = export_to_json(&e);
    assert_eq!(parsed, expected);
}

#[test]
fn export_reads_back_as_the_same_record() {
    let e = sample_export();
    let text = render_export(&e);
    let e2 = parse_export(text.as_str()).expect("a written manifest reads back as a record");
    assert_eq!(e2, e);
}

#[test]
fn export_schema_version_is_readable() {
    let e = sample_export();
    let text = render_export(&e);
    let parsed = parse_manifest(text.as_str()).expect("a written manifest reads back");
    assert_eq!(manifest_schema_version(&parsed), Some(7));
}

#[test]
fn export_without_comments_writes_null() {
    let mut e = sample_export();
    e.comments = None;
    let text = render_export(&e);
    assert!(text.contains("\"comments\": null"));
    let parsed = parse_manifest(text.as_str()).expect("reads back");
    assert_eq!(parsed, export_to_json(&e));
}

#[test]
fn crawl_record_round_trips() {
    let c = CrawlResultV5 {
        hdpc_dl_version: 6,
        program_version: "3.0.0".to_owned(),
        source_url: "https://site/?s=q".to_owned(),
        download_date: "2024-01-01T00:00:00+00:00".to_owned(),
        posts: vec![PostBuf {
            post_id: 77,
            name: "Cool Story".to_owned(),
            url: "https://site/post77".to_owned(),
            views: 1500,
            upvotes: 10,
            downvotes: 2,
            meta_tags: vec!["tag1".to_owned()],
            rendered_tags: vec![TagLikeBuf {
                href: "https://t/x".to_owned(),
                text: "x".to_owned(),
            }],
        }],
    };
    let text = render_crawl_result(&c);
    let parsed = parse_manifest(text.as_str()).expect("reads back");
    assert_eq!(parsed, crawl_to_json(&c));
    assert_eq!(manifest_schema_version(&parsed), Some(6));
}

#[test]
fn export_is_pretty_printed_with_the_version_first() {
    let e = sample_export();
    let text = render_export(&e);
    assert!(text.starts_with("{\n  \"hdpc_dl_version\": 7,\n"));
    assert!(text.ends_with("}"));
    assert!(text.contains("\"title\": \"Tom & Jerry\""));
    assert!(text.contains("\"likes\": -3"));
    assert!(text.contains("\\n"));
}

#[test]
fn garbage_does_not_parse() {
    assert_eq!(parse_manifest("{ not json"), None);
    assert_eq!(parse_manifest(""), None);
    assert_eq!(parse_manifest("{} trailing"), None);
}

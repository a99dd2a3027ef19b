//! The crawler's data model: listing entries, infobox rows, comments, the
//! versioned export records and the crawl-result record.
use vstd::prelude::*;

verus! {

/// A tag-like marker of a post, borrowed-field flavour used in infobox rows.
#[derive(Debug, Clone, PartialEq, Eq)]
pub struct TagLike {
    pub href: String,
    pub text: String,
}

/// A tag-like marker of a post in a search result page.
#[derive(Debug, Clone, PartialEq, Eq)]
pub struct TagLikeBuf {
    pub href: String,
    pub text: String,
}

/// In case the InfoboxRow cannot be parsed further, its html is stored in
/// `html`.
#[derive(Debug, Clone, PartialEq, Eq)]
pub struct RawInfoBoxRow {
    pub name: String,
    pub html: String,
}

/// One key/value row of post metadata.
#[derive(Debug, Clone, PartialEq, Eq)]
pub enum InfoboxRow {
    /// In case the InfoboxRow cannot be parsed further, its html is stored
    /// in the raw row.
    Raw(RawInfoBoxRow),
    /// In case of a tag-like list of tags, the tags are stored in a list.
    TagLike { name: String, tags: Vec<TagLike> },
    /// In case of one span element, its contents are stored in `text`.
    Text { name: String, class_name: String, text: Option<String> },
}

/// A chapter or sub-post: display name and link.
#[derive(Debug, Clone, PartialEq, Eq)]
pub struct Post {
    pub name: String,
    pub url: String,
}

/// One listing entry: a crawlable target with its listing statistics.
#[derive(Debug, Clone, PartialEq, Eq)]
pub struct PostBuf {
    pub post_id: u32,
    pub name: String,
    pub url: String,
    pub views: u32,
    pub upvotes: u32,
    pub downvotes: u32,
    pub meta_tags: Vec<String>,
    pub rendered_tags: Vec<TagLikeBuf>,
}

/// Rating counters of older manifests (kept so historical readers still
/// have the shape).
#[derive(Debug, Clone, PartialEq, Eq)]
pub struct Ratings {
    pub upvotes: u32,
    pub downvotes: u32,
    pub favorites: u32,
}

/// What the statistics API reports for one post; the counters arrive as
/// free text.
#[derive(Debug, Clone, PartialEq, Eq)]
pub struct ApiViewResponse {
    pub post_dislikes: String,
    pub post_favorites: String,
    pub post_id: i64,
    pub post_likes: String,
    pub post_views: String,
}

/// One child entry of a comment, keyed by the remote host's id.
#[derive(Debug, PartialEq, Eq)]
pub struct CommentChild {
    pub key: String,
    pub comment: Comment,
}

/// One comment, as the comments API reports it.
#[derive(Debug, PartialEq, Eq)]
pub struct Comment {
    pub comment_id: String,
    pub comment_post_id: String,
    pub post_url: String,
    pub comment_author: String,
    pub content: String,
    pub approved: String,
    pub comment_parrent: String,
    pub likes: i64,
    pub posted_on: String,
    pub user_id: String,
    pub profile_pic: String,
    pub role: String,
    pub children: Option<Vec<CommentChild>>,
}

/// One page of the remote comment feed.
#[derive(Debug, PartialEq, Eq)]
pub struct Comments {
    pub current_page: i64,
    pub total_comments: i64,
    pub total_pages: i64,
    pub comments: Vec<Comment>,
}

/// One page of a paginated search result.
#[derive(Debug, Clone, PartialEq, Eq)]
pub struct ResPage {
    pub url: String,
    pub number: u32,
}

/// A key with its values, as older manifest versions carried metadata.
#[derive(Debug, Clone, PartialEq, Eq)]
pub struct MetadataV5 {
    pub name: String,
    pub entries: Vec<String>,
}

/// The crawl-result record: every listing entry one crawl discovered,
/// written whether or not downloads follow.
#[derive(Debug, Clone, PartialEq, Eq)]
pub struct CrawlResultV5 {
    /// The version of the JSON document.
    pub hdpc_dl_version: i32,
    /// The version of this software used for downloading.
    pub program_version: String,
    /// The URL the crawl started from.
    pub source_url: String,
    /// An RFC 3339 timestamp of the time this was written.
    pub download_date: String,
    /// The list of crawled posts.
    pub posts: Vec<PostBuf>,
}

/// A historical manifest shape; still valid to read, never produced anew.
#[derive(Debug, Clone, PartialEq, Eq)]
pub struct ExportV4 {
    pub hdpc_dl_version: i32,
    pub title: String,
    pub other_title: String,
    pub upvotes: String,
    pub downvotes: String,
    pub favorites: String,
    pub comment_count: String,
    pub download_date: String,
    pub source_url: String,
    pub metadata: Vec<MetadataV5>,
    pub picture_urls: Vec<String>,
}

/// A historical manifest shape; still valid to read, never produced anew.
#[derive(Debug, Clone, PartialEq, Eq)]
pub struct ExportV5 {
    pub hdpc_dl_version: i32,
    pub program_version: String,
    pub post_id: u64,
    pub title: String,
    pub upvotes: u32,
    pub downvotes: u32,
    pub favorites: u32,
    pub comment_count: String,
    pub download_date: String,
    pub source_url: String,
    pub metadata: Vec<MetadataV5>,
    pub chapters: Vec<Post>,
    pub picture_urls: Vec<String>,
}

/// A historical manifest shape; still valid to read, never produced anew.
#[derive(Debug, Clone, PartialEq, Eq)]
pub struct ExportV6 {
    pub hdpc_dl_version: i32,
    pub program_version: String,
    pub post_id: u64,
    pub title: String,
    pub upvotes: u32,
    pub downvotes: u32,
    pub favorites: u32,
    pub comment_count: String,
    pub download_date: String,
    pub source_url: String,
    pub metadata: Vec<InfoboxRow>,
    pub chapters: Vec<Post>,
    pub picture_urls: Vec<String>,
}

/// The manifest written for one downloaded post, current shape.
#[derive(Debug, PartialEq, Eq)]
pub struct ExportV7 {
    /// The version of the JSON document.
    pub hdpc_dl_version: i32,
    /// The version of this software used for downloading.
    pub program_version: String,
    /// The id of the downloaded post.
    pub post_id: u64,
    /// The title of the target.
    pub title: String,
    /// The reported statistics from the API.
    pub api_stats: ApiViewResponse,
    /// The reported comments count, free text.
    pub comment_count: String,
    /// An RFC 3339 timestamp of the time this was downloaded.
    pub download_date: String,
    /// The URL of the target described by this document.
    pub source_url: String,
    /// A list of key-value(s) pairs provided by the remote host.
    pub metadata: Vec<InfoboxRow>,
    /// A list of chapters (may be empty).
    pub chapters: Vec<Post>,
    /// The URLs of the individual pictures downloaded from the remote host.
    pub picture_urls: Vec<String>,
    /// The comment feed, drained in full; absent when not requested.
    pub comments: Option<Vec<Comment>>,
}

} // verus!

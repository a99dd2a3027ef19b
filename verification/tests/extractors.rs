//! The field extractor on crafted page fragments.
use hdpc_crawler::data::InfoboxRow;
use hdpc_crawler::extract::extract_chapters;
use hdpc_crawler::extract::extract_comment_count;
use hdpc_crawler::extract::extract_from_infobox_row;
use hdpc_crawler::extract::extract_image_urls;
use hdpc_crawler::extract::extract_info_box_rows;
use hdpc_crawler::extract::extract_post_id;
use hdpc_crawler::extract::extract_res_page_links;
use hdpc_crawler::extract::extract_target_links;
use hdpc_crawler::extract::extract_title;
use hdpc_crawler::numbers::CountParseError;

fn listing_entry(id: u32, main: &str, alt: &str, views: &str, up: &str, down: &str, tags: &str) -> String {
    let mut s = String::new();
    s.push_str(&format!("<div id=\"post-{id}\"><a href=\"https://site/post{id}\">link</a>"));
    s.push_str(&format!("<h2 class=\"mainTitle\">{main}</h2><h3 class=\"altTitle\">{alt}</h3>"));
    s.push_str(&format!("<span class=\"views\">{views}</span><span id=\"upVotes\">{up}</span>"));
    s.push_str(&format!("<span id=\"downVotes\">{down}</span><span class=\"tags\">{tags}</span>"));
    s.push_str(&format!(
        "<span class=\"scrolltaxonomy-item\"><a href=\"https://t/x{id}\" rel=\"tag\">x{id}</a></span></div>"
    ));
    s
}

#[test]
fn title_strips_site_suffix_and_kind_marker() {
    let t = "<head><title>My Comic comic porn &ndash; HD Porn Comics</title></head>";
    assert_eq!(extract_title(t), Some("My Comic".to_owned()));
    let t2 = "<title>Other - HD Porn Comics</title>";
    assert_eq!(extract_title(t2), Some("Other".to_owned()));
}

#[test]
fn title_decodes_entities() {
    let t = "<title>Tom &amp; Jerry &ndash; HD Porn Comics</title>";
    assert_eq!(extract_title(t), Some("Tom & Jerry".to_owned()));
}

#[test]
fn title_takes_the_earliest_suffix_marker() {
    let t = "<title>A - HD Porn Comics</title><title>B &ndash; HD Porn Comics</title>";
    assert_eq!(extract_title(t), Some("A".to_owned()));
}

#[test]
fn title_absent_is_none() {
    assert_eq!(extract_title("<title>My Comic</title>"), None);
    assert_eq!(extract_title("no title at all"), None);
}

#[test]
fn post_id_first_digit_bearing_match() {
    let t = "junk <div id=\"post-4711\" class=\"p\"> more <div id=\"post-9\"";
    assert_eq!(extract_post_id(t), Some(4711));
    assert_eq!(extract_post_id("nothing here"), None);
    assert_eq!(extract_post_id("<div id=\"post-\""), None);
    // a digitless anchor is passed over; the first digit-bearing one counts
    let t2 = "<div id=\"post-\" x> <div id=\"post-5\"";
    assert_eq!(extract_post_id(t2), Some(5));
    // an id too large for u64 yields nothing, it does not panic
    let t3 = "<div id=\"post-99999999999999999999999\"";
    assert_eq!(extract_post_id(t3), None);
}

#[test]
fn comment_count_is_trimmed_free_text() {
    let t = "<h3 class=\"x\" id=\"comments-title\" data-y=\"1\">  12 Comments  </h3>";
    assert_eq!(extract_comment_count(t), Some("12 Comments".to_owned()));
    assert_eq!(extract_comment_count("<h3>no id</h3>"), None);
}

#[test]
fn image_urls_in_document_order_with_duplicates() {
    let t = [
        "<a href=\"https://cdn1.hdporncomics.com/uploads/a/1.jpg\" x>",
        "<a href=\"https://other.example.com/uploads/a/2.jpg\">",
        "<a href=\"https://cdn2.hdporncomics.com/uploads/a/2.jpg\">",
        "<a href=\"https://cdn1.hdporncomics.com/uploads/a/1.jpg\">",
    ].join("");
    let urls = extract_image_urls(&t);
    assert_eq!(
        urls,
        vec![
            "https://cdn1.hdporncomics.com/uploads/a/1.jpg".to_owned(),
            "https://cdn2.hdporncomics.com/uploads/a/2.jpg".to_owned(),
            "https://cdn1.hdporncomics.com/uploads/a/1.jpg".to_owned(),
        ]
    );
}

#[test]
fn image_urls_twice_same_result() {
    let t = "<a href=\"https://c.hdporncomics.com/uploads/x/y.jpg\"> <a href=\"https://c.hdporncomics.com/uploads/x/z.jpg\">";
    let first = extract_image_urls(t);
    let second = extract_image_urls(t);
    assert_eq!(first, second);
}

#[test]
fn chapters_with_and_without_selected() {
    let t = [
        "<option data-url=\"https://x/1\">Ch 1</option>",
        "<option selected data-url=\"https://x/2\">Ch &amp; 2</option>",
    ].join("");
    let ch = extract_chapters(&t);
    assert_eq!(ch.len(), 2);
    assert_eq!(ch[0].name, "Ch 1");
    assert_eq!(ch[0].url, "https://x/1");
    assert_eq!(ch[1].name, "Ch & 2");
    assert_eq!(ch[1].url, "https://x/2");
}

#[test]
fn infobox_rows_and_their_shapes() {
    let t = [
        "<div class=\"flex items-center\"> <span class=\"text-gray-400 whitespace-nowrap\">Artist :</span> ",
        "<span class=\"scrolltaxonomy-item\"><a href=\"https://t/a\" rel=\"tag\">alice</a></span></div>",
        "<div class=\"flex items-center\"> <span class=\"text-gray-400 whitespace-nowrap\">Pages : </span> ",
        "<span class=\"ml-4 text-white\"> 25 </span></div>",
        "<div class=\"flex items-center\"> <span class=\"text-gray-400 whitespace-nowrap\">Note :</span> ",
        "plain <b>stuff</b></div>",
    ].join("");
    let rows = extract_info_box_rows(&t);
    assert_eq!(rows.len(), 3);
    assert_eq!(rows[0].name, "Artist");
    assert_eq!(rows[1].name, "Pages");
    assert_eq!(rows[2].name, "Note");

    let r0 = extract_from_infobox_row(rows[0].clone());
    match r0 {
        InfoboxRow::TagLike { name, tags } => {
            assert_eq!(name, "Artist");
            assert_eq!(tags.len(), 1);
            assert_eq!(tags[0].href, "https://t/a");
            assert_eq!(tags[0].text, "alice");
        }
        other => panic!("wrong shape: {:?}", other),
    }
    let r1 = extract_from_infobox_row(rows[1].clone());
    match r1 {
        InfoboxRow::Text { name, class_name, text } => {
            assert_eq!(name, "Pages");
            assert_eq!(class_name, "text-white");
            assert_eq!(text, Some("25".to_owned()));
        }
        other => panic!("wrong shape: {:?}", other),
    }
    let r2 = extract_from_infobox_row(rows[2].clone());
    match r2 {
        InfoboxRow::Raw(raw) => {
            assert_eq!(raw.name, "Note");
            assert_eq!(raw.html, "plain <b>stuff</b>");
        }
        other => panic!("wrong shape: {:?}", other),
    }
}

#[test]
fn res_page_links_with_and_without_selected() {
    let t = [
        "<option data-url=\"https://x/?page=1\" selected >1</option>",
        "<option data-url=\"https://x/?page=2\">2</option>",
    ].join("");
    let pages = extract_res_page_links(&t);
    assert_eq!(pages.len(), 2);
    assert_eq!(pages[0].url, "https://x/?page=1");
    assert_eq!(pages[0].number, 1);
    assert_eq!(pages[1].url, "https://x/?page=2");
    assert_eq!(pages[1].number, 2);
    assert_eq!(extract_res_page_links("unpaginated").len(), 0);
}

#[test]
fn target_links_read_whole_entries() {
    let html = format!(
        "{}{}",
        listing_entry(77, "Cool Story", "Read Cool Story", "1.5k", "10", "2", "tag1 tag2"),
        listing_entry(78, "Next One", "Next One", "42", "3", "0", "solo"),
    );
    let targets = extract_target_links(html).expect("every count fits the grammar");
    assert_eq!(targets.len(), 2);
    let t0 = &targets[0];
    assert_eq!(t0.post_id, 77);
    assert_eq!(t0.name, "Cool Story");
    assert_eq!(t0.url, "https://site/post77");
    assert_eq!(t0.views, 1500);
    assert_eq!(t0.upvotes, 10);
    assert_eq!(t0.downvotes, 2);
    assert_eq!(t0.meta_tags, vec!["tag1".to_owned(), "tag2".to_owned()]);
    assert_eq!(t0.rendered_tags.len(), 1);
    assert_eq!(t0.rendered_tags[0].href, "https://t/x77");
    assert_eq!(t0.rendered_tags[0].text, "x77");
    let t1 = &targets[1];
    assert_eq!(t1.post_id, 78);
    assert_eq!(t1.name, "Next One");
    assert_eq!(t1.views, 42);
}

#[test]
fn target_with_bad_count_is_fatal() {
    // a complete entry whose count text falls outside the grammar aborts
    // the whole page scan with the parse error
    let html = format!(
        "{}{}",
        listing_entry(1, "Bad", "Bad", "12x", "1", "1", "t"),
        listing_entry(2, "Good", "Good", "5", "1", "1", "t"),
    );
    assert_eq!(extract_target_links(html), Err(CountParseError::Malformed));
    let huge = listing_entry(3, "Big", "Big", "5000000m", "1", "1", "t");
    assert_eq!(extract_target_links(huge), Err(CountParseError::Overflow));
}

//! Counts, label trimming, decimal helpers and on-disk names.
use hdpc_crawler::numbers::parse_count;
use hdpc_crawler::numbers::CountParseError;
use hdpc_crawler::orchestrate::basename_of_url;
use hdpc_crawler::orchestrate::comment_page_url;
use hdpc_crawler::orchestrate::crawl_file_name;
use hdpc_crawler::orchestrate::image_file_name;
use hdpc_crawler::orchestrate::manifest_path;
use hdpc_crawler::orchestrate::target_dir_path;
use hdpc_crawler::text::chars_to_string;
use hdpc_crawler::text::overlap_start;
use hdpc_crawler::text::remove_trailing_label_colon;
use hdpc_crawler::text::str_to_chars;
use str_overlap::Overlap;

#[test]
fn count_with_k_suffix() {
    assert_eq!(parse_count("12k"), Ok(12000));
    assert_eq!(parse_count("12K"), Ok(12000));
}

#[test]
fn count_with_m_suffix() {
    assert_eq!(parse_count("3.5M"), Ok(3500000));
    assert_eq!(parse_count("3.5m"), Ok(3500000));
}

#[test]
fn count_bare_integer() {
    assert_eq!(parse_count("42"), Ok(42));
    assert_eq!(parse_count("0"), Ok(0));
    assert_eq!(parse_count("4294967295"), Ok(4294967295));
}

#[test]
fn count_invalid_suffix_errors() {
    assert_eq!(parse_count("12x"), Err(CountParseError::Malformed));
    assert_eq!(parse_count(""), Err(CountParseError::Malformed));
    assert_eq!(parse_count("k"), Err(CountParseError::Malformed));
    assert_eq!(parse_count("1.2.3k"), Err(CountParseError::Malformed));
}

#[test]
fn count_truncates_fraction() {
    assert_eq!(parse_count("1.2345k"), Ok(1234));
    assert_eq!(parse_count("2.k"), Ok(2000));
    assert_eq!(parse_count("0.5k"), Ok(500));
}

#[test]
fn count_rejects_signs_and_spaces() {
    assert_eq!(parse_count("+42"), Err(CountParseError::Malformed));
    assert_eq!(parse_count(" 42"), Err(CountParseError::Malformed));
    assert_eq!(parse_count("4 2"), Err(CountParseError::Malformed));
    assert_eq!(parse_count(".5k"), Err(CountParseError::Malformed));
}

#[test]
fn count_overflow_errors() {
    assert_eq!(parse_count("4294967296"), Err(CountParseError::Overflow));
    assert_eq!(parse_count("5000000m"), Err(CountParseError::Overflow));
}

#[test]
fn label_colon_removed() {
    assert_eq!(remove_trailing_label_colon("Artist :"), "Artist");
}

#[test]
fn label_colon_short_or_other_unchanged() {
    assert_eq!(remove_trailing_label_colon("A"), "A");
    assert_eq!(remove_trailing_label_colon(""), "");
    assert_eq!(remove_trailing_label_colon("Artist:"), "Artist:");
    assert_eq!(remove_trailing_label_colon("Artist : "), "Artist : ");
    assert_eq!(remove_trailing_label_colon(" :"), "");
}

#[test]
fn overlap_matches_the_reference_crate() {
    let cases = [("bcd", "abc"), ("Cool Story", "The Cool Story"), ("abc", "xyz"), ("", "x"), ("same", "same")];
    for (a, b) in cases {
        let av = str_to_chars(a);
        let bv = str_to_chars(b);
        let mine = chars_to_string(&overlap_start(&av, &bv));
        assert_eq!(mine, a.overlap_start(b));
    }
}

#[test]
fn image_names_pad_to_three_digits() {
    assert_eq!(image_file_name(1, "b.jpg"), "001-b.jpg");
    assert_eq!(image_file_name(12, "b.jpg"), "012-b.jpg");
    assert_eq!(image_file_name(123, "b.jpg"), "123-b.jpg");
    assert_eq!(image_file_name(1234, "b.jpg"), "1234-b.jpg");
}

#[test]
fn url_basename_drops_query_and_fragment() {
    assert_eq!(basename_of_url("https://x.y/a/b/c.jpg"), "c.jpg");
    assert_eq!(basename_of_url("https://x.y/a/b/c.jpg?w=1"), "c.jpg");
    assert_eq!(basename_of_url("https://x.y/a/b/c.jpg#frag"), "c.jpg");
    assert_eq!(basename_of_url("noslashes"), "noslashes");
}

#[test]
fn paths_follow_the_layout() {
    assert_eq!(target_dir_path("/tmp/out", "My Title"), "/tmp/out/My Title");
    assert_eq!(manifest_path("/tmp/out/My Title"), "/tmp/out/My Title/hdpc-info.json");
}

#[test]
fn crawl_file_name_replaces_spaces() {
    assert_eq!(crawl_file_name("2024-01-01T00:00:00+00:00"), "2024-01-01T00:00:00+00:00_crawl_results.json");
    assert_eq!(crawl_file_name("a b c"), "a_b_c_crawl_results.json");
}

#[test]
fn comment_urls_carry_post_and_page() {
    assert_eq!(
        comment_page_url(123, 1),
        "https://hdporncomics.com/wp-json/api/v1/comments/123?page_no=1"
    );
    assert_eq!(
        comment_page_url(7, 3),
        "https://hdporncomics.com/wp-json/api/v1/comments/7?page_no=3"
    );
}

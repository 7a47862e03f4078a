use cblog::cbtml::filters::{
    filter_abs_url, filter_active_class, filter_capitalize, filter_category_url, filter_lower,
    filter_md5, filter_reading_time, filter_reading_time_label, filter_slugify, filter_tag_url,
    filter_truncate, filter_upper, filter_wordcount,
};
use cblog::text::parse_unsigned_exec;

#[test]
fn slugify_collapses_separators() {
    assert_eq!(filter_slugify("Hello, World!".to_string()), "hello-world");
    assert_eq!(filter_slugify("  --Rust  Lang--  ".to_string()), "rust-lang");
    assert_eq!(filter_slugify("中文 标题".to_string()), "中文-标题");
    assert_eq!(filter_slugify("".to_string()), "");
    assert_eq!(filter_slugify("!!!".to_string()), "");
}

#[test]
fn slug_never_has_edge_or_double_hyphens() {
    for s in ["a--b", "-a-", "x  y", "Ünïcödé Test", "a_b.c", "--"] {
        let slug = filter_slugify(s.to_string());
        assert!(!slug.starts_with('-'));
        assert!(!slug.ends_with('-'));
        assert!(!slug.contains("--"));
    }
}

#[test]
fn truncate_marks_the_cut() {
    assert_eq!(filter_truncate("abcdef".to_string(), Some(3)), "abc\u{2026}");
    assert_eq!(filter_truncate("abc".to_string(), Some(3)), "abc");
    assert_eq!(filter_truncate("你好世界".to_string(), Some(2)), "你好\u{2026}");
    let long = "x".repeat(200);
    let cut = filter_truncate(long, None);
    assert_eq!(cut.chars().count(), 161);
}

#[test]
fn wordcount_counts_ascii_words_and_cjk() {
    assert_eq!(filter_wordcount("hello world".to_string()), 2);
    assert_eq!(filter_wordcount("你好 world".to_string()), 3);
    assert_eq!(filter_wordcount("".to_string()), 0);
}

#[test]
fn reading_time_from_text() {
    assert_eq!(filter_reading_time("0"), 1);
    assert_eq!(filter_reading_time("399"), 1);
    assert_eq!(filter_reading_time("400"), 2);
    assert_eq!(filter_reading_time("+1000"), 5);
    assert_eq!(filter_reading_time("abc"), 1);
    assert_eq!(filter_reading_time("99999999999"), 1);
}

#[test]
fn reading_time_labels() {
    assert_eq!(filter_reading_time_label(0), "不足 1 分钟阅读");
    assert_eq!(filter_reading_time_label(1), "约 1 分钟阅读");
    assert_eq!(filter_reading_time_label(12), "约 12 分钟阅读");
}

#[test]
fn taxonomy_urls() {
    assert_eq!(filter_tag_url("Rust Lang".to_string()), "/tags/rust-lang/");
    assert_eq!(filter_category_url("Web Dev".to_string()), "/category/web-dev/");
    assert_eq!(filter_abs_url("/a/b/".to_string()), "/a/b/");
}

#[test]
fn active_class_and_case() {
    assert_eq!(filter_active_class(true), "active");
    assert_eq!(filter_active_class(false), "");
    assert_eq!(filter_upper("abc ß".to_string()), "ABC SS");
    assert_eq!(filter_lower("ABC".to_string()), "abc");
    assert_eq!(filter_capitalize("hello world".to_string()), "Hello world");
    assert_eq!(filter_capitalize("ßx".to_string()), "SSx");
    assert_eq!(filter_capitalize("".to_string()), "");
}

#[test]
fn md5_filter_is_sha256_hex() {
    assert_eq!(
        filter_md5("abc".to_string()),
        "ba7816bf8f01cfea414140de5dae2223b00361a396177a9cb410ff61f20015ad"
    );
    assert_eq!(
        filter_md5("".to_string()),
        "e3b0c44298fc1c149afbf4c8996fb92427ae41e4649b934ca495991b7852b855"
    );
}

#[test]
fn unsigned_parsing_matches_std() {
    for s in ["0", "42", "+7", "", "+", "-1", "1a", "18446744073709551615", "18446744073709551616", "007"] {
        let std_result = s.parse::<u64>().ok();
        assert_eq!(parse_unsigned_exec(s, u64::MAX), std_result, "input {s:?}");
    }
    assert_eq!(parse_unsigned_exec("4294967295", u32::MAX as u64), Some(4294967295));
    assert_eq!(parse_unsigned_exec("4294967296", u32::MAX as u64), None);
}

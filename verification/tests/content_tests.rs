use cblog::content::excerpt::{extract_excerpt, strip_html_tags};
use cblog::content::frontmatter::slug_from_filename;
use cblog::content::markdown::{count_words, extract_toc, reading_time, render_markdown};
use cblog::content::{MarkdownContent, PostStatus};

#[test]
fn strip_html_removes_tags_and_decodes_entities() {
    assert_eq!(strip_html_tags("<p>Hello &amp; <b>world</b></p>"), "Hello & world");
    assert_eq!(strip_html_tags("a&lt;b&gt;c &quot;q&quot; &#39;s&apos;"), "a<b>c \"q\" 's'");
    assert_eq!(strip_html_tags("x&nbsp;y &copy; z"), "x y &copy; z");
    assert_eq!(strip_html_tags("a \n\t  b"), "a b");
    assert_eq!(strip_html_tags("tail &amp"), "tail &amp");
    assert_eq!(strip_html_tags("<p>AT&T rocks</p>"), "AT&T rocks");
    assert_eq!(strip_html_tags("a & b &lt;c"), "a & b <c");
    assert_eq!(strip_html_tags("Q&A<br>next"), "Q&Anext");
}

#[test]
fn excerpt_keeps_short_text_whole() {
    assert_eq!(extract_excerpt("<p>  Short text.  </p>", 160), "Short text.");
}

#[test]
fn excerpt_cuts_at_sentence_end() {
    let html = "<p>First sentence. Second sentence goes on and on</p>";
    assert_eq!(extract_excerpt(html, 30), "First sentence.…");
}

#[test]
fn excerpt_cuts_hard_without_sentence_end() {
    assert_eq!(extract_excerpt("abcdefghij", 4), "abcd…");
}

#[test]
fn slug_from_dated_filename() {
    assert_eq!(slug_from_filename("2024-01-15-hello-world.md"), "hello-world");
    assert_eq!(slug_from_filename("hello.markdown"), "hello");
    assert_eq!(slug_from_filename("notes.md.md"), "notes");
    assert_eq!(slug_from_filename("2024-01-15-.md"), "2024-01-15-");
    assert_eq!(slug_from_filename("2024-1-15-hello.md"), "2024-1-15-hello");
    assert_eq!(slug_from_filename("plain"), "plain");
}

#[test]
fn words_and_reading_time() {
    assert_eq!(count_words("Hello, world! 123 abc"), 4);
    assert_eq!(count_words("中文字"), 3);
    assert_eq!(count_words("Hello world 你好"), 4);
    assert_eq!(count_words("一"), 1);
    assert_eq!(count_words("\u{9FFF}"), 1);
    assert_eq!(count_words("don't stop"), 2);
    assert_eq!(count_words("a b"), count_words("a") + count_words("b"));
    assert_eq!(reading_time(0), 1);
    assert_eq!(reading_time(199), 1);
    assert_eq!(reading_time(200), 1);
    assert_eq!(reading_time(1000), 5);
}

#[test]
fn markdown_renders_html() {
    let html = render_markdown("# Title\n\nSome *text*.");
    assert!(html.contains("<h1>Title</h1>"));
    assert!(html.contains("<em>text</em>"));
}

#[test]
fn toc_lists_headings_two_to_four() {
    let toc = extract_toc("# Top\n\n## Intro Part\n\n### Deep `code`\n\n##### Too deep\n").unwrap();
    assert_eq!(
        toc,
        "<ul class=\"toc-list\">\n<li><a href=\"#intro-part\">Intro Part</a></li>\n  <li><a href=\"#deep-code\">Deep code</a></li>\n</ul>"
    );
    assert_eq!(extract_toc("# Only top\n\ntext"), None);
}

#[test]
fn markdown_content_renders_once_and_keeps_first_html() {
    let mut c = MarkdownContent::new("*hi*".to_string());
    c.set_html("<p>preset</p>".to_string());
    assert_eq!(c.html(), "<p>preset</p>");
    c.set_html("<p>ignored</p>".to_string());
    assert_eq!(c.html(), "<p>preset</p>");
    let mut d = MarkdownContent::new("*hi*".to_string());
    let first = d.html();
    assert!(first.contains("<em>hi</em>"));
    d.set_html("<p>late</p>".to_string());
    assert_eq!(d.html(), first);
}

#[test]
fn post_status_equality() {
    assert_eq!(PostStatus::Draft, PostStatus::Draft);
    assert_ne!(PostStatus::Draft, PostStatus::Published);
}

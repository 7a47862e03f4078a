use cblog::content::frontmatter::parse_date;
use cblog::lua::hooks::HookRegistry;
use cblog::lua::runtime::{compute_s3_signature, iso_date, sign_s3_request, strip_html};
use cblog::lua::sandbox::resolve_path;

fn strings(v: &[&str]) -> Vec<String> {
    v.iter().map(|s| s.to_string()).collect()
}

#[test]
fn strip_html_drops_tags() {
    assert_eq!(strip_html("<p>Hello <b>world</b></p>"), "Hello world");
    assert_eq!(strip_html("a > b"), "a  b");
    assert_eq!(strip_html("x<y"), "x");
    assert_eq!(strip_html("plain"), "plain");
}

#[test]
fn strip_html_twice_is_once() {
    let once = strip_html("<div class=\"a\">1 < 2 and <i>3</i> > 0</div>");
    assert_eq!(strip_html(&once), once);
    assert!(!once.contains('<') && !once.contains('>'));
}

#[test]
fn iso_date_forms() {
    assert_eq!(iso_date("2024-01-15T10:30:00+08:00"), "2024-01-15T10:30:00+08:00");
    assert_eq!(iso_date("2024-01-15 10:30:00"), "2024-01-15T10:30:00");
    assert_eq!(iso_date("2024-01-15"), "2024-01-15T00:00:00");
    assert_eq!(iso_date("next tuesday"), "next tuesday");
}

#[test]
fn parse_date_forms() {
    assert_eq!(parse_date("2024-01-15T10:30:00+08:00"), Ok((1705285800, 0)));
    assert_eq!(parse_date("2024-01-15T10:30:00"), Ok((1705314600, 0)));
    assert_eq!(parse_date("  2024-01-15 "), Ok((1705276800, 0)));
    assert_eq!(parse_date("2024/01/15"), Ok((1705276800, 0)));
    assert_eq!(parse_date(" bad "), Err("无法解析日期：bad".to_string()));
}

#[test]
fn s3_signature_matches_published_example() {
    let extra = vec![("Range".to_string(), "bytes=0-9".to_string())];
    let headers = sign_s3_request(
        "GET",
        "examplebucket.s3.amazonaws.com",
        "/test.txt",
        "",
        "us-east-1",
        "SECRET-REDACTED",
        "wJalrXUtnFEMI/K7MDENG/bPxRfiCYEXAMPLEKEY",
        &extra,
        "e3b0c44298fc1c149afbf4c8996fb92427ae41e4649b934ca495991b7852b855",
        "20130524",
        "20130524T000000Z",
    )
    .unwrap();
    assert_eq!(headers.len(), 5);
    assert_eq!(headers[0].0, "Authorization");
    assert_eq!(
        headers[0].1,
        "AWS4-HMAC-SHA256 Credential=SECRET-REDACTED/20130524/us-east-1/s3/aws4_request, \
         SignedHeaders=host;range;x-amz-content-sha256;x-amz-date, \
         Signature=f0e8bdb87c964420e857bd35b5d6ed310bd44f0170aba48dd91039c6036bdb41"
    );
    assert_eq!(headers[1], ("x-amz-date".to_string(), "20130524T000000Z".to_string()));
    assert_eq!(headers[3], ("host".to_string(), "examplebucket.s3.amazonaws.com".to_string()));
    assert_eq!(headers[4], ("Range".to_string(), "bytes=0-9".to_string()));
}

#[test]
fn s3_signature_drops_reserved_extra_headers() {
    let extra = vec![
        ("Host".to_string(), "evil.example".to_string()),
        ("X-Amz-Date".to_string(), "19700101T000000Z".to_string()),
        ("Content-Type".to_string(), "text/plain".to_string()),
    ];
    let headers = sign_s3_request(
        "PUT", "b.s3.example.com", "/k", "a=1", "eu-west-1", "AK", "SK", &extra, "UNSIGNED-PAYLOAD",
        "20240115", "20240115T103000Z",
    )
    .unwrap();
    assert_eq!(headers.len(), 5);
    assert!(headers[0].1.contains("SignedHeaders=content-type;host;x-amz-content-sha256;x-amz-date,"));
    assert_eq!(headers[4], ("Content-Type".to_string(), "text/plain".to_string()));
}

#[test]
fn s3_signature_refuses_bad_urls() {
    let extra: Vec<(String, String)> = Vec::new();
    let r = compute_s3_signature("GET", "not a url", "r", "a", "s", &extra, "UNSIGNED-PAYLOAD");
    assert!(r.unwrap_err().starts_with("URL 解析失败: "));
    let r = compute_s3_signature("GET", "mailto:someone@example.com", "r", "a", "s", &extra, "p");
    assert_eq!(r.unwrap_err(), "URL 中缺少 host");
    let r = compute_s3_signature("GET", "https://b.s3.example.com/x?y=1", "r", "a", "s", &extra, "p").unwrap();
    assert_eq!(r[3], ("host".to_string(), "b.s3.example.com".to_string()));
    assert!(r[0].1.starts_with("AWS4-HMAC-SHA256 Credential=a/"));
}

#[test]
fn hooks_run_by_priority_then_registration() {
    let mut reg = HookRegistry::new();
    assert!(!reg.has_handlers("render"));
    reg.add_filter("render", 10, 1);
    reg.add_filter("render", 5, 2);
    reg.add_filter("render", 10, 3);
    reg.add_action("built", 0, 4);
    assert_eq!(reg.filter_chain("render"), vec![(5, 2), (10, 1), (10, 3)]);
    assert_eq!(reg.action_chain("built"), vec![(0, 4)]);
    assert!(reg.filter_chain("built").is_empty());
    assert!(reg.has_handlers("render"));
    assert!(reg.has_handlers("built"));
    assert!(!reg.has_handlers("other"));
}

#[test]
fn sandbox_resolves_inside_root() {
    let root = strings(&["home", "u", "proj"]);
    assert_eq!(resolve_path(&root, "a/b.txt", None, None), Ok(strings(&["home", "u", "proj", "a", "b.txt"])));
    assert_eq!(resolve_path(&root, "./a//b/", None, None), Ok(strings(&["home", "u", "proj", "a", "b"])));
    assert_eq!(resolve_path(&root, "a/../c", None, None), Ok(strings(&["home", "u", "proj", "c"])));
    assert_eq!(
        resolve_path(&root, "x", Some(strings(&["home", "u", "proj", "real", "x"])), None),
        Ok(strings(&["home", "u", "proj", "real", "x"]))
    );
}

#[test]
fn sandbox_refuses_escapes() {
    let root = strings(&["home", "u", "proj"]);
    assert_eq!(resolve_path(&root, "/etc/passwd", None, None), Err("不允许绝对路径: /etc/passwd".to_string()));
    assert_eq!(resolve_path(&root, "../x", None, None), Err("路径越界: ../x 不在项目根目录内".to_string()));
    assert_eq!(
        resolve_path(&root, "link", Some(strings(&["etc", "passwd"])), None),
        Err("路径越界: link 不在项目根目录内".to_string())
    );
    assert_eq!(
        resolve_path(&root, "link/new.txt", None, Some(strings(&["tmp", "outside", "new.txt"]))),
        Err("路径越界: link/new.txt 不在项目根目录内".to_string())
    );
    assert_eq!(
        resolve_path(&root, "sub/new.txt", None, Some(strings(&["home", "u", "proj", "sub", "new.txt"]))),
        Ok(strings(&["home", "u", "proj", "sub", "new.txt"]))
    );
}

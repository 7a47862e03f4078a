use cblog::admin::auth::{
    build_cookie, client_ip, cookie_value, hash_password, parse_duration, register_login_attempt,
    should_renew, verify_password, DurationError,
};
use cblog::admin::csrf::{
    constant_time_eq, csrf_form_outcome, csrf_outcome, extract_csrf_cookie,
    extract_csrf_from_form_body, extract_csrf_from_header, extract_csrf_from_query,
    generate_csrf_token, hex_encode, is_safe_method, url_decode, CsrfOutcome,
};
use cblog::admin::install::{register_form_error, RegisterForm};
use cblog::admin::layout::{format_datetime, html_escape, is_active, svg_icon};
use cblog::admin::listing::{
    has_next_page, page_offset, page_status_badge, post_status_badge, requested_page,
    shown_total_pages,
};
use cblog::admin::media::{media_file_name, stored_file_name, thumb_relative_path};
use cblog::admin::theme::group_fields;
use cblog::admin::posts::generate_slug;
use cblog::admin::template::{filter_format_datetime, fn_svg_icon};

#[test]
fn hex_encoding() {
    assert_eq!(hex_encode(&[0x00, 0xab, 0x10, 0xff]), "00ab10ff");
    assert_eq!(hex_encode(&[]), "");
}

#[test]
fn url_decoding() {
    assert_eq!(url_decode("a%20b+c"), "a b c");
    assert_eq!(url_decode("%41%4a%4A"), "AJJ");
    assert_eq!(url_decode("bad%zzend"), "badend");
    assert_eq!(url_decode("trail%4"), "trail");
    assert_eq!(url_decode("%"), "");
    assert_eq!(url_decode("%e4%bd%a0"), "\u{e4}\u{bd}\u{a0}");
}

#[test]
fn constant_time_comparison() {
    assert!(constant_time_eq("token", "token"));
    assert!(!constant_time_eq("token", "tokem"));
    assert!(!constant_time_eq("token", "tokens"));
    assert!(constant_time_eq("", ""));
}

#[test]
fn csrf_token_sources() {
    assert_eq!(extract_csrf_cookie("a=1; csrf_token=xyz; b=2"), Some("xyz".to_string()));
    assert_eq!(extract_csrf_cookie("a=1"), None);
    assert_eq!(extract_csrf_cookie("csrf_token="), None);
    assert_eq!(extract_csrf_cookie("csrf_tokenX=1; csrf_token=ok"), None);
    assert_eq!(extract_csrf_cookie("csrf_token=; csrf_token=second"), Some("second".to_string()));
    assert_eq!(extract_csrf_from_query("page=1&_csrf_token=abc"), Some("abc".to_string()));
    assert_eq!(extract_csrf_from_query("_csrf_token=&x=1"), None);
    assert_eq!(extract_csrf_from_header(Some("h")), Some("h".to_string()));
    assert_eq!(extract_csrf_from_header(Some("")), None);
    assert_eq!(extract_csrf_from_header(None), None);
    assert_eq!(
        extract_csrf_from_form_body(b"title=x&_csrf_token=a%2Bb+c"),
        Some("a+b c".to_string())
    );
    assert_eq!(extract_csrf_from_form_body(b"_csrf_token=%&_csrf_token=ok"), Some("ok".to_string()));
    assert_eq!(extract_csrf_from_form_body(&[0xff, 0xfe]), None);
}

#[test]
fn csrf_decisions() {
    let tok = Some("t".to_string());
    let none: Option<String> = None;
    assert!(matches!(csrf_outcome(true, &none, &none, &none, ""), CsrfOutcome::Pass { renew: true }));
    assert!(matches!(csrf_outcome(true, &tok, &none, &none, ""), CsrfOutcome::Pass { renew: false }));
    match csrf_outcome(false, &none, &tok, &none, "") {
        CsrfOutcome::Reject { status, message } => {
            assert_eq!(status, 403);
            assert_eq!(message, "CSRF token 缺失");
        }
        other => panic!("unexpected {other:?}"),
    }
    assert!(matches!(csrf_outcome(false, &tok, &tok, &none, ""), CsrfOutcome::Pass { renew: true }));
    assert!(matches!(
        csrf_outcome(false, &tok, &Some("u".to_string()), &tok, ""),
        CsrfOutcome::Reject { status: 403, .. }
    ));
    assert!(matches!(csrf_outcome(false, &tok, &none, &tok, ""), CsrfOutcome::Pass { renew: true }));
    assert!(matches!(
        csrf_outcome(false, &tok, &none, &none, "application/x-www-form-urlencoded; charset=utf-8"),
        CsrfOutcome::NeedFormBody
    ));
    match csrf_outcome(false, &tok, &none, &none, "multipart/form-data") {
        CsrfOutcome::Reject { message, .. } => {
            assert_eq!(message, "CSRF token 验证失败，multipart 请求请通过 X-CSRF-Token header 传递")
        }
        other => panic!("unexpected {other:?}"),
    }
    assert!(matches!(csrf_form_outcome("t", b"_csrf_token=t"), CsrfOutcome::Pass { renew: true }));
    assert!(matches!(csrf_form_outcome("t", b"_csrf_token=u"), CsrfOutcome::Reject { status: 403, .. }));
}

#[test]
fn csrf_tokens_are_fresh_hex() {
    let a = generate_csrf_token();
    let b = generate_csrf_token();
    assert_eq!(a.len(), 64);
    assert!(a.chars().all(|c| c.is_ascii_hexdigit() && !c.is_ascii_uppercase()));
    assert_ne!(a, b);
    assert!(is_safe_method("GET") && is_safe_method("HEAD") && is_safe_method("OPTIONS"));
    assert!(!is_safe_method("POST") && !is_safe_method("get"));
}

#[test]
fn session_lifetimes() {
    assert_eq!(parse_duration("7d"), Ok(604800));
    assert_eq!(parse_duration(" 12h "), Ok(43200));
    assert_eq!(parse_duration("30m"), Ok(1800));
    assert_eq!(parse_duration("45s"), Ok(45));
    assert_eq!(parse_duration("xd"), Err(DurationError::InvalidNumber));
    assert_eq!(parse_duration("5w"), Err(DurationError::UnsupportedUnit { unit: 'w' }));
    assert_eq!(DurationError::InvalidNumber.to_message(), "无效的时间数值");
    assert_eq!(DurationError::UnsupportedUnit { unit: 'w' }.to_message(), "不支持的时间单位: w");
}

#[test]
fn session_cookies() {
    assert_eq!(
        build_cookie("sid", "abc", 3600, false),
        "sid=abc; HttpOnly; SameSite=Strict; Path=/admin; Max-Age=3600"
    );
    assert_eq!(
        build_cookie("sid", "", -1, true),
        "sid=; HttpOnly; SameSite=Strict; Path=/admin; Max-Age=-1; Secure"
    );
    assert_eq!(cookie_value("sid=1; other=2", "other"), Some("2".to_string()));
}

#[test]
fn client_addresses() {
    assert_eq!(client_ip(Some(" 1.2.3.4 , 5.6.7.8"), Some("9.9.9.9")), "1.2.3.4");
    assert_eq!(client_ip(None, Some(" 9.9.9.9 ")), "9.9.9.9");
    assert_eq!(client_ip(None, None), "unknown");
}

#[test]
fn login_rate_limit() {
    let mut attempts: Vec<u64> = Vec::new();
    for i in 0..5 {
        assert!(register_login_attempt(&mut attempts, 1000 + i));
    }
    assert!(!register_login_attempt(&mut attempts, 2000));
    assert_eq!(attempts.len(), 5);
    assert!(register_login_attempt(&mut attempts, 1000 + 60_000));
    assert!(attempts.len() <= 5);
}

#[test]
fn session_renewal() {
    assert!(should_renew(100, 90, 60));
    assert!(!should_renew(100, 50, 60));
    assert!(should_renew(10, 50, 60));
}

#[test]
fn password_hash_round_trip() {
    let h = hash_password("s3cret!").unwrap();
    assert_eq!(verify_password("s3cret!", &h).unwrap(), true);
    assert_eq!(verify_password("wrong", &h).unwrap(), false);
    let e = verify_password("x", "not-a-hash").unwrap_err();
    assert!(e.message.starts_with("解析密码哈希失败: "));
}

#[test]
fn registration_checks() {
    let form = |u: &str, p: &str, c: &str| RegisterForm {
        username: u.to_string(),
        password: p.to_string(),
        confirm_password: c.to_string(),
    };
    assert_eq!(register_form_error(&form("admin", "secret1", "secret2")).as_deref(), Some("password_mismatch"));
    assert_eq!(register_form_error(&form("admin", "12345", "12345")).as_deref(), Some("password_short"));
    assert_eq!(register_form_error(&form("  ", "123456", "123456")).as_deref(), Some("username_empty"));
    assert_eq!(register_form_error(&form("admin", "密码", "密码")), None);
}

#[test]
fn layout_helpers() {
    assert_eq!(format_datetime("2024-01-15T10:30:00+08:00"), "2024-01-15 10:30:00");
    assert_eq!(format_datetime("2024-01-15"), "2024-01-15");
    assert_eq!(filter_format_datetime("2024-01-15T10:30:00Z".to_string()), "2024-01-15 10:30:00");
    assert_eq!(html_escape("<a href=\"x\">&</a>"), "&lt;a href=&quot;x&quot;&gt;&amp;&lt;/a&gt;");
    assert!(is_active("/admin", "/admin"));
    assert!(!is_active("/admin/posts", "/admin"));
    assert!(is_active("/admin/posts/1", "/admin/posts"));
    assert!(!is_active("/admin/pages", "/admin/posts"));
    assert!(svg_icon("grid").starts_with("<svg class=\"icon\""));
    assert!(svg_icon("nope").contains("<circle cx=\"12\" cy=\"12\" r=\"10\"/>"));
    assert_eq!(fn_svg_icon("tag".to_string()), svg_icon("tag"));
}

#[test]
fn thumbnails_and_slugs() {
    assert_eq!(thumb_relative_path("2024/01/abc.png"), "2024/01/thumb_abc.png");
    assert_eq!(thumb_relative_path("abc.png"), "thumb_abc.png");
    assert_eq!(generate_slug("Hello World"), "hello-world");
}

#[test]
fn admin_list_paging() {
    assert_eq!(requested_page(None), 1);
    assert_eq!(requested_page(Some(0)), 1);
    assert_eq!(requested_page(Some(3)), 3);
    assert_eq!(page_offset(1, 20), 0);
    assert_eq!(page_offset(3, 20), 40);
    assert_eq!(page_offset(2, 24), 24);
    assert!(has_next_page(20, 20));
    assert!(!has_next_page(7, 20));
    assert_eq!(shown_total_pages(3, true), 4);
    assert_eq!(shown_total_pages(3, false), 3);
}

#[test]
fn admin_status_badges() {
    assert_eq!(post_status_badge("published"), ("badge-success".to_string(), "已发布".to_string()));
    assert_eq!(post_status_badge("draft"), ("badge-warning".to_string(), "草稿".to_string()));
    assert_eq!(post_status_badge("archived"), ("badge-neutral".to_string(), "archived".to_string()));
    assert_eq!(page_status_badge("published"), ("badge-success".to_string(), "已发布".to_string()));
    assert_eq!(page_status_badge("archived"), ("badge-warning".to_string(), "草稿".to_string()));
}

#[test]
fn theme_settings_grouped_in_first_seen_order() {
    let groups: Vec<String> = ["colors", "", "fonts", "colors", ""].iter().map(|s| s.to_string()).collect();
    let g = group_fields(&groups);
    assert_eq!(
        g,
        vec![
            ("colors".to_string(), vec![0, 3]),
            ("通用".to_string(), vec![1, 4]),
            ("fonts".to_string(), vec![2]),
        ]
    );
    assert!(group_fields(&Vec::new()).is_empty());
}

#[test]
fn uploads_stored_as_webp_are_renamed() {
    assert_eq!(stored_file_name("photo.png", "image/webp"), "photo.webp");
    assert_eq!(stored_file_name("a.webp", "image/webp"), "a.webp");
    assert_eq!(stored_file_name("x.tar.gz", "image/webp"), "x.tar.webp");
    assert_eq!(stored_file_name("pic.png", "image/png"), "pic.png");
    assert_eq!(media_file_name("2024/01/abc.webp"), "abc.webp");
    assert_eq!(media_file_name(""), "");
}

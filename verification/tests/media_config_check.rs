use cblog::check::{run, CheckResult, ConfigFacts, PluginFacts, ProjectFacts, ThemeFacts};
use cblog::config::{
    default_allowed_types, default_max_file_size, default_port, MediaConfig, PluginConfig,
    RouteConfig,
};
use cblog::media::upload::{
    checked_max_size, checked_validate_upload, format_size, generate_storage_path, parse_max_size,
    storage_paths_for, validate_upload, UploadError,
};
use cblog::media::process::{format_to_mime, process_image, ImageKind};
use cblog::version::long_version;

#[test]
fn size_limits() {
    assert_eq!(parse_max_size("10MB"), 10 * 1024 * 1024);
    assert_eq!(parse_max_size(" 2gb "), 2 * 1024 * 1024 * 1024);
    assert_eq!(parse_max_size("512kb"), 512 * 1024);
    assert_eq!(parse_max_size("100B"), 100);
    assert_eq!(parse_max_size("100"), 100);
    assert_eq!(parse_max_size("abc"), 0);
    assert_eq!(parse_max_size("1 MB"), 1024 * 1024);
    assert_eq!(checked_max_size("99999999999999999999GB"), Some(0));
    assert_eq!(checked_max_size("18446744073709551615GB"), None);
}

#[test]
fn upload_validation() {
    let config = MediaConfig::default();
    assert!(validate_upload(&[0u8; 10], "image/png", &config).is_ok());
    match validate_upload(&[0u8; 10], "text/plain", &config) {
        Err(UploadError::UnsupportedType { mime_type }) => assert_eq!(mime_type, "text/plain"),
        other => panic!("unexpected {other:?}"),
    }
    let small = MediaConfig { max_file_size: "4B".to_string(), ..MediaConfig::default() };
    match validate_upload(&[0u8; 10], "text/plain", &small) {
        Err(UploadError::TooLarge { size, limit }) => {
            assert_eq!(size, 10);
            assert_eq!(limit, "4B");
        }
        other => panic!("unexpected {other:?}"),
    }
    let huge = MediaConfig { max_file_size: "18446744073709551615GB".to_string(), ..MediaConfig::default() };
    assert!(checked_validate_upload(&[1], "image/png", &huge).is_none());
}

#[test]
fn storage_paths() {
    let (rel, url) = storage_paths_for("2024", "03", "01ABC", "photo.JPG");
    assert_eq!(rel, "2024/03/01ABC.JPG");
    assert_eq!(url, "/media/2024/03/01ABC.JPG");
    let (rel, _) = storage_paths_for("2024", "03", "X", "noext");
    assert_eq!(rel, "2024/03/X.bin");
    let (rel, url) = generate_storage_path("a.png");
    assert!(rel.ends_with(".png"));
    assert_eq!(url, format!("/media/{rel}"));
    assert_eq!(rel.split('/').count(), 3);
    let parts: Vec<&str> = rel.split('/').collect();
    assert!(parts[0].len() >= 4 && parts[0].chars().skip(1).all(|c| c.is_ascii_digit()));
    let month: u32 = parts[1].parse().unwrap();
    assert!(parts[1].len() == 2 && (1..=12).contains(&month));
}

#[test]
fn config_defaults() {
    assert_eq!(default_port(), 3000);
    assert_eq!(default_max_file_size(), "10MB");
    assert_eq!(default_allowed_types().len(), 4);
    let r = RouteConfig::default();
    assert_eq!(r.post_url, "/posts/{slug}/");
    assert_eq!(r.archive_url, "/archive/{year}/{month}/");
    assert!(PluginConfig::default().enabled.is_empty());
    let m = MediaConfig::default();
    assert_eq!(m.webp_quality, 85);
    assert_eq!(m.thumb_width, 400);
}

fn theme_ok() -> ThemeFacts {
    ThemeFacts {
        dir_exists: true,
        theme_toml_exists: true,
        templates_dir_exists: true,
        base_html_exists: false,
        base_cbtml_exists: true,
        assets_dir_exists: true,
    }
}

#[test]
fn project_checks() {
    let missing = ProjectFacts { config: ConfigFacts::Missing, posts_dir_exists: false, pages_dir_exists: true };
    let CheckResult { errors, warnings } = run(&missing);
    assert_eq!(errors, vec!["缺少 cblog.toml 配置文件"]);
    assert_eq!(warnings, vec!["content/posts/ 目录不存在"]);

    let plugins = vec![
        PluginFacts { name: "ok".into(), dir_exists: true, toml_exists: true, toml_error: None, main_lua_exists: true },
        PluginFacts { name: "gone".into(), dir_exists: false, toml_exists: false, toml_error: None, main_lua_exists: false },
        PluginFacts { name: "bad".into(), dir_exists: true, toml_exists: true, toml_error: Some("oops".into()), main_lua_exists: false },
    ];
    let facts = ProjectFacts {
        config: ConfigFacts::Loaded { active_theme: "aurora".into(), theme: ThemeFacts { assets_dir_exists: false, ..theme_ok() }, plugins },
        posts_dir_exists: true,
        pages_dir_exists: true,
    };
    let r = run(&facts);
    assert_eq!(
        r.errors,
        vec!["插件目录 plugins/gone/ 不存在", "插件 bad 的 plugin.toml 解析失败: oops", "插件 bad 缺少 main.lua"]
    );
    assert_eq!(r.warnings, vec!["主题 aurora 缺少 assets/ 目录"]);

    let clean = ProjectFacts {
        config: ConfigFacts::Loaded { active_theme: "aurora".into(), theme: theme_ok(), plugins: vec![] },
        posts_dir_exists: true,
        pages_dir_exists: true,
    };
    let r = run(&clean);
    assert!(r.errors.is_empty() && r.warnings.is_empty());

    let no_theme = ProjectFacts {
        config: ConfigFacts::Loaded {
            active_theme: "x".into(),
            theme: ThemeFacts { dir_exists: false, ..theme_ok() },
            plugins: vec![],
        },
        posts_dir_exists: true,
        pages_dir_exists: true,
    };
    assert_eq!(run(&no_theme).errors, vec!["主题目录 themes/x/ 不存在"]);

    let invalid = ProjectFacts { config: ConfigFacts::Invalid { error: "bad toml".into() }, posts_dir_exists: true, pages_dir_exists: true };
    assert_eq!(run(&invalid).errors, vec!["cblog.toml 解析失败: bad toml"]);
}

#[test]
fn version_text() {
    assert_eq!(
        long_version("0.1.0", "abc", "2024-01-01T00:00:00Z", "x86_64", "release"),
        "0.1.0\ncommit:  abc\nbuild:   2024-01-01T00:00:00Z\ntarget:  x86_64\nprofile: release"
    );
}

fn float_format_size(bytes: usize) -> String {
    if bytes >= 1024 * 1024 {
        format!("{:.1}MB", bytes as f64 / (1024.0 * 1024.0))
    } else if bytes >= 1024 {
        format!("{:.1}KB", bytes as f64 / 1024.0)
    } else {
        format!("{}B", bytes)
    }
}

#[test]
fn format_size_examples() {
    assert_eq!(format_size(0), "0B");
    assert_eq!(format_size(1023), "1023B");
    assert_eq!(format_size(1024), "1.0KB");
    assert_eq!(format_size(1536), "1.5KB");
    assert_eq!(format_size(1024 * 1024), "1.0MB");
    assert_eq!(format_size(5 * 1024 * 1024 + 512 * 1024), "5.5MB");
}

#[test]
fn format_size_agrees_with_float_formatting() {
    let mut samples: Vec<usize> = Vec::new();
    for b in 0..5000usize {
        samples.push(b);
    }
    for k in 0..2000usize {
        samples.push(1024 * 1024 + k * 52429);
        samples.push(256 + 512 * k);
        samples.push(524288 + 1048576 * k);
    }
    let big: [usize; 8] = [
        usize::MAX,
        usize::MAX - 1,
        (1usize << 53) + 1,
        (1usize << 53) + 3,
        (1usize << 60) + (1usize << 7),
        (1usize << 60) + (3usize << 7),
        (1usize << 63) + (1usize << 10) + 1,
        123456789012345678,
    ];
    samples.extend_from_slice(&big);
    for b in samples {
        assert_eq!(format_size(b), float_format_size(b), "bytes = {}", b);
    }
}

#[test]
fn upload_error_messages() {
    let e = UploadError::TooLarge { size: 3 * 1024 * 1024, limit: "2MB".to_string() };
    assert_eq!(e.to_message(), "文件大小 3.0MB 超出限制 2MB");
    let e = UploadError::UnsupportedType { mime_type: "text/x".to_string() };
    assert_eq!(e.to_message(), "不支持的文件类型：text/x");
}

fn media_config(auto_webp: bool, generate_thumb: bool) -> MediaConfig {
    MediaConfig {
        upload_dir: "media".to_string(),
        max_file_size: "10MB".to_string(),
        allowed_types: default_allowed_types(),
        auto_webp,
        webp_quality: 80,
        generate_thumb,
        thumb_width: 2,
    }
}

fn small_png() -> Vec<u8> {
    let img = image::RgbImage::from_fn(4, 2, |x, y| image::Rgb([(x * 60) as u8, (y * 120) as u8, 7]));
    let mut buf = std::io::Cursor::new(Vec::new());
    img.write_to(&mut buf, image::ImageFormat::Png).unwrap();
    buf.into_inner()
}

#[test]
fn images_convert_to_webp_with_thumbnail() {
    let png = small_png();
    let p = process_image(&png, &media_config(true, true)).unwrap();
    assert_eq!((p.width, p.height), (4, 2));
    assert_eq!(p.mime_type, "image/webp");
    assert_eq!(&p.data[0..4], b"RIFF");
    assert_eq!(&p.data[8..12], b"WEBP");
    let thumb = p.thumbnail.unwrap();
    assert_eq!(&thumb[8..12], b"WEBP");
}

#[test]
fn images_kept_as_uploaded_without_conversion() {
    let png = small_png();
    let p = process_image(&png, &media_config(false, true)).unwrap();
    assert_eq!(p.mime_type, "image/png");
    assert_eq!(p.data, png);
    assert_eq!(&p.thumbnail.unwrap()[1..4], b"PNG");
    let p = process_image(&png, &media_config(false, false)).unwrap();
    assert!(p.thumbnail.is_none());
}

#[test]
fn undecodable_images_are_refused() {
    assert_eq!(process_image(b"not an image", &media_config(true, true)).err(), Some("无法解码图片".to_string()));
    assert_eq!(format_to_mime(Some(ImageKind::Gif)), "image/gif");
    assert_eq!(format_to_mime(None), "application/octet-stream");
}

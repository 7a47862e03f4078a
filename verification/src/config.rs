//! Site configuration (`cblog.toml`) and its defaults.
use vstd::prelude::*;

verus! {

/// `[site]`: the site itself.
#[derive(Debug)]
pub struct SiteInfo {
    pub title: String,
    pub subtitle: String,
    pub description: String,
    pub url: String,
    pub language: String,
    pub timezone: String,
    pub author: AuthorInfo,
}

/// `[site.author]`.
#[derive(Debug, Default)]
pub struct AuthorInfo {
    pub name: String,
    pub email: String,
    pub avatar: String,
    pub bio: String,
}

/// `[build]`: output and paging.
#[derive(Debug)]
pub struct BuildConfig {
    pub output_dir: String,
    pub cache_dir: String,
    pub posts_per_page: usize,
    pub date_format: String,
    pub excerpt_length: usize,
    pub parallel: bool,
}

/// `[theme]`: the active theme.
#[derive(Debug)]
pub struct ThemeRef {
    pub active: String,
}

/// `[routes]`: URL patterns.
#[derive(Debug)]
pub struct RouteConfig {
    pub post_url: String,
    pub tag_url: String,
    pub category_url: String,
    pub archive_url: String,
}

/// `[server]`: the admin server.
#[derive(Debug)]
pub struct ServerConfig {
    pub host: String,
    pub port: u16,
    pub log_level: String,
}

/// `[feed]`: RSS and Atom feeds.
#[derive(Debug)]
pub struct FeedConfig {
    pub enabled: bool,
    pub format: Vec<String>,
    pub post_count: usize,
    pub full_content: bool,
}

/// `[auth]`: admin sessions.
#[derive(Debug)]
pub struct AuthConfig {
    pub jwt_secret: String,
    pub jwt_expires_in: String,
    pub session_name: String,
}

/// `[media]`: uploads.
#[derive(Debug)]
pub struct MediaConfig {
    pub upload_dir: String,
    pub max_file_size: String,
    pub allowed_types: Vec<String>,
    pub auto_webp: bool,
    pub webp_quality: u8,
    pub generate_thumb: bool,
    pub thumb_width: u32,
}

/// `[plugins]`: the enabled plugins.
#[derive(Debug)]
pub struct PluginConfig {
    pub enabled: Vec<String>,
}

/// The default site language.
pub fn default_language() -> (r: String)
    ensures
        r@ == "zh-CN"@,
{
    "zh-CN".to_owned()
}

/// The default time zone.
pub fn default_timezone() -> (r: String)
    ensures
        r@ == "Asia/Shanghai"@,
{
    "Asia/Shanghai".to_owned()
}

/// The default output directory.
pub fn default_output_dir() -> (r: String)
    ensures
        r@ == "public"@,
{
    "public".to_owned()
}

/// The default cache directory.
pub fn default_cache_dir() -> (r: String)
    ensures
        r@ == ".cblog-cache"@,
{
    ".cblog-cache".to_owned()
}

/// The default date format.
pub fn default_date_format() -> (r: String)
    ensures
        r@ == "Y年m月d日"@,
{
    "Y年m月d日".to_owned()
}

/// The default post URL pattern.
pub fn default_post_url() -> (r: String)
    ensures
        r@ == "/posts/{slug}/"@,
{
    "/posts/{slug}/".to_owned()
}

/// The default tag URL pattern.
pub fn default_tag_url() -> (r: String)
    ensures
        r@ == "/tags/{slug}/"@,
{
    "/tags/{slug}/".to_owned()
}

/// The default category URL pattern.
pub fn default_category_url() -> (r: String)
    ensures
        r@ == "/category/{slug}/"@,
{
    "/category/{slug}/".to_owned()
}

/// The default archive URL pattern.
pub fn default_archive_url() -> (r: String)
    ensures
        r@ == "/archive/{year}/{month}/"@,
{
    "/archive/{year}/{month}/".to_owned()
}

/// The default listening host.
pub fn default_host() -> (r: String)
    ensures
        r@ == "127.0.0.1"@,
{
    "127.0.0.1".to_owned()
}

/// The default log level.
pub fn default_log_level() -> (r: String)
    ensures
        r@ == "info"@,
{
    "info".to_owned()
}

/// The default sitemap change frequency.
pub fn default_change_freq() -> (r: String)
    ensures
        r@ == "weekly"@,
{
    "weekly".to_owned()
}

/// The default JWT secret, to be replaced.
pub fn default_jwt_secret() -> (r: String)
    ensures
        r@ == "CHANGE_ME_IN_PRODUCTION"@,
{
    "CHANGE_ME_IN_PRODUCTION".to_owned()
}

/// The default session lifetime.
pub fn default_jwt_expires_in() -> (r: String)
    ensures
        r@ == "7d"@,
{
    "7d".to_owned()
}

/// The default session cookie name.
pub fn default_session_name() -> (r: String)
    ensures
        r@ == "cblog_session"@,
{
    "cblog_session".to_owned()
}

/// The default upload directory.
pub fn default_upload_dir() -> (r: String)
    ensures
        r@ == "media"@,
{
    "media".to_owned()
}

/// The default largest upload.
pub fn default_max_file_size() -> (r: String)
    ensures
        r@ == "10MB"@,
{
    "10MB".to_owned()
}

/// The default number of posts per page.
pub fn default_posts_per_page() -> (r: usize)
    ensures
        r == 10,
{
    10
}

/// The default excerpt length in characters.
pub fn default_excerpt_length() -> (r: usize)
    ensures
        r == 160,
{
    160
}

/// The default listening port.
pub fn default_port() -> (r: u16)
    ensures
        r == 3000,
{
    3000
}

/// The default number of posts in a feed.
pub fn default_feed_count() -> (r: usize)
    ensures
        r == 20,
{
    20
}

/// The default WebP quality.
pub fn default_webp_quality() -> (r: u8)
    ensures
        r == 85,
{
    85
}

/// The default thumbnail width in pixels.
pub fn default_thumb_width() -> (r: u32)
    ensures
        r == 400,
{
    400
}

/// Flags that are on unless configured off.
pub fn default_true() -> (r: bool)
    ensures
        r,
{
    true
}

/// The default feed formats: RSS and Atom.
pub fn default_feed_formats() -> (r: Vec<String>)
    ensures
        r.deep_view() == seq!["rss"@, "atom"@],
{
    let mut v: Vec<String> = Vec::new();
    v.push("rss".to_owned());
    v.push("atom".to_owned());
    assert(v.deep_view() =~= seq!["rss"@, "atom"@]);
    v
}

/// The default accepted upload types: JPEG, PNG, GIF and WebP images.
pub fn default_allowed_types() -> (r: Vec<String>)
    ensures
        r.deep_view() == seq!["image/jpeg"@, "image/png"@, "image/gif"@, "image/webp"@],
{
    let mut v: Vec<String> = Vec::new();
    v.push("image/jpeg".to_owned());
    v.push("image/png".to_owned());
    v.push("image/gif".to_owned());
    v.push("image/webp".to_owned());
    assert(v.deep_view() =~= seq!["image/jpeg"@, "image/png"@, "image/gif"@, "image/webp"@]);
    v
}

impl Default for RouteConfig {
    fn default() -> (r: Self)
        ensures
            r.post_url@ == "/posts/{slug}/"@,
            r.tag_url@ == "/tags/{slug}/"@,
            r.category_url@ == "/category/{slug}/"@,
            r.archive_url@ == "/archive/{year}/{month}/"@,
    {
        RouteConfig {
            post_url: default_post_url(),
            tag_url: default_tag_url(),
            category_url: default_category_url(),
            archive_url: default_archive_url(),
        }
    }
}

impl Default for ServerConfig {
    fn default() -> (r: Self)
        ensures
            r.host@ == "127.0.0.1"@,
            r.port == 3000,
            r.log_level@ == "info"@,
    {
        ServerConfig { host: default_host(), port: default_port(), log_level: default_log_level() }
    }
}

impl Default for FeedConfig {
    fn default() -> (r: Self)
        ensures
            r.enabled,
            r.format.deep_view() == seq!["rss"@, "atom"@],
            r.post_count == 20,
            !r.full_content,
    {
        FeedConfig {
            enabled: true,
            format: default_feed_formats(),
            post_count: default_feed_count(),
            full_content: false,
        }
    }
}

impl Default for AuthConfig {
    fn default() -> (r: Self)
        ensures
            r.jwt_secret@ == "CHANGE_ME_IN_PRODUCTION"@,
            r.jwt_expires_in@ == "7d"@,
            r.session_name@ == "cblog_session"@,
    {
        AuthConfig {
            jwt_secret: default_jwt_secret(),
            jwt_expires_in: default_jwt_expires_in(),
            session_name: default_session_name(),
        }
    }
}

impl Default for MediaConfig {
    fn default() -> (r: Self)
        ensures
            r.upload_dir@ == "media"@,
            r.max_file_size@ == "10MB"@,
            r.allowed_types.deep_view() == seq![
                "image/jpeg"@,
                "image/png"@,
                "image/gif"@,
                "image/webp"@,
            ],
            r.auto_webp,
            r.webp_quality == 85,
            r.generate_thumb,
            r.thumb_width == 400,
    {
        MediaConfig {
            upload_dir: default_upload_dir(),
            max_file_size: default_max_file_size(),
            allowed_types: default_allowed_types(),
            auto_webp: true,
            webp_quality: default_webp_quality(),
            generate_thumb: true,
            thumb_width: default_thumb_width(),
        }
    }
}

impl Default for PluginConfig {
    fn default() -> (r: Self)
        ensures
            r.enabled@.len() == 0,
    {
        PluginConfig { enabled: Vec::new() }
    }
}

} // verus!

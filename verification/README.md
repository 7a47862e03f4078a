# cblog

The logic of a static blog engine with an admin panel, a plugin system and
its own template language, written in Verus: each function of the library
states what it computes in `requires`/`ensures`, and Verus proves it.

## Layout

- `src/` — the verified library.
  - `text`, `digest`, `paths` — the string model (views as `Seq<char>`),
    SHA-256/HMAC names and hexadecimal, path pieces.
  - `cbtml` — the template language: lexer, parser, code generation to
    MiniJinja, filters, error reports.
  - `content` — posts, lazily rendered Markdown, excerpts, tables of
    contents, reading time, front matter split, slugs and dates.
  - `builder` — incremental builds (hash cache, template dependency graph,
    rebuild plans, the pages an incremental build renders), the published
    posts newest first, the pages to render with pagination and URLs,
    rendering pages with MiniJinja and the files they are written to,
    taxonomy, feeds and sitemap, HTML post-processing.
  - `plugin` — `plugin.toml` model, version order, plugin load order.
  - `lua` — the logic behind the scripting API: hook registry and dispatch
    order, the file path sandbox, S3 request signing, HTML stripping, dates.
  - `admin` — sessions, passwords, CSRF, login rate limiting, list paging,
    theme settings grouping, plugin toggling, plugin admin pages, form
    checks, layout helpers.
  - `media` — upload limits and checks, storage paths, sizes for people,
    image processing decisions.
  - `check`, `config`, `version` — project checks, configuration defaults,
    the long version string.
- `app/` — the command line (`cblog check`), reading `cblog.toml` and
  `plugin.toml` files and gathering what the checks look at.
- `tests/` — tests of the library on concrete values.

Calls into other crates (`sha2`, `hmac`, `pulldown-cmark`, `chrono`, `ulid`,
`argon2`, `regex`, `gray_matter`, `minijinja`, `reqwest`'s URL parser, `image`, and a few `std`
functions) stand behind small trusted wrappers whose contracts say what the
crate's documentation or source promises; their results are named where
they take pages to state.

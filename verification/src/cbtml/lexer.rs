//! The cbtml lexer: one token per significant source line.
use crate::cbtml::error::{error_context, CbtmlError, ErrorSpec};
use crate::text::{
    byte_len, chars_of, contains, ends_with, find, find_exec, index_of_exec, index_of_from,
    is_ascii_alnum, is_ascii_alpha, lead_ws, lemma_find_from_props, lemma_index_of_props,
    line_bounds, lines, range_eq, ranges_view, starts_with, starts_with_at, ends_with_at, string_of,
    string_of_range, trim, trim_bounds, trimmed_string, vec_range, byte_len_range, push_all,
};
use vstd::prelude::*;

verus! {

/// The value of an element attribute.
#[derive(Debug, Clone, PartialEq)]
pub enum AttrValue {
    /// A literal value.
    Static(String),
    /// An expression written `{{ expr }}`.
    Dynamic(String),
}

/// The kind of a cbtml token.
#[derive(Debug, Clone, PartialEq)]
pub enum TokenKind {
    /// `tag.class1.class2#id [attr="val"] inline text`
    Element {
        tag: String,
        classes: Vec<String>,
        id: Option<String>,
        attributes: Vec<(String, AttrValue)>,
        inline_text: Option<String>,
    },
    /// A plain text line.
    Text(String),
    /// `{{ expr }}`
    Expression(String),
    /// `raw expr`
    Raw(String),
    /// `if expr`
    If(String),
    /// `else if expr`
    ElseIf(String),
    /// `else`
    Else,
    /// `end`
    End,
    /// `for var in collection`
    For { var: String, collection: String },
    /// `extends parent`
    Extends(String),
    /// `slot name`
    Slot(String),
    /// `include path`
    Include(String),
    /// `style` block opener
    StyleBlock,
    /// `script` block opener
    ScriptBlock,
    /// `{# comment #}`
    Comment(String),
    /// `hook("name", data)`
    Hook { name: String, data: String },
    /// A line inside a `style` or `script` block.
    RawContent(String),
}

/// A token with its indentation level (two spaces per level), line and column.
#[derive(Debug, Clone)]
pub struct Token {
    pub kind: TokenKind,
    pub indent: usize,
    pub line: usize,
    pub col: usize,
}

/// The mathematical content of an [`AttrValue`].
pub enum AttrSpec {
    Static(Seq<char>),
    Dynamic(Seq<char>),
}

/// The mathematical content of a [`TokenKind`].
pub enum KindSpec {
    Element {
        tag: Seq<char>,
        classes: Seq<Seq<char>>,
        id: Option<Seq<char>>,
        attributes: Seq<(Seq<char>, AttrSpec)>,
        inline_text: Option<Seq<char>>,
    },
    Text(Seq<char>),
    Expression(Seq<char>),
    Raw(Seq<char>),
    If(Seq<char>),
    ElseIf(Seq<char>),
    Else,
    End,
    For { var: Seq<char>, collection: Seq<char> },
    Extends(Seq<char>),
    Slot(Seq<char>),
    Include(Seq<char>),
    StyleBlock,
    ScriptBlock,
    Comment(Seq<char>),
    Hook { name: Seq<char>, data: Seq<char> },
    RawContent(Seq<char>),
}

/// The mathematical content of a [`Token`].
pub struct TokenSpec {
    pub kind: KindSpec,
    pub indent: nat,
    pub line: nat,
    pub col: nat,
}

impl View for AttrValue {
    type V = AttrSpec;

    open spec fn view(&self) -> AttrSpec {
        match self {
            AttrValue::Static(s) => AttrSpec::Static(s@),
            AttrValue::Dynamic(s) => AttrSpec::Dynamic(s@),
        }
    }
}

/// The view of an attribute list.
pub open spec fn attrs_view(a: Seq<(String, AttrValue)>) -> Seq<(Seq<char>, AttrSpec)> {
    a.map_values(|p: (String, AttrValue)| (p.0@, p.1@))
}

impl View for TokenKind {
    type V = KindSpec;

    open spec fn view(&self) -> KindSpec {
        match self {
            TokenKind::Element { tag, classes, id, attributes, inline_text } => KindSpec::Element {
                tag: tag@,
                classes: classes.deep_view(),
                id: id.deep_view(),
                attributes: attrs_view(attributes@),
                inline_text: inline_text.deep_view(),
            },
            TokenKind::Text(s) => KindSpec::Text(s@),
            TokenKind::Expression(s) => KindSpec::Expression(s@),
            TokenKind::Raw(s) => KindSpec::Raw(s@),
            TokenKind::If(s) => KindSpec::If(s@),
            TokenKind::ElseIf(s) => KindSpec::ElseIf(s@),
            TokenKind::Else => KindSpec::Else,
            TokenKind::End => KindSpec::End,
            TokenKind::For { var, collection } => KindSpec::For {
                var: var@,
                collection: collection@,
            },
            TokenKind::Extends(s) => KindSpec::Extends(s@),
            TokenKind::Slot(s) => KindSpec::Slot(s@),
            TokenKind::Include(s) => KindSpec::Include(s@),
            TokenKind::StyleBlock => KindSpec::StyleBlock,
            TokenKind::ScriptBlock => KindSpec::ScriptBlock,
            TokenKind::Comment(s) => KindSpec::Comment(s@),
            TokenKind::Hook { name, data } => KindSpec::Hook { name: name@, data: data@ },
            TokenKind::RawContent(s) => KindSpec::RawContent(s@),
        }
    }
}

impl View for Token {
    type V = TokenSpec;

    open spec fn view(&self) -> TokenSpec {
        TokenSpec {
            kind: self.kind@,
            indent: self.indent as nat,
            line: self.line as nat,
            col: self.col as nat,
        }
    }
}

/// The view of a token list.
pub open spec fn tokens_view(t: Seq<Token>) -> Seq<TokenSpec> {
    t.map_values(|x: Token| x@)
}

// ───────────────────────── element declarations ─────────────────────────

/// Characters of tag, class, id (and, with `colon`, attribute) names.
pub open spec fn is_ident(c: char, colon: bool) -> bool {
    is_ascii_alnum(c) || c == '-' || c == '_' || (colon && c == ':')
}

/// End of the name that starts at `i`.
pub open spec fn ident_end(s: Seq<char>, i: int, colon: bool) -> int
    decreases s.len() - i,
{
    if 0 <= i < s.len() && is_ident(s[i], colon) {
        ident_end(s, i + 1, colon)
    } else {
        i
    }
}

/// First position at or after `i` that is not a space.
pub open spec fn skip_sp(s: Seq<char>, i: int) -> int
    decreases s.len() - i,
{
    if 0 <= i < s.len() && s[i] == ' ' {
        skip_sp(s, i + 1)
    } else {
        i
    }
}

pub proof fn lemma_ident_end(s: Seq<char>, i: int, colon: bool)
    requires
        0 <= i <= s.len(),
    ensures
        i <= ident_end(s, i, colon) <= s.len(),
        forall|j: int| i <= j < ident_end(s, i, colon) ==> is_ident(#[trigger] s[j], colon),
        ident_end(s, i, colon) < s.len() ==> !is_ident(s[ident_end(s, i, colon)], colon),
    decreases s.len() - i,
{
    if 0 <= i < s.len() && is_ident(s[i], colon) {
        lemma_ident_end(s, i + 1, colon);
    }
}

pub proof fn lemma_skip_sp(s: Seq<char>, i: int)
    requires
        0 <= i <= s.len(),
    ensures
        i <= skip_sp(s, i) <= s.len(),
    decreases s.len() - i,
{
    if 0 <= i < s.len() && s[i] == ' ' {
        lemma_skip_sp(s, i + 1);
    }
}

/// The `.class` and `#id` selectors from `i`: end position, classes, id.
pub open spec fn selectors(s: Seq<char>, i: int, classes: Seq<Seq<char>>, id: Option<Seq<char>>) -> (
    int,
    Seq<Seq<char>>,
    Option<Seq<char>>,
)
    decreases s.len() - i,
{
    if 0 <= i < s.len() && (s[i] == '.' || s[i] == '#') {
        let e = ident_end(s, i + 1, false);
        proof {
            lemma_ident_end(s, i + 1, false);
        }
        let name = s.subrange(i + 1, e);
        if s[i] == '.' {
            selectors(
                s,
                e,
                if name.len() > 0 {
                    classes.push(name)
                } else {
                    classes
                },
                id,
            )
        } else {
            selectors(
                s,
                e,
                classes,
                if name.len() > 0 {
                    Some(name)
                } else {
                    id
                },
            )
        }
    } else {
        (i, classes, id)
    }
}

/// The expression of a dynamic attribute value, read from `i` with `depth`
/// open braces: end position and expression text.
pub open spec fn dyn_expr(s: Seq<char>, i: int, depth: int, acc: Seq<char>) -> (int, Seq<char>)
    decreases s.len() - i,
{
    if i < 0 || i >= s.len() {
        (i, acc)
    } else if s[i] == '}' {
        if depth - 1 == 0 {
            (i + 1, acc)
        } else {
            dyn_expr(s, i + 1, depth - 1, acc)
        }
    } else {
        dyn_expr(
            s,
            i + 1,
            if s[i] == '{' {
                depth + 1
            } else {
                depth
            },
            acc.push(s[i]),
        )
    }
}

pub proof fn lemma_dyn_expr(s: Seq<char>, i: int, depth: int, acc: Seq<char>)
    requires
        0 <= i <= s.len(),
    ensures
        i <= dyn_expr(s, i, depth, acc).0 <= s.len(),
    decreases s.len() - i,
{
    if i < 0 || i >= s.len() {
    } else if s[i] == '}' {
        if depth - 1 != 0 {
            lemma_dyn_expr(s, i + 1, depth - 1, acc);
        }
    } else {
        lemma_dyn_expr(
            s,
            i + 1,
            if s[i] == '{' {
                depth + 1
            } else {
                depth
            },
            acc.push(s[i]),
        );
    }
}

/// The position after a quoted value that starts after the quote at `k`.
pub open spec fn quoted_end(s: Seq<char>, k: int, q: char) -> int {
    let e = index_of_from(s, q, k + 1);
    if e < s.len() {
        e + 1
    } else {
        s.len() as int
    }
}

/// The attributes of one `[...]` block, read from `i`: end position and the
/// attribute list extended.
pub open spec fn attr_items(s: Seq<char>, i: int, attrs: Seq<(Seq<char>, AttrSpec)>) -> (
    int,
    Seq<(Seq<char>, AttrSpec)>,
)
    decreases s.len() - i,
{
    if i < 0 || i > s.len() {
        (i, attrs)
    } else {
        let p = skip_sp(s, i);
        proof {
            lemma_skip_sp(s, i);
        }
        if p < s.len() && s[p] == ']' {
            (p + 1, attrs)
        } else if p >= s.len() {
            (p, attrs)
        } else {
            let ne = ident_end(s, p, true);
            proof {
                lemma_ident_end(s, p, true);
            }
            if ne == p {
                (p, attrs)
            } else {
                let name = s.subrange(p, ne);
                let j = skip_sp(s, ne);
                proof {
                    lemma_skip_sp(s, ne);
                }
                if !(j < s.len() && s[j] == '=') {
                    attr_items(s, j, attrs.push((name, AttrSpec::Static(Seq::empty()))))
                } else {
                    let k = skip_sp(s, j + 1);
                    proof {
                        lemma_skip_sp(s, j + 1);
                    }
                    if k < s.len() && s[k] == '{' {
                        if k + 1 < s.len() && s[k + 1] == '{' {
                            let d = dyn_expr(s, k + 2, 2, Seq::empty());
                            proof {
                                lemma_dyn_expr(s, k + 2, 2, Seq::empty());
                            }
                            attr_items(s, d.0, attrs.push((name, AttrSpec::Dynamic(trim(d.1)))))
                        } else {
                            attr_items(s, k + 1, attrs)
                        }
                    } else if k < s.len() && (s[k] == '"' || s[k] == '\'') {
                        let e = index_of_from(s, s[k], k + 1);
                        proof {
                            lemma_index_of_props(s, s[k], k + 1);
                        }
                        attr_items(
                            s,
                            quoted_end(s, k, s[k]),
                            attrs.push((name, AttrSpec::Static(s.subrange(k + 1, e)))),
                        )
                    } else {
                        attr_items(s, k, attrs)
                    }
                }
            }
        }
    }
}

pub proof fn lemma_attr_items(s: Seq<char>, i: int, attrs: Seq<(Seq<char>, AttrSpec)>)
    requires
        0 <= i <= s.len(),
    ensures
        i <= attr_items(s, i, attrs).0 <= s.len(),
    decreases s.len() - i,
{
    let p = skip_sp(s, i);
    lemma_skip_sp(s, i);
    if p < s.len() && s[p] == ']' {
    } else if p >= s.len() {
    } else {
        let ne = ident_end(s, p, true);
        lemma_ident_end(s, p, true);
        if ne != p {
            let name = s.subrange(p, ne);
            let j = skip_sp(s, ne);
            lemma_skip_sp(s, ne);
            if !(j < s.len() && s[j] == '=') {
                lemma_attr_items(s, j, attrs.push((name, AttrSpec::Static(Seq::empty()))));
            } else {
                let k = skip_sp(s, j + 1);
                lemma_skip_sp(s, j + 1);
                if k < s.len() && s[k] == '{' {
                    if k + 1 < s.len() && s[k + 1] == '{' {
                        let d = dyn_expr(s, k + 2, 2, Seq::empty());
                        lemma_dyn_expr(s, k + 2, 2, Seq::empty());
                        lemma_attr_items(s, d.0, attrs.push((name, AttrSpec::Dynamic(trim(d.1)))));
                    } else {
                        lemma_attr_items(s, k + 1, attrs);
                    }
                } else if k < s.len() && (s[k] == '"' || s[k] == '\'') {
                    let e = index_of_from(s, s[k], k + 1);
                    lemma_index_of_props(s, s[k], k + 1);
                    lemma_attr_items(
                        s,
                        quoted_end(s, k, s[k]),
                        attrs.push((name, AttrSpec::Static(s.subrange(k + 1, e)))),
                    );
                } else {
                    lemma_attr_items(s, k, attrs);
                }
            }
        }
    }
}

/// The `[...]` attribute blocks from `i`: end position and attributes.
pub open spec fn attr_blocks(s: Seq<char>, i: int, attrs: Seq<(Seq<char>, AttrSpec)>) -> (
    int,
    Seq<(Seq<char>, AttrSpec)>,
)
    decreases s.len() - i,
{
    if 0 <= i < s.len() && s[i] == '[' {
        let r = attr_items(s, i + 1, attrs);
        proof {
            lemma_attr_items(s, i + 1, attrs);
            lemma_skip_sp(s, r.0);
        }
        attr_blocks(s, skip_sp(s, r.0), r.1)
    } else {
        (i, attrs)
    }
}

pub proof fn lemma_attr_blocks(s: Seq<char>, i: int, attrs: Seq<(Seq<char>, AttrSpec)>)
    requires
        0 <= i <= s.len(),
    ensures
        i <= attr_blocks(s, i, attrs).0 <= s.len(),
    decreases s.len() - i,
{
    if 0 <= i < s.len() && s[i] == '[' {
        let r = attr_items(s, i + 1, attrs);
        lemma_attr_items(s, i + 1, attrs);
        lemma_skip_sp(s, r.0);
        lemma_attr_blocks(s, skip_sp(s, r.0), r.1);
    }
}

/// An element declaration `tag.class#id [attrs] inline text`; `None` when the
/// line does not start with a tag name.
pub open spec fn element_spec(t: Seq<char>) -> Option<KindSpec> {
    let te = ident_end(t, 0, false);
    if te == 0 {
        None
    } else {
        let sel = selectors(t, te, Seq::empty(), None);
        let ab = attr_blocks(t, skip_sp(t, sel.0), Seq::empty());
        let rem = trim(t.skip(ab.0));
        Some(
            KindSpec::Element {
                tag: t.take(te),
                classes: sel.1,
                id: sel.2,
                attributes: ab.1,
                inline_text: if rem.len() > 0 {
                    Some(rem)
                } else {
                    None
                },
            },
        )
    }
}

fn ident_end_exec(s: &Vec<char>, i: usize, colon: bool) -> (r: usize)
    requires
        i <= s.len(),
    ensures
        r == ident_end(s@, i as int, colon),
{
    let mut k = i;
    while k < s.len() && (crate::text::char_is_ascii_alnum(s[k]) || s[k] == '-' || s[k] == '_' || (
    colon && s[k] == ':'))
        invariant
            i <= k <= s.len(),
            ident_end(s@, i as int, colon) == ident_end(s@, k as int, colon),
        decreases s.len() - k,
    {
        k += 1;
    }
    k
}

fn skip_sp_exec(s: &Vec<char>, i: usize) -> (r: usize)
    requires
        i <= s.len(),
    ensures
        r == skip_sp(s@, i as int),
{
    let mut k = i;
    while k < s.len() && s[k] == ' '
        invariant
            i <= k <= s.len(),
            skip_sp(s@, i as int) == skip_sp(s@, k as int),
        decreases s.len() - k,
    {
        k += 1;
    }
    k
}

fn dyn_expr_exec(s: &Vec<char>, i: usize) -> (r: (usize, String))
    requires
        2 <= i <= s.len(),
    ensures
        (r.0 as int, r.1@) == dyn_expr(s@, i as int, 2, Seq::empty()),
{
    let mut k = i;
    let mut depth: usize = 2;
    let mut acc = String::new();
    while k < s.len()
        invariant
            2 <= i <= k <= s.len(),
            1 <= depth <= 2 + (k - i),
            dyn_expr(s@, i as int, 2, Seq::empty()) == dyn_expr(s@, k as int, depth as int, acc@),
        decreases s.len() - k,
    {
        let c = s[k];
        if c == '}' {
            depth -= 1;
            k += 1;
            if depth == 0 {
                return (k, acc);
            }
        } else {
            if c == '{' {
                depth += 1;
            }
            crate::text::string_push(&mut acc, c);
            k += 1;
        }
    }
    (k, acc)
}

fn attrs_push(attrs: &mut Vec<(String, AttrValue)>, name: String, v: AttrValue)
    ensures
        attrs_view(final(attrs)@) == attrs_view(old(attrs)@).push((name@, v@)),
{
    let ghost n = name@;
    let ghost w = v@;
    attrs.push((name, v));
    assert(attrs_view(attrs@) =~= attrs_view(old(attrs)@).push((n, w)));
}

fn attr_items_exec(s: &Vec<char>, i: usize, attrs: &mut Vec<(String, AttrValue)>) -> (r: usize)
    requires
        i <= s.len(),
    ensures
        (r as int, attrs_view(final(attrs)@)) == attr_items(s@, i as int, attrs_view(old(attrs)@)),
{
    let ghost target = attr_items(s@, i as int, attrs_view(attrs@));
    let mut k = i;
    loop
        invariant
            i <= k <= s.len(),
            target == attr_items(s@, i as int, attrs_view(old(attrs)@)),
            target == attr_items(s@, k as int, attrs_view(attrs@)),
        decreases s.len() - k,
    {
        let p = skip_sp_exec(s, k);
        proof {
            lemma_skip_sp(s@, k as int);
        }
        if p < s.len() && s[p] == ']' {
            assert(attr_items(s@, k as int, attrs_view(attrs@)) == (p + 1, attrs_view(attrs@)));
            return p + 1;
        }
        if p >= s.len() {
            assert(attr_items(s@, k as int, attrs_view(attrs@)) == (p as int, attrs_view(attrs@)));
            return p;
        }
        let ne = ident_end_exec(s, p, true);
        proof {
            lemma_ident_end(s@, p as int, true);
        }
        if ne == p {
            return p;
        }
        let name = string_of_range(s, p, ne);
        let j = skip_sp_exec(s, ne);
        proof {
            lemma_skip_sp(s@, ne as int);
        }
        if !(j < s.len() && s[j] == '=') {
            attrs_push(attrs, name, AttrValue::Static(String::new()));
            k = j;
        } else {
            let k2 = skip_sp_exec(s, j + 1);
            proof {
                lemma_skip_sp(s@, j + 1);
            }
            if k2 < s.len() && s[k2] == '{' {
                if k2 + 1 < s.len() && s[k2 + 1] == '{' {
                    let (e, expr) = dyn_expr_exec(s, k2 + 2);
                    proof {
                        lemma_dyn_expr(s@, k2 + 2, 2, Seq::empty());
                    }
                    let ev = chars_of(expr.as_str());
                    let tv = trimmed_string(&ev, 0, ev.len());
                    assert(ev@.subrange(0, ev@.len() as int) == ev@);
                    attrs_push(attrs, name, AttrValue::Dynamic(tv));
                    k = e;
                } else {
                    k = k2 + 1;
                }
            } else if k2 < s.len() && (s[k2] == '"' || s[k2] == '\'') {
                let q = s[k2];
                let e = index_of_exec(s, q, k2 + 1);
                proof {
                    lemma_index_of_props(s@, q, k2 + 1);
                }
                let val = string_of_range(s, k2 + 1, e);
                attrs_push(attrs, name, AttrValue::Static(val));
                if e < s.len() {
                    k = e + 1;
                } else {
                    k = s.len();
                }
            } else {
                k = k2;
            }
        }
    }
}

fn attr_blocks_exec(s: &Vec<char>, i: usize, attrs: &mut Vec<(String, AttrValue)>) -> (r: usize)
    requires
        i <= s.len(),
    ensures
        (r as int, attrs_view(final(attrs)@)) == attr_blocks(s@, i as int, attrs_view(old(attrs)@)),
{
    let ghost target = attr_blocks(s@, i as int, attrs_view(attrs@));
    let mut k = i;
    while k < s.len() && s[k] == '['
        invariant
            i <= k <= s.len(),
            target == attr_blocks(s@, k as int, attrs_view(attrs@)),
        decreases s.len() - k,
    {
        let ghost before = attrs_view(attrs@);
        let e = attr_items_exec(s, k + 1, attrs);
        proof {
            lemma_attr_items(s@, k + 1, before);
        }
        let e2 = skip_sp_exec(s, e);
        proof {
            lemma_skip_sp(s@, e as int);
        }
        k = e2;
    }
    k
}

/// The element declaration of a trimmed line as a token kind.
fn element_kind(s: &Vec<char>) -> (r: Option<TokenKind>)
    ensures
        match r {
            Some(k) => element_spec(s@) == Some(k@),
            None => element_spec(s@) is None,
        },
{
    let te = ident_end_exec(s, 0, false);
    proof {
        lemma_ident_end(s@, 0, false);
    }
    if te == 0 {
        return None;
    }
    let tag = string_of_range(s, 0, te);
    let mut classes: Vec<String> = Vec::new();
    let mut id: Option<String> = None;
    let mut k = te;
    let ghost target = selectors(s@, te as int, Seq::empty(), None);
    assert(classes.deep_view() =~= Seq::<Seq<char>>::empty());
    while k < s.len() && (s[k] == '.' || s[k] == '#')
        invariant
            te <= k <= s.len(),
            target == selectors(s@, k as int, classes.deep_view(), id.deep_view()),
        decreases s.len() - k,
    {
        let e = ident_end_exec(s, k + 1, false);
        proof {
            lemma_ident_end(s@, k + 1, false);
        }
        if s[k] == '.' {
            if e > k + 1 {
                let name = string_of_range(s, k + 1, e);
                let ghost old_c = classes.deep_view();
                classes.push(name);
                assert(classes.deep_view() =~= old_c.push(s@.subrange(k + 1, e as int)));
            }
        } else {
            if e > k + 1 {
                let name = string_of_range(s, k + 1, e);
                id = Some(name);
            }
        }
        k = e;
    }
    let p = skip_sp_exec(s, k);
    proof {
        lemma_skip_sp(s@, k as int);
    }
    let mut attributes: Vec<(String, AttrValue)> = Vec::new();
    assert(attrs_view(attributes@) =~= Seq::<(Seq<char>, AttrSpec)>::empty());
    let e = attr_blocks_exec(s, p, &mut attributes);
    proof {
        lemma_attr_blocks(s@, p as int, Seq::empty());
        assert(s@.skip(e as int) == s@.subrange(e as int, s@.len() as int));
    }
    let rem = trimmed_string(s, e, s.len());
    let rv = chars_of(rem.as_str());
    let inline_text = if rv.len() > 0 {
        Some(rem)
    } else {
        None
    };
    Some(TokenKind::Element { tag, classes, id, attributes, inline_text })
}

/// Parses an element declaration `tag.class1.class2#id [attr="val" attr2={{ expr }}] text`.
pub fn parse_element(s: &str, indent: usize, line: usize, col: usize) -> (r: Option<Token>)
    ensures
        match r {
            Some(t) => element_spec(s@) == Some(t.kind@) && t.indent == indent && t.line == line
                && t.col == col,
            None => element_spec(s@) is None,
        },
{
    let v = chars_of(s);
    match element_kind(&v) {
        Some(kind) => Some(Token { kind, indent, line, col }),
        None => None,
    }
}


// ───────────────────────── hook calls ─────────────────────────

/// `hook("name", data)` or `hook("name")`; `None` when the call is malformed.
pub open spec fn hook_spec(t: Seq<char>) -> Option<KindSpec> {
    if !starts_with(t, "hook("@) {
        None
    } else {
        let a = t.skip("hook("@.len() as int);
        if !(a.len() > 0 && a.last() == ')') {
            None
        } else {
            let inner = trim(a.drop_last());
            let q = index_of_from(inner, '"', 0);
            if q >= inner.len() {
                None
            } else {
                let q2 = index_of_from(inner, '"', q + 1);
                if q2 >= inner.len() {
                    None
                } else {
                    let rest = trim(inner.skip(q2 + 1));
                    Some(
                        KindSpec::Hook {
                            name: inner.subrange(q + 1, q2),
                            data: if rest.len() > 0 && rest[0] == ',' {
                                trim(rest.skip(1))
                            } else {
                                Seq::empty()
                            },
                        },
                    )
                }
            }
        }
    }
}

fn hook_kind(t: &Vec<char>, hook: &Vec<char>) -> (r: Option<TokenKind>)
    requires
        hook@ == "hook("@,
    ensures
        match r {
            Some(k) => hook_spec(t@) == Some(k@),
            None => hook_spec(t@) is None,
        },
{
    if !starts_with_at(t, 0, t.len(), hook) {
        assert(t@.subrange(0, t@.len() as int) == t@);
        return None;
    }
    assert(t@.subrange(0, t@.len() as int) == t@);
    let a0 = hook.len();
    if !(a0 < t.len() && t[t.len() - 1] == ')') {
        return None;
    }
    let (x, y) = trim_bounds(t, a0, t.len() - 1);
    let inner = vec_range(t, x, y);
    proof {
        assert(t@.skip(a0 as int).drop_last() == t@.subrange(a0 as int, t.len() - 1));
    }
    let q = index_of_exec(&inner, '"', 0);
    if q >= inner.len() {
        return None;
    }
    proof {
        lemma_index_of_props(inner@, '"', q + 1);
    }
    let q2 = index_of_exec(&inner, '"', q + 1);
    if q2 >= inner.len() {
        return None;
    }
    let name = string_of_range(&inner, q + 1, q2);
    let (rx, ry) = trim_bounds(&inner, q2 + 1, inner.len());
    proof {
        assert(inner@.skip(q2 + 1) == inner@.subrange(q2 + 1, inner@.len() as int));
    }
    let data = if rx < ry && inner[rx] == ',' {
        let d = trimmed_string(&inner, rx + 1, ry);
        proof {
            let rest = inner@.subrange(rx as int, ry as int);
            assert(rest.skip(1) == inner@.subrange(rx + 1, ry as int));
        }
        d
    } else {
        String::new()
    };
    Some(TokenKind::Hook { name, data })
}

/// Parses a hook call `hook("name", data)` into a token.
pub fn parse_hook(s: &str, indent: usize, line: usize, col: usize) -> (r: Option<Token>)
    ensures
        match r {
            Some(t) => hook_spec(s@) == Some(t.kind@) && t.indent == indent && t.line == line
                && t.col == col,
            None => hook_spec(s@) is None,
        },
{
    let v = chars_of(s);
    let hook = chars_of("hook(");
    match hook_kind(&v, &hook) {
        Some(kind) => Some(Token { kind, indent, line, col }),
        None => None,
    }
}

// ───────────────────────── line classification ─────────────────────────

/// What a significant line (trimmed, non-empty) turns into.
pub enum LineStep {
    /// One token.
    Tok(KindSpec),
    /// The start of a comment that goes on over the next lines.
    StartComment(Seq<char>),
    /// A `style`/`script` opener whose deeper-indented lines are raw content.
    Block(KindSpec),
    /// An error (`true`: compile error, `false`: syntax error) with its message.
    Fail(bool, Seq<char>),
    /// A line the lexer cannot slice (a comment opened as `{#}`).
    Panic,
}

/// The meaning of a trimmed, non-empty line.
pub open spec fn classify(t: Seq<char>) -> LineStep {
    if starts_with(t, "{#"@) {
        match find(t, "#}"@) {
            Some(e) => if e < "{#"@.len() {
                LineStep::Panic
            } else {
                LineStep::Tok(KindSpec::Comment(trim(t.subrange("{#"@.len() as int, e))))
            },
            None => LineStep::StartComment(t.skip("{#"@.len() as int)),
        }
    } else if starts_with(t, "{{"@) && ends_with(t, "}}"@) {
        LineStep::Tok(
            KindSpec::Expression(
                trim(t.subrange("{{"@.len() as int, t.len() - "}}"@.len())),
            ),
        )
    } else if starts_with(t, "{{"@) && !contains(t, "}}"@) {
        LineStep::Fail(true, "未闭合的表达式，缺少 '}}'"@)
    } else if starts_with(t, "extends "@) {
        LineStep::Tok(KindSpec::Extends(trim(t.skip("extends "@.len() as int))))
    } else if starts_with(t, "if "@) {
        LineStep::Tok(KindSpec::If(trim(t.skip("if "@.len() as int))))
    } else if starts_with(t, "else if "@) {
        LineStep::Tok(KindSpec::ElseIf(trim(t.skip("else if "@.len() as int))))
    } else if t == "else"@ {
        LineStep::Tok(KindSpec::Else)
    } else if t == "end"@ {
        LineStep::Tok(KindSpec::End)
    } else if starts_with(t, "for "@) {
        let rest = trim(t.skip("for "@.len() as int));
        match find(rest, " in "@) {
            Some(p) => LineStep::Tok(
                KindSpec::For {
                    var: trim(rest.take(p)),
                    collection: trim(rest.skip(p + " in "@.len())),
                },
            ),
            None => LineStep::Fail(false, "for 语句缺少 'in' 关键字: "@ + t),
        }
    } else if starts_with(t, "slot "@) {
        LineStep::Tok(KindSpec::Slot(trim(t.skip("slot "@.len() as int))))
    } else if starts_with(t, "include "@) {
        LineStep::Tok(KindSpec::Include(trim(t.skip("include "@.len() as int))))
    } else if starts_with(t, "raw "@) {
        LineStep::Tok(KindSpec::Raw(trim(t.skip("raw "@.len() as int))))
    } else if starts_with(t, "hook("@) && hook_spec(t) is Some {
        LineStep::Tok(hook_spec(t).unwrap())
    } else if t == "style"@ {
        LineStep::Block(KindSpec::StyleBlock)
    } else if t == "script"@ {
        LineStep::Block(KindSpec::ScriptBlock)
    } else if t.len() > 0 && is_ascii_alpha(t[0]) && contains(t, "["@) && !contains(t, "]"@) {
        LineStep::Fail(true, "未闭合的属性括号，缺少 ']'"@)
    } else if t.len() > 0 && is_ascii_alpha(t[0]) && element_spec(t) is Some {
        LineStep::Tok(element_spec(t).unwrap())
    } else {
        LineStep::Tok(KindSpec::Text(t))
    }
}

/// The literal patterns the lexer looks for.
struct Pats {
    c_open: Vec<char>,
    c_close: Vec<char>,
    e_open: Vec<char>,
    e_close: Vec<char>,
    extends: Vec<char>,
    if_: Vec<char>,
    else_if: Vec<char>,
    else_: Vec<char>,
    end: Vec<char>,
    for_: Vec<char>,
    in_: Vec<char>,
    slot: Vec<char>,
    incl: Vec<char>,
    raw: Vec<char>,
    hook: Vec<char>,
    style: Vec<char>,
    script: Vec<char>,
    lbr: Vec<char>,
    rbr: Vec<char>,
}

impl Pats {
    spec fn wf(&self) -> bool {
        &&& self.c_open@ == "{#"@
        &&& self.c_close@ == "#}"@
        &&& self.e_open@ == "{{"@
        &&& self.e_close@ == "}}"@
        &&& self.extends@ == "extends "@
        &&& self.if_@ == "if "@
        &&& self.else_if@ == "else if "@
        &&& self.else_@ == "else"@
        &&& self.end@ == "end"@
        &&& self.for_@ == "for "@
        &&& self.in_@ == " in "@
        &&& self.slot@ == "slot "@
        &&& self.incl@ == "include "@
        &&& self.raw@ == "raw "@
        &&& self.hook@ == "hook("@
        &&& self.style@ == "style"@
        &&& self.script@ == "script"@
        &&& self.lbr@ == "["@
        &&& self.rbr@ == "]"@
    }

    fn new() -> (p: Pats)
        ensures
            p.wf(),
    {
        Pats {
            c_open: chars_of("{#"),
            c_close: chars_of("#}"),
            e_open: chars_of("{{"),
            e_close: chars_of("}}"),
            extends: chars_of("extends "),
            if_: chars_of("if "),
            else_if: chars_of("else if "),
            else_: chars_of("else"),
            end: chars_of("end"),
            for_: chars_of("for "),
            in_: chars_of(" in "),
            slot: chars_of("slot "),
            incl: chars_of("include "),
            raw: chars_of("raw "),
            hook: chars_of("hook("),
            style: chars_of("style"),
            script: chars_of("script"),
            lbr: chars_of("["),
            rbr: chars_of("]"),
        }
    }
}

/// The executable counterpart of [`LineStep`].
enum LineAction {
    Tok(TokenKind),
    StartComment(String),
    Block(TokenKind),
    Fail(bool, String),
    Panic,
}

spec fn action_matches(a: LineAction, s: LineStep) -> bool {
    match (a, s) {
        (LineAction::Tok(k), LineStep::Tok(ks)) => k@ == ks,
        (LineAction::StartComment(c), LineStep::StartComment(cs)) => c@ == cs,
        (LineAction::Block(k), LineStep::Block(ks)) => k@ == ks,
        (LineAction::Fail(b, m), LineStep::Fail(bs, ms)) => b == bs && m@ == ms,
        (LineAction::Panic, LineStep::Panic) => true,
        _ => false,
    }
}

/// `trim(t[a..])` as a `String`.
fn trimmed_tail(t: &Vec<char>, a: usize) -> (r: String)
    requires
        a <= t.len(),
    ensures
        r@ == trim(t@.skip(a as int)),
{
    assert(t@.skip(a as int) == t@.subrange(a as int, t@.len() as int));
    trimmed_string(t, a, t.len())
}

fn contains_exec(t: &Vec<char>, p: &Vec<char>) -> (r: bool)
    ensures
        r == contains(t@, p@),
{
    match find_exec(t, p, 0) {
        Some(_) => true,
        None => false,
    }
}

fn classify_exec(p: &Pats, t: &Vec<char>) -> (r: LineAction)
    requires
        p.wf(),
        t.len() > 0,
    ensures
        action_matches(r, classify(t@)),
{
    let n = t.len();
    assert(t@.subrange(0, n as int) == t@);
    if starts_with_at(t, 0, n, &p.c_open) {
        match find_exec(t, &p.c_close, 0) {
            Some(e) => {
                if e < p.c_open.len() {
                    return LineAction::Panic;
                }
                proof {
                    lemma_find_from_props(t@, p.c_close@, 0);
                }
                return LineAction::Tok(TokenKind::Comment(trimmed_string(t, p.c_open.len(), e)));
            },
            None => {
                proof {
                    assert(t@.skip(p.c_open@.len() as int) == t@.subrange(
                        p.c_open@.len() as int,
                        n as int,
                    ));
                }
                return LineAction::StartComment(string_of_range(t, p.c_open.len(), n));
            },
        }
    }
    if starts_with_at(t, 0, n, &p.e_open) && ends_with_at(t, 0, n, &p.e_close) {
        proof {
            reveal_strlit("{{");
            reveal_strlit("}}");
            if n < 4 {
                assert(t@.take(2)[0] == t@[0]);
                assert(t@.take(2)[1] == t@[1]);
                assert(t@.skip(n - 2)[0] == t@[n - 2]);
                assert(t@.skip(n - 2)[1] == t@[n - 1]);
                assert(t@[0] == '{');
                assert(t@[1] == '{');
                assert(t@[n - 1] == '}');
                assert(t@[n - 2] == '}');
            }
        }
        return LineAction::Tok(
            TokenKind::Expression(trimmed_string(t, p.e_open.len(), n - p.e_close.len())),
        );
    }
    if starts_with_at(t, 0, n, &p.e_open) && !contains_exec(t, &p.e_close) {
        return LineAction::Fail(true, "未闭合的表达式，缺少 '}}'".to_owned());
    }
    if starts_with_at(t, 0, n, &p.extends) {
        return LineAction::Tok(TokenKind::Extends(trimmed_tail(t, p.extends.len())));
    }
    if starts_with_at(t, 0, n, &p.if_) {
        return LineAction::Tok(TokenKind::If(trimmed_tail(t, p.if_.len())));
    }
    if starts_with_at(t, 0, n, &p.else_if) {
        return LineAction::Tok(TokenKind::ElseIf(trimmed_tail(t, p.else_if.len())));
    }
    if range_eq(t, 0, n, &p.else_) {
        return LineAction::Tok(TokenKind::Else);
    }
    if range_eq(t, 0, n, &p.end) {
        return LineAction::Tok(TokenKind::End);
    }
    if starts_with_at(t, 0, n, &p.for_) {
        let (rx, ry) = trim_bounds(t, p.for_.len(), n);
        let rest = vec_range(t, rx, ry);
        proof {
            assert(t@.skip(p.for_@.len() as int) == t@.subrange(p.for_@.len() as int, n as int));
        }
        match find_exec(&rest, &p.in_, 0) {
            Some(k) => {
                proof {
                    lemma_find_from_props(rest@, p.in_@, 0);
                    assert(rest@.take(k as int) == rest@.subrange(0, k as int));
                    assert(rest@.skip(k + p.in_@.len()) == rest@.subrange(
                        k + p.in_@.len(),
                        rest@.len() as int,
                    ));
                }
                let var = trimmed_string(&rest, 0, k);
                let collection = trimmed_string(&rest, k + p.in_.len(), rest.len());
                return LineAction::Tok(TokenKind::For { var, collection });
            },
            None => {
                let mut msg = "for 语句缺少 'in' 关键字: ".to_owned();
                let tt = string_of(t);
                push_all(&mut msg, &tt);
                return LineAction::Fail(false, msg);
            },
        }
    }
    if starts_with_at(t, 0, n, &p.slot) {
        return LineAction::Tok(TokenKind::Slot(trimmed_tail(t, p.slot.len())));
    }
    if starts_with_at(t, 0, n, &p.incl) {
        return LineAction::Tok(TokenKind::Include(trimmed_tail(t, p.incl.len())));
    }
    if starts_with_at(t, 0, n, &p.raw) {
        return LineAction::Tok(TokenKind::Raw(trimmed_tail(t, p.raw.len())));
    }
    if starts_with_at(t, 0, n, &p.hook) {
        match hook_kind(t, &p.hook) {
            Some(k) => {
                return LineAction::Tok(k);
            },
            None => {},
        }
    }
    if range_eq(t, 0, n, &p.style) {
        return LineAction::Block(TokenKind::StyleBlock);
    }
    if range_eq(t, 0, n, &p.script) {
        return LineAction::Block(TokenKind::ScriptBlock);
    }
    let c0 = t[0];
    if ('a' <= c0 && c0 <= 'z') || ('A' <= c0 && c0 <= 'Z') {
        if contains_exec(t, &p.lbr) && !contains_exec(t, &p.rbr) {
            return LineAction::Fail(true, "未闭合的属性括号，缺少 ']'".to_owned());
        }
        match element_kind(t) {
            Some(k) => {
                return LineAction::Tok(k);
            },
            None => {},
        }
    }
    LineAction::Tok(TokenKind::Text(string_of(t)))
}

// ───────────────────────── the lexer ─────────────────────────

/// Where the lexer is: between tokens, inside a comment that spans lines, or
/// inside a `style`/`script` block opened with `sp` bytes of indentation.
pub enum LexMode {
    Normal,
    Comment { text: Seq<char>, indent: nat, line: nat, col: nat },
    Raw { sp: nat },
}

pub open spec fn mode_rank(m: LexMode) -> int {
    match m {
        LexMode::Raw { .. } => 1,
        _ => 0,
    }
}

/// Bytes of leading whitespace of a line.
pub open spec fn ws_bytes(l: Seq<char>) -> nat {
    byte_len(l.take(lead_ws(l) as int))
}

/// A located error with the source context of `line`.
pub open spec fn located_error(
    is_compile: bool,
    file: Seq<char>,
    line: nat,
    col: nat,
    message: Seq<char>,
    src: Seq<char>,
) -> ErrorSpec {
    ErrorSpec {
        is_compile,
        file,
        line,
        col,
        message,
        context: error_context(src, line),
        hint: None,
    }
}

/// The lexer from line `i` in mode `mode` with the tokens `acc` so far;
/// `None` when it would slice a line out of bounds.
pub open spec fn lex(
    src: Seq<char>,
    file: Seq<char>,
    ls: Seq<Seq<char>>,
    i: int,
    mode: LexMode,
    acc: Seq<TokenSpec>,
) -> Option<Result<Seq<TokenSpec>, ErrorSpec>>
    decreases ls.len() - i, mode_rank(mode),
{
    if i < 0 || i >= ls.len() {
        match mode {
            LexMode::Comment { text, indent, line, col } => Some(
                Err(located_error(true, file, line, col, "未闭合的多行注释，缺少 '#}'"@, src)),
            ),
            _ => Some(Ok(acc)),
        }
    } else {
        let l = ls[i];
        let t = trim(l);
        let sp = ws_bytes(l);
        match mode {
            LexMode::Raw { sp: bsp } => {
                if t.len() == 0 {
                    lex(src, file, ls, i + 1, mode, acc)
                } else if sp <= bsp {
                    lex(src, file, ls, i, LexMode::Normal, acc)
                } else {
                    lex(
                        src,
                        file,
                        ls,
                        i + 1,
                        mode,
                        acc.push(
                            TokenSpec {
                                kind: KindSpec::RawContent(t),
                                indent: sp / 2,
                                line: (i + 1) as nat,
                                col: sp + 1,
                            },
                        ),
                    )
                }
            },
            LexMode::Comment { text, indent, line, col } => match find(l, "#}"@) {
                Some(e) => lex(
                    src,
                    file,
                    ls,
                    i + 1,
                    LexMode::Normal,
                    acc.push(
                        TokenSpec {
                            kind: KindSpec::Comment(trim(text.push('\n') + trim(l.take(e)))),
                            indent,
                            line,
                            col,
                        },
                    ),
                ),
                None => lex(
                    src,
                    file,
                    ls,
                    i + 1,
                    LexMode::Comment { text: text.push('\n') + trim(l), indent, line, col },
                    acc,
                ),
            },
            LexMode::Normal => {
                if t.len() == 0 {
                    lex(src, file, ls, i + 1, mode, acc)
                } else {
                    match classify(t) {
                        LineStep::Tok(k) => lex(
                            src,
                            file,
                            ls,
                            i + 1,
                            LexMode::Normal,
                            acc.push(
                                TokenSpec {
                                    kind: k,
                                    indent: sp / 2,
                                    line: (i + 1) as nat,
                                    col: sp + 1,
                                },
                            ),
                        ),
                        LineStep::StartComment(text) => lex(
                            src,
                            file,
                            ls,
                            i + 1,
                            LexMode::Comment {
                                text,
                                indent: sp / 2,
                                line: (i + 1) as nat,
                                col: sp + 1,
                            },
                            acc,
                        ),
                        LineStep::Block(k) => lex(
                            src,
                            file,
                            ls,
                            i + 1,
                            LexMode::Raw { sp },
                            acc.push(
                                TokenSpec {
                                    kind: k,
                                    indent: sp / 2,
                                    line: (i + 1) as nat,
                                    col: sp + 1,
                                },
                            ),
                        ),
                        LineStep::Fail(c, m) => Some(
                            Err(located_error(c, file, (i + 1) as nat, sp + 1, m, src)),
                        ),
                        LineStep::Panic => None,
                    }
                }
            },
        }
    }
}

/// The result of lexing `src` as a whole (`None`: the lexer would panic).
pub open spec fn lex_source(src: Seq<char>, file: Seq<char>) -> Option<
    Result<Seq<TokenSpec>, ErrorSpec>,
> {
    lex(src, file, lines(src), 0, LexMode::Normal, Seq::empty())
}

/// Token lines are between 1 and `n` and strictly increase: no two tokens
/// share a line.
pub open spec fn lines_in_order(ts: Seq<TokenSpec>, n: int) -> bool {
    &&& forall|k: int| 0 <= k < ts.len() ==> 1 <= #[trigger] ts[k].line <= n
    &&& forall|a: int, b: int| 0 <= a < b < ts.len() ==> #[trigger] ts[a].line < #[trigger] ts[b].line
}

proof fn lemma_push_in_order(ts: Seq<TokenSpec>, n: int, t: TokenSpec, m: int)
    requires
        lines_in_order(ts, n),
        n <= m,
        1 <= t.line <= m,
        forall|k: int| 0 <= k < ts.len() ==> #[trigger] ts[k].line < t.line,
    ensures
        lines_in_order(ts.push(t), m),
{
    let r = ts.push(t);
    assert forall|k: int| 0 <= k < r.len() implies 1 <= #[trigger] r[k].line <= m by {
        if k < ts.len() {
            assert(r[k] == ts[k]);
        }
    }
    assert forall|a: int, b: int| 0 <= a < b < r.len() implies #[trigger] r[a].line < #[trigger] r[b].line by {
        assert(r[a] == ts[a]);
        if b < ts.len() {
            assert(r[b] == ts[b]);
        }
    }
}

proof fn lemma_lex_locations(
    src: Seq<char>,
    file: Seq<char>,
    ls: Seq<Seq<char>>,
    i: int,
    mode: LexMode,
    acc: Seq<TokenSpec>,
)
    requires
        0 <= i <= ls.len(),
        lines_in_order(acc, i),
        mode matches LexMode::Comment { line, .. } ==> 1 <= line <= i && forall|k: int|
            0 <= k < acc.len() ==> #[trigger] acc[k].line < line,
    ensures
        match lex(src, file, ls, i, mode, acc) {
            Some(Ok(ts)) => lines_in_order(ts, ls.len() as int),
            Some(Err(e)) => 1 <= e.line <= ls.len(),
            None => true,
        },
    decreases ls.len() - i, mode_rank(mode),
{
    if i >= ls.len() {
        assert(lines_in_order(acc, ls.len() as int));
    } else {
        let l = ls[i];
        let t = trim(l);
        let sp = ws_bytes(l);
        match mode {
            LexMode::Raw { sp: bsp } => {
                if t.len() == 0 {
                    lemma_lex_locations(src, file, ls, i + 1, mode, acc);
                } else if sp <= bsp {
                    lemma_lex_locations(src, file, ls, i, LexMode::Normal, acc);
                } else {
                    let tok = TokenSpec { kind: KindSpec::RawContent(t), indent: sp / 2, line: (i + 1) as nat, col: sp + 1 };
                    lemma_push_in_order(acc, i, tok, i + 1);
                    lemma_lex_locations(src, file, ls, i + 1, mode, acc.push(tok));
                }
            },
            LexMode::Comment { text, indent, line, col } => match find(l, "#}"@) {
                Some(e) => {
                    let tok = TokenSpec {
                        kind: KindSpec::Comment(trim(text.push('\n') + trim(l.take(e)))),
                        indent,
                        line,
                        col,
                    };
                    lemma_push_in_order(acc, i, tok, i + 1);
                    lemma_lex_locations(src, file, ls, i + 1, LexMode::Normal, acc.push(tok));
                },
                None => {
                    lemma_lex_locations(
                        src,
                        file,
                        ls,
                        i + 1,
                        LexMode::Comment { text: text.push('\n') + trim(l), indent, line, col },
                        acc,
                    );
                },
            },
            LexMode::Normal => {
                if t.len() == 0 {
                    lemma_lex_locations(src, file, ls, i + 1, mode, acc);
                } else {
                    match classify(t) {
                        LineStep::Tok(k) => {
                            let tok = TokenSpec { kind: k, indent: sp / 2, line: (i + 1) as nat, col: sp + 1 };
                            lemma_push_in_order(acc, i, tok, i + 1);
                            lemma_lex_locations(src, file, ls, i + 1, LexMode::Normal, acc.push(tok));
                        },
                        LineStep::StartComment(text) => {
                            lemma_lex_locations(
                                src,
                                file,
                                ls,
                                i + 1,
                                LexMode::Comment { text, indent: sp / 2, line: (i + 1) as nat, col: sp + 1 },
                                acc,
                            );
                        },
                        LineStep::Block(k) => {
                            let tok = TokenSpec { kind: k, indent: sp / 2, line: (i + 1) as nat, col: sp + 1 };
                            lemma_push_in_order(acc, i, tok, i + 1);
                            lemma_lex_locations(src, file, ls, i + 1, LexMode::Raw { sp }, acc.push(tok));
                        },
                        _ => {},
                    }
                }
            },
        }
    }
}

/// Every token the lexer makes, and the line of every error it reports,
/// lies on a line of the source; tokens come in the order of their lines,
/// one token to a line at most.
pub proof fn law_lexer_locations_in_source(src: Seq<char>, file: Seq<char>)
    ensures
        match lex_source(src, file) {
            Some(Ok(ts)) => lines_in_order(ts, lines(src).len() as int),
            Some(Err(e)) => 1 <= e.line <= lines(src).len(),
            None => true,
        },
{
    lemma_lex_locations(src, file, lines(src), 0, LexMode::Normal, Seq::empty());
}

/// The view of a lexer result.
pub open spec fn lex_result_view(r: Result<Vec<Token>, CbtmlError>) -> Result<
    Seq<TokenSpec>,
    ErrorSpec,
> {
    match r {
        Ok(t) => Ok(tokens_view(t@)),
        Err(e) => Err(e@),
    }
}

fn push_token(tokens: &mut Vec<Token>, kind: TokenKind, indent: usize, line: usize, col: usize)
    ensures
        tokens_view(final(tokens)@) == tokens_view(old(tokens)@).push(
            TokenSpec { kind: kind@, indent: indent as nat, line: line as nat, col: col as nat },
        ),
{
    let ghost k = kind@;
    tokens.push(Token { kind, indent, line, col });
    assert(tokens_view(tokens@) =~= tokens_view(old(tokens)@).push(
        TokenSpec { kind: k, indent: indent as nat, line: line as nat, col: col as nat },
    ));
}

/// Splits cbtml source into tokens, one per significant line; `None` for
/// source that the lexer cannot slice (a line opening a comment as `{#}`).
pub fn try_tokenize(source: &str, file_name: &str) -> (r: Option<Result<Vec<Token>, CbtmlError>>)
    requires
        byte_len(source@) <= isize::MAX,
    ensures
        lex_source(source@, file_name@) == match r {
            Some(x) => Some(lex_result_view(x)),
            None => None,
        },
{
    let v = chars_of(source);
    let b = line_bounds(&v);
    let p = Pats::new();
    let ghost ls = lines(source@);
    let ghost src = source@;
    let ghost file = file_name@;
    let ghost target = lex_source(src, file);
    proof {
        crate::text::lemma_lines_len(src);
        crate::text::lemma_byte_len_ge_len(src);
    }
    let mut tokens: Vec<Token> = Vec::new();
    let mut idx: usize = 0;
    assert(tokens_view(tokens@) =~= Seq::<TokenSpec>::empty());
    while idx < b.len()
        invariant
            p.wf(),
            v@ == src,
            src == source@,
            file == file_name@,
            ls == lines(src),
            ls == ranges_view(v@, b@),
            forall|k: int| 0 <= k < b.len() ==> (#[trigger] b@[k]).0 <= b@[k].1 <= v.len(),
            b.len() <= v.len(),
            byte_len(src) <= isize::MAX,
            src.len() <= byte_len(src),
            target == lex_source(src, file),
            idx <= b.len(),
            target == lex(src, file, ls, idx as int, LexMode::Normal, tokens_view(tokens@)),
        decreases b.len() - idx,
    {
        let (x, y) = b[idx];
        let (tx, ty) = trim_bounds(&v, x, y);
        proof {
            assert(ls[idx as int] == v@.subrange(x as int, y as int));
        }
        if tx == ty {
            idx += 1;
            continue;
        }
        proof {
            let l = v@.subrange(x as int, y as int);
            assert(l.take(lead_ws(l) as int) == v@.subrange(x as int, tx as int));
            crate::text::lemma_byte_len_subrange(v@, x as int, tx as int);
        }
        let sp = byte_len_range(&v, x, tx);
        let t = vec_range(&v, tx, ty);
        let line_num = idx + 1;
        let col = sp + 1;
        let indent = sp / 2;
        match classify_exec(&p, &t) {
            LineAction::Tok(k) => {
                push_token(&mut tokens, k, indent, line_num, col);
                idx += 1;
            },
            LineAction::StartComment(text) => {
                let mut comment = text;
                idx += 1;
                let mut found = false;
                while idx < b.len()
                    invariant_except_break
                        p.wf(),
                        v@ == src,
                        ls == ranges_view(v@, b@),
                        forall|k: int| 0 <= k < b.len() ==> (#[trigger] b@[k]).0 <= b@[k].1 <= v.len(),
                        line_num <= idx <= b.len(),
                        !found,
                        target == lex(
                            src,
                            file,
                            ls,
                            idx as int,
                            LexMode::Comment {
                                text: comment@,
                                indent: indent as nat,
                                line: line_num as nat,
                                col: col as nat,
                            },
                            tokens_view(tokens@),
                        ),
                    ensures
                        line_num <= idx <= b.len(),
                        found ==> target == lex(
                            src,
                            file,
                            ls,
                            idx as int,
                            LexMode::Normal,
                            tokens_view(tokens@).push(
                                TokenSpec {
                                    kind: KindSpec::Comment(trim(comment@)),
                                    indent: indent as nat,
                                    line: line_num as nat,
                                    col: col as nat,
                                },
                            ),
                        ),
                        !found ==> target == lex(
                            src,
                            file,
                            ls,
                            idx as int,
                            LexMode::Comment {
                                text: comment@,
                                indent: indent as nat,
                                line: line_num as nat,
                                col: col as nat,
                            },
                            tokens_view(tokens@),
                        ),
                        !found ==> idx == b.len(),
                    decreases b.len() - idx,
                {
                    let (x2, y2) = b[idx];
                    let lv = vec_range(&v, x2, y2);
                    proof {
                        assert(ls[idx as int] == lv@);
                    }
                    match find_exec(&lv, &p.c_close, 0) {
                        Some(e) => {
                            proof {
                                lemma_find_from_props(lv@, p.c_close@, 0);
                                assert(lv@.take(e as int) == lv@.subrange(0, e as int));
                            }
                            crate::text::string_push(&mut comment, '\n');
                            let part = trimmed_string(&lv, 0, e);
                            push_all(&mut comment, &part);
                            idx += 1;
                            found = true;
                            break;
                        },
                        None => {
                            proof {
                                assert(lv@.subrange(0, lv@.len() as int) == lv@);
                            }
                            crate::text::string_push(&mut comment, '\n');
                            let part = trimmed_string(&lv, 0, lv.len());
                            push_all(&mut comment, &part);
                            idx += 1;
                        },
                    }
                }
                if !found {
                    let e = CbtmlError::compile(
                        file_name,
                        line_num,
                        col,
                        "未闭合的多行注释，缺少 '#}'".to_owned(),
                        source,
                    );
                    return Some(Err(e));
                }
                let cv = chars_of(comment.as_str());
                let ct = trimmed_string(&cv, 0, cv.len());
                proof {
                    assert(cv@.subrange(0, cv@.len() as int) == cv@);
                }
                push_token(&mut tokens, TokenKind::Comment(ct), indent, line_num, col);
            },
            LineAction::Block(k) => {
                push_token(&mut tokens, k, indent, line_num, col);
                idx += 1;
                while idx < b.len()
                    invariant_except_break
                        target == lex(
                            src,
                            file,
                            ls,
                            idx as int,
                            LexMode::Raw { sp: sp as nat },
                            tokens_view(tokens@),
                        ),
                    invariant
                        line_num <= idx,
                        v@ == src,
                        ls == ranges_view(v@, b@),
                        forall|k: int| 0 <= k < b.len() ==> (#[trigger] b@[k]).0 <= b@[k].1 <= v.len(),
                        b.len() <= v.len(),
                        byte_len(src) <= isize::MAX,
                        src.len() <= byte_len(src),
                        idx <= b.len(),
                    ensures
                        target == lex(
                            src,
                            file,
                            ls,
                            idx as int,
                            LexMode::Normal,
                            tokens_view(tokens@),
                        ),
                    decreases b.len() - idx,
                {
                    let (x2, y2) = b[idx];
                    let (tx2, ty2) = trim_bounds(&v, x2, y2);
                    proof {
                        assert(ls[idx as int] == v@.subrange(x2 as int, y2 as int));
                    }
                    if tx2 == ty2 {
                        idx += 1;
                        continue;
                    }
                    proof {
                        let l = v@.subrange(x2 as int, y2 as int);
                        assert(l.take(lead_ws(l) as int) == v@.subrange(x2 as int, tx2 as int));
                        crate::text::lemma_byte_len_subrange(v@, x2 as int, tx2 as int);
                    }
                    let nsp = byte_len_range(&v, x2, tx2);
                    if nsp <= sp {
                        proof {
                            assert(lex(src, file, ls, idx as int, LexMode::Raw { sp: sp as nat }, tokens_view(tokens@))
                                == lex(src, file, ls, idx as int, LexMode::Normal, tokens_view(tokens@)));
                        }
                        break;
                    }
                    let content = string_of_range(&v, tx2, ty2);
                    push_token(&mut tokens, TokenKind::RawContent(content), nsp / 2, idx + 1, nsp + 1);
                    idx += 1;
                }
            },
            LineAction::Fail(is_compile, msg) => {
                if is_compile {
                    return Some(Err(CbtmlError::compile(file_name, line_num, col, msg, source)));
                } else {
                    return Some(Err(CbtmlError::syntax_with_source(file_name, line_num, col, msg, source)));
                }
            },
            LineAction::Panic => {
                return None;
            },
        }
    }
    Some(Ok(tokens))
}

/// Splits cbtml source into tokens, one per significant line.
pub fn tokenize(source: &str, file_name: &str) -> (r: Result<Vec<Token>, CbtmlError>)
    requires
        byte_len(source@) <= isize::MAX,
        lex_source(source@, file_name@) is Some,
    ensures
        lex_source(source@, file_name@) == Some(lex_result_view(r)),
{
    match try_tokenize(source, file_name) {
        Some(r) => r,
        None => {
            proof {
                assert(false);
            }
            Ok(Vec::new())
        },
    }
}
} // verus!

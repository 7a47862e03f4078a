//! The cbtml parser: builds the syntax tree from the token sequence by
//! indentation.
use crate::cbtml::error::{CbtmlError, ErrorSpec};
use crate::cbtml::lexer::{AttrSpec, AttrValue, KindSpec, Token, TokenKind, TokenSpec, tokens_view};
use crate::text::{
    chars_of, find, find_exec, lemma_find_from_props, push_all, string_of_range, string_push,
    string_push_str, trim, trimmed_string,
};
use vstd::prelude::*;

verus! {

/// A node of the cbtml syntax tree.
#[derive(Debug)]
pub enum Node {
    /// The document root.
    Document { extends: Option<String>, children: Vec<Node> },
    /// An HTML element.
    Element {
        tag: String,
        classes: Vec<String>,
        id: Option<String>,
        attributes: Vec<(String, String)>,
        children: Vec<Node>,
        self_closing: bool,
    },
    /// Text content.
    Text(String),
    /// `{{ expr }}`, escaped output.
    Expression(String),
    /// `raw expr`, unescaped output.
    Raw(String),
    /// `if` / `else if` / `else`
    Conditional {
        condition: String,
        then_branch: Vec<Node>,
        else_if_branches: Vec<(String, Vec<Node>)>,
        else_branch: Option<Vec<Node>>,
    },
    /// `for var in collection`
    ForLoop { var: String, collection: String, body: Vec<Node> },
    /// `slot name`
    Slot { name: String, children: Vec<Node> },
    /// `include path`
    Include(String),
    /// A `<style>` block.
    Style(String),
    /// A `<script>` block.
    Script(String),
    /// `{# comment #}`, dropped from the output.
    Comment(String),
    /// A hook call.
    Hook { name: String, data: String },
}

/// The mathematical content of a [`Node`].
pub enum NodeSpec {
    Document { extends: Option<Seq<char>>, children: Seq<NodeSpec> },
    Element {
        tag: Seq<char>,
        classes: Seq<Seq<char>>,
        id: Option<Seq<char>>,
        attributes: Seq<(Seq<char>, Seq<char>)>,
        children: Seq<NodeSpec>,
        self_closing: bool,
    },
    Text(Seq<char>),
    Expression(Seq<char>),
    Raw(Seq<char>),
    Conditional {
        condition: Seq<char>,
        then_branch: Seq<NodeSpec>,
        else_if_branches: Seq<(Seq<char>, Seq<NodeSpec>)>,
        else_branch: Option<Seq<NodeSpec>>,
    },
    ForLoop { var: Seq<char>, collection: Seq<char>, body: Seq<NodeSpec> },
    Slot { name: Seq<char>, children: Seq<NodeSpec> },
    Include(Seq<char>),
    Style(Seq<char>),
    Script(Seq<char>),
    Comment(Seq<char>),
    Hook { name: Seq<char>, data: Seq<char> },
}

/// The view of a node.
pub open spec fn node_view(n: Node) -> NodeSpec
    decreases n,
{
    match n {
        Node::Document { extends, children } => NodeSpec::Document {
            extends: extends.deep_view(),
            children: nodes_view(children@),
        },
        Node::Element { tag, classes, id, attributes, children, self_closing } => NodeSpec::Element {
            tag: tag@,
            classes: classes.deep_view(),
            id: id.deep_view(),
            attributes: attributes.deep_view(),
            children: nodes_view(children@),
            self_closing,
        },
        Node::Text(s) => NodeSpec::Text(s@),
        Node::Expression(s) => NodeSpec::Expression(s@),
        Node::Raw(s) => NodeSpec::Raw(s@),
        Node::Conditional { condition, then_branch, else_if_branches, else_branch } =>
            NodeSpec::Conditional {
            condition: condition@,
            then_branch: nodes_view(then_branch@),
            else_if_branches: branches_view(else_if_branches@),
            else_branch: match else_branch {
                Some(b) => Some(nodes_view(b@)),
                None => None,
            },
        },
        Node::ForLoop { var, collection, body } => NodeSpec::ForLoop {
            var: var@,
            collection: collection@,
            body: nodes_view(body@),
        },
        Node::Slot { name, children } => NodeSpec::Slot { name: name@, children: nodes_view(children@) },
        Node::Include(s) => NodeSpec::Include(s@),
        Node::Style(s) => NodeSpec::Style(s@),
        Node::Script(s) => NodeSpec::Script(s@),
        Node::Comment(s) => NodeSpec::Comment(s@),
        Node::Hook { name, data } => NodeSpec::Hook { name: name@, data: data@ },
    }
}

/// The view of a node list.
pub open spec fn nodes_view(s: Seq<Node>) -> Seq<NodeSpec>
    decreases s,
{
    if s.len() == 0 {
        Seq::empty()
    } else {
        nodes_view(s.drop_last()).push(node_view(s.last()))
    }
}

/// The view of the `else if` branches of a conditional.
pub open spec fn branches_view(s: Seq<(String, Vec<Node>)>) -> Seq<(Seq<char>, Seq<NodeSpec>)>
    decreases s,
{
    if s.len() == 0 {
        Seq::empty()
    } else {
        branches_view(s.drop_last()).push((s.last().0@, nodes_view(s.last().1@)))
    }
}

impl View for Node {
    type V = NodeSpec;

    open spec fn view(&self) -> NodeSpec {
        node_view(*self)
    }
}


pub proof fn lemma_nodes_view_push(s: Seq<Node>, x: Node)
    ensures
        nodes_view(s.push(x)) == nodes_view(s).push(node_view(x)),
{
    assert(s.push(x).drop_last() == s);
}

pub proof fn lemma_nodes_view_append(a: Seq<Node>, b: Seq<Node>)
    ensures
        nodes_view(a + b) == nodes_view(a) + nodes_view(b),
    decreases b.len(),
{
    if b.len() == 0 {
        assert(a + b == a);
        assert(nodes_view(a) + nodes_view(b) == nodes_view(a));
    } else {
        lemma_nodes_view_append(a, b.drop_last());
        assert((a + b).drop_last() == a + b.drop_last());
        assert((a + b).last() == b.last());
        assert(nodes_view(a) + nodes_view(b) == (nodes_view(a) + nodes_view(b.drop_last())).push(
            node_view(b.last()),
        ));
    }
}

pub proof fn lemma_branches_view_push(s: Seq<(String, Vec<Node>)>, x: (String, Vec<Node>))
    ensures
        branches_view(s.push(x)) == branches_view(s).push((x.0@, nodes_view(x.1@))),
{
    assert(s.push(x).drop_last() == s);
}

// ───────────────────────── specification of the parser ─────────────────────────

/// The elements that never have content and close themselves.
pub open spec fn is_void_tag(tag: Seq<char>) -> bool {
    ||| tag == "meta"@
    ||| tag == "link"@
    ||| tag == "input"@
    ||| tag == "br"@
    ||| tag == "hr"@
    ||| tag == "img"@
    ||| tag == "source"@
    ||| tag == "area"@
    ||| tag == "base"@
    ||| tag == "col"@
    ||| tag == "embed"@
    ||| tag == "track"@
    ||| tag == "wbr"@
}

/// The text of an attribute value in the tree.
pub open spec fn attr_text(a: AttrSpec) -> Seq<char> {
    match a {
        AttrSpec::Static(s) => s,
        AttrSpec::Dynamic(e) => "{{ "@ + e + " }}"@,
    }
}

/// The attributes of an element token as they stand in the tree.
pub open spec fn attrs_text(a: Seq<(Seq<char>, AttrSpec)>) -> Seq<(Seq<char>, Seq<char>)> {
    a.map_values(|p: (Seq<char>, AttrSpec)| (p.0, attr_text(p.1)))
}

/// Inline text split into text and `{{ expr }}` expression nodes, appended to `acc`.
pub open spec fn inline_nodes(t: Seq<char>, acc: Seq<NodeSpec>) -> Seq<NodeSpec>
    decreases t.len(),
{
    match find(t, "{{"@) {
        None => if t.len() > 0 {
            acc.push(NodeSpec::Text(t))
        } else {
            acc
        },
        Some(s) => {
            let acc1 = if s > 0 {
                acc.push(NodeSpec::Text(t.take(s)))
            } else {
                acc
            };
            proof {
                lemma_find_from_props(t, "{{"@, 0);
            }
            let r = t.skip(s + "{{"@.len());
            match find(r, "}}"@) {
                Some(e) => {
                    proof {
                        lemma_find_from_props(r, "}}"@, 0);
                        reveal_strlit("{{");
                    }
                    inline_nodes(
                        r.skip(e + "}}"@.len()),
                        acc1.push(NodeSpec::Expression(trim(r.take(e)))),
                    )
                },
                None => acc1.push(NodeSpec::Text("{{"@ + r)),
            }
        },
    }
}

/// Lines joined with `'\n'`.
pub open spec fn join_lines(ls: Seq<Seq<char>>) -> Seq<char>
    decreases ls.len(),
{
    if ls.len() == 0 {
        Seq::empty()
    } else if ls.len() == 1 {
        ls[0]
    } else {
        join_lines(ls.drop_last()).push('\n') + ls.last()
    }
}

/// The raw content lines from `pos`, and the position after them.
pub open spec fn raw_lines(ts: Seq<TokenSpec>, pos: int, acc: Seq<Seq<char>>) -> (Seq<Seq<char>>, int)
    decreases ts.len() - pos,
{
    if 0 <= pos < ts.len() && ts[pos].kind is RawContent {
        raw_lines(ts, pos + 1, acc.push(ts[pos].kind->RawContent_0))
    } else {
        (acc, pos)
    }
}

/// A syntax error without source context.
pub open spec fn syntax_err(file: Seq<char>, line: nat, col: nat, message: Seq<char>) -> ErrorSpec {
    ErrorSpec {
        is_compile: false,
        file,
        line,
        col,
        message,
        context: Seq::empty(),
        hint: None,
    }
}

/// The nodes at indentation `ind` from `pos`, appended to `acc`: the result and
/// the position where the sequence ends.
pub open spec fn p_children(
    ts: Seq<TokenSpec>,
    file: Seq<char>,
    pos: int,
    ind: nat,
    acc: Seq<NodeSpec>,
) -> (Result<Seq<NodeSpec>, ErrorSpec>, int)
    decreases ts.len() - pos, 2int,
{
    if pos < 0 || pos >= ts.len() {
        (Ok(acc), pos)
    } else {
        let t = ts[pos];
        if t.indent != ind {
            (Ok(acc), pos)
        } else {
            match t.kind {
                KindSpec::End => (Ok(acc), pos),
                KindSpec::Else => (Ok(acc), pos),
                KindSpec::ElseIf(_) => (Ok(acc), pos),
                KindSpec::Comment(x) => p_children(ts, file, pos + 1, ind, acc.push(NodeSpec::Comment(x))),
                KindSpec::Text(x) => p_children(ts, file, pos + 1, ind, acc.push(NodeSpec::Text(x))),
                KindSpec::Expression(x) => p_children(
                    ts,
                    file,
                    pos + 1,
                    ind,
                    acc.push(NodeSpec::Expression(x)),
                ),
                KindSpec::Raw(x) => p_children(ts, file, pos + 1, ind, acc.push(NodeSpec::Raw(x))),
                KindSpec::Include(x) => p_children(ts, file, pos + 1, ind, acc.push(NodeSpec::Include(x))),
                KindSpec::Hook { name, data } => p_children(
                    ts,
                    file,
                    pos + 1,
                    ind,
                    acc.push(NodeSpec::Hook { name, data }),
                ),
                KindSpec::If(_) => {
                    let r = p_cond(ts, file, pos);
                    match r.0 {
                        Err(e) => (Err(e), r.1),
                        Ok(n) => if r.1 > pos && r.1 <= ts.len() {
                            p_children(ts, file, r.1, ind, acc.push(n))
                        } else {
                            (Ok(acc), pos)
                        },
                    }
                },
                KindSpec::For { var, collection } => {
                    let r = p_block(ts, file, pos + 1, t.indent, Seq::empty());
                    match r.0 {
                        Err(e) => (Err(e), r.1),
                        Ok(body) => if r.1 < pos + 1 || r.1 > ts.len() {
                            (Ok(acc), pos)
                        } else if r.1 < ts.len() {
                            p_children(
                                ts,
                                file,
                                if ts[r.1].kind is End {
                                    r.1 + 1
                                } else {
                                    r.1
                                },
                                ind,
                                acc.push(NodeSpec::ForLoop { var, collection, body }),
                            )
                        } else {
                            (Err(syntax_err(file, t.line, t.col, "for 块缺少对应的 'end' 标签"@)), r.1)
                        },
                    }
                },
                KindSpec::Slot(name) => {
                    let r = p_indented(ts, file, pos + 1, t.indent);
                    match r.0 {
                        Err(e) => (Err(e), r.1),
                        Ok(ch) => if r.1 >= pos + 1 && r.1 <= ts.len() {
                            p_children(ts, file, r.1, ind, acc.push(NodeSpec::Slot { name, children: ch }))
                        } else {
                            (Ok(acc), pos)
                        },
                    }
                },
                KindSpec::Element { tag, classes, id, attributes, inline_text } => {
                    let pre = match inline_text {
                        Some(x) => inline_nodes(x, Seq::empty()),
                        None => Seq::empty(),
                    };
                    if is_void_tag(tag) {
                        p_children(
                            ts,
                            file,
                            pos + 1,
                            ind,
                            acc.push(
                                NodeSpec::Element {
                                    tag,
                                    classes,
                                    id,
                                    attributes: attrs_text(attributes),
                                    children: pre,
                                    self_closing: true,
                                },
                            ),
                        )
                    } else {
                        let r = p_indented(ts, file, pos + 1, t.indent);
                        match r.0 {
                            Err(e) => (Err(e), r.1),
                            Ok(ch) => if r.1 >= pos + 1 && r.1 <= ts.len() {
                                p_children(
                                    ts,
                                    file,
                                    r.1,
                                    ind,
                                    acc.push(
                                        NodeSpec::Element {
                                            tag,
                                            classes,
                                            id,
                                            attributes: attrs_text(attributes),
                                            children: pre + ch,
                                            self_closing: false,
                                        },
                                    ),
                                )
                            } else {
                                (Ok(acc), pos)
                            },
                        }
                    }
                },
                KindSpec::StyleBlock => {
                    let r = raw_lines(ts, pos + 1, Seq::empty());
                    if r.1 >= pos + 1 && r.1 <= ts.len() {
                        p_children(ts, file, r.1, ind, acc.push(NodeSpec::Style(join_lines(r.0))))
                    } else {
                        (Ok(acc), pos)
                    }
                },
                KindSpec::ScriptBlock => {
                    let r = raw_lines(ts, pos + 1, Seq::empty());
                    if r.1 >= pos + 1 && r.1 <= ts.len() {
                        p_children(ts, file, r.1, ind, acc.push(NodeSpec::Script(join_lines(r.0))))
                    } else {
                        (Ok(acc), pos)
                    }
                },
                KindSpec::Extends(_) => (
                    Err(syntax_err(file, t.line, t.col, "extends 指令只能出现在文件首行"@)),
                    pos,
                ),
                KindSpec::RawContent(_) => p_children(ts, file, pos + 1, ind, acc),
            }
        }
    }
}

/// The conditional whose `if` token is at `pos`.
pub open spec fn p_cond(ts: Seq<TokenSpec>, file: Seq<char>, pos: int) -> (
    Result<NodeSpec, ErrorSpec>,
    int,
)
    decreases ts.len() - pos, 1int,
{
    if pos < 0 || pos >= ts.len() {
        (Err(syntax_err(file, 0, 0, Seq::empty())), pos)
    } else {
        let t = ts[pos];
        let cond = match t.kind {
            KindSpec::If(c) => c,
            _ => Seq::empty(),
        };
        let r = p_block(ts, file, pos + 1, t.indent, Seq::empty());
        match r.0 {
            Err(e) => (Err(e), r.1),
            Ok(then) => if r.1 >= pos + 1 && r.1 <= ts.len() {
                p_cond_rest(ts, file, r.1, t.indent, t.line, t.col, cond, then, Seq::empty(), None)
            } else {
                (Err(syntax_err(file, 0, 0, Seq::empty())), pos)
            },
        }
    }
}

/// The `else if` / `else` / `end` part of a conditional, from `p`.
pub open spec fn p_cond_rest(
    ts: Seq<TokenSpec>,
    file: Seq<char>,
    p: int,
    ind: nat,
    line: nat,
    col: nat,
    cond: Seq<char>,
    then: Seq<NodeSpec>,
    elifs: Seq<(Seq<char>, Seq<NodeSpec>)>,
    els: Option<Seq<NodeSpec>>,
) -> (Result<NodeSpec, ErrorSpec>, int)
    decreases ts.len() - p, 0int,
{
    let missing = syntax_err(file, line, col, "if 块缺少对应的 'end' 标签"@);
    if 0 <= p < ts.len() && ts[p].indent == ind {
        match ts[p].kind {
            KindSpec::ElseIf(c) => {
                let r = p_block(ts, file, p + 1, ind, Seq::empty());
                match r.0 {
                    Err(e) => (Err(e), r.1),
                    Ok(b) => if r.1 >= p + 1 && r.1 <= ts.len() {
                        p_cond_rest(ts, file, r.1, ind, line, col, cond, then, elifs.push((c, b)), els)
                    } else {
                        (Err(missing), p)
                    },
                }
            },
            KindSpec::Else => {
                let r = p_block(ts, file, p + 1, ind, Seq::empty());
                match r.0 {
                    Err(e) => (Err(e), r.1),
                    Ok(b) => if r.1 >= p + 1 && r.1 <= ts.len() {
                        p_cond_rest(ts, file, r.1, ind, line, col, cond, then, elifs, Some(b))
                    } else {
                        (Err(missing), p)
                    },
                }
            },
            KindSpec::End => (
                Ok(
                    NodeSpec::Conditional {
                        condition: cond,
                        then_branch: then,
                        else_if_branches: elifs,
                        else_branch: els,
                    },
                ),
                p + 1,
            ),
            _ => (Err(missing), p),
        }
    } else {
        (Err(missing), p)
    }
}

/// The body of an `if`/`for` whose opener has indentation `bi`, from `pos`.
pub open spec fn p_block(
    ts: Seq<TokenSpec>,
    file: Seq<char>,
    pos: int,
    bi: nat,
    acc: Seq<NodeSpec>,
) -> (Result<Seq<NodeSpec>, ErrorSpec>, int)
    decreases ts.len() - pos, 3int,
{
    if pos < 0 || pos >= ts.len() {
        (Ok(acc), pos)
    } else {
        let t = ts[pos];
        if t.indent == bi && (t.kind is End || t.kind is Else || t.kind is ElseIf) {
            (Ok(acc), pos)
        } else if t.indent < bi {
            (Ok(acc), pos)
        } else {
            let r = p_children(ts, file, pos, t.indent, Seq::empty());
            match r.0 {
                Err(e) => (Err(e), r.1),
                Ok(inner) => if r.1 < pos || r.1 > ts.len() {
                    (Ok(acc), pos)
                } else {
                    p_block(
                        ts,
                        file,
                        if r.1 == pos {
                            pos + 1
                        } else {
                            r.1
                        },
                        bi,
                        acc + inner,
                    )
                },
            }
        }
    }
}

/// The children of an element or slot at indentation `parent`: the tokens
/// from `pos` that are indented deeper.
pub open spec fn p_indented(ts: Seq<TokenSpec>, file: Seq<char>, pos: int, parent: nat) -> (
    Result<Seq<NodeSpec>, ErrorSpec>,
    int,
)
    decreases ts.len() - pos, 3int,
{
    if pos < 0 || pos >= ts.len() || ts[pos].indent <= parent {
        (Ok(Seq::empty()), pos)
    } else {
        p_children(ts, file, pos, ts[pos].indent, Seq::empty())
    }
}

/// The document tree of a token sequence.
pub open spec fn parse_spec(ts: Seq<TokenSpec>, file: Seq<char>) -> Result<NodeSpec, ErrorSpec> {
    let has_ext = ts.len() > 0 && ts[0].kind is Extends;
    let r = p_children(
        ts,
        file,
        if has_ext {
            1
        } else {
            0
        },
        0,
        Seq::empty(),
    );
    match r.0 {
        Ok(ch) => Ok(
            NodeSpec::Document {
                extends: if has_ext {
                    Some(ts[0].kind->Extends_0)
                } else {
                    None
                },
                children: ch,
            },
        ),
        Err(e) => Err(e),
    }
}

// ───────────────────────── the parser ─────────────────────────

/// Whether two strings are equal.
fn str_eq(a: &str, b: &str) -> (r: bool)
    ensures
        r == (a@ == b@),
{
    let av = chars_of(a);
    let bv = chars_of(b);
    let r = crate::text::range_eq(&av, 0, av.len(), &bv);
    assert(av@.subrange(0, av@.len() as int) == av@);
    r
}

/// Whether `tag` is a void element (`meta`, `link`, `input`, `br`, `hr`,
/// `img`, `source`, `area`, `base`, `col`, `embed`, `track`, `wbr`).
pub fn is_void_element(tag: &str) -> (r: bool)
    ensures
        r == is_void_tag(tag@),
{
    str_eq(tag, "meta") || str_eq(tag, "link") || str_eq(tag, "input") || str_eq(tag, "br")
        || str_eq(tag, "hr") || str_eq(tag, "img") || str_eq(tag, "source") || str_eq(tag, "area")
        || str_eq(tag, "base") || str_eq(tag, "col") || str_eq(tag, "embed") || str_eq(tag, "track")
        || str_eq(tag, "wbr")
}

fn clone_string(s: &String) -> (r: String)
    ensures
        r@ == s@,
{
    s.clone()
}

fn clone_strings(v: &Vec<String>) -> (r: Vec<String>)
    ensures
        r.deep_view() == v.deep_view(),
{
    let mut r: Vec<String> = Vec::new();
    let mut i: usize = 0;
    while i < v.len()
        invariant
            i <= v.len(),
            r.deep_view() == v.deep_view().take(i as int),
        decreases v.len() - i,
    {
        let ghost before = r.deep_view();
        r.push(clone_string(&v[i]));
        assert(r.deep_view() =~= before.push(v@[i as int]@));
        assert(v.deep_view().take(i + 1) =~= v.deep_view().take(i as int).push(v@[i as int]@));
        i += 1;
    }
    assert(v.deep_view().take(v.len() as int) =~= v.deep_view());
    r
}

fn clone_opt_string(s: &Option<String>) -> (r: Option<String>)
    ensures
        r.deep_view() == s.deep_view(),
{
    match s {
        Some(x) => Some(clone_string(x)),
        None => None,
    }
}

fn convert_attrs(a: &Vec<(String, AttrValue)>) -> (r: Vec<(String, String)>)
    ensures
        r.deep_view() == attrs_text(crate::cbtml::lexer::attrs_view(a@)),
{
    let ghost target = attrs_text(crate::cbtml::lexer::attrs_view(a@));
    let mut r: Vec<(String, String)> = Vec::new();
    let mut i: usize = 0;
    while i < a.len()
        invariant
            i <= a.len(),
            target == attrs_text(crate::cbtml::lexer::attrs_view(a@)),
            r.deep_view() == target.take(i as int),
        decreases a.len() - i,
    {
        let (k, v) = &a[i];
        let val = match v {
            AttrValue::Static(s) => clone_string(s),
            AttrValue::Dynamic(e) => {
                let mut out = "{{ ".to_owned();
                push_all(&mut out, e);
                string_push_str(&mut out, " }}");
                out
            },
        };
        let ghost before = r.deep_view();
        let key = clone_string(k);
        let ghost kv = (key@, val@);
        r.push((key, val));
        assert(r.deep_view() =~= before.push(kv));
        assert(target.take(i + 1) =~= target.take(i as int).push(target[i as int]));
        i += 1;
    }
    assert(target.take(a.len() as int) =~= target);
    r
}

fn push_node(v: &mut Vec<Node>, n: Node)
    ensures
        nodes_view(final(v)@) == nodes_view(old(v)@).push(node_view(n)),
{
    proof {
        lemma_nodes_view_push(v@, n);
    }
    v.push(n);
}

fn append_nodes(v: &mut Vec<Node>, w: Vec<Node>)
    ensures
        nodes_view(final(v)@) == nodes_view(old(v)@) + nodes_view(w@),
{
    let mut w = w;
    proof {
        lemma_nodes_view_append(v@, w@);
    }
    v.append(&mut w);
}

/// Splits inline text into text nodes and `{{ expr }}` expression nodes.
fn parse_inline_text(text: &str, children: &mut Vec<Node>)
    ensures
        nodes_view(final(children)@) == inline_nodes(text@, nodes_view(old(children)@)),
{
    let v = chars_of(text);
    let open = chars_of("{{");
    let close = chars_of("}}");
    proof {
        reveal_strlit("{{");
        reveal_strlit("}}");
    }
    let ghost target = inline_nodes(text@, nodes_view(children@));
    let mut start: usize = 0;
    assert(v@.skip(0) == v@);
    loop
        invariant
            start <= v.len(),
            v@ == text@,
            target == inline_nodes(text@, nodes_view(old(children)@)),
            open@ == "{{"@,
            close@ == "}}"@,
            open@.len() == 2,
            close@.len() == 2,
            target == inline_nodes(v@.skip(start as int), nodes_view(children@)),
        decreases v.len() - start,
    {
        let ghost rem = v@.skip(start as int);
        let rv = crate::text::vec_range(&v, start, v.len());
        assert(rv@ == rem);
        match find_exec(&rv, &open, 0) {
            None => {
                if start < v.len() {
                    let t = string_of_range(&v, start, v.len());
                    push_node(children, Node::Text(t));
                }
                return;
            },
            Some(s) => {
                proof {
                    lemma_find_from_props(rem, open@, 0);
                }
                if s > 0 {
                    let t = string_of_range(&v, start, start + s);
                    assert(rem.take(s as int) == v@.subrange(start as int, start + s));
                    push_node(children, Node::Text(t));
                }
                let a = start + s + 2;
                let ghost r = rem.skip(s + 2);
                let r2 = crate::text::vec_range(&v, a, v.len());
                assert(r2@ == r);
                match find_exec(&r2, &close, 0) {
                    Some(e) => {
                        proof {
                            lemma_find_from_props(r, close@, 0);
                            assert(r.take(e as int) == v@.subrange(a as int, a + e));
                        }
                        let ex = crate::text::trimmed_string(&v, a, a + e);
                        push_node(children, Node::Expression(ex));
                        start = a + e + 2;
                        assert(r.skip(e + 2) == v@.skip(start as int));
                    },
                    None => {
                        let mut t = "{{".to_owned();
                        let tail = string_of_range(&v, a, v.len());
                        push_all(&mut t, &tail);
                        push_node(children, Node::Text(t));
                        return;
                    },
                }
            },
        }
    }
}

/// The content of consecutive raw-content tokens, joined by newlines.
fn collect_raw_content(tokens: &[Token], pos: &mut usize) -> (r: String)
    requires
        *old(pos) <= tokens.len(),
    ensures
        r@ == join_lines(raw_lines(tokens_view(tokens@), *old(pos) as int, Seq::empty()).0),
        *final(pos) as int == raw_lines(tokens_view(tokens@), *old(pos) as int, Seq::empty()).1,
        *old(pos) <= *final(pos) <= tokens.len(),
{
    let ghost ts = tokens_view(tokens@);
    let ghost target = raw_lines(ts, *pos as int, Seq::empty());
    let mut out = String::new();
    let ghost mut ls: Seq<Seq<char>> = Seq::empty();
    let mut first = true;
    while *pos < tokens.len()
        invariant_except_break
            target == raw_lines(ts, *pos as int, ls),
        invariant
            first == (ls.len() == 0),
            ts == tokens_view(tokens@),
            *old(pos) <= *pos <= tokens.len(),
            out@ == join_lines(ls),
        ensures
            target == (ls, *pos as int),
        decreases tokens.len() - *pos,
    {
        match &tokens[*pos].kind {
            TokenKind::RawContent(content) => {
                proof {
                    assert(ts[*pos as int] == tokens@[*pos as int]@);
                }
                if !first {
                    string_push(&mut out, '\n');
                }
                first = false;
                push_all(&mut out, content);
                proof {
                    let nl = ls.push(content@);
                    assert(nl.drop_last() == ls);
                    if ls.len() == 0 {
                        assert(join_lines(nl) == nl[0]);
                    }
                    ls = nl;
                }
                *pos += 1;
            },
            _ => {
                proof {
                    assert(ts[*pos as int] == tokens@[*pos as int]@);
                }
                break;
            },
        }
    }
    out
}

/// The view of a parser result.
pub open spec fn nodes_result(r: Result<Vec<Node>, CbtmlError>) -> Result<Seq<NodeSpec>, ErrorSpec> {
    match r {
        Ok(v) => Ok(nodes_view(v@)),
        Err(e) => Err(e@),
    }
}

/// Parses the nodes of one indentation level.
fn parse_children(tokens: &[Token], pos: &mut usize, expected_indent: usize, file_name: &str) -> (r:
    Result<Vec<Node>, CbtmlError>)
    requires
        *old(pos) <= tokens.len(),
    ensures
        match r {
            Ok(v) => p_children(
                tokens_view(tokens@),
                file_name@,
                *old(pos) as int,
                expected_indent as nat,
                Seq::empty(),
            ) == (Ok::<Seq<NodeSpec>, ErrorSpec>(nodes_view(v@)), *final(pos) as int) && *old(pos)
                <= *final(pos) <= tokens.len(),
            Err(e) => p_children(
                tokens_view(tokens@),
                file_name@,
                *old(pos) as int,
                expected_indent as nat,
                Seq::empty(),
            ).0 == Err::<Seq<NodeSpec>, ErrorSpec>(e@),
        },
    decreases tokens@.len() - *old(pos), 2int,
{
    let ghost ts = tokens_view(tokens@);
    let ghost file = file_name@;
    let ghost ind = expected_indent as nat;
    let ghost target = p_children(ts, file, *pos as int, ind, Seq::empty());
    let mut children: Vec<Node> = Vec::new();
    while *pos < tokens.len()
        invariant_except_break
            target == p_children(ts, file, *pos as int, ind, nodes_view(children@)),
        invariant
            ts == tokens_view(tokens@),
            file == file_name@,
            ind == expected_indent as nat,
            target == p_children(ts, file, *old(pos) as int, ind, Seq::empty()),
            *old(pos) <= *pos <= tokens.len(),
        ensures
            target == (Ok::<Seq<NodeSpec>, ErrorSpec>(nodes_view(children@)), *pos as int),
        decreases tokens.len() - *pos,
    {
        let p0 = *pos;
        let token = &tokens[p0];
        proof {
            assert(ts[p0 as int] == tokens@[p0 as int]@);
        }
        if token.indent != expected_indent {
            break;
        }
        match &token.kind {
            TokenKind::End => {
                break;
            },
            TokenKind::Else => {
                break;
            },
            TokenKind::ElseIf(_) => {
                break;
            },
            TokenKind::Comment(text) => {
                push_node(&mut children, Node::Comment(clone_string(text)));
                *pos += 1;
            },
            TokenKind::Text(text) => {
                push_node(&mut children, Node::Text(clone_string(text)));
                *pos += 1;
            },
            TokenKind::Expression(e) => {
                push_node(&mut children, Node::Expression(clone_string(e)));
                *pos += 1;
            },
            TokenKind::Raw(e) => {
                push_node(&mut children, Node::Raw(clone_string(e)));
                *pos += 1;
            },
            TokenKind::Include(path) => {
                push_node(&mut children, Node::Include(clone_string(path)));
                *pos += 1;
            },
            TokenKind::Hook { name, data } => {
                push_node(
                    &mut children,
                    Node::Hook { name: clone_string(name), data: clone_string(data) },
                );
                *pos += 1;
            },
            TokenKind::If(_) => {
                match parse_conditional(tokens, pos, file_name) {
                    Ok(node) => {
                        push_node(&mut children, node);
                    },
                    Err(e) => {
                        return Err(e);
                    },
                }
            },
            TokenKind::For { var, collection } => {
                let var = clone_string(var);
                let collection = clone_string(collection);
                let current_indent = token.indent;
                let for_line = token.line;
                let for_col = token.col;
                *pos += 1;
                match parse_block_body(tokens, pos, current_indent, file_name) {
                    Ok(body) => {
                        if *pos < tokens.len() {
                            proof {
                                assert(ts[*pos as int] == tokens@[*pos as int]@);
                            }
                            match &tokens[*pos].kind {
                                TokenKind::End => {
                                    *pos += 1;
                                },
                                _ => {},
                            }
                        } else {
                            return Err(
                                CbtmlError::syntax(
                                    file_name,
                                    for_line,
                                    for_col,
                                    "for 块缺少对应的 'end' 标签".to_owned(),
                                ),
                            );
                        }
                        push_node(&mut children, Node::ForLoop { var, collection, body });
                    },
                    Err(e) => {
                        return Err(e);
                    },
                }
            },
            TokenKind::Slot(name) => {
                let name = clone_string(name);
                let current_indent = token.indent;
                *pos += 1;
                match parse_indented_children(tokens, pos, current_indent, file_name) {
                    Ok(slot_children) => {
                        push_node(&mut children, Node::Slot { name, children: slot_children });
                    },
                    Err(e) => {
                        return Err(e);
                    },
                }
            },
            TokenKind::Element { tag, classes, id, attributes, inline_text } => {
                let tag = clone_string(tag);
                let classes = clone_strings(classes);
                let id = clone_opt_string(id);
                let attrs = convert_attrs(attributes);
                let self_closing = is_void_element(tag.as_str());
                let current_indent = token.indent;
                let mut elem_children: Vec<Node> = Vec::new();
                match inline_text {
                    Some(text) => {
                        parse_inline_text(text.as_str(), &mut elem_children);
                    },
                    None => {},
                }
                *pos += 1;
                if !self_closing {
                    match parse_indented_children(tokens, pos, current_indent, file_name) {
                        Ok(indented) => {
                            append_nodes(&mut elem_children, indented);
                        },
                        Err(e) => {
                            return Err(e);
                        },
                    }
                }
                push_node(
                    &mut children,
                    Node::Element {
                        tag,
                        classes,
                        id,
                        attributes: attrs,
                        children: elem_children,
                        self_closing,
                    },
                );
            },
            TokenKind::StyleBlock => {
                *pos += 1;
                let content = collect_raw_content(tokens, pos);
                push_node(&mut children, Node::Style(content));
            },
            TokenKind::ScriptBlock => {
                *pos += 1;
                let content = collect_raw_content(tokens, pos);
                push_node(&mut children, Node::Script(content));
            },
            TokenKind::Extends(_) => {
                return Err(
                    CbtmlError::syntax(
                        file_name,
                        token.line,
                        token.col,
                        "extends 指令只能出现在文件首行".to_owned(),
                    ),
                );
            },
            TokenKind::RawContent(_) => {
                *pos += 1;
            },
        }
    }
    Ok(children)
}

/// Parses an `if` / `else if` / `else` / `end` structure whose `if` is at `pos`.
fn parse_conditional(tokens: &[Token], pos: &mut usize, file_name: &str) -> (r: Result<
    Node,
    CbtmlError,
>)
    requires
        *old(pos) < tokens.len(),
    ensures
        match r {
            Ok(n) => p_cond(tokens_view(tokens@), file_name@, *old(pos) as int) == (
                Ok::<NodeSpec, ErrorSpec>(n@),
                *final(pos) as int,
            ) && *old(pos) < *final(pos) <= tokens.len(),
            Err(e) => p_cond(tokens_view(tokens@), file_name@, *old(pos) as int).0 == Err::<
                NodeSpec,
                ErrorSpec,
            >(e@),
        },
    decreases tokens@.len() - *old(pos), 1int,
{
    let ghost ts = tokens_view(tokens@);
    let ghost file = file_name@;
    let p0 = *pos;
    proof {
        assert(ts[p0 as int] == tokens@[p0 as int]@);
    }
    let condition = match &tokens[p0].kind {
        TokenKind::If(c) => clone_string(c),
        _ => String::new(),
    };
    let if_indent = tokens[p0].indent;
    let if_line = tokens[p0].line;
    let if_col = tokens[p0].col;
    *pos += 1;
    let then_branch = match parse_block_body(tokens, pos, if_indent, file_name) {
        Ok(b) => b,
        Err(e) => {
            return Err(e);
        },
    };
    let ghost target = p_cond(ts, file, p0 as int);
    let mut else_if_branches: Vec<(String, Vec<Node>)> = Vec::new();
    let mut else_branch: Option<Vec<Node>> = None;
    let mut found_end = false;
    while *pos < tokens.len() && tokens[*pos].indent == if_indent
        invariant_except_break
            target == p_cond_rest(
                ts,
                file,
                *pos as int,
                if_indent as nat,
                if_line as nat,
                if_col as nat,
                condition@,
                nodes_view(then_branch@),
                branches_view(else_if_branches@),
                match else_branch {
                    Some(b) => Some(nodes_view(b@)),
                    None => None,
                },
            ),
            !found_end,
        invariant
            ts == tokens_view(tokens@),
            file == file_name@,
            p0 == *old(pos),
            target == p_cond(ts, file, *old(pos) as int),
            p0 < *pos <= tokens.len(),
            ts[p0 as int].indent == if_indent,
            ts[p0 as int].line == if_line,
            ts[p0 as int].col == if_col,
        ensures
            found_end ==> target == (
                Ok::<NodeSpec, ErrorSpec>(
                    NodeSpec::Conditional {
                        condition: condition@,
                        then_branch: nodes_view(then_branch@),
                        else_if_branches: branches_view(else_if_branches@),
                        else_branch: match else_branch {
                            Some(b) => Some(nodes_view(b@)),
                            None => None,
                        },
                    },
                ),
                *pos as int,
            ),
            !found_end ==> target.0 == Err::<NodeSpec, ErrorSpec>(
                syntax_err(file, if_line as nat, if_col as nat, "if 块缺少对应的 'end' 标签"@),
            ),
        decreases tokens.len() - *pos,
    {
        let p1 = *pos;
        proof {
            assert(ts[p1 as int] == tokens@[p1 as int]@);
        }
        match &tokens[p1].kind {
            TokenKind::ElseIf(cond) => {
                let cond = clone_string(cond);
                *pos += 1;
                match parse_block_body(tokens, pos, if_indent, file_name) {
                    Ok(branch) => {
                        let ghost bv = (cond@, nodes_view(branch@));
                        proof {
                            lemma_branches_view_push(else_if_branches@, (cond, branch));
                        }
                        else_if_branches.push((cond, branch));
                    },
                    Err(e) => {
                        return Err(e);
                    },
                }
            },
            TokenKind::Else => {
                *pos += 1;
                match parse_block_body(tokens, pos, if_indent, file_name) {
                    Ok(branch) => {
                        else_branch = Some(branch);
                    },
                    Err(e) => {
                        return Err(e);
                    },
                }
            },
            TokenKind::End => {
                *pos += 1;
                found_end = true;
                break;
            },
            _ => {
                break;
            },
        }
    }
    if !found_end {
        return Err(
            CbtmlError::syntax(file_name, if_line, if_col, "if 块缺少对应的 'end' 标签".to_owned()),
        );
    }
    Ok(Node::Conditional { condition, then_branch, else_if_branches, else_branch })
}

/// Parses the body of a control block (`if`/`for`) up to the `end`, `else`
/// or `else if` at the block's own indentation.
fn parse_block_body(tokens: &[Token], pos: &mut usize, block_indent: usize, file_name: &str) -> (r:
    Result<Vec<Node>, CbtmlError>)
    requires
        *old(pos) <= tokens.len(),
    ensures
        match r {
            Ok(v) => p_block(
                tokens_view(tokens@),
                file_name@,
                *old(pos) as int,
                block_indent as nat,
                Seq::empty(),
            ) == (Ok::<Seq<NodeSpec>, ErrorSpec>(nodes_view(v@)), *final(pos) as int) && *old(pos)
                <= *final(pos) <= tokens.len(),
            Err(e) => p_block(
                tokens_view(tokens@),
                file_name@,
                *old(pos) as int,
                block_indent as nat,
                Seq::empty(),
            ).0 == Err::<Seq<NodeSpec>, ErrorSpec>(e@),
        },
    decreases tokens@.len() - *old(pos), 3int,
{
    let ghost ts = tokens_view(tokens@);
    let ghost file = file_name@;
    let ghost target = p_block(ts, file, *pos as int, block_indent as nat, Seq::empty());
    let mut children: Vec<Node> = Vec::new();
    while *pos < tokens.len()
        invariant_except_break
            target == p_block(ts, file, *pos as int, block_indent as nat, nodes_view(children@)),
        invariant
            ts == tokens_view(tokens@),
            file == file_name@,
            target == p_block(ts, file, *old(pos) as int, block_indent as nat, Seq::empty()),
            *old(pos) <= *pos <= tokens.len(),
        ensures
            target == (Ok::<Seq<NodeSpec>, ErrorSpec>(nodes_view(children@)), *pos as int),
        decreases tokens.len() - *pos,
    {
        let p0 = *pos;
        let token = &tokens[p0];
        proof {
            assert(ts[p0 as int] == tokens@[p0 as int]@);
        }
        if token.indent == block_indent {
            match &token.kind {
                TokenKind::End => {
                    break;
                },
                TokenKind::Else => {
                    break;
                },
                TokenKind::ElseIf(_) => {
                    break;
                },
                _ => {},
            }
        }
        if token.indent < block_indent {
            break;
        }
        let target_indent = token.indent;
        match parse_children(tokens, pos, target_indent, file_name) {
            Ok(inner) => {
                append_nodes(&mut children, inner);
            },
            Err(e) => {
                return Err(e);
            },
        }
        if *pos == p0 {
            *pos += 1;
        }
    }
    Ok(children)
}

/// Parses the children of an element or slot: the following tokens indented
/// deeper than `parent_indent`.
fn parse_indented_children(
    tokens: &[Token],
    pos: &mut usize,
    parent_indent: usize,
    file_name: &str,
) -> (r: Result<Vec<Node>, CbtmlError>)
    requires
        *old(pos) <= tokens.len(),
    ensures
        match r {
            Ok(v) => p_indented(
                tokens_view(tokens@),
                file_name@,
                *old(pos) as int,
                parent_indent as nat,
            ) == (Ok::<Seq<NodeSpec>, ErrorSpec>(nodes_view(v@)), *final(pos) as int) && *old(pos)
                <= *final(pos) <= tokens.len(),
            Err(e) => p_indented(
                tokens_view(tokens@),
                file_name@,
                *old(pos) as int,
                parent_indent as nat,
            ).0 == Err::<Seq<NodeSpec>, ErrorSpec>(e@),
        },
    decreases tokens@.len() - *old(pos), 3int,
{
    proof {
        if *pos < tokens.len() {
            assert(tokens_view(tokens@)[*pos as int] == tokens@[*pos as int]@);
        }
    }
    if *pos >= tokens.len() || tokens[*pos].indent <= parent_indent {
        let v: Vec<Node> = Vec::new();
        assert(nodes_view(v@) == Seq::<NodeSpec>::empty());
        return Ok(v);
    }
    let child_indent = tokens[*pos].indent;
    parse_children(tokens, pos, child_indent, file_name)
}

/// Parses a token sequence into a document tree.
pub fn parse(tokens: Vec<Token>, file_name: &str) -> (r: Result<Node, CbtmlError>)
    ensures
        match r {
            Ok(n) => parse_spec(tokens_view(tokens@), file_name@) == Ok::<NodeSpec, ErrorSpec>(n@),
            Err(e) => parse_spec(tokens_view(tokens@), file_name@) == Err::<NodeSpec, ErrorSpec>(e@),
        },
{
    let mut extends: Option<String> = None;
    let mut pos: usize = 0;
    proof {
        if tokens.len() > 0 {
            assert(tokens_view(tokens@)[0] == tokens@[0]@);
        }
    }
    if tokens.len() > 0 {
        match &tokens[0].kind {
            TokenKind::Extends(parent) => {
                extends = Some(clone_string(parent));
                pos = 1;
            },
            _ => {},
        }
    }
    match parse_children(tokens.as_slice(), &mut pos, 0, file_name) {
        Ok(children) => Ok(Node::Document { extends, children }),
        Err(e) => Err(e),
    }
}
} // verus!

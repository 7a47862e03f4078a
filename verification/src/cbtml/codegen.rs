//! Code generation: the cbtml syntax tree as a MiniJinja template.
use crate::cbtml::error::CbtmlError;
use crate::cbtml::parser::{
    branches_view, is_void_element, is_void_tag, lemma_nodes_view_push, node_view, nodes_view, Node,
    NodeSpec,
};
use crate::text::{
    chars_of, index_of_exec, index_of_from, join_seq, join_strings, push_all, string_of_range,
    string_push_str,
};
use vstd::prelude::*;

verus! {

/// The template an `extends` refers to: `theme:name` becomes
/// `theme/name.cbtml`, `name` becomes `name.cbtml`.
pub open spec fn template_path(p: Seq<char>) -> Seq<char> {
    let k = index_of_from(p, ':', 0);
    if k < p.len() {
        p.take(k) + "/"@ + p.skip(k + 1) + ".cbtml"@
    } else {
        p + ".cbtml"@
    }
}

/// The attributes of an element as ` key="value"` pairs.
pub open spec fn gen_attrs(a: Seq<(Seq<char>, Seq<char>)>) -> Seq<char>
    decreases a.len(),
{
    if a.len() == 0 {
        Seq::empty()
    } else {
        gen_attrs(a.drop_last()) + " "@ + a.last().0 + "=\""@ + a.last().1 + "\""@
    }
}

/// The opening tag of an element, up to its attributes.
pub open spec fn elem_open(
    tag: Seq<char>,
    classes: Seq<Seq<char>>,
    id: Option<Seq<char>>,
    attributes: Seq<(Seq<char>, Seq<char>)>,
) -> Seq<char> {
    "<"@ + tag + (if classes.len() > 0 {
        " class=\""@ + join_seq(classes, " "@) + "\""@
    } else {
        Seq::empty()
    }) + (match id {
        Some(i) => " id=\""@ + i + "\""@,
        None => Seq::empty(),
    }) + gen_attrs(attributes)
}

/// The MiniJinja text of a node.
pub open spec fn gen(n: NodeSpec) -> Seq<char>
    decreases n,
{
    match n {
        NodeSpec::Document { extends, children } => (match extends {
            Some(p) => "{% extends \""@ + template_path(p) + "\" %}\n"@,
            None => Seq::empty(),
        }) + gen_all(children),
        NodeSpec::Element { tag, classes, id, attributes, children, self_closing } => elem_open(
            tag,
            classes,
            id,
            attributes,
        ) + if self_closing || is_void_tag(tag) {
            " />"@
        } else {
            ">"@ + gen_all(children) + "</"@ + tag + ">"@
        },
        NodeSpec::Text(t) => t,
        NodeSpec::Expression(e) => "{{ "@ + e + " }}"@,
        NodeSpec::Raw(e) => "{{ "@ + e + " | safe }}"@,
        NodeSpec::Conditional { condition, then_branch, else_if_branches, else_branch } => "{% if "@
            + condition + " %}"@ + gen_all(then_branch) + gen_elifs(else_if_branches) + (match else_branch {
            Some(b) => "{% else %}"@ + gen_all(b),
            None => Seq::empty(),
        }) + "{% endif %}"@,
        NodeSpec::ForLoop { var, collection, body } => "{% for "@ + var + " in "@ + collection
            + " %}"@ + gen_all(body) + "{% endfor %}"@,
        NodeSpec::Slot { name, children } => "{% block "@ + name + " %}"@ + gen_all(children)
            + "{% endblock "@ + name + " %}"@,
        NodeSpec::Include(p) => "{% include \""@ + p + ".cbtml\" %}"@,
        NodeSpec::Style(c) => "<style>"@ + c + "</style>"@,
        NodeSpec::Script(c) => "<script>"@ + c + "</script>"@,
        NodeSpec::Comment(_) => Seq::empty(),
        NodeSpec::Hook { name, data } => if data.len() == 0 {
            "{{ hook(\""@ + name + "\") }}"@
        } else {
            "{{ hook(\""@ + name + "\", "@ + data + ") }}"@
        },
    }
}

/// The MiniJinja text of a node list.
pub open spec fn gen_all(s: Seq<NodeSpec>) -> Seq<char>
    decreases s,
{
    if s.len() == 0 {
        Seq::empty()
    } else {
        gen_all(s.drop_last()) + gen(s.last())
    }
}

/// The MiniJinja text of the `else if` branches.
pub open spec fn gen_elifs(s: Seq<(Seq<char>, Seq<NodeSpec>)>) -> Seq<char>
    decreases s,
{
    if s.len() == 0 {
        Seq::empty()
    } else {
        gen_elifs(s.drop_last()) + "{% elif "@ + s.last().0 + " %}"@ + gen_all(s.last().1)
    }
}

fn gen_children(nodes: &Vec<Node>, output: &mut String)
    ensures
        final(output)@ == old(output)@ + gen_all(nodes_view(nodes@)),
    decreases nodes@, 0int,
{
    let mut i: usize = 0;
    while i < nodes.len()
        invariant
            i <= nodes.len(),
            output@ == old(output)@ + gen_all(nodes_view(nodes@.take(i as int))),
        decreases nodes.len() - i,
    {
        proof {
            assert(nodes@.take(i + 1).drop_last() == nodes@.take(i as int));
            lemma_nodes_view_push(nodes@.take(i as int), nodes@[i as int]);
            assert(nodes@.take(i + 1) == nodes@.take(i as int).push(nodes@[i as int]));
            assert(decreases_to!(nodes@ => nodes@[i as int]));
        }
        generate_node(&nodes[i], output);
        proof {
            let x = nodes_view(nodes@.take(i as int));
            assert(x.push(node_view(nodes@[i as int])).drop_last() == x);
        }
        i += 1;
    }
    assert(nodes@.take(nodes.len() as int) == nodes@);
}

fn gen_attrs_exec(a: &Vec<(String, String)>, output: &mut String)
    ensures
        final(output)@ == old(output)@ + gen_attrs(a.deep_view()),
{
    let mut i: usize = 0;
    while i < a.len()
        invariant
            i <= a.len(),
            output@ == old(output)@ + gen_attrs(a.deep_view().take(i as int)),
        decreases a.len() - i,
    {
        let (k, v) = &a[i];
        string_push_str(output, " ");
        push_all(output, k);
        string_push_str(output, "=\"");
        push_all(output, v);
        string_push_str(output, "\"");
        proof {
            let t = a.deep_view().take(i + 1);
            assert(t.drop_last() == a.deep_view().take(i as int));
            assert(t.last() == (k@, v@));
        }
        i += 1;
    }
    assert(a.deep_view().take(a.len() as int) == a.deep_view());
}

fn gen_elem_open(
    tag: &String,
    classes: &Vec<String>,
    id: &Option<String>,
    attributes: &Vec<(String, String)>,
    output: &mut String,
)
    ensures
        final(output)@ == old(output)@ + elem_open(
            tag@,
            classes.deep_view(),
            id.deep_view(),
            attributes.deep_view(),
        ),
{
    string_push_str(output, "<");
    push_all(output, tag);
    if classes.len() > 0 {
        string_push_str(output, " class=\"");
        let joined = join_strings(classes, " ");
        push_all(output, &joined);
        string_push_str(output, "\"");
    }
    match id {
        Some(i) => {
            string_push_str(output, " id=\"");
            push_all(output, i);
            string_push_str(output, "\"");
        },
        None => {},
    }
    gen_attrs_exec(attributes, output);
}

#[verifier::spinoff_prover]
fn gen_element(node: &Node, output: &mut String)
    requires
        *node is Element,
    ensures
        final(output)@ == old(output)@ + gen(node_view(*node)),
    decreases *node, 0int,
{
    match node {
        Node::Element { tag, classes, id, attributes, children, self_closing } => {
            gen_elem_open(tag, classes, id, attributes, output);
            let ghost mid = output@;
            if *self_closing || is_void_element(tag.as_str()) {
                string_push_str(output, " />");
            } else {
                string_push_str(output, ">");
                gen_children(children, output);
                string_push_str(output, "</");
                push_all(output, tag);
                string_push_str(output, ">");
            }
        },
        _ => {},
    }
}

#[verifier::spinoff_prover]
fn gen_conditional(node: &Node, output: &mut String)
    requires
        *node is Conditional,
    ensures
        final(output)@ == old(output)@ + gen(node_view(*node)),
    decreases *node, 0int,
{
    match node {
        Node::Conditional { condition, then_branch, else_if_branches, else_branch } => {
            string_push_str(output, "{% if ");
            push_all(output, condition);
            string_push_str(output, " %}");
            gen_children(then_branch, output);
            let mut i: usize = 0;
            let ghost mid = output@;
            while i < else_if_branches.len()
                invariant
                    *node is Conditional,
                    node->else_if_branches == *else_if_branches,
                    i <= else_if_branches.len(),
                    output@ == mid + gen_elifs(branches_view(else_if_branches@.take(i as int))),
                decreases else_if_branches.len() - i,
            {
                let (cond, branch) = &else_if_branches[i];
                string_push_str(output, "{% elif ");
                push_all(output, cond);
                string_push_str(output, " %}");
                proof {
                    assert(decreases_to!(*node => node->else_if_branches));
                    assert(decreases_to!(node->else_if_branches => node->else_if_branches@));
                    assert(decreases_to!(node->else_if_branches@ => node->else_if_branches@[i as int]));
                    assert(decreases_to!(node->else_if_branches@[i as int] => node->else_if_branches@[i as int].1));
                    assert(decreases_to!(node->else_if_branches@[i as int].1 => node->else_if_branches@[i as int].1@));
                }
                gen_children(branch, output);
                proof {
                    let t = else_if_branches@.take(i + 1);
                    assert(t.drop_last() == else_if_branches@.take(i as int));
                    assert(t.last() == else_if_branches@[i as int]);
                    let bv = branches_view(else_if_branches@.take(i as int));
                    assert(bv.push((cond@, nodes_view(branch@))).drop_last() == bv);
                }
                i += 1;
            }
            assert(else_if_branches@.take(else_if_branches.len() as int) == else_if_branches@);
            match else_branch {
                Some(b) => {
                    string_push_str(output, "{% else %}");
                    gen_children(b, output);
                },
                None => {},
            }
            string_push_str(output, "{% endif %}");
        },
        _ => {},
    }
}

/// Appends the MiniJinja text of `node` to `output`.
#[verifier::spinoff_prover]
#[verifier::rlimit(50)]
fn generate_node(node: &Node, output: &mut String)
    ensures
        final(output)@ == old(output)@ + gen(node_view(*node)),
    decreases *node, 1int,
{
    match node {
        Node::Document { extends, children } => {
            match extends {
                Some(parent) => {
                    let pv = chars_of(parent.as_str());
                    let k = index_of_exec(&pv, ':', 0);
                    string_push_str(output, "{% extends \"");
                    if k < pv.len() {
                        let theme = string_of_range(&pv, 0, k);
                        let template = string_of_range(&pv, k + 1, pv.len());
                        push_all(output, &theme);
                        string_push_str(output, "/");
                        push_all(output, &template);
                        string_push_str(output, ".cbtml");
                        assert(pv@.take(k as int) == pv@.subrange(0, k as int));
                        assert(pv@.skip(k + 1) == pv@.subrange(k + 1, pv@.len() as int));
                    } else {
                        push_all(output, parent);
                        string_push_str(output, ".cbtml");
                    }
                    string_push_str(output, "\" %}\n");
                },
                None => {},
            }
            gen_children(children, output);
        },
        Node::Element { .. } => {
            gen_element(node, output);
        },
        Node::Text(text) => {
            push_all(output, text);
        },
        Node::Expression(expr) => {
            string_push_str(output, "{{ ");
            push_all(output, expr);
            string_push_str(output, " }}");
        },
        Node::Raw(expr) => {
            string_push_str(output, "{{ ");
            push_all(output, expr);
            string_push_str(output, " | safe }}");
        },
        Node::Conditional { .. } => {
            gen_conditional(node, output);
        },
        Node::ForLoop { var, collection, body } => {
            string_push_str(output, "{% for ");
            push_all(output, var);
            string_push_str(output, " in ");
            push_all(output, collection);
            string_push_str(output, " %}");
            gen_children(body, output);
            string_push_str(output, "{% endfor %}");
        },
        Node::Slot { name, children } => {
            string_push_str(output, "{% block ");
            push_all(output, name);
            string_push_str(output, " %}");
            gen_children(children, output);
            string_push_str(output, "{% endblock ");
            push_all(output, name);
            string_push_str(output, " %}");
        },
        Node::Include(path) => {
            string_push_str(output, "{% include \"");
            push_all(output, path);
            string_push_str(output, ".cbtml\" %}");
        },
        Node::Style(content) => {
            string_push_str(output, "<style>");
            push_all(output, content);
            string_push_str(output, "</style>");
        },
        Node::Script(content) => {
            string_push_str(output, "<script>");
            push_all(output, content);
            string_push_str(output, "</script>");
        },
        Node::Comment(_) => {},
        Node::Hook { name, data } => {
            let dv = chars_of(data.as_str());
            string_push_str(output, "{{ hook(\"");
            push_all(output, name);
            if dv.len() == 0 {
                string_push_str(output, "\") }}");
            } else {
                string_push_str(output, "\", ");
                push_all(output, data);
                string_push_str(output, ") }}");
            }
        },
    }
}

/// The MiniJinja template text of a cbtml syntax tree.
pub fn generate(ast: &Node) -> (r: Result<String, CbtmlError>)
    ensures
        r matches Ok(s) && s@ == gen(ast@),
{
    let mut output = String::new();
    generate_node(ast, &mut output);
    Ok(output)
}

/// A parent written `theme:name` (the theme naming no `:`) is the template
/// `name` in the directory of `theme`: `theme/name.cbtml`; a parent written
/// without `:` is `name.cbtml` in the active theme.
pub proof fn law_extends_path(theme: Seq<char>, name: Seq<char>)
    requires
        forall|i: int| 0 <= i < theme.len() ==> theme[i] != ':',
    ensures
        template_path(theme + ":"@ + name) == theme + "/"@ + name + ".cbtml"@,
        (forall|i: int| 0 <= i < name.len() ==> name[i] != ':') ==> template_path(name) == name
            + ".cbtml"@,
{
    reveal_strlit(":");
    let p = theme + ":"@ + name;
    crate::text::lemma_index_of_props(p, ':', 0);
    let k = index_of_from(p, ':', 0);
    assert(p[theme.len() as int] == ':');
    if k < theme.len() {
        assert(p[k] == theme[k]);
    }
    assert(k == theme.len());
    assert(p.take(k) =~= theme);
    assert(p.skip(k + 1) =~= name);
    crate::text::lemma_index_of_props(name, ':', 0);
}

/// A document whose first line is `extends theme:name` begins with the
/// MiniJinja `extends` of `theme/name.cbtml`, then its content.
pub proof fn law_extends_line(theme: Seq<char>, name: Seq<char>, children: Seq<NodeSpec>)
    requires
        forall|i: int| 0 <= i < theme.len() ==> theme[i] != ':',
    ensures
        gen(NodeSpec::Document { extends: Some(theme + ":"@ + name), children }) == "{% extends \""@
            + theme + "/"@ + name + ".cbtml\" %}\n"@ + gen_all(children),
{
    law_extends_path(theme, name);
    reveal_strlit("/");
    reveal_strlit(".cbtml");
    reveal_strlit(".cbtml\" %}\n");
    reveal_strlit("\" %}\n");
    assert("{% extends \""@ + (theme + "/"@ + name + ".cbtml"@) + "\" %}\n"@ =~= "{% extends \""@
        + theme + "/"@ + name + ".cbtml\" %}\n"@);
}

} // verus!

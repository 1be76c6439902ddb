//! The tree as indented text, one node per line.

use vstd::prelude::*;
use vstd::string::StringExecFns;
use crate::chars::{is_white_space, push_char, white_space};
use crate::dom::{attrs_view, AttrsView, KindView, Node, NodeType, NodeView};

verus! {

/// Whether `t` consists of whitespace only.
pub open spec fn blank(t: Seq<char>) -> bool {
    forall|i: int| 0 <= i < t.len() ==> white_space(#[trigger] t[i])
}

/// Two spaces for each level.
pub open spec fn indent_of(n: nat) -> Seq<char>
    decreases n,
{
    if n == 0 {
        Seq::empty()
    } else {
        indent_of((n - 1) as nat) + seq![' ', ' ']
    }
}

/// One attribute: ` name` when its value is empty, else ` name="value"`.
pub open spec fn attr_text(e: (Seq<char>, Seq<char>)) -> Seq<char> {
    if e.1.len() == 0 {
        seq![' '] + e.0
    } else {
        seq![' '] + e.0 + seq!['=', '"'] + e.1 + seq!['"']
    }
}

/// The first `i` attributes of `a`, in order.
pub open spec fn attrs_text(a: AttrsView, i: int) -> Seq<char>
    decreases i,
{
    if 0 < i <= a.len() {
        attrs_text(a, i - 1) + attr_text(a[i - 1])
    } else {
        Seq::empty()
    }
}

/// The lines for the tree `v`, each starting with `ind`: `Document` for the
/// root (without its children); `Text: '...'` for a text node that is not
/// whitespace only, nothing for one that is; for an element its tag and
/// attributes, closed by ` />` when it has no children, else followed by its
/// children one level deeper and its closing tag.
pub open spec fn dom_text(v: NodeView, ind: Seq<char>) -> Seq<char>
    decreases v, 0int,
{
    match v.kind {
        KindView::Document => ind + "Document\n"@,
        KindView::Text(t) => if blank(t) {
            Seq::empty()
        } else {
            ind + "Text: '"@ + t + "'\n"@
        },
        KindView::Element(tag, a) => {
            let head = ind + seq!['<'] + tag + attrs_text(a, a.len() as int);
            if v.children.len() == 0 {
                head + " />\n"@
            } else {
                head + ">\n"@ + dom_text_upto(v.children, ind + "  "@, v.children.len() as int) + ind
                    + "</"@ + tag + ">\n"@
            }
        },
    }
}

/// The lines for the trees `vs[0]`, ..., `vs[i - 1]`, in order.
pub open spec fn dom_text_upto(vs: Seq<NodeView>, ind: Seq<char>, i: int) -> Seq<char>
    decreases vs, i,
{
    if 0 < i <= vs.len() {
        dom_text_upto(vs, ind, i - 1) + dom_text(vs[i - 1], ind)
    } else {
        Seq::empty()
    }
}

/// Whether `t` consists of whitespace only.
fn is_blank(t: &String) -> (r: bool)
    ensures
        r == blank(t@),
{
    let mut all = true;
    let ghost mut seen: Seq<char> = Seq::empty();
    for c in it: t.as_str().chars()
        invariant
            seen == it.seq().take(it.index() as int),
            all == (forall|j: int| 0 <= j < seen.len() ==> white_space(#[trigger] seen[j])),
    {
        let ghost prev = seen;
        let w = is_white_space(c);
        if !w {
            all = false;
        }
        proof {
            seen = seen.push(c);
            assert(forall|j: int| 0 <= j < prev.len() ==> seen[j] == prev[j]);
            assert(seen[prev.len() as int] == c);
            if !w {
                assert(!white_space(seen[prev.len() as int]));
            }
        }
        assert(seen =~= it.seq().take(it.index() + 1));
    }
    proof {
        broadcast use vstd::string::group_string_axioms;
    }
    assert(seen =~= t@);
    all
}

/// Appends the lines for `node`, each starting with `ind`.
fn render_into(node: &Node, ind: &String, out: &mut String)
    ensures
        final(out)@ == old(out)@ + dom_text(node@, ind@),
    decreases node,
{
    let ghost start = out@;
    match &node.node_type {
        NodeType::Document => {
            out.append(ind.as_str());
            out.append("Document\n");
            assert(out@ =~= start + dom_text(node@, ind@));
        },
        NodeType::Text(t) => {
            if !is_blank(t) {
                out.append(ind.as_str());
                out.append("Text: '");
                out.append(t.as_str());
                out.append("'\n");
                assert(out@ =~= start + dom_text(node@, ind@));
            } else {
                assert(out@ =~= start + dom_text(node@, ind@));
            }
        },
        NodeType::Element(e) => {
            let ghost a = attrs_view(e.attributes@);
            out.append(ind.as_str());
            push_char(out, '<');
            out.append(e.tag_name.as_str());
            let ghost base = out@;
            assert(base =~= start + ind@ + seq!['<'] + e.tag_name@);
            let mut i: usize = 0;
            while i < e.attributes.len()
                invariant
                    i <= e.attributes@.len(),
                    a == attrs_view(e.attributes@),
                    out@ == base + attrs_text(a, i as int),
                decreases e.attributes@.len() - i,
            {
                let ghost before = out@;
                push_char(out, ' ');
                out.append(e.attributes[i].0.as_str());
                if e.attributes[i].1.as_str().unicode_len() == 0 {
                    assert(out@ =~= before + attr_text(a[i as int]));
                } else {
                    out.append("=\"");
                    out.append(e.attributes[i].1.as_str());
                    push_char(out, '"');
                    proof {
                        reveal_strlit("=\"");
                    }
                    assert(out@ =~= before + attr_text(a[i as int]));
                }
                i += 1;
                assert(out@ =~= base + attrs_text(a, i as int));
            }
            let ghost head = out@;
            if node.children.len() == 0 {
                out.append(" />\n");
                assert(out@ =~= start + dom_text(node@, ind@));
            } else {
                out.append(">\n");
                let mut inner = ind.clone();
                inner.append("  ");
                let ghost mid = out@;
                let mut j: usize = 0;
                while j < node.children.len()
                    invariant
                        j <= node.children@.len(),
                        inner@ == ind@ + "  "@,
                        out@ == mid + dom_text_upto(node@.children, inner@, j as int),
                    decreases node.children@.len() - j,
                {
                    assert(node@.children[j as int] == node.children@[j as int]@);
                    render_into(&node.children[j], &inner, out);
                    j += 1;
                    assert(dom_text_upto(node@.children, inner@, j as int) == dom_text_upto(
                        node@.children,
                        inner@,
                        j - 1,
                    ) + dom_text(node@.children[j - 1], inner@));
                    assert(out@ =~= mid + dom_text_upto(node@.children, inner@, j as int));
                }
                out.append(ind.as_str());
                out.append("</");
                out.append(e.tag_name.as_str());
                out.append(">\n");
                assert(out@ =~= start + dom_text(node@, ind@));
            }
        },
    }
}

/// The lines for `node`, indented by `indent_level` levels of two spaces.
pub fn render_dom(node: &Node, indent_level: usize) -> (r: String)
    ensures
        r@ == dom_text(node@, indent_of(indent_level as nat)),
{
    let mut ind = String::new();
    let mut i: usize = 0;
    while i < indent_level
        invariant
            i <= indent_level,
            ind@ == indent_of(i as nat),
        decreases indent_level - i,
    {
        push_char(&mut ind, ' ');
        push_char(&mut ind, ' ');
        i += 1;
        assert(ind@ =~= indent_of(i as nat));
    }
    let mut out = String::new();
    render_into(node, &ind, &mut out);
    assert(out@ =~= dom_text(node@, ind@));
    out
}

} // verus!
